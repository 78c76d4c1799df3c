//! The incremental tailing state machine.
//!
//! A tailer owns the read position inside a growing file. The watch loop
//! around it observes change notifications, re-reads the file from the
//! position this state yields, and hands the freshly appended bytes on as
//! one batch.

use vstd::prelude::*;

verus! {

/// The bytes a tail step emits out of a file snapshot: everything from the
/// stored offset to the end, or the whole content when the file has shrunk
/// below the offset (rotation or truncation), which resets the tailer to
/// the start of the file.
pub open spec fn batch_of(content: Seq<u8>, offset: int) -> Seq<u8> {
    if content.len() < offset {
        content
    } else {
        content.subrange(offset, content.len() as int)
    }
}

/// File-position state owned by one tailer.
pub struct TailState {
    pub path: String,
    pub byte_offset: u64,
    pub last_known_length: u64,
}

impl TailState {
    /// At rest between change events the offset never exceeds the length
    /// last seen.
    pub open spec fn wf(&self) -> bool {
        self.byte_offset <= self.last_known_length
    }

    /// Starts tailing at end-of-file: content already present when tailing
    /// begins is never emitted, only subsequent appends are.
    pub fn start(path: String, current_len: u64) -> (s: Self)
        ensures
            s.wf(),
            s.path == path,
            s.byte_offset == current_len,
            s.last_known_length == current_len,
    {
        TailState { path, byte_offset: current_len, last_known_length: current_len }
    }

    /// Applies a change notification carrying the file's new length and
    /// yields the position to read from: the stored offset, or zero when
    /// the file shrank below it. Whatever snapshot of that length the
    /// reader then sees, the bytes from the returned position to its end
    /// are exactly the batch owed for this change.
    pub fn begin_change(&mut self, new_len: u64) -> (start: u64)
        ensures
            final(self).wf(),
            final(self).path == old(self).path,
            final(self).byte_offset == new_len,
            final(self).last_known_length == new_len,
            start == (if new_len < old(self).byte_offset {
                0u64
            } else {
                old(self).byte_offset
            }),
            forall|content: Seq<u8>|
                content.len() == new_len ==> #[trigger] content.subrange(
                    start as int,
                    new_len as int,
                ) == batch_of(content, old(self).byte_offset as int),
    {
        let start: u64 = if new_len < self.byte_offset {
            0
        } else {
            self.byte_offset
        };
        self.byte_offset = new_len;
        self.last_known_length = new_len;
        proof {
            assert forall|content: Seq<u8>| content.len() == new_len implies #[trigger] content
                .subrange(start as int, new_len as int) == batch_of(
                content,
                old(self).byte_offset as int,
            ) by {
                assert(content.subrange(start as int, new_len as int) =~= batch_of(
                    content,
                    old(self).byte_offset as int,
                ));
            }
        }
        start
    }
}

/// Two appends observed as two change events emit exactly the two appended
/// byte runs, in order: never their concatenation in one batch, and never a
/// repetition of content already emitted.
pub proof fn lemma_two_appends(c0: Seq<u8>, s1: Seq<u8>, s2: Seq<u8>)
    ensures
        batch_of(c0 + s1, c0.len() as int) == s1,
        batch_of(c0 + s1 + s2, (c0 + s1).len() as int) == s2,
{
    assert(batch_of(c0 + s1, c0.len() as int) =~= s1);
    assert(batch_of(c0 + s1 + s2, (c0 + s1).len() as int) =~= s2);
}

} // verus!
