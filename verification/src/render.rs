//! Format dispatch: routing a batch of text to the structured parser or
//! the token highlighter.
//!
//! The choice is a pure function of the mode selector alone: the selector
//! `clf` picks the structured parser, any other selector — the default —
//! picks the token highlighter. Batches are split into lines and empty
//! lines are always skipped.

use vstd::prelude::*;

use crate::clf::{clf_span_rendered, line_span_pairs, render_clf};
use crate::highlight::{adhoc_rendered, highlight_line};
use crate::text::{lines_of, split_lines, str_eq};

verus! {

/// The non-empty members of `ls`, in order.
pub open spec fn nonempty_of(ls: Seq<Seq<char>>) -> Seq<Seq<char>>
    decreases ls.len(),
{
    if ls.len() == 0 {
        ls
    } else {
        let rest = nonempty_of(ls.drop_last());
        if ls.last().len() == 0 {
            rest
        } else {
            rest.push(ls.last())
        }
    }
}

/// Renders a whole batch in highlighter mode: one rendered line per
/// non-empty input line, in order; empty lines are skipped.
pub fn render_adhoc(contents: &str) -> (r: Vec<String>)
    ensures
        r@.len() == nonempty_of(lines_of(contents@)).len(),
        forall|k: int|
            0 <= k < r@.len() ==> adhoc_rendered(
                #[trigger] r@[k]@,
                nonempty_of(lines_of(contents@))[k],
            ),
{
    let lines = split_lines(contents);
    let ln: usize = lines.len();
    let mut out: Vec<String> = Vec::new();
    let ghost mut kept: Seq<Seq<char>> = Seq::empty();
    let mut i: usize = 0;
    proof {
        assert(lines_of(contents@).take(0) =~= Seq::<Seq<char>>::empty());
    }
    while i < ln
        invariant
            ln == lines@.len(),
            Seq::new(lines@.len(), |k: int| lines@[k]@) == lines_of(contents@),
            i <= ln,
            kept == nonempty_of(lines_of(contents@).take(i as int)),
            out@.len() == kept.len(),
            forall|j: int| 0 <= j < out@.len() ==> adhoc_rendered(#[trigger] out@[j]@, kept[j]),
        decreases ln - i,
    {
        let ghost line_view = lines@[i as int]@;
        proof {
            let prefix = lines_of(contents@).take(i + 1);
            assert(prefix.drop_last() =~= lines_of(contents@).take(i as int));
            assert(prefix.last() == line_view);
        }
        let line = &lines[i];
        if line.unicode_len() > 0 {
            let rendered = highlight_line(line.as_str());
            out.push(rendered);
            proof {
                kept = kept.push(line_view);
            }
        }
        i = i + 1;
    }
    proof {
        assert(lines_of(contents@).take(ln as int) =~= lines_of(contents@));
    }
    out
}

/// Routes a batch of text by the mode selector, once per run: `clf`
/// renders each line's structured matches, any other selector renders
/// each non-empty line through the token highlighter.
pub fn render_contents(contents: &str, mode: &str) -> (r: Vec<String>)
    ensures
        mode@ == "clf"@ ==> {
            &&& r@.len() == line_span_pairs(lines_of(contents@)).len()
            &&& forall|k: int|
                0 <= k < r@.len() ==> clf_span_rendered(
                    #[trigger] r@[k]@,
                    line_span_pairs(lines_of(contents@))[k].0,
                    line_span_pairs(lines_of(contents@))[k].1,
                )
        },
        mode@ != "clf"@ ==> {
            &&& r@.len() == nonempty_of(lines_of(contents@)).len()
            &&& forall|k: int|
                0 <= k < r@.len() ==> adhoc_rendered(
                    #[trigger] r@[k]@,
                    nonempty_of(lines_of(contents@))[k],
                )
        },
{
    if str_eq(mode, "clf") {
        render_clf(contents)
    } else {
        render_adhoc(contents)
    }
}

} // verus!
