//! The token highlighter: classifies characters and whitespace-delimited
//! words of a free-form line for visual emphasis.
//!
//! Two passes run in order. The character pass styles every double quote
//! and square bracket and leaves all other characters untouched. The word
//! pass splits the character-pass output on whitespace and classifies each
//! token by the first matching rule: a token made of digits alone is
//! styled whole; otherwise an embedded dotted-quad digit pattern is styled
//! in place, surroundings kept verbatim; otherwise an embedded HTTP verb
//! keyword is styled in place; otherwise the token stays as it is. Styled
//! tokens are joined with single spaces and no trailing space.

use vstd::prelude::*;

use crate::style::{
    paint_blue, paint_bright_cyan, paint_bright_green, paint_red_on_white, styled_wrap,
};
use crate::text::{chars_of, digit_run, digit_run_exec, split_tokens, subseq_of, tokens_of};

verus! {

/// The characters the first pass styles: double quotes and square
/// brackets.
pub open spec fn is_mark_char(c: char) -> bool {
    c == '"' || c == '[' || c == ']'
}

/// No quote or bracket anywhere in `s`.
pub open spec fn no_marks(s: Seq<char>) -> bool {
    forall|i: int| 0 <= i < s.len() ==> !is_mark_char(#[trigger] s[i])
}

/// A non-empty word made of decimal digits alone.
pub open spec fn is_all_digits(w: Seq<char>) -> bool {
    w.len() > 0 && digit_run(w, 0) == w.len()
}

/// The end of a dotted-quad digit pattern starting at `i`: four runs of
/// one to three digits separated by single dots. The last group takes at
/// most three digits and leaves any further digits outside the pattern.
pub open spec fn quad_at(s: Seq<char>, i: int) -> Option<int> {
    let r1 = digit_run(s, i) as int;
    if 1 <= r1 <= 3 && i + r1 < s.len() && s[i + r1] == '.' {
        let i2 = i + r1 + 1;
        let r2 = digit_run(s, i2) as int;
        if 1 <= r2 <= 3 && i2 + r2 < s.len() && s[i2 + r2] == '.' {
            let i3 = i2 + r2 + 1;
            let r3 = digit_run(s, i3) as int;
            if 1 <= r3 <= 3 && i3 + r3 < s.len() && s[i3 + r3] == '.' {
                let i4 = i3 + r3 + 1;
                let r4 = digit_run(s, i4) as int;
                if r4 >= 1 {
                    Some(i4 + (if r4 >= 3 {
                        3int
                    } else {
                        r4
                    }))
                } else {
                    None
                }
            } else {
                None
            }
        } else {
            None
        }
    } else {
        None
    }
}

/// The first dotted quad of `s` at or after position `i`, as a start and
/// end position.
pub open spec fn first_quad_from(s: Seq<char>, i: int) -> Option<(int, int)>
    decreases s.len() - i,
{
    if !(0 <= i < s.len()) {
        None
    } else {
        match quad_at(s, i) {
            Some(e) => Some((i, e)),
            None => first_quad_from(s, i + 1),
        }
    }
}

/// The end of an HTTP verb keyword starting at `i`.
pub open spec fn verb_at(s: Seq<char>, i: int) -> Option<int> {
    if 0 <= i && i + 3 <= s.len() && s[i] == 'G' && s[i + 1] == 'E' && s[i + 2] == 'T' {
        Some(i + 3)
    } else if 0 <= i && i + 4 <= s.len() && s[i] == 'P' && s[i + 1] == 'O' && s[i + 2] == 'S' && s[
        i + 3
    ] == 'T' {
        Some(i + 4)
    } else {
        None
    }
}

/// The last HTTP verb keyword of `s` starting before position `i`, as a
/// start and end position.
pub open spec fn last_verb_before(s: Seq<char>, i: int) -> Option<(int, int)>
    decreases i,
{
    if i <= 0 {
        None
    } else {
        match verb_at(s, i - 1) {
            Some(e) => Some((i - 1, e)),
            None => last_verb_before(s, i - 1),
        }
    }
}

/// The classification of one token, in strict precedence order: all
/// digits; else an embedded dotted quad, the first one; else an embedded
/// HTTP verb, the last one; else plain. Only the first matching rule
/// applies.
pub enum WordClass {
    Number,
    Quad { start: int, end: int },
    Verb { start: int, end: int },
    Plain,
}

pub open spec fn classify(w: Seq<char>) -> WordClass {
    if is_all_digits(w) {
        WordClass::Number
    } else {
        match first_quad_from(w, 0) {
            Some((s0, e)) => WordClass::Quad { start: s0, end: e },
            None => match last_verb_before(w, w.len() as int) {
                Some((s0, e)) => WordClass::Verb { start: s0, end: e },
                None => WordClass::Plain,
            },
        }
    }
}

/// What holds of the rendering `out` of one token `w`: the styled span of
/// its classification is wrapped in place with the surroundings kept
/// verbatim, and `w`'s characters stand in `out` in order.
pub open spec fn word_rendered(out: Seq<char>, w: Seq<char>) -> bool {
    &&& match classify(w) {
        WordClass::Number => styled_wrap(out, w),
        WordClass::Quad { start, end } => exists|m: Seq<char>|
            styled_wrap(m, #[trigger] w.subrange(start, end)) && out == w.subrange(0, start) + m
                + w.subrange(end, w.len() as int),
        WordClass::Verb { start, end } => exists|m: Seq<char>|
            styled_wrap(m, #[trigger] w.subrange(start, end)) && out == w.subrange(0, start) + m
                + w.subrange(end, w.len() as int),
        WordClass::Plain => out == w,
    }
    &&& subseq_of(w, out)
}

/// A quad span sits inside the word.
proof fn lemma_first_quad_bounds(s: Seq<char>, i: int)
    requires
        0 <= i,
    ensures
        match first_quad_from(s, i) {
            Some((s0, e)) => i <= s0 < e <= s.len(),
            None => true,
        },
    decreases s.len() - i,
{
    if 0 <= i < s.len() {
        match quad_at(s, i) {
            Some(e) => {
                crate::text::lemma_run_bounds(s, i);
                let r1 = digit_run(s, i) as int;
                crate::text::lemma_run_bounds(s, i + r1 + 1);
                let i2 = i + r1 + 1;
                let r2 = digit_run(s, i2) as int;
                crate::text::lemma_run_bounds(s, i2 + r2 + 1);
                let i3 = i2 + r2 + 1;
                let r3 = digit_run(s, i3) as int;
                crate::text::lemma_run_bounds(s, i3 + r3 + 1);
            },
            None => {
                lemma_first_quad_bounds(s, i + 1);
            },
        }
    }
}

/// A verb span sits inside the word.
proof fn lemma_last_verb_bounds(s: Seq<char>, i: int)
    requires
        i <= s.len(),
    ensures
        match last_verb_before(s, i) {
            Some((s0, e)) => 0 <= s0 < e <= s.len(),
            None => true,
        },
    decreases i,
{
    if i > 0 {
        match verb_at(s, i - 1) {
            Some(e) => {},
            None => {
                lemma_last_verb_bounds(s, i - 1);
            },
        }
    }
}

fn quad_at_exec(v: &Vec<char>, i: usize) -> (r: Option<usize>)
    requires
        i <= v@.len(),
    ensures
        match r {
            Some(e) => quad_at(v@, i as int) == Some(e as int) && i < e <= v@.len(),
            None => quad_at(v@, i as int) is None,
        },
{
    let n: usize = v.len();
    let r1 = digit_run_exec(v, i);
    if !(1 <= r1 && r1 <= 3 && i + r1 < n && v[i + r1] == '.') {
        return None;
    }
    let i2: usize = i + r1 + 1;
    let r2 = digit_run_exec(v, i2);
    if !(1 <= r2 && r2 <= 3 && i2 + r2 < n && v[i2 + r2] == '.') {
        return None;
    }
    let i3: usize = i2 + r2 + 1;
    let r3 = digit_run_exec(v, i3);
    if !(1 <= r3 && r3 <= 3 && i3 + r3 < n && v[i3 + r3] == '.') {
        return None;
    }
    let i4: usize = i3 + r3 + 1;
    let r4 = digit_run_exec(v, i4);
    if r4 >= 1 {
        Some(i4 + (if r4 >= 3 {
            3
        } else {
            r4
        }))
    } else {
        None
    }
}

fn find_first_quad(v: &Vec<char>) -> (r: Option<(usize, usize)>)
    ensures
        match r {
            Some((s0, e)) => first_quad_from(v@, 0) == Some((s0 as int, e as int)) && s0 < e <= v@
                .len(),
            None => first_quad_from(v@, 0) is None,
        },
{
    let n: usize = v.len();
    let mut i: usize = 0;
    while i < n
        invariant
            n == v@.len(),
            i <= n,
            first_quad_from(v@, 0) == first_quad_from(v@, i as int),
        decreases n - i,
    {
        match quad_at_exec(v, i) {
            Some(e) => {
                return Some((i, e));
            },
            None => {},
        }
        i = i + 1;
    }
    None
}

fn find_last_verb(v: &Vec<char>) -> (r: Option<(usize, usize)>)
    ensures
        match r {
            Some((s0, e)) => last_verb_before(v@, v@.len() as int) == Some((s0 as int, e as int))
                && s0 < e <= v@.len(),
            None => last_verb_before(v@, v@.len() as int) is None,
        },
{
    let n: usize = v.len();
    let mut i: usize = n;
    while i > 0
        invariant
            n == v@.len(),
            i <= n,
            last_verb_before(v@, n as int) == last_verb_before(v@, i as int),
        decreases i,
    {
        let j: usize = i - 1;
        if n - j >= 3 && v[j] == 'G' && v[j + 1] == 'E' && v[j + 2] == 'T' {
            return Some((j, j + 3));
        }
        if n - j >= 4 && v[j] == 'P' && v[j + 1] == 'O' && v[j + 2] == 'S' && v[j + 3] == 'T' {
            return Some((j, j + 4));
        }
        proof {
            assert(verb_at(v@, j as int) is None);
        }
        i = j;
    }
    None
}

/// Renders one token with its classification's emphasis.
#[verifier::rlimit(60)]
pub fn highlight_word(word: &str) -> (r: String)
    ensures
        word_rendered(r@, word@),
{
    let v = chars_of(word);
    let n: usize = v.len();
    if n > 0 && digit_run_exec(&v, 0) == n {
        let r = paint_blue(word);
        proof {
            assert(classify(word@) is Number);
            assert(word_rendered(r@, word@));
        }
        return r;
    }
    proof {
        lemma_first_quad_bounds(v@, 0);
        lemma_last_verb_bounds(v@, v@.len() as int);
    }
    match find_first_quad(&v) {
        Some((s0, e)) => {
            let mid = paint_red_on_white(word.substring_char(s0, e));
            let mut out = String::from_str(word.substring_char(0, s0));
            out.append(mid.as_str());
            out.append(word.substring_char(e, n));
            proof {
                let pre = word@.subrange(0, s0 as int);
                let core = word@.subrange(s0 as int, e as int);
                let suf = word@.subrange(e as int, word@.len() as int);
                assert(out@ == pre + mid@ + suf);
                assert(word@ =~= pre + core + suf);
                crate::text::lemma_subseq_refl(pre);
                crate::text::lemma_subseq_refl(suf);
                crate::text::lemma_subseq_concat(pre, pre, core, mid@);
                crate::text::lemma_subseq_concat(pre + core, pre + mid@, suf, suf);
                assert(subseq_of(word@, out@));
                assert(classify(word@) matches WordClass::Quad { start, end } && start == s0 as int
                    && end == e as int);
                assert(word_rendered(out@, word@));
            }
            out
        },
        None => {
            match find_last_verb(&v) {
                Some((s0, e)) => {
                    let mid = paint_bright_green(word.substring_char(s0, e));
                    let mut out = String::from_str(word.substring_char(0, s0));
                    out.append(mid.as_str());
                    out.append(word.substring_char(e, n));
                    proof {
                        let pre = word@.subrange(0, s0 as int);
                        let core = word@.subrange(s0 as int, e as int);
                        let suf = word@.subrange(e as int, word@.len() as int);
                        assert(out@ == pre + mid@ + suf);
                        assert(word@ =~= pre + core + suf);
                        crate::text::lemma_subseq_refl(pre);
                        crate::text::lemma_subseq_refl(suf);
                        crate::text::lemma_subseq_concat(pre, pre, core, mid@);
                        crate::text::lemma_subseq_concat(pre + core, pre + mid@, suf, suf);
                        assert(subseq_of(word@, out@));
                        assert(classify(word@) matches WordClass::Verb { start, end } && start
                            == s0 as int && end == e as int);
                        assert(word_rendered(out@, word@));
                    }
                    out
                },
                None => {
                    let out = String::from_str(word);
                    proof {
                        crate::style::lemma_plain_styled_wrap(word@);
                        assert(classify(word@) is Plain);
                        assert(word_rendered(out@, word@));
                    }
                    out
                },
            }
        },
    }
}

/// What holds of one piece of the character pass: a quote or bracket is
/// styled, any other character passes through unchanged.
pub open spec fn piece_ok(piece: Seq<char>, c: char) -> bool {
    if is_mark_char(c) {
        styled_wrap(piece, seq![c])
    } else {
        piece == seq![c]
    }
}

pub open spec fn pieces_ok(pieces: Seq<Seq<char>>, line: Seq<char>) -> bool {
    pieces.len() == line.len() && forall|i: int|
        0 <= i < line.len() ==> piece_ok(#[trigger] pieces[i], line[i])
}

/// The character pass: every double quote and square bracket is styled in
/// place, all other characters pass through unchanged.
pub fn highlight_chars(line: &str) -> (r: String)
    ensures
        exists|pieces: Seq<Seq<char>>| pieces_ok(pieces, line@) && r@ == pieces.flatten(),
        subseq_of(line@, r@),
        no_marks(line@) ==> r@ == line@,
{
    let v = chars_of(line);
    let n: usize = v.len();
    let mut out = String::new();
    let ghost mut pieces: Seq<Seq<char>> = Seq::empty();
    let mut i: usize = 0;
    proof {
        assert(pieces.flatten() =~= Seq::<char>::empty());
        assert(line@.subrange(0, 0) =~= Seq::<char>::empty());
    }
    while i < n
        invariant
            n == v@.len(),
            v@ == line@,
            i <= n,
            pieces_ok(pieces, line@.subrange(0, i as int)),
            out@ == pieces.flatten(),
            subseq_of(line@.subrange(0, i as int), out@),
            no_marks(line@.subrange(0, i as int)) ==> out@ == line@.subrange(0, i as int),
        decreases n - i,
    {
        let ghost prev = out@;
        let ghost prev_pieces = pieces;
        let c = v[i];
        let cs = line.substring_char(i, i + 1);
        proof {
            assert(cs@ =~= seq![line@[i as int]]);
        }
        let piece: String = if c == '"' {
            paint_bright_cyan(cs)
        } else if c == '[' || c == ']' {
            paint_bright_green(cs)
        } else {
            String::from_str(cs)
        };
        proof {
            if !is_mark_char(c) {
                crate::style::lemma_plain_styled_wrap(piece@);
            }
            assert(piece_ok(piece@, line@[i as int]));
        }
        out.append(piece.as_str());
        proof {
            pieces = pieces.push(piece@);
            prev_pieces.lemma_flatten_push(piece@);
            assert(pieces.flatten() == prev_pieces.flatten() + piece@);
            assert forall|j: int|
                0 <= j < i + 1 implies piece_ok(
                #[trigger] pieces[j],
                line@.subrange(0, i + 1)[j],
            ) by {
                if j < i {
                    assert(pieces[j] == prev_pieces[j]);
                    assert(line@.subrange(0, i + 1)[j] == line@.subrange(0, i as int)[j]);
                }
            }
            crate::text::lemma_subseq_concat(
                line@.subrange(0, i as int),
                prev,
                seq![line@[i as int]],
                piece@,
            );
            assert(line@.subrange(0, i as int) + seq![line@[i as int]] =~= line@.subrange(
                0,
                i + 1,
            ));
            if no_marks(line@.subrange(0, i + 1)) {
                assert(no_marks(line@.subrange(0, i as int)));
                assert(line@.subrange(0, i + 1)[i as int] == line@[i as int]);
                assert(!is_mark_char(line@[i as int]));
                assert(piece@ == seq![line@[i as int]]);
                assert(out@ =~= line@.subrange(0, i + 1));
            }
        }
        i = i + 1;
    }
    proof {
        assert(line@.subrange(0, n as int) =~= line@);
    }
    out
}

/// Styled tokens joined with single spaces, no leading or trailing space.
pub open spec fn join_spaces(outs: Seq<Seq<char>>) -> Seq<char>
    decreases outs.len(),
{
    if outs.len() == 0 {
        Seq::empty()
    } else if outs.len() == 1 {
        outs[0]
    } else {
        join_spaces(outs.drop_last()) + seq![' '] + outs.last()
    }
}

/// What holds of the rendering `out` of one whole line: the character pass
/// styles quotes and brackets in place, the word pass renders each token
/// of that output, and the renderings are joined with single spaces.
pub open spec fn adhoc_rendered(out: Seq<char>, line: Seq<char>) -> bool {
    exists|mid: Seq<char>|
        {
            &&& #[trigger] subseq_of(line, mid)
            &&& (exists|pieces: Seq<Seq<char>>| pieces_ok(pieces, line) && mid == pieces.flatten())
            &&& (no_marks(line) ==> mid == line)
            &&& exists|outs: Seq<Seq<char>>|
                {
                    &&& outs.len() == tokens_of(mid).len()
                    &&& (forall|k: int|
                        0 <= k < outs.len() ==> word_rendered(
                            #[trigger] outs[k],
                            tokens_of(mid)[k],
                        ))
                    &&& out == join_spaces(outs)
                }
        }
}

/// Renders one line: the character pass, then the word pass over its
/// output, joined with single spaces.
pub fn highlight_line(line: &str) -> (r: String)
    ensures
        adhoc_rendered(r@, line@),
{
    let mid = highlight_chars(line);
    let toks = split_tokens(mid.as_str());
    let tn: usize = toks.len();
    let mut out = String::new();
    let ghost mut outs: Seq<Seq<char>> = Seq::empty();
    let mut k: usize = 0;
    proof {
        assert(join_spaces(outs) =~= Seq::<char>::empty());
    }
    while k < tn
        invariant
            tn == toks@.len(),
            Seq::new(toks@.len(), |j: int| toks@[j]@) == tokens_of(mid@),
            k <= tn,
            outs.len() == k,
            forall|j: int| 0 <= j < k ==> word_rendered(#[trigger] outs[j], tokens_of(mid@)[j]),
            out@ == join_spaces(outs),
        decreases tn - k,
    {
        let w = highlight_word(toks[k].as_str());
        if k > 0 {
            let space: &str = " ";
            proof {
                reveal_strlit(" ");
                assert(space@ =~= seq![' ']);
            }
            out.append(space);
        }
        out.append(w.as_str());
        proof {
            let prev_outs = outs;
            outs = outs.push(w@);
            assert(outs.drop_last() =~= prev_outs);
            assert(outs.last() == w@);
            if k == 0 {
                assert(out@ =~= w@);
                assert(join_spaces(outs) == outs[0]);
            } else {
                assert(join_spaces(outs) == join_spaces(prev_outs) + seq![' '] + w@);
            }
            assert(out@ == join_spaces(outs));
        }
        k = k + 1;
    }
    proof {
        assert(Seq::new(toks@.len(), |j: int| toks@[j]@).len() == tokens_of(mid@).len());
    }
    out
}

/// The built-in token highlighter as a plugin: the fixed, immutable table
/// of matching rules behind it is built once and consulted per line. It
/// accepts every line.
pub struct TokenHighlighter {
    pub metadata: crate::plugin::PluginMetadata,
}

impl TokenHighlighter {
    pub fn new() -> (p: Self)
        ensures
            p.metadata.name@ == "ad-hoc"@,
            p.metadata.version == (crate::version::PluginVersion { major: 1, minor: 0, patch: 0 }),
    {
        TokenHighlighter {
            metadata: crate::plugin::PluginMetadata::new(
                "ad-hoc",
                crate::version::PluginVersion::new(1, 0, 0),
                "Token classification highlighter",
                "splash",
            ),
        }
    }
}

impl crate::plugin::Plugin for TokenHighlighter {
    open spec fn spec_name(&self) -> Seq<char> {
        self.metadata.name@
    }

    open spec fn spec_version(&self) -> crate::version::PluginVersion {
        self.metadata.version
    }

    open spec fn spec_parses(&self, line: Seq<char>) -> bool {
        true
    }

    fn metadata(&self) -> (m: &crate::plugin::PluginMetadata) {
        let m = &self.metadata;
        proof {
            assert(m.name@ == self.spec_name());
            assert(m.version == self.spec_version());
        }
        m
    }

    fn parse_line(&self, line: &str) -> (r: crate::plugin::ParseResult)
        ensures
            r matches crate::plugin::ParseResult::Parsed(t) && adhoc_rendered(t@, line@),
    {
        crate::plugin::ParseResult::Parsed(highlight_line(line))
    }
}

} // verus!
