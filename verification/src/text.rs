//! Character classes and small string utilities shared by the parsers.

use vstd::prelude::*;

verus! {

/// The whitespace characters recognised when lines are split into tokens
/// and when fields of a structured log line are delimited.
pub open spec fn is_space_char(c: char) -> bool {
    c == ' ' || c == '\t' || c == '\n' || c == '\r' || c == '\u{b}' || c == '\u{c}'
        || c == '\u{85}' || c == '\u{a0}' || c == '\u{1680}' || c == '\u{2000}'
        || c == '\u{2001}' || c == '\u{2002}' || c == '\u{2003}' || c == '\u{2004}'
        || c == '\u{2005}' || c == '\u{2006}' || c == '\u{2007}' || c == '\u{2008}'
        || c == '\u{2009}' || c == '\u{200a}' || c == '\u{2028}' || c == '\u{2029}'
        || c == '\u{202f}' || c == '\u{205f}' || c == '\u{3000}'
}

/// Decimal digit, `'0'` through `'9'`.
pub open spec fn is_digit_char(c: char) -> bool {
    '0' <= c && c <= '9'
}

/// Uppercase ASCII letter, `'A'` through `'Z'`.
pub open spec fn is_upper_char(c: char) -> bool {
    'A' <= c && c <= 'Z'
}

pub fn is_space(c: char) -> (b: bool)
    ensures
        b == is_space_char(c),
{
    c == ' ' || c == '\t' || c == '\n' || c == '\r' || c == '\u{b}' || c == '\u{c}'
        || c == '\u{85}' || c == '\u{a0}' || c == '\u{1680}' || c == '\u{2000}'
        || c == '\u{2001}' || c == '\u{2002}' || c == '\u{2003}' || c == '\u{2004}'
        || c == '\u{2005}' || c == '\u{2006}' || c == '\u{2007}' || c == '\u{2008}'
        || c == '\u{2009}' || c == '\u{200a}' || c == '\u{2028}' || c == '\u{2029}'
        || c == '\u{202f}' || c == '\u{205f}' || c == '\u{3000}'
}

pub fn is_digit(c: char) -> (b: bool)
    ensures
        b == is_digit_char(c),
{
    '0' <= c && c <= '9'
}

pub fn is_upper(c: char) -> (b: bool)
    ensures
        b == is_upper_char(c),
{
    'A' <= c && c <= 'Z'
}

/// The characters of a string, as a vector with constant-time indexing.
pub fn chars_of(s: &str) -> (v: Vec<char>)
    ensures
        v@ == s@,
{
    let n: usize = s.unicode_len();
    let mut v: Vec<char> = Vec::new();
    let mut i: usize = 0;
    while i < n
        invariant
            n == s@.len(),
            i <= n,
            v@ == s@.subrange(0, i as int),
        decreases n - i,
    {
        v.push(s.get_char(i));
        proof {
            assert(v@ =~= s@.subrange(0, i + 1));
        }
        i = i + 1;
    }
    proof {
        assert(v@ =~= s@);
    }
    v
}

/// Whether the strings hold the same characters.
pub fn str_eq(a: &str, b: &str) -> (r: bool)
    ensures
        r == (a@ == b@),
{
    let an: usize = a.unicode_len();
    let bn: usize = b.unicode_len();
    if an != bn {
        return false;
    }
    let mut i: usize = 0;
    while i < an
        invariant
            an == a@.len(),
            an == b@.len(),
            i <= an,
            forall|j: int| 0 <= j < i ==> a@[j] == b@[j],
        decreases an - i,
    {
        if a.get_char(i) != b.get_char(i) {
            return false;
        }
        i = i + 1;
    }
    proof {
        assert(a@ =~= b@);
    }
    true
}

/// The decimal digit `d` as a character.
pub open spec fn digit_to_char(d: nat) -> char {
    if d == 0 {
        '0'
    } else if d == 1 {
        '1'
    } else if d == 2 {
        '2'
    } else if d == 3 {
        '3'
    } else if d == 4 {
        '4'
    } else if d == 5 {
        '5'
    } else if d == 6 {
        '6'
    } else if d == 7 {
        '7'
    } else if d == 8 {
        '8'
    } else {
        '9'
    }
}

/// The decimal notation of `n`, most significant digit first, no sign,
/// no leading zero except for `n == 0` itself.
pub open spec fn dec_digits(n: nat) -> Seq<char>
    decreases n,
{
    if n < 10 {
        seq![digit_to_char(n)]
    } else {
        dec_digits(n / 10).push(digit_to_char(n % 10))
    }
}

fn digit_str(d: u32) -> (s: &'static str)
    requires
        d < 10,
    ensures
        s@ == seq![digit_to_char(d as nat)],
{
    let s: &'static str = match d {
        0 => "0",
        1 => "1",
        2 => "2",
        3 => "3",
        4 => "4",
        5 => "5",
        6 => "6",
        7 => "7",
        8 => "8",
        _ => "9",
    };
    proof {
        reveal_strlit("0");
        reveal_strlit("1");
        reveal_strlit("2");
        reveal_strlit("3");
        reveal_strlit("4");
        reveal_strlit("5");
        reveal_strlit("6");
        reveal_strlit("7");
        reveal_strlit("8");
        reveal_strlit("9");
        assert(s@ =~= seq![digit_to_char(d as nat)]);
    }
    s
}

/// Renders `n` in decimal.
pub fn u32_to_string(n: u32) -> (s: String)
    ensures
        s@ == dec_digits(n as nat),
    decreases n,
{
    if n < 10 {
        String::from_str(digit_str(n))
    } else {
        assert(n / 10 < n) by (nonlinear_arith)
            requires
                n >= 10,
        ;
        let mut s = u32_to_string(n / 10);
        s.append(digit_str(n % 10));
        proof {
            assert(s@ =~= dec_digits(n as nat));
        }
        s
    }
}

/// Length of the run of decimal digits starting at `i`.
pub open spec fn digit_run(s: Seq<char>, i: int) -> nat
    decreases s.len() - i,
{
    if 0 <= i < s.len() && is_digit_char(s[i]) {
        1 + digit_run(s, i + 1)
    } else {
        0
    }
}

/// Length of the run of non-whitespace characters starting at `i`.
pub open spec fn nonspace_run(s: Seq<char>, i: int) -> nat
    decreases s.len() - i,
{
    if 0 <= i < s.len() && !is_space_char(s[i]) {
        1 + nonspace_run(s, i + 1)
    } else {
        0
    }
}

/// Length of the run of uppercase ASCII letters starting at `i`.
pub open spec fn upper_run(s: Seq<char>, i: int) -> nat
    decreases s.len() - i,
{
    if 0 <= i < s.len() && is_upper_char(s[i]) {
        1 + upper_run(s, i + 1)
    } else {
        0
    }
}

/// Length of the run of characters other than a line feed starting at `i`.
pub open spec fn notnl_run(s: Seq<char>, i: int) -> nat
    decreases s.len() - i,
{
    if 0 <= i < s.len() && s[i] != '\n' {
        1 + notnl_run(s, i + 1)
    } else {
        0
    }
}

/// A run never reaches past the end of the sequence.
pub proof fn lemma_run_bounds(s: Seq<char>, i: int)
    requires
        0 <= i <= s.len(),
    ensures
        i + digit_run(s, i) <= s.len(),
        i + nonspace_run(s, i) <= s.len(),
        i + upper_run(s, i) <= s.len(),
        i + notnl_run(s, i) <= s.len(),
    decreases s.len() - i,
{
    if i < s.len() {
        lemma_run_bounds(s, i + 1);
    }
}

pub fn digit_run_exec(v: &Vec<char>, i: usize) -> (r: usize)
    requires
        i <= v@.len(),
    ensures
        r == digit_run(v@, i as int),
        i + r <= v@.len(),
{
    let n: usize = v.len();
    let mut j: usize = i;
    while j < n && is_digit(v[j])
        invariant
            i <= j <= n,
            n == v@.len(),
            digit_run(v@, i as int) == (j - i) + digit_run(v@, j as int),
        decreases n - j,
    {
        j = j + 1;
    }
    j - i
}

pub fn nonspace_run_exec(v: &Vec<char>, i: usize) -> (r: usize)
    requires
        i <= v@.len(),
    ensures
        r == nonspace_run(v@, i as int),
        i + r <= v@.len(),
{
    let n: usize = v.len();
    let mut j: usize = i;
    while j < n && !is_space(v[j])
        invariant
            i <= j <= n,
            n == v@.len(),
            nonspace_run(v@, i as int) == (j - i) + nonspace_run(v@, j as int),
        decreases n - j,
    {
        j = j + 1;
    }
    j - i
}

pub fn upper_run_exec(v: &Vec<char>, i: usize) -> (r: usize)
    requires
        i <= v@.len(),
    ensures
        r == upper_run(v@, i as int),
        i + r <= v@.len(),
{
    let n: usize = v.len();
    let mut j: usize = i;
    while j < n && is_upper(v[j])
        invariant
            i <= j <= n,
            n == v@.len(),
            upper_run(v@, i as int) == (j - i) + upper_run(v@, j as int),
        decreases n - j,
    {
        j = j + 1;
    }
    j - i
}

/// Whether `a` occurs inside `b` in order, possibly with other characters
/// interleaved.
pub open spec fn subseq_of(a: Seq<char>, b: Seq<char>) -> bool
    decreases b.len(),
{
    if a.len() == 0 {
        true
    } else if b.len() == 0 {
        false
    } else {
        (a[0] == b[0] && subseq_of(a.skip(1), b.skip(1))) || subseq_of(a, b.skip(1))
    }
}

/// Every sequence occurs inside itself.
pub proof fn lemma_subseq_refl(a: Seq<char>)
    ensures
        subseq_of(a, a),
    decreases a.len(),
{
    if a.len() > 0 {
        lemma_subseq_refl(a.skip(1));
    }
}

/// Occurrence is preserved by concatenation on both sides.
pub proof fn lemma_subseq_concat(a1: Seq<char>, b1: Seq<char>, a2: Seq<char>, b2: Seq<char>)
    requires
        subseq_of(a1, b1),
        subseq_of(a2, b2),
    ensures
        subseq_of(a1 + a2, b1 + b2),
    decreases b1.len(),
{
    if b1.len() == 0 {
        assert(a1.len() == 0);
        assert(a1 + a2 =~= a2);
        assert(b1 + b2 =~= b2);
    } else if a1.len() == 0 {
        assert(a1 + a2 =~= a2);
        lemma_subseq_prepend(a2, b1, b2);
    } else {
        if a1[0] == b1[0] && subseq_of(a1.skip(1), b1.skip(1)) {
            lemma_subseq_concat(a1.skip(1), b1.skip(1), a2, b2);
            assert((a1 + a2).skip(1) =~= a1.skip(1) + a2);
            assert((b1 + b2).skip(1) =~= b1.skip(1) + b2);
            assert((a1 + a2)[0] == (b1 + b2)[0]);
        } else {
            assert(subseq_of(a1, b1.skip(1)));
            lemma_subseq_concat(a1, b1.skip(1), a2, b2);
            assert((b1 + b2).skip(1) =~= b1.skip(1) + b2);
        }
    }
}

/// Occurrence survives any prefix added to the containing sequence.
pub proof fn lemma_subseq_prepend(a: Seq<char>, p: Seq<char>, b: Seq<char>)
    requires
        subseq_of(a, b),
    ensures
        subseq_of(a, p + b),
    decreases p.len(),
{
    if p.len() > 0 {
        lemma_subseq_prepend(a, p.skip(1), b);
        assert((p + b).skip(1) =~= p.skip(1) + b);
        if a.len() > 0 {
            assert(subseq_of(a, (p + b).skip(1)));
        }
    } else {
        assert(p + b =~= b);
    }
}

/// A sequence occurs inside itself wrapped with any prefix and suffix.
pub proof fn lemma_subseq_embed(a: Seq<char>, p: Seq<char>, q: Seq<char>)
    ensures
        subseq_of(a, p + a + q),
    decreases q.len(),
{
    lemma_subseq_refl(a);
    assert(subseq_of(Seq::<char>::empty(), q));
    lemma_subseq_concat(a, a, Seq::<char>::empty(), q);
    assert(a + Seq::<char>::empty() =~= a);
    lemma_subseq_prepend(a, p, a + q);
    assert(p + (a + q) =~= p + a + q);
}

/// `t` without one trailing carriage return, if it ends in one.
pub open spec fn strip_cr(t: Seq<char>) -> Seq<char> {
    if t.len() > 0 && t.last() == '\r' {
        t.drop_last()
    } else {
        t
    }
}

/// The lines of `s` from position `i` on, as the standard line iterator
/// yields them: split at line feeds, a carriage return directly before a
/// line feed is dropped, and a trailing line terminator opens no further
/// empty line.
pub open spec fn lines_from(s: Seq<char>, i: int) -> Seq<Seq<char>>
    decreases s.len() - i,
{
    if !(0 <= i < s.len()) {
        Seq::empty()
    } else {
        let e = i + notnl_run(s, i);
        if e < s.len() {
            seq![strip_cr(s.subrange(i, e))] + lines_from(s, e + 1)
        } else {
            seq![s.subrange(i, e)]
        }
    }
}

/// The lines of `s`.
pub open spec fn lines_of(s: Seq<char>) -> Seq<Seq<char>> {
    lines_from(s, 0)
}

/// The whitespace-delimited tokens of `s` from position `i` on.
pub open spec fn tokens_from(s: Seq<char>, i: int) -> Seq<Seq<char>>
    decreases s.len() - i,
{
    if !(0 <= i < s.len()) {
        Seq::empty()
    } else if is_space_char(s[i]) {
        tokens_from(s, i + 1)
    } else {
        let e = i + nonspace_run(s, i);
        if e < s.len() {
            seq![s.subrange(i, e)] + tokens_from(s, e)
        } else {
            seq![s.subrange(i, e)]
        }
    }
}

/// The whitespace-delimited tokens of `s`.
pub open spec fn tokens_of(s: Seq<char>) -> Seq<Seq<char>> {
    tokens_from(s, 0)
}

pub fn notnl_run_exec(v: &Vec<char>, i: usize) -> (r: usize)
    requires
        i <= v@.len(),
    ensures
        r == notnl_run(v@, i as int),
        i + r <= v@.len(),
{
    let n: usize = v.len();
    let mut j: usize = i;
    while j < n && v[j] != '\n'
        invariant
            i <= j <= n,
            n == v@.len(),
            notnl_run(v@, i as int) == (j - i) + notnl_run(v@, j as int),
        decreases n - j,
    {
        j = j + 1;
    }
    j - i
}

/// Splits `contents` into its lines.
pub fn split_lines(contents: &str) -> (r: Vec<String>)
    ensures
        Seq::new(r@.len(), |k: int| r@[k]@) == lines_of(contents@),
{
    let v = chars_of(contents);
    let n: usize = v.len();
    let mut out: Vec<String> = Vec::new();
    let mut i: usize = 0;
    proof {
        assert(Seq::new(out@.len(), |k: int| out@[k]@) =~= Seq::<Seq<char>>::empty());
        assert(Seq::<Seq<char>>::empty() + lines_from(contents@, 0) =~= lines_from(contents@, 0));
    }
    while i < n
        invariant
            n == v@.len(),
            v@ == contents@,
            i <= n,
            lines_of(contents@) == Seq::new(out@.len(), |k: int| out@[k]@) + lines_from(
                contents@,
                i as int,
            ),
        decreases n - i,
    {
        let ghost prev = Seq::new(out@.len(), |k: int| out@[k]@);
        let run = notnl_run_exec(&v, i);
        let e: usize = i + run;
        if e < n {
            let ce: usize = if e > i && v[e - 1] == '\r' {
                e - 1
            } else {
                e
            };
            out.push(String::from_str(contents.substring_char(i, ce)));
            proof {
                assert(contents@.subrange(i as int, ce as int) =~= strip_cr(
                    contents@.subrange(i as int, e as int),
                ));
                assert(lines_from(contents@, i as int) == seq![
                    strip_cr(contents@.subrange(i as int, e as int)),
                ] + lines_from(contents@, e + 1));
                assert(Seq::new(out@.len(), |k: int| out@[k]@) =~= prev.push(
                    strip_cr(contents@.subrange(i as int, e as int)),
                ));
                assert(prev.push(strip_cr(contents@.subrange(i as int, e as int)))
                    + lines_from(contents@, e + 1) =~= prev + lines_from(contents@, i as int));
            }
            i = e + 1;
        } else {
            out.push(String::from_str(contents.substring_char(i, e)));
            proof {
                assert(lines_from(contents@, i as int) == seq![
                    contents@.subrange(i as int, e as int),
                ]);
                assert(Seq::new(out@.len(), |k: int| out@[k]@) =~= prev.push(
                    contents@.subrange(i as int, e as int),
                ));
                assert(prev.push(contents@.subrange(i as int, e as int)) + lines_from(
                    contents@,
                    e as int,
                ) =~= prev + lines_from(contents@, i as int));
            }
            i = e;
        }
    }
    proof {
        assert(lines_from(contents@, n as int) =~= Seq::<Seq<char>>::empty());
        assert(Seq::new(out@.len(), |k: int| out@[k]@) + Seq::<Seq<char>>::empty() =~= Seq::new(
            out@.len(),
            |k: int| out@[k]@,
        ));
    }
    out
}

/// Splits `line` into its whitespace-delimited tokens.
pub fn split_tokens(line: &str) -> (r: Vec<String>)
    ensures
        Seq::new(r@.len(), |k: int| r@[k]@) == tokens_of(line@),
{
    let v = chars_of(line);
    let n: usize = v.len();
    let mut out: Vec<String> = Vec::new();
    let mut i: usize = 0;
    proof {
        assert(Seq::new(out@.len(), |k: int| out@[k]@) =~= Seq::<Seq<char>>::empty());
        assert(Seq::<Seq<char>>::empty() + tokens_from(line@, 0) =~= tokens_from(line@, 0));
    }
    while i < n
        invariant
            n == v@.len(),
            v@ == line@,
            i <= n,
            tokens_of(line@) == Seq::new(out@.len(), |k: int| out@[k]@) + tokens_from(
                line@,
                i as int,
            ),
        decreases n - i,
    {
        let ghost prev = Seq::new(out@.len(), |k: int| out@[k]@);
        if is_space(v[i]) {
            proof {
                assert(tokens_from(line@, i as int) == tokens_from(line@, i + 1));
            }
            i = i + 1;
        } else {
            let run = nonspace_run_exec(&v, i);
            let e: usize = i + run;
            out.push(String::from_str(line.substring_char(i, e)));
            proof {
                if e < n {
                    assert(tokens_from(line@, i as int) == seq![
                        line@.subrange(i as int, e as int),
                    ] + tokens_from(line@, e as int));
                } else {
                    assert(tokens_from(line@, i as int) == seq![
                        line@.subrange(i as int, e as int),
                    ]);
                    assert(tokens_from(line@, e as int) =~= Seq::<Seq<char>>::empty());
                }
                assert(Seq::new(out@.len(), |k: int| out@[k]@) =~= prev.push(
                    line@.subrange(i as int, e as int),
                ));
                assert(prev.push(line@.subrange(i as int, e as int)) + tokens_from(
                    line@,
                    e as int,
                ) =~= prev + tokens_from(line@, i as int));
            }
            i = e;
        }
    }
    proof {
        assert(tokens_from(line@, n as int) =~= Seq::<Seq<char>>::empty());
        assert(Seq::new(out@.len(), |k: int| out@[k]@) + Seq::<Seq<char>>::empty() =~= Seq::new(
            out@.len(),
            |k: int| out@[k]@,
        ));
    }
    out
}

} // verus!
