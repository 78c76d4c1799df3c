//! The structured web-access-log parser.
//!
//! The grammar is fixed, single-line, space-delimited and case-sensitive:
//! a dotted digit quartet, two non-whitespace tokens, a bracketed datetime
//! captured to the nearest closing bracket that lets the rest match, a
//! quoted triple of uppercase method, request target and protocol, a
//! three-digit status, and a size of digits or a lone dash, each pair of
//! fields separated by one whitespace character. Matching is repeated and
//! non-overlapping along the line, not anchored; a line that matches
//! nowhere produces no record and is dropped silently.

use vstd::prelude::*;

use crate::style::{
    paint_bold_white, paint_bright_cyan, paint_bright_green, paint_bright_magenta, paint_bright_red,
    paint_bright_yellow, paint_cyan, paint_white, styled_wrap,
};
use crate::text::{
    chars_of, digit_run, digit_run_exec, is_space, is_space_char, lines_of, nonspace_run,
    nonspace_run_exec, split_lines, upper_run, upper_run_exec,
};

verus! {

/// The field spans of one structured match, as character positions.
pub struct ClfSpans {
    pub client: (int, int),
    pub user_identifier: (int, int),
    pub userid: (int, int),
    pub datetime: (int, int),
    pub method: (int, int),
    pub request: (int, int),
    pub protocol: (int, int),
    pub status: (int, int),
    pub size: (int, int),
    pub end: int,
}

/// End of the dotted digit quartet starting at `i`: four runs of one to
/// three digits separated by single dots. Each run is whole: a longer
/// digit run in any position fails the quartet.
pub open spec fn quartet_end(s: Seq<char>, i: int) -> Option<int> {
    let r1 = digit_run(s, i) as int;
    if 1 <= r1 <= 3 && i + r1 < s.len() && s[i + r1] == '.' {
        let i2 = i + r1 + 1;
        let r2 = digit_run(s, i2) as int;
        if 1 <= r2 <= 3 && i2 + r2 < s.len() && s[i2 + r2] == '.' {
            let i3 = i2 + r2 + 1;
            let r3 = digit_run(s, i3) as int;
            if 1 <= r3 <= 3 && i3 + r3 < s.len() && s[i3 + r3] == '.' {
                let i4 = i3 + r3 + 1;
                let r4 = digit_run(s, i4) as int;
                if 1 <= r4 <= 3 {
                    Some(i4 + r4)
                } else {
                    None
                }
            } else {
                None
            }
        } else {
            None
        }
    } else {
        None
    }
}

/// The status and size fields expected right after the closing quote at
/// position `j - 1`: one whitespace, exactly three digits, one
/// whitespace, then either a digit run or a lone dash. Yields the two
/// spans and the end of the match.
pub open spec fn status_size_at(s: Seq<char>, j: int) -> Option<((int, int), (int, int), int)> {
    if 0 <= j < s.len() && is_space_char(s[j]) {
        let st = j + 1;
        if digit_run(s, st) == 3 && st + 3 < s.len() && is_space_char(s[st + 3]) {
            let sz = st + 4;
            let rd = digit_run(s, sz) as int;
            if rd >= 1 {
                Some(((st, st + 3), (sz, sz + rd), sz + rd))
            } else if sz < s.len() && s[sz] == '-' {
                Some(((st, st + 3), (sz, sz + 1), sz + 1))
            } else {
                None
            }
        } else {
            None
        }
    } else {
        None
    }
}

/// The protocol field: the longest head of the non-whitespace run at `p0`
/// that is followed directly by a closing quote and lets the status and
/// size fields match; shorter heads are tried in turn, as a backtracking
/// matcher would.
pub open spec fn proto_try(s: Seq<char>, p0: int, k: int) -> Option<
    ((int, int), (int, int), (int, int), int),
>
    decreases k,
{
    if k < 1 {
        None
    } else if p0 + k < s.len() && s[p0 + k] == '"' {
        match status_size_at(s, p0 + k + 1) {
            Some((st, sz, e)) => Some(((p0, p0 + k), st, sz, e)),
            None => proto_try(s, p0, k - 1),
        }
    } else {
        proto_try(s, p0, k - 1)
    }
}

/// The quoted triple starting at the quote at `q`: an uppercase method,
/// one whitespace, a non-whitespace request target, one whitespace, and
/// the protocol up to the closing quote; then status and size.
pub open spec fn quoted_triple_at(s: Seq<char>, q: int) -> Option<
    ((int, int), (int, int), (int, int), (int, int), (int, int), int),
> {
    if 0 <= q < s.len() && s[q] == '"' {
        let m0 = q + 1;
        let mu = upper_run(s, m0) as int;
        if mu >= 1 && m0 + mu < s.len() && is_space_char(s[m0 + mu]) {
            let r0 = m0 + mu + 1;
            let rr = nonspace_run(s, r0) as int;
            if rr >= 1 && r0 + rr < s.len() && is_space_char(s[r0 + rr]) {
                let p0 = r0 + rr + 1;
                let pr = nonspace_run(s, p0) as int;
                match proto_try(s, p0, pr) {
                    Some((ps, st, sz, e)) => Some(((m0, m0 + mu), (r0, r0 + rr), ps, st, sz, e)),
                    None => None,
                }
            } else {
                None
            }
        } else {
            None
        }
    } else {
        None
    }
}

/// The datetime close bracket: the nearest closing bracket at or after
/// `b` that is followed by one whitespace and a quoted triple that
/// matches; later brackets are tried in turn, as a non-greedy matcher
/// would. `d` is the position of the opening bracket.
pub open spec fn dt_search(s: Seq<char>, d: int, b: int) -> Option<
    ((int, int), ((int, int), (int, int), (int, int), (int, int), (int, int), int)),
>
    decreases s.len() - b,
{
    if !(0 <= b < s.len()) {
        None
    } else if s[b] == ']' && b + 1 < s.len() && is_space_char(s[b + 1]) && quoted_triple_at(
        s,
        b + 2,
    ) is Some {
        match quoted_triple_at(s, b + 2) {
            Some(t) => Some(((d, b + 1), t)),
            None => None,
        }
    } else {
        dt_search(s, d, b + 1)
    }
}

/// One whole structured match starting exactly at position `i`.
pub open spec fn clf_match_at(s: Seq<char>, i: int) -> Option<ClfSpans> {
    match quartet_end(s, i) {
        Some(e1) => if e1 < s.len() && is_space_char(s[e1]) {
            let u0 = e1 + 1;
            let ur = nonspace_run(s, u0) as int;
            if ur >= 1 && u0 + ur < s.len() && is_space_char(s[u0 + ur]) {
                let id0 = u0 + ur + 1;
                let ir = nonspace_run(s, id0) as int;
                if ir >= 1 && id0 + ir < s.len() && is_space_char(s[id0 + ir]) {
                    let d = id0 + ir + 1;
                    if d < s.len() && s[d] == '[' {
                        match dt_search(s, d, d + 1) {
                            Some((dts, (ms, rs, ps, st, sz, e))) => Some(
                                ClfSpans {
                                    client: (i, e1),
                                    user_identifier: (u0, u0 + ur),
                                    userid: (id0, id0 + ir),
                                    datetime: dts,
                                    method: ms,
                                    request: rs,
                                    protocol: ps,
                                    status: st,
                                    size: sz,
                                    end: e,
                                },
                            ),
                            None => None,
                        }
                    } else {
                        None
                    }
                } else {
                    None
                }
            } else {
                None
            }
        } else {
            None
        },
        None => None,
    }
}

proof fn lemma_status_size_bounds(s: Seq<char>, j: int)
    ensures
        match status_size_at(s, j) {
            Some((st, sz, e)) => j < e <= s.len(),
            None => true,
        },
{
    if 0 <= j < s.len() && is_space_char(s[j]) {
        let st = j + 1;
        if digit_run(s, st) == 3 && st + 3 < s.len() && is_space_char(s[st + 3]) {
            crate::text::lemma_run_bounds(s, j + 5);
        }
    }
}

proof fn lemma_proto_bounds(s: Seq<char>, p0: int, k: int)
    ensures
        match proto_try(s, p0, k) {
            Some((ps, st, sz, e)) => p0 < e <= s.len() && ps.1 < e,
            None => true,
        },
    decreases k,
{
    if k >= 1 {
        if p0 + k < s.len() && s[p0 + k] == '"' {
            lemma_status_size_bounds(s, p0 + k + 1);
            if status_size_at(s, p0 + k + 1) is None {
                lemma_proto_bounds(s, p0, k - 1);
            }
        } else {
            lemma_proto_bounds(s, p0, k - 1);
        }
    }
}

proof fn lemma_quoted_bounds(s: Seq<char>, q: int)
    ensures
        match quoted_triple_at(s, q) {
            Some((ms, rs, ps, st, sz, e)) => q < e <= s.len(),
            None => true,
        },
{
    if 0 <= q < s.len() && s[q] == '"' {
        let m0 = q + 1;
        let mu = upper_run(s, m0) as int;
        if mu >= 1 && m0 + mu < s.len() && is_space_char(s[m0 + mu]) {
            let r0 = m0 + mu + 1;
            let rr = nonspace_run(s, r0) as int;
            if rr >= 1 && r0 + rr < s.len() && is_space_char(s[r0 + rr]) {
                let p0 = r0 + rr + 1;
                let pr = nonspace_run(s, p0) as int;
                lemma_proto_bounds(s, p0, pr);
            }
        }
    }
}

proof fn lemma_dt_bounds(s: Seq<char>, d: int, b: int)
    requires
        d < b,
    ensures
        match dt_search(s, d, b) {
            Some((dts, (ms, rs, ps, st, sz, e))) => d < e <= s.len(),
            None => true,
        },
    decreases s.len() - b,
{
    if 0 <= b < s.len() {
        if s[b] == ']' && b + 1 < s.len() && is_space_char(s[b + 1]) && quoted_triple_at(s, b + 2)
            is Some {
            lemma_quoted_bounds(s, b + 2);
        } else {
            lemma_dt_bounds(s, d, b + 1);
        }
    }
}

/// A match reaches past its own start and never past the end of the line.
pub proof fn lemma_clf_match_bounds(s: Seq<char>, i: int)
    requires
        0 <= i,
    ensures
        match clf_match_at(s, i) {
            Some(m) => i < m.end <= s.len(),
            None => true,
        },
{
    match quartet_end(s, i) {
        Some(e1) => {
            if e1 < s.len() && is_space_char(s[e1]) {
                let u0 = e1 + 1;
                let ur = nonspace_run(s, u0) as int;
                if ur >= 1 && u0 + ur < s.len() && is_space_char(s[u0 + ur]) {
                    let id0 = u0 + ur + 1;
                    let ir = nonspace_run(s, id0) as int;
                    if ir >= 1 && id0 + ir < s.len() && is_space_char(s[id0 + ir]) {
                        let d = id0 + ir + 1;
                        if d < s.len() && s[d] == '[' {
                            lemma_dt_bounds(s, d, d + 1);
                        }
                    }
                }
            }
        },
        None => {},
    }
}

/// All structured matches of the line from position `i` on, repeated and
/// non-overlapping: after a match the search resumes at its end, after a
/// failure at the next position.
pub open spec fn clf_scan_from(s: Seq<char>, i: int) -> Seq<ClfSpans>
    decreases s.len() - i,
{
    if !(0 <= i < s.len()) {
        Seq::empty()
    } else {
        match clf_match_at(s, i) {
            Some(m) => {
                let nxt = if i < m.end <= s.len() {
                    m.end
                } else {
                    i + 1
                };
                seq![m] + clf_scan_from(s, nxt)
            },
            None => clf_scan_from(s, i + 1),
        }
    }
}

/// One parsed record: the nine fields of a structured line, each its own
/// text.
pub struct LineRecord {
    pub client: String,
    pub user_identifier: String,
    pub userid: String,
    pub datetime: String,
    pub method: String,
    pub request: String,
    pub protocol: String,
    pub status: String,
    pub size: String,
}

/// The record's fields hold exactly the text of the match's spans.
pub open spec fn record_matches(rec: LineRecord, s: Seq<char>, m: ClfSpans) -> bool {
    &&& rec.client@ == s.subrange(m.client.0, m.client.1)
    &&& rec.user_identifier@ == s.subrange(m.user_identifier.0, m.user_identifier.1)
    &&& rec.userid@ == s.subrange(m.userid.0, m.userid.1)
    &&& rec.datetime@ == s.subrange(m.datetime.0, m.datetime.1)
    &&& rec.method@ == s.subrange(m.method.0, m.method.1)
    &&& rec.request@ == s.subrange(m.request.0, m.request.1)
    &&& rec.protocol@ == s.subrange(m.protocol.0, m.protocol.1)
    &&& rec.status@ == s.subrange(m.status.0, m.status.1)
    &&& rec.size@ == s.subrange(m.size.0, m.size.1)
}

/// The spans of one match, as positions into the line.
struct MatchSpans {
    client_lo: usize,
    client_hi: usize,
    user_lo: usize,
    user_hi: usize,
    userid_lo: usize,
    userid_hi: usize,
    dt_lo: usize,
    dt_hi: usize,
    method_lo: usize,
    method_hi: usize,
    request_lo: usize,
    request_hi: usize,
    proto_lo: usize,
    proto_hi: usize,
    status_lo: usize,
    status_hi: usize,
    size_lo: usize,
    size_hi: usize,
    end: usize,
}

spec fn spans_correspond(ms: MatchSpans, m: ClfSpans) -> bool {
    &&& m.client == (ms.client_lo as int, ms.client_hi as int)
    &&& m.user_identifier == (ms.user_lo as int, ms.user_hi as int)
    &&& m.userid == (ms.userid_lo as int, ms.userid_hi as int)
    &&& m.datetime == (ms.dt_lo as int, ms.dt_hi as int)
    &&& m.method == (ms.method_lo as int, ms.method_hi as int)
    &&& m.request == (ms.request_lo as int, ms.request_hi as int)
    &&& m.protocol == (ms.proto_lo as int, ms.proto_hi as int)
    &&& m.status == (ms.status_lo as int, ms.status_hi as int)
    &&& m.size == (ms.size_lo as int, ms.size_hi as int)
    &&& m.end == ms.end as int
}

spec fn spans_bounded(ms: MatchSpans, n: int) -> bool {
    &&& ms.client_lo <= ms.client_hi <= n
    &&& ms.user_lo <= ms.user_hi <= n
    &&& ms.userid_lo <= ms.userid_hi <= n
    &&& ms.dt_lo <= ms.dt_hi <= n
    &&& ms.method_lo <= ms.method_hi <= n
    &&& ms.request_lo <= ms.request_hi <= n
    &&& ms.proto_lo <= ms.proto_hi <= n
    &&& ms.status_lo <= ms.status_hi <= n
    &&& ms.size_lo <= ms.size_hi <= n
    &&& ms.end <= n
}

fn status_size_exec(v: &Vec<char>, j: usize) -> (r: Option<(usize, usize, usize, usize, usize)>)
    requires
        j <= v@.len(),
    ensures
        match r {
            Some((st_lo, st_hi, sz_lo, sz_hi, e)) => status_size_at(v@, j as int) == Some(
                ((st_lo as int, st_hi as int), (sz_lo as int, sz_hi as int), e as int),
            ) && st_lo <= st_hi <= v@.len() && sz_lo <= sz_hi <= v@.len() && e <= v@.len(),
            None => status_size_at(v@, j as int) is None,
        },
{
    let n: usize = v.len();
    if !(j < n && is_space(v[j])) {
        return None;
    }
    let st: usize = j + 1;
    let rs = digit_run_exec(v, st);
    if !(rs == 3 && st + 3 < n && is_space(v[st + 3])) {
        return None;
    }
    let sz: usize = st + 4;
    let rd = digit_run_exec(v, sz);
    if rd >= 1 {
        Some((st, st + 3, sz, sz + rd, sz + rd))
    } else if sz < n && v[sz] == '-' {
        Some((st, st + 3, sz, sz + 1, sz + 1))
    } else {
        None
    }
}

fn proto_try_exec(v: &Vec<char>, p0: usize, pr: usize) -> (r: Option<
    (usize, usize, usize, usize, usize, usize, usize),
>)
    requires
        p0 + pr <= v@.len(),
    ensures
        match r {
            Some((p_lo, p_hi, st_lo, st_hi, sz_lo, sz_hi, e)) => proto_try(v@, p0 as int, pr as int)
                == Some(
                (
                    (p_lo as int, p_hi as int),
                    (st_lo as int, st_hi as int),
                    (sz_lo as int, sz_hi as int),
                    e as int,
                ),
            ) && p_lo <= p_hi <= v@.len() && st_lo <= st_hi <= v@.len() && sz_lo <= sz_hi <= v@
                .len() && e <= v@.len(),
            None => proto_try(v@, p0 as int, pr as int) is None,
        },
{
    let n: usize = v.len();
    let mut k: usize = pr;
    while k >= 1
        invariant
            n == v@.len(),
            p0 + pr <= n,
            k <= pr,
            proto_try(v@, p0 as int, pr as int) == proto_try(v@, p0 as int, k as int),
        decreases k,
    {
        if p0 + k < n && v[p0 + k] == '"' {
            match status_size_exec(v, p0 + k + 1) {
                Some((st_lo, st_hi, sz_lo, sz_hi, e)) => {
                    return Some((p0, p0 + k, st_lo, st_hi, sz_lo, sz_hi, e));
                },
                None => {},
            }
        }
        k = k - 1;
    }
    None
}

fn quoted_triple_exec(v: &Vec<char>, q: usize) -> (r: Option<MatchSpans>)
    requires
        q <= v@.len(),
    ensures
        match r {
            Some(ms) => quoted_triple_at(v@, q as int) == Some(
                (
                    (ms.method_lo as int, ms.method_hi as int),
                    (ms.request_lo as int, ms.request_hi as int),
                    (ms.proto_lo as int, ms.proto_hi as int),
                    (ms.status_lo as int, ms.status_hi as int),
                    (ms.size_lo as int, ms.size_hi as int),
                    ms.end as int,
                ),
            ) && spans_bounded(ms, v@.len() as int),
            None => quoted_triple_at(v@, q as int) is None,
        },
{
    let n: usize = v.len();
    if !(q < n && v[q] == '"') {
        return None;
    }
    let m0: usize = q + 1;
    let mu = upper_run_exec(v, m0);
    if !(mu >= 1 && m0 + mu < n && is_space(v[m0 + mu])) {
        return None;
    }
    let r0: usize = m0 + mu + 1;
    let rr = nonspace_run_exec(v, r0);
    if !(rr >= 1 && r0 + rr < n && is_space(v[r0 + rr])) {
        return None;
    }
    let p0: usize = r0 + rr + 1;
    let pr = nonspace_run_exec(v, p0);
    match proto_try_exec(v, p0, pr) {
        Some((p_lo, p_hi, st_lo, st_hi, sz_lo, sz_hi, e)) => Some(
            MatchSpans {
                client_lo: 0,
                client_hi: 0,
                user_lo: 0,
                user_hi: 0,
                userid_lo: 0,
                userid_hi: 0,
                dt_lo: 0,
                dt_hi: 0,
                method_lo: m0,
                method_hi: m0 + mu,
                request_lo: r0,
                request_hi: r0 + rr,
                proto_lo: p_lo,
                proto_hi: p_hi,
                status_lo: st_lo,
                status_hi: st_hi,
                size_lo: sz_lo,
                size_hi: sz_hi,
                end: e,
            },
        ),
        None => None,
    }
}

fn quartet_end_exec(v: &Vec<char>, i: usize) -> (r: Option<usize>)
    requires
        i <= v@.len(),
    ensures
        match r {
            Some(e) => quartet_end(v@, i as int) == Some(e as int) && i < e <= v@.len(),
            None => quartet_end(v@, i as int) is None,
        },
{
    let n: usize = v.len();
    let r1 = digit_run_exec(v, i);
    if !(1 <= r1 && r1 <= 3 && i + r1 < n && v[i + r1] == '.') {
        return None;
    }
    let i2: usize = i + r1 + 1;
    let r2 = digit_run_exec(v, i2);
    if !(1 <= r2 && r2 <= 3 && i2 + r2 < n && v[i2 + r2] == '.') {
        return None;
    }
    let i3: usize = i2 + r2 + 1;
    let r3 = digit_run_exec(v, i3);
    if !(1 <= r3 && r3 <= 3 && i3 + r3 < n && v[i3 + r3] == '.') {
        return None;
    }
    let i4: usize = i3 + r3 + 1;
    let r4 = digit_run_exec(v, i4);
    if 1 <= r4 && r4 <= 3 {
        Some(i4 + r4)
    } else {
        None
    }
}

fn dt_search_exec(v: &Vec<char>, d: usize, b0: usize) -> (r: Option<(usize, usize, MatchSpans)>)
    requires
        d < b0 <= v@.len(),
    ensures
        match r {
            Some((dt_lo, dt_hi, ms)) => dt_search(v@, d as int, b0 as int) == Some(
                (
                    (dt_lo as int, dt_hi as int),
                    (
                        (ms.method_lo as int, ms.method_hi as int),
                        (ms.request_lo as int, ms.request_hi as int),
                        (ms.proto_lo as int, ms.proto_hi as int),
                        (ms.status_lo as int, ms.status_hi as int),
                        (ms.size_lo as int, ms.size_hi as int),
                        ms.end as int,
                    ),
                ),
            ) && dt_lo <= dt_hi <= v@.len() && spans_bounded(ms, v@.len() as int),
            None => dt_search(v@, d as int, b0 as int) is None,
        },
{
    let n: usize = v.len();
    let mut b: usize = b0;
    while b < n
        invariant
            n == v@.len(),
            d < b0 <= b,
            b <= n,
            dt_search(v@, d as int, b0 as int) == dt_search(v@, d as int, b as int),
        decreases n - b,
    {
        if v[b] == ']' && b + 1 < n && is_space(v[b + 1]) {
            match quoted_triple_exec(v, b + 2) {
                Some(ms) => {
                    return Some((d, b + 1, ms));
                },
                None => {},
            }
        }
        b = b + 1;
    }
    None
}

fn clf_match_at_exec(v: &Vec<char>, i: usize) -> (r: Option<MatchSpans>)
    requires
        i <= v@.len(),
    ensures
        match r {
            Some(ms) => {
                &&& clf_match_at(v@, i as int) matches Some(m) && spans_correspond(ms, m)
                &&& spans_bounded(ms, v@.len() as int)
                &&& i < ms.end
            },
            None => clf_match_at(v@, i as int) is None,
        },
{
    let n: usize = v.len();
    let e1 = match quartet_end_exec(v, i) {
        Some(e1) => e1,
        None => {
            return None;
        },
    };
    if !(e1 < n && is_space(v[e1])) {
        return None;
    }
    let u0: usize = e1 + 1;
    let ur = nonspace_run_exec(v, u0);
    if !(ur >= 1 && u0 + ur < n && is_space(v[u0 + ur])) {
        return None;
    }
    let id0: usize = u0 + ur + 1;
    let ir = nonspace_run_exec(v, id0);
    if !(ir >= 1 && id0 + ir < n && is_space(v[id0 + ir])) {
        return None;
    }
    let d: usize = id0 + ir + 1;
    if !(d < n && v[d] == '[') {
        return None;
    }
    match dt_search_exec(v, d, d + 1) {
        Some((dt_lo, dt_hi, ms)) => {
            proof {
                lemma_clf_match_bounds(v@, i as int);
            }
            Some(
            MatchSpans {
                client_lo: i,
                client_hi: e1,
                user_lo: u0,
                user_hi: u0 + ur,
                userid_lo: id0,
                userid_hi: id0 + ir,
                dt_lo,
                dt_hi,
                ..ms
            },
        )
        },
        None => None,
    }
}

/// Parses every structured match of one line into records, in order. A
/// line that matches nowhere yields no record.
pub fn parse_clf_line(line: &str) -> (r: Vec<LineRecord>)
    ensures
        r@.len() == clf_scan_from(line@, 0).len(),
        forall|k: int|
            0 <= k < r@.len() ==> record_matches(
                #[trigger] r@[k],
                line@,
                clf_scan_from(line@, 0)[k],
            ),
{
    let v = chars_of(line);
    let n: usize = v.len();
    let mut out: Vec<LineRecord> = Vec::new();
    let ghost mut done: Seq<ClfSpans> = Seq::empty();
    let mut i: usize = 0;
    proof {
        assert(Seq::<ClfSpans>::empty() + clf_scan_from(line@, 0) =~= clf_scan_from(line@, 0));
    }
    while i < n
        invariant
            n == v@.len(),
            v@ == line@,
            i <= n,
            clf_scan_from(line@, 0) == done + clf_scan_from(line@, i as int),
            out@.len() == done.len(),
            forall|k: int|
                0 <= k < out@.len() ==> record_matches(#[trigger] out@[k], line@, done[k]),
        decreases n - i,
    {
        let ghost prev_done = done;
        match clf_match_at_exec(&v, i) {
            Some(ms) => {
                let rec = LineRecord {
                    client: String::from_str(line.substring_char(ms.client_lo, ms.client_hi)),
                    user_identifier: String::from_str(
                        line.substring_char(ms.user_lo, ms.user_hi),
                    ),
                    userid: String::from_str(line.substring_char(ms.userid_lo, ms.userid_hi)),
                    datetime: String::from_str(line.substring_char(ms.dt_lo, ms.dt_hi)),
                    method: String::from_str(line.substring_char(ms.method_lo, ms.method_hi)),
                    request: String::from_str(line.substring_char(ms.request_lo, ms.request_hi)),
                    protocol: String::from_str(line.substring_char(ms.proto_lo, ms.proto_hi)),
                    status: String::from_str(line.substring_char(ms.status_lo, ms.status_hi)),
                    size: String::from_str(line.substring_char(ms.size_lo, ms.size_hi)),
                };
                proof {
                    let m = clf_match_at(line@, i as int)->Some_0;
                    assert(record_matches(rec, line@, m));
                    done = done.push(m);
                    assert(clf_scan_from(line@, i as int) == seq![m] + clf_scan_from(
                        line@,
                        m.end,
                    ));
                    assert(prev_done + (seq![m] + clf_scan_from(line@, m.end)) =~= done
                        + clf_scan_from(line@, m.end));
                    assert forall|k: int|
                        0 <= k < out@.len() + 1 implies record_matches(
                        #[trigger] (out@.push(rec))[k],
                        line@,
                        done[k],
                    ) by {
                        if k < out@.len() {
                            assert(out@.push(rec)[k] == out@[k]);
                            assert(done[k] == prev_done[k]);
                        } else {
                            assert(out@.push(rec)[k] == rec);
                            assert(done[k] == m);
                        }
                    }
                }
                out.push(rec);
                i = ms.end;
            },
            None => {
                proof {
                    assert(clf_scan_from(line@, i as int) == clf_scan_from(line@, i + 1));
                }
                i = i + 1;
            },
        }
    }
    proof {
        assert(clf_scan_from(line@, n as int) =~= Seq::<ClfSpans>::empty());
        assert(done + Seq::<ClfSpans>::empty() =~= done);
    }
    out
}

/// What holds of the rendering of one match of a line: each of the nine
/// fields is styled, and the renderings stand in the fixed layout with
/// the quoted triple re-quoted.
pub open spec fn clf_span_rendered(out: Seq<char>, line: Seq<char>, m: ClfSpans) -> bool {
    exists|cs: Seq<Seq<char>>|
        {
            &&& cs.len() == 9
            &&& styled_wrap(cs[0], line.subrange(m.client.0, m.client.1))
            &&& styled_wrap(cs[1], line.subrange(m.user_identifier.0, m.user_identifier.1))
            &&& styled_wrap(cs[2], line.subrange(m.userid.0, m.userid.1))
            &&& styled_wrap(cs[3], line.subrange(m.datetime.0, m.datetime.1))
            &&& styled_wrap(cs[4], line.subrange(m.method.0, m.method.1))
            &&& styled_wrap(cs[5], line.subrange(m.request.0, m.request.1))
            &&& styled_wrap(cs[6], line.subrange(m.protocol.0, m.protocol.1))
            &&& styled_wrap(cs[7], line.subrange(m.status.0, m.status.1))
            &&& styled_wrap(cs[8], line.subrange(m.size.0, m.size.1))
            &&& out == cs[0] + seq![' '] + cs[1] + seq![' '] + cs[2] + seq![' '] + cs[3] + seq![
                ' ',
            ] + seq!['"'] + cs[4] + seq![' '] + cs[5] + seq![' '] + cs[6] + seq!['"'] + seq![' ']
                + cs[7] + seq![' '] + cs[8]
        }
}

/// Renders one record: the nine fields in their fixed layout, each with
/// its own emphasis, the triple re-quoted.
pub fn render_clf_record(rec: &LineRecord) -> (out: String)
    ensures
        exists|cs: Seq<Seq<char>>|
            {
                &&& cs.len() == 9
                &&& styled_wrap(cs[0], rec.client@)
                &&& styled_wrap(cs[1], rec.user_identifier@)
                &&& styled_wrap(cs[2], rec.userid@)
                &&& styled_wrap(cs[3], rec.datetime@)
                &&& styled_wrap(cs[4], rec.method@)
                &&& styled_wrap(cs[5], rec.request@)
                &&& styled_wrap(cs[6], rec.protocol@)
                &&& styled_wrap(cs[7], rec.status@)
                &&& styled_wrap(cs[8], rec.size@)
                &&& out@ == cs[0] + seq![' '] + cs[1] + seq![' '] + cs[2] + seq![' '] + cs[3]
                    + seq![' '] + seq!['"'] + cs[4] + seq![' '] + cs[5] + seq![' '] + cs[6] + seq![
                    '"',
                ] + seq![' '] + cs[7] + seq![' '] + cs[8]
            },
{
    let sp: &str = " ";
    let qu: &str = "\"";
    proof {
        reveal_strlit(" ");
        reveal_strlit("\"");
        assert(sp@ =~= seq![' ']);
        assert(qu@ =~= seq!['"']);
    }
    let c0 = paint_bright_red(rec.client.as_str());
    let c1 = paint_white(rec.user_identifier.as_str());
    let c2 = paint_bold_white(rec.userid.as_str());
    let c3 = paint_bright_magenta(rec.datetime.as_str());
    let c4 = paint_bright_cyan(rec.method.as_str());
    let c5 = paint_cyan(rec.request.as_str());
    let c6 = paint_cyan(rec.protocol.as_str());
    let c7 = paint_bright_yellow(rec.status.as_str());
    let c8 = paint_bright_green(rec.size.as_str());
    let mut out = String::new();
    out.append(c0.as_str());
    out.append(sp);
    out.append(c1.as_str());
    out.append(sp);
    out.append(c2.as_str());
    out.append(sp);
    out.append(c3.as_str());
    out.append(sp);
    out.append(qu);
    out.append(c4.as_str());
    out.append(sp);
    out.append(c5.as_str());
    out.append(sp);
    out.append(c6.as_str());
    out.append(qu);
    out.append(sp);
    out.append(c7.as_str());
    out.append(sp);
    out.append(c8.as_str());
    proof {
        let cs = seq![c0@, c1@, c2@, c3@, c4@, c5@, c6@, c7@, c8@];
        assert(cs.len() == 9);
        assert(out@ == cs[0] + seq![' '] + cs[1] + seq![' '] + cs[2] + seq![' '] + cs[3] + seq![
            ' ',
        ] + seq!['"'] + cs[4] + seq![' '] + cs[5] + seq![' '] + cs[6] + seq!['"'] + seq![' ']
            + cs[7] + seq![' '] + cs[8]);
    }
    out
}

/// The matches of the lines of a whole text, paired with their lines:
/// empty lines are skipped, every other line contributes its matches in
/// order.
pub open spec fn line_span_pairs(ls: Seq<Seq<char>>) -> Seq<(Seq<char>, ClfSpans)>
    decreases ls.len(),
{
    if ls.len() == 0 {
        Seq::empty()
    } else {
        line_span_pairs(ls.drop_last()) + pairs_of_line(ls.last())
    }
}

/// The matches of one line, paired with the line; an empty line is
/// skipped and contributes nothing.
pub open spec fn pairs_of_line(line: Seq<char>) -> Seq<(Seq<char>, ClfSpans)> {
    if line.len() == 0 {
        Seq::empty()
    } else {
        Seq::new(clf_scan_from(line, 0).len(), |k: int| (line, clf_scan_from(line, 0)[k]))
    }
}

/// Renders a whole text in structured mode: one output line per match,
/// in order; empty input lines are skipped; a line without any match
/// contributes nothing.
pub fn render_clf(contents: &str) -> (r: Vec<String>)
    ensures
        r@.len() == line_span_pairs(lines_of(contents@)).len(),
        forall|k: int|
            0 <= k < r@.len() ==> clf_span_rendered(
                #[trigger] r@[k]@,
                line_span_pairs(lines_of(contents@))[k].0,
                line_span_pairs(lines_of(contents@))[k].1,
            ),
{
    let lines = split_lines(contents);
    let ln: usize = lines.len();
    let mut out: Vec<String> = Vec::new();
    let ghost mut pairs: Seq<(Seq<char>, ClfSpans)> = Seq::empty();
    let mut i: usize = 0;
    proof {
        assert(lines_of(contents@).take(0) =~= Seq::<Seq<char>>::empty());
        assert(line_span_pairs(Seq::<Seq<char>>::empty()) == Seq::<(Seq<char>, ClfSpans)>::empty());
    }
    while i < ln
        invariant
            ln == lines@.len(),
            Seq::new(lines@.len(), |k: int| lines@[k]@) == lines_of(contents@),
            i <= ln,
            pairs == line_span_pairs(lines_of(contents@).take(i as int)),
            out@.len() == pairs.len(),
            forall|k: int|
                0 <= k < out@.len() ==> clf_span_rendered(
                    #[trigger] out@[k]@,
                    pairs[k].0,
                    pairs[k].1,
                ),
        decreases ln - i,
    {
        let ghost prev_pairs = pairs;
        let ghost line_view = lines@[i as int]@;
        let line = &lines[i];
        if line.unicode_len() > 0 {
            let recs = parse_clf_line(line.as_str());
            let rn: usize = recs.len();
            let mut k: usize = 0;
            proof {
                pairs = prev_pairs + pairs_of_line(line_view);
                let prefix = lines_of(contents@).take(i + 1);
                assert(prefix.drop_last() =~= lines_of(contents@).take(i as int));
                assert(prefix.last() == line_view);
            }
            while k < rn
                invariant
                    rn == recs@.len(),
                    recs@.len() == clf_scan_from(line_view, 0).len(),
                    line_view.len() > 0,
                    forall|j: int|
                        0 <= j < recs@.len() ==> record_matches(
                            #[trigger] recs@[j],
                            line_view,
                            clf_scan_from(line_view, 0)[j],
                        ),
                    k <= rn,
                    pairs == prev_pairs + pairs_of_line(line_view),
                    out@.len() == prev_pairs.len() + k,
                    forall|j: int|
                        0 <= j < out@.len() ==> clf_span_rendered(
                            #[trigger] out@[j]@,
                            pairs[j].0,
                            pairs[j].1,
                        ),
                decreases rn - k,
            {
                let rendered = render_clf_record(&recs[k]);
                proof {
                    assert(record_matches(recs@[k as int], line_view, clf_scan_from(
                        line_view,
                        0,
                    )[k as int]));
                    assert(pairs[prev_pairs.len() + k] == (
                        line_view,
                        clf_scan_from(line_view, 0)[k as int],
                    ));
                    assert(clf_span_rendered(rendered@, line_view, clf_scan_from(
                        line_view,
                        0,
                    )[k as int]));
                }
                out.push(rendered);
                k = k + 1;
            }
        } else {
            proof {
                pairs = prev_pairs + pairs_of_line(line_view);
                assert(pairs_of_line(line_view) =~= Seq::<(Seq<char>, ClfSpans)>::empty());
                assert(pairs =~= prev_pairs);
                let prefix = lines_of(contents@).take(i + 1);
                assert(prefix.drop_last() =~= lines_of(contents@).take(i as int));
                assert(prefix.last() == line_view);
            }
        }
        i = i + 1;
    }
    proof {
        assert(lines_of(contents@).take(ln as int) =~= lines_of(contents@));
    }
    out
}

/// Rendered matches joined by line feeds, no leading or trailing one.
pub open spec fn join_lines(outs: Seq<Seq<char>>) -> Seq<char>
    decreases outs.len(),
{
    if outs.len() == 0 {
        Seq::empty()
    } else if outs.len() == 1 {
        outs[0]
    } else {
        join_lines(outs.drop_last()) + seq!['\n'] + outs.last()
    }
}

/// The built-in structured parser as a plugin: it accepts exactly the
/// lines with at least one structured match, and renders every match of
/// an accepted line, one output line each.
pub struct ClfPlugin {
    pub metadata: crate::plugin::PluginMetadata,
}

impl ClfPlugin {
    pub fn new() -> (p: Self)
        ensures
            p.metadata.name@ == "clf"@,
            p.metadata.version == (crate::version::PluginVersion { major: 1, minor: 0, patch: 0 }),
    {
        ClfPlugin {
            metadata: crate::plugin::PluginMetadata::new(
                "clf",
                crate::version::PluginVersion::new(1, 0, 0),
                "Structured web-access-log parser",
                "splash",
            ),
        }
    }
}

impl crate::plugin::Plugin for ClfPlugin {
    open spec fn spec_name(&self) -> Seq<char> {
        self.metadata.name@
    }

    open spec fn spec_version(&self) -> crate::version::PluginVersion {
        self.metadata.version
    }

    open spec fn spec_parses(&self, line: Seq<char>) -> bool {
        clf_scan_from(line, 0).len() > 0
    }

    fn metadata(&self) -> (m: &crate::plugin::PluginMetadata) {
        let m = &self.metadata;
        proof {
            assert(m.name@ == self.spec_name());
            assert(m.version == self.spec_version());
        }
        m
    }

    fn parse_line(&self, line: &str) -> (r: crate::plugin::ParseResult)
        ensures
            r matches crate::plugin::ParseResult::Parsed(t) ==> exists|outs: Seq<Seq<char>>|
                {
                    &&& outs.len() == clf_scan_from(line@, 0).len()
                    &&& (forall|k: int|
                        0 <= k < outs.len() ==> clf_span_rendered(
                            #[trigger] outs[k],
                            line@,
                            clf_scan_from(line@, 0)[k],
                        ))
                    &&& t@ == join_lines(outs)
                },
    {
        let recs = parse_clf_line(line);
        let rn: usize = recs.len();
        if rn == 0 {
            return crate::plugin::ParseResult::NoMatch;
        }
        let mut out = String::new();
        let nl: &str = "\n";
        proof {
            reveal_strlit("\n");
            assert(nl@ =~= seq!['\n']);
        }
        let ghost mut outs: Seq<Seq<char>> = Seq::empty();
        let mut k: usize = 0;
        proof {
            assert(join_lines(outs) =~= Seq::<char>::empty());
        }
        while k < rn
            invariant
                rn == recs@.len(),
                rn == clf_scan_from(line@, 0).len(),
                forall|j: int|
                    0 <= j < recs@.len() ==> record_matches(
                        #[trigger] recs@[j],
                        line@,
                        clf_scan_from(line@, 0)[j],
                    ),
                nl@ == seq!['\n'],
                k <= rn,
                outs.len() == k,
                forall|j: int|
                    0 <= j < k ==> clf_span_rendered(
                        #[trigger] outs[j],
                        line@,
                        clf_scan_from(line@, 0)[j],
                    ),
                out@ == join_lines(outs),
            decreases rn - k,
        {
            if k > 0 {
                out.append(nl);
            }
            let rendered = render_clf_record(&recs[k]);
            out.append(rendered.as_str());
            proof {
                assert(record_matches(recs@[k as int], line@, clf_scan_from(line@, 0)[k as int]));
                assert(clf_span_rendered(rendered@, line@, clf_scan_from(line@, 0)[k as int]));
                let prev_outs = outs;
                outs = outs.push(rendered@);
                assert(outs.drop_last() =~= prev_outs);
                assert(outs.last() == rendered@);
                if k == 0 {
                    assert(out@ =~= rendered@);
                    assert(join_lines(outs) == outs[0]);
                } else {
                    assert(join_lines(outs) == join_lines(prev_outs) + seq!['\n'] + rendered@);
                }
                assert(out@ == join_lines(outs));
            }
            k = k + 1;
        }
        crate::plugin::ParseResult::Parsed(out)
    }
}

} // verus!
