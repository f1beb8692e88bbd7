//! Reading the backends' metrics exposition.
//!
//! A backend's `/metrics` body is OpenMetrics text: one sample per line,
//! `name{labels} value [timestamp]`, comment lines starting `#`.  The fabric
//! needs two numbers from it: the sums of the samples of the two scheduler
//! gauges, `vllm:num_requests_running` and `vllm:num_requests_waiting`,
//! each sample's value truncated to a whole count.  A value must be a plain
//! signed decimal numeral; exponent forms and the `Inf`/`NaN` words are not
//! counts and their samples are skipped.  The scan is tolerant line by
//! line: a line that is not a well-formed sample of a target family
//! contributes nothing.  A `\r` before a line's end is dropped, so
//! CRLF-terminated expositions read the same as LF-terminated ones, and an
//! unterminated trailing line is read as a line.

use vstd::prelude::*;
use vstd::slice::slice_subrange;
use crate::ascii;
use crate::bytes_order::{lex_cmp, ByteOrder};
use crate::decimal::{all_digits, is_digit, lemma_num_of_prefix, num_of};

verus! {

/// `vllm:num_requests_running`
pub open spec fn lit_running_name() -> Seq<u8> {
    seq![
        118u8,
        108u8,
        108u8,
        109u8,
        58u8,
        110u8,
        117u8,
        109u8,
        95u8,
        114u8,
        101u8,
        113u8,
        117u8,
        101u8,
        115u8,
        116u8,
        115u8,
        95u8,
        114u8,
        117u8,
        110u8,
        110u8,
        105u8,
        110u8,
        103u8,
    ]
}

/// `vllm:num_requests_waiting`
pub open spec fn lit_waiting_name() -> Seq<u8> {
    seq![
        118u8,
        108u8,
        108u8,
        109u8,
        58u8,
        110u8,
        117u8,
        109u8,
        95u8,
        114u8,
        101u8,
        113u8,
        117u8,
        101u8,
        115u8,
        116u8,
        115u8,
        95u8,
        119u8,
        97u8,
        105u8,
        116u8,
        105u8,
        110u8,
        103u8,
    ]
}

/// A run of ASCII digits, possibly empty.
pub open spec fn digits_only(s: Seq<u8>) -> bool {
    forall|i: int| 0 <= i < s.len() ==> is_digit(#[trigger] s[i])
}

/// The first `.` at or after `i`, or `-1`.
pub open spec fn dot_index(s: Seq<u8>, i: int) -> int
    decreases s.len() - i,
{
    if i < 0 || i >= s.len() {
        -1
    } else if s[i] == ascii::DOT {
        i
    } else {
        dot_index(s, i + 1)
    }
}

/// An unsigned decimal numeral with an optional fraction: digits, or
/// digits around a single `.`, at least one digit in all.
pub open spec fn number_shape(s: Seq<u8>) -> bool {
    s.len() > 0 && {
        let d = dot_index(s, 0);
        if d < 0 {
            all_digits(s)
        } else {
            digits_only(s.take(d)) && digits_only(s.skip(d + 1)) && s.len() > 1
        }
    }
}

/// The digits before the `.`, or all of them.
pub open spec fn int_part(s: Seq<u8>) -> Seq<u8> {
    let d = dot_index(s, 0);
    if d < 0 {
        s
    } else {
        s.take(d)
    }
}

/// The whole-count value of a sample token: its decimal value truncated
/// toward zero (so any fraction is dropped and a negative value reads as
/// zero), squeezed into a `u64`.  A token that is not a signed decimal
/// numeral has no value and its sample is skipped — deliberately including
/// exponent forms (`1e+06`), `+Inf`, `-Inf` and `NaN`: a scheduler gauge
/// never legitimately takes such a value, so those samples are dropped
/// rather than read as a made-up count.
pub open spec fn sample_value(tok: Seq<u8>) -> Option<u64> {
    if tok.len() == 0 {
        None
    } else if tok[0] == ascii::MINUS {
        if number_shape(tok.drop_first()) {
            Some(0)
        } else {
            None
        }
    } else if tok[0] == ascii::PLUS {
        if number_shape(tok.drop_first()) {
            Some(crate::generator::sat64(num_of(int_part(tok.drop_first()))))
        } else {
            None
        }
    } else {
        if number_shape(tok) {
            Some(crate::generator::sat64(num_of(int_part(tok))))
        } else {
            None
        }
    }
}

/// A line body without its trailing carriage return, if it has one.
pub open spec fn strip_cr(l: Seq<u8>) -> Seq<u8> {
    if l.len() > 0 && l.last() == ascii::CARRIAGE {
        l.drop_last()
    } else {
        l
    }
}

/// Where the metric name ends: at the first `{` or space, or at the end.
pub open spec fn name_end(l: Seq<u8>, i: int) -> int
    decreases l.len() - i,
{
    if i < 0 || i >= l.len() {
        l.len() as int
    } else if l[i] == ascii::LBRACE || l[i] == ascii::SPACE {
        i
    } else {
        name_end(l, i + 1)
    }
}

/// Where the label block closes: the first `}` at or after `i` that stands
/// outside label-value quotes, respecting backslash escapes, or `-1`.
pub open spec fn label_close(l: Seq<u8>, i: int, in_quotes: bool, escaped: bool) -> int
    decreases l.len() - i,
{
    if i < 0 || i >= l.len() {
        -1
    } else if escaped {
        label_close(l, i + 1, in_quotes, false)
    } else if in_quotes && l[i] == ascii::BACKSLASH {
        label_close(l, i + 1, in_quotes, true)
    } else if l[i] == ascii::QUOTE {
        label_close(l, i + 1, !in_quotes, false)
    } else if !in_quotes && l[i] == ascii::RBRACE {
        i
    } else {
        label_close(l, i + 1, in_quotes, false)
    }
}

/// Where a token ends: at the next space, or at the end.
pub open spec fn token_end(l: Seq<u8>, i: int) -> int
    decreases l.len() - i,
{
    if i < 0 || i >= l.len() {
        l.len() as int
    } else if l[i] == ascii::SPACE {
        i
    } else {
        token_end(l, i + 1)
    }
}

/// The value token of a sample line: the text between the single space
/// after the name (or after the label block) and the next space or the
/// line's end.  `None` when the line has no such token.
pub open spec fn value_token(l: Seq<u8>) -> Option<Seq<u8>> {
    let ne = name_end(l, 0);
    if ne == l.len() {
        None
    } else if l[ne] == ascii::LBRACE {
        let ce = label_close(l, ne + 1, false, false);
        if ce < 0 {
            None
        } else if ce + 1 < l.len() && l[ce + 1] == ascii::SPACE {
            let te = token_end(l, ce + 2);
            if te > ce + 2 {
                Some(l.subrange(ce + 2, te))
            } else {
                None
            }
        } else {
            None
        }
    } else {
        let te = token_end(l, ne + 1);
        if te > ne + 1 {
            Some(l.subrange(ne + 1, te))
        } else {
            None
        }
    }
}

/// What one raw line contributes: `Some((false, v))` for a running sample
/// of value `v`, `Some((true, v))` for a waiting sample, `None` for
/// comments, blank lines, other families, and lines that are not
/// well-formed samples.
pub open spec fn line_contribution(raw: Seq<u8>) -> Option<(bool, u64)> {
    let l = strip_cr(raw);
    if l.len() == 0 || l[0] == ascii::HASH {
        None
    } else {
        let nm = l.take(name_end(l, 0));
        let target: Option<bool> = if nm == lit_running_name() {
            Some(false)
        } else if nm == lit_waiting_name() {
            Some(true)
        } else {
            None
        };
        match target {
            None => None,
            Some(w) => match value_token(l) {
                None => None,
                Some(tok) => match sample_value(tok) {
                    None => None,
                    Some(v) => Some((w, v)),
                },
            },
        }
    }
}

/// A saturating sum step: the first sample of a family turns its total on.
pub open spec fn bump(acc: Option<u64>, v: u64) -> Option<u64> {
    match acc {
        None => Some(v),
        Some(a) => Some(crate::generator::sat64((a + v) as nat)),
    }
}

/// The two totals after one more line.
pub open spec fn apply_line(
    running: Option<u64>,
    pending: Option<u64>,
    line: Seq<u8>,
) -> (Option<u64>, Option<u64>) {
    match line_contribution(line) {
        None => (running, pending),
        Some((false, v)) => (bump(running, v), pending),
        Some((true, v)) => (running, bump(pending, v)),
    }
}

/// The scan state after reading a prefix of the body: the bytes of the
/// still-open line and the totals of the lines already closed.
pub ghost struct ScanV {
    pub cur: Seq<u8>,
    pub running: Option<u64>,
    pub pending: Option<u64>,
}

/// The scan state after reading `s`.
pub open spec fn scan(s: Seq<u8>) -> ScanV
    decreases s.len(),
{
    if s.len() == 0 {
        ScanV { cur: Seq::empty(), running: None, pending: None }
    } else {
        let st = scan(s.drop_last());
        if s.last() == ascii::NEWLINE {
            let (running, pending) = apply_line(st.running, st.pending, st.cur);
            ScanV { cur: Seq::empty(), running, pending }
        } else {
            ScanV { cur: st.cur.push(s.last()), running: st.running, pending: st.pending }
        }
    }
}

/// The two totals of a whole body: every closed line counted, and the
/// trailing unterminated line counted as a line.
pub open spec fn spec_scrape(s: Seq<u8>) -> (Option<u64>, Option<u64>) {
    apply_line(scan(s).running, scan(s).pending, scan(s).cur)
}

/// Parses a digit run as a `u64`, saturating: digit runs beyond the range
/// read as the largest count.
fn parse_sat(s: &[u8]) -> (r: u64)
    requires
        digits_only(s@),
    ensures
        r == crate::generator::sat64(num_of(s@)),
{
    let mut acc: u64 = 0;
    let mut i: usize = 0;
    while i < s.len()
        invariant
            0 <= i <= s@.len(),
            digits_only(s@),
            acc == num_of(s@.take(i as int)),
        decreases s@.len() - i,
    {
        let b = s[i];
        let d = (b - ascii::ZERO) as u64;
        proof {
            assert(s@.take(i + 1).drop_last() =~= s@.take(i as int));
            assert(s@.take(i + 1).last() == s@[i as int]);
        }
        if acc > (u64::MAX - d) / 10 {
            proof {
                assert(num_of(s@.take(i + 1)) == acc * 10 + d);
                assert(num_of(s@.take(i + 1)) > u64::MAX);
                lemma_num_of_prefix(s@, i + 1);
            }
            return u64::MAX;
        }
        acc = acc * 10 + d;
        i = i + 1;
    }
    proof {
        assert(s@.take(s@.len() as int) =~= s@);
    }
    acc
}

/// Finds the first `.` of a token.
fn find_dot(s: &[u8]) -> (r: Option<usize>)
    ensures
        match r {
            Some(d) => dot_index(s@, 0) == d as int && d < s@.len(),
            None => dot_index(s@, 0) == -1,
        },
{
    let mut i: usize = 0;
    while i < s.len()
        invariant
            0 <= i <= s@.len(),
            dot_index(s@, 0) == dot_index(s@, i as int),
        decreases s@.len() - i,
    {
        if s[i] == ascii::DOT {
            return Some(i);
        }
        i = i + 1;
    }
    None
}

/// Whether every byte of a slice is a digit.
fn all_digits_exec(s: &[u8]) -> (r: bool)
    ensures
        r <==> digits_only(s@),
{
    let mut i: usize = 0;
    while i < s.len()
        invariant
            0 <= i <= s@.len(),
            forall|j: int| 0 <= j < i ==> is_digit(#[trigger] s@[j]),
        decreases s@.len() - i,
    {
        if s[i] < ascii::ZERO || s[i] > ascii::NINE {
            return false;
        }
        i = i + 1;
    }
    true
}

/// The whole-count value of an unsigned numeral token, or `None` when the
/// token is not one.
fn unsigned_value(s: &[u8]) -> (r: Option<u64>)
    ensures
        r is Some <==> number_shape(s@),
        r is Some ==> r->0 == crate::generator::sat64(num_of(int_part(s@))),
{
    if s.len() == 0 {
        return None;
    }
    match find_dot(s) {
        None => {
            if all_digits_exec(s) {
                Some(parse_sat(s))
            } else {
                None
            }
        },
        Some(d) => {
            if s.len() <= 1 {
                return None;
            }
            let head = slice_subrange(s, 0, d);
            let tail = slice_subrange(s, d + 1, s.len());
            proof {
                assert(head@ =~= s@.take(d as int));
                assert(tail@ =~= s@.skip(d + 1));
            }
            if all_digits_exec(head) && all_digits_exec(tail) {
                Some(parse_sat(head))
            } else {
                None
            }
        },
    }
}

/// The whole-count value of a sample token.
fn sample_value_exec(tok: &[u8]) -> (r: Option<u64>)
    ensures
        r == sample_value(tok@),
{
    if tok.len() == 0 {
        return None;
    }
    if tok[0] == ascii::MINUS {
        let rest = slice_subrange(tok, 1, tok.len());
        proof {
            assert(rest@ =~= tok@.drop_first());
        }
        match unsigned_value(rest) {
            Some(_) => Some(0),
            None => None,
        }
    } else if tok[0] == ascii::PLUS {
        let rest = slice_subrange(tok, 1, tok.len());
        proof {
            assert(rest@ =~= tok@.drop_first());
        }
        unsigned_value(rest)
    } else {
        unsigned_value(tok)
    }
}

/// Where the metric name of a line ends.
fn name_end_exec(l: &[u8]) -> (r: usize)
    ensures
        r as int == name_end(l@, 0),
        r <= l@.len(),
{
    let mut i: usize = 0;
    while i < l.len() && l[i] != ascii::LBRACE && l[i] != ascii::SPACE
        invariant
            0 <= i <= l@.len(),
            name_end(l@, 0) == name_end(l@, i as int),
        decreases l@.len() - i,
    {
        i = i + 1;
    }
    i
}

/// Where the label block starting after `start` closes, if it does.
fn label_close_exec(l: &[u8], start: usize) -> (r: Option<usize>)
    requires
        start <= l@.len(),
    ensures
        match r {
            Some(c) => label_close(l@, start as int, false, false) == c as int && c < l@.len(),
            None => label_close(l@, start as int, false, false) == -1,
        },
{
    let mut j: usize = start;
    let mut in_quotes = false;
    let mut escaped = false;
    let mut found = false;
    let mut close: usize = 0;
    while j < l.len() && !found
        invariant
            start <= j <= l@.len(),
            !found ==> label_close(l@, start as int, false, false) == label_close(
                l@,
                j as int,
                in_quotes,
                escaped,
            ),
            found ==> label_close(l@, start as int, false, false) == close as int && close
                < l@.len(),
        decreases l@.len() - j, (if found {
            0int
        } else {
            1int
        }),
    {
        let b = l[j];
        if escaped {
            escaped = false;
            j = j + 1;
        } else if in_quotes && b == ascii::BACKSLASH {
            escaped = true;
            j = j + 1;
        } else if b == ascii::QUOTE {
            in_quotes = !in_quotes;
            j = j + 1;
        } else if !in_quotes && b == ascii::RBRACE {
            close = j;
            found = true;
        } else {
            j = j + 1;
        }
    }
    if found {
        Some(close)
    } else {
        None
    }
}

/// Where the token starting at `start` ends.
fn token_end_exec(l: &[u8], start: usize) -> (r: usize)
    requires
        start <= l@.len(),
    ensures
        r as int == token_end(l@, start as int),
        start <= r <= l@.len(),
{
    let mut t: usize = start;
    while t < l.len() && l[t] != ascii::SPACE
        invariant
            start <= t <= l@.len(),
            token_end(l@, start as int) == token_end(l@, t as int),
        decreases l@.len() - t,
    {
        t = t + 1;
    }
    t
}

/// What one raw line contributes to the two totals.
fn line_contribution_exec(raw: &[u8]) -> (r: Option<(bool, u64)>)
    ensures
        r == line_contribution(raw@),
{
    let l = if raw.len() > 0 && raw[raw.len() - 1] == ascii::CARRIAGE {
        slice_subrange(raw, 0, raw.len() - 1)
    } else {
        slice_subrange(raw, 0, raw.len())
    };
    proof {
        assert(l@ =~= strip_cr(raw@));
    }
    if l.len() == 0 {
        return None;
    }
    if l[0] == ascii::HASH {
        return None;
    }
    let ne = name_end_exec(l);
    let name = slice_subrange(l, 0, ne);
    proof {
        assert(name@ =~= l@.take(ne as int));
    }
    let running_name = metric_name_running();
    let waiting_name = metric_name_waiting();
    let is_running = matches!(lex_cmp(name, running_name.as_slice()), ByteOrder::Equal);
    let is_waiting = matches!(lex_cmp(name, waiting_name.as_slice()), ByteOrder::Equal);
    if !is_running && !is_waiting {
        return None;
    }
    let token_start: usize;
    if ne == l.len() {
        return None;
    } else if l[ne] == ascii::LBRACE {
        match label_close_exec(l, ne + 1) {
            None => {
                return None;
            },
            Some(ce) => {
                if ce + 1 < l.len() {
                    if l[ce + 1] == ascii::SPACE {
                        token_start = ce + 2;
                    } else {
                        return None;
                    }
                } else {
                    return None;
                }
            },
        }
    } else {
        token_start = ne + 1;
    }
    let t = token_end_exec(l, token_start);
    if t <= token_start {
        return None;
    }
    let tok = slice_subrange(l, token_start, t);
    proof {
        assert(tok@ =~= l@.subrange(token_start as int, t as int));
    }
    match sample_value_exec(tok) {
        Some(v) => if is_running {
            Some((false, v))
        } else {
            Some((true, v))
        },
        None => None,
    }
}

/// The bytes of `vllm:num_requests_running`.
fn metric_name_running() -> (r: Vec<u8>)
    ensures
        r@ == lit_running_name(),
{
    let mut v: Vec<u8> = Vec::new();
    v.push(118);
    v.push(108);
    v.push(108);
    v.push(109);
    v.push(58);
    v.push(110);
    v.push(117);
    v.push(109);
    v.push(95);
    v.push(114);
    v.push(101);
    v.push(113);
    v.push(117);
    v.push(101);
    v.push(115);
    v.push(116);
    v.push(115);
    v.push(95);
    v.push(114);
    v.push(117);
    v.push(110);
    v.push(110);
    v.push(105);
    v.push(110);
    v.push(103);
    proof {
        assert(v@ =~= lit_running_name());
    }
    v
}

/// The bytes of `vllm:num_requests_waiting`.
fn metric_name_waiting() -> (r: Vec<u8>)
    ensures
        r@ == lit_waiting_name(),
{
    let mut v: Vec<u8> = Vec::new();
    v.push(118);
    v.push(108);
    v.push(108);
    v.push(109);
    v.push(58);
    v.push(110);
    v.push(117);
    v.push(109);
    v.push(95);
    v.push(114);
    v.push(101);
    v.push(113);
    v.push(117);
    v.push(101);
    v.push(115);
    v.push(116);
    v.push(115);
    v.push(95);
    v.push(119);
    v.push(97);
    v.push(105);
    v.push(116);
    v.push(105);
    v.push(110);
    v.push(103);
    proof {
        assert(v@ =~= lit_waiting_name());
    }
    v
}

/// Applies one closed line to the running totals.
fn apply_line_exec(running: Option<u64>, pending: Option<u64>, line: &[u8]) -> (r: (
    Option<u64>,
    Option<u64>,
))
    ensures
        r == apply_line(running, pending, line@),
{
    match line_contribution_exec(line) {
        None => (running, pending),
        Some((false, v)) => {
            let bumped = match running {
                None => Some(v),
                Some(a) => if a > u64::MAX - v {
                    Some(u64::MAX)
                } else {
                    Some(a + v)
                },
            };
            (bumped, pending)
        },
        Some((true, v)) => {
            let bumped = match pending {
                None => Some(v),
                Some(a) => if a > u64::MAX - v {
                    Some(u64::MAX)
                } else {
                    Some(a + v)
                },
            };
            (running, bumped)
        },
    }
}

/// Reads a whole `/metrics` body and returns the summed running and
/// waiting counts: each total is present exactly when at least one
/// well-formed sample of its family appears, and equals the (saturating)
/// sum of those samples' truncated values.
pub fn scrape_totals(body: &[u8]) -> (r: (Option<u64>, Option<u64>))
    ensures
        r == spec_scrape(body@),
{
    let mut cur: Vec<u8> = Vec::new();
    let mut running: Option<u64> = None;
    let mut pending: Option<u64> = None;
    let mut i: usize = 0;
    while i < body.len()
        invariant
            0 <= i <= body@.len(),
            cur@ == scan(body@.take(i as int)).cur,
            running == scan(body@.take(i as int)).running,
            pending == scan(body@.take(i as int)).pending,
        decreases body@.len() - i,
    {
        let b = body[i];
        proof {
            assert(body@.take(i + 1).drop_last() =~= body@.take(i as int));
            assert(body@.take(i + 1).last() == body@[i as int]);
        }
        if b == ascii::NEWLINE {
            let (r2, p2) = apply_line_exec(running, pending, cur.as_slice());
            running = r2;
            pending = p2;
            cur.clear();
        } else {
            cur.push(b);
        }
        i = i + 1;
    }
    proof {
        assert(body@.take(body@.len() as int) =~= body@);
    }
    apply_line_exec(running, pending, cur.as_slice())
}

} // verus!
