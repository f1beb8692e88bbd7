//! Parsing the upstream configuration text.
//!
//! An upstream is configured as
//! `scheme://host[:port][/path]?interval=<dur>[&http2_only=<bool>][&timeout=<dur>]`.
//! A duration is exactly one decimal count with a unit (`ns`, `us`, `ms`,
//! `s`, `m`, `h`, `d`); compound forms such as a count of minutes followed
//! by a count of seconds are rejected, deliberately — one count, one unit,
//! nothing to mis-read.  The polling interval is required; an unknown query
//! key, a duplicated key, or a malformed value is rejected — configuration
//! errors are fatal at startup, so nothing is guessed.

use vstd::prelude::*;
use crate::aggregate::copy_bytes;
use crate::ascii;
use crate::bytes_order::{lex_cmp, ByteOrder};
use crate::decimal::{all_digits, is_digit, num_of};
use crate::upstream::{Upstream, UpstreamV};

verus! {

broadcast use crate::views::lemma_bytes_deep_view;

/// Why an upstream text was rejected.
#[derive(Clone, Copy, PartialEq, Eq, Structural, Debug)]
pub enum ConfigError {
    /// No `scheme://host` shape, or an empty scheme or host.
    BadUri,
    /// The port is not a decimal number a port can hold.
    BadPort,
    /// A query key the configuration does not know.
    UnknownKey,
    /// A query key given twice.
    DuplicateKey,
    /// A flag that is neither `true` nor `false`.
    BadFlag,
    /// A duration without digits, with an unknown unit, or out of range.
    BadDuration,
    /// No `interval` in the query.
    MissingInterval,
}

/// The first occurrence of `b` at or after `i`, or the length.
pub open spec fn find_byte(s: Seq<u8>, i: int, b: u8) -> int
    decreases s.len() - i,
{
    if i < 0 || i >= s.len() {
        s.len() as int
    } else if s[i] == b {
        i
    } else {
        find_byte(s, i + 1, b)
    }
}

/// Where the digits of a duration end.
pub open spec fn digit_end(s: Seq<u8>, i: int) -> int
    decreases s.len() - i,
{
    if i < 0 || i >= s.len() {
        s.len() as int
    } else if is_digit(s[i]) {
        digit_end(s, i + 1)
    } else {
        i
    }
}

/// Nanoseconds per duration unit, for the units the configuration accepts.
pub open spec fn unit_nanos(u: Seq<u8>) -> Option<u64> {
    if u == seq![110u8, 115u8] {  // ns
        Some(1)
    } else if u == seq![117u8, 115u8] {  // us
        Some(1000)
    } else if u == seq![109u8, 115u8] {  // ms
        Some(1000000)
    } else if u == seq![115u8] {  // s
        Some(1000000000)
    } else if u == seq![109u8] {  // m
        Some(60000000000)
    } else if u == seq![104u8] {  // h
        Some(3600000000000)
    } else if u == seq![100u8] {  // d
        Some(86400000000000)
    } else {
        None
    }
}

/// A duration text in nanoseconds: a non-empty decimal count, then a unit,
/// the product within range.  Exactly one count-and-unit pair; compound
/// forms are not accepted.
pub open spec fn spec_parse_duration(s: Seq<u8>) -> Option<u64> {
    let de = digit_end(s, 0);
    if de == 0 {
        None
    } else {
        match unit_nanos(s.skip(de)) {
            None => None,
            Some(m) => if num_of(s.take(de)) * m <= u64::MAX {
                Some((num_of(s.take(de)) * m) as u64)
            } else {
                None
            },
        }
    }
}

/// What the query has said so far.
pub ghost struct QueryAccV {
    pub http2_only: Option<bool>,
    pub interval: Option<u64>,
    pub timeout: Option<u64>,
}

/// `http2_only`
pub open spec fn lit_key_http2_only() -> Seq<u8> {
    seq![104u8, 116u8, 116u8, 112u8, 50u8, 95u8, 111u8, 110u8, 108u8, 121u8]
}

/// `interval`
pub open spec fn lit_key_interval() -> Seq<u8> {
    seq![105u8, 110u8, 116u8, 101u8, 114u8, 118u8, 97u8, 108u8]
}

/// `timeout`
pub open spec fn lit_key_timeout() -> Seq<u8> {
    seq![116u8, 105u8, 109u8, 101u8, 111u8, 117u8, 116u8]
}

/// `true`
pub open spec fn lit_true() -> Seq<u8> {
    seq![116u8, 114u8, 117u8, 101u8]
}

/// `false`
pub open spec fn lit_false() -> Seq<u8> {
    seq![102u8, 97u8, 108u8, 115u8, 101u8]
}

/// Applies one non-empty `key=value` pair to the accumulator.
pub open spec fn apply_pair(acc: QueryAccV, pair: Seq<u8>) -> Result<QueryAccV, ConfigError> {
    let eq = find_byte(pair, 0, ascii::EQUALS);
    let key = pair.take(eq);
    let value = if eq < pair.len() {
        pair.skip(eq + 1)
    } else {
        Seq::empty()
    };
    if key == lit_key_http2_only() {
        if acc.http2_only is Some {
            Err(ConfigError::DuplicateKey)
        } else if value == lit_true() {
            Ok(QueryAccV { http2_only: Some(true), ..acc })
        } else if value == lit_false() {
            Ok(QueryAccV { http2_only: Some(false), ..acc })
        } else {
            Err(ConfigError::BadFlag)
        }
    } else if key == lit_key_interval() {
        if acc.interval is Some {
            Err(ConfigError::DuplicateKey)
        } else {
            match spec_parse_duration(value) {
                Some(d) => Ok(QueryAccV { interval: Some(d), ..acc }),
                None => Err(ConfigError::BadDuration),
            }
        }
    } else if key == lit_key_timeout() {
        if acc.timeout is Some {
            Err(ConfigError::DuplicateKey)
        } else {
            match spec_parse_duration(value) {
                Some(d) => Ok(QueryAccV { timeout: Some(d), ..acc }),
                None => Err(ConfigError::BadDuration),
            }
        }
    } else {
        Err(ConfigError::UnknownKey)
    }
}

/// Folds the `&`-separated pairs of a query into the accumulator, in
/// order.  Empty pairs are skipped.
pub open spec fn fold_pairs(acc: QueryAccV, q: Seq<u8>) -> Result<QueryAccV, ConfigError>
    decreases q.len(),
    via fold_pairs_decreases
{
    if q.len() == 0 {
        Ok(acc)
    } else {
        let amp = find_byte(q, 0, ascii::AMPERSAND);
        let pair = q.take(amp);
        let step: Result<QueryAccV, ConfigError> = if pair.len() == 0 {
            Ok(acc)
        } else {
            apply_pair(acc, pair)
        };
        match step {
            Err(e) => Err(e),
            Ok(a2) => if amp == q.len() {
                Ok(a2)
            } else {
                fold_pairs(a2, q.skip(amp + 1))
            },
        }
    }
}

/// The search result lies between its start and the length.
pub proof fn lemma_find_byte_bounds(s: Seq<u8>, i: int, b: u8)
    requires
        0 <= i <= s.len(),
    ensures
        i <= find_byte(s, i, b) <= s.len(),
    decreases s.len() - i,
{
    if i < s.len() && s[i] != b {
        lemma_find_byte_bounds(s, i + 1, b);
    }
}

#[via_fn]
proof fn fold_pairs_decreases(acc: QueryAccV, q: Seq<u8>) {
    if q.len() > 0 {
        lemma_find_byte_bounds(q, 0, ascii::AMPERSAND);
    }
}

/// Every byte before where the digits end is a digit.
pub proof fn lemma_digit_end_digits(s: Seq<u8>, i: int)
    requires
        0 <= i <= s.len(),
    ensures
        i <= digit_end(s, i) <= s.len(),
        forall|j: int| i <= j < digit_end(s, i) ==> is_digit(#[trigger] s[j]),
    decreases s.len() - i,
{
    if i < s.len() && is_digit(s[i]) {
        lemma_digit_end_digits(s, i + 1);
    }
}

/// What an upstream text means: the parsed upstream, or why it is
/// rejected.  The shape is `scheme://host[:port][/path]?query`; the path is
/// ignored (probes build their own), the query is folded by [`fold_pairs`],
/// and `interval` must have been given.
pub open spec fn spec_parse_upstream(s: Seq<u8>) -> Result<UpstreamV, ConfigError> {
    let se = find_byte(s, 0, ascii::COLON);
    if se == 0 || se >= s.len() || se + 2 >= s.len() || s[se + 1] != ascii::SLASH || s[se + 2]
        != ascii::SLASH {
        Err(ConfigError::BadUri)
    } else {
        let auth_start = se + 3;
        let slash = find_byte(s, auth_start, ascii::SLASH);
        let quest = find_byte(s, auth_start, ascii::QUESTION);
        let auth_end = if slash <= quest {
            slash
        } else {
            quest
        };
        let auth = s.subrange(auth_start, auth_end);
        let colon = find_byte(auth, 0, ascii::COLON);
        let host = auth.take(colon);
        if host.len() == 0 {
            Err(ConfigError::BadUri)
        } else {
            let port: Result<Option<u16>, ConfigError> = if colon == auth.len() {
                Ok(None)
            } else if all_digits(auth.skip(colon + 1)) && num_of(auth.skip(colon + 1))
                <= u16::MAX {
                Ok(Some(num_of(auth.skip(colon + 1)) as u16))
            } else {
                Err(ConfigError::BadPort)
            };
            match port {
                Err(e) => Err(e),
                Ok(port) => {
                    let qm = find_byte(s, auth_end, ascii::QUESTION);
                    let query = if qm < s.len() {
                        s.skip(qm + 1)
                    } else {
                        Seq::empty()
                    };
                    match fold_pairs(
                        QueryAccV { http2_only: None, interval: None, timeout: None },
                        query,
                    ) {
                        Err(e) => Err(e),
                        Ok(acc) => match acc.interval {
                            None => Err(ConfigError::MissingInterval),
                            Some(interval) => Ok(
                                UpstreamV {
                                    scheme: s.take(se),
                                    host,
                                    port,
                                    http2_only: match acc.http2_only {
                                        Some(b) => b,
                                        None => false,
                                    },
                                    interval,
                                    timeout: acc.timeout,
                                },
                            ),
                        },
                    }
                },
            }
        }
    }
}

/// Finds the first occurrence of `b` at or after `from`.
fn find_byte_exec(s: &[u8], from: usize, b: u8) -> (r: usize)
    requires
        from <= s@.len(),
    ensures
        r as int == find_byte(s@, from as int, b),
        from <= r <= s@.len(),
        r < s@.len() ==> s@[r as int] == b,
{
    let mut i: usize = from;
    while i < s.len() && s[i] != b
        invariant
            from <= i <= s@.len(),
            find_byte(s@, from as int, b) == find_byte(s@, i as int, b),
        decreases s@.len() - i,
    {
        i = i + 1;
    }
    i
}

/// Parses a duration text into nanoseconds.
pub fn parse_duration(s: &[u8]) -> (r: Option<u64>)
    ensures
        r == spec_parse_duration(s@),
{
    let mut de: usize = 0;
    while de < s.len() && s[de] >= ascii::ZERO && s[de] <= ascii::NINE
        invariant
            0 <= de <= s@.len(),
            digit_end(s@, 0) == digit_end(s@, de as int),
        decreases s@.len() - de,
    {
        de = de + 1;
    }
    proof {
        assert(digit_end(s@, 0) == de as int);
    }
    if de == 0 {
        return None;
    }
    let digits = vstd::slice::slice_subrange(s, 0, de);
    let unit = vstd::slice::slice_subrange(s, de, s.len());
    proof {
        assert(digits@ =~= s@.take(de as int));
        assert(unit@ =~= s@.skip(de as int));
    }
    let mult: u64;
    if unit.len() == 2 && unit[0] == 110 && unit[1] == 115 {
        proof {
            assert(unit@ =~= seq![110u8, 115u8]);
        }
        mult = 1;
    } else if unit.len() == 2 && unit[0] == 117 && unit[1] == 115 {
        proof {
            assert(unit@ =~= seq![117u8, 115u8]);
            assert(unit@ != seq![110u8, 115u8]);
        }
        mult = 1000;
    } else if unit.len() == 2 && unit[0] == 109 && unit[1] == 115 {
        proof {
            assert(unit@ =~= seq![109u8, 115u8]);
            assert(unit@ != seq![110u8, 115u8] && unit@ != seq![117u8, 115u8]);
        }
        mult = 1000000;
    } else if unit.len() == 1 && unit[0] == 115 {
        proof {
            assert(unit@ =~= seq![115u8]);
        }
        mult = 1000000000;
    } else if unit.len() == 1 && unit[0] == 109 {
        proof {
            assert(unit@ =~= seq![109u8]);
        }
        mult = 60000000000;
    } else if unit.len() == 1 && unit[0] == 104 {
        proof {
            assert(unit@ =~= seq![104u8]);
        }
        mult = 3600000000000;
    } else if unit.len() == 1 && unit[0] == 100 {
        proof {
            assert(unit@ =~= seq![100u8]);
        }
        mult = 86400000000000;
    } else {
        proof {
            assert(unit@.len() == 2 ==> unit@ =~= seq![unit@[0], unit@[1]]);
            assert(unit@.len() == 1 ==> unit@ =~= seq![unit@[0]]);
            assert(unit_nanos(unit@) is None);
        }
        return None;
    }
    proof {
        lemma_digit_end_digits(s@, 0);
        assert(all_digits(digits@));
    }
    let n = match crate::decimal::parse_u64(digits) {
        Some(n) => n,
        None => {
            proof {
                assert(all_digits(digits@));
                assert(num_of(digits@) > u64::MAX);
                assert(num_of(digits@) * mult > u64::MAX) by (nonlinear_arith)
                    requires
                        num_of(digits@) > u64::MAX,
                        mult >= 1,
                ;
            }
            return None;
        },
    };
    if n > u64::MAX / mult {
        proof {
            assert(num_of(digits@) * mult > u64::MAX) by (nonlinear_arith)
                requires
                    n == num_of(digits@),
                    n > u64::MAX / mult,
                    mult >= 1,
            ;
        }
        return None;
    }
    proof {
        assert(n * mult <= u64::MAX) by (nonlinear_arith)
            requires
                n <= u64::MAX / mult,
                mult >= 1,
        ;
    }
    Some(n * mult)
}

/// The bytes of `http2_only`.
fn key_http2_only() -> (r: Vec<u8>)
    ensures
        r@ == lit_key_http2_only(),
{
    let mut v: Vec<u8> = Vec::new();
    v.push(104);
    v.push(116);
    v.push(116);
    v.push(112);
    v.push(50);
    v.push(95);
    v.push(111);
    v.push(110);
    v.push(108);
    v.push(121);
    proof {
        assert(v@ =~= lit_key_http2_only());
    }
    v
}

/// The bytes of `interval`.
fn key_interval() -> (r: Vec<u8>)
    ensures
        r@ == lit_key_interval(),
{
    let mut v: Vec<u8> = Vec::new();
    v.push(105);
    v.push(110);
    v.push(116);
    v.push(101);
    v.push(114);
    v.push(118);
    v.push(97);
    v.push(108);
    proof {
        assert(v@ =~= lit_key_interval());
    }
    v
}

/// The bytes of `timeout`.
fn key_timeout() -> (r: Vec<u8>)
    ensures
        r@ == lit_key_timeout(),
{
    let mut v: Vec<u8> = Vec::new();
    v.push(116);
    v.push(105);
    v.push(109);
    v.push(101);
    v.push(111);
    v.push(117);
    v.push(116);
    proof {
        assert(v@ =~= lit_key_timeout());
    }
    v
}

/// The bytes of `true`.
fn word_true() -> (r: Vec<u8>)
    ensures
        r@ == lit_true(),
{
    let mut v: Vec<u8> = Vec::new();
    v.push(116);
    v.push(114);
    v.push(117);
    v.push(101);
    proof {
        assert(v@ =~= lit_true());
    }
    v
}

/// The bytes of `false`.
fn word_false() -> (r: Vec<u8>)
    ensures
        r@ == lit_false(),
{
    let mut v: Vec<u8> = Vec::new();
    v.push(102);
    v.push(97);
    v.push(108);
    v.push(115);
    v.push(101);
    proof {
        assert(v@ =~= lit_false());
    }
    v
}

/// Executable form of the query accumulator.
struct QueryAcc {
    http2_only: Option<bool>,
    interval: Option<u64>,
    timeout: Option<u64>,
}

impl QueryAcc {
    spec fn view_acc(&self) -> QueryAccV {
        QueryAccV { http2_only: self.http2_only, interval: self.interval, timeout: self.timeout }
    }
}

/// Applies one non-empty pair.
fn apply_pair_exec(acc: QueryAcc, pair: &[u8]) -> (r: Result<QueryAcc, ConfigError>)
    ensures
        match r {
            Ok(a) => apply_pair(acc.view_acc(), pair@) == Ok::<QueryAccV, ConfigError>(
                a.view_acc(),
            ),
            Err(e) => apply_pair(acc.view_acc(), pair@) == Err::<QueryAccV, ConfigError>(e),
        },
{
    let eq = find_byte_exec(pair, 0, ascii::EQUALS);
    let key = vstd::slice::slice_subrange(pair, 0, eq);
    let value = if eq < pair.len() {
        vstd::slice::slice_subrange(pair, eq + 1, pair.len())
    } else {
        vstd::slice::slice_subrange(pair, pair.len(), pair.len())
    };
    proof {
        assert(key@ =~= pair@.take(eq as int));
        if eq < pair@.len() {
            assert(value@ =~= pair@.skip(eq + 1));
        } else {
            assert(value@ =~= Seq::<u8>::empty());
        }
    }
    let k_h2 = key_http2_only();
    let k_iv = key_interval();
    let k_to = key_timeout();
    if matches!(lex_cmp(key, k_h2.as_slice()), ByteOrder::Equal) {
        if matches!(acc.http2_only, Some(_)) {
            return Err(ConfigError::DuplicateKey);
        }
        let w_t = word_true();
        let w_f = word_false();
        if matches!(lex_cmp(value, w_t.as_slice()), ByteOrder::Equal) {
            Ok(QueryAcc { http2_only: Some(true), ..acc })
        } else if matches!(lex_cmp(value, w_f.as_slice()), ByteOrder::Equal) {
            Ok(QueryAcc { http2_only: Some(false), ..acc })
        } else {
            Err(ConfigError::BadFlag)
        }
    } else if matches!(lex_cmp(key, k_iv.as_slice()), ByteOrder::Equal) {
        if matches!(acc.interval, Some(_)) {
            return Err(ConfigError::DuplicateKey);
        }
        match parse_duration(value) {
            Some(d) => Ok(QueryAcc { interval: Some(d), ..acc }),
            None => Err(ConfigError::BadDuration),
        }
    } else if matches!(lex_cmp(key, k_to.as_slice()), ByteOrder::Equal) {
        if matches!(acc.timeout, Some(_)) {
            return Err(ConfigError::DuplicateKey);
        }
        match parse_duration(value) {
            Some(d) => Ok(QueryAcc { timeout: Some(d), ..acc }),
            None => Err(ConfigError::BadDuration),
        }
    } else {
        Err(ConfigError::UnknownKey)
    }
}

impl Upstream {
    /// Parses the upstream configuration text, rejecting what the
    /// configuration does not know: a shapeless URI, an out-of-range port,
    /// an unknown or duplicated query key, a malformed flag or duration,
    /// and a query without the required polling interval.
    #[verifier::loop_isolation(false)]
    pub fn from_str_bytes(s: &[u8]) -> (r: Result<Upstream, ConfigError>)
        ensures
            match r {
                Ok(u) => spec_parse_upstream(s@) == Ok::<UpstreamV, ConfigError>(u.deep_view()),
                Err(e) => spec_parse_upstream(s@) == Err::<UpstreamV, ConfigError>(e),
            },
    {
        let se = find_byte_exec(s, 0, ascii::COLON);
        if se == 0 || se >= s.len() {
            return Err(ConfigError::BadUri);
        }
        if s.len() - se <= 2 || s[se + 1] != ascii::SLASH || s[se + 2] != ascii::SLASH {
            proof {
                assert(se + 2 >= s@.len() <==> s@.len() - se <= 2);
            }
            return Err(ConfigError::BadUri);
        }
        let auth_start = se + 3;
        let slash = find_byte_exec(s, auth_start, ascii::SLASH);
        let quest = find_byte_exec(s, auth_start, ascii::QUESTION);
        let auth_end = if slash <= quest {
            slash
        } else {
            quest
        };
        let auth = vstd::slice::slice_subrange(s, auth_start, auth_end);
        proof {
            assert(auth@ =~= s@.subrange(auth_start as int, auth_end as int));
        }
        let colon = find_byte_exec(auth, 0, ascii::COLON);
        let host_s = vstd::slice::slice_subrange(auth, 0, colon);
        proof {
            assert(host_s@ =~= auth@.take(colon as int));
        }
        if host_s.len() == 0 {
            return Err(ConfigError::BadUri);
        }
        let port: Option<u16>;
        if colon == auth.len() {
            port = None;
        } else {
            let digits = vstd::slice::slice_subrange(auth, colon + 1, auth.len());
            proof {
                assert(digits@ =~= auth@.skip(colon + 1));
            }
            match crate::decimal::parse_u64(digits) {
                Some(p) if p <= (u16::MAX as u64) => {
                    port = Some(p as u16);
                },
                _ => {
                    return Err(ConfigError::BadPort);
                },
            }
        }
        let qm = find_byte_exec(s, auth_end, ascii::QUESTION);
        let query = if qm < s.len() {
            vstd::slice::slice_subrange(s, qm + 1, s.len())
        } else {
            vstd::slice::slice_subrange(s, s.len(), s.len())
        };
        proof {
            if (qm as int) < s@.len() {
                assert(query@ =~= s@.skip(qm + 1));
            } else {
                assert(query@ =~= Seq::<u8>::empty());
            }
        }
        let ghost init_acc = QueryAccV { http2_only: None, interval: None, timeout: None };
        proof {
            assert(spec_parse_upstream(s@) == (match fold_pairs(init_acc, query@) {
                Err(e) => Err::<UpstreamV, ConfigError>(e),
                Ok(a2) => match a2.interval {
                    None => Err::<UpstreamV, ConfigError>(ConfigError::MissingInterval),
                    Some(interval) => Ok::<UpstreamV, ConfigError>(
                        UpstreamV {
                            scheme: s@.take(se as int),
                            host: host_s@,
                            port,
                            http2_only: match a2.http2_only {
                                Some(b) => b,
                                None => false,
                            },
                            interval,
                            timeout: a2.timeout,
                        },
                    ),
                },
            }));
        }
        let mut acc = QueryAcc { http2_only: None, interval: None, timeout: None };
        let mut pos: usize = 0;
        proof {
            assert(query@.skip(0) =~= query@);
        }
        while pos < query.len()
            invariant
                0 <= pos <= query@.len(),
                fold_pairs(
                    QueryAccV { http2_only: None, interval: None, timeout: None },
                    query@,
                ) == fold_pairs(acc.view_acc(), query@.skip(pos as int)),
            decreases query@.len() - pos,
        {
            let ghost rest = query@.skip(pos as int);
            let ghost acc0 = acc.view_acc();
            let amp = find_byte_exec(query, pos, ascii::AMPERSAND);
            let pair = vstd::slice::slice_subrange(query, pos, amp);
            proof {
                assert(pair@ =~= query@.subrange(pos as int, amp as int));
                assert(find_byte(rest, 0, ascii::AMPERSAND) == amp - pos) by {
                    lemma_find_byte_shift(query@, pos as int, amp as int, ascii::AMPERSAND);
                }
                assert(rest.take(amp - pos) =~= pair@);
            }
            if pair.len() > 0 {
                match apply_pair_exec(acc, pair) {
                    Ok(a2) => {
                        acc = a2;
                        proof {
                            assert(rest.len() > 0);
                            if (amp as int) < query@.len() {
                                assert(amp - pos < rest.len());
                                assert(rest.skip(amp - pos + 1) =~= query@.skip(amp + 1));
                                assert(fold_pairs(acc0, rest) == fold_pairs(
                                    acc.view_acc(),
                                    query@.skip(amp + 1),
                                ));
                            } else {
                                assert(amp - pos == rest.len());
                                assert(fold_pairs(acc0, rest) == Ok::<QueryAccV, ConfigError>(
                                    acc.view_acc(),
                                ));
                            }
                        }
                    },
                    Err(e) => {
                        proof {
                            assert(rest.len() > 0);
                            assert(fold_pairs(acc0, rest) == Err::<QueryAccV, ConfigError>(e));
                        }
                        return Err(e);
                    },
                }
            } else {
                proof {
                    assert(rest.len() > 0);
                    if (amp as int) < query@.len() {
                        assert(rest.skip(amp - pos + 1) =~= query@.skip(amp + 1));
                        assert(fold_pairs(acc0, rest) == fold_pairs(
                            acc.view_acc(),
                            query@.skip(amp + 1),
                        ));
                    } else {
                        assert(amp - pos == rest.len());
                        assert(fold_pairs(acc0, rest) == Ok::<QueryAccV, ConfigError>(
                            acc.view_acc(),
                        ));
                    }
                }
            }
            if amp >= query.len() {
                pos = query.len();
                proof {
                    assert(query@.skip(query@.len() as int) =~= Seq::<u8>::empty());
                }
            } else {
                pos = amp + 1;
            }
        }
        proof {
            assert(query@.skip(query@.len() as int) =~= Seq::<u8>::empty());
        }
        let interval = match acc.interval {
            Some(iv) => iv,
            None => {
                return Err(ConfigError::MissingInterval);
            },
        };
        let scheme_s = vstd::slice::slice_subrange(s, 0, se);
        proof {
            assert(scheme_s@ =~= s@.take(se as int));
        }
        let u = Upstream {
            scheme: copy_bytes(scheme_s),
            host: copy_bytes(host_s),
            port,
            http2_only: match acc.http2_only {
                Some(b) => b,
                None => false,
            },
            interval,
            timeout: acc.timeout,
        };
        Ok(u)
    }
}

/// Searching a suffix is searching the containing text from its offset.
proof fn lemma_find_byte_shift(s: Seq<u8>, from: int, found: int, b: u8)
    requires
        0 <= from <= found <= s.len(),
        find_byte(s, from, b) == found,
    ensures
        find_byte(s.skip(from), 0, b) == found - from,
    decreases found - from,
{
    if from < found {
        assert(s[from] != b);
        lemma_find_byte_shift(s, from + 1, found, b);
        assert(s.skip(from + 1) =~= s.skip(from).skip(1));
        lemma_find_byte_step(s.skip(from), b);
    } else {
        if found < s.len() {
            if s[from] != b {
                lemma_find_byte_bounds(s, from + 1, b);
                assert(false);
            }
            assert(s.skip(from)[0] == b);
        } else {
            assert(s.skip(from).len() == 0);
        }
    }
}

/// One step of the search: when the first byte does not match, the answer
/// moves one past the answer of the remainder.
proof fn lemma_find_byte_step(s: Seq<u8>, b: u8)
    requires
        s.len() > 0,
        s[0] != b,
    ensures
        find_byte(s, 0, b) == 1 + find_byte(s.skip(1), 0, b),
{
    lemma_find_byte_offset(s, 1, b);
}

/// Searching from `i` in `s` is searching the suffix from its start.
proof fn lemma_find_byte_offset(s: Seq<u8>, i: int, b: u8)
    requires
        0 <= i <= s.len(),
    ensures
        find_byte(s, i, b) == i + find_byte(s.skip(i), 0, b),
    decreases s.len() - i,
{
    if i == s.len() {
        assert(s.skip(i).len() == 0);
    } else if s[i] == b {
        assert(s.skip(i)[0] == b);
    } else {
        lemma_find_byte_offset(s, i + 1, b);
        assert(s.skip(i).len() > 0 && s.skip(i)[0] != b);
        assert(s.skip(i + 1) =~= s.skip(i).skip(1));
        lemma_find_byte_offset(s.skip(i), 1, b);
    }
}

} // verus!
