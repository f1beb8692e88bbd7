//! The JSON bodies the fabric writes.
//!
//! Two bodies leave the library: the aggregated model list served on the
//! list-models route, and the error envelope of the proxy's own failures.
//! Both are defined byte for byte at the spec level and produced by verified
//! encoders.  Model identifiers and messages are UTF-8 carried as bytes;
//! escaping touches only the ASCII bytes JSON reserves, so multi-byte
//! sequences pass through unchanged.

use vstd::prelude::*;
use crate::ascii;
use crate::decimal::dec_of;
use crate::naming::hex_digit;
use crate::schemas::{Model, ModelV};

verus! {

/// How one byte of string content is written inside a JSON string: quote
/// and backslash get a backslash escape, control bytes a `\u00XX` escape,
/// everything else stands as itself.
pub open spec fn escape_byte(b: u8) -> Seq<u8> {
    if b == ascii::QUOTE {
        seq![ascii::BACKSLASH, ascii::QUOTE]
    } else if b == ascii::BACKSLASH {
        seq![ascii::BACKSLASH, ascii::BACKSLASH]
    } else if b < 32 {
        seq![ascii::BACKSLASH, 117u8, ascii::ZERO, ascii::ZERO, hex_digit(b / 16), hex_digit(
            b % 16,
        )]
    } else {
        seq![b]
    }
}

/// The JSON-escaped form of a byte string.
pub open spec fn json_escape(s: Seq<u8>) -> Seq<u8>
    decreases s.len(),
{
    if s.len() == 0 {
        Seq::empty()
    } else {
        json_escape(s.drop_last()) + escape_byte(s.last())
    }
}

/// `{"object":"list","data":[`
pub open spec fn lit_list_head() -> Seq<u8> {
    seq![
        123u8,
        34u8,
        111u8,
        98u8,
        106u8,
        101u8,
        99u8,
        116u8,
        34u8,
        58u8,
        34u8,
        108u8,
        105u8,
        115u8,
        116u8,
        34u8,
        44u8,
        34u8,
        100u8,
        97u8,
        116u8,
        97u8,
        34u8,
        58u8,
        91u8,
    ]
}

/// `{"object":"model","id":"`
pub open spec fn lit_model_head() -> Seq<u8> {
    seq![
        123u8,
        34u8,
        111u8,
        98u8,
        106u8,
        101u8,
        99u8,
        116u8,
        34u8,
        58u8,
        34u8,
        109u8,
        111u8,
        100u8,
        101u8,
        108u8,
        34u8,
        44u8,
        34u8,
        105u8,
        100u8,
        34u8,
        58u8,
        34u8,
    ]
}

/// `","running":`
pub open spec fn lit_running() -> Seq<u8> {
    seq![34u8, 44u8, 34u8, 114u8, 117u8, 110u8, 110u8, 105u8, 110u8, 103u8, 34u8, 58u8]
}

/// `,"pending":`
pub open spec fn lit_pending() -> Seq<u8> {
    seq![44u8, 34u8, 112u8, 101u8, 110u8, 100u8, 105u8, 110u8, 103u8, 34u8, 58u8]
}

/// `null`
pub open spec fn lit_null() -> Seq<u8> {
    seq![110u8, 117u8, 108u8, 108u8]
}

/// `{"object":"error","code":`
pub open spec fn lit_error_head() -> Seq<u8> {
    seq![
        123u8,
        34u8,
        111u8,
        98u8,
        106u8,
        101u8,
        99u8,
        116u8,
        34u8,
        58u8,
        34u8,
        101u8,
        114u8,
        114u8,
        111u8,
        114u8,
        34u8,
        44u8,
        34u8,
        99u8,
        111u8,
        100u8,
        101u8,
        34u8,
        58u8,
    ]
}

/// `,"message":"`
pub open spec fn lit_message() -> Seq<u8> {
    seq![44u8, 34u8, 109u8, 101u8, 115u8, 115u8, 97u8, 103u8, 101u8, 34u8, 58u8, 34u8]
}

/// An optional counter: its decimal digits, or `null`.
pub open spec fn json_opt_u64(v: Option<u64>) -> Seq<u8> {
    match v {
        Some(n) => dec_of(n as nat),
        None => lit_null(),
    }
}

/// The JSON text of one opaque extra field: a comma, the escaped key as a
/// JSON string, a colon, and the raw value fragment spliced in verbatim.
pub open spec fn json_extra_field(kv: (Seq<u8>, Seq<u8>)) -> Seq<u8> {
    seq![ascii::COMMA, ascii::QUOTE] + json_escape(kv.0) + seq![ascii::QUOTE, ascii::COLON] + kv.1
}

/// The JSON text of a record's opaque extra fields, in their carried order.
pub open spec fn json_extra(fs: Seq<(Seq<u8>, Seq<u8>)>) -> Seq<u8>
    decreases fs.len(),
{
    if fs.len() == 0 {
        Seq::empty()
    } else {
        json_extra(fs.drop_last()) + json_extra_field(fs.last())
    }
}

/// The JSON text of one model record, its opaque extra fields preserved.
pub open spec fn json_model(m: ModelV) -> Seq<u8> {
    lit_model_head() + json_escape(m.id) + lit_running() + json_opt_u64(m.running) + lit_pending()
        + json_opt_u64(m.pending) + json_extra(m.extra) + seq![ascii::RBRACE]
}

/// The comma-joined JSON texts of a model sequence.
pub open spec fn json_models(ms: Seq<ModelV>) -> Seq<u8>
    decreases ms.len(),
{
    if ms.len() == 0 {
        Seq::empty()
    } else if ms.len() == 1 {
        json_model(ms[0])
    } else {
        json_models(ms.drop_last()) + seq![ascii::COMMA] + json_model(ms.last())
    }
}

/// The full list-models body.
pub open spec fn json_list(ms: Seq<ModelV>) -> Seq<u8> {
    lit_list_head() + json_models(ms) + seq![ascii::RBRACKET, ascii::RBRACE]
}

/// The full error envelope body.
pub open spec fn json_error(code: u16, message: Seq<u8>) -> Seq<u8> {
    lit_error_head() + dec_of(code as nat) + lit_message() + json_escape(message) + seq![
        ascii::QUOTE,
        ascii::RBRACE,
    ]
}

/// Appends the escaped form of `s` to `out`.
pub fn push_escaped(out: &mut Vec<u8>, s: &[u8])
    ensures
        final(out)@ == old(out)@ + json_escape(s@),
{
    let mut i: usize = 0;
    while i < s.len()
        invariant
            0 <= i <= s@.len(),
            out@ == old(out)@ + json_escape(s@.take(i as int)),
        decreases s@.len() - i,
    {
        let b = s[i];
        proof {
            assert(s@.take(i + 1).drop_last() =~= s@.take(i as int));
            assert(s@.take(i + 1).last() == s@[i as int]);
        }
        if b == ascii::QUOTE {
            out.push(ascii::BACKSLASH);
            out.push(ascii::QUOTE);
        } else if b == ascii::BACKSLASH {
            out.push(ascii::BACKSLASH);
            out.push(ascii::BACKSLASH);
        } else if b < 32 {
            out.push(ascii::BACKSLASH);
            out.push(117);
            out.push(ascii::ZERO);
            out.push(ascii::ZERO);
            let hi = b / 16;
            let lo = b % 16;
            out.push(
                if hi < 10 {
                    ascii::ZERO + hi
                } else {
                    ascii::LOWER_A + (hi - 10)
                },
            );
            out.push(
                if lo < 10 {
                    ascii::ZERO + lo
                } else {
                    ascii::LOWER_A + (lo - 10)
                },
            );
        } else {
            out.push(b);
        }
        proof {
            assert(out@ =~= old(out)@ + json_escape(s@.take(i + 1)));
        }
        i = i + 1;
    }
    proof {
        assert(s@.take(s@.len() as int) =~= s@);
    }
}

/// Appends the decimal digits of `n`, or `null`, to `out`.
fn push_opt_u64(out: &mut Vec<u8>, v: &Option<u64>)
    ensures
        final(out)@ == old(out)@ + json_opt_u64(*v),
{
    match v {
        Some(n) => {
            let digits = crate::decimal::fmt_u64(*n);
            let mut i: usize = 0;
            while i < digits.len()
                invariant
                    0 <= i <= digits@.len(),
                    out@ == old(out)@ + digits@.take(i as int),
                decreases digits@.len() - i,
            {
                out.push(digits[i]);
                proof {
                    assert(out@ =~= old(out)@ + digits@.take(i + 1));
                }
                i = i + 1;
            }
            proof {
                assert(digits@.take(digits@.len() as int) =~= digits@);
            }
        },
        None => {
            out.push(110);
            out.push(117);
            out.push(108);
            out.push(108);
            proof {
                assert(out@ =~= old(out)@ + lit_null());
            }
        },
    }
}

/// Appends the fixed model-record head to `out`.
fn push_lit_model_head(out: &mut Vec<u8>)
    ensures
        final(out)@ == old(out)@ + lit_model_head(),
{
    out.push(123);
    out.push(34);
    out.push(111);
    out.push(98);
    out.push(106);
    out.push(101);
    out.push(99);
    out.push(116);
    out.push(34);
    out.push(58);
    out.push(34);
    out.push(109);
    out.push(111);
    out.push(100);
    out.push(101);
    out.push(108);
    out.push(34);
    out.push(44);
    out.push(34);
    out.push(105);
    out.push(100);
    out.push(34);
    out.push(58);
    out.push(34);
    proof {
        assert(out@ =~= old(out)@ + lit_model_head());
    }
}

/// Appends the fixed text between the id and the running counter to `out`.
fn push_lit_running(out: &mut Vec<u8>)
    ensures
        final(out)@ == old(out)@ + lit_running(),
{
    out.push(34);
    out.push(44);
    out.push(34);
    out.push(114);
    out.push(117);
    out.push(110);
    out.push(110);
    out.push(105);
    out.push(110);
    out.push(103);
    out.push(34);
    out.push(58);
    proof {
        assert(out@ =~= old(out)@ + lit_running());
    }
}

/// Appends the fixed text before the pending counter to `out`.
fn push_lit_pending(out: &mut Vec<u8>)
    ensures
        final(out)@ == old(out)@ + lit_pending(),
{
    out.push(44);
    out.push(34);
    out.push(112);
    out.push(101);
    out.push(110);
    out.push(100);
    out.push(105);
    out.push(110);
    out.push(103);
    out.push(34);
    out.push(58);
    proof {
        assert(out@ =~= old(out)@ + lit_pending());
    }
}

/// Appends the JSON text of one opaque extra field to `out`.
fn push_extra_field(out: &mut Vec<u8>, key: &[u8], value: &[u8])
    ensures
        final(out)@ == old(out)@ + json_extra_field((key@, value@)),
{
    out.push(ascii::COMMA);
    out.push(ascii::QUOTE);
    push_escaped(out, key);
    out.push(ascii::QUOTE);
    out.push(ascii::COLON);
    crate::aggregate::push_all(out, value);
    proof {
        assert(out@ =~= old(out)@ + json_extra_field((key@, value@)));
    }
}

/// Appends the JSON text of one model to `out`.
fn push_model(out: &mut Vec<u8>, m: &Model)
    ensures
        final(out)@ == old(out)@ + json_model(m.deep_view()),
{
    proof {
        assert(m.id.deep_view() =~= m.id@);
    }
    push_lit_model_head(out);
    push_escaped(out, m.id.as_slice());
    push_lit_running(out);
    push_opt_u64(out, &m.running);
    push_lit_pending(out);
    push_opt_u64(out, &m.pending);
    let ghost fs = m.extra.deep_view();
    let ghost mid = out@;
    let mut k: usize = 0;
    while k < m.extra.len()
        invariant
            0 <= k <= m.extra@.len(),
            fs == m.extra.deep_view(),
            fs.len() == m.extra@.len(),
            out@ == mid + json_extra(fs.take(k as int)),
        decreases m.extra@.len() - k,
    {
        proof {
            assert(fs.take(k + 1).drop_last() =~= fs.take(k as int));
            assert(fs.take(k + 1).last() == fs[k as int]);
            assert(m.extra.deep_view()[k as int] == m.extra@[k as int].deep_view());
            assert(m.extra@[k as int].0.deep_view() =~= m.extra@[k as int].0@);
            assert(m.extra@[k as int].1.deep_view() =~= m.extra@[k as int].1@);
        }
        push_extra_field(out, m.extra[k].0.as_slice(), m.extra[k].1.as_slice());
        proof {
            assert(out@ =~= mid + json_extra(fs.take(k + 1)));
        }
        k = k + 1;
    }
    proof {
        assert(fs.take(fs.len() as int) =~= fs);
    }
    out.push(ascii::RBRACE);
    proof {
        assert(out@ =~= old(out)@ + json_model(m.deep_view()));
    }
}

/// Builds the list-models response body for these models, in the order
/// given.
pub fn encode_list_body(models: &Vec<Model>) -> (r: Vec<u8>)
    ensures
        r@ == json_list(models.deep_view()),
{
    let mut out: Vec<u8> = Vec::new();
    out.push(123);
    out.push(34);
    out.push(111);
    out.push(98);
    out.push(106);
    out.push(101);
    out.push(99);
    out.push(116);
    out.push(34);
    out.push(58);
    out.push(34);
    out.push(108);
    out.push(105);
    out.push(115);
    out.push(116);
    out.push(34);
    out.push(44);
    out.push(34);
    out.push(100);
    out.push(97);
    out.push(116);
    out.push(97);
    out.push(34);
    out.push(58);
    out.push(91);
    proof {
        assert(out@ =~= lit_list_head());
    }
    let ghost ms = models.deep_view();
    let mut i: usize = 0;
    while i < models.len()
        invariant
            0 <= i <= models@.len(),
            ms == models.deep_view(),
            ms.len() == models@.len(),
            out@ == lit_list_head() + json_models(ms.take(i as int)),
        decreases models@.len() - i,
    {
        if i > 0 {
            out.push(ascii::COMMA);
        }
        push_model(&mut out, &models[i]);
        proof {
            assert(ms.take(i + 1).drop_last() =~= ms.take(i as int));
            assert(ms.take(i + 1).last() == ms[i as int]);
            if i > 0 {
                assert(out@ =~= lit_list_head() + json_models(ms.take(i + 1)));
            } else {
                assert(ms.take(1).len() == 1);
                assert(out@ =~= lit_list_head() + json_models(ms.take(1)));
            }
        }
        i = i + 1;
    }
    out.push(ascii::RBRACKET);
    out.push(ascii::RBRACE);
    proof {
        assert(ms.take(ms.len() as int) =~= ms);
        assert(out@ =~= json_list(ms));
    }
    out
}

/// Builds the error envelope body for a proxy-made failure.
pub fn encode_error_body(code: u16, message: &[u8]) -> (r: Vec<u8>)
    ensures
        r@ == json_error(code, message@),
{
    let mut out: Vec<u8> = Vec::new();
    out.push(123);
    out.push(34);
    out.push(111);
    out.push(98);
    out.push(106);
    out.push(101);
    out.push(99);
    out.push(116);
    out.push(34);
    out.push(58);
    out.push(34);
    out.push(101);
    out.push(114);
    out.push(114);
    out.push(111);
    out.push(114);
    out.push(34);
    out.push(44);
    out.push(34);
    out.push(99);
    out.push(111);
    out.push(100);
    out.push(101);
    out.push(34);
    out.push(58);
    proof {
        assert(out@ =~= lit_error_head());
    }
    let digits = crate::decimal::fmt_u64(code as u64);
    let mut i: usize = 0;
    while i < digits.len()
        invariant
            0 <= i <= digits@.len(),
            out@ == lit_error_head() + digits@.take(i as int),
        decreases digits@.len() - i,
    {
        out.push(digits[i]);
        proof {
            assert(out@ =~= lit_error_head() + digits@.take(i + 1));
        }
        i = i + 1;
    }
    proof {
        assert(digits@.take(digits@.len() as int) =~= digits@);
    }
    out.push(44);
    out.push(34);
    out.push(109);
    out.push(101);
    out.push(115);
    out.push(115);
    out.push(97);
    out.push(103);
    out.push(101);
    out.push(34);
    out.push(58);
    out.push(34);
    proof {
        assert(out@ =~= lit_error_head() + dec_of(code as nat) + lit_message());
    }
    push_escaped(&mut out, message);
    out.push(ascii::QUOTE);
    out.push(ascii::RBRACE);
    proof {
        assert(out@ =~= json_error(code, message@));
    }
    out
}


/// A lowercase hex digit's value.
pub open spec fn hex_val(b: u8) -> u8 {
    if ascii::ZERO <= b && b <= ascii::NINE {
        (b - ascii::ZERO) as u8
    } else {
        (b - ascii::LOWER_A + 10) as u8
    }
}

/// Whether a byte is a lowercase hex digit.
pub open spec fn is_hex_lower(b: u8) -> bool {
    (ascii::ZERO <= b && b <= ascii::NINE) || (ascii::LOWER_A <= b && b <= 102)
}

/// Decodes an escaped JSON string from the front of `s` up to its closing
/// quote: the decoded content and the index of that quote.  `None` when no
/// closing quote is reached or an escape is not one the encoder writes.
pub open spec fn scan_string(s: Seq<u8>) -> Option<(Seq<u8>, int)>
    decreases s.len(),
{
    if s.len() == 0 {
        None
    } else if s[0] == ascii::QUOTE {
        Some((Seq::empty(), 0))
    } else if s[0] == ascii::BACKSLASH {
        if s.len() >= 6 && s[1] == 117 {
            if s[2] == ascii::ZERO && s[3] == ascii::ZERO && is_hex_lower(s[4]) && is_hex_lower(
                s[5],
            ) {
                match scan_string(s.skip(6)) {
                    Some((d, e)) => Some(
                        (seq![(hex_val(s[4]) * 16 + hex_val(s[5])) as u8] + d, e + 6),
                    ),
                    None => None,
                }
            } else {
                None
            }
        } else if s.len() >= 2 && (s[1] == ascii::QUOTE || s[1] == ascii::BACKSLASH) {
            match scan_string(s.skip(2)) {
                Some((d, e)) => Some((seq![s[1]] + d, e + 2)),
                None => None,
            }
        } else {
            None
        }
    } else {
        match scan_string(s.skip(1)) {
            Some((d, e)) => Some((seq![s[0]] + d, e + 1)),
            None => None,
        }
    }
}

/// Escaping distributes over concatenation.
proof fn lemma_escape_append(a: Seq<u8>, b: Seq<u8>)
    ensures
        json_escape(a + b) == json_escape(a) + json_escape(b),
    decreases b.len(),
{
    if b.len() == 0 {
        assert(a + b =~= a);
        assert(json_escape(a) + json_escape(b) =~= json_escape(a));
    } else {
        lemma_escape_append(a, b.drop_last());
        assert((a + b).drop_last() =~= a + b.drop_last());
        assert((a + b).last() == b.last());
        assert(json_escape(a) + json_escape(b) =~= json_escape(a) + (json_escape(b.drop_last())
            + escape_byte(b.last())));
    }
}

/// Escaping peels its first byte.
proof fn lemma_escape_first(id: Seq<u8>)
    requires
        id.len() > 0,
    ensures
        json_escape(id) == escape_byte(id[0]) + json_escape(id.drop_first()),
{
    assert(id =~= seq![id[0]] + id.drop_first());
    lemma_escape_append(seq![id[0]], id.drop_first());
    assert(json_escape(seq![id[0]]) =~= escape_byte(id[0])) by {
        assert(seq![id[0]].drop_last() =~= Seq::<u8>::empty());
        assert(json_escape(Seq::<u8>::empty()) =~= Seq::<u8>::empty());
    }
}

/// A nibble comes back from its hex digit.
proof fn lemma_hex_digit_val(n: u8)
    requires
        n < 16,
    ensures
        is_hex_lower(crate::naming::hex_digit(n)),
        hex_val(crate::naming::hex_digit(n)) == n,
{
}

/// The string scan inverts the escape: escaped content followed by its
/// closing quote decodes to the content, ending at that quote.
proof fn lemma_scan_escape(id: Seq<u8>, rest: Seq<u8>)
    ensures
        scan_string(json_escape(id) + seq![ascii::QUOTE] + rest) == Some(
            (id, json_escape(id).len() as int),
        ),
    decreases id.len(),
{
    let s = json_escape(id) + seq![ascii::QUOTE] + rest;
    if id.len() == 0 {
        assert(json_escape(id) =~= Seq::<u8>::empty());
        assert(s[0] == ascii::QUOTE);
        assert(scan_string(s) == Some((Seq::<u8>::empty(), 0int)));
        assert(id =~= Seq::<u8>::empty());
    } else {
        lemma_escape_first(id);
        lemma_scan_escape(id.drop_first(), rest);
        let b = id[0];
        let tail_s = json_escape(id.drop_first()) + seq![ascii::QUOTE] + rest;
        if b == ascii::QUOTE || b == ascii::BACKSLASH {
            assert(escape_byte(b) =~= seq![ascii::BACKSLASH, b]);
            assert(s =~= seq![ascii::BACKSLASH, b] + tail_s);
            assert(s.skip(2) =~= tail_s);
            assert(s[0] == ascii::BACKSLASH && s[1] == b && s.len() >= 2);
            assert(s.len() >= 6 ==> s[1] != 117);
            assert(seq![b] + id.drop_first() =~= id);
        } else if b < 32 {
            lemma_hex_digit_val(b / 16);
            lemma_hex_digit_val(b % 16);
            assert(escape_byte(b) =~= seq![
                ascii::BACKSLASH,
                117u8,
                ascii::ZERO,
                ascii::ZERO,
                crate::naming::hex_digit(b / 16),
                crate::naming::hex_digit(b % 16),
            ]);
            assert(s =~= escape_byte(b) + tail_s);
            assert(s.skip(6) =~= tail_s);
            assert(s[0] == ascii::BACKSLASH && s.len() >= 7 && s[1] == 117);
            assert(hex_val(s[4]) * 16 + hex_val(s[5]) == b);
            assert(seq![b] + id.drop_first() =~= id);
        } else {
            assert(escape_byte(b) =~= seq![b]);
            assert(s =~= seq![b] + tail_s);
            assert(s.skip(1) =~= tail_s);
            assert(s[0] == b && b != ascii::QUOTE && b != ascii::BACKSLASH);
            assert(seq![b] + id.drop_first() =~= id);
        }
    }
}

/// Decodes an optional counter from the front of `s`: `null`, or a decimal
/// numeral in range, with the count of bytes read.
pub open spec fn parse_opt_u64_text(s: Seq<u8>) -> Option<(Option<u64>, int)> {
    if s.len() >= 4 && s.take(4) == lit_null() {
        Some((None, 4int))
    } else {
        let de = crate::config_text::digit_end(s, 0);
        if de == 0 {
            None
        } else if crate::decimal::num_of(s.take(de)) > u64::MAX {
            None
        } else {
            Some((Some(crate::decimal::num_of(s.take(de)) as u64), de))
        }
    }
}

/// The digits of a digit run followed by a non-digit end where the run
/// does.
proof fn lemma_digit_end_concat(digits: Seq<u8>, rest: Seq<u8>)
    requires
        forall|j: int| 0 <= j < digits.len() ==> crate::decimal::is_digit(#[trigger] digits[j]),
        rest.len() > 0,
        !crate::decimal::is_digit(rest[0]),
    ensures
        crate::config_text::digit_end(digits + rest, 0) == digits.len(),
    decreases digits.len(),
{
    let s = digits + rest;
    if digits.len() == 0 {
        assert(s =~= rest);
    } else {
        lemma_digit_end_concat(digits.drop_first(), rest);
        assert(s.skip(1) =~= digits.drop_first() + rest);
        lemma_digit_end_offset(s, digits.drop_first() + rest);
    }
}

/// Scanning digits from the second byte is scanning the suffix.
proof fn lemma_digit_end_offset(s: Seq<u8>, suffix: Seq<u8>)
    requires
        s.len() > 0,
        crate::decimal::is_digit(s[0]),
        suffix == s.skip(1),
    ensures
        crate::config_text::digit_end(s, 0) == 1 + crate::config_text::digit_end(suffix, 0),
    decreases s.len(),
{
    lemma_digit_end_shift(s, 1);
}

/// Scanning digits from `i` is scanning the suffix from its start.
proof fn lemma_digit_end_shift(s: Seq<u8>, i: int)
    requires
        0 <= i <= s.len(),
    ensures
        crate::config_text::digit_end(s, i) == i + crate::config_text::digit_end(s.skip(i), 0),
    decreases s.len() - i,
{
    if i == s.len() {
        assert(s.skip(i).len() == 0);
    } else if crate::decimal::is_digit(s[i]) {
        lemma_digit_end_shift(s, i + 1);
        assert(s.skip(i)[0] == s[i]);
        assert(s.skip(i + 1) =~= s.skip(i).skip(1));
        lemma_digit_end_shift(s.skip(i), 1);
    } else {
        assert(s.skip(i)[0] == s[i]);
    }
}

/// The counter decode inverts the counter encode, whatever follows, as
/// long as what follows does not begin with a digit.
proof fn lemma_parse_opt(v: Option<u64>, rest: Seq<u8>)
    requires
        rest.len() > 0,
        !crate::decimal::is_digit(rest[0]),
    ensures
        parse_opt_u64_text(json_opt_u64(v) + rest) == Some((v, json_opt_u64(v).len() as int)),
{
    let s = json_opt_u64(v) + rest;
    match v {
        None => {
            assert(s.take(4) =~= lit_null());
        },
        Some(n) => {
            crate::decimal::lemma_dec_of_digits(n as nat);
            let digits = crate::decimal::dec_of(n as nat);
            lemma_digit_end_concat(digits, rest);
            assert(s.take(digits.len() as int) =~= digits);
            assert(crate::decimal::is_digit(s[0]));
            if s.len() >= 4 {
                assert(s.take(4)[0] == s[0]);
                assert(lit_null()[0] == 110);
                assert(s.take(4) != lit_null());
            }
        },
    }
}

/// Decodes one model record from the front of `s`: the record and the
/// count of bytes read.
pub open spec fn parse_model_text(s: Seq<u8>) -> Option<(ModelV, int)> {
    if s.len() >= 24 && s.take(24) == lit_model_head() {
        match scan_string(s.skip(24)) {
            Some((id, q)) => {
                let p1 = 24 + q;
                if s.skip(p1).len() >= 12 && s.skip(p1).take(12) == lit_running() {
                    match parse_opt_u64_text(s.skip(p1 + 12)) {
                        Some((running, c1)) => {
                            let p2 = p1 + 12 + c1;
                            if s.skip(p2).len() >= 11 && s.skip(p2).take(11) == lit_pending() {
                                match parse_opt_u64_text(s.skip(p2 + 11)) {
                                    Some((pending, c2)) => {
                                        let p3 = p2 + 11 + c2;
                                        if p3 < s.len() && s[p3] == ascii::RBRACE {
                                            Some(
                                                (
                                                    ModelV {
                                                        id,
                                                        running,
                                                        pending,
                                                        extra: Seq::empty(),
                                                    },
                                                    p3 + 1,
                                                ),
                                            )
                                        } else {
                                            None
                                        }
                                    },
                                    None => None,
                                }
                            } else {
                                None
                            }
                        },
                        None => None,
                    }
                } else {
                    None
                }
            },
            None => None,
        }
    } else {
        None
    }
}

/// The counter tail of a model record decodes field by field: the running
/// literal, the running counter, the pending literal, the pending counter,
/// the closing brace.
#[verifier::rlimit(100)]
proof fn lemma_parse_counters(running: Option<u64>, pending: Option<u64>, rest: Seq<u8>)
    requires
        rest.len() > 0,
        rest[0] == ascii::COMMA || rest[0] == ascii::RBRACKET,
    ensures
        ({
            let t = lit_running() + json_opt_u64(running) + lit_pending() + json_opt_u64(pending)
                + seq![ascii::RBRACE] + rest;
            let c1 = json_opt_u64(running).len() as int;
            let c2 = json_opt_u64(pending).len() as int;
            &&& t.take(12) == lit_running()
            &&& parse_opt_u64_text(t.skip(12)) == Some((running, c1))
            &&& t.skip(12 + c1).take(11) == lit_pending()
            &&& parse_opt_u64_text(t.skip(12 + c1 + 11)) == Some((pending, c2))
            &&& 12 + c1 + 11 + c2 < t.len()
            &&& t[12 + c1 + 11 + c2] == ascii::RBRACE
            &&& t.len() == 12 + c1 + 11 + c2 + 1 + rest.len()
        }),
{
    let t = lit_running() + json_opt_u64(running) + lit_pending() + json_opt_u64(pending) + seq![
        ascii::RBRACE,
    ] + rest;
    let c1 = json_opt_u64(running).len() as int;
    let c2 = json_opt_u64(pending).len() as int;
    assert(t.take(12) =~= lit_running());
    let rest_run = lit_pending() + json_opt_u64(pending) + seq![ascii::RBRACE] + rest;
    assert(t.skip(12) =~= json_opt_u64(running) + rest_run);
    assert(rest_run[0] == ascii::COMMA);
    lemma_parse_opt(running, rest_run);
    assert(t.skip(12 + c1).take(11) =~= lit_pending());
    let rest_pend = seq![ascii::RBRACE] + rest;
    assert(t.skip(12 + c1 + 11) =~= json_opt_u64(pending) + rest_pend);
    assert(rest_pend[0] == ascii::RBRACE);
    lemma_parse_opt(pending, rest_pend);
    assert(t[12 + c1 + 11 + c2] == ascii::RBRACE);
}

/// The model decode inverts the model encode of a record without opaque
/// extra fields, whatever follows.  A record with an opaque splice is not
/// decodable here: re-delimiting a verbatim fragment would take the JSON
/// value grammar, which the library deliberately does not model.
#[verifier::rlimit(100)]
proof fn lemma_parse_model(m: ModelV, rest: Seq<u8>)
    requires
        m.extra.len() == 0,
        rest.len() > 0,
        rest[0] == ascii::COMMA || rest[0] == ascii::RBRACKET,
    ensures
        parse_model_text(json_model(m) + rest) == Some((m, json_model(m).len() as int)),
{
    let s = json_model(m) + rest;
    let esc = json_escape(m.id);
    let c1 = json_opt_u64(m.running).len() as int;
    let c2 = json_opt_u64(m.pending).len() as int;
    assert(json_extra(m.extra) =~= Seq::<u8>::empty());
    let t = lit_running() + json_opt_u64(m.running) + lit_pending() + json_opt_u64(m.pending)
        + seq![ascii::RBRACE] + rest;
    assert(s.take(24) =~= lit_model_head());
    let tail1 = lit_running().drop_first() + json_opt_u64(m.running) + lit_pending()
        + json_opt_u64(m.pending) + seq![ascii::RBRACE] + rest;
    assert(lit_running() =~= seq![ascii::QUOTE] + lit_running().drop_first());
    assert(s.skip(24) =~= esc + seq![ascii::QUOTE] + tail1);
    lemma_scan_escape(m.id, tail1);
    let p1 = 24 + esc.len() as int;
    assert(s.skip(p1) =~= t);
    lemma_parse_counters(m.running, m.pending, rest);
    assert(s.skip(p1).take(12) == lit_running());
    assert(s.skip(p1 + 12) =~= t.skip(12));
    assert(s.skip(p1 + 12 + c1) =~= t.skip(12 + c1));
    assert(s.skip(p1 + 12 + c1).take(11) == lit_pending());
    assert(s.skip(p1 + 12 + c1 + 11) =~= t.skip(12 + c1 + 11));
    let p3 = p1 + 12 + c1 + 11 + c2;
    assert(s[p3] == t[12 + c1 + 11 + c2]);
    assert(s[p3] == ascii::RBRACE);
    assert(p3 + 1 == json_model(m).len());
    assert(m.extra =~= Seq::<(Seq<u8>, Seq<u8>)>::empty());
    assert(parse_model_text(s) == Some(
        (
            ModelV {
                id: m.id,
                running: m.running,
                pending: m.pending,
                extra: Seq::<(Seq<u8>, Seq<u8>)>::empty(),
            },
            p3 + 1,
        ),
    ));
    assert((ModelV {
        id: m.id,
        running: m.running,
        pending: m.pending,
        extra: Seq::<(Seq<u8>, Seq<u8>)>::empty(),
    }) == m);
}

/// Decodes the comma-joined model records from the front of `s`, up to but
/// not including the closing bracket.
pub open spec fn parse_models_text(s: Seq<u8>) -> Option<(Seq<ModelV>, int)>
    decreases s.len(),
{
    if s.len() == 0 {
        None
    } else if s[0] == ascii::RBRACKET {
        Some((Seq::empty(), 0int))
    } else {
        match parse_model_text(s) {
            Some((m, c)) => if 1 <= c && c < s.len() {
                if s[c] == ascii::COMMA {
                    match parse_models_text(s.skip(c + 1)) {
                        Some((ms, c2)) => if ms.len() > 0 {
                            Some((seq![m] + ms, c + 1 + c2))
                        } else {
                            None
                        },
                        None => None,
                    }
                } else if s[c] == ascii::RBRACKET {
                    Some((seq![m], c))
                } else {
                    None
                }
            } else {
                None
            },
            None => None,
        }
    }
}

/// The model-sequence text peels its first record.
proof fn lemma_json_models_head(ms: Seq<ModelV>)
    requires
        ms.len() >= 2,
    ensures
        json_models(ms) == json_model(ms[0]) + seq![ascii::COMMA] + json_models(ms.drop_first()),
    decreases ms.len(),
{
    if ms.len() == 2 {
        assert(ms.drop_last() =~= seq![ms[0]]);
        assert(ms.drop_first() =~= seq![ms[1]]);
        assert(json_models(seq![ms[0]]) == json_model(ms[0]));
        assert(json_models(seq![ms[1]]) == json_model(ms[1]));
    } else {
        lemma_json_models_head(ms.drop_last());
        assert(ms.drop_last()[0] == ms[0]);
        assert(ms.drop_last().drop_first() =~= ms.drop_first().drop_last());
        assert(ms.drop_first().len() >= 2);
        assert(ms.drop_first().last() == ms.last());
        assert(json_models(ms.drop_first()) == json_models(ms.drop_first().drop_last()) + seq![
            ascii::COMMA,
        ] + json_model(ms.last()));
        assert(json_models(ms) == json_models(ms.drop_last()) + seq![ascii::COMMA] + json_model(
            ms.last(),
        ));
        assert(json_models(ms) =~= json_model(ms[0]) + seq![ascii::COMMA] + json_models(
            ms.drop_first(),
        ));
    }
}

/// The model-sequence decode inverts the encode, up to the closing
/// bracket, for records without opaque extra fields.
#[verifier::rlimit(100)]
proof fn lemma_parse_models(ms: Seq<ModelV>, rest: Seq<u8>)
    requires
        forall|k: int| 0 <= k < ms.len() ==> (#[trigger] ms[k]).extra.len() == 0,
        rest.len() > 0,
        rest[0] == ascii::RBRACKET,
    ensures
        parse_models_text(json_models(ms) + rest) == Some((ms, json_models(ms).len() as int)),
    decreases ms.len(),
{
    let s = json_models(ms) + rest;
    if ms.len() == 0 {
        assert(json_models(ms) =~= Seq::<u8>::empty());
        assert(s =~= rest);
        assert(ms =~= Seq::<ModelV>::empty());
    } else if ms.len() == 1 {
        assert(json_models(ms) == json_model(ms[0]));
        lemma_parse_model(ms[0], rest);
        assert(s[0] == lit_model_head()[0]);
        assert(s[0] != ascii::RBRACKET);
        let c = json_model(ms[0]).len() as int;
        assert(s[c] == ascii::RBRACKET);
        assert(c >= 24);
        assert(seq![ms[0]] =~= ms);
    } else {
        lemma_json_models_head(ms);
        let rest1 = seq![ascii::COMMA] + json_models(ms.drop_first()) + rest;
        assert(s =~= json_model(ms[0]) + rest1);
        lemma_parse_model(ms[0], rest1);
        assert(s[0] == lit_model_head()[0]);
        assert(s[0] != ascii::RBRACKET);
        let c = json_model(ms[0]).len() as int;
        assert(s[c] == ascii::COMMA);
        assert(c >= 24);
        assert(s.skip(c + 1) =~= json_models(ms.drop_first()) + rest);
        lemma_parse_models(ms.drop_first(), rest);
        assert(ms.drop_first().len() > 0);
        assert(seq![ms[0]] + ms.drop_first() =~= ms);
        assert(json_models(ms).len() == c + 1 + json_models(ms.drop_first()).len());
    }
}

/// What a list-models body means: the model records it carries, when the
/// text is exactly the canonical form the encoder writes.
pub open spec fn spec_decode_list(body: Seq<u8>) -> Option<Seq<ModelV>> {
    if body.len() >= 25 && body.take(25) == lit_list_head() {
        match parse_models_text(body.skip(25)) {
            Some((ms, c)) => if body.skip(25).len() == c + 2 && body.skip(25)[c]
                == ascii::RBRACKET && body.skip(25)[c + 1] == ascii::RBRACE {
                Some(ms)
            } else {
                None
            },
            None => None,
        }
    } else {
        None
    }
}

/// The list-models body round-trips: decoding what the encoder wrote gives
/// back exactly the model records that went in.  Stated for records without
/// opaque extra fields: an opaque value fragment is spliced in verbatim and
/// cannot be re-delimited without the JSON value grammar, which the library
/// deliberately does not model — for records carrying such fields the
/// round trip is checked at runtime against a full JSON decoder.
pub proof fn lemma_list_body_round_trip(ms: Seq<ModelV>)
    requires
        forall|k: int| 0 <= k < ms.len() ==> (#[trigger] ms[k]).extra.len() == 0,
    ensures
        spec_decode_list(json_list(ms)) == Some(ms),
{
    let body = json_list(ms);
    assert(body.take(25) =~= lit_list_head());
    assert(body.skip(25) =~= json_models(ms) + seq![ascii::RBRACKET, ascii::RBRACE]);
    assert(seq![ascii::RBRACKET, ascii::RBRACE] =~= seq![ascii::RBRACKET] + seq![ascii::RBRACE]);
    assert(json_models(ms) + seq![ascii::RBRACKET, ascii::RBRACE] =~= json_models(ms) + (seq![
        ascii::RBRACKET,
    ] + seq![ascii::RBRACE]));
    lemma_parse_models(ms, seq![ascii::RBRACKET] + seq![ascii::RBRACE]);
    let c = json_models(ms).len() as int;
    assert(body.skip(25)[c] == ascii::RBRACKET);
    assert(body.skip(25)[c + 1] == ascii::RBRACE);
    assert(body.skip(25).len() == c + 2);
}

} // verus!
