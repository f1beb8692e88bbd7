//! Cluster naming.
//!
//! A cluster is named `cluster_<hex(sha224("<i>:<ip>"))>`, where `i` is the
//! decimal upstream index and `ip` the textual address of the endpoint.  The
//! name is the only correlation between the control plane's output and the
//! data plane's behaviour, so it is pinned down exactly: a function of the
//! upstream index and the address, and of nothing else.

use vstd::prelude::*;
use crate::ascii;
use crate::decimal::dec_of;

verus! {

/// The SHA-224 digest of a byte string, named but not written out: the
/// digest is computed by an outside implementation, and the contracts only
/// rely on it being a function of the input.
pub uninterp spec fn sha224_of(s: Seq<u8>) -> Seq<u8>;

/// Relies on `sha2::Sha224::digest`: the SHA-224 digest of the input bytes,
/// 28 bytes long, a function of the input alone.
#[verifier::external_body]
fn sha224(input: &[u8]) -> (r: Vec<u8>)
    ensures
        r@ == sha224_of(input@),
        r@.len() == 28,
{
    <sha2::Sha224 as sha2::Digest>::digest(input).to_vec()
}

/// The lowercase hex digit for a value below 16.
pub open spec fn hex_digit(n: u8) -> u8
    recommends
        n < 16,
{
    if n < 10 {
        (ascii::ZERO + n) as u8
    } else {
        (ascii::LOWER_A + (n - 10)) as u8
    }
}

/// Lowercase hex rendering of a byte string: two digits per byte, high
/// nibble first.
pub open spec fn hex_of(s: Seq<u8>) -> Seq<u8>
    decreases s.len(),
{
    if s.len() == 0 {
        Seq::empty()
    } else {
        hex_of(s.drop_last()) + seq![hex_digit(s.last() / 16), hex_digit(s.last() % 16)]
    }
}

/// Renders a byte string as lowercase hex, two digits per byte, high
/// nibble first.
fn hex_encode(input: &[u8]) -> (r: Vec<u8>)
    ensures
        r@ == hex_of(input@),
{
    let mut out: Vec<u8> = Vec::new();
    let mut i: usize = 0;
    while i < input.len()
        invariant
            0 <= i <= input@.len(),
            out@ == hex_of(input@.take(i as int)),
        decreases input@.len() - i,
    {
        let b = input[i];
        let hi = b / 16;
        let lo = b % 16;
        proof {
            assert(input@.take(i + 1).drop_last() =~= input@.take(i as int));
            assert(input@.take(i + 1).last() == input@[i as int]);
        }
        out.push(
            if hi < 10 {
                ascii::ZERO + hi
            } else {
                ascii::LOWER_A + (hi - 10)
            },
        );
        out.push(
            if lo < 10 {
                ascii::ZERO + lo
            } else {
                ascii::LOWER_A + (lo - 10)
            },
        );
        proof {
            assert(out@ =~= hex_of(input@.take(i + 1)));
        }
        i = i + 1;
    }
    proof {
        assert(input@.take(input@.len() as int) =~= input@);
    }
    out
}

/// The bytes of the fixed name prefix `cluster_`.
pub open spec fn cluster_prefix() -> Seq<u8> {
    seq![99u8, 108u8, 117u8, 115u8, 116u8, 101u8, 114u8, 95u8]
}

/// The bytes hashed for a cluster name: decimal upstream index, a colon,
/// the textual address.
pub open spec fn spec_cluster_key(i: nat, ip: Seq<u8>) -> Seq<u8> {
    dec_of(i) + seq![ascii::COLON] + ip
}

/// The cluster name for upstream index `i` and endpoint address `ip`.
pub open spec fn spec_cluster_name(i: nat, ip: Seq<u8>) -> Seq<u8> {
    cluster_prefix() + hex_of(sha224_of(spec_cluster_key(i, ip)))
}

/// Builds the name of the cluster for endpoint `ip` of upstream `i`.  The
/// result depends on `i` and `ip` only.
pub fn cluster_name(i: u64, ip: &[u8]) -> (r: Vec<u8>)
    ensures
        r@ == spec_cluster_name(i as nat, ip@),
{
    let mut key = crate::decimal::fmt_u64(i);
    key.push(ascii::COLON);
    let mut j: usize = 0;
    while j < ip.len()
        invariant
            0 <= j <= ip@.len(),
            key@ =~= dec_of(i as nat) + seq![ascii::COLON] + ip@.take(j as int),
        decreases ip@.len() - j,
    {
        key.push(ip[j]);
        j = j + 1;
    }
    proof {
        assert(key@ =~= spec_cluster_key(i as nat, ip@));
    }
    let digest = sha224(key.as_slice());
    let hexed = hex_encode(digest.as_slice());
    let mut name: Vec<u8> = Vec::new();
    name.push(99);
    name.push(108);
    name.push(117);
    name.push(115);
    name.push(116);
    name.push(101);
    name.push(114);
    name.push(95);
    proof {
        assert(name@ =~= cluster_prefix());
    }
    let mut k: usize = 0;
    while k < hexed.len()
        invariant
            0 <= k <= hexed@.len(),
            name@ =~= cluster_prefix() + hexed@.take(k as int),
        decreases hexed@.len() - k,
    {
        name.push(hexed[k]);
        k = k + 1;
    }
    proof {
        assert(hexed@.take(hexed@.len() as int) =~= hexed@);
        assert(name@ =~= spec_cluster_name(i as nat, ip@));
    }
    name
}

} // verus!
