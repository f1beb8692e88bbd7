//! Decimal text for unsigned integers.
//!
//! Cluster names embed the upstream index in decimal, the JSON bodies carry
//! the load counters in decimal, and the metrics parser reads decimal sample
//! values back.  `dec_of` is the single spec-level definition of that text;
//! formatting and parsing are both verified against it.

use vstd::prelude::*;

verus! {

/// Decimal digits of `n`, most significant first, with no sign, no leading
/// zero (except for `n == 0` itself).
pub open spec fn dec_of(n: nat) -> Seq<u8>
    decreases n,
{
    if n < 10 {
        seq![(crate::ascii::ZERO + n) as u8]
    } else {
        dec_of(n / 10) + seq![(crate::ascii::ZERO + (n % 10)) as u8]
    }
}

/// Every byte of a decimal rendering is an ASCII digit.
pub open spec fn is_digit(b: u8) -> bool {
    crate::ascii::ZERO <= b && b <= crate::ascii::NINE
}

/// A non-empty run of ASCII digits.
pub open spec fn all_digits(s: Seq<u8>) -> bool {
    s.len() > 0 && forall|i: int| 0 <= i < s.len() ==> is_digit(#[trigger] s[i])
}

/// Numeric value of a digit run, most significant digit first.
pub open spec fn num_of(s: Seq<u8>) -> nat
    decreases s.len(),
{
    if s.len() == 0 {
        0
    } else {
        num_of(s.drop_last()) * 10 + (s.last() - crate::ascii::ZERO) as nat
    }
}

/// Renders `n` in decimal.
pub fn fmt_u64(n: u64) -> (r: Vec<u8>)
    ensures
        r@ =~= dec_of(n as nat),
    decreases n,
{
    if n < 10 {
        let mut v: Vec<u8> = Vec::new();
        v.push(crate::ascii::ZERO + (n as u8));
        v
    } else {
        let mut v = fmt_u64(n / 10);
        v.push(crate::ascii::ZERO + ((n % 10) as u8));
        v
    }
}

/// The decimal rendering consists of digits.
pub proof fn lemma_dec_of_digits(n: nat)
    ensures
        all_digits(dec_of(n)),
        num_of(dec_of(n)) == n,
    decreases n,
{
    if n < 10 {
        assert(dec_of(n).drop_last() =~= Seq::<u8>::empty());
        assert(num_of(dec_of(n)) == num_of(Seq::<u8>::empty()) * 10 + n);
    } else {
        lemma_dec_of_digits(n / 10);
        assert(dec_of(n).drop_last() =~= dec_of(n / 10));
    }
}

/// Appending digits never shrinks the value of a digit run.
pub proof fn lemma_num_of_prefix(s: Seq<u8>, i: int)
    requires
        0 <= i <= s.len(),
    ensures
        num_of(s.take(i)) <= num_of(s),
    decreases s.len() - i,
{
    if i < s.len() {
        lemma_num_of_prefix(s, i + 1);
        assert(s.take(i + 1).drop_last() =~= s.take(i));
        assert(num_of(s.take(i + 1)) == num_of(s.take(i)) * 10 + (s.take(i + 1).last()
            - crate::ascii::ZERO) as nat);
    } else {
        assert(s.take(i) =~= s);
    }
}

/// Parses a non-empty, all-digit byte string as a `u64`.  Returns `None`
/// exactly when the text is not such a digit run or its value does not fit.
pub fn parse_u64(s: &[u8]) -> (r: Option<u64>)
    ensures
        r is Some <==> all_digits(s@) && num_of(s@) <= u64::MAX,
        r is Some ==> r->0 == num_of(s@),
{
    if s.len() == 0 {
        return None;
    }
    let mut acc: u64 = 0;
    let mut i: usize = 0;
    while i < s.len()
        invariant
            0 <= i <= s@.len(),
            s@.len() > 0,
            acc == num_of(s@.take(i as int)),
            forall|j: int| 0 <= j < i ==> is_digit(#[trigger] s@[j]),
        decreases s@.len() - i,
    {
        let b = s[i];
        if b < crate::ascii::ZERO || b > crate::ascii::NINE {
            return None;
        }
        let d = (b - crate::ascii::ZERO) as u64;
        if acc > (u64::MAX - d) / 10 {
            proof {
                assert(s@.take(i + 1).drop_last() =~= s@.take(i as int));
                assert(num_of(s@.take(i + 1)) == acc * 10 + d);
                assert(num_of(s@.take(i + 1)) > u64::MAX);
                lemma_num_of_prefix(s@, i + 1);
            }
            return None;
        }
        proof {
            assert(num_of(s@.take(i + 1)) == num_of(s@.take(i as int)) * 10 + (s@[i as int]
                - crate::ascii::ZERO) as nat) by {
                assert(s@.take(i + 1).drop_last() =~= s@.take(i as int));
            }
        }
        acc = acc * 10 + d;
        i = i + 1;
    }
    proof {
        assert(s@.take(i as int) =~= s@);
    }
    Some(acc)
}

} // verus!
