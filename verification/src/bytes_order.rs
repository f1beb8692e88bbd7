//! Lexicographic order on byte strings.
//!
//! Every piece of text the library handles (model ids, cluster names, IP
//! literals) is a byte string, and the stable orders the generator promises
//! are all lexicographic byte orders.  This module defines that order once,
//! as a spec predicate, and provides the executable comparison the rest of
//! the library sorts with.

use vstd::prelude::*;

verus! {

/// Strict lexicographic order on byte sequences: either the two sequences
/// agree on a prefix and then differ at one position, or `a` is a proper
/// prefix of `b`.
pub open spec fn lex_lt(a: Seq<u8>, b: Seq<u8>) -> bool {
    (exists|i: int|
        0 <= i < a.len() && i < b.len() && (forall|j: int| 0 <= j < i ==> a[j] == b[j]) && a[i]
            < #[trigger] b[i]) || (a.len() < b.len() && (forall|j: int|
        0 <= j < a.len() ==> a[j] == b[j]))
}

/// Outcome of a three-way byte-string comparison.
#[derive(Clone, Copy, PartialEq, Eq, Structural, Debug)]
pub enum ByteOrder {
    Less,
    Equal,
    Greater,
}

/// Three-way lexicographic comparison of two byte strings, the executable
/// counterpart of [`lex_lt`].
pub fn lex_cmp(a: &[u8], b: &[u8]) -> (r: ByteOrder)
    ensures
        r == ByteOrder::Less <==> lex_lt(a@, b@),
        r == ByteOrder::Equal <==> a@ == b@,
        r == ByteOrder::Greater <==> lex_lt(b@, a@),
{
    let mut i: usize = 0;
    loop
        invariant
            0 <= i <= a@.len(),
            i <= b@.len(),
            forall|j: int| 0 <= j < i ==> a@[j] == b@[j],
        decreases a@.len() - i,
    {
        if i == a.len() && i == b.len() {
            proof {
                assert(a@ =~= b@);
                lemma_lex_lt_irreflexive(a@);
            }
            return ByteOrder::Equal;
        }
        if i == a.len() {
            proof {
                assert(lex_lt(a@, b@));
                lemma_lex_asym_helper(a@, b@, i as int);
            }
            return ByteOrder::Less;
        }
        if i == b.len() {
            proof {
                assert(lex_lt(b@, a@));
                lemma_lex_asym_helper(b@, a@, i as int);
            }
            return ByteOrder::Greater;
        }
        if a[i] < b[i] {
            proof {
                assert(lex_lt(a@, b@));
                lemma_lex_asym_helper(a@, b@, i as int);
            }
            return ByteOrder::Less;
        }
        if a[i] > b[i] {
            proof {
                assert(lex_lt(b@, a@));
                lemma_lex_asym_helper(b@, a@, i as int);
            }
            return ByteOrder::Greater;
        }
        i = i + 1;
    }
}

/// No byte string is lexicographically below itself.
pub proof fn lemma_lex_lt_irreflexive(a: Seq<u8>)
    ensures
        !lex_lt(a, a),
{
}

/// When two byte strings agree below position `i` and either `a` ends at `i`
/// with `b` going on, or they differ at `i` with `a` the smaller, then `a`
/// is below `b` and `b` is neither below nor equal to `a`.
proof fn lemma_lex_asym_helper(a: Seq<u8>, b: Seq<u8>, i: int)
    requires
        0 <= i <= a.len(),
        i <= b.len(),
        forall|j: int| 0 <= j < i ==> a[j] == b[j],
        (i < a.len() && i < b.len() && a[i] < b[i]) || (i == a.len() && i < b.len()),
    ensures
        lex_lt(a, b),
        !lex_lt(b, a),
        a != b,
{
    assert(a.len() == b.len() ==> a[i] != b[i]);
    if lex_lt(b, a) {
        if exists|k: int|
            0 <= k < b.len() && k < a.len() && (forall|j: int| 0 <= j < k ==> b[j] == a[j]) && b[k]
                < #[trigger] a[k] {
            let k = choose|k: int|
                0 <= k < b.len() && k < a.len() && (forall|j: int| 0 <= j < k ==> b[j] == a[j])
                    && b[k] < #[trigger] a[k];
            assert(k < i ==> a[k] == b[k]);
            assert(k >= i ==> i < a.len() && a[i] < b[i] && (k > i ==> a[i] == b[i]));
        } else {
            assert(b.len() < a.len() && (forall|j: int| 0 <= j < b.len() ==> b[j] == a[j]));
            assert(i < b.len() ==> a[i] < b[i] && a[i] == b[i]);
        }
    }
}

/// The order is transitive.
pub proof fn lemma_lex_lt_transitive(a: Seq<u8>, b: Seq<u8>, c: Seq<u8>)
    requires
        lex_lt(a, b),
        lex_lt(b, c),
    ensures
        lex_lt(a, c),
{
    let ab_ix = exists|i: int|
        0 <= i < a.len() && i < b.len() && (forall|j: int| 0 <= j < i ==> a[j] == b[j]) && a[i]
            < #[trigger] b[i];
    let bc_ix = exists|i: int|
        0 <= i < b.len() && i < c.len() && (forall|j: int| 0 <= j < i ==> b[j] == c[j]) && b[i]
            < #[trigger] c[i];
    if ab_ix && bc_ix {
        let i1 = choose|i: int|
            0 <= i < a.len() && i < b.len() && (forall|j: int| 0 <= j < i ==> a[j] == b[j]) && a[i]
                < #[trigger] b[i];
        let i2 = choose|i: int|
            0 <= i < b.len() && i < c.len() && (forall|j: int| 0 <= j < i ==> b[j] == c[j]) && b[i]
                < #[trigger] c[i];
        let i = if i1 <= i2 {
            i1
        } else {
            i2
        };
        assert(0 <= i < a.len() && i < c.len() && (forall|j: int| 0 <= j < i ==> a[j] == c[j])
            && a[i] < c[i]);
    } else if ab_ix {
        let i1 = choose|i: int|
            0 <= i < a.len() && i < b.len() && (forall|j: int| 0 <= j < i ==> a[j] == b[j]) && a[i]
                < #[trigger] b[i];
        assert(b.len() < c.len() && (forall|j: int| 0 <= j < b.len() ==> b[j] == c[j]));
        assert(0 <= i1 < a.len() && i1 < c.len() && (forall|j: int| 0 <= j < i1 ==> a[j] == c[j])
            && a[i1] < c[i1]);
    } else if bc_ix {
        let i2 = choose|i: int|
            0 <= i < b.len() && i < c.len() && (forall|j: int| 0 <= j < i ==> b[j] == c[j]) && b[i]
                < #[trigger] c[i];
        assert(a.len() < b.len() && (forall|j: int| 0 <= j < a.len() ==> a[j] == b[j]));
        if i2 < a.len() {
            assert(0 <= i2 < a.len() && i2 < c.len() && (forall|j: int|
                0 <= j < i2 ==> a[j] == c[j]) && a[i2] < c[i2]);
        } else {
            assert(a.len() < c.len() && (forall|j: int| 0 <= j < a.len() ==> a[j] == c[j]));
        }
    } else {
        assert(a.len() < c.len() && (forall|j: int| 0 <= j < a.len() ==> a[j] == c[j]));
    }
}

/// The executable comparison is antisymmetric because the order itself is:
/// of two distinct byte strings exactly one is below the other, and a string
/// equal to another is below neither.
pub proof fn lemma_lex_trichotomy(a: Seq<u8>, b: Seq<u8>)
    ensures
        lex_lt(a, b) ==> !lex_lt(b, a) && a != b,
        a == b ==> !lex_lt(a, b) && !lex_lt(b, a),
{
    if a == b {
        lemma_lex_lt_irreflexive(a);
    }
    if lex_lt(a, b) {
        if exists|i: int|
            0 <= i < a.len() && i < b.len() && (forall|j: int| 0 <= j < i ==> a[j] == b[j]) && a[i]
                < #[trigger] b[i] {
            let i = choose|i: int|
                0 <= i < a.len() && i < b.len() && (forall|j: int| 0 <= j < i ==> a[j] == b[j])
                    && a[i] < #[trigger] b[i];
            lemma_lex_asym_helper(a, b, i);
        } else {
            lemma_lex_asym_helper(a, b, a.len() as int);
        }
    }
}

} // verus!
