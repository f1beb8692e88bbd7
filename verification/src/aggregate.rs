//! The fleet-wide model list.
//!
//! Every model advertised anywhere in the fleet, one record per identifier,
//! in ascending identifier order.  The first record observed for an
//! identifier wins; observation order is upstream index ascending, then the
//! endpoint order of each upstream's latest cycle, then list order within an
//! endpoint.  Both the list-models route body and the direct proxy's
//! list-models answer are built from this.

use vstd::prelude::*;
use crate::bytes_order::{lex_cmp, lex_lt, ByteOrder};
use crate::schemas::{Endpoint, EndpointV, FleetState, FleetStateV, Model, ModelV};

verus! {

/// Copies a byte string.
pub fn copy_bytes(src: &[u8]) -> (r: Vec<u8>)
    ensures
        r@ == src@,
{
    let mut out: Vec<u8> = Vec::new();
    let mut i: usize = 0;
    while i < src.len()
        invariant
            0 <= i <= src@.len(),
            out@ =~= src@.take(i as int),
        decreases src@.len() - i,
    {
        out.push(src[i]);
        i = i + 1;
    }
    proof {
        assert(src@.take(src@.len() as int) =~= src@);
    }
    out
}

/// Appends a byte string to a buffer.
pub fn push_all(out: &mut Vec<u8>, s: &[u8])
    ensures
        final(out)@ == old(out)@ + s@,
{
    let mut i: usize = 0;
    while i < s.len()
        invariant
            0 <= i <= s@.len(),
            out@ =~= old(out)@ + s@.take(i as int),
        decreases s@.len() - i,
    {
        out.push(s[i]);
        i = i + 1;
    }
    proof {
        assert(s@.take(s@.len() as int) =~= s@);
    }
}

/// Copies a model record, its opaque extra fields included.
pub fn copy_model(m: &Model) -> (r: Model)
    ensures
        r.deep_view() == m.deep_view(),
{
    let mut extra: Vec<(Vec<u8>, Vec<u8>)> = Vec::new();
    let mut k: usize = 0;
    while k < m.extra.len()
        invariant
            0 <= k <= m.extra@.len(),
            extra.deep_view() =~= m.extra.deep_view().take(k as int),
        decreases m.extra@.len() - k,
    {
        proof {
            assert(m.extra.deep_view()[k as int] == m.extra@[k as int].deep_view());
        }
        let pair = (copy_bytes(m.extra[k].0.as_slice()), copy_bytes(m.extra[k].1.as_slice()));
        let ghost prev = extra;
        extra.push(pair);
        proof {
            crate::views::lemma_push_deep(extra, prev, pair);
            assert(pair.0.deep_view() =~= m.extra@[k as int].0.deep_view());
            assert(pair.1.deep_view() =~= m.extra@[k as int].1.deep_view());
            assert(extra.deep_view() =~= m.extra.deep_view().take(k + 1));
        }
        k = k + 1;
    }
    proof {
        assert(m.extra.deep_view().take(m.extra.deep_view().len() as int) =~= m.extra.deep_view());
    }
    let r = Model { id: copy_bytes(m.id.as_slice()), running: m.running, pending: m.pending, extra };
    proof {
        assert(r.id.deep_view() =~= m.id.deep_view());
    }
    r
}

/// The endpoints an upstream currently contributes: its latest cycle's
/// list, or none while its resolver has not produced yet.
pub open spec fn eps_of(state: FleetStateV, i: int) -> Seq<EndpointV> {
    match state[i] {
        Some(eps) => eps,
        None => Seq::empty(),
    }
}

/// Inserts a model into an id-sorted, id-unique list: ignored when its id
/// is already present, placed before the first strictly larger id
/// otherwise.
pub open spec fn insert_model(s: Seq<ModelV>, m: ModelV) -> Seq<ModelV>
    decreases s.len(),
{
    if s.len() == 0 {
        seq![m]
    } else if m.id == s[0].id {
        s
    } else if lex_lt(m.id, s[0].id) {
        seq![m] + s
    } else {
        seq![s[0]] + insert_model(s.drop_first(), m)
    }
}

/// Folds one endpoint's models into the union, in list order.
pub open spec fn union_with_models(acc: Seq<ModelV>, ms: Seq<ModelV>) -> Seq<ModelV>
    decreases ms.len(),
{
    if ms.len() == 0 {
        acc
    } else {
        insert_model(union_with_models(acc, ms.drop_last()), ms.last())
    }
}

/// Folds a cycle's endpoints into the union, in list order.
pub open spec fn union_with_endpoints(acc: Seq<ModelV>, eps: Seq<EndpointV>) -> Seq<ModelV>
    decreases eps.len(),
{
    if eps.len() == 0 {
        acc
    } else {
        union_with_models(union_with_endpoints(acc, eps.drop_last()), eps.last().models)
    }
}

/// The union over the first `n` upstream slots.
pub open spec fn union_upto(state: FleetStateV, n: int) -> Seq<ModelV>
    decreases n,
{
    if n <= 0 {
        Seq::empty()
    } else {
        union_with_endpoints(union_upto(state, n - 1), eps_of(state, n - 1))
    }
}

/// The fleet-wide model list: every advertised model once, ascending by id,
/// first observation's counters kept.
pub open spec fn spec_models_union(state: FleetStateV) -> Seq<ModelV> {
    union_upto(state, state.len() as int)
}

/// `insert_model` placed at position `k` is a plain sequence insertion,
/// when everything before `k` is strictly smaller and the id is not yet
/// present there, and position `k` (if any) is strictly larger.
proof fn lemma_insert_model_at(s: Seq<ModelV>, m: ModelV, k: int)
    requires
        0 <= k <= s.len(),
        forall|j: int| 0 <= j < k ==> lex_lt((#[trigger] s[j]).id, m.id),
        k < s.len() ==> lex_lt(m.id, s[k].id),
    ensures
        insert_model(s, m) == s.take(k) + seq![m] + s.skip(k),
    decreases k,
{
    crate::bytes_order::lemma_lex_trichotomy(m.id, if k < s.len() {
        s[k].id
    } else {
        m.id
    });
    if k == 0 {
        if s.len() == 0 {
            assert(insert_model(s, m) =~= s.take(0) + seq![m] + s.skip(0));
        } else {
            crate::bytes_order::lemma_lex_trichotomy(m.id, s[0].id);
            assert(insert_model(s, m) =~= s.take(0) + seq![m] + s.skip(0));
        }
    } else {
        crate::bytes_order::lemma_lex_trichotomy(s[0].id, m.id);
        lemma_insert_model_at(s.drop_first(), m, k - 1);
        assert(s.drop_first().take(k - 1) =~= s.take(k).drop_first());
        assert(s.drop_first().skip(k - 1) =~= s.skip(k));
        assert(seq![s[0]] + insert_model(s.drop_first(), m) =~= s.take(k) + seq![m] + s.skip(k));
    }
}

/// When the id already stands at position `k`, the insertion changes
/// nothing.
proof fn lemma_insert_model_present(s: Seq<ModelV>, m: ModelV, k: int)
    requires
        0 <= k < s.len(),
        forall|j: int| 0 <= j < k ==> lex_lt((#[trigger] s[j]).id, m.id),
        s[k].id == m.id,
    ensures
        insert_model(s, m) == s,
    decreases k,
{
    if k == 0 {
        assert(insert_model(s, m) =~= s);
    } else {
        crate::bytes_order::lemma_lex_trichotomy(s[0].id, m.id);
        lemma_insert_model_present(s.drop_first(), m, k - 1);
        assert(seq![s[0]] + s.drop_first() =~= s);
    }
}

/// Sortedness of the union as built: strictly ascending ids.
pub open spec fn ids_sorted(s: Seq<ModelV>) -> bool {
    forall|i: int, j: int| 0 <= i < j < s.len() ==> lex_lt((#[trigger] s[i]).id, (#[trigger] s[j]).id)
}

/// Inserts one model record into the sorted unique accumulator.
#[verifier::rlimit(100)]
fn insert_model_exec(acc: &mut Vec<Model>, m: &Model)
    requires
        ids_sorted(old(acc).deep_view()),
    ensures
        final(acc).deep_view() == insert_model(old(acc).deep_view(), m.deep_view()),
        ids_sorted(final(acc).deep_view()),
{
    let ghost s = acc.deep_view();
    let ghost mv = m.deep_view();
    let mut k: usize = 0;
    let mut stop = false;
    let mut is_equal = false;
    while k < acc.len() && !stop
        invariant
            0 <= k <= acc@.len(),
            s == acc.deep_view(),
            s == old(acc).deep_view(),
            ids_sorted(s),
            s.len() == acc@.len(),
            mv == m.deep_view(),
            forall|j: int| 0 <= j < k ==> lex_lt((#[trigger] s[j]).id, mv.id),
            stop ==> k < acc@.len(),
            stop && is_equal ==> s[k as int].id == mv.id,
            stop && !is_equal ==> lex_lt(mv.id, s[k as int].id),
            !stop ==> !is_equal,
        decreases acc@.len() - k, (if stop {
            0int
        } else {
            1int
        }),
    {
        proof {
            assert(acc.deep_view()[k as int] == acc@[k as int].deep_view());
            assert(acc@[k as int].id.deep_view() =~= acc@[k as int].id@);
            assert(mv.id =~= m.id@);
        }
        match lex_cmp(m.id.as_slice(), acc[k].id.as_slice()) {
            ByteOrder::Equal => {
                is_equal = true;
                stop = true;
            },
            ByteOrder::Less => {
                stop = true;
            },
            ByteOrder::Greater => {
                k = k + 1;
            },
        }
    }
    if stop && is_equal {
        proof {
            lemma_insert_model_present(s, mv, k as int);
        }
        return ;
    }
    proof {
        lemma_insert_model_at(s, mv, k as int);
    }
    acc.insert(k, copy_model(m));
    proof {
        assert(acc.deep_view() =~= s.take(k as int) + seq![mv] + s.skip(k as int));
        assert forall|x: int, y: int| 0 <= x < y < acc.deep_view().len() implies lex_lt(
            (#[trigger] acc.deep_view()[x]).id,
            (#[trigger] acc.deep_view()[y]).id,
        ) by {
            if x == k && y > k + 1 {
                crate::bytes_order::lemma_lex_lt_transitive(mv.id, s[k as int].id, s[y - 1].id);
            }
        }
        assert(ids_sorted(acc.deep_view()));
    }
}

/// Builds the fleet-wide model list of this state.
pub fn models_union(state: &FleetState) -> (r: Vec<Model>)
    ensures
        r.deep_view() == spec_models_union(state.deep_view()),
        ids_sorted(r.deep_view()),
{
    let ghost sv = state.deep_view();
    let mut acc: Vec<Model> = Vec::new();
    let mut i: usize = 0;
    while i < state.len()
        invariant
            0 <= i <= state@.len(),
            sv == state.deep_view(),
            sv.len() == state@.len(),
            acc.deep_view() == union_upto(sv, i as int),
            ids_sorted(acc.deep_view()),
        decreases state@.len() - i,
    {
        let ghost eps = eps_of(sv, i as int);
        match &state[i] {
            Some(endpoints) => {
                proof {
                    assert(state.deep_view()[i as int] == state@[i as int].deep_view());
                    assert(eps == endpoints.deep_view());
                }
                let mut e: usize = 0;
                while e < endpoints.len()
                    invariant
                        0 <= e <= endpoints@.len(),
                        eps == endpoints.deep_view(),
                        eps.len() == endpoints@.len(),
                        acc.deep_view() == union_with_endpoints(
                            union_upto(sv, i as int),
                            eps.take(e as int),
                        ),
                        ids_sorted(acc.deep_view()),
                    decreases endpoints@.len() - e,
                {
                    let ghost ms = eps[e as int].models;
                    proof {
                        assert(endpoints.deep_view()[e as int] == endpoints@[e as int].deep_view());
                        assert(ms == endpoints@[e as int].models.deep_view());
                    }
                    let models = &endpoints[e].models;
                    let mut q: usize = 0;
                    while q < models.len()
                        invariant
                            0 <= q <= models@.len(),
                            ms == models.deep_view(),
                            ms.len() == models@.len(),
                            acc.deep_view() == union_with_models(
                                union_with_endpoints(union_upto(sv, i as int), eps.take(e as int)),
                                ms.take(q as int),
                            ),
                            ids_sorted(acc.deep_view()),
                        decreases models@.len() - q,
                    {
                        proof {
                            assert(ms.take(q + 1).drop_last() =~= ms.take(q as int));
                            assert(ms.take(q + 1).last() == ms[q as int]);
                            assert(models.deep_view()[q as int] == models@[q as int].deep_view());
                        }
                        insert_model_exec(&mut acc, &models[q]);
                        q = q + 1;
                    }
                    proof {
                        assert(ms.take(ms.len() as int) =~= ms);
                        assert(eps.take(e + 1).drop_last() =~= eps.take(e as int));
                        assert(eps.take(e + 1).last() == eps[e as int]);
                    }
                    e = e + 1;
                }
                proof {
                    assert(eps.take(eps.len() as int) =~= eps);
                }
            },
            None => {
                proof {
                    assert(state.deep_view()[i as int] == state@[i as int].deep_view());
                    assert(eps =~= Seq::<EndpointV>::empty());
                    assert(union_with_endpoints(union_upto(sv, i as int), eps) == union_upto(
                        sv,
                        i as int,
                    ));
                }
            },
        }
        i = i + 1;
    }
    proof {
        assert(acc.deep_view() == union_upto(sv, sv.len() as int));
    }
    acc
}

} // verus!
