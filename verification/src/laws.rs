//! The universal invariants of the generator and the bus, proved.
//!
//! Each public proof function here states one promise the fabric makes
//! across functions: determinism of generation, cluster names as a function
//! of their pair, referential integrity of every model route's weighted
//! clusters, the emitted cluster order, and the shape of the weight formula
//! at its two calibration points.

use vstd::prelude::*;
use crate::generator::{
    cluster_of,
    clusters_upto,
    entries_of_eps,
    entries_upto,
    insert_cluster,
    max_capped,
    pmax_of,
    row_clusters,
    sort_by_ip,
    sort_clusters,
    spec_clusters,
    spec_entries,
    spec_route_configuration,
    weight_sum,
    weighted_of,
    EntryV,
    Generator,
    GeneratorV,
};
use crate::naming::spec_cluster_name;
use crate::resources::{Cluster, ClusterV, ClusterWeightV, RouteConfiguration};
use crate::schemas::{EndpointV, FleetStateV};
use crate::PENDING_CAP;

verus! {

/// Generation is deterministic: the generator's outputs are functions of
/// its value, so two passes over equal inputs yield equal resources, field
/// for field.  (What `Generator::clusters` and
/// `Generator::route_configuration` promise already pins each result to a
/// spec function of the input; this records that two such results agree.)
pub proof fn lemma_generator_deterministic(
    g1: Generator,
    g2: Generator,
    c1: Vec<Cluster>,
    c2: Vec<Cluster>,
    r1: RouteConfiguration,
    r2: RouteConfiguration,
)
    requires
        g1.deep_view() == g2.deep_view(),
        c1.deep_view() == spec_clusters(g1.deep_view()),
        c2.deep_view() == spec_clusters(g2.deep_view()),
        r1.deep_view() == spec_route_configuration(g1.deep_view()),
        r2.deep_view() == spec_route_configuration(g2.deep_view()),
    ensures
        c1.deep_view() == c2.deep_view(),
        r1.deep_view() == r2.deep_view(),
{
}

/// A cluster's name is a function of the upstream index and the endpoint
/// address alone: nothing else of the fleet state reaches it.
pub proof fn lemma_cluster_name_function_of_pair(
    i1: nat,
    ip1: Seq<u8>,
    i2: nat,
    ip2: Seq<u8>,
)
    requires
        i1 == i2,
        ip1 == ip2,
    ensures
        spec_cluster_name(i1, ip1) == spec_cluster_name(i2, ip2),
{
}

/// A model route has one weighted cluster per serving entry.
proof fn lemma_weighted_of_len(es: Seq<EntryV>, pmax: u64)
    ensures
        weighted_of(es, pmax).len() == es.len(),
    decreases es.len(),
{
    if es.len() > 0 {
        lemma_weighted_of_len(es.drop_last(), pmax);
    }
}

/// The weighted-cluster list of a model route is index-aligned with its
/// entries: entry `k` gives the cluster name of its pair and its summed
/// weight.
proof fn lemma_weighted_of_index(es: Seq<EntryV>, pmax: u64, k: int)
    requires
        0 <= k < es.len(),
    ensures
        weighted_of(es, pmax).len() == es.len(),
        weighted_of(es, pmax)[k] == (ClusterWeightV {
            name: spec_cluster_name(es[k].i as nat, es[k].ip),
            weight: crate::generator::sat64(weight_sum(es[k].pendings, pmax)),
        }),
    decreases es.len(),
{
    lemma_weighted_of_len(es, pmax);
    lemma_weighted_of_len(es.drop_last(), pmax);
    if k < es.len() - 1 {
        lemma_weighted_of_index(es.drop_last(), pmax, k);
        assert(weighted_of(es, pmax)[k] == weighted_of(es.drop_last(), pmax)[k]);
    } else {
        assert(weighted_of(es, pmax)[k] == weighted_of(es, pmax).last());
    }
}

/// One upstream's cluster row has one cluster per sorted endpoint.
proof fn lemma_row_clusters_len(i: nat, u: crate::upstream::UpstreamV, eps: Seq<EndpointV>)
    ensures
        row_clusters(i, u, eps).len() == eps.len(),
    decreases eps.len(),
{
    if eps.len() > 0 {
        lemma_row_clusters_len(i, u, eps.drop_last());
    }
}

/// The cluster row of one upstream is index-aligned with its sorted
/// endpoints.
proof fn lemma_row_clusters_index(
    i: nat,
    u: crate::upstream::UpstreamV,
    eps: Seq<EndpointV>,
    t: int,
)
    requires
        0 <= t < eps.len(),
    ensures
        row_clusters(i, u, eps).len() == eps.len(),
        row_clusters(i, u, eps)[t] == cluster_of(i, u, eps[t]),
    decreases eps.len(),
{
    lemma_row_clusters_len(i, u, eps);
    lemma_row_clusters_len(i, u, eps.drop_last());
    if t < eps.len() - 1 {
        lemma_row_clusters_index(i, u, eps.drop_last(), t);
        assert(row_clusters(i, u, eps)[t] == row_clusters(i, u, eps.drop_last())[t]);
    } else {
        assert(row_clusters(i, u, eps)[t] == row_clusters(i, u, eps).last());
    }
}

/// Every entry of one upstream's serving list carries that upstream's index
/// and the address of one of its sorted endpoints.
proof fn lemma_entries_of_eps_member(i: u64, eps: Seq<EndpointV>, id: Seq<u8>, k: int)
    requires
        0 <= k < entries_of_eps(i, eps, id).len(),
    ensures
        entries_of_eps(i, eps, id)[k].i == i,
        exists|t: int|
            0 <= t < eps.len() && (#[trigger] eps[t]).ip == entries_of_eps(i, eps, id)[k].ip,
    decreases eps.len(),
{
    if eps.len() > 0 {
        let rest = entries_of_eps(i, eps.drop_last(), id);
        if k < rest.len() {
            lemma_entries_of_eps_member(i, eps.drop_last(), id, k);
            assert(entries_of_eps(i, eps, id)[k] == rest[k]);
            let t = choose|t: int|
                0 <= t < eps.drop_last().len() && (#[trigger] eps.drop_last()[t]).ip == rest[k].ip;
            assert(eps[t].ip == entries_of_eps(i, eps, id)[k].ip);
        } else {
            assert(k == rest.len());
            assert(entries_of_eps(i, eps, id)[k] == entries_of_eps(i, eps, id).last());
            assert(eps[eps.len() - 1].ip == entries_of_eps(i, eps, id)[k].ip);
        }
    }
}

/// Every entry of a model route names an upstream below `n` and the address
/// of one of that upstream's sorted endpoints.
proof fn lemma_entries_upto_member(state: FleetStateV, id: Seq<u8>, n: int, k: int)
    requires
        0 <= k < entries_upto(state, id, n).len(),
        n <= u64::MAX,
    ensures
        0 <= entries_upto(state, id, n)[k].i < n,
        exists|t: int|
            0 <= t < sort_by_ip(
                crate::aggregate::eps_of(state, entries_upto(state, id, n)[k].i as int),
            ).len() && (#[trigger] sort_by_ip(
                crate::aggregate::eps_of(state, entries_upto(state, id, n)[k].i as int),
            )[t]).ip == entries_upto(state, id, n)[k].ip,
    decreases n,
{
    if n > 0 {
        let rest = entries_upto(state, id, n - 1);
        let sorted = sort_by_ip(crate::aggregate::eps_of(state, n - 1));
        if k < rest.len() {
            lemma_entries_upto_member(state, id, n - 1, k);
            assert(entries_upto(state, id, n)[k] == rest[k]);
        } else {
            assert(entries_upto(state, id, n)[k] == entries_of_eps(
                (n - 1) as u64,
                sorted,
                id,
            )[k - rest.len()]);
            lemma_entries_of_eps_member((n - 1) as u64, sorted, id, k - rest.len());
            assert(((n - 1) as u64) as int == n - 1);
        }
    }
}

/// The unsorted cluster list of the first `n` upstreams contains the
/// cluster of every sorted endpoint of every upstream below `n`.
proof fn lemma_clusters_upto_member(
    ups: Seq<crate::upstream::UpstreamV>,
    state: FleetStateV,
    n: int,
    i: int,
    t: int,
)
    requires
        0 <= i < n,
        0 <= t < sort_by_ip(crate::aggregate::eps_of(state, i)).len(),
    ensures
        exists|j: int|
            0 <= j < clusters_upto(ups, state, n).len() && #[trigger] clusters_upto(
                ups,
                state,
                n,
            )[j] == cluster_of(i as nat, ups[i], sort_by_ip(crate::aggregate::eps_of(state, i))[t]),
    decreases n,
{
    let sorted = sort_by_ip(crate::aggregate::eps_of(state, i));
    if i < n - 1 {
        lemma_clusters_upto_member(ups, state, n - 1, i, t);
        let j = choose|j: int|
            0 <= j < clusters_upto(ups, state, n - 1).len() && #[trigger] clusters_upto(
                ups,
                state,
                n - 1,
            )[j] == cluster_of(i as nat, ups[i], sorted[t]);
        assert(clusters_upto(ups, state, n)[j] == cluster_of(i as nat, ups[i], sorted[t]));
    } else {
        lemma_row_clusters_index(i as nat, ups[i], sorted, t);
        let j = clusters_upto(ups, state, n - 1).len() as int + t;
        assert(clusters_upto(ups, state, n)[j] == row_clusters(i as nat, ups[i], sorted)[t]);
    }
}

/// Insertion keeps what a sorted cluster list already contains, and adds
/// the inserted cluster.
proof fn lemma_insert_cluster_member(s: Seq<ClusterV>, c: ClusterV, x: ClusterV)
    requires
        x == c || exists|j: int| 0 <= j < s.len() && s[j] == x,
    ensures
        exists|j: int|
            0 <= j < insert_cluster(s, c).len() && #[trigger] insert_cluster(s, c)[j] == x,
    decreases s.len(),
{
    if x == c {
        if s.len() == 0 {
            assert(insert_cluster(s, c)[0] == x);
        } else if crate::bytes_order::lex_lt(c.name, s[0].name) {
            assert(insert_cluster(s, c)[0] == x);
        } else {
            lemma_insert_cluster_member(s.drop_first(), c, x);
            let j = choose|j: int|
                0 <= j < insert_cluster(s.drop_first(), c).len() && #[trigger] insert_cluster(
                    s.drop_first(),
                    c,
                )[j] == x;
            assert(insert_cluster(s, c)[j + 1] == insert_cluster(s.drop_first(), c)[j]);
        }
    } else {
        let j0 = choose|j: int| 0 <= j < s.len() && s[j] == x;
        if crate::bytes_order::lex_lt(c.name, s[0].name) {
            assert(insert_cluster(s, c)[j0 + 1] == x);
        } else {
            if j0 == 0 {
                assert(insert_cluster(s, c)[0] == x);
            } else {
                assert(s.drop_first()[j0 - 1] == x);
                lemma_insert_cluster_member(s.drop_first(), c, x);
                let j = choose|j: int|
                    0 <= j < insert_cluster(s.drop_first(), c).len() && #[trigger] insert_cluster(
                        s.drop_first(),
                        c,
                    )[j] == x;
                assert(insert_cluster(s, c)[j + 1] == insert_cluster(s.drop_first(), c)[j]);
            }
        }
    }
}

/// Sorting keeps membership: whatever the unsorted cluster list holds, the
/// sorted one holds too.
proof fn lemma_sort_clusters_member(s: Seq<ClusterV>, x: ClusterV)
    requires
        exists|j: int| 0 <= j < s.len() && s[j] == x,
    ensures
        exists|j: int| 0 <= j < sort_clusters(s).len() && #[trigger] sort_clusters(s)[j] == x,
    decreases s.len(),
{
    let j0 = choose|j: int| 0 <= j < s.len() && s[j] == x;
    assert(s.len() > 0);
    assert(sort_clusters(s) == insert_cluster(sort_clusters(s.drop_last()), s.last()));
    if j0 == s.len() - 1 {
        lemma_insert_cluster_member(sort_clusters(s.drop_last()), s.last(), x);
    } else {
        assert(s.drop_last()[j0] == x);
        lemma_sort_clusters_member(s.drop_last(), x);
        lemma_insert_cluster_member(sort_clusters(s.drop_last()), s.last(), x);
    }
}

/// The largest clamped sample of a route whose entries each carry the
/// single sample `0` is `0`.
proof fn lemma_pmax_all_zero(es: Seq<EntryV>)
    requires
        forall|k: int| 0 <= k < es.len() ==> (#[trigger] es[k]).pendings =~= seq![0u64],
    ensures
        pmax_of(es) == 0,
    decreases es.len(),
{
    if es.len() > 0 {
        lemma_pmax_all_zero(es.drop_last());
        assert(es.last().pendings =~= seq![0u64]);
        assert(max_capped(seq![0u64]) == 0) by {
            assert(seq![0u64].drop_last() =~= Seq::<u64>::empty());
            assert(max_capped(Seq::<u64>::empty()) == 0);
            assert(seq![0u64].last() == 0u64);
        }
    }
}

/// Weight calibration, idle fleet: when every endpoint of a model reports
/// one pending sample of zero, every weight equals one — the traffic is
/// split evenly.
pub proof fn lemma_weights_all_idle(es: Seq<EntryV>, k: int)
    requires
        forall|j: int| 0 <= j < es.len() ==> (#[trigger] es[j]).pendings =~= seq![0u64],
        0 <= k < es.len(),
    ensures
        weighted_of(es, pmax_of(es)).len() == es.len(),
        weighted_of(es, pmax_of(es))[k].weight == 1,
{
    lemma_pmax_all_zero(es);
    lemma_weighted_of_index(es, 0, k);
    assert(weight_sum(seq![0u64], 0) == 1) by {
        assert(seq![0u64].drop_last() =~= Seq::<u64>::empty());
        assert(weight_sum(Seq::<u64>::empty(), 0) == 0);
        assert(seq![0u64].last() == 0u64);
        assert(crate::generator::cap_pending(0u64) == 0);
        assert(1nat / 1nat == 1nat) by (nonlinear_arith);
    }
}

/// The largest clamped sample of a route with one loaded entry (a single
/// sample `p`, within the trusted bound) and otherwise idle entries is `p`.
proof fn lemma_pmax_one_loaded(es: Seq<EntryV>, loaded: int, p: u64)
    requires
        0 <= loaded < es.len(),
        p <= PENDING_CAP,
        es[loaded].pendings =~= seq![p],
        forall|j: int|
            0 <= j < es.len() && j != loaded ==> (#[trigger] es[j]).pendings =~= seq![0u64],
    ensures
        pmax_of(es) == p,
    decreases es.len(),
{
    assert(max_capped(seq![p]) == p) by {
        assert(seq![p].drop_last() =~= Seq::<u64>::empty());
        assert(max_capped(Seq::<u64>::empty()) == 0);
        assert(seq![p].last() == p);
    }
    assert(max_capped(seq![0u64]) == 0) by {
        assert(seq![0u64].drop_last() =~= Seq::<u64>::empty());
        assert(max_capped(Seq::<u64>::empty()) == 0);
        assert(seq![0u64].last() == 0u64);
    }
    if loaded == es.len() - 1 {
        lemma_pmax_all_zero(es.drop_last());
    } else {
        lemma_pmax_one_loaded(es.drop_last(), loaded, p);
    }
}

/// Weight calibration, one loaded endpoint: when one endpoint of a model
/// reports pending `p` (within the trusted bound) and the rest report zero,
/// the loaded endpoint's weight is one and every idle endpoint's weight is
/// `p + 1`.  Beyond the bound the clamp takes over, so `p` above
/// `PENDING_CAP` is excluded.
pub proof fn lemma_weights_one_loaded(es: Seq<EntryV>, loaded: int, p: u64, k: int)
    requires
        0 <= loaded < es.len(),
        p <= PENDING_CAP,
        es[loaded].pendings =~= seq![p],
        forall|j: int|
            0 <= j < es.len() && j != loaded ==> (#[trigger] es[j]).pendings =~= seq![0u64],
        0 <= k < es.len(),
    ensures
        weighted_of(es, pmax_of(es)).len() == es.len(),
        k == loaded ==> weighted_of(es, pmax_of(es))[k].weight == 1,
        k != loaded ==> weighted_of(es, pmax_of(es))[k].weight == p + 1,
{
    lemma_pmax_one_loaded(es, loaded, p);
    lemma_weighted_of_index(es, p, k);
    if k == loaded {
        assert(weight_sum(seq![p], p) == 1) by {
            assert(seq![p].drop_last() =~= Seq::<u64>::empty());
            assert(weight_sum(Seq::<u64>::empty(), p) == 0);
            assert(seq![p].last() == p);
            assert((1 + p) as nat / (1 + p) as nat == 1) by (nonlinear_arith);
        }
    } else {
        assert(weight_sum(seq![0u64], p) == (p + 1) as nat) by {
            assert(seq![0u64].drop_last() =~= Seq::<u64>::empty());
            assert(weight_sum(Seq::<u64>::empty(), p) == 0);
            assert(seq![0u64].last() == 0u64);
            assert(crate::generator::cap_pending(0u64) == 0);
            assert((1 + p) as nat / 1 == (1 + p) as nat) by (nonlinear_arith);
        }
    }
}


/// Non-descending name order, the stable order version equality rests on.
pub open spec fn clusters_sorted(s: Seq<ClusterV>) -> bool {
    forall|i: int, j: int|
        0 <= i < j < s.len() ==> !crate::bytes_order::lex_lt(
            (#[trigger] s[j]).name,
            (#[trigger] s[i]).name,
        )
}

/// An insertion grows the list by one.
proof fn lemma_insert_cluster_len(s: Seq<ClusterV>, c: ClusterV)
    ensures
        insert_cluster(s, c).len() == s.len() + 1,
    decreases s.len(),
{
    if s.len() > 0 && !crate::bytes_order::lex_lt(c.name, s[0].name) {
        lemma_insert_cluster_len(s.drop_first(), c);
    }
}

/// Everything in an insertion's result is the inserted cluster or one of
/// the list's own.
proof fn lemma_insert_cluster_elems(s: Seq<ClusterV>, c: ClusterV, k: int)
    requires
        0 <= k < insert_cluster(s, c).len(),
    ensures
        insert_cluster(s, c).len() == s.len() + 1,
        insert_cluster(s, c)[k] == c || exists|j: int| 0 <= j < s.len() && #[trigger] s[j]
            == insert_cluster(s, c)[k],
    decreases s.len(),
{
    lemma_insert_cluster_len(s, c);
    if s.len() == 0 {
    } else if crate::bytes_order::lex_lt(c.name, s[0].name) {
        if k > 0 {
            assert(s[k - 1] == insert_cluster(s, c)[k]);
        }
    } else {
        if k == 0 {
            assert(s[0] == insert_cluster(s, c)[0]);
        } else {
            lemma_insert_cluster_elems(s.drop_first(), c, k - 1);
            assert(insert_cluster(s, c)[k] == insert_cluster(s.drop_first(), c)[k - 1]);
            if insert_cluster(s.drop_first(), c)[k - 1] != c {
                let j = choose|j: int|
                    0 <= j < s.drop_first().len() && #[trigger] s.drop_first()[j] == insert_cluster(
                        s.drop_first(),
                        c,
                    )[k - 1];
                assert(s[j + 1] == insert_cluster(s, c)[k]);
            }
        }
    }
}

/// Inserting into a name-sorted cluster list keeps it sorted.
proof fn lemma_insert_cluster_sorted(s: Seq<ClusterV>, c: ClusterV)
    requires
        clusters_sorted(s),
    ensures
        clusters_sorted(insert_cluster(s, c)),
    decreases s.len(),
{
    let r = insert_cluster(s, c);
    if s.len() == 0 {
    } else if crate::bytes_order::lex_lt(c.name, s[0].name) {
        assert forall|i: int, j: int| 0 <= i < j < r.len() implies !crate::bytes_order::lex_lt(
            (#[trigger] r[j]).name,
            (#[trigger] r[i]).name,
        ) by {
            if i == 0 {
                assert(r[j] == s[j - 1]);
                if crate::bytes_order::lex_lt(s[j - 1].name, c.name) {
                    crate::bytes_order::lemma_lex_lt_transitive(
                        s[j - 1].name,
                        c.name,
                        s[0].name,
                    );
                }
            } else {
                assert(r[i] == s[i - 1] && r[j] == s[j - 1]);
            }
        }
    } else {
        lemma_insert_cluster_sorted(s.drop_first(), c);
        crate::bytes_order::lemma_lex_trichotomy(c.name, s[0].name);
        assert forall|i: int, j: int| 0 <= i < j < r.len() implies !crate::bytes_order::lex_lt(
            (#[trigger] r[j]).name,
            (#[trigger] r[i]).name,
        ) by {
            if i == 0 {
                assert(r[0] == s[0]);
                lemma_insert_cluster_elems(s.drop_first(), c, j - 1);
                assert(r[j] == insert_cluster(s.drop_first(), c)[j - 1]);
                if r[j] == c {
                    if crate::bytes_order::lex_lt(c.name, s[0].name) {
                    }
                } else {
                    let t = choose|t: int|
                        0 <= t < s.drop_first().len() && #[trigger] s.drop_first()[t] == r[j];
                    assert(s[t + 1] == r[j]);
                }
            } else {
                assert(r[i] == insert_cluster(s.drop_first(), c)[i - 1]);
                assert(r[j] == insert_cluster(s.drop_first(), c)[j - 1]);
            }
        }
    }
}

/// The insertion sort leaves the cluster list sorted by name.
proof fn lemma_sort_clusters_sorted(s: Seq<ClusterV>)
    ensures
        clusters_sorted(sort_clusters(s)),
    decreases s.len(),
{
    if s.len() > 0 {
        lemma_sort_clusters_sorted(s.drop_last());
        lemma_insert_cluster_sorted(sort_clusters(s.drop_last()), s.last());
    }
}

/// The emitted cluster list ascends by name: the stable order that makes
/// equal fleet states give byte-for-byte equal snapshots.
pub proof fn lemma_clusters_sorted_by_name(g: GeneratorV)
    ensures
        clusters_sorted(spec_clusters(g)),
{
    lemma_sort_clusters_sorted(clusters_upto(g.upstreams, g.state, g.upstreams.len() as int));
}

} // verus!
