//! The generator: fleet state in, clusters and a route configuration out.
//!
//! A pure transformation.  Every public function's result equals a spec
//! function of the generator's value, so two passes over the same fleet
//! state yield the same resources, field for field.  All orders are pinned:
//! clusters ascend by name, the endpoints of one upstream ascend by address,
//! model routes ascend by model id.

use vstd::prelude::*;
use crate::aggregate::{copy_bytes, copy_model, eps_of, spec_models_union};
use crate::bytes_order::{lex_cmp, lex_lt, ByteOrder};
use crate::json_text::json_list;
use crate::naming::spec_cluster_name;
use crate::resources::{
    hosts_max_direct,
    Cluster,
    ClusterV,
    ClusterWeight,
    ClusterWeightV,
    Route,
    RouteAction,
    RouteActionV,
    RouteConfiguration,
    RouteConfigurationV,
    RouteMatch,
    RouteMatchV,
    RouteV,
    VirtualHost,
    VirtualHostV,
};
use crate::schemas::{Endpoint, EndpointV, FleetState, FleetStateV, Model, ModelV};
use crate::upstream::{port_of, Upstream, UpstreamV};
use crate::PENDING_CAP;

verus! {

/// The generator's input: the configured upstreams, the fleet state (one
/// slot per upstream), and the fixed parts of the route configuration.
pub struct Generator {
    pub upstreams: Vec<Upstream>,
    pub state: FleetState,
    pub route_config_name: Vec<u8>,
    pub metadata_namespace: Vec<u8>,
    /// Route timeout handed to the data plane, nanoseconds.
    pub timeout: Option<u64>,
    /// Route idle timeout handed to the data plane, nanoseconds.
    pub idle_timeout: Option<u64>,
}

/// Mathematical value of a [`Generator`].
pub ghost struct GeneratorV {
    pub upstreams: Seq<UpstreamV>,
    pub state: FleetStateV,
    pub route_config_name: Seq<u8>,
    pub metadata_namespace: Seq<u8>,
    pub timeout: Option<u64>,
    pub idle_timeout: Option<u64>,
}

impl DeepView for Generator {
    type V = GeneratorV;

    open spec fn deep_view(&self) -> GeneratorV {
        GeneratorV {
            upstreams: self.upstreams.deep_view(),
            state: self.state.deep_view(),
            route_config_name: self.route_config_name.deep_view(),
            metadata_namespace: self.metadata_namespace.deep_view(),
            timeout: self.timeout,
            idle_timeout: self.idle_timeout,
        }
    }
}

impl Generator {
    /// The fleet state carries one slot per configured upstream.
    pub open spec fn wf(&self) -> bool {
        self.state@.len() == self.upstreams@.len()
    }
}

/// Inserts an endpoint into an address-sorted list, after any endpoint
/// whose address is not larger.
pub open spec fn insert_by_ip(s: Seq<EndpointV>, e: EndpointV) -> Seq<EndpointV>
    decreases s.len(),
{
    if s.len() == 0 {
        seq![e]
    } else if lex_lt(e.ip, s[0].ip) {
        seq![e] + s
    } else {
        seq![s[0]] + insert_by_ip(s.drop_first(), e)
    }
}

/// One upstream's endpoints in ascending address order, insertion-stable.
pub open spec fn sort_by_ip(s: Seq<EndpointV>) -> Seq<EndpointV>
    decreases s.len(),
{
    if s.len() == 0 {
        Seq::empty()
    } else {
        insert_by_ip(sort_by_ip(s.drop_last()), s.last())
    }
}

/// The cluster emitted for endpoint `e` of upstream `i`.
pub open spec fn cluster_of(i: nat, u: UpstreamV, e: EndpointV) -> ClusterV {
    ClusterV {
        name: spec_cluster_name(i, e.ip),
        ip: e.ip,
        port: port_of(u),
        http2_only: u.http2_only,
    }
}

/// The clusters of one upstream, its endpoints in ascending address order.
pub open spec fn row_clusters(i: nat, u: UpstreamV, eps: Seq<EndpointV>) -> Seq<ClusterV>
    decreases eps.len(),
{
    if eps.len() == 0 {
        Seq::empty()
    } else {
        row_clusters(i, u, eps.drop_last()) + seq![cluster_of(i, u, eps.last())]
    }
}

/// The clusters of the first `n` upstreams, before the final sort.
pub open spec fn clusters_upto(ups: Seq<UpstreamV>, state: FleetStateV, n: int) -> Seq<ClusterV>
    decreases n,
{
    if n <= 0 {
        Seq::empty()
    } else {
        clusters_upto(ups, state, n - 1) + row_clusters(
            (n - 1) as nat,
            ups[n - 1],
            sort_by_ip(eps_of(state, n - 1)),
        )
    }
}

/// Inserts a cluster into a name-sorted list, after any cluster whose name
/// is not larger.
pub open spec fn insert_cluster(s: Seq<ClusterV>, c: ClusterV) -> Seq<ClusterV>
    decreases s.len(),
{
    if s.len() == 0 {
        seq![c]
    } else if lex_lt(c.name, s[0].name) {
        seq![c] + s
    } else {
        seq![s[0]] + insert_cluster(s.drop_first(), c)
    }
}

/// A cluster list in ascending name order, insertion-stable.
pub open spec fn sort_clusters(s: Seq<ClusterV>) -> Seq<ClusterV>
    decreases s.len(),
{
    if s.len() == 0 {
        Seq::empty()
    } else {
        insert_cluster(sort_clusters(s.drop_last()), s.last())
    }
}

/// Everything `Generator::clusters` returns: one cluster per (upstream,
/// address) pair with endpoints this cycle, in ascending name order.
pub open spec fn spec_clusters(g: GeneratorV) -> Seq<ClusterV> {
    sort_clusters(clusters_upto(g.upstreams, g.state, g.upstreams.len() as int))
}

/// Placing an endpoint at the first position whose address is strictly
/// larger is what `insert_by_ip` does.
proof fn lemma_insert_by_ip_at(s: Seq<EndpointV>, e: EndpointV, k: int)
    requires
        0 <= k <= s.len(),
        forall|j: int| 0 <= j < k ==> !lex_lt(e.ip, (#[trigger] s[j]).ip),
        k < s.len() ==> lex_lt(e.ip, s[k].ip),
    ensures
        insert_by_ip(s, e) == s.take(k) + seq![e] + s.skip(k),
    decreases k,
{
    if k == 0 {
        assert(insert_by_ip(s, e) =~= s.take(0) + seq![e] + s.skip(0));
    } else {
        lemma_insert_by_ip_at(s.drop_first(), e, k - 1);
        assert(s.drop_first().take(k - 1) =~= s.take(k).drop_first());
        assert(s.drop_first().skip(k - 1) =~= s.skip(k));
        assert(seq![s[0]] + insert_by_ip(s.drop_first(), e) =~= s.take(k) + seq![e] + s.skip(k));
    }
}

/// Placing a cluster at the first position whose name is strictly larger is
/// what `insert_cluster` does.
proof fn lemma_insert_cluster_at(s: Seq<ClusterV>, c: ClusterV, k: int)
    requires
        0 <= k <= s.len(),
        forall|j: int| 0 <= j < k ==> !lex_lt(c.name, (#[trigger] s[j]).name),
        k < s.len() ==> lex_lt(c.name, s[k].name),
    ensures
        insert_cluster(s, c) == s.take(k) + seq![c] + s.skip(k),
    decreases k,
{
    if k == 0 {
        assert(insert_cluster(s, c) =~= s.take(0) + seq![c] + s.skip(0));
    } else {
        lemma_insert_cluster_at(s.drop_first(), c, k - 1);
        assert(s.drop_first().take(k - 1) =~= s.take(k).drop_first());
        assert(s.drop_first().skip(k - 1) =~= s.skip(k));
        assert(seq![s[0]] + insert_cluster(s.drop_first(), c) =~= s.take(k) + seq![c] + s.skip(k));
    }
}

/// Copies an endpoint record.
fn copy_endpoint(e: &Endpoint) -> (r: Endpoint)
    ensures
        r.deep_view() == e.deep_view(),
{
    let ip = copy_bytes(e.ip.as_slice());
    let mut models: Vec<Model> = Vec::new();
    let mut q: usize = 0;
    while q < e.models.len()
        invariant
            0 <= q <= e.models@.len(),
            models.deep_view() =~= e.models.deep_view().take(q as int),
        decreases e.models@.len() - q,
    {
        proof {
            assert(e.models.deep_view()[q as int] == e.models@[q as int].deep_view());
        }
        let m2 = copy_model(&e.models[q]);
        let ghost prev = models;
        models.push(m2);
        proof {
            crate::views::lemma_push_deep(models, prev, m2);
            assert(models.deep_view() =~= e.models.deep_view().take(q + 1));
        }
        q = q + 1;
    }
    let r = Endpoint { ip, models };
    proof {
        assert(r.ip.deep_view() =~= e.ip.deep_view());
        assert(r.models.deep_view() =~= e.models.deep_view());
    }
    r
}

/// Inserts an endpoint into the address-sorted accumulator.
fn insert_endpoint_exec(v: &mut Vec<Endpoint>, e: Endpoint)
    ensures
        final(v).deep_view() == insert_by_ip(old(v).deep_view(), e.deep_view()),
{
    let ghost s = v.deep_view();
    let ghost ev = e.deep_view();
    let mut k: usize = 0;
    while k < v.len()
        invariant
            0 <= k <= v@.len(),
            s == v.deep_view(),
            s == old(v).deep_view(),
            s.len() == v@.len(),
            ev == e.deep_view(),
            forall|j: int| 0 <= j < k ==> !lex_lt(ev.ip, (#[trigger] s[j]).ip),
        decreases v@.len() - k,
    {
        proof {
            assert(v.deep_view()[k as int] == v@[k as int].deep_view());
            assert(v@[k as int].ip.deep_view() =~= v@[k as int].ip@);
            assert(ev.ip =~= e.ip@);
        }
        match lex_cmp(e.ip.as_slice(), v[k].ip.as_slice()) {
            ByteOrder::Less => {
                proof {
                    lemma_insert_by_ip_at(s, ev, k as int);
                }
                v.insert(k, e);
                proof {
                    assert(v.deep_view() =~= s.take(k as int) + seq![ev] + s.skip(k as int));
                }
                return ;
            },
            _ => {},
        }
        k = k + 1;
    }
    proof {
        lemma_insert_by_ip_at(s, ev, s.len() as int);
    }
    v.push(e);
    proof {
        assert(v.deep_view() =~= s.take(s.len() as int) + seq![ev] + s.skip(s.len() as int));
    }
}

/// One upstream's endpoints of the latest cycle, in ascending address
/// order.
fn sorted_endpoints(eps: &Vec<Endpoint>) -> (r: Vec<Endpoint>)
    ensures
        r.deep_view() == sort_by_ip(eps.deep_view()),
{
    let ghost s = eps.deep_view();
    let mut out: Vec<Endpoint> = Vec::new();
    let mut q: usize = 0;
    while q < eps.len()
        invariant
            0 <= q <= eps@.len(),
            s == eps.deep_view(),
            s.len() == eps@.len(),
            out.deep_view() == sort_by_ip(s.take(q as int)),
        decreases eps@.len() - q,
    {
        proof {
            assert(s.take(q + 1).drop_last() =~= s.take(q as int));
            assert(s.take(q + 1).last() == s[q as int]);
            assert(eps.deep_view()[q as int] == eps@[q as int].deep_view());
        }
        insert_endpoint_exec(&mut out, copy_endpoint(&eps[q]));
        q = q + 1;
    }
    proof {
        assert(s.take(s.len() as int) =~= s);
    }
    out
}

/// Inserts a cluster into the name-sorted accumulator.
fn insert_cluster_exec(v: &mut Vec<Cluster>, c: Cluster)
    ensures
        final(v).deep_view() == insert_cluster(old(v).deep_view(), c.deep_view()),
{
    let ghost s = v.deep_view();
    let ghost cv = c.deep_view();
    let mut k: usize = 0;
    while k < v.len()
        invariant
            0 <= k <= v@.len(),
            s == v.deep_view(),
            s == old(v).deep_view(),
            s.len() == v@.len(),
            cv == c.deep_view(),
            forall|j: int| 0 <= j < k ==> !lex_lt(cv.name, (#[trigger] s[j]).name),
        decreases v@.len() - k,
    {
        proof {
            assert(v.deep_view()[k as int] == v@[k as int].deep_view());
            assert(v@[k as int].name.deep_view() =~= v@[k as int].name@);
            assert(cv.name =~= c.name@);
        }
        match lex_cmp(c.name.as_slice(), v[k].name.as_slice()) {
            ByteOrder::Less => {
                proof {
                    lemma_insert_cluster_at(s, cv, k as int);
                }
                v.insert(k, c);
                proof {
                    assert(v.deep_view() =~= s.take(k as int) + seq![cv] + s.skip(k as int));
                }
                return ;
            },
            _ => {},
        }
        k = k + 1;
    }
    proof {
        lemma_insert_cluster_at(s, cv, s.len() as int);
    }
    v.push(c);
    proof {
        assert(v.deep_view() =~= s.take(s.len() as int) + seq![cv] + s.skip(s.len() as int));
    }
}

impl Generator {
    /// The name of the cluster for endpoint `ip` of upstream `i`: a
    /// function of the pair and of nothing else.
    pub fn cluster_name(i: u64, ip: &[u8]) -> (r: Vec<u8>)
        ensures
            r@ == spec_cluster_name(i as nat, ip@),
    {
        crate::naming::cluster_name(i, ip)
    }

    /// Builds the cluster for endpoint `ip` of upstream `i`: statically
    /// addressed at `(ip, configured port or 80)`, HTTP/2-pinned when the
    /// upstream is.
    pub fn cluster(i: u64, upstream: &Upstream, ip: &[u8]) -> (r: Cluster)
        ensures
            r.deep_view() == cluster_of(
                i as nat,
                upstream.deep_view(),
                EndpointV { ip: ip@, models: Seq::empty() },
            ),
            r.deep_view().name == spec_cluster_name(i as nat, ip@),
            r.deep_view().ip == ip@,
            r.deep_view().port == port_of(upstream.deep_view()),
            r.deep_view().http2_only == upstream.http2_only,
    {
        let name = Self::cluster_name(i, ip);
        let r = Cluster {
            name,
            ip: copy_bytes(ip),
            port: upstream.effective_port(),
            http2_only: upstream.http2_only,
        };
        proof {
            assert(r.name.deep_view() =~= r.name@);
            assert(r.ip.deep_view() =~= ip@);
        }
        r
    }

    /// The emitted cluster list: one cluster per (upstream, address) pair
    /// present in the fleet state, ascending by name.
    pub fn clusters(&self) -> (r: Vec<Cluster>)
        requires
            self.wf(),
        ensures
            r.deep_view() == spec_clusters(self.deep_view()),
    {
        let ghost ups = self.upstreams.deep_view();
        let ghost st = self.state.deep_view();
        let mut rows: Vec<Cluster> = Vec::new();
        let mut i: usize = 0;
        while i < self.upstreams.len()
            invariant
                0 <= i <= self.upstreams@.len(),
                ups == self.upstreams.deep_view(),
                st == self.state.deep_view(),
                ups.len() == self.upstreams@.len(),
                st.len() == ups.len(),
                self.state@.len() == st.len(),
                rows.deep_view() == clusters_upto(ups, st, i as int),
            decreases self.upstreams@.len() - i,
        {
            let ghost eps_sorted = sort_by_ip(eps_of(st, i as int));
            proof {
                assert(self.state.deep_view()[i as int] == self.state@[i as int].deep_view());
                assert(self.upstreams.deep_view()[i as int]
                    == self.upstreams@[i as int].deep_view());
            }
            match &self.state[i] {
                Some(endpoints) => {
                    let sorted = sorted_endpoints(endpoints);
                    let ghost sv = sorted.deep_view();
                    proof {
                        assert(sv == eps_sorted);
                    }
                    let mut e: usize = 0;
                    while e < sorted.len()
                        invariant
                            0 <= e <= sorted@.len(),
                            sv == sorted.deep_view(),
                            sv.len() == sorted@.len(),
                            ups == self.upstreams.deep_view(),
                            i < self.upstreams@.len(),
                            ups.len() == self.upstreams@.len(),
                            rows.deep_view() == clusters_upto(ups, st, i as int) + row_clusters(
                                i as nat,
                                ups[i as int],
                                sv.take(e as int),
                            ),
                        decreases sorted@.len() - e,
                    {
                        proof {
                            assert(sv.take(e + 1).drop_last() =~= sv.take(e as int));
                            assert(sv.take(e + 1).last() == sv[e as int]);
                            assert(sorted.deep_view()[e as int] == sorted@[e as int].deep_view());
                            assert(sorted@[e as int].ip.deep_view() =~= sorted@[e as int].ip@);
                        }
                        proof {
                            assert(self.upstreams.deep_view()[i as int]
                                == self.upstreams@[i as int].deep_view());
                        }
                        let c = Self::cluster(
                            i as u64,
                            &self.upstreams[i],
                            sorted[e].ip.as_slice(),
                        );
                        proof {
                            assert(c.deep_view() == cluster_of(
                                i as nat,
                                ups[i as int],
                                sv[e as int],
                            ));
                        }
                        let ghost prevrows = rows;
                        rows.push(c);
                        proof {
                            crate::views::lemma_push_deep(rows, prevrows, c);
                            assert(rows.deep_view() =~= clusters_upto(ups, st, i as int)
                                + row_clusters(i as nat, ups[i as int], sv.take(e + 1)));
                        }
                        e = e + 1;
                    }
                    proof {
                        assert(sv.take(sv.len() as int) =~= sv);
                    }
                },
                None => {
                    proof {
                        assert(eps_sorted =~= Seq::<EndpointV>::empty());
                        assert(rows.deep_view() =~= clusters_upto(ups, st, i + 1));
                    }
                },
            }
            i = i + 1;
        }
        let ghost rowsv = rows.deep_view();
        let mut out: Vec<Cluster> = Vec::new();
        let mut j: usize = 0;
        while j < rows.len()
            invariant
                0 <= j <= rows@.len(),
                rowsv == rows.deep_view(),
                rowsv.len() == rows@.len(),
                out.deep_view() == sort_clusters(rowsv.take(j as int)),
            decreases rows@.len() - j,
        {
            proof {
                assert(rowsv.take(j + 1).drop_last() =~= rowsv.take(j as int));
                assert(rowsv.take(j + 1).last() == rowsv[j as int]);
                assert(rows.deep_view()[j as int] == rows@[j as int].deep_view());
            }
            let c = Cluster {
                name: copy_bytes(rows[j].name.as_slice()),
                ip: copy_bytes(rows[j].ip.as_slice()),
                port: rows[j].port,
                http2_only: rows[j].http2_only,
            };
            proof {
                assert(c.name.deep_view() =~= rows@[j as int].name.deep_view());
                assert(c.ip.deep_view() =~= rows@[j as int].ip.deep_view());
                assert(c.deep_view() == rowsv[j as int]);
            }
            insert_cluster_exec(&mut out, c);
            j = j + 1;
        }
        proof {
            assert(rowsv.take(rowsv.len() as int) =~= rowsv);
        }
        out
    }
}


/// A pending count clamped to the trusted bound.
pub open spec fn cap_pending(p: u64) -> u64 {
    if p > PENDING_CAP {
        PENDING_CAP
    } else {
        p
    }
}

/// The pending count of a model record, with a missing value read as zero.
pub open spec fn pending_or_zero(m: ModelV) -> u64 {
    match m.pending {
        Some(p) => p,
        None => 0,
    }
}

/// The pending samples an endpoint's model list contributes for one model
/// id, in list order.
pub open spec fn pendings_for(ms: Seq<ModelV>, id: Seq<u8>) -> Seq<u64>
    decreases ms.len(),
{
    if ms.len() == 0 {
        Seq::empty()
    } else {
        pendings_for(ms.drop_last(), id) + (if ms.last().id == id {
            seq![pending_or_zero(ms.last())]
        } else {
            Seq::empty()
        })
    }
}

/// One endpoint that serves the model of a route: its upstream index, its
/// address, and its pending samples for that model.
pub ghost struct EntryV {
    pub i: u64,
    pub ip: Seq<u8>,
    pub pendings: Seq<u64>,
}

/// Executable form of an [`EntryV`].
pub struct RouteEntry {
    pub i: u64,
    pub ip: Vec<u8>,
    pub pendings: Vec<u64>,
}

impl DeepView for RouteEntry {
    type V = EntryV;

    open spec fn deep_view(&self) -> EntryV {
        EntryV { i: self.i, ip: self.ip.deep_view(), pendings: self.pendings.deep_view() }
    }
}

/// The serving entries among one upstream's (address-sorted) endpoints.
pub open spec fn entries_of_eps(i: u64, eps: Seq<EndpointV>, id: Seq<u8>) -> Seq<EntryV>
    decreases eps.len(),
{
    if eps.len() == 0 {
        Seq::empty()
    } else {
        entries_of_eps(i, eps.drop_last(), id) + (if pendings_for(eps.last().models, id).len()
            > 0 {
            seq![EntryV { i, ip: eps.last().ip, pendings: pendings_for(eps.last().models, id) }]
        } else {
            Seq::empty()
        })
    }
}

/// The serving entries of the first `n` upstreams.
pub open spec fn entries_upto(state: FleetStateV, id: Seq<u8>, n: int) -> Seq<EntryV>
    decreases n,
{
    if n <= 0 {
        Seq::empty()
    } else {
        entries_upto(state, id, n - 1) + entries_of_eps(
            (n - 1) as u64,
            sort_by_ip(eps_of(state, n - 1)),
            id,
        )
    }
}

/// Every endpoint serving the model, ascending by (upstream index,
/// address).
pub open spec fn spec_entries(state: FleetStateV, id: Seq<u8>) -> Seq<EntryV> {
    entries_upto(state, id, state.len() as int)
}

/// The larger of two counters.
pub open spec fn max2(a: u64, b: u64) -> u64 {
    if a >= b {
        a
    } else {
        b
    }
}

/// The largest clamped pending sample of one entry.
pub open spec fn max_capped(ps: Seq<u64>) -> u64
    decreases ps.len(),
{
    if ps.len() == 0 {
        0
    } else {
        max2(max_capped(ps.drop_last()), cap_pending(ps.last()))
    }
}

/// The largest clamped pending sample across all entries of a route.
pub open spec fn pmax_of(es: Seq<EntryV>) -> u64
    decreases es.len(),
{
    if es.len() == 0 {
        0
    } else {
        max2(pmax_of(es.drop_last()), max_capped(es.last().pendings))
    }
}

/// The inverse-load weight of one entry: the sum, over its pending samples
/// `p`, of `(1 + P_max) / (1 + p)`, samples clamped to the trusted bound.
/// Equal loads give every endpoint weight one; an idle endpoint is weighted
/// up in proportion to the most loaded one.
pub open spec fn weight_sum(ps: Seq<u64>, pmax: u64) -> nat
    decreases ps.len(),
{
    if ps.len() == 0 {
        0
    } else {
        weight_sum(ps.drop_last(), pmax) + (1 + pmax) as nat / (1 + cap_pending(
            ps.last(),
        )) as nat
    }
}

/// A mathematical count squeezed into a `u64`.
pub open spec fn sat64(n: nat) -> u64 {
    if n > u64::MAX {
        u64::MAX
    } else {
        n as u64
    }
}

/// The weighted-cluster entries of a model route.
pub open spec fn weighted_of(es: Seq<EntryV>, pmax: u64) -> Seq<ClusterWeightV>
    decreases es.len(),
{
    if es.len() == 0 {
        Seq::empty()
    } else {
        weighted_of(es.drop_last(), pmax) + seq![
            ClusterWeightV {
                name: spec_cluster_name(es.last().i as nat, es.last().ip),
                weight: sat64(weight_sum(es.last().pendings, pmax)),
            },
        ]
    }
}

/// `/v1/models`
pub open spec fn lit_models_path() -> Seq<u8> {
    seq![47u8, 118u8, 49u8, 47u8, 109u8, 111u8, 100u8, 101u8, 108u8, 115u8]
}

/// `local_service`
pub open spec fn lit_local_service() -> Seq<u8> {
    seq![108u8, 111u8, 99u8, 97u8, 108u8, 95u8, 115u8, 101u8, 114u8, 118u8, 105u8, 99u8, 101u8]
}

/// The list-models route: an exact-path GET match answered in place with
/// the fleet-wide model list.
pub open spec fn spec_route_list_models(state: FleetStateV) -> RouteV {
    RouteV {
        rmatch: RouteMatchV::PathGet { path: lit_models_path() },
        action: RouteActionV::DirectResponse {
            status: 200,
            body: json_list(spec_models_union(state)),
        },
    }
}

/// The route of one model id: matched on dynamic metadata, forwarded to
/// every serving endpoint's cluster with inverse-load weights.
pub open spec fn spec_route_model(g: GeneratorV, id: Seq<u8>) -> RouteV {
    let es = spec_entries(g.state, id);
    RouteV {
        rmatch: RouteMatchV::MetaModel {
            prefix: seq![47u8],
            namespace: g.metadata_namespace,
            model: id,
        },
        action: RouteActionV::WeightedClusters {
            clusters: weighted_of(es, pmax_of(es)),
            timeout: g.timeout,
            idle_timeout: g.idle_timeout,
        },
    }
}

/// One model route per model of the union, in the union's (ascending id)
/// order.
pub open spec fn model_routes(g: GeneratorV, ms: Seq<ModelV>) -> Seq<RouteV>
    decreases ms.len(),
{
    if ms.len() == 0 {
        Seq::empty()
    } else {
        model_routes(g, ms.drop_last()) + seq![spec_route_model(g, ms.last().id)]
    }
}

/// The single virtual host: the list-models route first, then one route per
/// model id ascending.
pub open spec fn spec_virtual_host(g: GeneratorV) -> VirtualHostV {
    VirtualHostV {
        name: lit_local_service(),
        domains: seq![seq![42u8]],
        routes: seq![spec_route_list_models(g.state)] + model_routes(
            g,
            spec_models_union(g.state),
        ),
    }
}

/// The full route configuration, its inline-body bound patched to the
/// largest direct-response body it carries.
pub open spec fn spec_route_configuration(g: GeneratorV) -> RouteConfigurationV {
    RouteConfigurationV {
        name: g.route_config_name,
        virtual_hosts: seq![spec_virtual_host(g)],
        max_direct_response_body_size_bytes: match hosts_max_direct(seq![spec_virtual_host(g)]) {
            Some(n) => Some(n as u64),
            None => None,
        },
    }
}

/// No clamped sample exceeds the bound, so no route's `P_max` does.
pub proof fn lemma_max_capped_le(ps: Seq<u64>)
    ensures
        max_capped(ps) <= PENDING_CAP,
    decreases ps.len(),
{
    if ps.len() > 0 {
        lemma_max_capped_le(ps.drop_last());
    }
}

/// `P_max` stays within the trusted bound.
pub proof fn lemma_pmax_le(es: Seq<EntryV>)
    ensures
        pmax_of(es) <= PENDING_CAP,
    decreases es.len(),
{
    if es.len() > 0 {
        lemma_pmax_le(es.drop_last());
        lemma_max_capped_le(es.last().pendings);
    }
}

/// Each summand of a weight is at most `1 + P_max`, so the whole weight is
/// bounded by the sample count times `1 + P_max`.
pub proof fn lemma_weight_sum_bound(ps: Seq<u64>, pmax: u64)
    ensures
        weight_sum(ps, pmax) <= ps.len() * ((pmax as nat) + 1),
    decreases ps.len(),
{
    if ps.len() > 0 {
        lemma_weight_sum_bound(ps.drop_last(), pmax);
        assert((1 + pmax) as nat / (1 + cap_pending(ps.last())) as nat <= (pmax as nat) + 1) by (
        nonlinear_arith);
        assert(ps.drop_last().len() == ps.len() - 1);
        assert(ps.len() * ((pmax as nat) + 1) == (ps.len() - 1) * ((pmax as nat) + 1) + ((
        pmax as nat) + 1)) by (nonlinear_arith)
            requires
                ps.len() >= 1,
        ;
    }
}

impl Generator {
    /// The pending samples of one endpoint for one model id.
    fn pendings_of(models: &Vec<Model>, model_id: &[u8]) -> (r: Vec<u64>)
        ensures
            r@ == pendings_for(models.deep_view(), model_id@),
    {
        let ghost ms = models.deep_view();
        let mut ps: Vec<u64> = Vec::new();
        let mut q: usize = 0;
        while q < models.len()
            invariant
                0 <= q <= models@.len(),
                ms == models.deep_view(),
                ms.len() == models@.len(),
                ps@ == pendings_for(ms.take(q as int), model_id@),
            decreases models@.len() - q,
        {
            proof {
                assert(ms.take(q + 1).drop_last() =~= ms.take(q as int));
                assert(ms.take(q + 1).last() == ms[q as int]);
                assert(models.deep_view()[q as int] == models@[q as int].deep_view());
                assert(models@[q as int].id.deep_view() =~= models@[q as int].id@);
            }
            if crate::resources::bytes_eq(models[q].id.as_slice(), model_id) {
                let p = match models[q].pending {
                    Some(p) => p,
                    None => 0,
                };
                ps.push(p);
                proof {
                    assert(ps@ =~= pendings_for(ms.take(q + 1), model_id@));
                }
            } else {
                proof {
                    assert(ps@ =~= pendings_for(ms.take(q + 1), model_id@));
                }
            }
            q = q + 1;
        }
        proof {
            assert(ms.take(ms.len() as int) =~= ms);
        }
        ps
    }

    /// Every endpoint serving `model_id`, ascending by (upstream index,
    /// address), each with its pending samples.
    fn entries(&self, model_id: &[u8]) -> (r: Vec<RouteEntry>)
        requires
            self.wf(),
        ensures
            r.deep_view() == spec_entries(self.state.deep_view(), model_id@),
    {
        let ghost st = self.state.deep_view();
        let mut entries: Vec<RouteEntry> = Vec::new();
        let mut i: usize = 0;
        while i < self.state.len()
            invariant
                0 <= i <= self.state@.len(),
                st == self.state.deep_view(),
                st.len() == self.state@.len(),
                entries.deep_view() == entries_upto(st, model_id@, i as int),
            decreases self.state@.len() - i,
        {
            let ghost eps_sorted = sort_by_ip(eps_of(st, i as int));
            proof {
                assert(self.state.deep_view()[i as int] == self.state@[i as int].deep_view());
            }
            match &self.state[i] {
                Some(endpoints) => {
                    let sorted = sorted_endpoints(endpoints);
                    let ghost sv = sorted.deep_view();
                    proof {
                        assert(sv == eps_sorted);
                    }
                    let mut e: usize = 0;
                    while e < sorted.len()
                        invariant
                            0 <= e <= sorted@.len(),
                            sv == sorted.deep_view(),
                            sv.len() == sorted@.len(),
                            entries.deep_view() == entries_upto(st, model_id@, i as int)
                                + entries_of_eps(i as u64, sv.take(e as int), model_id@),
                            i < self.state@.len(),
                        decreases sorted@.len() - e,
                    {
                        proof {
                            assert(sv.take(e + 1).drop_last() =~= sv.take(e as int));
                            assert(sv.take(e + 1).last() == sv[e as int]);
                            assert(sorted.deep_view()[e as int] == sorted@[e as int].deep_view());
                        }
                        let ps = Self::pendings_of(&sorted[e].models, model_id);
                        if ps.len() > 0 {
                            let entry = RouteEntry {
                                i: i as u64,
                                ip: copy_bytes(sorted[e].ip.as_slice()),
                                pendings: ps,
                            };
                            proof {
                                assert(entry.ip.deep_view() =~= sv[e as int].ip);
                                assert(entry.pendings.deep_view() =~= entry.pendings@);
                                assert(entry.deep_view() == EntryV {
                                    i: i as u64,
                                    ip: sv[e as int].ip,
                                    pendings: pendings_for(sv[e as int].models, model_id@),
                                });
                            }
                            let ghost preve = entries;
                            entries.push(entry);
                            proof {
                                crate::views::lemma_push_deep(entries, preve, entry);
                                assert(entries.deep_view() =~= entries_upto(st, model_id@, i as int)
                                    + entries_of_eps(i as u64, sv.take(e + 1), model_id@));
                            }
                        } else {
                            proof {
                                assert(entries.deep_view() =~= entries_upto(st, model_id@, i as int)
                                    + entries_of_eps(i as u64, sv.take(e + 1), model_id@));
                            }
                        }
                        e = e + 1;
                    }
                    proof {
                        assert(sv.take(sv.len() as int) =~= sv);
                    }
                },
                None => {
                    proof {
                        assert(eps_sorted =~= Seq::<EndpointV>::empty());
                        assert(entries.deep_view() =~= entries_upto(st, model_id@, i + 1));
                    }
                },
            }
            i = i + 1;
        }
        entries
    }

    /// The largest clamped pending sample across these entries.
    fn entries_pmax(entries: &Vec<RouteEntry>) -> (r: u64)
        ensures
            r == pmax_of(entries.deep_view()),
            r <= PENDING_CAP,
    {
        let ghost ev = entries.deep_view();
        let mut pmax: u64 = 0;
        let mut k: usize = 0;
        while k < entries.len()
            invariant
                0 <= k <= entries@.len(),
                ev == entries.deep_view(),
                ev.len() == entries@.len(),
                pmax == pmax_of(ev.take(k as int)),
            decreases entries@.len() - k,
        {
            proof {
                assert(ev.take(k + 1).drop_last() =~= ev.take(k as int));
                assert(ev.take(k + 1).last() == ev[k as int]);
                assert(entries.deep_view()[k as int] == entries@[k as int].deep_view());
            }
            let ps = &entries[k].pendings;
            let ghost psv = ps.deep_view();
            proof {
                assert(psv =~= ps@);
            }
            let mut q: usize = 0;
            while q < ps.len()
                invariant
                    0 <= q <= ps@.len(),
                    psv == ps@,
                    pmax == max2(pmax_of(ev.take(k as int)), max_capped(psv.take(q as int))),
                decreases ps@.len() - q,
            {
                proof {
                    assert(psv.take(q + 1).drop_last() =~= psv.take(q as int));
                    assert(psv.take(q + 1).last() == psv[q as int]);
                }
                let p = ps[q];
                let c = if p > PENDING_CAP {
                    PENDING_CAP
                } else {
                    p
                };
                if c > pmax {
                    pmax = c;
                }
                q = q + 1;
            }
            proof {
                assert(psv.take(psv.len() as int) =~= psv);
                assert(ev[k as int].pendings == psv);
            }
            k = k + 1;
        }
        proof {
            assert(ev.take(ev.len() as int) =~= ev);
            lemma_pmax_le(ev);
        }
        pmax
    }

    /// The saturated inverse-load weight of one entry.
    fn entry_weight(ps: &Vec<u64>, pmax: u64) -> (r: u64)
        requires
            pmax <= PENDING_CAP,
        ensures
            r == sat64(weight_sum(ps@, pmax)),
    {
        let ghost psv = ps@;
        let mut acc: u128 = 0;
        let mut q: usize = 0;
        while q < ps.len()
            invariant
                0 <= q <= psv.len(),
                psv == ps@,
                pmax <= PENDING_CAP,
                acc == weight_sum(psv.take(q as int), pmax),
                acc <= (q as nat) * ((pmax as nat) + 1),
            decreases psv.len() - q,
        {
            proof {
                assert(psv.take(q + 1).drop_last() =~= psv.take(q as int));
                assert(psv.take(q + 1).last() == psv[q as int]);
            }
            let p = ps[q];
            let c = if p > PENDING_CAP {
                PENDING_CAP
            } else {
                p
            };
            let term: u64 = (1 + pmax) / (1 + c);
            proof {
                assert(term as nat == (1 + pmax) as nat / (1 + cap_pending(psv[q as int])) as nat);
                assert(term <= pmax + 1) by (nonlinear_arith)
                    requires
                        term as nat == (1 + pmax) as nat / (1 + c) as nat,
                        c >= 0,
                ;
                assert((q as nat) * ((pmax as nat) + 1) + ((pmax as nat) + 1) == ((q + 1) as nat)
                    * ((pmax as nat) + 1)) by (nonlinear_arith);
                assert(((q + 1) as nat) * ((pmax as nat) + 1) <= (usize::MAX as nat) * ((
                PENDING_CAP as nat) + 1)) by (nonlinear_arith)
                    requires
                        q + 1 <= usize::MAX,
                        pmax <= PENDING_CAP,
                ;
                assert(acc + term <= ((q + 1) as nat) * ((pmax as nat) + 1));
                assert((usize::MAX as nat) * ((PENDING_CAP as nat) + 1) <= u128::MAX) by (
                nonlinear_arith);
            }
            acc = acc + (term as u128);
            q = q + 1;
        }
        proof {
            assert(psv.take(psv.len() as int) =~= psv);
        }
        if acc > (u64::MAX as u128) {
            u64::MAX
        } else {
            acc as u64
        }
    }

    /// The route forwarding one model's traffic, weighted by inverse load.
    pub fn route_model(&self, model_id: &[u8]) -> (r: Route)
        requires
            self.wf(),
        ensures
            r.deep_view() == spec_route_model(self.deep_view(), model_id@),
    {
        let entries = self.entries(model_id);
        let ghost ev = entries.deep_view();
        let pmax = Self::entries_pmax(&entries);
        let mut cws: Vec<ClusterWeight> = Vec::new();
        let mut k: usize = 0;
        while k < entries.len()
            invariant
                0 <= k <= entries@.len(),
                ev == entries.deep_view(),
                ev.len() == entries@.len(),
                pmax == pmax_of(ev),
                pmax <= PENDING_CAP,
                cws.deep_view() == weighted_of(ev.take(k as int), pmax),
            decreases entries@.len() - k,
        {
            proof {
                assert(ev.take(k + 1).drop_last() =~= ev.take(k as int));
                assert(ev.take(k + 1).last() == ev[k as int]);
                assert(entries.deep_view()[k as int] == entries@[k as int].deep_view());
                assert(entries@[k as int].ip.deep_view() =~= entries@[k as int].ip@);
                assert(entries@[k as int].pendings.deep_view() =~= entries@[k as int].pendings@);
            }
            let name = crate::naming::cluster_name(entries[k].i, entries[k].ip.as_slice());
            let weight = Self::entry_weight(&entries[k].pendings, pmax);
            let cw = ClusterWeight { name, weight };
            proof {
                assert(cw.name.deep_view() =~= cw.name@);
                assert(cw.deep_view() == ClusterWeightV {
                    name: spec_cluster_name(ev[k as int].i as nat, ev[k as int].ip),
                    weight: sat64(weight_sum(ev[k as int].pendings, pmax)),
                });
            }
            let ghost prevc = cws;
            cws.push(cw);
            proof {
                crate::views::lemma_push_deep(cws, prevc, cw);
                assert(cws.deep_view() =~= weighted_of(ev.take(k + 1), pmax));
            }
            k = k + 1;
        }
        proof {
            assert(ev.take(ev.len() as int) =~= ev);
        }
        let mut prefix: Vec<u8> = Vec::new();
        prefix.push(47);
        let namespace = copy_bytes(self.metadata_namespace.as_slice());
        let model = copy_bytes(model_id);
        let r = Route {
            rmatch: RouteMatch::MetaModel { prefix, namespace, model },
            action: RouteAction::WeightedClusters {
                clusters: cws,
                timeout: self.timeout,
                idle_timeout: self.idle_timeout,
            },
        };
        proof {
            assert(r.deep_view().rmatch == RouteMatchV::MetaModel {
                prefix: seq![47u8],
                namespace: self.metadata_namespace.deep_view(),
                model: model_id@,
            }) by {
                match &r.rmatch {
                    RouteMatch::MetaModel { prefix: p2, namespace: n2, model: m2 } => {
                        assert(p2.deep_view() =~= seq![47u8]);
                        assert(n2.deep_view() =~= self.metadata_namespace.deep_view());
                        assert(m2.deep_view() =~= model_id@);
                    },
                    _ => {},
                }
            }
        }
        r
    }

    /// The list-models route: answers `GET /v1/models` in place with the
    /// fleet-wide model list as JSON.
    pub fn route_list_models(&self) -> (r: Route)
        ensures
            r.deep_view() == spec_route_list_models(self.state.deep_view()),
    {
        let union = crate::aggregate::models_union(&self.state);
        let body = crate::json_text::encode_list_body(&union);
        let mut path: Vec<u8> = Vec::new();
        path.push(47);
        path.push(118);
        path.push(49);
        path.push(47);
        path.push(109);
        path.push(111);
        path.push(100);
        path.push(101);
        path.push(108);
        path.push(115);
        let r = Route {
            rmatch: RouteMatch::PathGet { path },
            action: RouteAction::DirectResponse { status: 200, body },
        };
        proof {
            match &r.rmatch {
                RouteMatch::PathGet { path: p2 } => {
                    assert(p2.deep_view() =~= lit_models_path());
                },
                _ => {},
            }
            match &r.action {
                RouteAction::DirectResponse { status: _, body: b2 } => {
                    assert(b2.deep_view() =~= json_list(spec_models_union(self.state.deep_view())));
                },
                _ => {},
            }
        }
        r
    }

    /// The virtual host `local_service`, matching every domain: the
    /// list-models route first, then one route per model id ascending.
    pub fn virtual_host(&self) -> (r: VirtualHost)
        requires
            self.wf(),
        ensures
            r.deep_view() == spec_virtual_host(self.deep_view()),
    {
        let ghost g = self.deep_view();
        let union = crate::aggregate::models_union(&self.state);
        let ghost uv = union.deep_view();
        let mut routes: Vec<Route> = Vec::new();
        routes.push(self.route_list_models());
        proof {
            assert(routes.deep_view() =~= seq![spec_route_list_models(g.state)] + model_routes(
                g,
                uv.take(0),
            ));
        }
        let mut k: usize = 0;
        while k < union.len()
            invariant
                0 <= k <= union@.len(),
                g == self.deep_view(),
                self.wf(),
                uv == union.deep_view(),
                uv.len() == union@.len(),
                routes.deep_view() == seq![spec_route_list_models(g.state)] + model_routes(
                    g,
                    uv.take(k as int),
                ),
            decreases union@.len() - k,
        {
            proof {
                assert(uv.take(k + 1).drop_last() =~= uv.take(k as int));
                assert(uv.take(k + 1).last() == uv[k as int]);
                assert(union.deep_view()[k as int] == union@[k as int].deep_view());
                assert(union@[k as int].id.deep_view() =~= union@[k as int].id@);
            }
            let route = self.route_model(union[k].id.as_slice());
            let ghost prevr = routes;
            routes.push(route);
            proof {
                crate::views::lemma_push_deep(routes, prevr, route);
                assert(routes.deep_view() =~= seq![spec_route_list_models(g.state)] + model_routes(
                    g,
                    uv.take(k + 1),
                ));
            }
            k = k + 1;
        }
        proof {
            assert(uv.take(uv.len() as int) =~= uv);
        }
        let mut name: Vec<u8> = Vec::new();
        name.push(108);
        name.push(111);
        name.push(99);
        name.push(97);
        name.push(108);
        name.push(95);
        name.push(115);
        name.push(101);
        name.push(114);
        name.push(118);
        name.push(105);
        name.push(99);
        name.push(101);
        let mut star: Vec<u8> = Vec::new();
        star.push(42);
        let mut domains: Vec<Vec<u8>> = Vec::new();
        domains.push(star);
        let r = VirtualHost { name, domains, routes };
        proof {
            assert(r.name.deep_view() =~= lit_local_service());
            assert(r.domains.deep_view() =~~= seq![seq![42u8]]);
        }
        r
    }

    /// The route configuration the generator emits, its inline-body bound
    /// patched.
    pub fn route_configuration(&self) -> (r: RouteConfiguration)
        requires
            self.wf(),
        ensures
            r.deep_view() == spec_route_configuration(self.deep_view()),
    {
        let vh = self.virtual_host();
        let mut virtual_hosts: Vec<VirtualHost> = Vec::new();
        virtual_hosts.push(vh);
        let mut r = RouteConfiguration {
            name: copy_bytes(self.route_config_name.as_slice()),
            virtual_hosts,
            max_direct_response_body_size_bytes: None,
        };
        proof {
            assert(r.virtual_hosts.deep_view() =~= seq![spec_virtual_host(self.deep_view())]);
            assert(r.name.deep_view() =~= self.route_config_name.deep_view());
        }
        crate::resources::patch_max_direct_response_body_size_bytes(&mut r);
        r
    }
}

} // verus!
