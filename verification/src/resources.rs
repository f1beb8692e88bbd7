//! The routing resources the control plane emits.
//!
//! These types carry exactly what the fabric decides: cluster names and
//! addresses, route matches and actions, weights.  The protobuf envelopes
//! the data plane consumes are produced outside the library, one field per
//! field, by the I/O shell.

use vstd::prelude::*;
use crate::bytes_order::{lex_cmp, ByteOrder};

verus! {

broadcast use crate::views::lemma_bytes_deep_view;

/// One entry of a weighted-cluster route action.
pub struct ClusterWeight {
    pub name: Vec<u8>,
    pub weight: u64,
}

/// Mathematical value of a [`ClusterWeight`].
pub ghost struct ClusterWeightV {
    pub name: Seq<u8>,
    pub weight: u64,
}

impl DeepView for ClusterWeight {
    type V = ClusterWeightV;

    open spec fn deep_view(&self) -> ClusterWeightV {
        ClusterWeightV { name: self.name.deep_view(), weight: self.weight }
    }
}

/// What a route matches on.
pub enum RouteMatch {
    /// Exact path, and `:method` equal to `GET`.
    PathGet { path: Vec<u8> },
    /// Path prefix, and dynamic metadata `namespace.model` equal to `model`.
    MetaModel { prefix: Vec<u8>, namespace: Vec<u8>, model: Vec<u8> },
    /// Path prefix alone.
    Prefix { prefix: Vec<u8> },
}

/// Mathematical value of a [`RouteMatch`].
pub ghost enum RouteMatchV {
    PathGet { path: Seq<u8> },
    MetaModel { prefix: Seq<u8>, namespace: Seq<u8>, model: Seq<u8> },
    Prefix { prefix: Seq<u8> },
}

impl DeepView for RouteMatch {
    type V = RouteMatchV;

    open spec fn deep_view(&self) -> RouteMatchV {
        match self {
            RouteMatch::PathGet { path } => RouteMatchV::PathGet { path: path.deep_view() },
            RouteMatch::MetaModel { prefix, namespace, model } => RouteMatchV::MetaModel {
                prefix: prefix.deep_view(),
                namespace: namespace.deep_view(),
                model: model.deep_view(),
            },
            RouteMatch::Prefix { prefix } => RouteMatchV::Prefix { prefix: prefix.deep_view() },
        }
    }
}

/// What a matched route does.
pub enum RouteAction {
    /// Answer in place with this status and body.
    DirectResponse { status: u16, body: Vec<u8> },
    /// Forward to one of several clusters, by weight.
    WeightedClusters { clusters: Vec<ClusterWeight>, timeout: Option<u64>, idle_timeout: Option<
        u64,
    > },
    /// Forward to one fixed cluster.
    Cluster { name: Vec<u8>, timeout: Option<u64>, idle_timeout: Option<u64> },
}

/// Mathematical value of a [`RouteAction`].
pub ghost enum RouteActionV {
    DirectResponse { status: u16, body: Seq<u8> },
    WeightedClusters { clusters: Seq<ClusterWeightV>, timeout: Option<u64>, idle_timeout: Option<
        u64,
    > },
    Cluster { name: Seq<u8>, timeout: Option<u64>, idle_timeout: Option<u64> },
}

impl DeepView for RouteAction {
    type V = RouteActionV;

    open spec fn deep_view(&self) -> RouteActionV {
        match self {
            RouteAction::DirectResponse { status, body } => RouteActionV::DirectResponse {
                status: *status,
                body: body.deep_view(),
            },
            RouteAction::WeightedClusters { clusters, timeout, idle_timeout } => {
                RouteActionV::WeightedClusters {
                    clusters: clusters.deep_view(),
                    timeout: *timeout,
                    idle_timeout: *idle_timeout,
                }
            },
            RouteAction::Cluster { name, timeout, idle_timeout } => RouteActionV::Cluster {
                name: name.deep_view(),
                timeout: *timeout,
                idle_timeout: *idle_timeout,
            },
        }
    }
}

/// One route of the virtual host.
pub struct Route {
    pub rmatch: RouteMatch,
    pub action: RouteAction,
}

/// Mathematical value of a [`Route`].
pub ghost struct RouteV {
    pub rmatch: RouteMatchV,
    pub action: RouteActionV,
}

impl DeepView for Route {
    type V = RouteV;

    open spec fn deep_view(&self) -> RouteV {
        RouteV { rmatch: self.rmatch.deep_view(), action: self.action.deep_view() }
    }
}

/// The single virtual host of the route configuration.
pub struct VirtualHost {
    pub name: Vec<u8>,
    pub domains: Vec<Vec<u8>>,
    pub routes: Vec<Route>,
}

/// Mathematical value of a [`VirtualHost`].
pub ghost struct VirtualHostV {
    pub name: Seq<u8>,
    pub domains: Seq<Seq<u8>>,
    pub routes: Seq<RouteV>,
}

impl DeepView for VirtualHost {
    type V = VirtualHostV;

    open spec fn deep_view(&self) -> VirtualHostV {
        VirtualHostV {
            name: self.name.deep_view(),
            domains: self.domains.deep_view(),
            routes: self.routes.deep_view(),
        }
    }
}

/// One statically addressed cluster: a name and the single endpoint its
/// load assignment holds.
pub struct Cluster {
    pub name: Vec<u8>,
    pub ip: Vec<u8>,
    pub port: u16,
    pub http2_only: bool,
}

/// Mathematical value of a [`Cluster`].
pub ghost struct ClusterV {
    pub name: Seq<u8>,
    pub ip: Seq<u8>,
    pub port: u16,
    pub http2_only: bool,
}

impl DeepView for Cluster {
    type V = ClusterV;

    open spec fn deep_view(&self) -> ClusterV {
        ClusterV {
            name: self.name.deep_view(),
            ip: self.ip.deep_view(),
            port: self.port,
            http2_only: self.http2_only,
        }
    }
}

/// The route configuration: its name, its virtual hosts, and the patched
/// bound on inline response bodies.
pub struct RouteConfiguration {
    pub name: Vec<u8>,
    pub virtual_hosts: Vec<VirtualHost>,
    pub max_direct_response_body_size_bytes: Option<u64>,
}

/// Mathematical value of a [`RouteConfiguration`].
pub ghost struct RouteConfigurationV {
    pub name: Seq<u8>,
    pub virtual_hosts: Seq<VirtualHostV>,
    pub max_direct_response_body_size_bytes: Option<u64>,
}

impl DeepView for RouteConfiguration {
    type V = RouteConfigurationV;

    open spec fn deep_view(&self) -> RouteConfigurationV {
        RouteConfigurationV {
            name: self.name.deep_view(),
            virtual_hosts: self.virtual_hosts.deep_view(),
            max_direct_response_body_size_bytes: self.max_direct_response_body_size_bytes,
        }
    }
}

/// Everything one generation pass produces.
pub struct ResourceSet {
    pub clusters: Vec<Cluster>,
    pub route_configurations: Vec<RouteConfiguration>,
}

/// Mathematical value of a [`ResourceSet`].
pub ghost struct ResourceSetV {
    pub clusters: Seq<ClusterV>,
    pub route_configurations: Seq<RouteConfigurationV>,
}

impl DeepView for ResourceSet {
    type V = ResourceSetV;

    open spec fn deep_view(&self) -> ResourceSetV {
        ResourceSetV {
            clusters: self.clusters.deep_view(),
            route_configurations: self.route_configurations.deep_view(),
        }
    }
}

/// The length of the inline body, for a direct-response route.
pub open spec fn direct_body_len(r: RouteV) -> Option<nat> {
    match r.action {
        RouteActionV::DirectResponse { status: _, body } => Some(body.len()),
        _ => None,
    }
}

/// The larger of two optional bounds.
pub open spec fn max_opt(a: Option<nat>, b: Option<nat>) -> Option<nat> {
    match (a, b) {
        (Some(x), Some(y)) => if x >= y {
            Some(x)
        } else {
            Some(y)
        },
        (Some(x), None) => Some(x),
        (None, y) => y,
    }
}

/// Largest inline direct-response body among these routes, if any.
pub open spec fn routes_max_direct(rs: Seq<RouteV>) -> Option<nat>
    decreases rs.len(),
{
    if rs.len() == 0 {
        None
    } else {
        max_opt(routes_max_direct(rs.drop_last()), direct_body_len(rs.last()))
    }
}

/// Largest inline direct-response body anywhere in these virtual hosts.
pub open spec fn hosts_max_direct(vhs: Seq<VirtualHostV>) -> Option<nat>
    decreases vhs.len(),
{
    if vhs.len() == 0 {
        None
    } else {
        max_opt(hosts_max_direct(vhs.drop_last()), routes_max_direct(vhs.last().routes))
    }
}

/// Sets the route configuration's bound on inline response bodies to the
/// largest body any of its direct-response routes carries, or clears it when
/// there is none.  Everything else is left as it was.  The body lengths fit
/// in `u64` because they are lengths of allocated vectors.
pub fn patch_max_direct_response_body_size_bytes(route_configuration: &mut RouteConfiguration)
    ensures
        final(route_configuration).name == old(route_configuration).name,
        final(route_configuration).virtual_hosts == old(route_configuration).virtual_hosts,
        final(route_configuration).max_direct_response_body_size_bytes == match hosts_max_direct(
            old(route_configuration).deep_view().virtual_hosts,
        ) {
            Some(n) => Some(n as u64),
            None => None::<u64>,
        },
{
    let mut best: Option<u64> = None;
    let mut i: usize = 0;
    let ghost vhs = route_configuration.deep_view().virtual_hosts;
    while i < route_configuration.virtual_hosts.len()
        invariant
            0 <= i <= route_configuration.virtual_hosts.len(),
            vhs == route_configuration.deep_view().virtual_hosts,
            vhs.len() == route_configuration.virtual_hosts.len(),
            match best {
                Some(n) => hosts_max_direct(vhs.take(i as int)) == Some(n as nat),
                None => hosts_max_direct(vhs.take(i as int)) is None,
            },
        decreases route_configuration.virtual_hosts.len() - i,
    {
        let ghost routes = vhs[i as int].routes;
        let mut j: usize = 0;
        while j < route_configuration.virtual_hosts[i].routes.len()
            invariant
                0 <= i < route_configuration.virtual_hosts.len(),
                0 <= j <= route_configuration.virtual_hosts[i as int].routes.len(),
                vhs == route_configuration.deep_view().virtual_hosts,
                vhs.len() == route_configuration.virtual_hosts.len(),
                routes == vhs[i as int].routes,
                routes.len() == route_configuration.virtual_hosts[i as int].routes.len(),
                match best {
                    Some(n) => max_opt(
                        hosts_max_direct(vhs.take(i as int)),
                        routes_max_direct(routes.take(j as int)),
                    ) == Some(n as nat),
                    None => max_opt(
                        hosts_max_direct(vhs.take(i as int)),
                        routes_max_direct(routes.take(j as int)),
                    ) is None,
                },
            decreases route_configuration.virtual_hosts[i as int].routes.len() - j,
        {
            proof {
                assert(routes.take(j + 1).drop_last() =~= routes.take(j as int));
                assert(routes.take(j + 1).last() == routes[j as int]);
            }
            match &route_configuration.virtual_hosts[i].routes[j].action {
                RouteAction::DirectResponse { status: _, body } => {
                    let len64 = body.len() as u64;
                    match best {
                        Some(n) => {
                            if len64 > n {
                                best = Some(len64);
                            }
                        },
                        None => {
                            best = Some(len64);
                        },
                    }
                },
                _ => {},
            }
            j = j + 1;
        }
        proof {
            assert(routes.take(routes.len() as int) =~= routes);
            assert(vhs.take(i + 1).drop_last() =~= vhs.take(i as int));
            assert(vhs.take(i + 1).last() == vhs[i as int]);
        }
        i = i + 1;
    }
    proof {
        assert(vhs.take(vhs.len() as int) =~= vhs);
    }
    route_configuration.max_direct_response_body_size_bytes = best;
}

/// Byte-string equality, decided by the three-way comparison.
pub fn bytes_eq(a: &[u8], b: &[u8]) -> (r: bool)
    ensures
        r <==> a@ == b@,
{
    match lex_cmp(a, b) {
        ByteOrder::Equal => true,
        _ => false,
    }
}


/// Equality of two optional counters.
pub fn eq_opt_u64(a: &Option<u64>, b: &Option<u64>) -> (r: bool)
    ensures
        r <==> *a == *b,
{
    match (a, b) {
        (Some(x), Some(y)) => *x == *y,
        (None, None) => true,
        _ => false,
    }
}

/// Structural equality of two clusters.
pub fn eq_cluster(a: &Cluster, b: &Cluster) -> (r: bool)
    ensures
        r <==> a.deep_view() == b.deep_view(),
{
    bytes_eq(a.name.as_slice(), b.name.as_slice()) && bytes_eq(a.ip.as_slice(), b.ip.as_slice())
        && a.port == b.port && a.http2_only == b.http2_only
}

/// Structural equality of two cluster lists.
pub fn eq_clusters(a: &Vec<Cluster>, b: &Vec<Cluster>) -> (r: bool)
    ensures
        r <==> a.deep_view() == b.deep_view(),
{
    if a.len() != b.len() {
        proof {
            assert(a.deep_view().len() != b.deep_view().len());
        }
        return false;
    }
    let mut k: usize = 0;
    while k < a.len()
        invariant
            0 <= k <= a@.len(),
            a@.len() == b@.len(),
            forall|j: int| 0 <= j < k ==> a.deep_view()[j] == b.deep_view()[j],
        decreases a@.len() - k,
    {
        proof {
            assert(a.deep_view()[k as int] == a@[k as int].deep_view());
            assert(b.deep_view()[k as int] == b@[k as int].deep_view());
        }
        if !eq_cluster(&a[k], &b[k]) {
            return false;
        }
        k = k + 1;
    }
    proof {
        assert(a.deep_view() =~= b.deep_view());
    }
    true
}

/// Structural equality of two weighted-cluster entries.
pub fn eq_cluster_weight(a: &ClusterWeight, b: &ClusterWeight) -> (r: bool)
    ensures
        r <==> a.deep_view() == b.deep_view(),
{
    bytes_eq(a.name.as_slice(), b.name.as_slice()) && a.weight == b.weight
}

/// Structural equality of two weighted-cluster lists.
pub fn eq_cluster_weights(a: &Vec<ClusterWeight>, b: &Vec<ClusterWeight>) -> (r: bool)
    ensures
        r <==> a.deep_view() == b.deep_view(),
{
    if a.len() != b.len() {
        proof {
            assert(a.deep_view().len() != b.deep_view().len());
        }
        return false;
    }
    let mut k: usize = 0;
    while k < a.len()
        invariant
            0 <= k <= a@.len(),
            a@.len() == b@.len(),
            forall|j: int| 0 <= j < k ==> a.deep_view()[j] == b.deep_view()[j],
        decreases a@.len() - k,
    {
        proof {
            assert(a.deep_view()[k as int] == a@[k as int].deep_view());
            assert(b.deep_view()[k as int] == b@[k as int].deep_view());
        }
        if !eq_cluster_weight(&a[k], &b[k]) {
            return false;
        }
        k = k + 1;
    }
    proof {
        assert(a.deep_view() =~= b.deep_view());
    }
    true
}

/// Structural equality of two route matches.
pub fn eq_route_match(a: &RouteMatch, b: &RouteMatch) -> (r: bool)
    ensures
        r <==> a.deep_view() == b.deep_view(),
{
    match (a, b) {
        (RouteMatch::PathGet { path: p1 }, RouteMatch::PathGet { path: p2 }) => bytes_eq(
            p1.as_slice(),
            p2.as_slice(),
        ),
        (
            RouteMatch::MetaModel { prefix: p1, namespace: n1, model: m1 },
            RouteMatch::MetaModel { prefix: p2, namespace: n2, model: m2 },
        ) => bytes_eq(p1.as_slice(), p2.as_slice()) && bytes_eq(n1.as_slice(), n2.as_slice())
            && bytes_eq(m1.as_slice(), m2.as_slice()),
        (RouteMatch::Prefix { prefix: p1 }, RouteMatch::Prefix { prefix: p2 }) => bytes_eq(
            p1.as_slice(),
            p2.as_slice(),
        ),
        _ => false,
    }
}

/// Structural equality of two route actions.
pub fn eq_route_action(a: &RouteAction, b: &RouteAction) -> (r: bool)
    ensures
        r <==> a.deep_view() == b.deep_view(),
{
    match (a, b) {
        (
            RouteAction::DirectResponse { status: s1, body: b1 },
            RouteAction::DirectResponse { status: s2, body: b2 },
        ) => *s1 == *s2 && bytes_eq(b1.as_slice(), b2.as_slice()),
        (
            RouteAction::WeightedClusters { clusters: c1, timeout: t1, idle_timeout: i1 },
            RouteAction::WeightedClusters { clusters: c2, timeout: t2, idle_timeout: i2 },
        ) => eq_cluster_weights(c1, c2) && eq_opt_u64(t1, t2) && eq_opt_u64(i1, i2),
        (
            RouteAction::Cluster { name: n1, timeout: t1, idle_timeout: i1 },
            RouteAction::Cluster { name: n2, timeout: t2, idle_timeout: i2 },
        ) => bytes_eq(n1.as_slice(), n2.as_slice()) && eq_opt_u64(t1, t2) && eq_opt_u64(i1, i2),
        _ => false,
    }
}

/// Structural equality of two routes.
pub fn eq_route(a: &Route, b: &Route) -> (r: bool)
    ensures
        r <==> a.deep_view() == b.deep_view(),
{
    eq_route_match(&a.rmatch, &b.rmatch) && eq_route_action(&a.action, &b.action)
}

/// Structural equality of two virtual hosts.
pub fn eq_virtual_host(a: &VirtualHost, b: &VirtualHost) -> (r: bool)
    ensures
        r <==> a.deep_view() == b.deep_view(),
{
    if !bytes_eq(a.name.as_slice(), b.name.as_slice()) {
        return false;
    }
    if a.domains.len() != b.domains.len() {
        proof {
            assert(a.domains.deep_view().len() != b.domains.deep_view().len());
        }
        return false;
    }
    let mut k: usize = 0;
    while k < a.domains.len()
        invariant
            0 <= k <= a.domains@.len(),
            a.domains@.len() == b.domains@.len(),
            a.name.deep_view() == b.name.deep_view(),
            forall|j: int| 0 <= j < k ==> a.domains.deep_view()[j] == b.domains.deep_view()[j],
        decreases a.domains@.len() - k,
    {
        proof {
            assert(a.domains.deep_view()[k as int] == a.domains@[k as int].deep_view());
            assert(b.domains.deep_view()[k as int] == b.domains@[k as int].deep_view());
            assert(a.domains@[k as int].deep_view() =~= a.domains@[k as int]@);
            assert(b.domains@[k as int].deep_view() =~= b.domains@[k as int]@);
        }
        if !bytes_eq(a.domains[k].as_slice(), b.domains[k].as_slice()) {
            return false;
        }
        k = k + 1;
    }
    proof {
        assert(a.domains.deep_view() =~= b.domains.deep_view());
    }
    if a.routes.len() != b.routes.len() {
        proof {
            assert(a.routes.deep_view().len() != b.routes.deep_view().len());
        }
        return false;
    }
    let mut q: usize = 0;
    while q < a.routes.len()
        invariant
            0 <= q <= a.routes@.len(),
            a.routes@.len() == b.routes@.len(),
            a.name.deep_view() == b.name.deep_view(),
            a.domains.deep_view() == b.domains.deep_view(),
            forall|j: int| 0 <= j < q ==> a.routes.deep_view()[j] == b.routes.deep_view()[j],
        decreases a.routes@.len() - q,
    {
        proof {
            assert(a.routes.deep_view()[q as int] == a.routes@[q as int].deep_view());
            assert(b.routes.deep_view()[q as int] == b.routes@[q as int].deep_view());
        }
        if !eq_route(&a.routes[q], &b.routes[q]) {
            return false;
        }
        q = q + 1;
    }
    proof {
        assert(a.routes.deep_view() =~= b.routes.deep_view());
    }
    true
}

/// Structural equality of two route configurations.
pub fn eq_route_configuration(a: &RouteConfiguration, b: &RouteConfiguration) -> (r: bool)
    ensures
        r <==> a.deep_view() == b.deep_view(),
{
    if !bytes_eq(a.name.as_slice(), b.name.as_slice()) {
        return false;
    }
    if !eq_opt_u64(&a.max_direct_response_body_size_bytes, &b.max_direct_response_body_size_bytes)
 {
        return false;
    }
    if a.virtual_hosts.len() != b.virtual_hosts.len() {
        proof {
            assert(a.virtual_hosts.deep_view().len() != b.virtual_hosts.deep_view().len());
        }
        return false;
    }
    let mut k: usize = 0;
    while k < a.virtual_hosts.len()
        invariant
            0 <= k <= a.virtual_hosts@.len(),
            a.virtual_hosts@.len() == b.virtual_hosts@.len(),
            a.name.deep_view() == b.name.deep_view(),
            a.max_direct_response_body_size_bytes == b.max_direct_response_body_size_bytes,
            forall|j: int|
                0 <= j < k ==> a.virtual_hosts.deep_view()[j] == b.virtual_hosts.deep_view()[j],
        decreases a.virtual_hosts@.len() - k,
    {
        proof {
            assert(a.virtual_hosts.deep_view()[k as int] == a.virtual_hosts@[k as int].deep_view());
            assert(b.virtual_hosts.deep_view()[k as int] == b.virtual_hosts@[k as int].deep_view());
        }
        if !eq_virtual_host(&a.virtual_hosts[k], &b.virtual_hosts[k]) {
            return false;
        }
        k = k + 1;
    }
    proof {
        assert(a.virtual_hosts.deep_view() =~= b.virtual_hosts.deep_view());
    }
    true
}

/// Structural equality of two resource sets: what the snapshot bus compares
/// before minting a version.
pub fn eq_resource_set(a: &ResourceSet, b: &ResourceSet) -> (r: bool)
    ensures
        r <==> a.deep_view() == b.deep_view(),
{
    if !eq_clusters(&a.clusters, &b.clusters) {
        return false;
    }
    if a.route_configurations.len() != b.route_configurations.len() {
        proof {
            assert(a.route_configurations.deep_view().len()
                != b.route_configurations.deep_view().len());
        }
        return false;
    }
    let mut k: usize = 0;
    while k < a.route_configurations.len()
        invariant
            0 <= k <= a.route_configurations@.len(),
            a.route_configurations@.len() == b.route_configurations@.len(),
            a.clusters.deep_view() == b.clusters.deep_view(),
            forall|j: int|
                0 <= j < k ==> a.route_configurations.deep_view()[j]
                    == b.route_configurations.deep_view()[j],
        decreases a.route_configurations@.len() - k,
    {
        proof {
            assert(a.route_configurations.deep_view()[k as int]
                == a.route_configurations@[k as int].deep_view());
            assert(b.route_configurations.deep_view()[k as int]
                == b.route_configurations@[k as int].deep_view());
        }
        if !eq_route_configuration(&a.route_configurations[k], &b.route_configurations[k]) {
            return false;
        }
        k = k + 1;
    }
    proof {
        assert(a.route_configurations.deep_view() =~= b.route_configurations.deep_view());
    }
    true
}

} // verus!
