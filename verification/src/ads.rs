//! The state-of-the-world discovery stream engine.
//!
//! One value of [`StreamState`] drives one bidirectional discovery stream.
//! The I/O shell decodes each incoming request and hands the engine its
//! fields; it watches the snapshot bus and hands the engine each new
//! version.  The engine decides what to push: an initial subscription is
//! answered at once with the current snapshot of its type, an
//! acknowledgement (positive or negative) is answered with nothing, and a
//! bus update is pushed to every stream.  Nonces are minted from a
//! per-stream counter, so every push of one stream carries a fresh nonce.

use vstd::prelude::*;
use crate::bytes_order::{lex_cmp, ByteOrder};

verus! {

/// The two resource types the fabric serves.
#[derive(Clone, Copy, PartialEq, Eq, Structural, Debug)]
pub enum TypeUrl {
    Cluster,
    RouteConfiguration,
}

/// `envoy.config.cluster.v3.Cluster`
pub open spec fn lit_type_url_cluster() -> Seq<u8> {
    seq![
        101u8,
        110u8,
        118u8,
        111u8,
        121u8,
        46u8,
        99u8,
        111u8,
        110u8,
        102u8,
        105u8,
        103u8,
        46u8,
        99u8,
        108u8,
        117u8,
        115u8,
        116u8,
        101u8,
        114u8,
        46u8,
        118u8,
        51u8,
        46u8,
        67u8,
        108u8,
        117u8,
        115u8,
        116u8,
        101u8,
        114u8,
    ]
}

/// `envoy.config.route.v3.RouteConfiguration`
pub open spec fn lit_type_url_routes() -> Seq<u8> {
    seq![
        101u8,
        110u8,
        118u8,
        111u8,
        121u8,
        46u8,
        99u8,
        111u8,
        110u8,
        102u8,
        105u8,
        103u8,
        46u8,
        114u8,
        111u8,
        117u8,
        116u8,
        101u8,
        46u8,
        118u8,
        51u8,
        46u8,
        82u8,
        111u8,
        117u8,
        116u8,
        101u8,
        67u8,
        111u8,
        110u8,
        102u8,
        105u8,
        103u8,
        117u8,
        114u8,
        97u8,
        116u8,
        105u8,
        111u8,
        110u8,
    ]
}

/// The type a request's `type_url` field subscribes to, if it is one the
/// fabric serves.
pub open spec fn spec_parse_type_url(s: Seq<u8>) -> Option<TypeUrl> {
    if s == lit_type_url_cluster() {
        Some(TypeUrl::Cluster)
    } else if s == lit_type_url_routes() {
        Some(TypeUrl::RouteConfiguration)
    } else {
        None
    }
}

/// The text of the cluster type url, as bytes.
pub fn type_url_cluster() -> (r: Vec<u8>)
    ensures
        r@ == lit_type_url_cluster(),
{
    let mut v: Vec<u8> = Vec::new();
    v.push(101);
    v.push(110);
    v.push(118);
    v.push(111);
    v.push(121);
    v.push(46);
    v.push(99);
    v.push(111);
    v.push(110);
    v.push(102);
    v.push(105);
    v.push(103);
    v.push(46);
    v.push(99);
    v.push(108);
    v.push(117);
    v.push(115);
    v.push(116);
    v.push(101);
    v.push(114);
    v.push(46);
    v.push(118);
    v.push(51);
    v.push(46);
    v.push(67);
    v.push(108);
    v.push(117);
    v.push(115);
    v.push(116);
    v.push(101);
    v.push(114);
    proof {
        assert(v@ =~= lit_type_url_cluster());
    }
    v
}

/// The text of the route-configuration type url, as bytes.
pub fn type_url_routes() -> (r: Vec<u8>)
    ensures
        r@ == lit_type_url_routes(),
{
    let mut v: Vec<u8> = Vec::new();
    v.push(101);
    v.push(110);
    v.push(118);
    v.push(111);
    v.push(121);
    v.push(46);
    v.push(99);
    v.push(111);
    v.push(110);
    v.push(102);
    v.push(105);
    v.push(103);
    v.push(46);
    v.push(114);
    v.push(111);
    v.push(117);
    v.push(116);
    v.push(101);
    v.push(46);
    v.push(118);
    v.push(51);
    v.push(46);
    v.push(82);
    v.push(111);
    v.push(117);
    v.push(116);
    v.push(101);
    v.push(67);
    v.push(111);
    v.push(110);
    v.push(102);
    v.push(105);
    v.push(103);
    v.push(117);
    v.push(114);
    v.push(97);
    v.push(116);
    v.push(105);
    v.push(111);
    v.push(110);
    proof {
        assert(v@ =~= lit_type_url_routes());
    }
    v
}

/// Classifies a request's `type_url` field.  Anything but the two served
/// types is unknown and will never be answered.
pub fn parse_type_url(s: &[u8]) -> (r: Option<TypeUrl>)
    ensures
        r == spec_parse_type_url(s@),
{
    let cluster = type_url_cluster();
    if matches!(lex_cmp(s, cluster.as_slice()), ByteOrder::Equal) {
        return Some(TypeUrl::Cluster);
    }
    let routes = type_url_routes();
    if matches!(lex_cmp(s, routes.as_slice()), ByteOrder::Equal) {
        return Some(TypeUrl::RouteConfiguration);
    }
    None
}

/// One push the engine asks the shell to send: all current resources of
/// `type_url` under `version`, tagged with a nonce fresh on this stream.
pub struct PushOut {
    pub type_url: TypeUrl,
    pub version: u64,
    pub nonce: u64,
}

/// The per-stream engine state: the nonce counter and, per type, the last
/// version pushed.
pub struct StreamState {
    pub nonce_ctr: u64,
    pub cluster_sent: Option<u64>,
    pub routes_sent: Option<u64>,
}

/// Whether an initial subscription to `type_url` can be answered from the
/// available snapshot versions.
pub open spec fn spec_answerable(
    type_url: Option<TypeUrl>,
    have_cluster: Option<u64>,
    have_routes: Option<u64>,
) -> bool {
    match type_url {
        Some(TypeUrl::Cluster) => have_cluster is Some,
        Some(TypeUrl::RouteConfiguration) => have_routes is Some,
        None => false,
    }
}

impl StreamState {
    /// A fresh stream: no nonce minted, nothing pushed.
    pub fn new() -> (r: Self)
        ensures
            r.nonce_ctr == 0,
            r.cluster_sent is None,
            r.routes_sent is None,
    {
        StreamState { nonce_ctr: 0, cluster_sent: None, routes_sent: None }
    }

    /// Handles one decoded discovery request.  An initial subscription (its
    /// `response_nonce` empty) to a served type is answered with the current
    /// snapshot of that type when one is held; everything else — an
    /// acknowledgement, a negative acknowledgement (`ack_error`), an unknown
    /// type — is answered with nothing.  A negative acknowledgement is not
    /// retried: the next bus update reaches the stream by itself.
    pub fn handle_request(
        &mut self,
        type_url: Option<TypeUrl>,
        response_nonce_empty: bool,
        ack_error: bool,
        have_cluster: Option<u64>,
        have_routes: Option<u64>,
    ) -> (r: Option<PushOut>)
        requires
            old(self).nonce_ctr < u64::MAX,
        ensures
            r is Some <==> response_nonce_empty && spec_answerable(
                type_url,
                have_cluster,
                have_routes,
            ),
            r is Some ==> {
                &&& r->0.type_url == type_url->0
                &&& r->0.version == (match type_url->0 {
                    TypeUrl::Cluster => have_cluster->0,
                    TypeUrl::RouteConfiguration => have_routes->0,
                })
                &&& r->0.nonce == old(self).nonce_ctr + 1
            },
            final(self).nonce_ctr == if r is Some {
                (old(self).nonce_ctr + 1) as u64
            } else {
                old(self).nonce_ctr
            },
            final(self).cluster_sent == (if r is Some && type_url == Some(TypeUrl::Cluster) {
                have_cluster
            } else {
                old(self).cluster_sent
            }),
            final(self).routes_sent == (if r is Some && type_url == Some(
                TypeUrl::RouteConfiguration,
            ) {
                have_routes
            } else {
                old(self).routes_sent
            }),
    {
        let _ = ack_error;
        if !response_nonce_empty {
            return None;
        }
        match type_url {
            Some(TypeUrl::Cluster) => {
                match have_cluster {
                    Some(version) => {
                        self.nonce_ctr = self.nonce_ctr + 1;
                        self.cluster_sent = Some(version);
                        Some(PushOut { type_url: TypeUrl::Cluster, version, nonce: self.nonce_ctr })
                    },
                    None => None,
                }
            },
            Some(TypeUrl::RouteConfiguration) => {
                match have_routes {
                    Some(version) => {
                        self.nonce_ctr = self.nonce_ctr + 1;
                        self.routes_sent = Some(version);
                        Some(
                            PushOut {
                                type_url: TypeUrl::RouteConfiguration,
                                version,
                                nonce: self.nonce_ctr,
                            },
                        )
                    },
                    None => None,
                }
            },
            None => None,
        }
    }

    /// Handles a snapshot-bus update of one type: always pushed, under a
    /// fresh nonce, and recorded as the last version sent for that type.
    pub fn handle_update(&mut self, type_url: TypeUrl, version: u64) -> (r: PushOut)
        requires
            old(self).nonce_ctr < u64::MAX,
        ensures
            r.type_url == type_url,
            r.version == version,
            r.nonce == old(self).nonce_ctr + 1,
            final(self).nonce_ctr == old(self).nonce_ctr + 1,
            final(self).cluster_sent == (if type_url == TypeUrl::Cluster {
                Some(version)
            } else {
                old(self).cluster_sent
            }),
            final(self).routes_sent == (if type_url == TypeUrl::RouteConfiguration {
                Some(version)
            } else {
                old(self).routes_sent
            }),
    {
        self.nonce_ctr = self.nonce_ctr + 1;
        match type_url {
            TypeUrl::Cluster => {
                self.cluster_sent = Some(version);
            },
            TypeUrl::RouteConfiguration => {
                self.routes_sent = Some(version);
            },
        }
        PushOut { type_url, version, nonce: self.nonce_ctr }
    }
}

} // verus!
