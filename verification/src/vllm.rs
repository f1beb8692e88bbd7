//! The single-backend adaptor's route generator.
//!
//! The adaptor fronts exactly one inference server through one fixed
//! cluster: it answers the list-models route in place from the latest
//! scraped catalog, and falls everything else through to that cluster.
//! The catalog is served as scraped, in the backend's own order.

use vstd::prelude::*;
use crate::aggregate::copy_bytes;
use crate::generator::{lit_local_service, lit_models_path};
use crate::json_text::json_list;
use crate::resources::{
    hosts_max_direct,
    Route,
    RouteAction,
    RouteActionV,
    RouteConfiguration,
    RouteConfigurationV,
    RouteMatch,
    RouteMatchV,
    RouteV,
    VirtualHost,
    VirtualHostV,
};
use crate::schemas::{Model, ModelV};

verus! {

broadcast use crate::views::lemma_bytes_deep_view;

/// The adaptor's generator: the latest catalog and the fixed route targets.
pub struct Generator {
    pub models: Vec<Model>,
    pub route_config_name: Vec<u8>,
    pub cluster_name: Vec<u8>,
    /// Route timeout handed to the data plane, nanoseconds.
    pub timeout: Option<u64>,
    /// Route idle timeout handed to the data plane, nanoseconds.
    pub idle_timeout: Option<u64>,
}

/// Mathematical value of a [`Generator`].
pub ghost struct GeneratorV {
    pub models: Seq<ModelV>,
    pub route_config_name: Seq<u8>,
    pub cluster_name: Seq<u8>,
    pub timeout: Option<u64>,
    pub idle_timeout: Option<u64>,
}

impl DeepView for Generator {
    type V = GeneratorV;

    open spec fn deep_view(&self) -> GeneratorV {
        GeneratorV {
            models: self.models.deep_view(),
            route_config_name: self.route_config_name.deep_view(),
            cluster_name: self.cluster_name.deep_view(),
            timeout: self.timeout,
            idle_timeout: self.idle_timeout,
        }
    }
}

/// The list-models route: the scraped catalog answered in place.
pub open spec fn spec_route_list_models(g: GeneratorV) -> RouteV {
    RouteV {
        rmatch: RouteMatchV::PathGet { path: lit_models_path() },
        action: RouteActionV::DirectResponse { status: 200, body: json_list(g.models) },
    }
}

/// The fallback route: everything else to the one cluster.
pub open spec fn spec_route_fallback(g: GeneratorV) -> RouteV {
    RouteV {
        rmatch: RouteMatchV::Prefix { prefix: seq![crate::ascii::SLASH] },
        action: RouteActionV::Cluster {
            name: g.cluster_name,
            timeout: g.timeout,
            idle_timeout: g.idle_timeout,
        },
    }
}

/// The adaptor's single virtual host.
pub open spec fn spec_virtual_host(g: GeneratorV) -> VirtualHostV {
    VirtualHostV {
        name: lit_local_service(),
        domains: seq![seq![42u8]],
        routes: seq![spec_route_list_models(g), spec_route_fallback(g)],
    }
}

/// The adaptor's route configuration, its inline-body bound patched.
pub open spec fn spec_route_configuration(g: GeneratorV) -> RouteConfigurationV {
    RouteConfigurationV {
        name: g.route_config_name,
        virtual_hosts: seq![spec_virtual_host(g)],
        max_direct_response_body_size_bytes: match hosts_max_direct(seq![spec_virtual_host(g)]) {
            Some(n) => Some(n as u64),
            None => None,
        },
    }
}

impl Generator {
    /// The list-models route, the catalog served as scraped.
    pub fn route_list_models(&self) -> (r: Route)
        ensures
            r.deep_view() == spec_route_list_models(self.deep_view()),
    {
        let body = crate::json_text::encode_list_body(&self.models);
        let mut path: Vec<u8> = Vec::new();
        path.push(47);
        path.push(118);
        path.push(49);
        path.push(47);
        path.push(109);
        path.push(111);
        path.push(100);
        path.push(101);
        path.push(108);
        path.push(115);
        proof {
            assert(path@ =~= lit_models_path());
        }
        Route {
            rmatch: RouteMatch::PathGet { path },
            action: RouteAction::DirectResponse { status: 200, body },
        }
    }

    /// The fallback route to the one cluster.
    pub fn route_fallback(&self) -> (r: Route)
        ensures
            r.deep_view() == spec_route_fallback(self.deep_view()),
    {
        let mut prefix: Vec<u8> = Vec::new();
        prefix.push(crate::ascii::SLASH);
        proof {
            assert(prefix@ =~= seq![crate::ascii::SLASH]);
        }
        Route {
            rmatch: RouteMatch::Prefix { prefix },
            action: RouteAction::Cluster {
                name: copy_bytes(self.cluster_name.as_slice()),
                timeout: self.timeout,
                idle_timeout: self.idle_timeout,
            },
        }
    }

    /// The adaptor's single virtual host: the list-models route, then the
    /// fallback.
    pub fn virtual_host(&self) -> (r: VirtualHost)
        ensures
            r.deep_view() == spec_virtual_host(self.deep_view()),
    {
        let mut routes: Vec<Route> = Vec::new();
        routes.push(self.route_list_models());
        routes.push(self.route_fallback());
        let mut name: Vec<u8> = Vec::new();
        name.push(108);
        name.push(111);
        name.push(99);
        name.push(97);
        name.push(108);
        name.push(95);
        name.push(115);
        name.push(101);
        name.push(114);
        name.push(118);
        name.push(105);
        name.push(99);
        name.push(101);
        let mut star: Vec<u8> = Vec::new();
        star.push(42);
        let mut domains: Vec<Vec<u8>> = Vec::new();
        domains.push(star);
        let r = VirtualHost { name, domains, routes };
        proof {
            assert(r.name.deep_view() =~= lit_local_service());
            assert(r.domains.deep_view() =~~= seq![seq![42u8]]);
            assert(r.routes.deep_view() =~= seq![
                spec_route_list_models(self.deep_view()),
                spec_route_fallback(self.deep_view()),
            ]);
        }
        r
    }

    /// The adaptor's route configuration, its inline-body bound patched.
    pub fn route_configuration(&self) -> (r: RouteConfiguration)
        ensures
            r.deep_view() == spec_route_configuration(self.deep_view()),
    {
        let vh = self.virtual_host();
        let mut virtual_hosts: Vec<VirtualHost> = Vec::new();
        virtual_hosts.push(vh);
        let mut r = RouteConfiguration {
            name: copy_bytes(self.route_config_name.as_slice()),
            virtual_hosts,
            max_direct_response_body_size_bytes: None,
        };
        proof {
            assert(r.virtual_hosts.deep_view() =~= seq![spec_virtual_host(self.deep_view())]);
        }
        crate::resources::patch_max_direct_response_body_size_bytes(&mut r);
        r
    }
}

} // verus!
