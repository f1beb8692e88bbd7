use modelmux::generator::Generator;
use modelmux::reporter::Reporter;
use modelmux::resources::{
    eq_resource_set, patch_max_direct_response_body_size_bytes, ResourceSet, Route, RouteAction,
    RouteConfiguration, RouteMatch, VirtualHost,
};
use modelmux::schemas::{Endpoint, Model};
use modelmux::upstream::Upstream;

fn upstream(host: &str, port: Option<u16>, http2_only: bool) -> Upstream {
    Upstream {
        scheme: b"http".to_vec(),
        host: host.as_bytes().to_vec(),
        port,
        http2_only,
        interval: 5_000_000_000,
        timeout: None,
    }
}

fn model(id: &str, running: Option<u64>, pending: Option<u64>) -> Model {
    Model { id: id.as_bytes().to_vec(), running, pending, extra: vec![] }
}

fn expected_cluster_name(i: u64, ip: &str) -> Vec<u8> {
    let digest = <sha2::Sha224 as sha2::Digest>::digest(format!("{i}:{ip}").as_bytes());
    format!("cluster_{}", hex::encode(digest)).into_bytes()
}

fn single_upstream_generator() -> Generator {
    // One upstream, one resolved address, one model, no load reported.
    Generator {
        upstreams: vec![upstream("a.local", None, false)],
        state: vec![Some(vec![Endpoint {
            ip: b"10.0.0.1".to_vec(),
            models: vec![model("m", None, None)],
        }])],
        route_config_name: b"local_route".to_vec(),
        metadata_namespace: b"ns".to_vec(),
        timeout: None,
        idle_timeout: None,
    }
}

#[test]
fn single_upstream_single_ip_one_model() {
    let g = single_upstream_generator();
    let clusters = g.clusters();
    assert_eq!(clusters.len(), 1);
    assert_eq!(clusters[0].name, expected_cluster_name(0, "10.0.0.1"));
    assert_eq!(clusters[0].ip, b"10.0.0.1".to_vec());
    assert_eq!(clusters[0].port, 80);
    assert!(!clusters[0].http2_only);

    let rc = g.route_configuration();
    assert_eq!(rc.name, b"local_route".to_vec());
    assert_eq!(rc.virtual_hosts.len(), 1);
    let vh = &rc.virtual_hosts[0];
    assert_eq!(vh.name, b"local_service".to_vec());
    assert_eq!(vh.domains, vec![b"*".to_vec()]);
    assert_eq!(vh.routes.len(), 2);
    match &vh.routes[0].rmatch {
        RouteMatch::PathGet { path } => assert_eq!(path, &b"/v1/models".to_vec()),
        _ => panic!("first route must match GET /v1/models"),
    }
    match &vh.routes[1].action {
        RouteAction::WeightedClusters { clusters: wc, .. } => {
            assert_eq!(wc.len(), 1);
            assert_eq!(wc[0].name, expected_cluster_name(0, "10.0.0.1"));
            assert_eq!(wc[0].weight, 1);
        }
        _ => panic!("model route must use weighted clusters"),
    }
}

#[test]
fn two_upstreams_overlapping_model_weights() {
    // a serves {m1 pending 0, m2 pending 3}; b serves {m2 pending 1}.
    // For m2: max pending 3; a gets (1+3)/(1+3)=1, b gets (1+3)/(1+1)=2.
    let g = Generator {
        upstreams: vec![upstream("a", None, false), upstream("b", None, false)],
        state: vec![
            Some(vec![Endpoint {
                ip: b"10.0.0.1".to_vec(),
                models: vec![model("m1", None, Some(0)), model("m2", None, Some(3))],
            }]),
            Some(vec![Endpoint {
                ip: b"10.0.0.2".to_vec(),
                models: vec![model("m2", None, Some(1))],
            }]),
        ],
        route_config_name: b"r".to_vec(),
        metadata_namespace: b"ns".to_vec(),
        timeout: None,
        idle_timeout: None,
    };
    let rc = g.route_configuration();
    let routes = &rc.virtual_hosts[0].routes;
    // list-models first, then m1, then m2 (ascending ids)
    assert_eq!(routes.len(), 3);
    let m2_route = &routes[2];
    match &m2_route.rmatch {
        RouteMatch::MetaModel { model, namespace, prefix } => {
            assert_eq!(model, &b"m2".to_vec());
            assert_eq!(namespace, &b"ns".to_vec());
            assert_eq!(prefix, &b"/".to_vec());
        }
        _ => panic!("model route must match on metadata"),
    }
    match &m2_route.action {
        RouteAction::WeightedClusters { clusters: wc, .. } => {
            assert_eq!(wc.len(), 2);
            assert_eq!(wc[0].name, expected_cluster_name(0, "10.0.0.1"));
            assert_eq!(wc[0].weight, 1);
            assert_eq!(wc[1].name, expected_cluster_name(1, "10.0.0.2"));
            assert_eq!(wc[1].weight, 2);
        }
        _ => panic!("model route must use weighted clusters"),
    }
}

#[test]
fn dns_failure_leaves_upstream_empty() {
    // Upstream b failed DNS this cycle: it reported an empty endpoint list.
    let g = Generator {
        upstreams: vec![upstream("a", None, false), upstream("b", None, false)],
        state: vec![
            Some(vec![Endpoint {
                ip: b"10.0.0.1".to_vec(),
                models: vec![model("m", None, None)],
            }]),
            Some(vec![]),
        ],
        route_config_name: b"r".to_vec(),
        metadata_namespace: b"ns".to_vec(),
        timeout: None,
        idle_timeout: None,
    };
    let clusters = g.clusters();
    assert_eq!(clusters.len(), 1);
    assert_eq!(clusters[0].name, expected_cluster_name(0, "10.0.0.1"));
}

#[test]
fn generation_is_deterministic() {
    let a = single_upstream_generator();
    let b = single_upstream_generator();
    let set_a = ResourceSet {
        clusters: a.clusters(),
        route_configurations: vec![a.route_configuration()],
    };
    let set_b = ResourceSet {
        clusters: b.clusters(),
        route_configurations: vec![b.route_configuration()],
    };
    assert!(eq_resource_set(&set_a, &set_b));
}

#[test]
fn clusters_sorted_by_name_and_http2_flag_kept() {
    let g = Generator {
        upstreams: vec![upstream("a", Some(8080), true)],
        state: vec![Some(vec![
            Endpoint { ip: b"10.0.0.2".to_vec(), models: vec![model("m", None, None)] },
            Endpoint { ip: b"10.0.0.1".to_vec(), models: vec![] },
        ])],
        route_config_name: b"r".to_vec(),
        metadata_namespace: b"ns".to_vec(),
        timeout: None,
        idle_timeout: None,
    };
    let clusters = g.clusters();
    assert_eq!(clusters.len(), 2);
    assert!(clusters[0].name <= clusters[1].name);
    assert!(clusters.iter().all(|c| c.port == 8080 && c.http2_only));
}

#[test]
fn weight_clamps_runaway_pending() {
    // One stuck backend far beyond the trusted bound: the idle one is
    // weighted up only to the clamp.
    let g = Generator {
        upstreams: vec![upstream("a", None, false), upstream("b", None, false)],
        state: vec![
            Some(vec![Endpoint {
                ip: b"10.0.0.1".to_vec(),
                models: vec![model("m", None, Some(u64::MAX))],
            }]),
            Some(vec![Endpoint {
                ip: b"10.0.0.2".to_vec(),
                models: vec![model("m", None, Some(0))],
            }]),
        ],
        route_config_name: b"r".to_vec(),
        metadata_namespace: b"ns".to_vec(),
        timeout: None,
        idle_timeout: None,
    };
    let rc = g.route_configuration();
    match &rc.virtual_hosts[0].routes[1].action {
        RouteAction::WeightedClusters { clusters: wc, .. } => {
            assert_eq!(wc[0].weight, 1);
            assert_eq!(wc[1].weight, modelmux::PENDING_CAP + 1);
        }
        _ => panic!("model route must use weighted clusters"),
    }
}

#[test]
fn weighted_cluster_names_are_emitted_cluster_names() {
    let g = Generator {
        upstreams: vec![upstream("a", None, false), upstream("b", None, false)],
        state: vec![
            Some(vec![Endpoint {
                ip: b"10.0.0.1".to_vec(),
                models: vec![model("m1", None, Some(0)), model("m2", None, Some(3))],
            }]),
            Some(vec![Endpoint {
                ip: b"10.0.0.2".to_vec(),
                models: vec![model("m2", None, Some(1))],
            }]),
        ],
        route_config_name: b"r".to_vec(),
        metadata_namespace: b"ns".to_vec(),
        timeout: None,
        idle_timeout: None,
    };
    let cluster_names: Vec<Vec<u8>> = g.clusters().into_iter().map(|c| c.name).collect();
    for route in &g.route_configuration().virtual_hosts[0].routes {
        if let RouteAction::WeightedClusters { clusters: wc, .. } = &route.action {
            for entry in wc {
                assert!(cluster_names.contains(&entry.name));
            }
        }
    }
}

#[test]
fn publish_identical_snapshot_mints_one_version() {
    let g = single_upstream_generator();
    let mut bus = Reporter::new();
    let set1 = ResourceSet {
        clusters: g.clusters(),
        route_configurations: vec![g.route_configuration()],
    };
    let set2 = ResourceSet {
        clusters: g.clusters(),
        route_configurations: vec![g.route_configuration()],
    };
    assert!(bus.publish(set1));
    assert_eq!(bus.version, 1);
    assert!(!bus.publish(set2));
    assert_eq!(bus.version, 1);
    // a genuinely different snapshot bumps the version again
    let set3 = ResourceSet { clusters: vec![], route_configurations: vec![] };
    assert!(bus.publish(set3));
    assert_eq!(bus.version, 2);
}

#[test]
fn subscriber_poll_sees_only_new_versions() {
    let mut bus = Reporter::new();
    assert!(bus.poll(0).is_none());
    let set = ResourceSet { clusters: vec![], route_configurations: vec![] };
    bus.publish(set);
    let got = bus.poll(0).expect("fresh subscriber sees the current value");
    assert_eq!(got.0, 1);
    assert!(bus.poll(1).is_none());
}

#[test]
fn patch_max_direct_response_body_size() {
    let mut rc = RouteConfiguration {
        name: b"r".to_vec(),
        virtual_hosts: vec![VirtualHost {
            name: b"vh".to_vec(),
            domains: vec![b"*".to_vec()],
            routes: vec![
                Route {
                    rmatch: RouteMatch::Prefix { prefix: b"/".to_vec() },
                    action: RouteAction::DirectResponse { status: 200, body: b"abcde".to_vec() },
                },
                Route {
                    rmatch: RouteMatch::Prefix { prefix: b"/".to_vec() },
                    action: RouteAction::Cluster {
                        name: b"c".to_vec(),
                        timeout: None,
                        idle_timeout: None,
                    },
                },
                Route {
                    rmatch: RouteMatch::Prefix { prefix: b"/".to_vec() },
                    action: RouteAction::DirectResponse { status: 200, body: b"ab".to_vec() },
                },
            ],
        }],
        max_direct_response_body_size_bytes: None,
    };
    patch_max_direct_response_body_size_bytes(&mut rc);
    assert_eq!(rc.max_direct_response_body_size_bytes, Some(5));

    let mut no_direct = RouteConfiguration {
        name: b"r".to_vec(),
        virtual_hosts: vec![],
        max_direct_response_body_size_bytes: Some(7),
    };
    patch_max_direct_response_body_size_bytes(&mut no_direct);
    assert_eq!(no_direct.max_direct_response_body_size_bytes, None);
}

#[test]
fn adaptor_route_configuration_shape() {
    let g = modelmux::vllm::Generator {
        models: vec![model("m", Some(2), Some(1))],
        route_config_name: b"r".to_vec(),
        cluster_name: b"backend".to_vec(),
        timeout: Some(1_000_000_000),
        idle_timeout: None,
    };
    let rc = g.route_configuration();
    let routes = &rc.virtual_hosts[0].routes;
    assert_eq!(routes.len(), 2);
    match &routes[1].action {
        RouteAction::Cluster { name, timeout, .. } => {
            assert_eq!(name, &b"backend".to_vec());
            assert_eq!(timeout, &Some(1_000_000_000));
        }
        _ => panic!("fallback must route to the fixed cluster"),
    }
    match &routes[0].action {
        RouteAction::DirectResponse { status, body } => {
            assert_eq!(*status, 200);
            assert_eq!(
                rc.max_direct_response_body_size_bytes,
                Some(body.len() as u64)
            );
        }
        _ => panic!("list route must answer in place"),
    }
}
