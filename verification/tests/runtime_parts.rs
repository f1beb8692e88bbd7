use modelmux::ads::{PushOut, StreamState, TypeUrl};
use modelmux::aggregate::models_union;
use modelmux::pool::Pool;
use modelmux::processor::{process_decision, ProcessingAction, ProcessingEvent};
use modelmux::proxy::{
    decide_request, hosted_url, keep_content_headers, resolve_uri, scrub_headers, RequestDecision,
};
use modelmux::schemas::{Endpoint, FleetState, Model};
use modelmux::ticker::{advance_deadline, new_rng};

fn model(id: &str) -> Model {
    Model { id: id.as_bytes().to_vec(), running: None, pending: None, extra: vec![] }
}

fn two_backend_state() -> FleetState {
    vec![
        Some(vec![Endpoint { ip: b"10.0.0.1".to_vec(), models: vec![model("m")] }]),
        Some(vec![Endpoint { ip: b"10.0.0.2".to_vec(), models: vec![model("m"), model("n")] }]),
    ]
}

#[test]
fn ads_initial_subscribe_and_ack() {
    let mut stream = StreamState::new();
    // initial subscription for clusters: answered with the current version
    // under a fresh nonce
    let push = stream
        .handle_request(Some(TypeUrl::Cluster), true, false, Some(4), Some(9))
        .expect("initial subscription must be answered");
    assert!(matches!(push.type_url, TypeUrl::Cluster));
    assert_eq!(push.version, 4);
    assert_eq!(push.nonce, 1);
    // the ACK of that push produces nothing
    let ack = stream.handle_request(Some(TypeUrl::Cluster), false, false, Some(4), Some(9));
    assert!(ack.is_none());
    // and a NACK produces nothing either
    let nack = stream.handle_request(Some(TypeUrl::Cluster), false, true, Some(4), Some(9));
    assert!(nack.is_none());
}

#[test]
fn ads_unknown_type_or_empty_bus_is_not_answered() {
    let mut stream = StreamState::new();
    assert!(stream.handle_request(None, true, false, Some(1), Some(1)).is_none());
    assert!(stream.handle_request(Some(TypeUrl::Cluster), true, false, None, Some(1)).is_none());
}

#[test]
fn ads_update_pushes_with_fresh_nonces() {
    let mut stream = StreamState::new();
    let p1: PushOut = stream.handle_update(TypeUrl::Cluster, 7);
    let p2: PushOut = stream.handle_update(TypeUrl::RouteConfiguration, 7);
    assert_eq!(p1.version, 7);
    assert_eq!(p2.version, 7);
    assert_ne!(p1.nonce, p2.nonce);
    assert_eq!(stream.cluster_sent, Some(7));
    assert_eq!(stream.routes_sent, Some(7));
}

#[test]
fn ads_type_urls_parse() {
    assert!(matches!(
        modelmux::ads::parse_type_url(b"envoy.config.cluster.v3.Cluster"),
        Some(TypeUrl::Cluster)
    ));
    assert!(matches!(
        modelmux::ads::parse_type_url(b"envoy.config.route.v3.RouteConfiguration"),
        Some(TypeUrl::RouteConfiguration)
    ));
    assert!(modelmux::ads::parse_type_url(b"envoy.config.listener.v3.Listener").is_none());
}

#[test]
fn direct_proxy_selects_a_serving_backend() {
    let state = two_backend_state();
    let wanted = b"m".to_vec();
    // both backends serve m; the draw picks among them
    let mut seen = [false, false];
    for draw in 0..10u64 {
        match decide_request(&state, Some(&wanted), draw) {
            RequestDecision::Forward { i, ip } => {
                assert!(i == 0 || i == 1);
                if i == 0 {
                    assert_eq!(ip, b"10.0.0.1".to_vec());
                    seen[0] = true;
                } else {
                    assert_eq!(ip, b"10.0.0.2".to_vec());
                    seen[1] = true;
                }
            }
            _ => panic!("a served model must be forwarded"),
        }
    }
    assert!(seen[0] && seen[1], "both serving backends must be reachable by the draw");
    // only the second backend serves n
    match decide_request(&state, Some(&b"n".to_vec()), 3) {
        RequestDecision::Forward { i, .. } => assert_eq!(i, 1),
        _ => panic!("a served model must be forwarded"),
    }
}

#[test]
fn direct_proxy_refuses_missing_and_unknown_models() {
    let state = two_backend_state();
    assert!(matches!(
        decide_request(&state, None, 0),
        RequestDecision::MissingModel
    ));
    assert!(matches!(
        decide_request(&state, Some(&b"unknown".to_vec()), 0),
        RequestDecision::UnknownModel
    ));
    // the 404 body is the OpenAI error envelope
    let body = modelmux::json_text::encode_error_body(404, b"model not found");
    let decoded: serde_json::Value = serde_json::from_slice(&body).unwrap();
    assert_eq!(decoded["object"], "error");
    assert_eq!(decoded["code"], 404);
}

#[test]
fn models_union_deduplicates_and_sorts() {
    let state: FleetState = vec![
        Some(vec![Endpoint {
            ip: b"10.0.0.1".to_vec(),
            models: vec![
                Model { id: b"zeta".to_vec(), running: Some(1), pending: None, extra: vec![] },
                Model { id: b"alpha".to_vec(), running: None, pending: Some(2), extra: vec![] },
            ],
        }]),
        Some(vec![Endpoint {
            ip: b"10.0.0.2".to_vec(),
            // duplicate id: the first observation's counters win
            models: vec![Model {
                id: b"zeta".to_vec(),
                running: Some(9),
                pending: Some(9),
                extra: vec![],
            }],
        }]),
    ];
    let union = models_union(&state);
    assert_eq!(union.len(), 2);
    assert_eq!(union[0].id, b"alpha".to_vec());
    assert_eq!(union[1].id, b"zeta".to_vec());
    assert_eq!(union[1].running, Some(1));
    assert_eq!(union[1].pending, None);
}

#[test]
fn scrub_strips_hop_by_hop_and_sensitive_headers() {
    let headers = vec![
        (b"authorization".to_vec(), b"bearer abc".to_vec()),
        (b"content-type".to_vec(), b"application/json".to_vec()),
        (b"connection".to_vec(), b"keep-alive".to_vec()),
        (b"host".to_vec(), b"example".to_vec()),
        (b"upgrade".to_vec(), b"h2c".to_vec()),
        (b"api-key".to_vec(), b"k".to_vec()),
        (b"accept".to_vec(), b"*/*".to_vec()),
    ];
    let plain = scrub_headers(&headers, false);
    let names: Vec<&[u8]> = plain.iter().map(|(n, _)| n.as_slice()).collect();
    assert_eq!(
        names,
        vec![b"content-type".as_slice(), b"api-key".as_slice(), b"accept".as_slice()]
    );
    let hosted = scrub_headers(&headers, true);
    let names: Vec<&[u8]> = hosted.iter().map(|(n, _)| n.as_slice()).collect();
    assert_eq!(
        names,
        vec![b"content-type".as_slice(), b"upgrade".as_slice(), b"accept".as_slice()]
    );
}

#[test]
fn tunneled_responses_keep_only_content_headers() {
    let headers = vec![
        (b"content-length".to_vec(), b"12".to_vec()),
        (b"server".to_vec(), b"backend".to_vec()),
        (b"content-type".to_vec(), b"application/json".to_vec()),
    ];
    let kept = keep_content_headers(&headers);
    assert_eq!(kept.len(), 2);
    assert_eq!(kept[0].0, b"content-length".to_vec());
    assert_eq!(kept[1].0, b"content-type".to_vec());
}

#[test]
fn hosted_url_and_resolve_uri() {
    let url = hosted_url(b"myres", b"gpt", b"chat/completions", b"2024-10-21");
    assert_eq!(
        String::from_utf8(url).unwrap(),
        "https://myres.openai.azure.com/openai/deployments/gpt/chat/completions?api-version=2024-10-21"
    );
    assert_eq!(
        modelmux::proxy::default_api_version(),
        b"2024-10-21".to_vec()
    );
    let target = resolve_uri(b"http://10.0.0.1:8000/", b"/v1/models?x=1");
    assert_eq!(target, b"http://10.0.0.1:8000/v1/models?x=1".to_vec());
}

#[test]
fn processor_decisions() {
    match process_decision(&ProcessingEvent::RequestHeaders { content_type_json: true }) {
        ProcessingAction::RequestHeaders { buffer_body } => assert!(buffer_body),
        _ => panic!("request headers must be acknowledged"),
    }
    match process_decision(&ProcessingEvent::RequestHeaders { content_type_json: false }) {
        ProcessingAction::RequestHeaders { buffer_body } => assert!(!buffer_body),
        _ => panic!("request headers must be acknowledged"),
    }
    match process_decision(&ProcessingEvent::RequestBody { model: Some(b"m".to_vec()) }) {
        ProcessingAction::RequestBody { set_model_header, clear_route_cache } => {
            assert_eq!(set_model_header, Some(b"m".to_vec()));
            assert!(clear_route_cache);
        }
        _ => panic!("request bodies must be acknowledged"),
    }
    match process_decision(&ProcessingEvent::RequestBody { model: None }) {
        ProcessingAction::RequestBody { set_model_header, clear_route_cache } => {
            assert_eq!(set_model_header, None);
            assert!(!clear_route_cache);
        }
        _ => panic!("request bodies must be acknowledged"),
    }
    assert!(matches!(
        process_decision(&ProcessingEvent::Empty),
        ProcessingAction::NoResponse
    ));
}

#[test]
fn pool_is_lru() {
    let mut pool = Pool::new();
    assert_eq!(pool.get(b"10.0.0.1", false), None);
    assert_eq!(pool.put(b"10.0.0.1", false, 100), None);
    assert_eq!(pool.put(b"10.0.0.2", false, 200), None);
    // same address under the other protocol flag is a different client
    assert_eq!(pool.get(b"10.0.0.1", true), None);
    assert_eq!(pool.put(b"10.0.0.1", true, 300), None);
    // a hit refreshes: 10.0.0.1/h1 moves to the front
    assert_eq!(pool.get(b"10.0.0.1", false), Some(100));
    assert_eq!(pool.entries[0].handle, 100);
    assert_eq!(pool.entries.len(), 3);
    // the stalest is now 10.0.0.2
    assert_eq!(pool.entries.last().unwrap().handle, 200);
}

#[test]
fn jitter_spacing_and_mean() {
    let mut rng = new_rng();
    let interval: u64 = 1_000_000;
    let lo = interval * 4 / 5;
    let hi = interval * 6 / 5;
    let mut prev: u64 = 10_000_000;
    let mut total: u128 = 0;
    let n = 1000u32;
    for _ in 0..n {
        // the scheduler is on time: it slept until prev, woke exactly then
        let next = advance_deadline(&mut rng, prev, prev, interval);
        let spacing = next - prev;
        assert!(spacing >= lo && spacing <= hi);
        total += spacing as u128;
        prev = next;
    }
    let mean = (total / n as u128) as u64;
    // the mean of 1000 uniform draws from [0.8I, 1.2I] lies near I
    assert!(mean > interval * 95 / 100 && mean < interval * 105 / 100);
}

#[test]
fn catch_up_skips_missed_slots() {
    let mut rng = new_rng();
    let interval: u64 = 1_000_000;
    // the scheduler is far behind: the next deadline still lands within one
    // jittered period after now, never in the past
    let prev: u64 = 0;
    let now: u64 = 50 * interval;
    let next = advance_deadline(&mut rng, prev, now, interval);
    assert!(next > now);
    assert!(next <= now + interval * 6 / 5);
}
