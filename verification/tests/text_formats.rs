use modelmux::config_text::{parse_duration, ConfigError};
use modelmux::decimal::{fmt_u64, parse_u64};
use modelmux::json_text::{encode_error_body, encode_list_body};
use modelmux::openmetrics::scrape_totals;
use modelmux::schemas::Model;
use modelmux::upstream::Upstream;

fn model(id: &str, running: Option<u64>, pending: Option<u64>) -> Model {
    Model { id: id.as_bytes().to_vec(), running, pending, extra: vec![] }
}

#[test]
fn decimal_round_trips() {
    for n in [0u64, 7, 10, 65535, 1_000_000_007, u64::MAX] {
        let text = fmt_u64(n);
        assert_eq!(parse_u64(&text), Some(n));
    }
    assert_eq!(fmt_u64(0), b"0".to_vec());
    assert_eq!(fmt_u64(1234), b"1234".to_vec());
    assert_eq!(parse_u64(b""), None);
    assert_eq!(parse_u64(b"12x"), None);
    // one past the largest u64
    assert_eq!(parse_u64(b"18446744073709551616"), None);
    assert_eq!(parse_u64(b"18446744073709551615"), Some(u64::MAX));
}

#[test]
fn list_body_is_the_expected_json() {
    let body = encode_list_body(&vec![model("m", Some(2), None)]);
    assert_eq!(
        String::from_utf8(body).unwrap(),
        r#"{"object":"list","data":[{"object":"model","id":"m","running":2,"pending":null}]}"#
    );
    let empty = encode_list_body(&vec![]);
    assert_eq!(String::from_utf8(empty).unwrap(), r#"{"object":"list","data":[]}"#);
}

#[test]
fn list_body_round_trips_through_json_decode() {
    // the list-models body decodes back to the same model set
    let models = vec![
        model("a\"quoted\\", Some(1), Some(2)),
        model("b\ncontrol", None, Some(0)),
        model("plain", None, None),
    ];
    let body = encode_list_body(&models);
    let decoded: serde_json::Value = serde_json::from_slice(&body).expect("body must be JSON");
    assert_eq!(decoded["object"], "list");
    let data = decoded["data"].as_array().expect("data must be an array");
    assert_eq!(data.len(), models.len());
    for (entry, m) in data.iter().zip(models.iter()) {
        assert_eq!(entry["object"], "model");
        assert_eq!(
            entry["id"].as_str().expect("id must be a string").as_bytes(),
            m.id.as_slice()
        );
        match m.running {
            Some(n) => assert_eq!(entry["running"].as_u64(), Some(n)),
            None => assert!(entry["running"].is_null()),
        }
        match m.pending {
            Some(n) => assert_eq!(entry["pending"].as_u64(), Some(n)),
            None => assert!(entry["pending"].is_null()),
        }
    }
}

#[test]
fn list_body_preserves_opaque_extra_fields() {
    // arbitrary backend fields ride through the list body verbatim
    let mut m = model("m", Some(1), None);
    m.extra = vec![
        (b"context_length".to_vec(), b"4096".to_vec()),
        (b"owned_by".to_vec(), b"\"vllm\"".to_vec()),
        (b"tags".to_vec(), b"[\"a\",{\"b\":2}]".to_vec()),
    ];
    let body = encode_list_body(&vec![m]);
    let decoded: serde_json::Value = serde_json::from_slice(&body).expect("body must be JSON");
    let entry = &decoded["data"][0];
    assert_eq!(entry["id"], "m");
    assert_eq!(entry["running"], 1);
    assert_eq!(entry["context_length"], 4096);
    assert_eq!(entry["owned_by"], "vllm");
    assert_eq!(entry["tags"][0], "a");
    assert_eq!(entry["tags"][1]["b"], 2);
}

#[test]
fn error_envelope_shape() {
    let body = encode_error_body(404, b"model not found");
    let decoded: serde_json::Value = serde_json::from_slice(&body).unwrap();
    assert_eq!(decoded["object"], "error");
    assert_eq!(decoded["code"], 404);
    assert_eq!(decoded["message"], "model not found");
}

#[test]
fn scrape_sums_the_two_target_families() {
    let body = b"# HELP vllm:num_requests_running requests\n\
# TYPE vllm:num_requests_running gauge\n\
vllm:num_requests_running{engine=\"0\"} 3.0\n\
vllm:num_requests_running{engine=\"1\"} 2.0\n\
vllm:num_requests_waiting{engine=\"0\"} 7.0\n\
other_metric 99\n\
# EOF\n";
    assert_eq!(scrape_totals(body), (Some(5), Some(7)));
}

#[test]
fn scrape_handles_crlf_and_bare_names() {
    let body = b"vllm:num_requests_running 4\r\nvllm:num_requests_waiting 0.9\r\n";
    // fractions are truncated per sample
    assert_eq!(scrape_totals(body), (Some(4), Some(0)));
}

#[test]
fn scrape_without_samples_reports_nothing() {
    assert_eq!(scrape_totals(b""), (None, None));
    assert_eq!(scrape_totals(b"# only comments\n"), (None, None));
    assert_eq!(scrape_totals(b"some_other_metric 5\n"), (None, None));
}

#[test]
fn scrape_skips_malformed_samples() {
    let body = b"vllm:num_requests_running notanumber\n\
vllm:num_requests_running{open=\"unclosed 3\n\
vllm:num_requests_waiting 2\n";
    assert_eq!(scrape_totals(body), (None, Some(2)));
}

#[test]
fn scrape_reads_negative_as_zero_and_counts_unterminated_tail() {
    let body = b"vllm:num_requests_waiting -3.5\nvllm:num_requests_running 1";
    assert_eq!(scrape_totals(body), (Some(1), Some(0)));
}

#[test]
fn scrape_quoted_labels_hide_spaces_and_braces() {
    let body = b"vllm:num_requests_running{note=\"a } b\",x=\"\\\"q\\\"\"} 6\n";
    assert_eq!(scrape_totals(body), (Some(6), None));
}

#[test]
fn durations_accept_human_units() {
    assert_eq!(parse_duration(b"5s"), Some(5_000_000_000));
    assert_eq!(parse_duration(b"1m"), Some(60_000_000_000));
    assert_eq!(parse_duration(b"250ms"), Some(250_000_000));
    assert_eq!(parse_duration(b"3us"), Some(3_000));
    assert_eq!(parse_duration(b"7ns"), Some(7));
    assert_eq!(parse_duration(b"2h"), Some(7_200_000_000_000));
    assert_eq!(parse_duration(b"1d"), Some(86_400_000_000_000));
    assert_eq!(parse_duration(b"s"), None);
    assert_eq!(parse_duration(b"5"), None);
    assert_eq!(parse_duration(b"5w"), None);
    // far beyond the range a u64 of nanoseconds can hold
    assert_eq!(parse_duration(b"999999999999d"), None);
}

#[test]
fn upstream_parse_accepts_the_documented_shape() {
    let u = Upstream::from_str_bytes(b"http://a.local/?interval=5s").unwrap();
    assert_eq!(u.scheme, b"http".to_vec());
    assert_eq!(u.host, b"a.local".to_vec());
    assert_eq!(u.port, None);
    assert!(!u.http2_only);
    assert_eq!(u.interval, 5_000_000_000);
    assert_eq!(u.timeout, None);

    let u = Upstream::from_str_bytes(
        b"https://b:8443/?interval=1m&http2_only=true&timeout=250ms",
    )
    .unwrap();
    assert_eq!(u.scheme, b"https".to_vec());
    assert_eq!(u.host, b"b".to_vec());
    assert_eq!(u.port, Some(8443));
    assert!(u.http2_only);
    assert_eq!(u.interval, 60_000_000_000);
    assert_eq!(u.timeout, Some(250_000_000));
}

#[test]
fn upstream_parse_rejects_what_it_must() {
    assert!(matches!(
        Upstream::from_str_bytes(b"nota-uri"),
        Err(ConfigError::BadUri)
    ));
    assert!(matches!(
        Upstream::from_str_bytes(b"http://:80/?interval=5s"),
        Err(ConfigError::BadUri)
    ));
    assert!(matches!(
        Upstream::from_str_bytes(b"http://h:99999/?interval=5s"),
        Err(ConfigError::BadPort)
    ));
    assert!(matches!(
        Upstream::from_str_bytes(b"http://h/?interval=5s&bogus=1"),
        Err(ConfigError::UnknownKey)
    ));
    assert!(matches!(
        Upstream::from_str_bytes(b"http://h/?interval=5s&interval=6s"),
        Err(ConfigError::DuplicateKey)
    ));
    assert!(matches!(
        Upstream::from_str_bytes(b"http://h/?interval=5s&http2_only=yes"),
        Err(ConfigError::BadFlag)
    ));
    assert!(matches!(
        Upstream::from_str_bytes(b"http://h/?interval=fast"),
        Err(ConfigError::BadDuration)
    ));
    assert!(matches!(
        Upstream::from_str_bytes(b"http://h/?http2_only=true"),
        Err(ConfigError::MissingInterval)
    ));
}

#[test]
fn cluster_names_match_the_reference_hash() {
    // the naming wrappers must agree with the hash and hex crates applied
    // directly — a name computed any other way would break the data plane
    let name = modelmux::naming::cluster_name(3, b"192.168.0.7");
    let expected = format!(
        "cluster_{}",
        hex::encode(<sha2::Sha224 as sha2::Digest>::digest(b"3:192.168.0.7"))
    );
    assert_eq!(name, expected.into_bytes());
}

#[test]
fn cluster_name_depends_on_pair_only() {
    let a = modelmux::naming::cluster_name(0, b"10.0.0.1");
    let b = modelmux::naming::cluster_name(0, b"10.0.0.1");
    let c = modelmux::naming::cluster_name(1, b"10.0.0.1");
    let d = modelmux::naming::cluster_name(0, b"10.0.0.2");
    assert_eq!(a, b);
    assert_ne!(a, c);
    assert_ne!(a, d);
}
