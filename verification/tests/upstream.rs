use aegisproxy::schema::{EndpointConfig, RetryConfig};
use aegisproxy::upstream::{attempt_budget, strip_hop_by_hop_headers, upstream_uri};
use aegisproxy::web::WebUrl;

fn endpoint(url: &str) -> EndpointConfig {
    EndpointConfig {
        id: "a".into(),
        url: WebUrl::parse(url).expect("URL"),
        weight: 1,
        server_name: None,
        ca_bundle: None,
    }
}

#[test]
fn upstream_uri_joins_base_path_once() {
    let base = endpoint("http://127.0.0.1:9000/base/");
    assert_eq!(
        upstream_uri(&base, "/x/y", Some("a=1")).as_deref(),
        Some("http://127.0.0.1:9000/base/x/y?a=1")
    );
    assert_eq!(
        upstream_uri(&base, "/", None).as_deref(),
        Some("http://127.0.0.1:9000/base/")
    );
    let root = endpoint("http://127.0.0.1:9000");
    assert_eq!(
        upstream_uri(&root, "/x", None).as_deref(),
        Some("http://127.0.0.1:9000/x")
    );
}

#[test]
fn retries_only_replayable_idempotent_requests() {
    let retry = RetryConfig {
        max_attempts: 3,
        total_timeout_secs: 10,
        replay_body_bytes: 100,
    };
    assert_eq!(attempt_budget(&retry, true, false, false, Some(100)), 3);
    assert_eq!(attempt_budget(&retry, true, false, false, Some(101)), 1);
    assert_eq!(attempt_budget(&retry, true, false, false, None), 1);
    assert_eq!(attempt_budget(&retry, false, false, false, Some(0)), 1);
    assert_eq!(attempt_budget(&retry, true, true, false, Some(0)), 1);
    assert_eq!(attempt_budget(&retry, true, false, true, Some(0)), 1);
}

#[test]
fn hop_by_hop_fields_named_by_connection_are_stripped() {
    let plan = strip_hop_by_hop_headers(
        &vec![b"keep-alive, X-Custom , Upgrade".to_vec(), b",".to_vec()],
        true,
        false,
    );
    assert_eq!(
        plan.remove,
        vec![
            "keep-alive",
            "x-custom",
            "keep-alive",
            "proxy-connection",
            "transfer-encoding",
            "trailer",
            "te"
        ]
    );
    assert!(plan.connection_upgrade);
    assert!(!plan.te_trailers);
    let plan = strip_hop_by_hop_headers(&vec![b"upgrade".to_vec()], false, true);
    assert_eq!(plan.remove[0], "upgrade");
    assert!(!plan.connection_upgrade && plan.te_trailers);
}
