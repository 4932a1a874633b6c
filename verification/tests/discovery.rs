use aegisproxy::renewal::RenewalState;
use aegisproxy::discovery::{
    ProviderRegistry,
    carry_state, carry_states, provider_snapshot, resolve_dns_answers, valid_overlay, ProviderFailure, ProviderState,
};
use aegisproxy::map::OrderedMap;
use aegisproxy::net::{Cidr, IpAddress, SocketAddress};
use aegisproxy::provider::dns::{endpoints as dns_endpoints, sorted_answers};
use aegisproxy::provider::file::{
    document_text, endpoints as file_endpoints, FileEndpoint, FileProviderDocument,
};
use aegisproxy::provider::{
    dns_endpoint_id, DnsProviderConfig, FileProviderConfig, ProviderConfig, ProviderError,
    ProviderScheme,
};
use aegisproxy::schema::{
    Config, EndpointConfig, ListenerConfig, TlsConfig, UpstreamGroupConfig,
};
use aegisproxy::web::WebUrl;

fn ip(text: &str) -> IpAddress {
    IpAddress::parse(text).expect("IP")
}

fn file_provider() -> FileProviderConfig {
    FileProviderConfig {
        id: "nodes".into(),
        enabled: true,
        upstream_group: "app".into(),
        path: "/run/aegisproxy/nodes.toml".into(),
        scheme: ProviderScheme::Http,
        server_name: None,
        ca_bundle: None,
        refresh_secs: 1,
        debounce_millis: 50,
        stale_after_secs: 10,
        max_endpoints: 2,
    }
}

fn dns_provider() -> DnsProviderConfig {
    DnsProviderConfig {
        id: "nodes".into(),
        enabled: true,
        upstream_group: "app".into(),
        hostname: "nodes.example.test".into(),
        port: 8443,
        scheme: ProviderScheme::Https,
        server_name: Some("nodes.example.test".into()),
        ca_bundle: None,
        weight: 2,
        refresh_secs: 10,
        stale_after_secs: 30,
        max_answers: 2,
    }
}

fn endpoint(id: &str, url: &str) -> EndpointConfig {
    EndpointConfig {
        id: id.into(),
        url: WebUrl::parse(url).expect("URL"),
        weight: 1,
        server_name: None,
        ca_bundle: None,
    }
}

fn base() -> Config {
    Config {
        schema_version: 1,
        runtime: Default::default(),
        limits: Default::default(),
        listeners: vec![ListenerConfig {
            id: "public".into(),
            bind: SocketAddress::parse("127.0.0.1:8080").expect("address"),
            protocol: "http".into(),
            certificates: vec![],
        }],
        tls: TlsConfig::default(),
        certificates: vec![],
        acme: Default::default(),
        trusted_proxies: Default::default(),
        upstream_groups: vec![UpstreamGroupConfig {
            id: "app".into(),
            allowed_cidrs: vec![Cidr::parse("127.0.0.1/32").expect("CIDR")],
            endpoints: vec![endpoint("fallback", "http://127.0.0.1:9000")],
            ..UpstreamGroupConfig::default()
        }],
        providers: vec![ProviderConfig::File(FileProviderConfig {
            stale_after_secs: 3,
            max_endpoints: 4,
            ..file_provider()
        })],
        middlewares: OrderedMap::new(),
        routes: vec![],
        admin: Default::default(),
        observability: Default::default(),
    }
}

fn hash(byte: u8) -> Vec<u8> {
    vec![byte; 32]
}

#[test]
fn dns_endpoint_ids_are_stable_and_bounded() {
    assert_eq!(dns_endpoint_id(ip("192.0.2.1")), "v4-c0000201");
    assert_eq!(
        dns_endpoint_id(ip("2001:db8::1")),
        "v6-20010db8000000000000000000000001"
    );
}

#[test]
fn answers_are_deduplicated_sorted_and_use_fixed_policy() {
    let provider = dns_provider();
    let endpoints = dns_endpoints(
        &provider,
        &[ip("192.0.2.2"), ip("192.0.2.1"), ip("192.0.2.2")],
    )
    .expect("endpoints");
    assert_eq!(endpoints.len(), 2);
    assert_eq!(endpoints[0].url.as_str(), "https://192.0.2.1:8443/");
    assert_eq!(
        endpoints[0].server_name.as_deref(),
        Some("nodes.example.test")
    );
    assert_eq!(endpoints[0].id, "v4-c0000201");
    assert_eq!(endpoints[1].id, "v4-c0000202");
    assert_eq!(endpoints[1].weight, 2);
}

#[test]
fn dns_answers_beyond_bound_or_empty_are_limited() {
    let provider = dns_provider();
    assert!(matches!(
        dns_endpoints(&provider, &[]),
        Err(ProviderError::Limit)
    ));
    assert!(matches!(
        dns_endpoints(
            &provider,
            &[ip("192.0.2.1"), ip("192.0.2.2"), ip("192.0.2.3")]
        ),
        Err(ProviderError::Limit)
    ));
    assert!(matches!(
        resolve_dns_answers(
            &provider,
            &[ip("192.0.2.1"), ip("192.0.2.1"), ip("192.0.2.1")]
        ),
        Err(ProviderFailure::AnswerLimit)
    ));
}

#[test]
fn ipv6_answers_sort_after_ipv4_and_are_bracketed() {
    let provider = dns_provider();
    let sorted = sorted_answers(&[ip("2001:db8::1"), ip("192.0.2.9"), ip("2001:db8::1")]);
    assert_eq!(sorted, vec![ip("192.0.2.9"), ip("2001:db8::1")]);
    let endpoints =
        dns_endpoints(&provider, &[ip("2001:db8::1"), ip("192.0.2.9")]).expect("endpoints");
    assert_eq!(endpoints[0].url.as_str(), "https://192.0.2.9:8443/");
    assert_eq!(endpoints[1].url.as_str(), "https://[2001:db8::1]:8443/");
    let (resolved, source_hash) =
        resolve_dns_answers(&provider, &[ip("2001:db8::1"), ip("192.0.2.9")]).expect("resolved");
    assert_eq!(resolved.len(), 2);
    assert_eq!(source_hash.len(), 32);
    let (_, reordered) =
        resolve_dns_answers(&provider, &[ip("192.0.2.9"), ip("2001:db8::1")]).expect("resolved");
    assert_eq!(source_hash, reordered);
}

#[test]
fn strict_document_is_bounded_and_cannot_set_transport_policy() {
    let document = FileProviderDocument {
        schema_version: 1,
        provider_id: "nodes".into(),
        endpoints: vec![FileEndpoint {
            id: "node-a".into(),
            address: SocketAddress::parse("192.0.2.10:8080").expect("address"),
            weight: 1,
        }],
    };
    let endpoints = file_endpoints(&file_provider(), &document).expect("endpoints");
    assert_eq!(endpoints[0].url.as_str(), "http://192.0.2.10:8080/");
    assert!(matches!(document_text(b""), Err(ProviderError::Limit)));
    assert!(matches!(document_text(&[0xff, 0xfe]), Err(ProviderError::Invalid)));
    assert!(document_text(b"schema_version = 1").is_ok());
}

#[test]
fn document_identity_and_size_are_checked() {
    let mut document = FileProviderDocument {
        schema_version: 1,
        provider_id: "other".into(),
        endpoints: vec![],
    };
    assert!(matches!(
        file_endpoints(&file_provider(), &document),
        Err(ProviderError::Identity)
    ));
    document.provider_id = "nodes".into();
    assert!(matches!(
        file_endpoints(&file_provider(), &document),
        Err(ProviderError::Limit)
    ));
    document.schema_version = 2;
    assert!(matches!(
        file_endpoints(&file_provider(), &document),
        Err(ProviderError::Identity)
    ));
}

#[test]
fn rename_storm_requires_one_stable_debounce_window() {
    let policy = ProviderConfig::File(file_provider());
    let now = 1_000_u64;
    let mut state = ProviderState::new(policy.clone());
    assert!(!state.accept_debounce(&policy, &hash(1), now));
    assert!(!state.accept_debounce(&policy, &hash(2), now + 20));
    assert!(!state.accept_debounce(&policy, &hash(1), now + 40));
    assert!(state.accept_debounce(&policy, &hash(1), now + 100));
}

#[test]
fn event_storm_keeps_only_one_bounded_pending_hash() {
    let policy = ProviderConfig::File(file_provider());
    let now = 5_u64;
    let mut state = ProviderState::new(policy.clone());
    for index in 0_u64..100_000 {
        let mut source = vec![0_u8; 32];
        source[..8].copy_from_slice(&index.to_be_bytes());
        assert!(!state.accept_debounce(&policy, &source, now));
    }
    assert!(state.pending_hash.is_some());
    assert!(state.endpoints.is_empty());
}

#[test]
fn hard_stale_deadline_disables_provider_output() {
    let config = base();
    let policy = config.providers[0].clone();
    let now = 10_000_u64;
    let mut state = ProviderState::new(policy.clone());
    state.install_success(
        &policy,
        vec![endpoint("fallback", "http://127.0.0.1:9000")],
        hash(3),
        now,
        1_700_000_000,
    );
    assert!(state.usable(now + 3_000));
    assert!(!state.usable(now + 4_000));
    assert_eq!(state.status(true, now + 4_000).state, "stale");
    let status = state.status(true, now);
    assert_eq!(status.state, "fresh");
    assert_eq!(status.source_hash.as_deref().map(str::len), Some(64));
    assert_eq!(status.stale_at_unix_secs, Some(1_700_000_003));
    assert_eq!(state.status(false, now).state, "disabled");
}

#[test]
fn provider_document_cannot_bypass_egress_policy() {
    let config = base();
    let provider = config.providers[0].clone();
    let metadata = vec![endpoint("metadata", "http://169.254.169.254:80")];
    assert!(!valid_overlay(config.clone(), &provider, metadata));
    let duplicate = vec![
        endpoint("fallback", "http://127.0.0.1:9000"),
        endpoint("fallback", "http://127.0.0.1:9000"),
    ];
    assert!(!valid_overlay(config.clone(), &provider, duplicate));
    let node = vec![endpoint("node-a", "http://127.0.0.1:9100")];
    assert!(valid_overlay(config, &provider, node));
}

#[test]
fn failed_refresh_keeps_last_valid_endpoints() {
    let config = base();
    let policy = config.providers[0].clone();
    let mut state = ProviderState::new(policy.clone());
    assert!(state.refresh_due(&policy, 0));
    state.last_attempt_ms = Some(0);
    assert!(!state.refresh_due(&policy, 999));
    assert!(state.refresh_due(&policy, 1_000));
    state.install_success(
        &policy,
        vec![endpoint("node-a", "http://127.0.0.1:9100")],
        hash(4),
        0,
        0,
    );
    state.record_failure(&policy, ProviderFailure::InvalidSource);
    assert_eq!(state.endpoints[0].id, "node-a");
    let status = state.status(true, 10);
    assert_eq!(status.state, "degraded");
    assert_eq!(status.error, Some("invalid_source"));
    state.reject_result();
    assert_eq!(state.status(true, 10).error, Some("invalid_result"));
    let kept = carry_state(Some(state), &policy);
    assert_eq!(kept.endpoints.len(), 1);
    let other = ProviderConfig::File(FileProviderConfig {
        debounce_millis: 1,
        ..file_provider()
    });
    let fresh = carry_state(Some(kept), &other);
    assert!(fresh.endpoints.is_empty());
}

#[test]
fn fingerprint_part_names_the_source_in_use() {
    let config = base();
    let policy = config.providers[0].clone();
    let mut state = ProviderState::new(policy.clone());
    assert_eq!(state.fingerprint_part(&policy, 0), b"nodes\0static".to_vec());
    state.install_success(
        &policy,
        vec![endpoint("node-a", "http://127.0.0.1:9100")],
        hash(7),
        0,
        0,
    );
    let mut expected = b"nodes\0provider".to_vec();
    expected.extend_from_slice(&hash(7));
    assert_eq!(state.fingerprint_part(&policy, 0), expected);
}

#[test]
fn retry_state_is_bounded_and_advances() {
    let mut state = RenewalState::new();
    state.record_failure("site", 5_000, 1_000);
    assert_eq!(state.failed_attempts("site"), 1);
    assert!(state.waiting("site", 1_000));
    assert!(!state.waiting("site", 6_000));
    for _ in 0..100 {
        state.record_failure("site", 5_000, 1_000);
    }
    assert_eq!(state.failed_attempts("site"), 101);
    assert_eq!(state.failed_attempts("other"), 0);
    state.clear_failures("site");
    assert_eq!(state.failed_attempts("site"), 0);
    assert!(!state.waiting("site", 0));
}

#[test]
fn expiry_alerts_fire_once_per_threshold() {
    let mut state = RenewalState::new();
    assert!(state.note_expiry("site", Some(7)));
    assert!(!state.note_expiry("site", Some(7)));
    assert!(state.note_expiry("site", Some(3)));
    assert!(!state.note_expiry("site", None));
    assert!(state.note_expiry("site", Some(3)));
}

#[test]
fn registry_hands_out_one_consistent_snapshot() {
    let mut registry = ProviderRegistry::new();
    assert!(registry.statuses().is_empty());
    let policy = ProviderConfig::File(file_provider());
    let state = ProviderState::new(policy);
    registry.replace(vec![state.status(true, 0), state.status(false, 0)]);
    let snapshot = registry.statuses();
    assert_eq!(snapshot.len(), 2);
    assert_eq!(snapshot[0].state, "stale");
    assert_eq!(snapshot[1].state, "disabled");
    assert_eq!(snapshot[0].id, "nodes");
}

#[test]
fn refresh_steps_keep_last_valid_endpoints_until_a_debounced_valid_read() {
    let config = base();
    let policy = config.providers[0].clone();
    let mut state = carry_states(vec![], &config.providers).remove(0);
    assert!(state.needs_refresh(&policy, 0));
    let first = Ok((vec![endpoint("node-a", "http://127.0.0.1:9100")], hash(1)));
    state.apply_refresh(config.clone(), &policy, first, 0, 100);
    assert_eq!(state.last_attempt_ms, Some(0));
    assert!(state.endpoints.is_empty());
    assert_eq!(state.status(true, 0).state, "pending");

    let again = Ok((vec![endpoint("node-a", "http://127.0.0.1:9100")], hash(1)));
    state.apply_refresh(config.clone(), &policy, again, 60, 100);
    assert_eq!(state.endpoints[0].id, "node-a");
    assert_eq!(state.status(true, 60).state, "fresh");

    state.apply_refresh(config.clone(), &policy, Err(ProviderFailure::InvalidSource), 1_100, 101);
    assert_eq!(state.endpoints[0].id, "node-a");
    let status = state.status(true, 1_100);
    assert_eq!(status.state, "degraded");
    assert_eq!(status.error, Some("invalid_source"));

    let escape = Ok((vec![endpoint("metadata", "http://169.254.169.254:80")], hash(2)));
    state.apply_refresh(config.clone(), &policy, escape, 2_200, 102);
    assert!(state.pending_hash.is_some());
    let escape = Ok((vec![endpoint("metadata", "http://169.254.169.254:80")], hash(2)));
    state.apply_refresh(config, &policy, escape, 2_300, 102);
    assert_eq!(state.endpoints[0].id, "node-a");
    assert_eq!(state.status(true, 2_300).error, Some("invalid_result"));
}

#[test]
fn published_snapshot_has_one_status_per_provider_in_order() {
    let enabled = ProviderConfig::File(file_provider());
    let disabled = ProviderConfig::Dns(DnsProviderConfig {
        id: "names".into(),
        enabled: false,
        ..dns_provider()
    });
    let providers = vec![enabled.clone(), disabled.clone()];
    let previous = vec![ProviderState::new(disabled), ProviderState::new(enabled)];
    let states = carry_states(previous, &providers);
    assert_eq!(states.len(), 2);
    let snapshot = provider_snapshot(&providers, &states, 0);
    assert_eq!(snapshot[0].id, "nodes");
    assert_eq!(snapshot[0].kind, "file");
    assert_eq!(snapshot[0].state, "stale");
    assert_eq!(snapshot[1].id, "names");
    assert_eq!(snapshot[1].kind, "dns");
    assert_eq!(snapshot[1].state, "disabled");
    let mut registry = ProviderRegistry::new();
    registry.publish(&providers, &states, 0);
    assert_eq!(registry.statuses().len(), 2);
    assert_eq!(registry.statuses()[1].state, "disabled");
}
