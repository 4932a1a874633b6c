use aegisproxy::issuance::{
    lookup_confirms_values, same_certificate_policy, same_issuer_policy, txt_value_matches,
    MAX_DNS_CHALLENGE_ANSWERS, MAX_DNS_CHALLENGE_VALUE_BYTES,
};
use aegisproxy::map::OrderedMap;
use aegisproxy::net::SocketAddress;
use aegisproxy::node::{hot_reload_compatible, validate_node_policy, NodeIdentity, ProxyError};
use aegisproxy::schema::{
    AcmeCertificateConfig, AcmeChallenge, AcmeConfig, AcmeEnvironment, AcmeIssuerConfig,
    AdminConfig, Config, LimitsConfig, ListenerConfig, ObservabilityConfig, RuntimeConfig,
    TlsConfig, TrustedProxyConfig,
};
use aegisproxy::web::WebUrl;

fn config(port: u16) -> Config {
    Config {
        schema_version: 1,
        runtime: RuntimeConfig::default(),
        limits: LimitsConfig::default(),
        listeners: vec![ListenerConfig {
            id: "http".into(),
            bind: SocketAddress::parse(&format!("127.0.0.1:{port}")).expect("address"),
            protocol: "http".into(),
            certificates: vec![],
        }],
        tls: TlsConfig::default(),
        certificates: vec![],
        acme: AcmeConfig::default(),
        trusted_proxies: TrustedProxyConfig::default(),
        upstream_groups: vec![],
        providers: vec![],
        middlewares: OrderedMap::new(),
        routes: vec![],
        admin: AdminConfig::default(),
        observability: ObservabilityConfig::default(),
    }
}

fn boxed(bytes: &[u8]) -> Box<[u8]> {
    bytes.to_vec().into_boxed_slice()
}

#[test]
fn txt_matching_is_exact_bounded_and_joins_segments() {
    let segments = vec![boxed(b"first"), boxed(b"second")];
    assert!(txt_value_matches(&segments, b"firstsecond"));
    assert!(!txt_value_matches(&segments, b"first"));
    assert!(!txt_value_matches(
        &[vec![b'x'; MAX_DNS_CHALLENGE_VALUE_BYTES + 1].into_boxed_slice()],
        &vec![b'x'; MAX_DNS_CHALLENGE_VALUE_BYTES + 1]
    ));
}

#[test]
fn txt_matching_accepts_the_bound_and_an_empty_record() {
    assert!(txt_value_matches(
        &[vec![b'x'; MAX_DNS_CHALLENGE_VALUE_BYTES].into_boxed_slice()],
        &vec![b'x'; MAX_DNS_CHALLENGE_VALUE_BYTES]
    ));
    assert!(txt_value_matches(&[], b""));
    assert!(!txt_value_matches(&[boxed(b"secondfirst")], b"firstsecond"));
}

#[test]
fn lookup_confirms_every_value_within_the_answer_bound() {
    let answers = vec![vec![boxed(b"abc")], vec![boxed(b"de"), boxed(b"f")]];
    assert!(lookup_confirms_values(&answers, &[b"def".to_vec(), b"abc".to_vec()]));
    assert!(!lookup_confirms_values(&answers, &[b"abc".to_vec(), b"xyz".to_vec()]));
    let flood: Vec<Vec<Box<[u8]>>> = (0..=MAX_DNS_CHALLENGE_ANSWERS)
        .map(|_| vec![boxed(b"abc")])
        .collect();
    assert!(!lookup_confirms_values(&flood, &[b"abc".to_vec()]));
}

#[test]
fn validates_bounded_node_identity() {
    let identity = NodeIdentity::new("node-a".into(), 7).expect("valid identity");
    assert_eq!(identity.id(), "node-a");
    assert_eq!(identity.fleet_generation(), 7);
    assert!(NodeIdentity::new("Node A".into(), 7).is_err());
    assert!(NodeIdentity::new("a".repeat(64), 7).is_err());
}

#[test]
fn standalone_identity_and_error_text() {
    let identity = NodeIdentity::standalone();
    assert_eq!(identity.id(), "standalone");
    assert_eq!(identity.fleet_generation(), 0);
    let error = NodeIdentity::new(String::new(), 1).expect_err("empty identifier");
    assert_eq!(error.to_string(), "runtime preparation failed: invalid node identifier");
    assert!(matches!(error, ProxyError::Preparation(_)));
}

#[test]
fn fleet_acme_requires_renewal_owner() {
    let mut config = config(8080);
    let fleet = NodeIdentity::new("node-a".into(), 3).expect("identity");
    assert!(validate_node_policy(&config, &fleet).is_ok());
    config.acme.certificates.push(AcmeCertificateConfig {
        id: "site".into(),
        hosts: vec!["example.test".into()],
        issuer: "le".into(),
        challenge: AcmeChallenge::Http01,
        challenge_listener: Some("http".into()),
        dns_provider: None,
        profile: None,
        renew_before_days: 30,
    });
    assert!(validate_node_policy(&config, &fleet).is_err());
    assert!(validate_node_policy(&config, &NodeIdentity::standalone()).is_ok());
    config.acme.renewal_owner = Some("node-a".into());
    assert!(validate_node_policy(&config, &fleet).is_ok());
}

#[test]
fn browser_admin_changes_require_restart() {
    let current = config(8080);
    let mut candidate = current.clone();
    candidate.admin.web.enabled = true;
    assert!(!hot_reload_compatible(&current, &candidate));
}

#[test]
fn unchanged_sockets_reload_in_place_and_moved_ones_do_not() {
    let current = config(8080);
    let mut candidate = current.clone();
    candidate.routes.clear();
    assert!(hot_reload_compatible(&current, &candidate));
    let moved = config(8081);
    assert!(!hot_reload_compatible(&current, &moved));
    let mut limited = current.clone();
    limited.limits.max_connections = 1;
    assert!(!hot_reload_compatible(&current, &limited));
}

#[test]
fn issuer_and_certificate_policies_compare_every_field() {
    let issuer = AcmeIssuerConfig {
        id: "le".into(),
        directory_url: WebUrl::parse("https://acme.test/directory").expect("URL"),
        environment: AcmeEnvironment::Production,
        account_email: None,
        terms_of_service_agreed: true,
        ca_bundle: None,
        external_account: None,
        max_concurrent_orders: 2,
    };
    let mut other = issuer.clone();
    assert!(same_issuer_policy(&issuer, &other));
    other.environment = AcmeEnvironment::Staging;
    assert!(!same_issuer_policy(&issuer, &other));

    let certificate = AcmeCertificateConfig {
        id: "site".into(),
        hosts: vec!["example.test".into(), "www.example.test".into()],
        issuer: "le".into(),
        challenge: AcmeChallenge::Dns01,
        challenge_listener: None,
        dns_provider: Some("cloudflare".into()),
        profile: None,
        renew_before_days: 30,
    };
    let mut reordered = certificate.clone();
    assert!(same_certificate_policy(&certificate, &reordered));
    reordered.hosts.reverse();
    assert!(!same_certificate_policy(&certificate, &reordered));
}
