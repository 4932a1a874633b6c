use aegisproxy::naming::{validate_exact_host, validate_upstream_hostname};
use aegisproxy::routing::{validate_route_matchers, validate_upstream_policy};
use aegisproxy::schema::{
    default_drain_timeout_secs, default_upstream_max_in_flight, CircuitBreakerConfig, DnsConfig,
    HeaderMatch, HealthCheckConfig, RetryConfig, RouteConfig, UpstreamGroupConfig,
};

fn test_route() -> RouteConfig {
    RouteConfig {
        id: "route".into(),
        listeners: vec!["public".into()],
        hosts: vec!["example.test".into()],
        paths: vec![],
        path_prefixes: vec!["/api".into()],
        methods: vec!["GET".into()],
        headers: vec![HeaderMatch {
            name: "x-tenant".into(),
            value: Some("blue".into()),
        }],
        default: false,
        priority: 0,
        middlewares: vec![],
        upstream_group: Some("app".into()),
    }
}

fn explicit_default_route() {
    let mut route = test_route();
    route.hosts.clear();
    route.path_prefixes = vec!["/".into()];
    route.methods.clear();
    route.headers.clear();
    assert!(validate_route_matchers(&route).is_err());

    route.path_prefixes.clear();
    route.default = true;
    assert!(validate_route_matchers(&route).is_ok());
    route.priority = 1;
    assert!(validate_route_matchers(&route).is_err());
}

fn noncanonical_route_predicates() {
    let mut route = test_route();
    route.hosts = vec!["Example.Test".into()];
    assert!(validate_route_matchers(&route).is_err());

    let mut route = test_route();
    route.path_prefixes = vec!["/api/%2fadmin".into()];
    assert!(validate_route_matchers(&route).is_err());

    let mut route = test_route();
    route.methods = vec!["get".into()];
    assert!(validate_route_matchers(&route).is_err());

    let mut route = test_route();
    route.headers[0].value = Some("blue\r\ninjected: true".into());
    assert!(validate_route_matchers(&route).is_err());
}

fn ambiguous_route_predicate_lists() {
    let mut route = test_route();
    route.hosts.push("example.test".into());
    assert!(validate_route_matchers(&route).is_err());

    let mut route = test_route();
    route.headers.push(HeaderMatch {
        name: "x-tenant".into(),
        value: Some("green".into()),
    });
    assert!(validate_route_matchers(&route).is_err());

    let mut route = test_route();
    route.headers[0].name = "connection".into();
    assert!(validate_route_matchers(&route).is_err());
}

fn exact_paths_and_header_presence() {
    let mut route = test_route();
    route.paths = vec!["/api/".into()];
    route.path_prefixes.clear();
    route.headers[0].value = None;
    assert!(validate_route_matchers(&route).is_ok());

    route.paths.clear();
    route.path_prefixes = vec!["/api/".into()];
    assert!(validate_route_matchers(&route).is_err());
}

fn phase4_upstream_policy_before_activation() {
    let mut group = UpstreamGroupConfig {
        id: "app".into(),
        ..UpstreamGroupConfig::default()
    };
    assert!(validate_upstream_policy(0, &group).is_ok());

    group.dns.max_answers = 0;
    assert!(validate_upstream_policy(0, &group)
        .expect_err("zero DNS answers must fail")
        .to_string()
        .contains("upstream_groups[0].dns"));
    group.dns = DnsConfig::default();

    group.dns.max_answers = 8;
    validate_upstream_policy(0, &group).expect("active DNS policy must validate");
    group.dns = DnsConfig::default();

    group.drain_timeout_secs = 10;
    validate_upstream_policy(0, &group).expect("bounded drain policy");
    group.drain_timeout_secs = 0;
    assert!(validate_upstream_policy(0, &group).is_err());
    group.drain_timeout_secs = default_drain_timeout_secs();

    group.max_in_flight = 1;
    validate_upstream_policy(0, &group).expect("bounded in-flight policy");
    group.max_in_flight = 0;
    assert!(validate_upstream_policy(0, &group).is_err());
    group.max_in_flight = default_upstream_max_in_flight();

    group.retry.max_attempts = 6;
    assert!(validate_upstream_policy(0, &group)
        .expect_err("excess attempts must fail")
        .to_string()
        .contains("unsafe"));
    group.retry.max_attempts = 2;
    group.retry.replay_body_bytes = 1_024;
    validate_upstream_policy(0, &group).expect("active retries must validate");
    group.retry = RetryConfig::default();

    group.health = Some(HealthCheckConfig::default());
    validate_upstream_policy(0, &group).expect("active health checks must validate");
    group.health.as_mut().expect("health").timeout_secs = 10;
    assert!(validate_upstream_policy(0, &group)
        .expect_err("probe timeout must be below interval")
        .to_string()
        .contains("unsafe"));
    group.health = None;

    group.circuit_breaker = Some(CircuitBreakerConfig::default());
    validate_upstream_policy(0, &group).expect("active circuit must validate");
    group
        .circuit_breaker
        .as_mut()
        .expect("circuit")
        .minimum_requests = 101;
    assert!(validate_upstream_policy(0, &group)
        .expect_err("sample bounds must fail")
        .to_string()
        .contains("unsafe"));
}

#[test]
fn routing_requires_explicit_default_route() {
    explicit_default_route();
}

#[test]
fn mod_requires_explicit_default_route() {
    explicit_default_route();
}

#[test]
fn routing_rejects_noncanonical_route_predicates() {
    noncanonical_route_predicates();
}

#[test]
fn mod_rejects_noncanonical_route_predicates() {
    noncanonical_route_predicates();
}

#[test]
fn routing_rejects_ambiguous_route_predicate_lists() {
    ambiguous_route_predicate_lists();
}

#[test]
fn mod_rejects_ambiguous_route_predicate_lists() {
    ambiguous_route_predicate_lists();
}

#[test]
fn routing_validates_exact_paths_and_header_presence() {
    exact_paths_and_header_presence();
}

#[test]
fn mod_validates_exact_paths_and_header_presence() {
    exact_paths_and_header_presence();
}

#[test]
fn transport_bounds_phase4_upstream_policy_before_activation() {
    phase4_upstream_policy_before_activation();
}

#[test]
fn mod_bounds_phase4_upstream_policy_before_activation() {
    phase4_upstream_policy_before_activation();
}

#[test]
fn upstream_policy_error_names_the_group_index() {
    let mut group = UpstreamGroupConfig {
        id: "app".into(),
        ..UpstreamGroupConfig::default()
    };
    group.dns.max_answers = 0;
    let message = validate_upstream_policy(3, &group)
        .expect_err("zero DNS answers must fail")
        .to_string();
    assert!(message.contains("upstream_groups[3].dns"));
}

#[test]
fn default_route_may_not_carry_host_predicates() {
    let mut route = test_route();
    route.default = true;
    assert!(validate_route_matchers(&route).is_err());
}

#[test]
fn host_names_pass_exactly_when_every_label_is_a_dns_label() {
    assert!(validate_exact_host("example.test").is_ok());
    for bad in ["*.example.test", "Example.Test", "localhost", "example.test.", "-a.test"] {
        assert!(validate_exact_host(bad).is_err(), "accepted exact host {bad}");
    }
    assert!(validate_upstream_hostname("app.internal").is_ok());
    assert!(validate_upstream_hostname("localhost").is_ok());
    for bad in ["bad_name.internal", "App.internal", "a..b", "a-.b", ""] {
        assert!(validate_upstream_hostname(bad).is_err(), "accepted upstream host {bad}");
    }
    let long_label = "a".repeat(64);
    assert!(validate_upstream_hostname(&long_label).is_err());
    assert!(validate_upstream_hostname(&"a".repeat(63)).is_ok());
}
