use aegisproxy::config::validate;
use aegisproxy::middleware::validate_middleware;
use aegisproxy::map::OrderedMap;
use aegisproxy::net::{validate_egress_ip, Cidr, IpAddress, SocketAddress};
use aegisproxy::schema::{
    AcmeCertificateConfig, AcmeChallenge, AcmeEnvironment, AcmeIssuerConfig, CertificateConfig,
    BalancingAlgorithm, CompressionEncoding, Config, EndpointConfig, HeaderMatch,
    HealthCheckConfig, HealthCheckKind, ListenerConfig, LimitsConfig, MiddlewareConfig,
    RateLimitKey, RetryConfig, RouteConfig, UpstreamGroupConfig,
};
use aegisproxy::web::WebUrl;

fn base_config() -> Config {
    Config {
        schema_version: 1,
        runtime: Default::default(),
        limits: LimitsConfig::default(),
        listeners: vec![ListenerConfig {
            id: "public".into(),
            bind: SocketAddress::parse("127.0.0.1:8080").expect("test address"),
            protocol: "http".into(),
            certificates: vec![],
        }],
        tls: Default::default(),
        certificates: vec![],
        acme: Default::default(),
        trusted_proxies: Default::default(),
        upstream_groups: vec![],
        providers: vec![],
        middlewares: OrderedMap::new(),
        routes: vec![],
        admin: Default::default(),
        observability: Default::default(),
    }
}

fn cidr(text: &str) -> Cidr {
    Cidr::parse(text).expect("CIDR")
}

fn add_http_upstream(config: &mut Config) {
    config.upstream_groups.push(UpstreamGroupConfig {
        id: "app".into(),
        allowed_cidrs: vec![cidr("127.0.0.1/32")],
        endpoints: vec![EndpointConfig {
            id: "app-1".into(),
            url: WebUrl::parse("http://127.0.0.1:9000").expect("URL"),
            weight: 1,
            server_name: None,
            ca_bundle: None,
        }],
        ..UpstreamGroupConfig::default()
    });
}

fn test_route() -> RouteConfig {
    RouteConfig {
        id: "route".into(),
        listeners: vec!["public".into()],
        hosts: vec!["example.test".into()],
        paths: vec![],
        path_prefixes: vec!["/api".into()],
        methods: vec!["GET".into()],
        headers: vec![HeaderMatch { name: "x-tenant".into(), value: Some("blue".into()) }],
        default: false,
        priority: 0,
        middlewares: vec![],
        upstream_group: Some("app".into()),
    }
}

fn acme_config(challenge: AcmeChallenge, host: &str) -> Config {
    let mut config = base_config();
    config.tls.identity = Some("env://STATE_IDENTITY".into());
    config.tls.state_encryption_recipients =
        vec![age::x25519::Identity::generate().to_public().to_string()];
    config.acme.issuers.push(AcmeIssuerConfig {
        id: "pebble".into(),
        directory_url: WebUrl::parse("https://127.0.0.1:14000/dir").expect("URL"),
        environment: AcmeEnvironment::Staging,
        account_email: Some("ops@example.test".into()),
        terms_of_service_agreed: true,
        ca_bundle: Some("file:///pebble-ca.pem".into()),
        external_account: None,
        max_concurrent_orders: 2,
    });
    config.acme.certificates.push(AcmeCertificateConfig {
        id: "managed".into(),
        hosts: vec![host.into()],
        issuer: "pebble".into(),
        challenge,
        challenge_listener: Some("public".into()),
        dns_provider: None,
        profile: None,
        renew_before_days: 30,
    });
    config
}

fn check_duplicate_listener_bind() {
    let mut config = base_config();
    let bind = config.listeners[0].bind;
    config.listeners.push(ListenerConfig {
        id: "other".into(),
        bind,
        protocol: "http".into(),
        certificates: vec![],
    });
    assert!(validate(&config).is_err());
}

fn check_unsafe_resource_limits() {
    let mut config = base_config();
    config.limits.max_header_bytes = 1024;
    assert!(validate(&config).is_err());
    config.limits.max_header_bytes = LimitsConfig::default().max_header_bytes;
    config.limits.max_request_target = 512;
    assert!(validate(&config).is_err());
    config.limits.max_request_target = LimitsConfig::default().max_request_target;
    config.limits.max_dns_lookups = 0;
    assert!(validate(&config).is_err());
    config.limits.max_dns_lookups = LimitsConfig::default().max_dns_lookups;
    config.limits.tcp_idle_timeout_secs = config.limits.tcp_connection_lifetime_secs + 1;
    assert!(validate(&config).is_err());
}

fn check_egress_policy() {
    let loopback = IpAddress::parse("127.0.0.1").expect("IP");
    assert!(validate_egress_ip(loopback, &[], &[]).is_err());
    let allowed = [cidr("127.0.0.1/32")];
    assert!(validate_egress_ip(loopback, &allowed, &[]).is_ok());
    assert!(validate_egress_ip(loopback, &allowed, &allowed).is_err());
    let metadata = IpAddress::parse("169.254.169.254").expect("IP");
    assert!(validate_egress_ip(metadata, &[cidr("169.254.0.0/16")], &[]).is_err());
}

fn check_inline_certificate_secrets() {
    let mut config = base_config();
    config.certificates.push(CertificateConfig {
        id: "site".into(),
        hosts: vec!["example.test".into()],
        certificate_chain: "-----BEGIN CERTIFICATE-----".into(),
        private_key: "env://TLS_KEY".into(),
    });
    assert!(validate(&config).is_err());
}

fn check_unsafe_certificate_wildcards() {
    let mut config = base_config();
    config.certificates.push(CertificateConfig {
        id: "site".into(),
        hosts: vec!["*.*.example.test".into()],
        certificate_chain: "env://TLS_CERT".into(),
        private_key: "env://TLS_KEY".into(),
    });
    assert!(validate(&config).is_err());
}

fn check_known_certificate_on_https_listener() {
    let mut config = base_config();
    config.listeners[0].protocol = "https".into();
    config.listeners[0].certificates = vec!["missing".into()];
    let error = validate(&config).expect_err("unknown certificate must fail");
    assert!(error.to_string().contains("listeners[0].certificates[0]"));
}

fn check_unsafe_acme_challenge_combinations() {
    let wildcard = acme_config(AcmeChallenge::Http01, "*.example.test");
    assert!(validate(&wildcard).is_err());

    let mut dns = acme_config(AcmeChallenge::Dns01, "*.example.test");
    dns.acme.certificates[0].challenge_listener = None;
    dns.acme.certificates[0].dns_provider = Some("missing".into());
    let error = validate(&dns).expect_err("unknown DNS provider must fail");
    assert!(error.to_string().contains("unknown DNS provider"));

    let mut insecure = acme_config(AcmeChallenge::Http01, "example.test");
    insecure.acme.issuers[0].environment = AcmeEnvironment::Production;
    insecure.acme.issuers[0].directory_url =
        WebUrl::parse("http://127.0.0.1:14000/dir").expect("URL");
    let error = validate(&insecure).expect_err("production plaintext directory must fail");
    assert!(error.to_string().contains("must use HTTPS"));

    let mut terms = acme_config(AcmeChallenge::Http01, "example.test");
    terms.acme.issuers[0].terms_of_service_agreed = false;
    let error = validate(&terms).expect_err("implicit terms agreement must fail");
    assert!(error.to_string().contains("explicit terms_of_service_agreed"));
}

fn check_acme_accepted() {
    let config = acme_config(AcmeChallenge::Http01, "example.test");
    validate(&config).expect("wired scheduler accepts valid ACME policy");
}

fn check_renewal_owner() {
    let mut config = acme_config(AcmeChallenge::Http01, "example.test");
    config.acme.renewal_owner = Some("node-a".into());
    validate(&config).expect("valid renewal owner");
    config.acme.renewal_owner = Some("Node A".into());
    let error = validate(&config).expect_err("invalid renewal owner must fail");
    assert!(error.to_string().contains("invalid identifier"));
}

fn check_reference_errors() {
    let mut config = base_config();
    add_http_upstream(&mut config);
    let mut route = test_route();
    route.listeners = vec!["missing".into()];
    config.routes.push(route);
    let error = validate(&config).expect_err("unknown listener must fail");
    assert!(error.to_string().contains("routes[0].listeners[0]"));
}

fn check_trusted_proxy_policy() {
    let mut config = base_config();
    config.trusted_proxies.cidrs = vec![cidr("127.0.0.1/32")];
    config.trusted_proxies.trusted_hops = 1;
    validate(&config).expect("complete trusted proxy policy");
    config.trusted_proxies.trusted_hops = 0;
    assert!(validate(&config).is_err());
    config.trusted_proxies.trusted_hops = 1;
    config.trusted_proxies.cidrs.push(cidr("127.0.0.1/32"));
    assert!(validate(&config).is_err());
}

#[test]
fn mod_rejects_duplicate_listener_bind() {
    check_duplicate_listener_bind();
}

#[test]
fn core_rejects_duplicate_listener_bind() {
    check_duplicate_listener_bind();
}

#[test]
fn mod_rejects_unsafe_resource_limits() {
    check_unsafe_resource_limits();
}

#[test]
fn core_rejects_unsafe_resource_limits() {
    check_unsafe_resource_limits();
}

#[test]
fn mod_egress_policy_requires_explicit_private_network() {
    check_egress_policy();
}

#[test]
fn core_egress_policy_requires_explicit_private_network() {
    check_egress_policy();
}

#[test]
fn mod_rejects_inline_certificate_secrets() {
    check_inline_certificate_secrets();
}

#[test]
fn core_rejects_inline_certificate_secrets() {
    check_inline_certificate_secrets();
}

#[test]
fn mod_rejects_unsafe_certificate_wildcards() {
    check_unsafe_certificate_wildcards();
}

#[test]
fn core_rejects_unsafe_certificate_wildcards() {
    check_unsafe_certificate_wildcards();
}

#[test]
fn mod_requires_known_certificate_on_https_listener() {
    check_known_certificate_on_https_listener();
}

#[test]
fn core_requires_known_certificate_on_https_listener() {
    check_known_certificate_on_https_listener();
}

#[test]
fn mod_rejects_unsafe_acme_challenge_combinations() {
    check_unsafe_acme_challenge_combinations();
}

#[test]
fn core_rejects_unsafe_acme_challenge_combinations() {
    check_unsafe_acme_challenge_combinations();
}

#[test]
fn mod_accepts_acme_after_all_policy_checks() {
    check_acme_accepted();
}

#[test]
fn core_accepts_acme_after_all_policy_checks() {
    check_acme_accepted();
}

#[test]
fn mod_validates_acme_renewal_owner_identifier() {
    check_renewal_owner();
}

#[test]
fn core_validates_acme_renewal_owner_identifier() {
    check_renewal_owner();
}

#[test]
fn mod_reference_errors_include_exact_field_paths() {
    check_reference_errors();
}

#[test]
fn routing_reference_errors_include_exact_field_paths() {
    check_reference_errors();
}

#[test]
fn mod_activates_only_complete_bounded_trusted_proxy_policy() {
    check_trusted_proxy_policy();
}

#[test]
fn middleware_activates_only_complete_bounded_trusted_proxy_policy() {
    check_trusted_proxy_policy();
}

fn check_empty_security_headers() {
    let mut config = base_config();
    config.middlewares.insert(
        "headers".into(),
        MiddlewareConfig::SecurityHeaders {
            hsts: None,
            content_security_policy: None,
            override_existing: false,
            acknowledge_hsts_risk: false,
        },
    );
    assert!(validate(&config).is_err());
}

fn check_redirect_terminal() {
    let mut config = base_config();
    config.middlewares.insert(
        "redirect".into(),
        MiddlewareConfig::Redirect {
            location: "/maintenance".into(),
            status: 307,
            preserve_query: false,
        },
    );
    config.routes.push(RouteConfig {
        id: "redirect".into(),
        listeners: vec!["public".into()],
        hosts: vec![],
        paths: vec![],
        path_prefixes: vec![],
        methods: vec![],
        headers: vec![],
        default: true,
        priority: 0,
        middlewares: vec!["redirect".into()],
        upstream_group: None,
    });
    validate(&config).expect("redirect terminal");
    config.routes[0].middlewares.clear();
    assert!(validate(&config).is_err());
}

fn check_ip_policy_bounds() {
    let allowed = cidr("127.0.0.0/8");
    let policy = MiddlewareConfig::IpPolicy { allow: vec![allowed], deny: vec![] };
    validate_middleware("local", &policy).expect("bounded IP policy");
    let duplicate = MiddlewareConfig::IpPolicy { allow: vec![allowed], deny: vec![allowed] };
    assert!(validate_middleware("local", &duplicate).is_err());

    let mut config = base_config();
    add_http_upstream(&mut config);
    config.middlewares.insert("local".into(), policy);
    let mut route = test_route();
    route.middlewares = vec!["local".into()];
    config.routes.push(route);
    validate(&config).expect("route IP policy");

    config.middlewares.insert(
        "other".into(),
        MiddlewareConfig::IpPolicy { allow: vec![], deny: vec![cidr("192.0.2.0/24")] },
    );
    config.routes[0].middlewares.push("other".into());
    assert!(validate(&config).is_err());
}

fn check_rate_limit_bounds() {
    let mut config = base_config();
    add_http_upstream(&mut config);
    config.middlewares.insert(
        "edge".into(),
        MiddlewareConfig::RateLimit {
            key: RateLimitKey::ClientIp,
            requests_per_second: 10,
            burst: 20,
            max_keys: 100,
            idle_secs: 60,
        },
    );
    let mut route = test_route();
    route.middlewares = vec!["edge".into()];
    config.routes.push(route);
    validate(&config).expect("bounded rate limit");

    let index = config.middlewares.position("edge").expect("rate limiter");
    let placeholder = MiddlewareConfig::IpPolicy { allow: vec![], deny: vec![] };
    let MiddlewareConfig::RateLimit { key, requests_per_second, burst, idle_secs, .. } =
        config.middlewares.replace_value(index, placeholder)
    else {
        panic!("rate limiter");
    };
    config.middlewares.replace_value(
        index,
        MiddlewareConfig::RateLimit { key, requests_per_second, burst, max_keys: 0, idle_secs },
    );
    assert!(validate(&config).is_err());

    let mut principal = base_config();
    add_http_upstream(&mut principal);
    principal.middlewares.insert(
        "principal".into(),
        MiddlewareConfig::RateLimit {
            key: RateLimitKey::Principal,
            requests_per_second: 10,
            burst: 20,
            max_keys: 100,
            idle_secs: 60,
        },
    );
    let mut route = test_route();
    route.middlewares = vec!["principal".into()];
    principal.routes.push(route);
    assert!(validate(&principal).is_err());
}

fn check_in_flight_bounds() {
    let policy = MiddlewareConfig::InFlightLimit { max_requests: 100, max_per_client: 10, status: 503 };
    validate_middleware("inflight", &policy).expect("bounded in-flight policy");
    assert!(validate_middleware(
        "inflight",
        &MiddlewareConfig::InFlightLimit { max_requests: 10, max_per_client: 11, status: 503 },
    )
    .is_err());

    let mut config = base_config();
    add_http_upstream(&mut config);
    config.middlewares.insert("inflight".into(), policy);
    let mut route = test_route();
    route.middlewares = vec!["inflight".into()];
    config.routes.push(route);
    validate(&config).expect("route in-flight policy");
    config.middlewares.insert(
        "second".into(),
        MiddlewareConfig::InFlightLimit { max_requests: 1, max_per_client: 1, status: 429 },
    );
    config.routes[0].middlewares.push("second".into());
    assert!(validate(&config).is_err());
}

#[test]
fn mod_rejects_empty_security_header_middleware() {
    check_empty_security_headers();
}

#[test]
fn middleware_rejects_empty_security_header_middleware() {
    check_empty_security_headers();
}

#[test]
fn mod_redirect_is_an_exclusive_terminal_action() {
    check_redirect_terminal();
}

#[test]
fn middleware_redirect_is_an_exclusive_terminal_action() {
    check_redirect_terminal();
}

#[test]
fn mod_bounds_ip_policy_cidrs_and_rejects_duplicates() {
    check_ip_policy_bounds();
}

#[test]
fn middleware_bounds_ip_policy_cidrs_and_rejects_duplicates() {
    check_ip_policy_bounds();
}

#[test]
fn mod_bounds_rate_limit_state_and_activates_one_per_route() {
    check_rate_limit_bounds();
}

#[test]
fn middleware_bounds_rate_limit_state_and_activates_one_per_route() {
    check_rate_limit_bounds();
}

#[test]
fn mod_bounds_route_and_client_in_flight_capacity() {
    check_in_flight_bounds();
}

#[test]
fn middleware_bounds_route_and_client_in_flight_capacity() {
    check_in_flight_bounds();
}

#[test]
fn first_broken_rule_names_the_group_section() {
    let mut config = base_config();
    add_http_upstream(&mut config);
    config.upstream_groups[0].dns.max_answers = 0;
    let error = validate(&config).expect_err("DNS bound must fail");
    assert!(error
        .to_string()
        .contains("upstream_groups[0].dns contains an unsafe answer, timeout, TTL, or stale bound"));
}

#[test]
fn middlewares_are_checked_in_key_order() {
    let mut config = base_config();
    config.middlewares.insert(
        "zeta".into(),
        MiddlewareConfig::InFlightLimit { max_requests: 10, max_per_client: 11, status: 503 },
    );
    config.middlewares.insert(
        "alpha".into(),
        MiddlewareConfig::SecurityHeaders {
            hsts: None,
            content_security_policy: None,
            override_existing: false,
            acknowledge_hsts_risk: false,
        },
    );
    assert_eq!(config.middlewares.entry(0).0, "alpha");
    assert_eq!(config.middlewares.entry(1).0, "zeta");
    let error = validate(&config).expect_err("both middlewares are invalid");
    assert!(error.to_string().contains("middleware alpha"));
}

fn add_tcp_upstream(config: &mut Config) {
    config.upstream_groups.push(UpstreamGroupConfig {
        id: "tcp-app".into(),
        allowed_cidrs: vec![cidr("127.0.0.1/32")],
        health: Some(HealthCheckConfig { kind: HealthCheckKind::Tcp, ..HealthCheckConfig::default() }),
        endpoints: vec![EndpointConfig {
            id: "tcp-app-1".into(),
            url: WebUrl::parse("tcp://127.0.0.1:9000").expect("URL"),
            weight: 1,
            server_name: None,
            ca_bundle: None,
        }],
        ..UpstreamGroupConfig::default()
    });
}

fn users(name: &str, reference: &str) -> OrderedMap<String> {
    let mut map = OrderedMap::new();
    map.insert(name.into(), reference.into());
    map
}

fn check_exact_cors() {
    let policy = MiddlewareConfig::Cors {
        origins: vec!["https://app.example.test".into()],
        methods: vec!["GET".into(), "POST".into()],
        headers: vec!["content-type".into()],
        allow_credentials: true,
        max_age_secs: 600,
    };
    validate_middleware("cors", &policy).expect("exact CORS policy");
    let wildcard_credentials = MiddlewareConfig::Cors {
        origins: vec!["*".into()],
        methods: vec!["GET".into()],
        headers: vec![],
        allow_credentials: true,
        max_age_secs: 0,
    };
    assert!(validate_middleware("cors", &wildcard_credentials).is_err());

    let mut config = base_config();
    add_http_upstream(&mut config);
    config.middlewares.insert("cors".into(), policy);
    let mut route = test_route();
    route.middlewares = vec!["cors".into()];
    config.routes.push(route);
    validate(&config).expect("route CORS policy");
}

fn check_basic_auth() {
    let policy = MiddlewareConfig::BasicAuth {
        realm: "Private Area".into(),
        users: users("alice", "env://ALICE_HASH"),
        max_concurrent_verifications: 8,
        timeout_secs: 5,
    };
    validate_middleware("basic", &policy).expect("Basic auth policy");
    let inline = MiddlewareConfig::BasicAuth {
        realm: "Private Area".into(),
        users: users("alice", "$argon2id$inline"),
        max_concurrent_verifications: 8,
        timeout_secs: 5,
    };
    assert!(validate_middleware("basic", &inline).is_err());

    let mut config = base_config();
    add_http_upstream(&mut config);
    config.middlewares.insert("basic".into(), policy);
    let mut route = test_route();
    route.middlewares = vec!["basic".into()];
    config.routes.push(route);
    assert!(validate(&config).is_err());
}

fn check_forward_auth() {
    let policy = MiddlewareConfig::ForwardAuth {
        upstream_group: "auth".into(),
        path: "/outpost.goauthentik.io/auth/traefik".into(),
        request_headers: vec!["authorization".into(), "cookie".into()],
        response_headers: vec!["x-authentik-username".into(), "x-authentik-email".into()],
        principal_header: "x-authentik-username".into(),
        redirect_hosts: vec!["auth.example.test".into()],
        timeout_secs: 3,
    };
    validate_middleware("forward", &policy).expect("ForwardAuth policy");
    let spoofable = MiddlewareConfig::ForwardAuth {
        upstream_group: "auth".into(),
        path: "/auth".into(),
        request_headers: vec!["x-authentik-username".into()],
        response_headers: vec!["x-authentik-username".into()],
        principal_header: "x-authentik-username".into(),
        redirect_hosts: vec![],
        timeout_secs: 3,
    };
    assert!(validate_middleware("forward", &spoofable).is_err());

    let mut config = base_config();
    add_http_upstream(&mut config);
    config.middlewares.insert("forward".into(), policy);
    let mut route = test_route();
    route.middlewares = vec!["forward".into()];
    config.routes.push(route);
    assert!(validate(&config).is_err());
}

fn maintenance(authenticated: bool) -> MiddlewareConfig {
    MiddlewareConfig::Maintenance {
        status: 503,
        body: "planned outage".into(),
        content_type: "text/plain; charset=utf-8".into(),
        retry_after_secs: Some(120),
        authenticated,
    }
}

fn check_maintenance_terminal() {
    let mut config = base_config();
    config.middlewares.insert("maintenance".into(), maintenance(false));
    let mut route = test_route();
    route.middlewares = vec!["maintenance".into()];
    route.upstream_group = None;
    config.routes.push(route);
    validate(&config).expect("public maintenance route");

    let index = config.middlewares.position("maintenance").expect("maintenance middleware");
    config.middlewares.replace_value(index, maintenance(true));
    assert!(validate(&config).is_err());
}

fn compression(encodings: Vec<CompressionEncoding>, content_types: Vec<&str>) -> MiddlewareConfig {
    MiddlewareConfig::Compression {
        encodings,
        content_types: content_types.into_iter().map(String::from).collect(),
        min_bytes: 1_024,
        max_concurrent: 8,
        allow_authenticated: false,
    }
}

fn check_compression_policy() {
    let valid = compression(
        vec![CompressionEncoding::Brotli, CompressionEncoding::Gzip],
        vec!["application/json", "text/plain"],
    );
    validate_middleware("compress", &valid).expect("bounded compression policy");
    let duplicate = compression(
        vec![CompressionEncoding::Gzip, CompressionEncoding::Gzip],
        vec!["text/plain"],
    );
    assert!(validate_middleware("compress", &duplicate).is_err());
    let parameterized =
        compression(vec![CompressionEncoding::Gzip], vec!["text/plain; charset=utf-8"]);
    assert!(validate_middleware("compress", &parameterized).is_err());

    let mut config = base_config();
    for index in 0..9 {
        config.middlewares.insert(
            format!("compress-{index}"),
            compression(
                vec![CompressionEncoding::Brotli, CompressionEncoding::Gzip],
                vec!["application/json", "text/plain"],
            ),
        );
    }
    assert!(validate(&config).is_err());
}

fn tcp_route(group: &str) -> RouteConfig {
    RouteConfig {
        id: "tcp-default".into(),
        listeners: vec!["public".into()],
        hosts: vec![],
        paths: vec![],
        path_prefixes: vec![],
        methods: vec![],
        headers: vec![],
        default: true,
        priority: 0,
        middlewares: vec![],
        upstream_group: Some(group.into()),
    }
}

fn check_tcp_routes() {
    let mut config = base_config();
    config.listeners[0].protocol = "tcp".into();
    add_tcp_upstream(&mut config);
    config.routes.push(tcp_route("tcp-app"));
    validate(&config).expect("plain TCP route");
    config.upstream_groups[0].retry.max_attempts = 2;
    assert!(validate(&config).is_err());
    config.upstream_groups[0].retry = RetryConfig::default();

    config.listeners[0].protocol = "tls_passthrough".into();
    config.routes[0].default = false;
    config.routes[0].hosts = vec!["example.test".into(), "*.example.test".into()];
    validate(&config).expect("TLS passthrough SNI route");
}

fn check_tcp_cross_protocol() {
    let mut config = base_config();
    config.listeners[0].protocol = "tcp".into();
    add_http_upstream(&mut config);
    let mut route = tcp_route("app");
    config.routes.push(route.clone());
    assert!(validate(&config).is_err());

    config.upstream_groups.clear();
    add_tcp_upstream(&mut config);
    route.upstream_group = Some("tcp-app".into());
    route.paths = vec!["/http-only".into()];
    config.routes[0] = route;
    assert!(validate(&config).is_err());
}

fn check_tcp_endpoint_options() {
    let mut config = base_config();
    add_tcp_upstream(&mut config);
    config.upstream_groups[0].endpoints[0].server_name = Some("example.test".into());
    assert!(validate(&config).is_err());

    config.upstream_groups[0].endpoints[0].server_name = None;
    config.upstream_groups[0].endpoints.push(EndpointConfig {
        id: "http-app".into(),
        url: WebUrl::parse("http://127.0.0.1:9001").expect("URL"),
        weight: 1,
        server_name: None,
        ca_bundle: None,
    });
    assert!(validate(&config).is_err());
}

fn check_weighted_endpoints() {
    let mut config = base_config();
    add_http_upstream(&mut config);
    config.upstream_groups[0].algorithm = BalancingAlgorithm::SmoothWeightedRoundRobin;
    config.upstream_groups[0].endpoints[0].weight = 2;
    config.upstream_groups[0].endpoints.push(EndpointConfig {
        id: "app-2".into(),
        url: WebUrl::parse("http://127.0.0.1:9001").expect("URL"),
        weight: 1,
        server_name: None,
        ca_bundle: None,
    });
    assert!(validate(&config).is_ok());
}

fn check_dns_upstream_label() {
    let mut config = base_config();
    config.upstream_groups.push(UpstreamGroupConfig {
        id: "app".into(),
        endpoints: vec![EndpointConfig {
            id: "app-1".into(),
            url: WebUrl::parse("http://app.internal:8080").expect("DNS endpoint URL"),
            weight: 1,
            server_name: None,
            ca_bundle: None,
        }],
        ..UpstreamGroupConfig::default()
    });
    validate(&config).expect("canonical DNS endpoint");
    config.upstream_groups[0].endpoints[0].url =
        WebUrl::parse("http://bad_name.internal:8080").expect("invalid DNS endpoint URL");
    assert!(validate(&config)
        .expect_err("underscore label must fail")
        .to_string()
        .contains("invalid DNS name"));
}

#[test]
fn mod_validates_exact_cors_policy() {
    check_exact_cors();
}

#[test]
fn middleware_validates_exact_cors_policy() {
    check_exact_cors();
}

#[test]
fn mod_validates_basic_auth_secret_refs_and_requires_https() {
    check_basic_auth();
}

#[test]
fn middleware_validates_basic_auth_secret_refs_and_requires_https() {
    check_basic_auth();
}

#[test]
fn mod_validates_forward_auth_header_contract_and_requires_https() {
    check_forward_auth();
}

#[test]
fn middleware_validates_forward_auth_header_contract_and_requires_https() {
    check_forward_auth();
}

#[test]
fn mod_maintenance_is_one_explicit_terminal_with_matching_auth_mode() {
    check_maintenance_terminal();
}

#[test]
fn middleware_maintenance_is_one_explicit_terminal_with_matching_auth_mode() {
    check_maintenance_terminal();
}

#[test]
fn mod_compression_policy_is_bounded_and_unambiguous() {
    check_compression_policy();
}

#[test]
fn middleware_compression_policy_is_bounded_and_unambiguous() {
    check_compression_policy();
}

#[test]
fn mod_validates_plain_tcp_and_tls_passthrough_routes() {
    check_tcp_routes();
}

#[test]
fn transport_validates_plain_tcp_and_tls_passthrough_routes() {
    check_tcp_routes();
}

#[test]
fn mod_rejects_tcp_cross_protocol_and_http_matchers() {
    check_tcp_cross_protocol();
}

#[test]
fn transport_rejects_tcp_cross_protocol_and_http_matchers() {
    check_tcp_cross_protocol();
}

#[test]
fn mod_rejects_tcp_endpoint_tls_options_and_mixed_group() {
    check_tcp_endpoint_options();
}

#[test]
fn transport_rejects_tcp_endpoint_tls_options_and_mixed_group() {
    check_tcp_endpoint_options();
}

#[test]
fn mod_accepts_multiple_weighted_endpoints_after_pool_activation() {
    check_weighted_endpoints();
}

#[test]
fn transport_accepts_multiple_weighted_endpoints_after_pool_activation() {
    check_weighted_endpoints();
}

#[test]
fn mod_accepts_canonical_dns_upstream_and_rejects_invalid_label() {
    check_dns_upstream_label();
}

#[test]
fn routing_accepts_canonical_dns_upstream_and_rejects_invalid_label() {
    check_dns_upstream_label();
}
