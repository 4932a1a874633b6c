use aegisproxy::config::validate;
use aegisproxy::map::OrderedMap;
use aegisproxy::net::{Cidr, SocketAddress};
use aegisproxy::platform::{estimated_metric_series, MAX_METRIC_SERIES};
use aegisproxy::provider::{
    default_file_debounce_millis, default_file_max_endpoints, default_file_refresh_secs,
    default_file_stale_after_secs, DnsProviderConfig, FileProviderConfig, ProviderConfig,
    ProviderScheme,
};
use aegisproxy::schema::{
    AdminConfig, AdminWebConfig, AdminWebOidcConfig, AdminWebOidcGroups, Config, EndpointConfig,
    LimitsConfig, ListenerConfig, OtlpTraceConfig, RouteConfig, UpstreamGroupConfig,
};
use aegisproxy::web::WebUrl;

fn base_config() -> Config {
    Config {
        schema_version: 1,
        runtime: Default::default(),
        limits: LimitsConfig::default(),
        listeners: vec![ListenerConfig {
            id: "public".into(),
            bind: SocketAddress::parse("127.0.0.1:8080").expect("test address"),
            protocol: "http".into(),
            certificates: vec![],
        }],
        tls: Default::default(),
        certificates: vec![],
        acme: Default::default(),
        trusted_proxies: Default::default(),
        upstream_groups: vec![],
        providers: vec![],
        middlewares: OrderedMap::new(),
        routes: vec![],
        admin: Default::default(),
        observability: Default::default(),
    }
}

fn add_http_upstream(config: &mut Config) {
    config.upstream_groups.push(UpstreamGroupConfig {
        id: "app".into(),
        allowed_cidrs: vec![Cidr::parse("127.0.0.1/32").expect("CIDR")],
        endpoints: vec![EndpointConfig {
            id: "app-1".into(),
            url: WebUrl::parse("http://127.0.0.1:9000").expect("URL"),
            weight: 1,
            server_name: None,
            ca_bundle: None,
        }],
        ..UpstreamGroupConfig::default()
    });
}

fn valid_admin_web() -> AdminWebConfig {
    AdminWebConfig {
        enabled: true,
        bind: SocketAddress::parse("127.0.0.1:9090").expect("web bind"),
        origin: "http://localhost:9090".into(),
        oidc: Some(AdminWebOidcConfig {
            issuer: "https://idp.example.test/tenant".into(),
            client_id: "aegis-proxy".into(),
            client_secret: "file:///run/secrets/oidc-client".into(),
            ca_bundle: None,
            groups_claim: "groups".into(),
            groups: AdminWebOidcGroups {
                viewer: vec!["aegis-viewers".into()],
                auditor: vec!["aegis-auditors".into()],
                operator: vec!["aegis-operators".into()],
                admin: vec!["aegis-admins".into()],
            },
        }),
    }
}

fn check_private_admin_settings() {
    let mut config = base_config();
    config.admin = AdminConfig {
        unix_socket: Some("/run/aegisproxy/admin.sock".into()),
        allowed_uids: vec![1000, 1001],
        audit_key: Some("file:///run/secrets/audit-key".into()),
        ..AdminConfig::default()
    };
    validate(&config).expect("private admin settings");

    config.admin.unix_socket = Some("relative/admin.sock".into());
    assert!(validate(&config).is_err());
    config.admin.unix_socket = None;
    config.admin.allowed_uids = vec![1000, 1000];
    assert!(validate(&config).is_err());
    config.admin.allowed_uids.clear();
    config.admin.audit_key = Some("exec://audit-key".into());
    assert!(validate(&config).is_err());
    config.admin.audit_key = None;
    config.admin.max_auth_in_flight = 0;
    assert!(validate(&config).is_err());
}

#[test]
fn mod_validates_private_admin_settings() {
    check_private_admin_settings();
}

#[test]
fn admin_observability_provider_validates_private_admin_settings() {
    check_private_admin_settings();
}

#[test]
fn validates_loopback_web_origin_and_oidc_policy() {
    let mut config = base_config();
    assert!(!config.admin.web.enabled);
    validate(&config).expect("default-disabled browser administration");

    config.admin.web = valid_admin_web();
    assert_eq!(config.admin.web.oidc.as_ref().expect("OIDC").groups_claim, "groups");
    validate(&config).expect("valid browser administration");

    for bind in ["0.0.0.0:9090", "192.0.2.1:9090", "127.0.0.1:0"] {
        let mut invalid = config.clone();
        invalid.admin.web.bind = SocketAddress::parse(bind).expect("invalid bind shape");
        assert!(validate(&invalid).is_err(), "accepted web bind {bind}");
    }
    for origin in [
        "http://127.0.0.1:9090",
        "http://localhost:9091",
        "https://localhost:9090",
        "http://localhost:9090/",
        "http://localhost:9090/path",
        "http://user@localhost:9090",
        "http://localhost:9090?query",
        "http://localhost:9090#fragment",
    ] {
        let mut invalid = config.clone();
        invalid.admin.web.origin = origin.into();
        assert!(validate(&invalid).is_err(), "accepted web origin {origin}");
    }

    let mut missing_oidc = config.clone();
    missing_oidc.admin.web.oidc = None;
    assert!(validate(&missing_oidc).is_err());
}

#[test]
fn rejects_unsafe_oidc_and_conflicting_role_groups() {
    let mut config = base_config();
    config.admin.web = valid_admin_web();

    for issuer in [
        "http://idp.example.test",
        "https://user@idp.example.test",
        "https://idp.example.test?query",
        "https://IDP.example.test",
    ] {
        let mut invalid = config.clone();
        invalid.admin.web.oidc.as_mut().expect("OIDC").issuer = issuer.into();
        assert!(validate(&invalid).is_err(), "accepted issuer {issuer}");
    }

    let oidc = config.admin.web.oidc.as_mut().expect("OIDC");
    oidc.groups.viewer.push("aegis-admins".into());
    assert!(validate(&config).is_err());

    let mut no_admin = base_config();
    no_admin.admin.web = valid_admin_web();
    no_admin.admin.web.oidc.as_mut().expect("OIDC").groups.admin.clear();
    assert!(validate(&no_admin).is_err());

    let mut bad_secret = base_config();
    bad_secret.admin.web = valid_admin_web();
    bad_secret.admin.web.oidc.as_mut().expect("OIDC").client_secret =
        "https://idp.example.test/secret".into();
    assert!(validate(&bad_secret).is_err());
}

fn check_observability_policy() {
    let mut config = base_config();
    config.observability.access_log_sample_per_million = 100_000;
    config.observability.otlp_traces = Some(OtlpTraceConfig {
        endpoint: WebUrl::parse("http://127.0.0.1:4318/v1/traces").expect("OTLP URL"),
        sample_per_million: 10_000,
        max_queue_size: 2_048,
        max_export_batch_size: 512,
        export_timeout_secs: 5,
    });
    validate(&config).expect("bounded loopback exporter");

    config.observability.otlp_traces.as_mut().expect("OTLP").endpoint =
        WebUrl::parse("http://collector.example/v1/traces").expect("URL");
    assert!(validate(&config).is_err());
    config.observability.otlp_traces.as_mut().expect("OTLP").endpoint =
        WebUrl::parse("https://collector.example/v1/traces?token=secret").expect("URL");
    assert!(validate(&config).is_err());
    config.observability.otlp_traces.as_mut().expect("OTLP").endpoint =
        WebUrl::parse("https://collector.example/v1/traces").expect("URL");
    config.observability.otlp_traces.as_mut().expect("OTLP").max_export_batch_size = 2_049;
    assert!(validate(&config).is_err());

    let mut excessive = base_config();
    excessive.routes = (0..600)
        .map(|index| RouteConfig {
            id: format!("route-{index}"),
            listeners: vec!["public".into()],
            hosts: vec![format!("host-{index}.example")],
            paths: vec![],
            path_prefixes: vec![],
            methods: vec![],
            headers: vec![],
            default: false,
            priority: 0,
            middlewares: vec![],
            upstream_group: None,
        })
        .collect();
    assert!(estimated_metric_series(&excessive) > MAX_METRIC_SERIES);
    assert!(validate(&excessive).is_err());
    excessive.observability.metrics = false;
    assert_eq!(estimated_metric_series(&excessive), 0);
}

#[test]
fn mod_validates_bounded_private_observability_policy() {
    check_observability_policy();
}

#[test]
fn admin_observability_provider_validates_bounded_private_observability_policy() {
    check_observability_policy();
}

fn file_provider(path: &str) -> ProviderConfig {
    ProviderConfig::File(FileProviderConfig {
        id: "nodes".into(),
        enabled: true,
        upstream_group: "app".into(),
        path: path.into(),
        scheme: ProviderScheme::Http,
        server_name: None,
        ca_bundle: None,
        refresh_secs: 1,
        debounce_millis: 50,
        stale_after_secs: 10,
        max_endpoints: 8,
    })
}

fn check_provider_namespace() {
    let mut config = base_config();
    add_http_upstream(&mut config);
    config.providers.push(file_provider("/run/aegisproxy/nodes.toml"));
    validate(&config).expect("one declared namespace");

    config.providers.push(file_provider("/run/aegisproxy/nodes.toml"));
    assert!(validate(&config).is_err());
    config.providers.pop();
    if let ProviderConfig::File(provider) = &mut config.providers[0] {
        provider.upstream_group = "missing".into();
    }
    assert!(validate(&config).is_err());
}

#[test]
fn mod_rejects_provider_namespace_and_template_conflicts() {
    check_provider_namespace();
}

#[test]
fn admin_observability_provider_rejects_provider_namespace_and_template_conflicts() {
    check_provider_namespace();
}

fn check_provider_escape() {
    let mut config = base_config();
    add_http_upstream(&mut config);
    config.providers.push(ProviderConfig::Dns(DnsProviderConfig {
        id: "nodes".into(),
        enabled: true,
        upstream_group: "app".into(),
        hostname: "nodes.example.test".into(),
        port: 443,
        scheme: ProviderScheme::Https,
        server_name: None,
        ca_bundle: None,
        weight: 1,
        refresh_secs: 5,
        stale_after_secs: 10,
        max_answers: 4,
    }));
    assert!(validate(&config).is_err());

    config.providers.clear();
    let mut escape = base_config();
    escape.upstream_groups.push(UpstreamGroupConfig {
        id: "app".into(),
        allowed_cidrs: vec![Cidr::parse("127.0.0.1/32").expect("CIDR")],
        endpoints: vec![EndpointConfig {
            id: "fallback".into(),
            url: WebUrl::parse("http://127.0.0.1:9000").expect("URL"),
            weight: 1,
            server_name: None,
            ca_bundle: None,
        }],
        ..UpstreamGroupConfig::default()
    });
    escape.providers.push(ProviderConfig::File(FileProviderConfig {
        id: "nodes".into(),
        enabled: true,
        upstream_group: "app".into(),
        path: "/run/../tmp/nodes.toml".into(),
        scheme: ProviderScheme::Http,
        server_name: None,
        ca_bundle: None,
        refresh_secs: default_file_refresh_secs(),
        debounce_millis: default_file_debounce_millis(),
        stale_after_secs: default_file_stale_after_secs(),
        max_endpoints: default_file_max_endpoints(),
    }));
    assert!(validate(&escape).is_err());
}

#[test]
fn mod_rejects_provider_policy_escape_and_unsafe_paths() {
    check_provider_escape();
}

#[test]
fn admin_observability_provider_rejects_provider_policy_escape_and_unsafe_paths() {
    check_provider_escape();
}
