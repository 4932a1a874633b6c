use aegisproxy::cors::{preflight, requested_headers, response_headers};
use aegisproxy::map::OrderedMap;
use aegisproxy::net::{Cidr, IpAddress};
use aegisproxy::pipeline::{
    allowed, custom_error_replacement, header_mutations, maintenance_response, redirect_response,
    rewrite_target, security_headers, strip_segment_prefix,
};
use aegisproxy::schema::{Config, MiddlewareConfig, RouteConfig};

fn config_with(id: &str, definition: MiddlewareConfig) -> Config {
    let mut map = OrderedMap::new();
    map.insert(id.to_string(), definition);
    Config {
        schema_version: 1,
        runtime: Default::default(),
        limits: Default::default(),
        listeners: vec![],
        tls: Default::default(),
        certificates: vec![],
        acme: Default::default(),
        trusted_proxies: Default::default(),
        upstream_groups: vec![],
        providers: vec![],
        middlewares: map,
        routes: vec![],
        admin: Default::default(),
        observability: Default::default(),
    }
}

fn route(middleware: &str) -> RouteConfig {
    RouteConfig {
        id: "route".into(),
        listeners: vec!["public".into()],
        hosts: vec![],
        paths: vec![],
        path_prefixes: vec![],
        methods: vec![],
        headers: vec![],
        default: true,
        priority: 0,
        middlewares: vec![middleware.into()],
        upstream_group: Some("app".into()),
    }
}

fn ip(text: &str) -> IpAddress {
    IpAddress::parse(text).expect("IP")
}

fn cidr(text: &str) -> Cidr {
    Cidr::parse(text).expect("CIDR")
}

#[test]
fn deny_precedes_allow() {
    let config = config_with(
        "ip",
        MiddlewareConfig::IpPolicy {
            allow: vec![cidr("10.0.0.0/8")],
            deny: vec![cidr("10.1.0.0/16")],
        },
    );
    let route = route("ip");
    assert!(allowed(&config, &route, ip("10.2.0.1")));
    assert!(!allowed(&config, &route, ip("10.1.0.1")));
    assert!(!allowed(&config, &route, ip("192.0.2.1")));
}

#[test]
fn empty_allowlist_admits_all_but_denied_and_no_policy_admits_all() {
    let config = config_with(
        "ip",
        MiddlewareConfig::IpPolicy {
            allow: vec![],
            deny: vec![cidr("2001:db8::/32")],
        },
    );
    assert!(allowed(&config, &route("ip"), ip("192.0.2.1")));
    assert!(!allowed(&config, &route("ip"), ip("2001:db8::5")));
    assert!(allowed(&config, &route("other"), ip("2001:db8::5")));
}

#[test]
fn fixed_redirect_preserves_query_only_when_enabled() {
    let mut config = config_with(
        "redirect",
        MiddlewareConfig::Redirect {
            location: "/new".into(),
            status: 308,
            preserve_query: true,
        },
    );
    let route = route("redirect");
    let (status, location) = redirect_response(&config, &route, Some("page=2"))
        .expect("redirect")
        .expect("response");
    assert_eq!(status, 308);
    assert_eq!(location, "/new?page=2");
    config.middlewares.insert(
        "redirect".into(),
        MiddlewareConfig::Redirect {
            location: "/new".into(),
            status: 301,
            preserve_query: false,
        },
    );
    let (_, location) = redirect_response(&config, &route, Some("page=2"))
        .expect("redirect")
        .expect("response");
    assert_eq!(location, "/new");
    assert_eq!(redirect_response(&config, &other_route(), None), Ok(None));
    config.middlewares.insert(
        "redirect".into(),
        MiddlewareConfig::Redirect {
            location: "/new\nx".into(),
            status: 301,
            preserve_query: false,
        },
    );
    assert!(redirect_response(&config, &route, None).is_err());
}

#[test]
fn segment_prefixes_match_whole_segments() {
    assert_eq!(strip_segment_prefix("/api/users", "/api").as_deref(), Some("/users"));
    assert_eq!(strip_segment_prefix("/api", "/api").as_deref(), Some(""));
    assert_eq!(strip_segment_prefix("/apix/users", "/api"), None);
    assert_eq!(strip_segment_prefix("/", "/").as_deref(), Some(""));
    assert_eq!(strip_segment_prefix("/a/b", "/").as_deref(), Some("/a/b"));
}

#[test]
fn prefix_rewrite_is_segment_aware_and_preserves_query() {
    let config = config_with(
        "rewrite",
        MiddlewareConfig::Rewrite {
            from_prefix: Some("/api".into()),
            to: "/internal".into(),
        },
    );
    let route = route("rewrite");
    let target = rewrite_target(&config, &route, "/api/users", Some("page=2"), 1024)
        .expect("rewrite")
        .expect("target");
    assert_eq!(target, "/internal/users?page=2");
    assert_eq!(
        rewrite_target(&config, &route, "/apix/users", None, 1024),
        Ok(None)
    );
}

#[test]
fn exact_replacement_is_bounded() {
    let config = config_with(
        "rewrite",
        MiddlewareConfig::Rewrite {
            from_prefix: None,
            to: "/fixed".into(),
        },
    );
    let route = route("rewrite");
    let target = rewrite_target(&config, &route, "/anything", Some("q=1"), 1024)
        .expect("rewrite")
        .expect("target");
    assert_eq!(target, "/fixed?q=1");
    assert!(rewrite_target(&config, &route, "/fixed", Some("q=1"), 4).is_err());
}

#[test]
fn rewrite_to_root_keeps_the_rest() {
    let config = config_with(
        "rewrite",
        MiddlewareConfig::Rewrite {
            from_prefix: Some("/app".into()),
            to: "/".into(),
        },
    );
    let route = route("rewrite");
    assert_eq!(
        rewrite_target(&config, &route, "/app/x/y", None, 1024)
            .expect("rewrite")
            .as_deref(),
        Some("/x/y")
    );
    assert_eq!(
        rewrite_target(&config, &route, "/app", None, 1024)
            .expect("rewrite")
            .as_deref(),
        Some("/")
    );
}

#[test]
fn maintenance_response_is_static_uncacheable_and_stage_scoped() {
    let config = config_with(
        "maintenance",
        MiddlewareConfig::Maintenance {
            status: 503,
            body: "planned outage".into(),
            content_type: "text/plain; charset=utf-8".into(),
            retry_after_secs: Some(120),
            authenticated: false,
        },
    );
    let route = route("maintenance");
    assert!(maintenance_response(&config, &route, true)
        .expect("stage")
        .is_none());
    let response = maintenance_response(&config, &route, false)
        .expect("response")
        .expect("maintenance");
    assert_eq!(response.status, 503);
    assert_eq!(response.retry_after.as_deref(), Some("120"));
    assert_eq!(response.body, "planned outage");
    assert_eq!(response.content_type, "text/plain; charset=utf-8");
}

#[test]
fn replaces_only_selected_status_without_interpolation() {
    let config = config_with(
        "errors",
        MiddlewareConfig::CustomError {
            statuses: vec![502, 503],
            body: "service unavailable".into(),
            content_type: "text/plain; charset=utf-8".into(),
        },
    );
    let route = route("errors");
    let replacement = custom_error_replacement(&config, &route, 502)
        .expect("custom error")
        .expect("replacement");
    assert_eq!(replacement.body, "service unavailable");
    assert!(custom_error_replacement(&config, &route, 500)
        .expect("custom error")
        .is_none());
}

#[test]
fn preserves_or_overrides_upstream_headers_explicitly() {
    let mut config = config_with(
        "headers",
        MiddlewareConfig::SecurityHeaders {
            hsts: None,
            content_security_policy: Some("default-src 'none'".into()),
            override_existing: false,
            acknowledge_hsts_risk: false,
        },
    );
    let route = route("headers");
    assert_eq!(
        security_headers(&config, &route, "http", false, true),
        Ok((None, None))
    );
    config.middlewares.insert(
        "headers".into(),
        MiddlewareConfig::SecurityHeaders {
            hsts: None,
            content_security_policy: Some("default-src 'none'".into()),
            override_existing: true,
            acknowledge_hsts_risk: false,
        },
    );
    assert_eq!(
        security_headers(&config, &route, "http", false, true),
        Ok((None, Some("default-src 'none'".to_string())))
    );
    config.middlewares.insert(
        "headers".into(),
        MiddlewareConfig::SecurityHeaders {
            hsts: Some("max-age=31536000".into()),
            content_security_policy: None,
            override_existing: false,
            acknowledge_hsts_risk: false,
        },
    );
    assert!(security_headers(&config, &route, "http", false, false).is_err());
    assert_eq!(
        security_headers(&config, &route, "https", false, false),
        Ok((Some("max-age=31536000".to_string()), None))
    );
}

#[test]
fn typed_mutations_remove_set_and_append_deterministically() {
    let mut set = OrderedMap::new();
    set.insert("x-env".to_string(), "prod".to_string());
    let mut add = OrderedMap::new();
    add.insert(
        "x-scope".to_string(),
        vec!["read".to_string(), "write".to_string()],
    );
    let config = config_with(
        "mutate",
        MiddlewareConfig::HeaderMutation {
            request_set: set,
            request_add: add,
            request_remove: vec!["x-remove".into()],
            response_set: OrderedMap::new(),
            response_add: OrderedMap::new(),
            response_remove: vec![],
        },
    );
    let route = route("mutate");
    let plan = header_mutations(&config, &route, true)
        .expect("mutate")
        .expect("plan");
    assert_eq!(plan.remove, vec!["x-remove".to_string()]);
    assert_eq!(plan.set, vec![("x-env".to_string(), "prod".to_string())]);
    assert_eq!(
        plan.add,
        vec![
            ("x-scope".to_string(), "read".to_string()),
            ("x-scope".to_string(), "write".to_string())
        ]
    );
    let response = header_mutations(&config, &route, false)
        .expect("mutate")
        .expect("plan");
    assert!(response.set.is_empty() && response.add.is_empty() && response.remove.is_empty());
}

#[test]
fn mutation_names_are_lowercased_and_bad_values_refused() {
    let mut set = OrderedMap::new();
    set.insert("X-Env".to_string(), "prod".to_string());
    let config = config_with(
        "mutate",
        MiddlewareConfig::HeaderMutation {
            request_set: set,
            request_add: OrderedMap::new(),
            request_remove: vec![],
            response_set: OrderedMap::new(),
            response_add: OrderedMap::new(),
            response_remove: vec![],
        },
    );
    let plan = header_mutations(&config, &route("mutate"), true)
        .expect("mutate")
        .expect("plan");
    assert_eq!(plan.set[0].0, "x-env");
    let mut bad = OrderedMap::new();
    bad.insert("x-env".to_string(), "a\nb".to_string());
    let config = config_with(
        "mutate",
        MiddlewareConfig::HeaderMutation {
            request_set: bad,
            request_add: OrderedMap::new(),
            request_remove: vec![],
            response_set: OrderedMap::new(),
            response_add: OrderedMap::new(),
            response_remove: vec![],
        },
    );
    assert!(header_mutations(&config, &route("mutate"), true).is_err());
}

fn cors_config(origins: &[&str], credentials: bool) -> Config {
    config_with(
        "cors",
        MiddlewareConfig::Cors {
            origins: origins.iter().map(|o| o.to_string()).collect(),
            methods: vec!["GET".into(), "POST".into()],
            headers: vec!["x-token".into()],
            allow_credentials: credentials,
            max_age_secs: 600,
        },
    )
}

fn values(items: &[&str]) -> Vec<Vec<u8>> {
    items.iter().map(|v| v.as_bytes().to_vec()).collect()
}

#[test]
fn preflight_allows_only_listed_origin_method_and_headers() {
    let config = cors_config(&["https://app.example.test"], true);
    let route = route("cors");
    let answer = preflight(
        &config,
        &route,
        "OPTIONS",
        &values(&["https://app.example.test"]),
        &values(&["POST"]),
        &values(&["X-Token"]),
    )
    .expect("allowed")
    .expect("preflight");
    assert_eq!(answer.allow_origin, "https://app.example.test");
    assert_eq!(answer.allow_methods, "GET, POST");
    assert_eq!(answer.allow_headers.as_deref(), Some("x-token"));
    assert!(answer.allow_credentials);
    assert_eq!(answer.max_age.as_deref(), Some("600"));
    assert!(preflight(
        &config,
        &route,
        "OPTIONS",
        &values(&["https://evil.example.test"]),
        &values(&["POST"]),
        &values(&[]),
    )
    .is_err());
    assert!(preflight(
        &config,
        &route,
        "OPTIONS",
        &values(&["https://app.example.test"]),
        &values(&["DELETE"]),
        &values(&[]),
    )
    .is_err());
    assert!(preflight(
        &config,
        &route,
        "OPTIONS",
        &values(&["https://app.example.test"]),
        &values(&["GET"]),
        &values(&["x-other"]),
    )
    .is_err());
    assert_eq!(
        preflight(&config, &route, "GET", &values(&[]), &values(&["GET"]), &values(&[]))
            .expect("not a preflight")
            .is_none(),
        true
    );
}

#[test]
fn requested_headers_are_bounded_lowercase_names() {
    assert_eq!(
        requested_headers(&values(&["X-A, x-b ,X-C"])).expect("names"),
        vec!["x-a".to_string(), "x-b".to_string(), "x-c".to_string()]
    );
    assert!(requested_headers(&values(&[])).expect("none").is_empty());
    assert!(requested_headers(&values(&["x-a", "x-b"])).is_err());
    assert!(requested_headers(&values(&["x-a,,x-b"])).is_err());
    let many = vec!["x"; 65].join(",");
    assert!(requested_headers(&values(&[many.as_str()])).is_err());
    let enough = vec!["x"; 64].join(",");
    assert_eq!(requested_headers(&values(&[enough.as_str()])).expect("names").len(), 64);
}

#[test]
fn actual_response_grants_origin_and_varies_once() {
    let config = cors_config(&["*"], false);
    let route = route("cors");
    let headers = response_headers(&config, &route, &values(&["https://any.test"]), &values(&[]))
        .expect("policy");
    assert_eq!(headers.allow_origin.as_deref(), Some("*"));
    assert!(headers.add_vary_origin);
    let headers = response_headers(
        &config,
        &route,
        &values(&["https://any.test"]),
        &values(&["Accept-Encoding, Origin"]),
    )
    .expect("policy");
    assert!(!headers.add_vary_origin);
    let headers =
        response_headers(&config, &route, &values(&[]), &values(&[])).expect("policy");
    assert!(headers.allow_origin.is_none());
    assert!(response_headers(&config, &other_route(), &values(&[]), &values(&[])).is_none());
}

fn other_route() -> RouteConfig {
    route("none")
}
