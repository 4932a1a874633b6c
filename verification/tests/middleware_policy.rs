use aegisproxy::map::OrderedMap;
use aegisproxy::middleware::validate_middleware;
use aegisproxy::schema::MiddlewareConfig;

fn string_map(pairs: &[(&str, &str)]) -> OrderedMap<String> {
    let mut map = OrderedMap::new();
    for (key, value) in pairs {
        map.insert((*key).to_string(), (*value).to_string());
    }
    map
}

fn header_mutation(set: &[(&str, &str)], remove: &[&str]) -> MiddlewareConfig {
    MiddlewareConfig::HeaderMutation {
        request_set: string_map(set),
        request_add: OrderedMap::new(),
        request_remove: remove.iter().map(|name| name.to_string()).collect(),
        response_set: OrderedMap::new(),
        response_add: OrderedMap::new(),
        response_remove: vec![],
    }
}

fn safe_redirect_and_hsts_policies() {
    let redirect = MiddlewareConfig::Redirect {
        location: "/maintenance".into(),
        status: 307,
        preserve_query: true,
    };
    validate_middleware("redirect", &redirect).expect("safe redirect");
    let unsafe_redirect = MiddlewareConfig::Redirect {
        location: "//attacker.test".into(),
        status: 307,
        preserve_query: false,
    };
    assert!(validate_middleware("redirect", &unsafe_redirect).is_err());

    let hsts = MiddlewareConfig::SecurityHeaders {
        hsts: Some("max-age=31536000; includeSubDomains".into()),
        content_security_policy: None,
        override_existing: false,
        acknowledge_hsts_risk: false,
    };
    assert!(validate_middleware("headers", &hsts).is_err());
    let acknowledged = MiddlewareConfig::SecurityHeaders {
        hsts: Some("max-age=31536000; includeSubDomains".into()),
        content_security_policy: None,
        override_existing: false,
        acknowledge_hsts_risk: true,
    };
    validate_middleware("headers", &acknowledged).expect("acknowledged HSTS");
}

fn bounded_canonical_rewrites() {
    let rewrite = MiddlewareConfig::Rewrite {
        from_prefix: Some("/api".into()),
        to: "/internal".into(),
    };
    validate_middleware("rewrite", &rewrite).expect("canonical rewrite");
    assert!(validate_middleware(
        "rewrite",
        &MiddlewareConfig::Rewrite {
            from_prefix: Some("/api/../admin".into()),
            to: "/internal".into(),
        },
    )
    .is_err());
    assert!(validate_middleware(
        "rewrite",
        &MiddlewareConfig::Rewrite {
            from_prefix: None,
            to: "/fixed?leak=query".into(),
        },
    )
    .is_err());
}

fn protected_or_ambiguous_header_mutations() {
    let valid = header_mutation(&[("x-environment", "production")], &["x-legacy"]);
    validate_middleware("headers", &valid).expect("header mutations");
    let protected = header_mutation(&[("x-forwarded-for", "127.0.0.1")], &[]);
    assert!(validate_middleware("headers", &protected).is_err());
    let ambiguous = header_mutation(&[("x-environment", "production")], &["x-environment"]);
    assert!(validate_middleware("headers", &ambiguous).is_err());
}

fn custom_errors_bounded_unique_upstream_statuses() {
    validate_middleware(
        "errors",
        &MiddlewareConfig::CustomError {
            statuses: vec![502, 503, 504],
            body: "service unavailable".into(),
            content_type: "text/plain; charset=utf-8".into(),
        },
    )
    .expect("custom upstream errors");
    assert!(validate_middleware(
        "errors",
        &MiddlewareConfig::CustomError {
            statuses: vec![401, 502, 502],
            body: "unsafe".into(),
            content_type: "text/plain; charset=utf-8".into(),
        },
    )
    .is_err());
}

#[test]
fn middleware_validates_safe_redirect_and_hsts_policies() {
    safe_redirect_and_hsts_policies();
}

#[test]
fn mod_validates_safe_redirect_and_hsts_policies() {
    safe_redirect_and_hsts_policies();
}

#[test]
fn middleware_validates_bounded_canonical_rewrites() {
    bounded_canonical_rewrites();
}

#[test]
fn mod_validates_bounded_canonical_rewrites() {
    bounded_canonical_rewrites();
}

#[test]
fn middleware_rejects_protected_or_ambiguous_header_mutations() {
    protected_or_ambiguous_header_mutations();
}

#[test]
fn mod_rejects_protected_or_ambiguous_header_mutations() {
    protected_or_ambiguous_header_mutations();
}

#[test]
fn middleware_custom_errors_are_bounded_unique_upstream_statuses() {
    custom_errors_bounded_unique_upstream_statuses();
}

#[test]
fn mod_custom_errors_are_bounded_unique_upstream_statuses() {
    custom_errors_bounded_unique_upstream_statuses();
}

#[test]
fn hsts_without_subdomains_needs_no_acknowledgement() {
    let plain = MiddlewareConfig::SecurityHeaders {
        hsts: Some("max-age=600".into()),
        content_security_policy: None,
        override_existing: true,
        acknowledge_hsts_risk: false,
    };
    assert!(validate_middleware("headers", &plain).is_ok());
    let empty = MiddlewareConfig::SecurityHeaders {
        hsts: None,
        content_security_policy: None,
        override_existing: false,
        acknowledge_hsts_risk: false,
    };
    assert!(validate_middleware("headers", &empty).is_err());
}

#[test]
fn redirect_rejects_non_redirect_status_and_accepts_absolute_https() {
    let bad_status = MiddlewareConfig::Redirect {
        location: "/moved".into(),
        status: 200,
        preserve_query: false,
    };
    assert!(validate_middleware("redirect", &bad_status).is_err());
    let absolute = MiddlewareConfig::Redirect {
        location: "https://example.test/moved".into(),
        status: 308,
        preserve_query: false,
    };
    assert!(validate_middleware("redirect", &absolute).is_ok());
}

#[test]
fn custom_error_rejects_empty_status_list_and_unknown_content_type() {
    assert!(validate_middleware(
        "errors",
        &MiddlewareConfig::CustomError {
            statuses: vec![],
            body: "x".into(),
            content_type: "text/plain; charset=utf-8".into(),
        },
    )
    .is_err());
    assert!(validate_middleware(
        "errors",
        &MiddlewareConfig::CustomError {
            statuses: vec![502],
            body: "x".into(),
            content_type: "application/json".into(),
        },
    )
    .is_err());
}
