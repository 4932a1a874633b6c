use aegisproxy::index::RouteIndex;
use aegisproxy::map::OrderedMap;
use aegisproxy::request::{
    is_grpc_content_type, is_idempotent_retry_method, is_websocket_upgrade,
    reject_unsafe_request_target, request_host,
};
use aegisproxy::route::{
    canonical_host, canonical_path, canonicalize_request_path, PathError, RequestFacts,
};
use aegisproxy::schema::{Config, RouteConfig};
use aegisproxy::web::AuthorityParts;

fn route(id: &str) -> RouteConfig {
    RouteConfig {
        id: id.into(),
        listeners: vec!["public".into()],
        hosts: vec!["example.test".into()],
        paths: vec![],
        path_prefixes: vec!["/".into()],
        methods: vec![],
        headers: vec![],
        default: false,
        priority: 0,
        middlewares: vec![],
        upstream_group: Some("app".into()),
    }
}

fn config(routes: Vec<RouteConfig>) -> Config {
    Config {
        schema_version: 1,
        runtime: Default::default(),
        limits: Default::default(),
        listeners: vec![],
        tls: Default::default(),
        certificates: vec![],
        acme: Default::default(),
        trusted_proxies: Default::default(),
        upstream_groups: vec![],
        providers: vec![],
        middlewares: OrderedMap::new(),
        routes,
        admin: Default::default(),
        observability: Default::default(),
    }
}

fn request(path: &str, headers: &[(&str, &str)]) -> RequestFacts {
    RequestFacts {
        method: "GET".into(),
        http2: false,
        scheme: None,
        authority: None,
        path: path.into(),
        headers: headers
            .iter()
            .map(|(name, value)| (name.to_string(), value.as_bytes().to_vec()))
            .collect(),
    }
}

#[test]
fn sni_selection_prefers_exact_then_wildcard_then_default() {
    let exact = route("exact");
    let mut wildcard = route("wildcard");
    wildcard.hosts = vec!["*.example.test".into()];
    let mut default = route("default");
    default.hosts.clear();
    default.path_prefixes.clear();
    default.default = true;
    let config = config(vec![default, wildcard, exact]);
    let index = RouteIndex::compile(&config);
    assert_eq!(
        index
            .select_sni(&config, "public", Some("example.test"))
            .map(|route| route.id.as_str()),
        Some("exact")
    );
    assert_eq!(
        index
            .select_sni(&config, "public", Some("api.example.test"))
            .map(|route| route.id.as_str()),
        Some("wildcard")
    );
    assert_eq!(
        index
            .select_sni(&config, "public", None)
            .map(|route| route.id.as_str()),
        Some("default")
    );
}

#[test]
fn route_order_and_fingerprint_ignore_declaration_and_set_order() {
    let mut first = route("b");
    first.hosts = vec!["b.example.test".into(), "a.example.test".into()];
    let second = route("a");
    let left = config(vec![first.clone(), second.clone()]);
    first.hosts.reverse();
    let right = config(vec![second, first]);
    let left_index = RouteIndex::compile(&left);
    let right_index = RouteIndex::compile(&right);
    assert_eq!(left_index.route_ids(&left, "public"), vec!["a", "b"]);
    assert_eq!(right_index.route_ids(&right, "public"), vec!["a", "b"]);
    assert_eq!(left_index.fingerprint(), right_index.fingerprint());

    let mut changed = right.clone();
    changed.routes[0].priority = 1;
    assert_ne!(
        right_index.fingerprint(),
        RouteIndex::compile(&changed).fingerprint()
    );
}

#[test]
fn declaration_order_never_changes_selected_route() {
    for (prefix_priority, exact_priority) in [(0, 0), (-100, 99), (99, -100), (5, 5), (-3, 7)] {
        let mut prefix = route("prefix");
        prefix.priority = prefix_priority;
        let mut exact = route("exact");
        exact.priority = exact_priority;
        exact.paths = vec!["/".into()];
        exact.path_prefixes.clear();

        let left = config(vec![prefix.clone(), exact.clone()]);
        let right = config(vec![exact, prefix]);
        let request = request("/", &[("host", "example.test")]);
        let left_id = RouteIndex::compile(&left)
            .select(&left, &request, "public")
            .map(|route| route.id.clone());
        let right_id = RouteIndex::compile(&right)
            .select(&right, &request, "public")
            .map(|route| route.id.clone());
        assert_eq!(left_id, right_id);
        assert!(left_id.is_some());
    }
}

#[test]
fn selection_uses_priority_then_specificity_then_id() {
    let mut low = route("low");
    low.priority = 1;
    let mut high = route("high");
    high.priority = 2;
    high.path_prefixes = vec!["/".into()];
    let mut specific = route("specific");
    specific.priority = 1;
    specific.path_prefixes = vec!["/api".into()];
    let config = config(vec![low, high, specific]);
    let index = RouteIndex::compile(&config);
    let picked = index
        .select(&config, &request("/api/x", &[("host", "example.test")]), "public")
        .map(|route| route.id.as_str());
    assert_eq!(picked, Some("high"));
    let none = index.select(&config, &request("/api", &[("host", "other.test")]), "public");
    assert!(none.is_none());
    let unknown = index.select(&config, &request("/", &[("host", "example.test")]), "private");
    assert!(unknown.is_none());
    let no_host = index.select(&config, &request("/", &[]), "public");
    assert!(no_host.is_none());
}

#[test]
fn canonicalizes_path_once_and_rejects_ambiguous_forms() {
    assert_eq!(canonical_path("/a/%7e/%3a"), Ok("/a/~/%3A".into()));
    for invalid in [
        "/bad%",
        "/bad%2",
        "/bad%zz",
        "/a/%2f/b",
        "/a/%5C/b",
        "/a/%00/b",
        "/a/./b",
        "/a/%2e%2e/b",
        "/a//b",
        "/a\\b",
    ] {
        assert_eq!(canonical_path(invalid), Err(()), "accepted {invalid}");
    }
}

#[test]
fn request_path_mutation_preserves_query_and_enforces_target_limit() {
    let target = "/users/%7ejane?view=full";
    assert_eq!(
        canonicalize_request_path("/users/%7ejane", Some("view=full"), target.len(), 128),
        Ok(Some("/users/~jane?view=full".to_string()))
    );
    assert_eq!(
        canonicalize_request_path("/users/~jane", Some("view=full"), "/users/~jane?view=full".len(), 8),
        Err(PathError::TooLong)
    );
    assert_eq!(
        canonicalize_request_path("/users/~jane", None, 12, 128),
        Ok(None)
    );
    assert_eq!(
        canonicalize_request_path("/a/./b", None, 6, 128),
        Err(PathError::Invalid)
    );
}

#[test]
fn canonicalizes_authority_and_rejects_host_ambiguity() {
    let request_one = request("/", &[("host", "Example.Test.:443")]);
    assert_eq!(request_host(&request_one), Ok("example.test".into()));

    let duplicate = request("/", &[("host", "example.test"), ("host", "example.test")]);
    assert_eq!(request_host(&duplicate), Err(()));

    let mut mismatch = request("/", &[("host", "other.test")]);
    mismatch.scheme = Some("https".into());
    mismatch.authority = AuthorityParts::parse("example.test");
    assert_eq!(request_host(&mismatch), Err(()));

    let ipv6 = request("/", &[("host", "[::1]:443")]);
    assert_eq!(request_host(&ipv6), Ok("::1".into()));
}

#[test]
fn authority_with_user_info_or_empty_port_is_refused() {
    assert_eq!(request_host(&request("/", &[("host", "user@example.test")])), Err(()));
    assert_eq!(request_host(&request("/", &[("host", "example.test:")])), Err(()));
    assert_eq!(request_host(&request("/", &[])), Err(()));
    let mut agreeing = request("/", &[("host", "EXAMPLE.test")]);
    agreeing.authority = AuthorityParts::parse("example.test:8443");
    assert_eq!(request_host(&agreeing), Ok("example.test".into()));
}

#[test]
fn idna_policy_requires_canonical_ascii_labels() {
    assert_eq!(
        canonical_host("XN--BCHER-KVA.EXAMPLE."),
        Ok("xn--bcher-kva.example".into())
    );
    assert_eq!(canonical_host("bücher.example"), Err(()));
    assert_eq!(canonical_host("bad_label.example"), Err(()));
}

#[test]
fn unsafe_targets_and_framing_are_rejected() {
    let plain = request("/", &[("host", "example.test")]);
    assert_eq!(reject_unsafe_request_target(&plain), None);

    let mut connect = request("/", &[("host", "example.test")]);
    connect.method = "CONNECT".into();
    assert_eq!(reject_unsafe_request_target(&connect), Some(400));

    let mut absolute = request("/", &[("host", "example.test")]);
    absolute.scheme = Some("http".into());
    absolute.authority = AuthorityParts::parse("example.test");
    assert_eq!(reject_unsafe_request_target(&absolute), Some(400));

    let smuggle = request(
        "/",
        &[("host", "example.test"), ("content-length", "5"), ("transfer-encoding", "chunked")],
    );
    assert_eq!(reject_unsafe_request_target(&smuggle), Some(400));
    let chunked = request("/", &[("host", "example.test"), ("transfer-encoding", "Chunked")]);
    assert_eq!(reject_unsafe_request_target(&chunked), None);
    let gzip = request("/", &[("host", "example.test"), ("transfer-encoding", "gzip")]);
    assert_eq!(reject_unsafe_request_target(&gzip), Some(400));

    let mut h2 = request("/", &[]);
    h2.http2 = true;
    h2.scheme = Some("https".into());
    h2.authority = AuthorityParts::parse("example.test");
    assert_eq!(reject_unsafe_request_target(&h2), None);
    h2.headers.push(("te".into(), b"trailers".to_vec()));
    assert_eq!(reject_unsafe_request_target(&h2), None);
    h2.headers.push(("connection".into(), b"close".to_vec()));
    assert_eq!(reject_unsafe_request_target(&h2), Some(400));
}

#[test]
fn request_classification() {
    assert!(is_idempotent_retry_method("PUT"));
    assert!(!is_idempotent_retry_method("POST"));
    assert!(!is_idempotent_retry_method("get"));
    assert!(is_grpc_content_type(b"Application/GRPC+proto"));
    assert!(!is_grpc_content_type(b"application/json"));
    let mut upgrade = request(
        "/chat",
        &[("host", "example.test"), ("upgrade", "WebSocket"), ("connection", "keep-alive, Upgrade")],
    );
    assert!(is_websocket_upgrade(&upgrade));
    upgrade.method = "POST".into();
    assert!(!is_websocket_upgrade(&upgrade));
    let missing = request("/chat", &[("upgrade", "websocket")]);
    assert!(!is_websocket_upgrade(&missing));
}
