use aegisproxy::map::OrderedMap;
use aegisproxy::negotiate::{
    compression_choice, has_no_transform, parse_quality, quality, select_encoding,
    vary_needs_accept_encoding, CompressionRequest, CompressionResponse,
};
use aegisproxy::schema::{CompressionEncoding, Config, MiddlewareConfig, RouteConfig};

fn values(list: &[&str]) -> Vec<Vec<u8>> {
    list.iter().map(|value| value.as_bytes().to_vec()).collect()
}

#[test]
fn negotiation_honors_quality_and_explicit_rejection() {
    let headers = values(&["gzip;q=0, br;q=0.5, *;q=1"]);
    assert_eq!(quality(&headers, CompressionEncoding::Gzip), None);
    assert_eq!(quality(&headers, CompressionEncoding::Brotli), Some(500));
    assert_eq!(parse_quality("0"), Some(0));
    assert_eq!(parse_quality("0.125"), Some(125));
    assert_eq!(parse_quality("1.001"), None);
}

#[test]
fn quality_values_follow_the_grammar() {
    assert_eq!(parse_quality("1"), Some(1000));
    assert_eq!(parse_quality("1.000"), Some(1000));
    assert_eq!(parse_quality("0.5"), Some(500));
    assert_eq!(parse_quality("0.05"), Some(50));
    assert_eq!(parse_quality("0."), Some(0));
    assert_eq!(parse_quality("1."), None);
    assert_eq!(parse_quality("0.1234"), None);
    assert_eq!(parse_quality("00"), None);
    assert_eq!(parse_quality(""), None);
}

#[test]
fn wildcard_and_last_entry_and_malformed_lists() {
    assert_eq!(quality(&values(&["*"]), CompressionEncoding::Gzip), Some(1000));
    assert_eq!(quality(&values(&["GZIP;Q=0.2"]), CompressionEncoding::Gzip), Some(200));
    assert_eq!(
        quality(&values(&["gzip;q=0.3", "gzip;q=0.7"]), CompressionEncoding::Gzip),
        Some(700)
    );
    assert_eq!(quality(&values(&["gzip;level=1"]), CompressionEncoding::Gzip), None);
    assert_eq!(quality(&values(&["br, gzip;q"]), CompressionEncoding::Brotli), None);
    assert_eq!(quality(&values(&["identity"]), CompressionEncoding::Gzip), None);
    assert_eq!(quality(&vec![], CompressionEncoding::Gzip), None);
}

#[test]
fn selection_prefers_quality_then_configured_order() {
    let both = [CompressionEncoding::Brotli, CompressionEncoding::Gzip];
    assert_eq!(
        select_encoding(&values(&["gzip, br"]), &both),
        Some(CompressionEncoding::Brotli)
    );
    assert_eq!(
        select_encoding(&values(&["gzip, br;q=0.5"]), &both),
        Some(CompressionEncoding::Gzip)
    );
    assert_eq!(select_encoding(&values(&["identity"]), &both), None);
}

#[test]
fn token_lists_are_trimmed_and_case_insensitive() {
    assert!(has_no_transform(&values(&["max-age=5,  No-Transform "])));
    assert!(!has_no_transform(&values(&["no-transformx"])));
    assert!(!vary_needs_accept_encoding(&values(&["Origin, accept-encoding"])));
    assert!(!vary_needs_accept_encoding(&values(&["*"])));
    assert!(vary_needs_accept_encoding(&values(&["Origin"])));
}

fn compression_config() -> (Config, RouteConfig) {
    let mut middlewares = OrderedMap::new();
    middlewares.insert(
        "compress".to_string(),
        MiddlewareConfig::Compression {
            encodings: vec![CompressionEncoding::Gzip],
            content_types: vec!["text/plain".into()],
            min_bytes: 256,
            max_concurrent: 4,
            allow_authenticated: false,
        },
    );
    let config = Config {
        schema_version: 1,
        runtime: Default::default(),
        limits: Default::default(),
        listeners: vec![],
        tls: Default::default(),
        certificates: vec![],
        acme: Default::default(),
        trusted_proxies: Default::default(),
        upstream_groups: vec![],
        providers: vec![],
        middlewares,
        routes: vec![],
        admin: Default::default(),
        observability: Default::default(),
    };
    let route = RouteConfig {
        id: "route".into(),
        listeners: vec!["public".into()],
        hosts: vec![],
        paths: vec![],
        path_prefixes: vec![],
        methods: vec![],
        headers: vec![],
        default: true,
        priority: 0,
        middlewares: vec!["other".into(), "compress".into()],
        upstream_group: Some("app".into()),
    };
    (config, route)
}

fn request() -> CompressionRequest {
    CompressionRequest {
        method_is_get: true,
        grpc: false,
        websocket: false,
        authenticated: false,
        has_range: false,
        accept_encoding: values(&["gzip"]),
        cache_control: vec![],
    }
}

fn response() -> CompressionResponse {
    CompressionResponse {
        status: 200,
        has_content_encoding: false,
        has_content_range: false,
        has_trailer: false,
        cache_control: vec![],
        content_length: Some(b"2048".to_vec()),
        content_type: Some(b"Text/Plain; charset=utf-8".to_vec()),
    }
}

#[test]
fn compression_choice_follows_the_policy() {
    let (config, route) = compression_config();
    assert_eq!(
        compression_choice(&config, &route, &request(), &response()),
        Some((1, CompressionEncoding::Gzip))
    );
    let mut small = response();
    small.content_length = Some(b"100".to_vec());
    assert_eq!(compression_choice(&config, &route, &request(), &small), None);
    let mut stream = response();
    stream.content_type = Some(b"text/event-stream".to_vec());
    assert_eq!(compression_choice(&config, &route, &request(), &stream), None);
    let mut authenticated = request();
    authenticated.authenticated = true;
    assert_eq!(compression_choice(&config, &route, &authenticated, &response()), None);
    let mut partial = response();
    partial.status = 206;
    assert_eq!(compression_choice(&config, &route, &request(), &partial), None);
}
