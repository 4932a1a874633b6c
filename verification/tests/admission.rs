use aegisproxy::admission::{admit_size, admit_target};
use aegisproxy::map::OrderedMap;
use aegisproxy::net::{IpAddress, SocketAddress};
use aegisproxy::route::RequestFacts;
use aegisproxy::schema::{Config, LimitsConfig, ListenerConfig};

fn config(protocol: &str) -> Config {
    Config {
        schema_version: 1,
        runtime: Default::default(),
        limits: Default::default(),
        listeners: vec![ListenerConfig {
            id: "public".into(),
            bind: SocketAddress::parse("127.0.0.1:8443").expect("address"),
            protocol: protocol.into(),
            certificates: vec![],
        }],
        tls: Default::default(),
        certificates: vec![],
        acme: Default::default(),
        trusted_proxies: Default::default(),
        upstream_groups: vec![],
        providers: vec![],
        middlewares: OrderedMap::new(),
        routes: vec![],
        admin: Default::default(),
        observability: Default::default(),
    }
}

fn request(method: &str, path: &str, headers: &[(&str, &str)]) -> RequestFacts {
    RequestFacts {
        method: method.into(),
        http2: false,
        scheme: None,
        authority: None,
        path: path.into(),
        headers: headers
            .iter()
            .map(|(name, value)| (name.to_string(), value.as_bytes().to_vec()))
            .collect(),
    }
}

fn peer() -> IpAddress {
    IpAddress::parse("192.0.2.7").expect("IP")
}

#[test]
fn admitted_request_gets_canonical_target_host_and_forwarding() {
    let config = config("https");
    let facts = request("GET", "/a/%7eb", &[("host", "Example.TEST")]);
    let admitted = admit_target(&config, "public", &facts, Some("x=1"), 10, peer(), None)
        .expect("admitted");
    assert_eq!(admitted.target.as_deref(), Some("/a/~b?x=1"));
    assert_eq!(admitted.host, "example.test");
    assert_eq!(admitted.scheme, "https");
    assert_eq!(admitted.forwarding.client, peer());
    let canonical = request("GET", "/a/b", &[("host", "example.test")]);
    let admitted = admit_target(&config, "public", &canonical, None, 4, peer(), Some("example.test"))
        .expect("admitted");
    assert!(admitted.target.is_none());
}

#[test]
fn refusals_follow_check_order() {
    let config = config("http");
    let connect = request("CONNECT", "/", &[("host", "example.test")]);
    let refusal = admit_target(&config, "public", &connect, None, 1, peer(), None).unwrap_err();
    assert_eq!(refusal.status, 400);
    assert_eq!(refusal.message, "request target is not supported\n");
    let long = request("GET", "/abc", &[("host", "example.test")]);
    let mut tight = config.clone();
    tight.limits = LimitsConfig {
        max_request_target: 2,
        ..LimitsConfig::default()
    };
    assert_eq!(
        admit_target(&tight, "public", &long, None, 4, peer(), None)
            .unwrap_err()
            .status,
        414
    );
    let odd = request("GET", "/a//b", &[("host", "example.test")]);
    assert_eq!(
        admit_target(&config, "public", &odd, None, 4, peer(), None)
            .unwrap_err()
            .message,
        "request path is not canonical\n"
    );
    let no_host = request("GET", "/", &[]);
    assert_eq!(
        admit_target(&config, "public", &no_host, None, 1, peer(), None)
            .unwrap_err()
            .message,
        "request target is not supported\n"
    );
    let fine = request("GET", "/", &[("host", "example.test")]);
    assert_eq!(
        admit_target(&config, "missing", &fine, None, 1, peer(), None)
            .unwrap_err()
            .status,
        503
    );
    assert_eq!(
        admit_target(&config, "public", &fine, None, 1, peer(), Some("other.test"))
            .unwrap_err()
            .status,
        421
    );
}

#[test]
fn header_section_and_declared_body_are_bounded() {
    let limits = LimitsConfig {
        max_headers: 2,
        max_header_bytes: 40,
        max_request_body: 10,
        ..LimitsConfig::default()
    };
    let ok = request("GET", "/", &[("host", "a.test"), ("content-length", "10")]);
    assert!(admit_size(&limits, &ok.headers).is_none());
    let body = request("GET", "/", &[("content-length", "11")]);
    assert_eq!(admit_size(&limits, &body.headers).expect("refused").status, 413);
    let many = request("GET", "/", &[("a", "1"), ("b", "2"), ("c", "3")]);
    assert_eq!(admit_size(&limits, &many.headers).expect("refused").status, 431);
    let big = request("GET", "/", &[("x-long", "0123456789abcdef0123456789abcdef0123456789")]);
    assert_eq!(admit_size(&limits, &big.headers).expect("refused").status, 431);
}
