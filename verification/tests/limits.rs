use aegisproxy::inflight::{in_flight_policy, rate_limit_policy, ClientCounts, InFlightLimiter, InFlightOutcome};
use aegisproxy::map::OrderedMap;
use aegisproxy::net::IpAddress;
use aegisproxy::schema::{Config, MiddlewareConfig, RateLimitKey, RouteConfig};

fn ip(text: &str) -> IpAddress {
    IpAddress::parse(text).expect("IP")
}

#[test]
fn client_capacity_is_bounded_and_released() {
    let mut counts = ClientCounts::new();
    let first = ip("192.0.2.1");
    let second = ip("192.0.2.2");
    assert!(counts.acquire(first, 1));
    assert!(!counts.acquire(first, 1));
    assert!(counts.acquire(second, 1));
    assert_eq!(counts.active(first), 1);
    counts.release(first);
    assert_eq!(counts.active(first), 0);
    assert_eq!(counts.active(second), 1);
    assert!(counts.acquire(first, 1));
    counts.release(ip("192.0.2.3"));
    assert_eq!(counts.active(ip("192.0.2.3")), 0);
}

#[test]
fn release_after_acquire_restores_counts() {
    let mut counts = ClientCounts::new();
    let client = ip("2001:db8::1");
    assert!(counts.acquire(client, 3));
    assert!(counts.acquire(client, 3));
    assert_eq!(counts.active(client), 2);
    counts.release(client);
    counts.release(client);
    counts.release(client);
    assert_eq!(counts.active(client), 0);
    assert!(!counts.acquire(client, 0));
    assert_eq!(counts.active(client), 0);
}

fn config_with(middlewares: Vec<(&str, MiddlewareConfig)>) -> Config {
    let mut map = OrderedMap::new();
    for (id, definition) in middlewares {
        map.insert(id.to_string(), definition);
    }
    Config {
        schema_version: 1,
        runtime: Default::default(),
        limits: Default::default(),
        listeners: vec![],
        tls: Default::default(),
        certificates: vec![],
        acme: Default::default(),
        trusted_proxies: Default::default(),
        upstream_groups: vec![],
        providers: vec![],
        middlewares: map,
        routes: vec![],
        admin: Default::default(),
        observability: Default::default(),
    }
}

fn route(middlewares: &[&str]) -> RouteConfig {
    RouteConfig {
        id: "route".into(),
        listeners: vec!["public".into()],
        hosts: vec![],
        paths: vec![],
        path_prefixes: vec![],
        methods: vec![],
        headers: vec![],
        default: true,
        priority: 0,
        middlewares: middlewares.iter().map(|id| id.to_string()).collect(),
        upstream_group: Some("app".into()),
    }
}

#[test]
fn limit_policies_are_found_by_kind() {
    let config = config_with(vec![
        (
            "edge",
            MiddlewareConfig::RateLimit {
                key: RateLimitKey::ClientIp,
                requests_per_second: 10,
                burst: 20,
                max_keys: 100,
                idle_secs: 60,
            },
        ),
        (
            "user",
            MiddlewareConfig::RateLimit {
                key: RateLimitKey::Principal,
                requests_per_second: 10,
                burst: 20,
                max_keys: 100,
                idle_secs: 60,
            },
        ),
        (
            "inflight",
            MiddlewareConfig::InFlightLimit {
                max_requests: 10,
                max_per_client: 2,
                status: 429,
            },
        ),
    ]);
    let route = route(&["missing", "user", "inflight", "edge"]);
    assert_eq!(rate_limit_policy(&config, &route, RateLimitKey::ClientIp), Some(3));
    assert_eq!(rate_limit_policy(&config, &route, RateLimitKey::Principal), Some(1));
    assert_eq!(in_flight_policy(&config, &route), Some(2));
    let bare = self::route(&["missing"]);
    assert_eq!(in_flight_policy(&config, &bare), None);
    assert_eq!(rate_limit_policy(&config, &bare, RateLimitKey::ClientIp), None);
}

#[test]
fn route_and_client_bounds_both_apply() {
    let mut limiter = InFlightLimiter::new(2, 1, 429);
    let a = ip("192.0.2.1");
    let b = ip("192.0.2.2");
    let c = ip("192.0.2.3");
    assert_eq!(limiter.acquire(a), InFlightOutcome::Acquired);
    assert_eq!(limiter.acquire(a), InFlightOutcome::Limited(429));
    assert_eq!(limiter.acquire(b), InFlightOutcome::Acquired);
    assert_eq!(limiter.acquire(c), InFlightOutcome::Limited(429));
    assert_eq!(limiter.active(), 2);
    limiter.release(a);
    assert_eq!(limiter.client_active(a), 0);
    assert_eq!(limiter.acquire(c), InFlightOutcome::Acquired);
    let mut broken = InFlightLimiter::new(0, 1, 42);
    assert_eq!(broken.acquire(a), InFlightOutcome::Unavailable);
}

#[test]
fn global_and_client_capacity_release_without_queueing() {
    let config = config_with(vec![(
        "inflight",
        MiddlewareConfig::InFlightLimit { max_requests: 2, max_per_client: 1, status: 429 },
    )]);
    let route = route(&["inflight"]);
    let index = in_flight_policy(&config, &route).expect("route in-flight policy");
    let definition = config.middlewares.get(&route.middlewares[index]).expect("definition");
    let MiddlewareConfig::InFlightLimit { max_requests, max_per_client, status } = *definition else {
        panic!("in-flight limit");
    };
    let mut limiter = InFlightLimiter::new(max_requests, max_per_client, status);
    let first_ip = ip("192.0.2.1");
    let second_ip = ip("192.0.2.2");
    let third_ip = ip("192.0.2.3");
    assert_eq!(limiter.acquire(first_ip), InFlightOutcome::Acquired);
    assert_eq!(limiter.acquire(first_ip), InFlightOutcome::Limited(429));
    assert_eq!(limiter.acquire(second_ip), InFlightOutcome::Acquired);
    assert_eq!(limiter.acquire(third_ip), InFlightOutcome::Limited(429));
    limiter.release(first_ip);
    assert_eq!(limiter.acquire(first_ip), InFlightOutcome::Acquired);
    limiter.release(second_ip);
}
