use aegisproxy::conflict::validate_route_conflicts;
use aegisproxy::schema::{HeaderMatch, RouteConfig};

fn route(id: &str) -> RouteConfig {
    RouteConfig {
        id: id.into(),
        listeners: vec!["public".into()],
        hosts: vec!["example.test".into()],
        paths: vec![],
        path_prefixes: vec!["/api".into()],
        methods: vec!["GET".into()],
        headers: vec![],
        default: false,
        priority: 0,
        middlewares: vec![],
        upstream_group: Some("app".into()),
    }
}

#[test]
fn rejects_duplicate_matchers_even_with_different_priority() {
    let left = route("left");
    let mut right = route("right");
    right.priority = 1;
    assert!(validate_route_conflicts(&vec![left, right]).is_err());
}

#[test]
fn rejects_equal_score_overlap_but_accepts_explicit_priority() {
    let mut left = route("left");
    left.headers.push(HeaderMatch {
        name: "x-left".into(),
        value: Some("yes".into()),
    });
    let mut right = route("right");
    right.headers.push(HeaderMatch {
        name: "x-right".into(),
        value: Some("yes".into()),
    });
    assert!(validate_route_conflicts(&vec![left.clone(), right.clone()]).is_err());
    right.priority = 1;
    assert!(validate_route_conflicts(&vec![left, right]).is_ok());
}

#[test]
fn accepts_disjoint_or_more_specific_routes() {
    let left = route("left");
    let mut right = route("right");
    right.methods = vec!["POST".into()];
    assert!(validate_route_conflicts(&vec![left.clone(), right]).is_ok());

    let mut right = route("right");
    right.path_prefixes = vec!["/api/admin".into()];
    assert!(validate_route_conflicts(&vec![left.clone(), right]).is_ok());

    let mut right = route("right");
    right.hosts = vec!["*.example.test".into()];
    assert!(validate_route_conflicts(&vec![left, right]).is_ok());
}

#[test]
fn same_header_with_different_values_is_disjoint() {
    let mut left = route("left");
    left.headers.push(HeaderMatch {
        name: "x-tenant".into(),
        value: Some("blue".into()),
    });
    let mut right = route("right");
    right.headers.push(HeaderMatch {
        name: "x-tenant".into(),
        value: Some("green".into()),
    });
    assert!(validate_route_conflicts(&vec![left, right]).is_ok());
}

#[test]
fn accepts_more_specific_method_header_host_and_path() {
    let mut broad = route("broad");
    broad.methods.clear();
    broad.headers.push(HeaderMatch {
        name: "x-authenticated".into(),
        value: None,
    });
    let mut narrow = route("narrow");
    narrow.headers.push(HeaderMatch {
        name: "x-authenticated".into(),
        value: Some("yes".into()),
    });
    assert!(validate_route_conflicts(&vec![broad, narrow]).is_ok());

    let mut wildcard = route("wildcard");
    wildcard.hosts = vec!["*.example.test".into()];
    let exact = route("exact");
    assert!(validate_route_conflicts(&vec![wildcard, exact]).is_ok());

    let prefix = route("prefix");
    let mut exact = route("exact");
    exact.paths = vec!["/api".into()];
    exact.path_prefixes.clear();
    assert!(validate_route_conflicts(&vec![prefix, exact]).is_ok());
}

#[test]
fn rejects_multiple_defaults_on_one_listener() {
    let mut left = route("left");
    left.default = true;
    left.hosts.clear();
    left.paths.clear();
    left.path_prefixes.clear();
    left.methods.clear();
    let mut right = left.clone();
    right.id = "right".into();
    assert!(validate_route_conflicts(&vec![left, right]).is_err());
}

#[test]
fn overlap_is_symmetric_in_declaration_order() {
    let left = route("left");
    let mut right = route("right");
    right.hosts = vec!["*.example.test".into(), "example.test".into()];
    let forward = validate_route_conflicts(&vec![left.clone(), right.clone()]).is_ok();
    let backward = validate_route_conflicts(&vec![right, left]).is_ok();
    assert_eq!(forward, backward);
}

#[test]
fn single_route_never_conflicts_and_listed_twice_always_does() {
    let only = route("only");
    assert!(validate_route_conflicts(&vec![only.clone()]).is_ok());
    let mut twice = only.clone();
    twice.priority = 7;
    assert!(validate_route_conflicts(&vec![only, twice]).is_err());
    assert!(validate_route_conflicts(&vec![]).is_ok());
}

#[test]
fn distinct_listeners_never_conflict() {
    let left = route("left");
    let mut right = route("right");
    right.listeners = vec!["private".into()];
    assert!(validate_route_conflicts(&vec![left, right]).is_ok());
}

#[test]
fn every_declaration_order_gives_the_same_verdict() {
    let a = route("a");
    let mut b = route("b");
    b.headers = vec![
        HeaderMatch { name: "x-tenant".into(), value: Some("blue".into()) },
        HeaderMatch { name: "x-region".into(), value: None },
    ];
    let mut c = route("c");
    c.headers = vec![
        HeaderMatch { name: "x-region".into(), value: None },
        HeaderMatch { name: "x-tenant".into(), value: Some("blue".into()) },
    ];
    let orders = [
        vec![a.clone(), b.clone(), c.clone()],
        vec![a.clone(), c.clone(), b.clone()],
        vec![b.clone(), a.clone(), c.clone()],
        vec![b.clone(), c.clone(), a.clone()],
        vec![c.clone(), a.clone(), b.clone()],
        vec![c.clone(), b.clone(), a.clone()],
    ];
    let verdicts: Vec<bool> = orders.iter().map(|o| validate_route_conflicts(o).is_ok()).collect();
    assert!(verdicts.iter().all(|v| *v == verdicts[0]));
    assert!(!verdicts[0]);
}
