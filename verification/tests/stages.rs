use aegisproxy::map::OrderedMap;
use aegisproxy::schema::{Config, RouteConfig, UpstreamGroupConfig};
use aegisproxy::stages::{next_stage, Stage, StageAction, StageMessage, StageOutcome};

fn config(groups: &[&str]) -> Config {
    Config {
        schema_version: 1,
        runtime: Default::default(),
        limits: Default::default(),
        listeners: vec![],
        tls: Default::default(),
        certificates: vec![],
        acme: Default::default(),
        trusted_proxies: Default::default(),
        upstream_groups: groups
            .iter()
            .map(|id| UpstreamGroupConfig { id: id.to_string(), ..UpstreamGroupConfig::default() })
            .collect(),
        providers: vec![],
        middlewares: OrderedMap::new(),
        routes: vec![],
        admin: Default::default(),
        observability: Default::default(),
    }
}

fn route(group: Option<&str>) -> RouteConfig {
    RouteConfig {
        id: "route".into(),
        listeners: vec!["public".into()],
        hosts: vec![],
        paths: vec![],
        path_prefixes: vec![],
        methods: vec![],
        headers: vec![],
        default: true,
        priority: 0,
        middlewares: vec![],
        upstream_group: group.map(str::to_string),
    }
}

fn reply_of(action: &StageAction) -> (u16, StageMessage, Option<u64>) {
    match action {
        StageAction::Reply { status, message, retry_after, .. } => (*status, *message, *retry_after),
        other => panic!("expected a reply, got {other:?}"),
    }
}

#[test]
fn passing_stages_run_in_fixed_order_and_forward() {
    let config = config(&["other", "app"]);
    let route = route(Some("app"));
    let mut stage = Stage::Target;
    let mut visited = vec![stage];
    loop {
        let (next, action) = next_stage(&config, &route, stage, StageOutcome::Passed);
        match action {
            StageAction::Continue => {
                visited.push(next);
                stage = next;
            }
            StageAction::Forward { group } => {
                assert_eq!(next, Stage::Upstream);
                assert_eq!(group, 1);
                break;
            }
            other => panic!("unexpected action {other:?}"),
        }
    }
    assert_eq!(
        visited,
        vec![
            Stage::Target,
            Stage::Route,
            Stage::IpPolicy,
            Stage::InFlight,
            Stage::EdgeRateLimit,
            Stage::Redirect,
            Stage::Maintenance,
            Stage::Cors,
            Stage::BasicAuth,
            Stage::ForwardAuth,
            Stage::PrincipalRateLimit,
            Stage::AuthenticatedMaintenance,
            Stage::Rewrite,
            Stage::HeaderMutation,
        ]
    );
}

#[test]
fn refusals_carry_fixed_statuses_and_texts() {
    let config = config(&["app"]);
    let route = route(Some("app"));
    let cases = [
        (Stage::Route, StageOutcome::NoMatch, 404, "no matching route\n"),
        (Stage::IpPolicy, StageOutcome::Denied, 403, "request denied\n"),
        (Stage::InFlight, StageOutcome::Unavailable, 503, "request limit unavailable\n"),
        (Stage::EdgeRateLimit, StageOutcome::Unavailable, 503, "rate limit unavailable\n"),
        (Stage::Redirect, StageOutcome::Failed, 500, "redirect response failed\n"),
        (Stage::Maintenance, StageOutcome::Failed, 500, "maintenance response failed\n"),
        (Stage::Cors, StageOutcome::Denied, 403, "CORS request denied\n"),
        (Stage::BasicAuth, StageOutcome::Unavailable, 503, "authentication unavailable\n"),
        (Stage::ForwardAuth, StageOutcome::ForwardDenied { status: 302 }, 302, "authentication required\n"),
        (Stage::Rewrite, StageOutcome::Failed, 500, "request rewrite failed\n"),
        (Stage::HeaderMutation, StageOutcome::Failed, 500, "request header mutation failed\n"),
        (Stage::Route, StageOutcome::Denied, 500, "middleware response failed\n"),
    ];
    for (stage, outcome, status, text) in cases {
        let (at, action) = next_stage(&config, &route, stage, outcome);
        assert_eq!(at, stage);
        let (got_status, message, retry_after) = reply_of(&action);
        assert_eq!(got_status, status);
        assert_eq!(message.text(), text);
        assert_eq!(retry_after, None);
    }
}

#[test]
fn limits_set_retry_after() {
    let config = config(&["app"]);
    let route = route(Some("app"));
    let (_, limited) = next_stage(&config, &route, Stage::InFlight, StageOutcome::Limited { status: 429 });
    assert_eq!(reply_of(&limited), (429, StageMessage::CapacityExhausted, Some(1)));
    let (_, busy) = next_stage(&config, &route, Stage::InFlight, StageOutcome::Limited { status: 503 });
    assert_eq!(reply_of(&busy), (503, StageMessage::CapacityExhausted, None));
    let (_, rate) = next_stage(
        &config,
        &route,
        Stage::PrincipalRateLimit,
        StageOutcome::RateLimited { retry_after_secs: 7 },
    );
    assert_eq!(reply_of(&rate), (429, StageMessage::RateLimited, Some(7)));
}

#[test]
fn basic_auth_challenge_names_the_realm() {
    let config = config(&["app"]);
    let route = route(Some("app"));
    let (_, action) = next_stage(
        &config,
        &route,
        Stage::BasicAuth,
        StageOutcome::Unauthorized { realm: "admin".into() },
    );
    match action {
        StageAction::Reply { status, message, realm, .. } => {
            assert_eq!(status, 401);
            assert_eq!(message.text(), "authentication required\n");
            assert_eq!(realm.as_deref(), Some("admin"));
        }
        other => panic!("unexpected action {other:?}"),
    }
}

#[test]
fn stage_responses_are_sent_and_missing_upstreams_answer_bad_gateway() {
    let config = config(&["app"]);
    let (_, sent) = next_stage(&config, &route(Some("app")), Stage::Cors, StageOutcome::Responded);
    assert!(matches!(sent, StageAction::SendStageResponse));
    let (_, none) = next_stage(&config, &route(None), Stage::HeaderMutation, StageOutcome::Passed);
    assert_eq!(reply_of(&none), (502, StageMessage::NoUpstream, None));
    let (_, missing) =
        next_stage(&config, &route(Some("gone")), Stage::HeaderMutation, StageOutcome::Passed);
    assert_eq!(reply_of(&missing), (502, StageMessage::UpstreamMissing, None));
    assert_eq!(missing_text(), "upstream group missing\n");
}

fn missing_text() -> &'static str {
    StageMessage::UpstreamMissing.text()
}
