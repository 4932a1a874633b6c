//! The fixed order of the request stages, and what each stage's outcome
//! means for the request: run the next stage, answer with a fixed error,
//! send the response the stage built, or forward to the upstream group.
//! The transport runs each stage and reports its outcome here.

use vstd::prelude::*;
use vstd::string::StrSliceExecFns;
use crate::schema::{Config, RouteConfig, UpstreamGroupConfig};
use crate::text::str_eq;

verus! {

/// The request stages, in the order they run.
#[derive(Clone, Copy, Debug, PartialEq, Eq, Structural)]
pub enum Stage {
    /// Target, path, authority, forwarding, size, ACME challenge and upgrade admission.
    Target,
    /// Route selection.
    Route,
    /// Trusted-client IP policy.
    IpPolicy,
    /// Route in-flight limit.
    InFlight,
    /// Client-address rate limit.
    EdgeRateLimit,
    /// Fixed redirect.
    Redirect,
    /// Maintenance response for unauthenticated traffic.
    Maintenance,
    /// CORS preflight.
    Cors,
    /// HTTP Basic authentication.
    BasicAuth,
    /// Forward authentication subrequest.
    ForwardAuth,
    /// Principal rate limit.
    PrincipalRateLimit,
    /// Maintenance response after authentication.
    AuthenticatedMaintenance,
    /// Path rewrite.
    Rewrite,
    /// Request header mutations.
    HeaderMutation,
    /// The upstream exchange.
    Upstream,
}

/// What a stage reported.
#[derive(Clone, Debug)]
pub enum StageOutcome {
    /// The stage let the request through, or is not configured for the route.
    Passed,
    /// The stage built the complete response itself.
    Responded,
    /// No route matches the request.
    NoMatch,
    /// The policy refused the request.
    Denied,
    /// The in-flight limit is exhausted; the configured rejection status.
    Limited { status: u16 },
    /// The rate limit is exhausted for the given number of seconds.
    RateLimited { retry_after_secs: u64 },
    /// The stage's shared state could not be used.
    Unavailable,
    /// The stage could not do its work.
    Failed,
    /// Basic authentication failed for the realm.
    Unauthorized { realm: String },
    /// The authentication service refused the request with this status.
    ForwardDenied { status: u16 },
    /// Response middleware could not be applied to the stage's own response.
    ResponseFailed,
}

/// The fixed texts of the proxy's own error responses.
#[derive(Clone, Copy, Debug, PartialEq, Eq, Structural)]
pub enum StageMessage {
    NoRoute,
    Denied,
    CapacityExhausted,
    LimitUnavailable,
    RateLimited,
    RateUnavailable,
    RedirectFailed,
    MaintenanceFailed,
    CorsDenied,
    AuthenticationRequired,
    AuthenticationUnavailable,
    RewriteFailed,
    MutationFailed,
    NoUpstream,
    UpstreamMissing,
    MiddlewareFailed,
}

/// The body text of each message.
pub open spec fn message_text(m: StageMessage) -> Seq<char> {
    match m {
        StageMessage::NoRoute => "no matching route\n"@,
        StageMessage::Denied => "request denied\n"@,
        StageMessage::CapacityExhausted => "request capacity exhausted\n"@,
        StageMessage::LimitUnavailable => "request limit unavailable\n"@,
        StageMessage::RateLimited => "rate limited\n"@,
        StageMessage::RateUnavailable => "rate limit unavailable\n"@,
        StageMessage::RedirectFailed => "redirect response failed\n"@,
        StageMessage::MaintenanceFailed => "maintenance response failed\n"@,
        StageMessage::CorsDenied => "CORS request denied\n"@,
        StageMessage::AuthenticationRequired => "authentication required\n"@,
        StageMessage::AuthenticationUnavailable => "authentication unavailable\n"@,
        StageMessage::RewriteFailed => "request rewrite failed\n"@,
        StageMessage::MutationFailed => "request header mutation failed\n"@,
        StageMessage::NoUpstream => "route has no upstream\n"@,
        StageMessage::UpstreamMissing => "upstream group missing\n"@,
        StageMessage::MiddlewareFailed => "middleware response failed\n"@,
    }
}

impl StageMessage {
    /// The body text of the message.
    pub fn text(&self) -> (r: &'static str)
        ensures
            r@ == message_text(*self),
    {
        match self {
            StageMessage::NoRoute => "no matching route\n",
            StageMessage::Denied => "request denied\n",
            StageMessage::CapacityExhausted => "request capacity exhausted\n",
            StageMessage::LimitUnavailable => "request limit unavailable\n",
            StageMessage::RateLimited => "rate limited\n",
            StageMessage::RateUnavailable => "rate limit unavailable\n",
            StageMessage::RedirectFailed => "redirect response failed\n",
            StageMessage::MaintenanceFailed => "maintenance response failed\n",
            StageMessage::CorsDenied => "CORS request denied\n",
            StageMessage::AuthenticationRequired => "authentication required\n",
            StageMessage::AuthenticationUnavailable => "authentication unavailable\n",
            StageMessage::RewriteFailed => "request rewrite failed\n",
            StageMessage::MutationFailed => "request header mutation failed\n",
            StageMessage::NoUpstream => "route has no upstream\n",
            StageMessage::UpstreamMissing => "upstream group missing\n",
            StageMessage::MiddlewareFailed => "middleware response failed\n",
        }
    }
}

/// What the transport does next.
#[derive(Clone, Debug)]
pub enum StageAction {
    /// Run the returned stage.
    Continue,
    /// Answer with the proxy's own error response; `retry_after` is the
    /// `Retry-After` value in seconds, `realm` the Basic challenge realm.
    Reply { status: u16, message: StageMessage, retry_after: Option<u64>, realm: Option<String> },
    /// Send the response the stage built.
    SendStageResponse,
    /// Forward the request to the upstream group at this position of the
    /// configuration's groups.
    Forward { group: usize },
}

/// Position in the run order.
pub open spec fn stage_rank(s: Stage) -> int {
    match s {
        Stage::Target => 0,
        Stage::Route => 1,
        Stage::IpPolicy => 2,
        Stage::InFlight => 3,
        Stage::EdgeRateLimit => 4,
        Stage::Redirect => 5,
        Stage::Maintenance => 6,
        Stage::Cors => 7,
        Stage::BasicAuth => 8,
        Stage::ForwardAuth => 9,
        Stage::PrincipalRateLimit => 10,
        Stage::AuthenticatedMaintenance => 11,
        Stage::Rewrite => 12,
        Stage::HeaderMutation => 13,
        Stage::Upstream => 14,
    }
}

/// The stage that runs after `s`; the upstream exchange is the last.
pub open spec fn following(s: Stage) -> Stage {
    match s {
        Stage::Target => Stage::Route,
        Stage::Route => Stage::IpPolicy,
        Stage::IpPolicy => Stage::InFlight,
        Stage::InFlight => Stage::EdgeRateLimit,
        Stage::EdgeRateLimit => Stage::Redirect,
        Stage::Redirect => Stage::Maintenance,
        Stage::Maintenance => Stage::Cors,
        Stage::Cors => Stage::BasicAuth,
        Stage::BasicAuth => Stage::ForwardAuth,
        Stage::ForwardAuth => Stage::PrincipalRateLimit,
        Stage::PrincipalRateLimit => Stage::AuthenticatedMaintenance,
        Stage::AuthenticatedMaintenance => Stage::Rewrite,
        Stage::Rewrite => Stage::HeaderMutation,
        Stage::HeaderMutation => Stage::Upstream,
        Stage::Upstream => Stage::Upstream,
    }
}

/// Position of the first group named `name`, from position `i` on.
pub open spec fn group_position(gs: Seq<UpstreamGroupConfig>, name: Seq<char>, i: int) -> Option<
    int,
>
    decreases gs.len() - i,
{
    if i < 0 || i >= gs.len() {
        None
    } else if gs[i].id@ == name {
        Some(i)
    } else {
        group_position(gs, name, i + 1)
    }
}

pub open spec fn reply(status: u16, message: StageMessage) -> StageAction {
    StageAction::Reply { status, message, retry_after: None, realm: None }
}

/// The decision once every request stage has passed: forward to the
/// route's upstream group, or answer 502 when the route has none or the
/// group is not configured.
pub open spec fn upstream_decision(config: Config, route: RouteConfig) -> (Stage, StageAction) {
    match route.upstream_group {
        None => (Stage::HeaderMutation, reply(502, StageMessage::NoUpstream)),
        Some(g) => match group_position(config.upstream_groups@, g@, 0) {
            None => (Stage::HeaderMutation, reply(502, StageMessage::UpstreamMissing)),
            Some(i) => (Stage::Upstream, StageAction::Forward { group: i as usize }),
        },
    }
}

/// What follows stage `done` with `outcome`. A passed stage hands the
/// request to the following one; a refusing stage answers with its fixed
/// status and text; a stage that built its own response has it sent; an
/// outcome that the stage cannot report fails closed with a 500.
pub open spec fn next_stage_spec(
    config: Config,
    route: RouteConfig,
    done: Stage,
    outcome: StageOutcome,
) -> (Stage, StageAction) {
    let fail = (done, reply(500, StageMessage::MiddlewareFailed));
    match (done, outcome) {
        (Stage::Upstream, _) => (Stage::Upstream, StageAction::SendStageResponse),
        (Stage::HeaderMutation, StageOutcome::Passed) => upstream_decision(config, route),
        (_, StageOutcome::Passed) => (following(done), StageAction::Continue),
        (Stage::Target, StageOutcome::Responded) => (done, StageAction::SendStageResponse),
        (Stage::Route, StageOutcome::NoMatch) => (done, reply(404, StageMessage::NoRoute)),
        (Stage::IpPolicy, StageOutcome::Denied) => (done, reply(403, StageMessage::Denied)),
        (Stage::InFlight, StageOutcome::Limited { status }) => (
            done,
            StageAction::Reply {
                status,
                message: StageMessage::CapacityExhausted,
                retry_after: if status == 429 {
                    Some(1u64)
                } else {
                    None
                },
                realm: None,
            },
        ),
        (Stage::InFlight, StageOutcome::Unavailable) => (
            done,
            reply(503, StageMessage::LimitUnavailable),
        ),
        (Stage::EdgeRateLimit, StageOutcome::RateLimited { retry_after_secs })
        | (Stage::PrincipalRateLimit, StageOutcome::RateLimited { retry_after_secs }) => (
            done,
            StageAction::Reply {
                status: 429,
                message: StageMessage::RateLimited,
                retry_after: Some(retry_after_secs),
                realm: None,
            },
        ),
        (Stage::EdgeRateLimit, StageOutcome::Unavailable) | (
            Stage::PrincipalRateLimit,
            StageOutcome::Unavailable,
        ) => (done, reply(503, StageMessage::RateUnavailable)),
        (Stage::Redirect, StageOutcome::Responded) | (Stage::Maintenance, StageOutcome::Responded)
        | (Stage::Cors, StageOutcome::Responded) | (
            Stage::AuthenticatedMaintenance,
            StageOutcome::Responded,
        ) => (done, StageAction::SendStageResponse),
        (Stage::Redirect, StageOutcome::Failed) => (done, reply(500, StageMessage::RedirectFailed)),
        (Stage::Maintenance, StageOutcome::Failed) | (
            Stage::AuthenticatedMaintenance,
            StageOutcome::Failed,
        ) => (done, reply(500, StageMessage::MaintenanceFailed)),
        (Stage::Cors, StageOutcome::Denied) => (done, reply(403, StageMessage::CorsDenied)),
        (Stage::BasicAuth, StageOutcome::Unauthorized { realm }) => (
            done,
            StageAction::Reply {
                status: 401,
                message: StageMessage::AuthenticationRequired,
                retry_after: None,
                realm: Some(realm),
            },
        ),
        (Stage::ForwardAuth, StageOutcome::ForwardDenied { status }) => (
            done,
            reply(status, StageMessage::AuthenticationRequired),
        ),
        (Stage::BasicAuth, StageOutcome::Unavailable) | (
            Stage::ForwardAuth,
            StageOutcome::Unavailable,
        ) => (done, reply(503, StageMessage::AuthenticationUnavailable)),
        (Stage::Rewrite, StageOutcome::Failed) => (done, reply(500, StageMessage::RewriteFailed)),
        (Stage::HeaderMutation, StageOutcome::Failed) => (
            done,
            reply(500, StageMessage::MutationFailed),
        ),
        _ => fail,
    }
}

/// The stage that runs after `s`.
pub fn following_stage(s: Stage) -> (r: Stage)
    ensures
        r == following(s),
{
    match s {
        Stage::Target => Stage::Route,
        Stage::Route => Stage::IpPolicy,
        Stage::IpPolicy => Stage::InFlight,
        Stage::InFlight => Stage::EdgeRateLimit,
        Stage::EdgeRateLimit => Stage::Redirect,
        Stage::Redirect => Stage::Maintenance,
        Stage::Maintenance => Stage::Cors,
        Stage::Cors => Stage::BasicAuth,
        Stage::BasicAuth => Stage::ForwardAuth,
        Stage::ForwardAuth => Stage::PrincipalRateLimit,
        Stage::PrincipalRateLimit => Stage::AuthenticatedMaintenance,
        Stage::AuthenticatedMaintenance => Stage::Rewrite,
        Stage::Rewrite => Stage::HeaderMutation,
        Stage::HeaderMutation => Stage::Upstream,
        Stage::Upstream => Stage::Upstream,
    }
}

fn find_group(gs: &Vec<UpstreamGroupConfig>, name: &str) -> (r: Option<usize>)
    ensures
        match group_position(gs@, name@, 0) {
            Some(i) => r == Some(i as usize) && i < gs@.len(),
            None => r is None,
        },
{
    let mut i: usize = 0;
    while i < gs.len()
        invariant
            i <= gs@.len(),
            group_position(gs@, name@, 0) == group_position(gs@, name@, i as int),
        decreases gs@.len() - i,
    {
        if str_eq(gs[i].id.as_str(), name) {
            return Some(i);
        }
        i += 1;
    }
    None
}

fn fixed_reply(status: u16, message: StageMessage) -> (r: StageAction)
    ensures
        r == reply(status, message),
{
    StageAction::Reply { status, message, retry_after: None, realm: None }
}

/// Decides what follows stage `done` with `outcome`, for the selected route.
pub fn next_stage(config: &Config, route: &RouteConfig, done: Stage, outcome: StageOutcome) -> (r: (
    Stage,
    StageAction,
))
    ensures
        r == next_stage_spec(*config, *route, done, outcome),
{
    let fail = (done, fixed_reply(500, StageMessage::MiddlewareFailed));
    match (done, outcome) {
        (Stage::Upstream, _) => (Stage::Upstream, StageAction::SendStageResponse),
        (Stage::HeaderMutation, StageOutcome::Passed) => match &route.upstream_group {
            None => (Stage::HeaderMutation, fixed_reply(502, StageMessage::NoUpstream)),
            Some(g) => match find_group(&config.upstream_groups, g.as_str()) {
                None => (Stage::HeaderMutation, fixed_reply(502, StageMessage::UpstreamMissing)),
                Some(i) => (Stage::Upstream, StageAction::Forward { group: i }),
            },
        },
        (_, StageOutcome::Passed) => (following_stage(done), StageAction::Continue),
        (Stage::Target, StageOutcome::Responded) => (done, StageAction::SendStageResponse),
        (Stage::Route, StageOutcome::NoMatch) => (done, fixed_reply(404, StageMessage::NoRoute)),
        (Stage::IpPolicy, StageOutcome::Denied) => (done, fixed_reply(403, StageMessage::Denied)),
        (Stage::InFlight, StageOutcome::Limited { status }) => {
            let retry_after = if status == 429 {
                Some(1u64)
            } else {
                None
            };
            (
                done,
                StageAction::Reply {
                    status,
                    message: StageMessage::CapacityExhausted,
                    retry_after,
                    realm: None,
                },
            )
        },
        (Stage::InFlight, StageOutcome::Unavailable) => (
            done,
            fixed_reply(503, StageMessage::LimitUnavailable),
        ),
        (Stage::EdgeRateLimit, StageOutcome::RateLimited { retry_after_secs })
        | (Stage::PrincipalRateLimit, StageOutcome::RateLimited { retry_after_secs }) => (
            done,
            StageAction::Reply {
                status: 429,
                message: StageMessage::RateLimited,
                retry_after: Some(retry_after_secs),
                realm: None,
            },
        ),
        (Stage::EdgeRateLimit, StageOutcome::Unavailable) | (
            Stage::PrincipalRateLimit,
            StageOutcome::Unavailable,
        ) => (done, fixed_reply(503, StageMessage::RateUnavailable)),
        (Stage::Redirect, StageOutcome::Responded) | (Stage::Maintenance, StageOutcome::Responded)
        | (Stage::Cors, StageOutcome::Responded) | (
            Stage::AuthenticatedMaintenance,
            StageOutcome::Responded,
        ) => (done, StageAction::SendStageResponse),
        (Stage::Redirect, StageOutcome::Failed) => (
            done,
            fixed_reply(500, StageMessage::RedirectFailed),
        ),
        (Stage::Maintenance, StageOutcome::Failed) | (
            Stage::AuthenticatedMaintenance,
            StageOutcome::Failed,
        ) => (done, fixed_reply(500, StageMessage::MaintenanceFailed)),
        (Stage::Cors, StageOutcome::Denied) => (done, fixed_reply(403, StageMessage::CorsDenied)),
        (Stage::BasicAuth, StageOutcome::Unauthorized { realm }) => (
            done,
            StageAction::Reply {
                status: 401,
                message: StageMessage::AuthenticationRequired,
                retry_after: None,
                realm: Some(realm),
            },
        ),
        (Stage::ForwardAuth, StageOutcome::ForwardDenied { status }) => (
            done,
            fixed_reply(status, StageMessage::AuthenticationRequired),
        ),
        (Stage::BasicAuth, StageOutcome::Unavailable) | (
            Stage::ForwardAuth,
            StageOutcome::Unavailable,
        ) => (done, fixed_reply(503, StageMessage::AuthenticationUnavailable)),
        (Stage::Rewrite, StageOutcome::Failed) => (
            done,
            fixed_reply(500, StageMessage::RewriteFailed),
        ),
        (Stage::HeaderMutation, StageOutcome::Failed) => (
            done,
            fixed_reply(500, StageMessage::MutationFailed),
        ),
        _ => fail,
    }
}

/// The stages run in one fixed order: a passed stage hands the request to
/// the stage ranked right after it, never back and never past another; no
/// stage runs after the upstream exchange.
pub proof fn lemma_stage_order(config: Config, route: RouteConfig, done: Stage, outcome: StageOutcome)
    ensures
        next_stage_spec(config, route, done, outcome).1 is Continue ==> stage_rank(
            next_stage_spec(config, route, done, outcome).0,
        ) == stage_rank(done) + 1,
        done == Stage::Upstream ==> next_stage_spec(config, route, done, outcome).1
            is SendStageResponse,
        next_stage_spec(config, route, done, outcome).1 is Forward ==> done == Stage::HeaderMutation
            && outcome is Passed,
{
}

} // verus!
