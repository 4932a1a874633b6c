//! Per-request middleware decisions of the fixed pipeline: which policy of
//! a kind applies to a route, the IP policy verdict, fixed redirects, path
//! rewrites, maintenance and custom-error replacements, and security
//! headers. Each returns what the transport applies.

use vstd::prelude::*;
use vstd::string::{StrSliceExecFns, StringExecFns};
use crate::schema::{Config, MiddlewareConfig, RouteConfig};
use crate::net::{IpAddress, Cidr, any_contains, nets_contain};
use crate::text::{utf8, str_eq};
use crate::web::opt_view;
use crate::web::{is_header_value, header_value_ok, parse_uri, uri_from_str, parse_header_name, ascii_lower, tchar};
use crate::map::OrderedMap;
use crate::error::{decimal_text, decimal_u64};
use crate::route::{canonicalize_request_path, canonical_request_path, rewritten_target, lemma_utf8_concat, PathError};

verus! {

/// The middleware kinds that act on one request stage.
#[derive(Clone, Copy, Debug, PartialEq, Eq, Structural)]
pub enum MiddlewareKind {
    SecurityHeaders,
    IpPolicy,
    Cors,
    Rewrite,
    HeaderMutation,
    Maintenance,
    CustomError,
    Redirect,
}

pub open spec fn is_kind(m: MiddlewareConfig, k: MiddlewareKind) -> bool {
    match k {
        MiddlewareKind::SecurityHeaders => m is SecurityHeaders,
        MiddlewareKind::IpPolicy => m is IpPolicy,
        MiddlewareKind::Cors => m is Cors,
        MiddlewareKind::Rewrite => m is Rewrite,
        MiddlewareKind::HeaderMutation => m is HeaderMutation,
        MiddlewareKind::Maintenance => m is Maintenance,
        MiddlewareKind::CustomError => m is CustomError,
        MiddlewareKind::Redirect => m is Redirect,
    }
}

fn kind_of(m: &MiddlewareConfig, k: MiddlewareKind) -> (r: bool)
    ensures
        r == is_kind(*m, k),
{
    match k {
        MiddlewareKind::SecurityHeaders => matches!(m, MiddlewareConfig::SecurityHeaders { .. }),
        MiddlewareKind::IpPolicy => matches!(m, MiddlewareConfig::IpPolicy { .. }),
        MiddlewareKind::Cors => matches!(m, MiddlewareConfig::Cors { .. }),
        MiddlewareKind::Rewrite => matches!(m, MiddlewareConfig::Rewrite { .. }),
        MiddlewareKind::HeaderMutation => matches!(m, MiddlewareConfig::HeaderMutation { .. }),
        MiddlewareKind::Maintenance => matches!(m, MiddlewareConfig::Maintenance { .. }),
        MiddlewareKind::CustomError => matches!(m, MiddlewareConfig::CustomError { .. }),
        MiddlewareKind::Redirect => matches!(m, MiddlewareConfig::Redirect { .. }),
    }
}

/// Position of the first route middleware that names a defined policy of
/// kind `k`, from position `i` on.
pub open spec fn first_of_kind(config: Config, ids: Seq<String>, k: MiddlewareKind, i: int) -> Option<
    int,
>
    decreases ids.len() - i,
{
    if i < 0 || i >= ids.len() {
        None
    } else if config.middlewares.spec_get(ids[i]@) matches Some(m) && is_kind(m, k) {
        Some(i)
    } else {
        first_of_kind(config, ids, k, i + 1)
    }
}

proof fn lemma_first_of_kind(config: Config, ids: Seq<String>, k: MiddlewareKind, i: int)
    requires
        0 <= i,
    ensures
        first_of_kind(config, ids, k, i) matches Some(j) ==> i <= j < ids.len()
            && config.middlewares.spec_get(ids[j]@) is Some && is_kind(
            config.middlewares.spec_get(ids[j]@)->0,
            k,
        ),
    decreases ids.len() - i,
{
    if i < ids.len() {
        lemma_first_of_kind(config, ids, k, i + 1);
    }
}

/// The policy of kind `k` that applies to a route: the first in the route's
/// middleware order.
pub open spec fn route_policy(config: Config, route: RouteConfig, k: MiddlewareKind) -> Option<
    MiddlewareConfig,
> {
    match first_of_kind(config, route.middlewares@, k, 0) {
        Some(i) => config.middlewares.spec_get(route.middlewares@[i]@),
        None => None,
    }
}

/// The route's policy of a kind.
pub fn policy_of_kind<'a>(config: &'a Config, route: &RouteConfig, k: MiddlewareKind) -> (r: Option<
    &'a MiddlewareConfig,
>)
    ensures
        r is Some <==> route_policy(*config, *route, k) is Some,
        r matches Some(m) ==> *m == route_policy(*config, *route, k)->0 && is_kind(*m, k),
{
    proof {
        lemma_first_of_kind(*config, route.middlewares@, k, 0);
    }
    let mut i: usize = 0;
    while i < route.middlewares.len()
        invariant
            i <= route.middlewares@.len(),
            first_of_kind(*config, route.middlewares@, k, 0) == first_of_kind(
                *config,
                route.middlewares@,
                k,
                i as int,
            ),
        decreases route.middlewares@.len() - i,
    {
        match config.middlewares.get(route.middlewares[i].as_str()) {
            Some(m) => {
                if kind_of(m, k) {
                    return Some(m);
                }
            },
            None => {},
        }
        i += 1;
    }
    None
}

/// The IP policy verdict. Without a policy every address is admitted.
/// Under a policy, an address inside a denied network is refused; any
/// other address is admitted when the allowlist is empty or holds a
/// network containing it.
pub open spec fn ip_verdict(policy: Option<MiddlewareConfig>, address: IpAddress) -> bool {
    match policy {
        Some(MiddlewareConfig::IpPolicy { allow, deny }) => !any_contains(deny@, address) && (allow@.len()
            == 0 || any_contains(allow@, address)),
        _ => true,
    }
}

/// Whether the route's IP policy admits a client address.
pub fn allowed(config: &Config, route: &RouteConfig, address: IpAddress) -> (r: bool)
    ensures
        r == ip_verdict(route_policy(*config, *route, MiddlewareKind::IpPolicy), address),
{
    match policy_of_kind(config, route, MiddlewareKind::IpPolicy) {
        Some(MiddlewareConfig::IpPolicy { allow, deny }) => {
            if nets_contain(deny.as_slice(), &address) {
                return false;
            }
            allow.len() == 0 || nets_contain(allow.as_slice(), &address)
        },
        _ => true,
    }
}

/// Deny entries take precedence: an address in a denied network is refused
/// whatever the allowlist holds.
pub proof fn lemma_deny_precedes_allow(config: Config, route: RouteConfig, address: IpAddress)
    requires
        route_policy(config, route, MiddlewareKind::IpPolicy) matches Some(
            MiddlewareConfig::IpPolicy { deny, .. },
        ) && any_contains(deny@, address),
    ensures
        !ip_verdict(route_policy(config, route, MiddlewareKind::IpPolicy), address),
{
}

/// `StatusCode::from_u16` accepts three-digit codes.
pub open spec fn status_ok(s: u16) -> bool {
    100 <= s <= 999
}

/// The fixed redirect's `Location`: the configured target, with `?` and the
/// original query appended when the policy preserves the query and the
/// request has one.
pub open spec fn redirect_location(location: Seq<char>, preserve_query: bool, query: Option<Seq<char>>) -> Seq<
    char,
> {
    match (preserve_query, query) {
        (true, Some(q)) => location + "?"@ + q,
        _ => location,
    }
}

/// The route's fixed redirect, as status and `Location` value: `Ok(None)`
/// without a redirect policy, `Err(())` when the location is no valid
/// header value or the status no valid status code.
pub fn redirect_response(config: &Config, route: &RouteConfig, query: Option<&str>) -> (r: Result<
    Option<(u16, String)>,
    (),
>)
    ensures
        match route_policy(*config, *route, MiddlewareKind::Redirect) {
            Some(MiddlewareConfig::Redirect { location, status, preserve_query }) => {
                let target = redirect_location(
                    location@,
                    preserve_query,
                    match query {
                        Some(q) => Some(q@),
                        None => None,
                    },
                );
                &&& r is Err <==> !(header_value_ok(utf8(target)) && status_ok(status))
                &&& r matches Ok(o) ==> o matches Some((s, l)) && s == status && l@ == target
            },
            _ => r == Ok::<Option<(u16, String)>, ()>(None),
        },
{
    match policy_of_kind(config, route, MiddlewareKind::Redirect) {
        Some(MiddlewareConfig::Redirect { location, status, preserve_query }) => {
            let mut target = String::from_str(location.as_str());
            if *preserve_query {
                match query {
                    Some(q) => {
                        target.append("?");
                        target.append(q);
                    },
                    None => {},
                }
            }
            if !is_header_value(target.as_str()) {
                return Err(());
            }
            if *status < 100 || *status > 999 {
                return Err(());
            }
            Ok(Some((*status, target)))
        },
        _ => Ok(None),
    }
}

/// The rest of a path after a segment-aware prefix: the root prefix takes
/// every path (the root itself leaves nothing); another prefix takes the
/// path itself, or a path continuing with `/` after it.
pub open spec fn prefix_suffix(path: Seq<char>, prefix: Seq<char>) -> Option<Seq<char>> {
    if prefix == "/"@ {
        Some(if path == "/"@ { Seq::empty() } else { path })
    } else if path == prefix {
        Some(Seq::empty())
    } else if path.len() > prefix.len() && path.take(prefix.len() as int) == prefix && path[prefix.len() as int] == '/' {
        Some(path.skip(prefix.len() as int))
    } else {
        None
    }
}

/// The suffix of `path` after a segment-aware `prefix`.
pub fn strip_segment_prefix(path: &str, prefix: &str) -> (r: Option<String>)
    ensures
        opt_view(r) == prefix_suffix(path@, prefix@),
{
    proof {
        reveal_strlit("/");
    }
    if str_eq(prefix, "/") {
        if str_eq(path, "/") {
            return Some(String::new());
        }
        return Some(String::from_str(path));
    }
    if str_eq(path, prefix) {
        return Some(String::new());
    }
    let n = prefix.unicode_len();
    let m = path.unicode_len();
    if m <= n {
        return None;
    }
    let mut i: usize = 0;
    while i < n
        invariant
            i <= n,
            n == prefix@.len(),
            m == path@.len(),
            n < m,
            prefix@ != "/"@,
            path@ != prefix@,
            forall|k: int| 0 <= k < i ==> path@[k] == prefix@[k],
        decreases n - i,
    {
        if path.get_char(i) != prefix.get_char(i) {
            proof {
                assert(path@.take(n as int)[i as int] != prefix@[i as int]);
                assert(path@.take(n as int) != prefix@);
            }
            return None;
        }
        i += 1;
    }
    proof {
        assert(path@.take(n as int) =~= prefix@);
    }
    if path.get_char(n) != '/' {
        return None;
    }
    Some(String::from_str(path.substring_char(n, m)))
}

/// The rewritten path: an exact replacement without a prefix; with one,
/// nothing when the prefix does not match, the target when nothing follows
/// it, the rest alone under the root target, the target and the rest
/// otherwise.
pub open spec fn rewrite_path(from: Option<Seq<char>>, to: Seq<char>, path: Seq<char>) -> Option<Seq<char>> {
    match from {
        None => Some(to),
        Some(f) => match prefix_suffix(path, f) {
            None => None,
            Some(s) => Some(
                if s.len() == 0 {
                    to
                } else if to == "/"@ {
                    s
                } else {
                    to + s
                },
            ),
        },
    }
}

/// A path with `?` and the query when there is one.
pub open spec fn with_query(p: Seq<char>, q: Option<Seq<char>>) -> Seq<char> {
    match q {
        Some(q) => p + "?"@ + q,
        None => p,
    }
}

pub open spec fn str_opt(q: Option<&str>) -> Option<Seq<char>> {
    match q {
        Some(s) => Some(s@),
        None => None,
    }
}

pub open spec fn bytes_opt(q: Option<&str>) -> Option<Seq<u8>> {
    match q {
        Some(s) => Some(utf8(s@)),
        None => None,
    }
}

/// The rewrite a route asks for, as the new canonical path-and-query:
/// `Ok(None)` without a rewrite policy or when its prefix does not match;
/// `Err(())` when the new target exceeds the bound, does not parse as a
/// path-and-query, or has no canonical path.
pub fn rewrite_target(
    config: &Config,
    route: &RouteConfig,
    path: &str,
    query: Option<&str>,
    max_target_bytes: usize,
) -> (r: Result<Option<String>, ()>)
    ensures
        match route_policy(*config, *route, MiddlewareKind::Rewrite) {
            Some(MiddlewareConfig::Rewrite { from_prefix, to }) => match rewrite_path(
                opt_view(from_prefix),
                to@,
                path@,
            ) {
                None => r == Ok::<Option<String>, ()>(None),
                Some(p) => {
                    let pq = with_query(p, str_opt(query));
                    if utf8(pq).len() > max_target_bytes || uri_from_str(pq) is None {
                        r is Err
                    } else {
                        match canonical_request_path(utf8(p)) {
                            None => r is Err,
                            Some(c) => r matches Ok(Some(t)) && utf8(t@) == rewritten_target(
                                c,
                                bytes_opt(query),
                            ),
                        }
                    }
                },
            },
            _ => r == Ok::<Option<String>, ()>(None),
        },
{
    let (from_prefix, to) = match policy_of_kind(config, route, MiddlewareKind::Rewrite) {
        Some(MiddlewareConfig::Rewrite { from_prefix, to }) => (from_prefix, to),
        _ => {
            return Ok(None);
        },
    };
    proof {
        reveal_strlit("/");
        reveal_strlit("?");
    }
    let rewritten = match from_prefix {
        None => String::from_str(to.as_str()),
        Some(from) => match strip_segment_prefix(path, from.as_str()) {
            None => {
                return Ok(None);
            },
            Some(suffix) => {
                if suffix.unicode_len() == 0 {
                    String::from_str(to.as_str())
                } else if str_eq(to.as_str(), "/") {
                    suffix
                } else {
                    let mut joined = String::from_str(to.as_str());
                    joined.append(suffix.as_str());
                    joined
                }
            },
        },
    };
    let mut target = String::from_str(rewritten.as_str());
    match query {
        Some(q) => {
            target.append("?");
            target.append(q);
        },
        None => {},
    }
    let target_len = target.as_str().as_bytes().len();
    if target_len > max_target_bytes {
        return Err(());
    }
    if parse_uri(target.as_str()).is_none() {
        return Err(());
    }
    match canonicalize_request_path(rewritten.as_str(), query, target_len, max_target_bytes) {
        Ok(None) => {
            proof {
                vstd::utf8::encode_utf8_decode_utf8(rewritten@);
                match query {
                    Some(q) => {
                        lemma_utf8_concat(rewritten@, "?"@);
                        lemma_utf8_concat(rewritten@ + "?"@, q@);
                        assert("?"@ =~= seq!['?']);
                        vstd::utf8::is_ascii_chars_encode_utf8("?"@);
                        assert(utf8("?"@) =~= seq![0x3fu8]);
                    },
                    None => {},
                }
            }
            Ok(Some(target))
        },
        Ok(Some(t)) => Ok(Some(t)),
        Err(_) => Err(()),
    }
}

/// A fixed response the transport sends: status, body, `Content-Type`,
/// `Cache-Control: no-store`, and an optional `Retry-After`.
#[derive(Clone, Debug)]
pub struct FixedResponse {
    pub status: u16,
    pub body: String,
    pub content_type: String,
    pub retry_after: Option<String>,
}

/// The route's maintenance response at one stage: `Ok(None)` without a
/// maintenance policy or when the policy belongs to the other stage
/// (before or after authentication); `Err(())` when the status or content
/// type is invalid.
pub fn maintenance_response(config: &Config, route: &RouteConfig, authenticated_stage: bool) -> (r: Result<
    Option<FixedResponse>,
    (),
>)
    ensures
        match route_policy(*config, *route, MiddlewareKind::Maintenance) {
            Some(
                MiddlewareConfig::Maintenance {
                    status,
                    body,
                    content_type,
                    retry_after_secs,
                    authenticated,
                },
            ) => if authenticated != authenticated_stage {
                r == Ok::<Option<FixedResponse>, ()>(None)
            } else {
                &&& r is Err <==> !(status_ok(status) && header_value_ok(utf8(content_type@)))
                &&& r matches Ok(o) ==> o matches Some(f) && f.status == status && f.body@ == body@
                    && f.content_type@ == content_type@ && match (f.retry_after, retry_after_secs) {
                    (Some(t), Some(s)) => t@ == decimal_text(s as nat),
                    (None, None) => true,
                    _ => false,
                }
            },
            _ => r == Ok::<Option<FixedResponse>, ()>(None),
        },
{
    match policy_of_kind(config, route, MiddlewareKind::Maintenance) {
        Some(
            MiddlewareConfig::Maintenance {
                status,
                body,
                content_type,
                retry_after_secs,
                authenticated,
            },
        ) => {
            if *authenticated != authenticated_stage {
                return Ok(None);
            }
            if *status < 100 || *status > 999 {
                return Err(());
            }
            if !is_header_value(content_type.as_str()) {
                return Err(());
            }
            let retry_after = match retry_after_secs {
                Some(s) => Some(decimal_u64(*s)),
                None => None,
            };
            Ok(
                Some(
                    FixedResponse {
                        status: *status,
                        body: String::from_str(body.as_str()),
                        content_type: String::from_str(content_type.as_str()),
                        retry_after,
                    },
                ),
            )
        },
        _ => Ok(None),
    }
}

/// Response headers removed when a custom error replaces an upstream body.
pub fn replaced_body_headers() -> (r: [&'static str; 6])
    ensures
        r[0]@ == "content-length"@,
        r[1]@ == "content-encoding"@,
        r[2]@ == "content-range"@,
        r[3]@ == "etag"@,
        r[4]@ == "last-modified"@,
        r[5]@ == "accept-ranges"@,
{
    ["content-length", "content-encoding", "content-range", "etag", "last-modified", "accept-ranges"]
}

/// A static body and content type replacing an upstream response.
#[derive(Clone, Debug)]
pub struct ErrorReplacement {
    pub body: String,
    pub content_type: String,
}

pub open spec fn has_status(statuses: Seq<u16>, status: u16) -> bool {
    exists|i: int| 0 <= i < statuses.len() && statuses[i] == status
}

/// The route's custom-error replacement for an upstream status: `Ok(None)`
/// without a policy or for a status it does not select; `Err(())` when its
/// content type is invalid.
pub fn custom_error_replacement(config: &Config, route: &RouteConfig, status: u16) -> (r: Result<
    Option<ErrorReplacement>,
    (),
>)
    ensures
        match route_policy(*config, *route, MiddlewareKind::CustomError) {
            Some(MiddlewareConfig::CustomError { statuses, body, content_type }) => if !has_status(
                statuses@,
                status,
            ) {
                r == Ok::<Option<ErrorReplacement>, ()>(None)
            } else {
                &&& r is Err <==> !header_value_ok(utf8(content_type@))
                &&& r matches Ok(o) ==> o matches Some(e) && e.body@ == body@ && e.content_type@
                    == content_type@
            },
            _ => r == Ok::<Option<ErrorReplacement>, ()>(None),
        },
{
    match policy_of_kind(config, route, MiddlewareKind::CustomError) {
        Some(MiddlewareConfig::CustomError { statuses, body, content_type }) => {
            let mut i: usize = 0;
            let mut found = false;
            while i < statuses.len()
                invariant
                    i <= statuses@.len(),
                    found <==> exists|k: int| 0 <= k < i && statuses@[k] == status,
                decreases statuses@.len() - i,
            {
                if statuses[i] == status {
                    found = true;
                }
                i += 1;
            }
            if !found {
                return Ok(None);
            }
            if !is_header_value(content_type.as_str()) {
                return Err(());
            }
            Ok(
                Some(
                    ErrorReplacement {
                        body: String::from_str(body.as_str()),
                        content_type: String::from_str(content_type.as_str()),
                    },
                ),
            )
        },
        _ => Ok(None),
    }
}

/// Whether a configured security header is written: it is configured, and
/// either replaces an upstream value or there is none.
pub open spec fn header_written(value: Option<String>, override_existing: bool, present: bool) -> bool {
    value is Some && (override_existing || !present)
}

pub open spec fn written_ok(value: Option<String>, override_existing: bool, present: bool) -> bool {
    header_written(value, override_existing, present) ==> header_value_ok(utf8(value->0@))
}

/// The security headers a route writes on a response, as the HSTS and CSP
/// values to set: `Err(())` when HSTS is configured on a non-HTTPS
/// request, or a written value is no valid header value.
pub fn security_headers(
    config: &Config,
    route: &RouteConfig,
    scheme: &str,
    has_hsts: bool,
    has_csp: bool,
) -> (r: Result<(Option<String>, Option<String>), ()>)
    ensures
        match route_policy(*config, *route, MiddlewareKind::SecurityHeaders) {
            Some(
                MiddlewareConfig::SecurityHeaders {
                    hsts,
                    content_security_policy,
                    override_existing,
                    ..
                },
            ) => {
                &&& r is Err <==> ((hsts is Some && scheme@ != "https"@) || !written_ok(
                    hsts,
                    override_existing,
                    has_hsts,
                ) || !written_ok(content_security_policy, override_existing, has_csp))
                &&& r matches Ok((h, c)) ==> (h is Some <==> header_written(
                    hsts,
                    override_existing,
                    has_hsts,
                )) && (h matches Some(v) ==> v@ == hsts->0@) && (c is Some <==> header_written(
                    content_security_policy,
                    override_existing,
                    has_csp,
                )) && (c matches Some(v) ==> v@ == content_security_policy->0@)
            },
            _ => r == Ok::<(Option<String>, Option<String>), ()>((None, None)),
        },
{
    match policy_of_kind(config, route, MiddlewareKind::SecurityHeaders) {
        Some(
            MiddlewareConfig::SecurityHeaders {
                hsts,
                content_security_policy,
                override_existing,
                ..
            },
        ) => {
            proof {
                reveal_strlit("https");
            }
            if hsts.is_some() && !str_eq(scheme, "https") {
                return Err(());
            }
            let h = match hsts {
                Some(v) => {
                    if *override_existing || !has_hsts {
                        if !is_header_value(v.as_str()) {
                            return Err(());
                        }
                        Some(String::from_str(v.as_str()))
                    } else {
                        None
                    }
                },
                None => None,
            };
            let c = match content_security_policy {
                Some(v) => {
                    if *override_existing || !has_csp {
                        if !is_header_value(v.as_str()) {
                            return Err(());
                        }
                        Some(String::from_str(v.as_str()))
                    } else {
                        None
                    }
                },
                None => None,
            };
            Ok((h, c))
        },
        _ => Ok((None, None)),
    }
}

/// A header name `http::HeaderName` accepts: 1..=65535 token bytes.
pub open spec fn name_ok(n: Seq<char>) -> bool {
    &&& 1 <= utf8(n).len() <= 65535
    &&& forall|i: int| 0 <= i < utf8(n).len() ==> tchar(#[trigger] utf8(n)[i])
}

/// `m` is the lowercase form of header name `n`.
pub open spec fn lowered(n: Seq<char>, m: Seq<char>) -> bool {
    utf8(m) == ascii_lower(utf8(n))
}

pub open spec fn set_ok(e: Seq<(String, String)>) -> bool {
    forall|i: int|
        0 <= i < e.len() ==> name_ok((#[trigger] e[i]).0@) && header_value_ok(utf8(e[i].1@))
}

pub open spec fn add_ok(e: Seq<(String, Vec<String>)>) -> bool {
    forall|i: int|
        0 <= i < e.len() ==> name_ok((#[trigger] e[i]).0@) && forall|j: int|
            0 <= j < e[i].1@.len() ==> header_value_ok(utf8((#[trigger] e[i].1@[j])@))
}

/// Every appended value with its header name, in entry order.
pub open spec fn flat_adds(e: Seq<(String, Vec<String>)>) -> Seq<(Seq<char>, Seq<char>)>
    decreases e.len(),
{
    if e.len() == 0 {
        Seq::empty()
    } else {
        flat_adds(e.drop_last()) + e.last().1@.map_values(|v: String| (e.last().0@, v@))
    }
}

/// Header edits in the order the transport applies them: removals, then
/// replacements, then appended values. Names are lowercase.
#[derive(Clone, Debug)]
pub struct HeaderPlan {
    pub remove: Vec<String>,
    pub set: Vec<(String, String)>,
    pub add: Vec<(String, String)>,
}

pub open spec fn plan_matches(
    plan: HeaderPlan,
    remove: Seq<String>,
    set: Seq<(String, String)>,
    add: Seq<(String, Vec<String>)>,
) -> bool {
    &&& plan.remove@.len() == remove.len()
    &&& forall|i: int| 0 <= i < remove.len() ==> (#[trigger] plan.remove@[i])@ == remove[i]@
    &&& plan.set@.len() == set.len()
    &&& forall|i: int|
        0 <= i < set.len() ==> lowered(set[i].0@, (#[trigger] plan.set@[i]).0@) && plan.set@[i].1@
            == set[i].1@
    &&& plan.add@.len() == flat_adds(add).len()
    &&& forall|k: int|
        0 <= k < flat_adds(add).len() ==> lowered(flat_adds(add)[k].0, (#[trigger] plan.add@[k]).0@)
            && plan.add@[k].1@ == flat_adds(add)[k].1
}

fn copy_strings(v: &Vec<String>) -> (r: Vec<String>)
    ensures
        r@.len() == v@.len(),
        forall|i: int| 0 <= i < v@.len() ==> (#[trigger] r@[i])@ == v@[i]@,
{
    let mut out: Vec<String> = Vec::new();
    let mut i: usize = 0;
    while i < v.len()
        invariant
            i <= v@.len(),
            out@.len() == i,
            forall|k: int| 0 <= k < i ==> (#[trigger] out@[k])@ == v@[k]@,
        decreases v@.len() - i,
    {
        out.push(String::from_str(v[i].as_str()));
        i += 1;
    }
    out
}

/// Plans header edits: `Err(())` when a name to set or append, or a value,
/// is invalid.
pub fn plan_mutations(
    remove: &Vec<String>,
    set: &OrderedMap<String>,
    add: &OrderedMap<Vec<String>>,
) -> (r: Result<HeaderPlan, ()>)
    ensures
        r is Ok <==> set_ok(set.spec_entries()) && add_ok(add.spec_entries()),
        r matches Ok(plan) ==> plan_matches(plan, remove@, set.spec_entries(), add.spec_entries()),
{
    let removed = copy_strings(remove);
    let mut sets: Vec<(String, String)> = Vec::new();
    let mut i: usize = 0;
    while i < set.len()
        invariant
            i <= set.spec_entries().len(),
            sets@.len() == i,
            set_ok(set.spec_entries().take(i as int)),
            forall|k: int|
                0 <= k < i ==> lowered(set.spec_entries()[k].0@, (#[trigger] sets@[k]).0@)
                    && sets@[k].1@ == set.spec_entries()[k].1@,
        decreases set.spec_entries().len() - i,
    {
        let (name, value) = set.entry(i);
        let lower = match parse_header_name(name.as_str()) {
            Some(n) => n,
            None => {
                proof {
                    assert(!name_ok(set.spec_entries()[i as int].0@));
                }
                return Err(());
            },
        };
        if !is_header_value(value.as_str()) {
            return Err(());
        }
        sets.push((lower, String::from_str(value.as_str())));
        proof {
            assert forall|k: int| 0 <= k < i + 1 implies name_ok(
                (#[trigger] set.spec_entries().take(i + 1)[k]).0@,
            ) && header_value_ok(utf8(set.spec_entries().take(i + 1)[k].1@)) by {
                if k < i {
                    assert(set.spec_entries().take(i + 1)[k] == set.spec_entries().take(i as int)[k]);
                }
            }
        }
        i += 1;
    }
    proof {
        assert(set.spec_entries().take(set.spec_entries().len() as int) =~= set.spec_entries());
    }
    let mut adds: Vec<(String, String)> = Vec::new();
    let mut j: usize = 0;
    while j < add.len()
        invariant
            j <= add.spec_entries().len(),
            add_ok(add.spec_entries().take(j as int)),
            adds@.len() == flat_adds(add.spec_entries().take(j as int)).len(),
            forall|k: int|
                0 <= k < adds@.len() ==> lowered(
                    flat_adds(add.spec_entries().take(j as int))[k].0,
                    (#[trigger] adds@[k]).0@,
                ) && adds@[k].1@ == flat_adds(add.spec_entries().take(j as int))[k].1,
        decreases add.spec_entries().len() - j,
    {
        let (name, values) = add.entry(j);
        let ghost entries = add.spec_entries();
        let ghost prev = flat_adds(entries.take(j as int));
        proof {
            assert(entries.take(j + 1).drop_last() =~= entries.take(j as int));
        }
        let lower = match parse_header_name(name.as_str()) {
            Some(n) => n,
            None => {
                proof {
                    assert(!name_ok(entries[j as int].0@));
                }
                return Err(());
            },
        };
        let ghost base_len = adds@.len();
        let mut v: usize = 0;
        while v < values.len()
            invariant
                v <= values@.len(),
                *values == entries[j as int].1,
                *name == entries[j as int].0,
                entries == add.spec_entries(),
                j < entries.len(),
                utf8(lower@) == ascii_lower(utf8(name@)),
                base_len == prev.len(),
                adds@.len() == base_len + v,
                forall|k: int|
                    0 <= k < base_len ==> lowered(prev[k].0, (#[trigger] adds@[k]).0@) && adds@[k].1@
                        == prev[k].1,
                forall|k: int|
                    0 <= k < v ==> (#[trigger] adds@[base_len + k]).0@ == lower@ && adds@[base_len
                        + k].1@ == values@[k]@,
                forall|k: int| 0 <= k < v ==> header_value_ok(utf8((#[trigger] values@[k])@)),
            decreases values@.len() - v,
        {
            if !is_header_value(values[v].as_str()) {
                proof {
                    let e = entries[j as int];
                    assert(!header_value_ok(utf8(e.1@[v as int]@)));
                    assert(!add_ok(entries));
                }
                return Err(());
            }
            adds.push((String::from_str(lower.as_str()), String::from_str(values[v].as_str())));
            v += 1;
        }
        proof {
            let ext = entries.take(j + 1);
            let tail = ext.last().1@.map_values(|s: String| (ext.last().0@, s@));
            assert(flat_adds(ext) == prev + tail);
            assert forall|k: int| 0 <= k < adds@.len() implies lowered(
                flat_adds(ext)[k].0,
                (#[trigger] adds@[k]).0@,
            ) && adds@[k].1@ == flat_adds(ext)[k].1 by {
                if k >= base_len {
                    assert(adds@[base_len + (k - base_len)] == adds@[k]);
                }
            }
            assert forall|k: int| 0 <= k < j + 1 implies name_ok((#[trigger] ext[k]).0@) && forall|m: int|
                0 <= m < ext[k].1@.len() ==> header_value_ok(utf8((#[trigger] ext[k].1@[m])@)) by {
                if k < j {
                    assert(ext[k] == entries.take(j as int)[k]);
                }
            }
        }
        j += 1;
    }
    proof {
        assert(add.spec_entries().take(add.spec_entries().len() as int) =~= add.spec_entries());
    }
    Ok(HeaderPlan { remove: removed, set: sets, add: adds })
}

/// The header edits of the route's header-mutation policy for requests
/// (`request`) or responses: `Ok(None)` without a policy.
pub fn header_mutations(config: &Config, route: &RouteConfig, request: bool) -> (r: Result<
    Option<HeaderPlan>,
    (),
>)
    ensures
        match route_policy(*config, *route, MiddlewareKind::HeaderMutation) {
            Some(
                MiddlewareConfig::HeaderMutation {
                    request_set,
                    request_add,
                    request_remove,
                    response_set,
                    response_add,
                    response_remove,
                },
            ) => {
                let (set, add, remove) = if request {
                    (request_set, request_add, request_remove)
                } else {
                    (response_set, response_add, response_remove)
                };
                &&& r is Ok <==> set_ok(set.spec_entries()) && add_ok(add.spec_entries())
                &&& r matches Ok(o) ==> o matches Some(plan) && plan_matches(
                    plan,
                    remove@,
                    set.spec_entries(),
                    add.spec_entries(),
                )
            },
            _ => r == Ok::<Option<HeaderPlan>, ()>(None),
        },
{
    match policy_of_kind(config, route, MiddlewareKind::HeaderMutation) {
        Some(
            MiddlewareConfig::HeaderMutation {
                request_set,
                request_add,
                request_remove,
                response_set,
                response_add,
                response_remove,
            },
        ) => {
            let planned = if request {
                plan_mutations(request_remove, request_set, request_add)
            } else {
                plan_mutations(response_remove, response_set, response_add)
            };
            match planned {
                Ok(plan) => Ok(Some(plan)),
                Err(()) => Err(()),
            }
        },
        _ => Ok(None),
    }
}

} // verus!
