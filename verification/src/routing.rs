//! Route matcher, raw TCP route and upstream-group policy rules.

use vstd::prelude::*;
use crate::text::{utf8, is_lower, byte_is_lower, str_eq, no_duplicates};
use crate::error::{ConfigError, join2, join3, join4, decimal, decimal_text};
use crate::checks::{distinct_strings, contains_string, strings_distinct, vec_contains_str,
    canonical_path_ok, is_canonical_path};
use crate::naming::{cert_host_ok, cert_host_bytes_ok};
use crate::web::{token_ok, header_value_ok, canonical_header_name, parse_method,
    parse_header_name, is_header_value};
use crate::schema::{RouteConfig, HeaderMatch, UpstreamGroupConfig, HealthCheckConfig,
    HealthCheckKind, CircuitBreakerConfig};

verus! {

/// Maximum header value bytes in predicates and mutations.
pub const MAX_HEADER_VALUE_BYTES: usize = 1_024;

/// Maximum header name bytes in mutations.
pub const MAX_HEADER_NAME_BYTES: usize = 128;

/// Maximum path bytes.
pub const MAX_PATH_BYTES: usize = 2_048;

/// Header names that a route may not match on.
pub open spec fn prohibited_route_header_spec(n: Seq<char>) -> bool {
    n == "connection"@ || n == "content-length"@ || n == "host"@ || n == "keep-alive"@ || n
        == "proxy-connection"@ || n == "te"@ || n == "trailer"@ || n == "transfer-encoding"@
        || n == "upgrade"@
}

/// Whether a canonical header name is reserved for hop-by-hop or framing use.
pub fn prohibited_route_header(name: &str) -> (r: bool)
    ensures
        r == prohibited_route_header_spec(name@),
{
    str_eq(name, "connection") || str_eq(name, "content-length") || str_eq(name, "host")
        || str_eq(name, "keep-alive") || str_eq(name, "proxy-connection") || str_eq(name, "te")
        || str_eq(name, "trailer") || str_eq(name, "transfer-encoding") || str_eq(
        name,
        "upgrade",
    )
}

/// Validates a canonical route path or path prefix.
pub fn validate_path(route_id: &str, path: &str, prefix: bool) -> (r: Result<(), ConfigError>)
    ensures
        r is Ok <==> canonical_path_ok(utf8(path@), prefix),
        r matches Err(ConfigError::Invalid(m)) ==> m@ == "route "@ + route_id@
            + " has non-canonical path "@ + path@,
{
    if is_canonical_path(path, prefix) {
        Ok(())
    } else {
        Err(ConfigError::Invalid(join4("route ", route_id, " has non-canonical path ", path)))
    }
}

/// Validates that a route names each reference once.
pub fn validate_unique_strings(route_id: &str, field: &str, values: &Vec<String>) -> (r: Result<
    (),
    ConfigError,
>)
    ensures
        r is Ok <==> distinct_strings(values@),
        r matches Err(ConfigError::Invalid(m)) ==> m@ == "route "@ + route_id@
            + " contains a duplicate reference in "@ + field@,
{
    if strings_distinct(values) {
        Ok(())
    } else {
        Err(
            ConfigError::Invalid(
                join4("route ", route_id, " contains a duplicate reference in ", field),
            ),
        )
    }
}

/// A raw TCP route uses no HTTP matcher, middleware or priority; a plain TCP
/// route is an explicit default without hosts; a TLS passthrough route has SNI
/// hosts or is the default.
pub open spec fn tcp_route_ok(route: RouteConfig, tls_passthrough: bool) -> bool {
    &&& route.paths@.len() == 0
    &&& route.path_prefixes@.len() == 0
    &&& route.methods@.len() == 0
    &&& route.headers@.len() == 0
    &&& route.middlewares@.len() == 0
    &&& route.priority == 0
    &&& if tls_passthrough {
        route.default || route.hosts@.len() != 0
    } else {
        route.default && route.hosts@.len() == 0
    }
}

/// The message of the first TCP-family route rule broken.
pub open spec fn tcp_route_error(route: RouteConfig, tls_passthrough: bool) -> Option<Seq<char>> {
    if !(route.paths@.len() == 0 && route.path_prefixes@.len() == 0 && route.methods@.len() == 0
        && route.headers@.len() == 0 && route.middlewares@.len() == 0 && route.priority == 0) {
        Some(
            "TCP-family route "@ + route.id@
                + " cannot use HTTP matchers, middleware, or priority"@,
        )
    } else if tls_passthrough && !route.default && route.hosts@.len() == 0 {
        Some("TLS passthrough route "@ + route.id@ + " requires an SNI host or default = true"@)
    } else if !tls_passthrough && (!route.default || route.hosts@.len() != 0) {
        Some("plain TCP route "@ + route.id@ + " must be an explicit default route"@)
    } else {
        None
    }
}

/// Validates a route served by a raw TCP or TLS passthrough listener.
pub fn validate_tcp_route(route: &RouteConfig, tls_passthrough: bool) -> (r: Result<
    (),
    ConfigError,
>)
    ensures
        r is Ok <==> tcp_route_ok(*route, tls_passthrough),
        match tcp_route_error(*route, tls_passthrough) {
            Some(m) => r matches Err(ConfigError::Invalid(e)) && e@ == m,
            None => r is Ok,
        },
{
    if route.paths.len() != 0 || route.path_prefixes.len() != 0 || route.methods.len() != 0
        || route.headers.len() != 0 || route.middlewares.len() != 0 || route.priority != 0 {
        return Err(
            ConfigError::Invalid(
                join3(
                    "TCP-family route ",
                    route.id.as_str(),
                    " cannot use HTTP matchers, middleware, or priority",
                ),
            ),
        );
    }
    if tls_passthrough {
        if !route.default && route.hosts.len() == 0 {
            return Err(
                ConfigError::Invalid(
                    join3(
                        "TLS passthrough route ",
                        route.id.as_str(),
                        " requires an SNI host or default = true",
                    ),
                ),
            );
        }
    } else if !route.default || route.hosts.len() != 0 {
        return Err(
            ConfigError::Invalid(
                join3("plain TCP route ", route.id.as_str(), " must be an explicit default route"),
            ),
        );
    }
    Ok(())
}

pub open spec fn has_lower(b: Seq<u8>) -> bool {
    exists|i: int| 0 <= i < b.len() && is_lower(#[trigger] b[i])
}

/// A canonical routable method: a token with no lowercase letter, not CONNECT.
pub open spec fn route_method_ok(m: Seq<char>) -> bool {
    token_ok(utf8(m)) && !has_lower(utf8(m)) && m != "CONNECT"@
}

pub fn bytes_have_lower(b: &[u8]) -> (r: bool)
    ensures
        r == has_lower(b@),
{
    let mut i: usize = 0;
    while i < b.len()
        invariant
            i <= b@.len(),
            forall|k: int| 0 <= k < i ==> !is_lower(#[trigger] b@[k]),
        decreases b@.len() - i,
    {
        if byte_is_lower(b[i]) {
            return true;
        }
        i += 1;
    }
    false
}

fn route_method_canonical(m: &str) -> (r: bool)
    ensures
        r == route_method_ok(m@),
{
    match parse_method(m) {
        None => false,
        Some(_) => !bytes_have_lower(m.as_bytes()) && !str_eq(m, "CONNECT"),
    }
}

/// A routable header predicate: canonical, non-reserved name; a present value
/// is at most 1024 bytes of valid header-value bytes.
pub open spec fn header_predicate_ok(h: HeaderMatch) -> bool {
    &&& canonical_header_name(utf8(h.name@))
    &&& !prohibited_route_header_spec(h.name@)
    &&& match h.value {
        Some(v) => utf8(v@).len() <= 1024 && header_value_ok(utf8(v@)),
        None => true,
    }
}

pub open spec fn header_names(hs: Seq<HeaderMatch>) -> Seq<String> {
    hs.map_values(|h: HeaderMatch| h.name)
}

pub open spec fn route_is_catch_all(route: RouteConfig) -> bool {
    &&& route.hosts@.len() == 0
    &&& route.paths@.len() == 0
    &&& route.methods@.len() == 0
    &&& route.headers@.len() == 0
    &&& (route.path_prefixes@.len() == 0 || contains_string(route.path_prefixes@, "/"@))
}

/// Matcher rules: a default route has no matcher and priority 0; any other
/// route is not a catch-all, and its hosts, exact paths, prefixes, methods and
/// header predicates are each canonical and free of duplicates.
pub open spec fn route_matchers_ok(route: RouteConfig) -> bool {
    if route.default {
        &&& route.hosts@.len() == 0
        &&& route.paths@.len() == 0
        &&& route.path_prefixes@.len() == 0
        &&& route.methods@.len() == 0
        &&& route.headers@.len() == 0
        &&& route.priority == 0
    } else {
        &&& !route_is_catch_all(route)
        &&& forall|i: int|
            0 <= i < route.hosts@.len() ==> cert_host_ok(utf8((#[trigger] route.hosts@[i])@))
        &&& distinct_strings(route.hosts@)
        &&& forall|i: int|
            0 <= i < route.paths@.len() ==> canonical_path_ok(
                utf8((#[trigger] route.paths@[i])@),
                false,
            )
        &&& distinct_strings(route.paths@)
        &&& forall|i: int|
            0 <= i < route.path_prefixes@.len() ==> canonical_path_ok(
                utf8((#[trigger] route.path_prefixes@[i])@),
                true,
            )
        &&& distinct_strings(route.path_prefixes@)
        &&& forall|i: int|
            0 <= i < route.methods@.len() ==> route_method_ok((#[trigger] route.methods@[i])@)
        &&& distinct_strings(route.methods@)
        &&& forall|i: int|
            0 <= i < route.headers@.len() ==> header_predicate_ok(#[trigger] route.headers@[i])
        &&& distinct_strings(header_names(route.headers@))
    }
}

fn all_cert_hosts(v: &Vec<String>) -> (r: bool)
    ensures
        r == forall|i: int| 0 <= i < v@.len() ==> cert_host_ok(utf8((#[trigger] v@[i])@)),
{
    let mut i: usize = 0;
    while i < v.len()
        invariant
            i <= v@.len(),
            forall|k: int| 0 <= k < i ==> cert_host_ok(utf8((#[trigger] v@[k])@)),
        decreases v@.len() - i,
    {
        if !cert_host_bytes_ok(v[i].as_str().as_bytes()) {
            return false;
        }
        i += 1;
    }
    true
}

fn all_paths(v: &Vec<String>, prefix: bool) -> (r: bool)
    ensures
        r == forall|i: int|
            0 <= i < v@.len() ==> canonical_path_ok(utf8((#[trigger] v@[i])@), prefix),
{
    let mut i: usize = 0;
    while i < v.len()
        invariant
            i <= v@.len(),
            forall|k: int| 0 <= k < i ==> canonical_path_ok(utf8((#[trigger] v@[k])@), prefix),
        decreases v@.len() - i,
    {
        if !is_canonical_path(v[i].as_str(), prefix) {
            return false;
        }
        i += 1;
    }
    true
}

fn all_route_methods(v: &Vec<String>) -> (r: bool)
    ensures
        r == forall|i: int| 0 <= i < v@.len() ==> route_method_ok((#[trigger] v@[i])@),
{
    let mut i: usize = 0;
    while i < v.len()
        invariant
            i <= v@.len(),
            forall|k: int| 0 <= k < i ==> route_method_ok((#[trigger] v@[k])@),
        decreases v@.len() - i,
    {
        if !route_method_canonical(v[i].as_str()) {
            return false;
        }
        i += 1;
    }
    true
}

fn header_predicate_valid(h: &HeaderMatch) -> (r: bool)
    ensures
        r == header_predicate_ok(*h),
{
    match parse_header_name(h.name.as_str()) {
        None => false,
        Some(n) => {
            let value_ok = match &h.value {
                Some(v) => v.as_str().as_bytes().len() <= 1024 && is_header_value(v.as_str()),
                None => true,
            };
            value_ok && str_eq(n.as_str(), h.name.as_str()) && !prohibited_route_header(
                h.name.as_str(),
            )
        },
    }
}

fn header_names_distinct(hs: &Vec<HeaderMatch>) -> (r: bool)
    ensures
        r == distinct_strings(header_names(hs@)),
{
    let ghost names = header_names(hs@);
    let mut j: usize = 0;
    while j < hs.len()
        invariant
            names == header_names(hs@),
            j <= hs@.len(),
            forall|a: int, b: int|
                0 <= a < b < j ==> (#[trigger] names[a])@ != (#[trigger] names[b])@,
        decreases hs@.len() - j,
    {
        let mut i: usize = 0;
        while i < j
            invariant
                names == header_names(hs@),
                i <= j < hs@.len(),
                forall|a: int| 0 <= a < i ==> (#[trigger] names[a])@ != names[j as int]@,
            decreases j - i,
        {
            if str_eq(hs[i].name.as_str(), hs[j].name.as_str()) {
                assert(names[i as int]@ == names[j as int]@);
                return false;
            }
            i += 1;
        }
        j += 1;
    }
    true
}

fn all_header_predicates(hs: &Vec<HeaderMatch>) -> (r: bool)
    ensures
        r == forall|i: int| 0 <= i < hs@.len() ==> header_predicate_ok(#[trigger] hs@[i]),
{
    let mut i: usize = 0;
    while i < hs.len()
        invariant
            i <= hs@.len(),
            forall|k: int| 0 <= k < i ==> header_predicate_ok(#[trigger] hs@[k]),
        decreases hs@.len() - i,
    {
        if !header_predicate_valid(&hs[i]) {
            return false;
        }
        i += 1;
    }
    true
}

/// The message of the first matcher rule that `route` breaks.
pub open spec fn route_matchers_error(route: RouteConfig) -> Option<Seq<char>> {
    let m = |what: Seq<char>| "route "@ + route.id@ + what;
    if route.default {
        if !(route.hosts@.len() == 0 && route.paths@.len() == 0 && route.path_prefixes@.len() == 0
            && route.methods@.len() == 0 && route.headers@.len() == 0 && route.priority == 0) {
            Some(m(" is default and cannot contain matchers or a nonzero priority"@))
        } else {
            None
        }
    } else if route_is_catch_all(route) {
        Some(m(" is a catch-all and must set default = true"@))
    } else if !(forall|i: int|
        0 <= i < route.hosts@.len() ==> cert_host_ok(utf8((#[trigger] route.hosts@[i])@))) {
        Some(m(" has an invalid host"@))
    } else if !distinct_strings(route.hosts@) {
        Some(m(" contains a duplicate host"@))
    } else if !(forall|i: int|
        0 <= i < route.paths@.len() ==> canonical_path_ok(
            utf8((#[trigger] route.paths@[i])@),
            false,
        )) {
        Some(m(" has a non-canonical path"@))
    } else if !distinct_strings(route.paths@) {
        Some(m(" contains a duplicate exact path"@))
    } else if !(forall|i: int|
        0 <= i < route.path_prefixes@.len() ==> canonical_path_ok(
            utf8((#[trigger] route.path_prefixes@[i])@),
            true,
        )) {
        Some(m(" has a non-canonical path"@))
    } else if !distinct_strings(route.path_prefixes@) {
        Some(m(" contains a duplicate path prefix"@))
    } else if !(forall|i: int|
        0 <= i < route.methods@.len() ==> route_method_ok((#[trigger] route.methods@[i])@)) {
        Some(m(" has a non-canonical or unsupported method"@))
    } else if !distinct_strings(route.methods@) {
        Some(m(" contains a duplicate method"@))
    } else if !(forall|i: int|
        0 <= i < route.headers@.len() ==> header_predicate_ok(#[trigger] route.headers@[i])) {
        Some(m(" has a non-canonical or unroutable header"@))
    } else if !distinct_strings(header_names(route.headers@)) {
        Some(m(" contains a duplicate header predicate"@))
    } else {
        None
    }
}

/// Validates route matchers.
pub fn validate_route_matchers(route: &RouteConfig) -> (r: Result<(), ConfigError>)
    ensures
        r is Ok <==> route_matchers_ok(*route),
        match route_matchers_error(*route) {
            Some(m) => r matches Err(ConfigError::Invalid(e)) && e@ == m,
            None => r is Ok,
        },
{
    let id = route.id.as_str();
    if route.default {
        if route.hosts.len() != 0 || route.paths.len() != 0 || route.path_prefixes.len() != 0
            || route.methods.len() != 0 || route.headers.len() != 0 || route.priority != 0 {
            return Err(
                ConfigError::Invalid(
                    join3(
                        "route ",
                        id,
                        " is default and cannot contain matchers or a nonzero priority",
                    ),
                ),
            );
        }
        return Ok(());
    }
    if route.hosts.len() == 0 && route.paths.len() == 0 && route.methods.len() == 0
        && route.headers.len() == 0 && (route.path_prefixes.len() == 0 || vec_contains_str(
        &route.path_prefixes,
        "/",
    )) {
        return Err(
            ConfigError::Invalid(
                join3("route ", id, " is a catch-all and must set default = true"),
            ),
        );
    }
    if !all_cert_hosts(&route.hosts) {
        return Err(ConfigError::Invalid(join3("route ", id, " has an invalid host")));
    }
    if !strings_distinct(&route.hosts) {
        return Err(ConfigError::Invalid(join3("route ", id, " contains a duplicate host")));
    }
    if !all_paths(&route.paths, false) {
        return Err(ConfigError::Invalid(join3("route ", id, " has a non-canonical path")));
    }
    if !strings_distinct(&route.paths) {
        return Err(ConfigError::Invalid(join3("route ", id, " contains a duplicate exact path")));
    }
    if !all_paths(&route.path_prefixes, true) {
        return Err(ConfigError::Invalid(join3("route ", id, " has a non-canonical path")));
    }
    if !strings_distinct(&route.path_prefixes) {
        return Err(
            ConfigError::Invalid(join3("route ", id, " contains a duplicate path prefix")),
        );
    }
    if !all_route_methods(&route.methods) {
        return Err(
            ConfigError::Invalid(join3("route ", id, " has a non-canonical or unsupported method")),
        );
    }
    if !strings_distinct(&route.methods) {
        return Err(ConfigError::Invalid(join3("route ", id, " contains a duplicate method")));
    }
    if !all_header_predicates(&route.headers) {
        return Err(
            ConfigError::Invalid(join3("route ", id, " has a non-canonical or unroutable header")),
        );
    }
    if !header_names_distinct(&route.headers) {
        return Err(
            ConfigError::Invalid(join3("route ", id, " contains a duplicate header predicate")),
        );
    }
    Ok(())
}


pub open spec fn dns_bounds_ok(d: crate::schema::DnsConfig) -> bool {
    &&& 1 <= d.max_answers <= 64
    &&& 1 <= d.lookup_timeout_secs <= 30
    &&& 1 <= d.min_ttl_secs <= d.max_ttl_secs <= 86_400
    &&& d.stale_timeout_secs <= 3_600
}

pub open spec fn passive_bounds_ok(p: crate::schema::PassiveHealthConfig) -> bool {
    &&& 1 <= p.failure_threshold <= 100
    &&& 1 <= p.healthy_threshold <= 100
    &&& 1 <= p.window_secs <= 3_600
    &&& 1 <= p.max_samples <= 1_024
    &&& p.failure_threshold <= p.max_samples
}

pub open spec fn retry_bounds_ok(r: crate::schema::RetryConfig) -> bool {
    &&& 1 <= r.max_attempts <= 5
    &&& 1 <= r.total_timeout_secs <= 300
    &&& r.replay_body_bytes <= 1024 * 1024
}

pub open spec fn statuses_ok(s: Seq<u16>) -> bool {
    &&& 1 <= s.len() <= 32
    &&& forall|i: int| 0 <= i < s.len() ==> 100 <= #[trigger] s[i] <= 599
    &&& no_duplicates(s)
}

/// The message `upstream_groups[<index>].<name><detail>`.
pub open spec fn group_message(group_index: nat, name: Seq<char>, detail: Seq<char>) -> Seq<char> {
    "upstream_groups["@ + decimal_text(group_index) + "]."@ + name + detail
}

/// The message of the first active-probe rule that `h` breaks, if any.
pub open spec fn health_error(group_index: nat, group_id: Seq<char>, h: HealthCheckConfig) -> Option<
    Seq<char>,
> {
    let m = |detail: Seq<char>| group_message(group_index, "health"@, detail);
    if !(1 <= h.interval_secs <= 3_600 && 1 <= h.timeout_secs < h.interval_secs && 1
        <= h.unhealthy_threshold <= 100 && 1 <= h.healthy_threshold <= 100) {
        Some(m(" contains an unsafe interval, timeout, or threshold"@))
    } else {
        match h.kind {
            HealthCheckKind::Http => {
                if !token_ok(utf8(h.method@)) {
                    Some(m(".method is invalid"@))
                } else if !(h.method@ == "GET"@ || h.method@ == "HEAD"@) {
                    Some(m(".method must be GET or HEAD"@))
                } else if !canonical_path_ok(utf8(h.path@), false) {
                    Some(
                        "route "@ + ("upstream group "@ + group_id + " health"@)
                            + " has non-canonical path "@ + h.path@,
                    )
                } else if !statuses_ok(h.expected_statuses@) {
                    Some(m(".expected_statuses must contain 1..=32 unique HTTP statuses"@))
                } else {
                    None
                }
            },
            HealthCheckKind::Tcp => {
                if !(h.method@ == "GET"@ && h.path@ == "/"@ && h.expected_statuses@ == seq![200u16]) {
                    Some(m(" TCP probes cannot configure HTTP fields"@))
                } else {
                    None
                }
            },
        }
    }
}

/// The message of the first resilience bound of group `g` (at position
/// `group_index`) that fails, checked in the order DNS, drain, in-flight,
/// passive health, retry, active health, circuit breaker; `None` when every
/// bound holds.
pub open spec fn upstream_policy_error(group_index: nat, g: UpstreamGroupConfig) -> Option<
    Seq<char>,
> {
    let m = |name: Seq<char>, detail: Seq<char>| group_message(group_index, name, detail);
    if !dns_bounds_ok(g.dns) {
        Some(m("dns"@, " contains an unsafe answer, timeout, TTL, or stale bound"@))
    } else if !(1 <= g.drain_timeout_secs <= 3_600) {
        Some(m("drain_timeout_secs"@, " is outside 1..=3600"@))
    } else if !(1 <= g.max_in_flight <= 100_000) {
        Some(m("max_in_flight"@, " is outside 1..=100000"@))
    } else if !passive_bounds_ok(g.passive_health) {
        Some(m("passive_health"@, " contains an unsafe threshold, window, or sample bound"@))
    } else if !retry_bounds_ok(g.retry) {
        Some(m("retry"@, " contains an unsafe attempt, time, or replay-body bound"@))
    } else if g.health is Some && health_error(group_index, g.id@, g.health->0) is Some {
        health_error(group_index, g.id@, g.health->0)
    } else if g.circuit_breaker is Some && !circuit_ok(g.circuit_breaker->0) {
        Some(m("circuit_breaker"@, " contains an unsafe sample, threshold, or half-open bound"@))
    } else {
        None
    }
}

/// Active probe bounds; an HTTP probe uses GET or HEAD, a canonical path and
/// 1..=32 distinct statuses; a TCP probe keeps the HTTP fields at their
/// defaults.
pub open spec fn health_ok(h: HealthCheckConfig) -> bool {
    &&& 1 <= h.interval_secs <= 3_600
    &&& 1 <= h.timeout_secs < h.interval_secs
    &&& 1 <= h.unhealthy_threshold <= 100
    &&& 1 <= h.healthy_threshold <= 100
    &&& match h.kind {
        HealthCheckKind::Http => {
            &&& token_ok(utf8(h.method@))
            &&& (h.method@ == "GET"@ || h.method@ == "HEAD"@)
            &&& canonical_path_ok(utf8(h.path@), false)
            &&& statuses_ok(h.expected_statuses@)
        },
        HealthCheckKind::Tcp => {
            &&& h.method@ == "GET"@
            &&& h.path@ == "/"@
            &&& h.expected_statuses@ == seq![200u16]
        },
    }
}

pub open spec fn circuit_ok(c: CircuitBreakerConfig) -> bool {
    &&& 1 <= c.sample_size <= 10_000
    &&& 1 <= c.minimum_requests <= c.sample_size
    &&& 1 <= c.failure_percent <= 100
    &&& 1 <= c.open_secs <= 3_600
    &&& 1 <= c.half_open_requests <= 100
}

/// Every bound of an upstream group's resilience policy.
pub open spec fn upstream_policy_ok(g: UpstreamGroupConfig) -> bool {
    &&& dns_bounds_ok(g.dns)
    &&& 1 <= g.drain_timeout_secs <= 3_600
    &&& 1 <= g.max_in_flight <= 100_000
    &&& passive_bounds_ok(g.passive_health)
    &&& retry_bounds_ok(g.retry)
    &&& match g.health {
        Some(h) => health_ok(h),
        None => true,
    }
    &&& match g.circuit_breaker {
        Some(c) => circuit_ok(c),
        None => true,
    }
}

fn statuses_valid(s: &Vec<u16>) -> (r: bool)
    ensures
        r == statuses_ok(s@),
{
    if s.len() == 0 || s.len() > 32 {
        return false;
    }
    let mut j: usize = 0;
    while j < s.len()
        invariant
            1 <= s@.len() <= 32,
            j <= s@.len(),
            forall|k: int| 0 <= k < j ==> 100 <= #[trigger] s@[k] <= 599,
            forall|a: int, b: int| 0 <= a < b < j ==> s@[a] != s@[b],
        decreases s@.len() - j,
    {
        if s[j] < 100 || s[j] > 599 {
            return false;
        }
        let mut i: usize = 0;
        while i < j
            invariant
                i <= j < s@.len(),
                forall|a: int| 0 <= a < i ==> s@[a] != s@[j as int],
            decreases j - i,
        {
            if s[i] == s[j] {
                return false;
            }
            i += 1;
        }
        j += 1;
    }
    true
}

fn is_tcp_default_probe(h: &HealthCheckConfig) -> (r: bool)
    ensures
        r == (h.method@ == "GET"@ && h.path@ == "/"@ && h.expected_statuses@ == seq![200u16]),
{
    let statuses_default = h.expected_statuses.len() == 1 && h.expected_statuses[0] == 200;
    proof {
        if statuses_default {
            assert(h.expected_statuses@ =~= seq![200u16]);
        }
    }
    str_eq(h.method.as_str(), "GET") && str_eq(h.path.as_str(), "/") && statuses_default
}

/// The text `upstream_groups[<index>].<name>`.
fn group_field(group_index: usize, name: &str) -> (r: String)
    ensures
        r@ == "upstream_groups["@ + decimal_text(group_index as nat) + "]."@ + name@,
{
    let index = decimal(group_index);
    let head = join3("upstream_groups[", index.as_str(), "].");
    join2(head.as_str(), name)
}

fn group_error(group_index: usize, name: &str, detail: &str) -> (r: ConfigError)
    ensures
        r matches ConfigError::Invalid(m) && m@ == "upstream_groups["@ + decimal_text(
            group_index as nat,
        ) + "]."@ + name@ + detail@,
{
    let field = group_field(group_index, name);
    ConfigError::Invalid(join2(field.as_str(), detail))
}

fn health_valid(group_index: usize, group_id: &str, h: &HealthCheckConfig) -> (r: Result<
    (),
    ConfigError,
>)
    ensures
        r is Ok <==> health_ok(*h),
        match health_error(group_index as nat, group_id@, *h) {
            Some(m) => r matches Err(ConfigError::Invalid(e)) && e@ == m,
            None => r is Ok,
        },
{
    if h.interval_secs == 0 || h.interval_secs > 3_600 || h.timeout_secs == 0 || h.timeout_secs
        >= h.interval_secs || h.unhealthy_threshold == 0 || h.unhealthy_threshold > 100
        || h.healthy_threshold == 0 || h.healthy_threshold > 100 {
        return Err(
            group_error(
                group_index,
                "health",
                " contains an unsafe interval, timeout, or threshold",
            ),
        );
    }
    match h.kind {
        HealthCheckKind::Http => {
            match parse_method(h.method.as_str()) {
                None => {
                    return Err(group_error(group_index, "health", ".method is invalid"));
                },
                Some(_) => {},
            }
            if !(str_eq(h.method.as_str(), "GET") || str_eq(h.method.as_str(), "HEAD")) {
                return Err(group_error(group_index, "health", ".method must be GET or HEAD"));
            }
            let owner = join3("upstream group ", group_id, " health");
            match validate_path(owner.as_str(), h.path.as_str(), false) {
                Ok(()) => {},
                Err(e) => {
                    return Err(e);
                },
            }
            if !statuses_valid(&h.expected_statuses) {
                return Err(
                    group_error(
                        group_index,
                        "health",
                        ".expected_statuses must contain 1..=32 unique HTTP statuses",
                    ),
                );
            }
        },
        HealthCheckKind::Tcp => {
            if !is_tcp_default_probe(h) {
                return Err(
                    group_error(group_index, "health", " TCP probes cannot configure HTTP fields"),
                );
            }
        },
    }
    Ok(())
}

/// Validates the DNS, drain, in-flight, passive-health, retry, active-health
/// and circuit-breaker bounds of one upstream group.
pub fn validate_upstream_policy(group_index: usize, group: &UpstreamGroupConfig) -> (r: Result<
    (),
    ConfigError,
>)
    ensures
        r is Ok <==> upstream_policy_ok(*group),
        match upstream_policy_error(group_index as nat, *group) {
            Some(m) => r matches Err(ConfigError::Invalid(e)) && e@ == m,
            None => r is Ok,
        },
{
    let d = &group.dns;
    if d.max_answers == 0 || d.max_answers > 64 || d.lookup_timeout_secs == 0
        || d.lookup_timeout_secs > 30 || d.min_ttl_secs == 0 || d.min_ttl_secs > d.max_ttl_secs
        || d.max_ttl_secs > 86_400 || d.stale_timeout_secs > 3_600 {
        return Err(
            group_error(
                group_index,
                "dns",
                " contains an unsafe answer, timeout, TTL, or stale bound",
            ),
        );
    }
    if group.drain_timeout_secs == 0 || group.drain_timeout_secs > 3_600 {
        return Err(group_error(group_index, "drain_timeout_secs", " is outside 1..=3600"));
    }
    if group.max_in_flight == 0 || group.max_in_flight > 100_000 {
        return Err(group_error(group_index, "max_in_flight", " is outside 1..=100000"));
    }
    let p = &group.passive_health;
    if p.failure_threshold == 0 || p.failure_threshold > 100 || p.healthy_threshold == 0
        || p.healthy_threshold > 100 || p.window_secs == 0 || p.window_secs > 3_600
        || p.max_samples == 0 || p.max_samples > 1_024 || p.failure_threshold as usize
        > p.max_samples {
        return Err(
            group_error(
                group_index,
                "passive_health",
                " contains an unsafe threshold, window, or sample bound",
            ),
        );
    }
    let retry = &group.retry;
    if retry.max_attempts == 0 || retry.max_attempts > 5 || retry.total_timeout_secs == 0
        || retry.total_timeout_secs > 300 || retry.replay_body_bytes > 1024 * 1024 {
        return Err(
            group_error(
                group_index,
                "retry",
                " contains an unsafe attempt, time, or replay-body bound",
            ),
        );
    }
    match &group.health {
        Some(h) => {
            match health_valid(group_index, group.id.as_str(), h) {
                Ok(()) => {},
                Err(e) => {
                    return Err(e);
                },
            }
        },
        None => {},
    }
    match &group.circuit_breaker {
        Some(c) => {
            if c.sample_size == 0 || c.sample_size > 10_000 || c.minimum_requests == 0
                || c.minimum_requests > c.sample_size || c.failure_percent == 0
                || c.failure_percent > 100 || c.open_secs == 0 || c.open_secs > 3_600
                || c.half_open_requests == 0 || c.half_open_requests > 100 {
                return Err(
                    group_error(
                        group_index,
                        "circuit_breaker",
                        " contains an unsafe sample, threshold, or half-open bound",
                    ),
                );
            }
        },
        None => {},
    }
    Ok(())
}

} // verus!
