//! Whole-configuration validation: every section rule and every
//! cross-reference between listeners, certificates, upstream groups,
//! middlewares and routes.

use vstd::prelude::*;
use crate::text::{utf8, str_eq, starts_with, no_duplicates, slice_starts_with};
use crate::checks::{contains_string, distinct_strings, vec_contains_str, strings_distinct};
use crate::error::{ConfigError, decimal, decimal_text, join2, join3, join4};
use crate::naming::{id_ok, cert_host_ok, upstream_host_ok, valid_id, valid_certificate_host,
    valid_upstream_host, id_message, cert_host_message, upstream_host_reason};
use crate::net::{IpAddress, std_ip_from_str, egress_refusal, validate_egress_ip, egress_refusal_text};
use crate::secret::{secret_ref_ok, secret_ref_valid};
use crate::middleware::{middleware_ok, validate_middleware, middleware_error};
use crate::platform::{admin_ok, observability_ok, providers_ok, validate_admin,
    validate_observability, validate_providers, admin_error, observability_error, providers_error};
use crate::acme::{acme_ok, validate_acme, cert_id_strings, acme_error};
use crate::routing::{upstream_policy_ok, validate_upstream_policy, route_matchers_ok, tcp_route_ok,
    route_matchers_error, upstream_policy_error};
use crate::acme::{find_listener, first_listener};
use crate::conflict::conflict_free;
use crate::schema::{Config, CertificateConfig, MiddlewareConfig, ListenerConfig,
    UpstreamGroupConfig, EndpointConfig, RouteConfig, RetryConfig, HealthCheckKind, RateLimitKey};

verus! {

pub const MAX_LISTENERS: usize = 128;

pub const MAX_ROUTES: usize = 4_096;

pub const MAX_UPSTREAM_GROUPS: usize = 1_024;

pub const MAX_ENDPOINTS_PER_GROUP: usize = 256;

pub const MAX_TOTAL_ENDPOINTS: usize = 4_096;

pub const MAX_MIDDLEWARES: usize = 1_024;

pub const MAX_TRUSTED_PROXY_CIDRS: usize = 256;

/// Schema version, list sizes, state directory and runtime durations.
pub open spec fn basics_ok(c: Config) -> bool {
    &&& c.schema_version == 1
    &&& 1 <= c.listeners@.len() <= MAX_LISTENERS
    &&& c.routes@.len() <= MAX_ROUTES
    &&& 1 <= utf8(c.runtime.state_dir@).len() <= 4_096
    &&& 1 <= c.runtime.shutdown_grace_secs <= 3_600
    &&& 1 <= c.runtime.config_poll_secs <= 300
}

/// The message of the first schema, list-size or runtime rule broken.
pub open spec fn basics_error(c: Config) -> Option<Seq<char>> {
    if c.schema_version != 1 {
        Some("unsupported schema_version "@ + decimal_text(c.schema_version as nat))
    } else if !(1 <= c.listeners@.len() <= MAX_LISTENERS) {
        Some("listeners must contain 1..=128 entries"@)
    } else if c.routes@.len() > MAX_ROUTES {
        Some("route count exceeds 4096"@)
    } else if !(1 <= utf8(c.runtime.state_dir@).len() <= 4_096) {
        Some("runtime.state_dir must contain 1..=4096 bytes"@)
    } else if !(1 <= c.runtime.shutdown_grace_secs <= 3_600 && 1 <= c.runtime.config_poll_secs
        <= 300) {
        Some("runtime shutdown/config polling durations are outside safe bounds"@)
    } else {
        None
    }
}

/// The message of the first trusted-proxy rule broken.
pub open spec fn trusted_proxies_error(c: Config) -> Option<Seq<char>> {
    let t = c.trusted_proxies;
    if !(t.cidrs@.len() <= MAX_TRUSTED_PROXY_CIDRS && t.trusted_hops <= 32) {
        Some("trusted_proxies exceeds configured CIDR or hop bounds"@)
    } else if (t.cidrs@.len() == 0) != (t.trusted_hops == 0) {
        Some("trusted_proxies cidrs and trusted_hops must be configured together"@)
    } else if !no_duplicates(t.cidrs@) {
        Some("trusted_proxies contains a duplicate CIDR"@)
    } else {
        None
    }
}

/// The message of the first TLS rule broken.
pub open spec fn tls_error(c: Config) -> Option<Seq<char>> {
    let t = c.tls;
    if !(t.minimum_version@ == "1.2"@ || t.minimum_version@ == "1.3"@) {
        Some("tls.minimum_version must be 1.2 or 1.3"@)
    } else if !(1 <= t.max_handshakes <= 100_000 && 1 <= t.handshake_timeout_secs <= 300) {
        Some("TLS handshake limits are outside safe bounds"@)
    } else if t.identity is Some && !secret_ref_ok(utf8(t.identity->0@)) {
        Some("tls.identity has an invalid secret reference"@)
    } else {
        None
    }
}

/// The message of the first resource limit broken.
pub open spec fn limits_error(c: Config) -> Option<Seq<char>> {
    let l = c.limits;
    if !(1 <= l.max_connections <= 1_000_000) {
        Some("limits.max_connections is outside 1..=1000000"@)
    } else if !(8 * 1024 <= l.max_header_bytes <= 1024 * 1024) {
        Some("limits.max_header_bytes is outside 8192..=1048576"@)
    } else if !(1 <= l.max_headers <= 1024) {
        Some("limits.max_headers is outside 1..=1024"@)
    } else if !(1_024 <= l.max_request_target <= 64 * 1024) {
        Some("limits.max_request_target is outside 1024..=65536"@)
    } else if !(1 <= l.max_http2_streams <= 10_000) {
        Some("limits.max_http2_streams is outside 1..=10000"@)
    } else if !(1 <= l.max_health_checks <= 4_096) {
        Some("limits.max_health_checks is outside 1..=4096"@)
    } else if !(1 <= l.max_dns_lookups <= 4_096) {
        Some("limits.max_dns_lookups is outside 1..=4096"@)
    } else if !(1 <= l.tcp_connect_timeout_secs <= 300 && 1 <= l.tcp_idle_timeout_secs <= 86_400
        && 1 <= l.tcp_connection_lifetime_secs <= 604_800 && l.tcp_idle_timeout_secs
        <= l.tcp_connection_lifetime_secs) {
        Some("configured TCP timeouts are outside safe bounds"@)
    } else if !(1 <= l.max_request_body <= 1024 * 1024 * 1024) {
        Some("limits.max_request_body is outside 1..=1073741824"@)
    } else if !(1 <= l.request_header_timeout_secs <= 300 && 1 <= l.response_header_timeout_secs
        <= 3_600) {
        Some("configured timeouts are outside safe bounds"@)
    } else {
        None
    }
}

fn check_basics(config: &Config) -> (r: Result<(), ConfigError>)
    ensures
        r is Ok <==> basics_ok(*config),
        match basics_error(*config) {
            Some(m) => r matches Err(ConfigError::Invalid(e)) && e@ == m,
            None => r is Ok,
        },
{
    if config.schema_version != 1 {
        let v = decimal(config.schema_version as usize);
        return Err(ConfigError::Invalid(join2("unsupported schema_version ", v.as_str())));
    }
    if config.listeners.len() == 0 || config.listeners.len() > MAX_LISTENERS {
        return Err(ConfigError::invalid("listeners must contain 1..=128 entries"));
    }
    if config.routes.len() > MAX_ROUTES {
        return Err(ConfigError::invalid("route count exceeds 4096"));
    }
    let n = config.runtime.state_dir.as_str().as_bytes().len();
    if n == 0 || n > 4_096 {
        return Err(ConfigError::invalid("runtime.state_dir must contain 1..=4096 bytes"));
    }
    if config.runtime.shutdown_grace_secs == 0 || config.runtime.shutdown_grace_secs > 3_600
        || config.runtime.config_poll_secs == 0 || config.runtime.config_poll_secs > 300 {
        return Err(
            ConfigError::invalid(
                "runtime shutdown/config polling durations are outside safe bounds",
            ),
        );
    }
    Ok(())
}

/// Sum of the compression concurrency of the middlewares in `entries`.
pub open spec fn compression_slots(entries: Seq<(String, MiddlewareConfig)>) -> int
    decreases entries.len(),
{
    if entries.len() == 0 {
        0
    } else {
        compression_slots(entries.drop_last()) + match entries.last().1 {
            MiddlewareConfig::Compression { max_concurrent, .. } => max_concurrent as int,
            _ => 0,
        }
    }
}

/// Sum of the in-flight capacity of the middlewares in `entries`.
pub open spec fn in_flight_slots(entries: Seq<(String, MiddlewareConfig)>) -> int
    decreases entries.len(),
{
    if entries.len() == 0 {
        0
    } else {
        in_flight_slots(entries.drop_last()) + match entries.last().1 {
            MiddlewareConfig::InFlightLimit { max_requests, .. } => max_requests as int,
            _ => 0,
        }
    }
}

/// Every middleware has a valid ID and definition, and the aggregate
/// compression and in-flight capacities stay within 64 and 100000.
pub open spec fn middlewares_ok(entries: Seq<(String, MiddlewareConfig)>) -> bool {
    &&& forall|i: int|
        0 <= i < entries.len() ==> id_ok(utf8((#[trigger] entries[i]).0@)) && middleware_ok(
            entries[i].1,
        )
    &&& compression_slots(entries) <= 64
    &&& in_flight_slots(entries) <= 100_000
}

proof fn lemma_slots_nonneg(entries: Seq<(String, MiddlewareConfig)>)
    ensures
        compression_slots(entries) >= 0,
        in_flight_slots(entries) >= 0,
    decreases entries.len(),
{
    if entries.len() > 0 {
        lemma_slots_nonneg(entries.drop_last());
    }
}

proof fn lemma_slots_monotone(entries: Seq<(String, MiddlewareConfig)>, i: int)
    requires
        0 <= i <= entries.len(),
    ensures
        compression_slots(entries.take(i)) <= compression_slots(entries),
        in_flight_slots(entries.take(i)) <= in_flight_slots(entries),
    decreases entries.len() - i,
{
    if i < entries.len() {
        lemma_slots_monotone(entries, i + 1);
        assert(entries.take(i + 1).drop_last() =~= entries.take(i));
        lemma_slots_nonneg(entries.take(i));
    } else {
        assert(entries.take(i) =~= entries);
    }
}

/// The message of the first middleware rule broken from entry `i` on:
/// the entry's identifier, its definition, then the aggregate compression
/// and in-flight capacities of the entries up to it.
pub open spec fn middlewares_error(entries: Seq<(String, MiddlewareConfig)>, i: int) -> Option<
    Seq<char>,
>
    decreases entries.len() - i,
{
    if 0 <= i < entries.len() {
        let e = entries[i];
        if !id_ok(utf8(e.0@)) {
            Some(id_message(e.0@))
        } else if middleware_error(e.0@, e.1) is Some {
            middleware_error(e.0@, e.1)
        } else if e.1 is Compression && compression_slots(entries.take(i + 1)) > 64 {
            Some("aggregate compression concurrency exceeds 64"@)
        } else if e.1 is InFlightLimit && in_flight_slots(entries.take(i + 1)) > 100_000 {
            Some("aggregate route in-flight capacity exceeds 100000"@)
        } else {
            middlewares_error(entries, i + 1)
        }
    } else {
        None
    }
}

fn check_middlewares(config: &Config) -> (r: Result<(), ConfigError>)
    ensures
        r is Ok <==> middlewares_ok(config.middlewares.spec_entries()),
        match middlewares_error(config.middlewares.spec_entries(), 0) {
            Some(m) => r matches Err(ConfigError::Invalid(e)) && e@ == m,
            None => r is Ok,
        },
{
    let ghost entries = config.middlewares.spec_entries();
    let mut compression: usize = 0;
    let mut in_flight: usize = 0;
    let mut i: usize = 0;
    while i < config.middlewares.len()
        invariant
            entries == config.middlewares.spec_entries(),
            i <= entries.len(),
            forall|j: int|
                0 <= j < i ==> id_ok(utf8((#[trigger] entries[j]).0@)) && middleware_ok(
                    entries[j].1,
                ),
            compression == compression_slots(entries.take(i as int)),
            in_flight == in_flight_slots(entries.take(i as int)),
            compression <= 64,
            in_flight <= 100_000,
            middlewares_error(entries, 0) == middlewares_error(entries, i as int),
        decreases entries.len() - i,
    {
        let (id, middleware) = config.middlewares.entry(i);
        match valid_id(id.as_str()) {
            Ok(()) => {},
            Err(e) => {
                return Err(e);
            },
        }
        match validate_middleware(id.as_str(), middleware) {
            Ok(()) => {},
            Err(e) => {
                return Err(e);
            },
        }
        assert(entries.take(i + 1).drop_last() =~= entries.take(i as int));
        match middleware {
            MiddlewareConfig::Compression { max_concurrent, .. } => {
                if *max_concurrent > 64 - compression {
                    proof {
                        lemma_slots_monotone(entries, i + 1);
                    }
                    return Err(ConfigError::invalid("aggregate compression concurrency exceeds 64"));
                }
                compression = compression + *max_concurrent;
            },
            MiddlewareConfig::InFlightLimit { max_requests, .. } => {
                if *max_requests > 100_000 - in_flight {
                    proof {
                        lemma_slots_monotone(entries, i + 1);
                    }
                    return Err(
                        ConfigError::invalid("aggregate route in-flight capacity exceeds 100000"),
                    );
                }
                in_flight = in_flight + *max_requests;
            },
            _ => {},
        }
        i += 1;
    }
    assert(entries.take(entries.len() as int) =~= entries);
    Ok(())
}

/// Trusted proxies: bounded CIDRs and hops, configured together, no CIDR
/// listed twice.
pub open spec fn trusted_proxies_ok(c: Config) -> bool {
    let t = c.trusted_proxies;
    &&& t.cidrs@.len() <= MAX_TRUSTED_PROXY_CIDRS
    &&& t.trusted_hops <= 32
    &&& (t.cidrs@.len() == 0) == (t.trusted_hops == 0)
    &&& no_duplicates(t.cidrs@)
}

#[verifier::loop_isolation(false)]
fn check_trusted_proxies(config: &Config) -> (r: Result<(), ConfigError>)
    ensures
        r is Ok <==> trusted_proxies_ok(*config),
        match trusted_proxies_error(*config) {
            Some(m) => r matches Err(ConfigError::Invalid(e)) && e@ == m,
            None => r is Ok,
        },
{
    let t = &config.trusted_proxies;
    if t.cidrs.len() > MAX_TRUSTED_PROXY_CIDRS || t.trusted_hops > 32 {
        return Err(
            ConfigError::invalid("trusted_proxies exceeds configured CIDR or hop bounds"),
        );
    }
    if (t.cidrs.len() == 0) != (t.trusted_hops == 0) {
        return Err(
            ConfigError::invalid(
                "trusted_proxies cidrs and trusted_hops must be configured together",
            ),
        );
    }
    let mut j: usize = 0;
    while j < t.cidrs.len()
        invariant
            *t == config.trusted_proxies,
            j <= t.cidrs@.len(),
            forall|a: int, b: int| 0 <= a < b < j ==> t.cidrs@[a] != t.cidrs@[b],
        decreases t.cidrs@.len() - j,
    {
        let mut k: usize = 0;
        while k < j
            invariant
                *t == config.trusted_proxies,
                j < t.cidrs@.len(),
                k <= j,
                forall|a: int| 0 <= a < k ==> t.cidrs@[a] != t.cidrs@[j as int],
            decreases j - k,
        {
            if t.cidrs[k] == t.cidrs[j] {
                assert(t.cidrs@[k as int] == t.cidrs@[j as int]);
                return Err(ConfigError::invalid("trusted_proxies contains a duplicate CIDR"));
            }
            k += 1;
        }
        j += 1;
    }
    Ok(())
}

/// TLS: version 1.2 or 1.3, bounded handshakes, a valid identity reference.
pub open spec fn tls_ok(c: Config) -> bool {
    let t = c.tls;
    &&& (t.minimum_version@ == "1.2"@ || t.minimum_version@ == "1.3"@)
    &&& 1 <= t.max_handshakes <= 100_000
    &&& 1 <= t.handshake_timeout_secs <= 300
    &&& match t.identity {
        Some(i) => secret_ref_ok(utf8(i@)),
        None => true,
    }
}

fn check_tls(config: &Config) -> (r: Result<(), ConfigError>)
    ensures
        r is Ok <==> tls_ok(*config),
        match tls_error(*config) {
            Some(m) => r matches Err(ConfigError::Invalid(e)) && e@ == m,
            None => r is Ok,
        },
{
    let t = &config.tls;
    if !(str_eq(t.minimum_version.as_str(), "1.2") || str_eq(t.minimum_version.as_str(), "1.3")) {
        return Err(ConfigError::invalid("tls.minimum_version must be 1.2 or 1.3"));
    }
    if t.max_handshakes == 0 || t.max_handshakes > 100_000 || t.handshake_timeout_secs == 0
        || t.handshake_timeout_secs > 300 {
        return Err(ConfigError::invalid("TLS handshake limits are outside safe bounds"));
    }
    match &t.identity {
        Some(identity) => {
            if !secret_ref_valid(identity.as_str()) {
                return Err(ConfigError::invalid("tls.identity has an invalid secret reference"));
            }
        },
        None => {},
    }
    Ok(())
}

/// All hosts of the static certificates, in order.
pub open spec fn static_hosts(certs: Seq<CertificateConfig>) -> Seq<String>
    decreases certs.len(),
{
    if certs.len() == 0 {
        Seq::empty()
    } else {
        static_hosts(certs.drop_last()) + certs.last().hosts@
    }
}

/// The IDs of the static certificates, in order.
pub open spec fn static_ids(certs: Seq<CertificateConfig>) -> Seq<String> {
    certs.map_values(|x: CertificateConfig| x.id)
}

/// Static certificate `i`: valid ID unused before it, 1..=64 valid hosts
/// not assigned before, and chain and key references.
pub open spec fn static_cert_ok(certs: Seq<CertificateConfig>, i: int) -> bool {
    let x = certs[i];
    let prior = static_hosts(certs.take(i));
    &&& id_ok(utf8(x.id@))
    &&& !contains_string(static_ids(certs.take(i)), x.id@)
    &&& 1 <= x.hosts@.len() <= 64
    &&& forall|k: int|
        0 <= k < x.hosts@.len() ==> cert_host_ok(utf8((#[trigger] x.hosts@[k])@))
            && !contains_string(prior + x.hosts@.take(k), x.hosts@[k]@)
    &&& secret_ref_ok(utf8(x.certificate_chain@))
    &&& secret_ref_ok(utf8(x.private_key@))
}

pub open spec fn certificates_ok(c: Config) -> bool {
    &&& c.certificates@.len() <= 1024
    &&& forall|i: int| 0 <= i < c.certificates@.len() ==> #[trigger] static_cert_ok(c.certificates@, i)
    &&& (c.certificates@.len() != 0 ==> c.tls.identity is Some)
}

/// The message of the rule that host `k` of static certificate `x` breaks.
pub open spec fn static_host_error(x: CertificateConfig, k: int, prior: Seq<String>) -> Option<
    Seq<char>,
> {
    let h = x.hosts@[k]@;
    if !cert_host_ok(utf8(h)) {
        Some(cert_host_message(h))
    } else if contains_string(prior + x.hosts@.take(k), h) {
        Some("certificate host "@ + h + " is assigned more than once"@)
    } else {
        None
    }
}

/// The first host error of `x` from position `k` on.
pub open spec fn static_hosts_error(x: CertificateConfig, prior: Seq<String>, k: int) -> Option<
    Seq<char>,
>
    decreases x.hosts@.len() - k,
{
    if 0 <= k < x.hosts@.len() {
        match static_host_error(x, k, prior) {
            Some(m) => Some(m),
            None => static_hosts_error(x, prior, k + 1),
        }
    } else {
        None
    }
}

/// The message of the first rule that static certificate `i` breaks.
pub open spec fn static_cert_error(certs: Seq<CertificateConfig>, i: int) -> Option<Seq<char>> {
    let x = certs[i];
    let id = x.id@;
    if !id_ok(utf8(id)) {
        Some(id_message(id))
    } else if contains_string(static_ids(certs.take(i)), id) {
        Some("duplicate certificate id "@ + id)
    } else if !(1 <= x.hosts@.len() <= 64) {
        Some("certificate "@ + id + " must contain 1..=64 hosts"@)
    } else if static_hosts_error(x, static_hosts(certs.take(i)), 0) is Some {
        static_hosts_error(x, static_hosts(certs.take(i)), 0)
    } else if !secret_ref_ok(utf8(x.certificate_chain@)) {
        Some("certificate "@ + id + " has an invalid chain secret reference"@)
    } else if !secret_ref_ok(utf8(x.private_key@)) {
        Some("certificate "@ + id + " has an invalid key secret reference"@)
    } else {
        None
    }
}

/// The first static certificate error from position `i` on.
pub open spec fn static_certs_error(certs: Seq<CertificateConfig>, i: int) -> Option<Seq<char>>
    decreases certs.len() - i,
{
    if 0 <= i < certs.len() {
        match static_cert_error(certs, i) {
            Some(m) => Some(m),
            None => static_certs_error(certs, i + 1),
        }
    } else {
        None
    }
}

/// The message of the first static certificate rule broken.
pub open spec fn certificates_error(c: Config) -> Option<Seq<char>> {
    if c.certificates@.len() > 1024 {
        Some("certificate count exceeds 1024"@)
    } else if static_certs_error(c.certificates@, 0) is Some {
        static_certs_error(c.certificates@, 0)
    } else if c.certificates@.len() != 0 && c.tls.identity is None {
        Some("tls.identity is required for encrypted private keys"@)
    } else {
        None
    }
}

#[verifier::loop_isolation(false)]
fn check_static_certificate(
    certs: &Vec<CertificateConfig>,
    i: usize,
    ids: &mut Vec<String>,
    hosts: &mut Vec<String>,
) -> (r: Result<(), ConfigError>)
    requires
        i < certs@.len(),
        old(ids)@ == static_ids(certs@.take(i as int)),
        old(hosts)@ == static_hosts(certs@.take(i as int)),
    ensures
        r is Ok <==> static_cert_ok(certs@, i as int),
        match static_cert_error(certs@, i as int) {
            Some(m) => r matches Err(ConfigError::Invalid(e)) && e@ == m,
            None => r is Ok,
        },
        r is Ok ==> final(ids)@ == static_ids(certs@.take(i + 1)),
        r is Ok ==> final(hosts)@ == static_hosts(certs@.take(i + 1)),
{
    let ghost hosts0 = hosts@;
    let certificate = &certs[i];
    let id = certificate.id.as_str();
    match valid_id(id) {
        Ok(()) => {},
        Err(e) => {
            return Err(e);
        },
    }
    if vec_contains_str(ids, id) {
        return Err(ConfigError::Invalid(join2("duplicate certificate id ", id)));
    }
    ids.push(certificate.id.clone());
    if certificate.hosts.len() == 0 || certificate.hosts.len() > 64 {
        return Err(ConfigError::Invalid(join3("certificate ", id, " must contain 1..=64 hosts")));
    }
    let mut k: usize = 0;
    while k < certificate.hosts.len()
        invariant
            i < certs@.len(),
            *certificate == certs@[i as int],
            hosts0 == static_hosts(certs@.take(i as int)),
            k <= certificate.hosts@.len(),
            hosts@ == hosts0 + certificate.hosts@.take(k as int),
            forall|m: int|
                0 <= m < k ==> cert_host_ok(utf8((#[trigger] certificate.hosts@[m])@))
                    && !contains_string(hosts0 + certificate.hosts@.take(m), certificate.hosts@[m]@),
            static_hosts_error(*certificate, hosts0, 0) == static_hosts_error(
                *certificate,
                hosts0,
                k as int,
            ),
        decreases certificate.hosts@.len() - k,
    {
        let host = certificate.hosts[k].as_str();
        match valid_certificate_host(host) {
            Ok(()) => {},
            Err(e) => {
                return Err(e);
            },
        }
        if vec_contains_str(hosts, host) {
            return Err(
                ConfigError::Invalid(join3("certificate host ", host, " is assigned more than once")),
            );
        }
        hosts.push(certificate.hosts[k].clone());
        assert(certificate.hosts@.take(k + 1) =~= certificate.hosts@.take(k as int).push(
            certificate.hosts@[k as int],
        ));
        k += 1;
    }
    if !secret_ref_valid(certificate.certificate_chain.as_str()) {
        return Err(
            ConfigError::Invalid(join3("certificate ", id, " has an invalid chain secret reference")),
        );
    }
    if !secret_ref_valid(certificate.private_key.as_str()) {
        return Err(
            ConfigError::Invalid(join3("certificate ", id, " has an invalid key secret reference")),
        );
    }
    proof {
        assert(certs@.take(i + 1).drop_last() =~= certs@.take(i as int));
        assert(certificate.hosts@.take(certificate.hosts@.len() as int) =~= certificate.hosts@);
        assert(static_ids(certs@.take(i + 1)) =~= static_ids(certs@.take(i as int)).push(
            certs@[i as int].id,
        ));
    }
    Ok(())
}

/// Validates the static certificates; gives back their IDs and hosts.
#[verifier::loop_isolation(false)]
fn check_certificates(config: &Config) -> (r: Result<(Vec<String>, Vec<String>), ConfigError>)
    ensures
        r is Ok <==> certificates_ok(*config),
        match certificates_error(*config) {
            Some(m) => r matches Err(ConfigError::Invalid(e)) && e@ == m,
            None => r is Ok,
        },
        r matches Ok((ids, hosts)) ==> ids@ == static_ids(config.certificates@) && hosts@
            == static_hosts(config.certificates@),
{
    if config.certificates.len() > 1024 {
        return Err(ConfigError::invalid("certificate count exceeds 1024"));
    }
    let certs = &config.certificates;
    let mut ids: Vec<String> = Vec::new();
    let mut hosts: Vec<String> = Vec::new();
    let mut i: usize = 0;
    assert(static_ids(certs@.take(0)) =~= Seq::<String>::empty());
    assert(certs@.take(0) =~= Seq::<CertificateConfig>::empty());
    while i < certs.len()
        invariant
            *certs == config.certificates,
            i <= certs@.len(),
            ids@ == static_ids(certs@.take(i as int)),
            hosts@ == static_hosts(certs@.take(i as int)),
            forall|j: int| 0 <= j < i ==> #[trigger] static_cert_ok(certs@, j),
            static_certs_error(certs@, 0) == static_certs_error(certs@, i as int),
        decreases certs@.len() - i,
    {
        match check_static_certificate(certs, i, &mut ids, &mut hosts) {
            Ok(()) => {},
            Err(e) => {
                return Err(e);
            },
        }
        i += 1;
    }
    assert(certs@.take(certs@.len() as int) =~= certs@);
    if certs.len() != 0 && config.tls.identity.is_none() {
        return Err(ConfigError::invalid("tls.identity is required for encrypted private keys"));
    }
    Ok((ids, hosts))
}

/// Connection, header, target, stream, probe, lookup, TCP, body and timeout
/// limits.
pub open spec fn limits_ok(c: Config) -> bool {
    let l = c.limits;
    &&& 1 <= l.max_connections <= 1_000_000
    &&& 8 * 1024 <= l.max_header_bytes <= 1024 * 1024
    &&& 1 <= l.max_headers <= 1024
    &&& 1_024 <= l.max_request_target <= 64 * 1024
    &&& 1 <= l.max_http2_streams <= 10_000
    &&& 1 <= l.max_health_checks <= 4_096
    &&& 1 <= l.max_dns_lookups <= 4_096
    &&& 1 <= l.tcp_connect_timeout_secs <= 300
    &&& 1 <= l.tcp_idle_timeout_secs <= 86_400
    &&& 1 <= l.tcp_connection_lifetime_secs <= 604_800
    &&& l.tcp_idle_timeout_secs <= l.tcp_connection_lifetime_secs
    &&& 1 <= l.max_request_body <= 1024 * 1024 * 1024
    &&& 1 <= l.request_header_timeout_secs <= 300
    &&& 1 <= l.response_header_timeout_secs <= 3_600
}

fn check_limits(config: &Config) -> (r: Result<(), ConfigError>)
    ensures
        r is Ok <==> limits_ok(*config),
        match limits_error(*config) {
            Some(m) => r matches Err(ConfigError::Invalid(e)) && e@ == m,
            None => r is Ok,
        },
{
    let l = &config.limits;
    if l.max_connections == 0 || l.max_connections > 1_000_000 {
        return Err(ConfigError::invalid("limits.max_connections is outside 1..=1000000"));
    }
    if l.max_header_bytes < 8 * 1024 || l.max_header_bytes > 1024 * 1024 {
        return Err(ConfigError::invalid("limits.max_header_bytes is outside 8192..=1048576"));
    }
    if l.max_headers == 0 || l.max_headers > 1024 {
        return Err(ConfigError::invalid("limits.max_headers is outside 1..=1024"));
    }
    if l.max_request_target < 1_024 || l.max_request_target > 64 * 1024 {
        return Err(ConfigError::invalid("limits.max_request_target is outside 1024..=65536"));
    }
    if l.max_http2_streams == 0 || l.max_http2_streams > 10_000 {
        return Err(ConfigError::invalid("limits.max_http2_streams is outside 1..=10000"));
    }
    if l.max_health_checks == 0 || l.max_health_checks > 4_096 {
        return Err(ConfigError::invalid("limits.max_health_checks is outside 1..=4096"));
    }
    if l.max_dns_lookups == 0 || l.max_dns_lookups > 4_096 {
        return Err(ConfigError::invalid("limits.max_dns_lookups is outside 1..=4096"));
    }
    if l.tcp_connect_timeout_secs == 0 || l.tcp_connect_timeout_secs > 300
        || l.tcp_idle_timeout_secs == 0 || l.tcp_idle_timeout_secs > 86_400
        || l.tcp_connection_lifetime_secs == 0 || l.tcp_connection_lifetime_secs > 604_800
        || l.tcp_idle_timeout_secs > l.tcp_connection_lifetime_secs {
        return Err(ConfigError::invalid("configured TCP timeouts are outside safe bounds"));
    }
    if l.max_request_body == 0 || l.max_request_body > 1024 * 1024 * 1024 {
        return Err(ConfigError::invalid("limits.max_request_body is outside 1..=1073741824"));
    }
    if l.request_header_timeout_secs == 0 || l.request_header_timeout_secs > 300
        || l.response_header_timeout_secs == 0 || l.response_header_timeout_secs > 3600 {
        return Err(ConfigError::invalid("configured timeouts are outside safe bounds"));
    }
    Ok(())
}


pub open spec fn protocol_known(p: Seq<char>) -> bool {
    p == "http"@ || p == "https"@ || p == "tcp"@ || p == "tls_passthrough"@
}

/// Listener `i`: valid ID and bind unused before it, a known protocol, and
/// distinct known certificates exactly when it is HTTPS.
pub open spec fn listener_ok(ls: Seq<ListenerConfig>, i: int, cert_ids: Seq<String>) -> bool {
    let l = ls[i];
    &&& id_ok(utf8(l.id@))
    &&& forall|j: int| 0 <= j < i ==> (#[trigger] ls[j]).id@ != l.id@
    &&& forall|j: int| 0 <= j < i ==> (#[trigger] ls[j]).bind != l.bind
    &&& protocol_known(l.protocol@)
    &&& if l.protocol@ == "https"@ {
        &&& l.certificates@.len() != 0
        &&& distinct_strings(l.certificates@)
        &&& forall|k: int|
            0 <= k < l.certificates@.len() ==> contains_string(
                cert_ids,
                (#[trigger] l.certificates@[k])@,
            )
    } else {
        l.certificates@.len() == 0
    }
}

/// The text `listeners[<i>].certificates[<k>`.
pub open spec fn certificate_place(i: nat, k: nat) -> Seq<char> {
    "listeners["@ + decimal_text(i) + "].certificates["@ + decimal_text(k)
}

/// The message of the rule that certificate reference `k` of listener `l`
/// (at position `i`) breaks.
pub open spec fn listener_cert_error(l: ListenerConfig, i: nat, cert_ids: Seq<String>, k: int) -> Option<
    Seq<char>,
> {
    let c = l.certificates@[k]@;
    if exists|m: int| 0 <= m < k && (#[trigger] l.certificates@[m])@ == c {
        Some(certificate_place(i, k as nat) + "] duplicates certificate "@ + c)
    } else if !contains_string(cert_ids, c) {
        Some(certificate_place(i, k as nat) + "] references unknown certificate "@ + c)
    } else {
        None
    }
}

/// The first certificate reference error of listener `l` from position `k` on.
pub open spec fn listener_certs_error(l: ListenerConfig, i: nat, cert_ids: Seq<String>, k: int) -> Option<
    Seq<char>,
>
    decreases l.certificates@.len() - k,
{
    if 0 <= k < l.certificates@.len() {
        match listener_cert_error(l, i, cert_ids, k) {
            Some(m) => Some(m),
            None => listener_certs_error(l, i, cert_ids, k + 1),
        }
    } else {
        None
    }
}

/// The message of the first rule that listener `i` breaks.
pub open spec fn listener_error(ls: Seq<ListenerConfig>, i: int, cert_ids: Seq<String>) -> Option<
    Seq<char>,
> {
    let l = ls[i];
    let id = l.id@;
    if !id_ok(utf8(id)) {
        Some(id_message(id))
    } else if exists|j: int| 0 <= j < i && (#[trigger] ls[j]).id@ == id {
        Some("duplicate listener id "@ + id)
    } else if exists|j: int| 0 <= j < i && (#[trigger] ls[j]).bind == l.bind {
        Some("duplicate listener bind for "@ + id)
    } else if !protocol_known(l.protocol@) {
        Some("unsupported listener protocol "@ + l.protocol@)
    } else if l.protocol@ == "https"@ {
        if l.certificates@.len() == 0 {
            Some("HTTPS listener "@ + id + " has no certificates"@)
        } else {
            listener_certs_error(l, i as nat, cert_ids, 0)
        }
    } else if l.certificates@.len() != 0 {
        Some("non-HTTPS listener "@ + id + " cannot reference certificates"@)
    } else {
        None
    }
}

/// The first listener error from position `i` on.
pub open spec fn listeners_error(ls: Seq<ListenerConfig>, cert_ids: Seq<String>, i: int) -> Option<
    Seq<char>,
>
    decreases ls.len() - i,
{
    if 0 <= i < ls.len() {
        match listener_error(ls, i, cert_ids) {
            Some(m) => Some(m),
            None => listeners_error(ls, cert_ids, i + 1),
        }
    } else {
        None
    }
}

fn check_listener(ls: &Vec<ListenerConfig>, i: usize, cert_ids: &Vec<String>) -> (r: Result<
    (),
    ConfigError,
>)
    requires
        i < ls@.len(),
    ensures
        r is Ok <==> listener_ok(ls@, i as int, cert_ids@),
        match listener_error(ls@, i as int, cert_ids@) {
            Some(m) => r matches Err(ConfigError::Invalid(e)) && e@ == m,
            None => r is Ok,
        },
{
    let l = &ls[i];
    let id = l.id.as_str();
    match valid_id(id) {
        Ok(()) => {},
        Err(e) => {
            return Err(e);
        },
    }
    let mut j: usize = 0;
    while j < i
        invariant
            i < ls@.len(),
            *l == ls@[i as int],
            id@ == l.id@,
            j <= i,
            forall|k: int| 0 <= k < j ==> (#[trigger] ls@[k]).id@ != l.id@,
            id_ok(utf8(id@)),
        decreases i - j,
    {
        if str_eq(ls[j].id.as_str(), id) {
            return Err(ConfigError::Invalid(join2("duplicate listener id ", id)));
        }
        j += 1;
    }
    let mut j: usize = 0;
    while j < i
        invariant
            i < ls@.len(),
            *l == ls@[i as int],
            j <= i,
            forall|k: int| 0 <= k < j ==> (#[trigger] ls@[k]).bind != l.bind,
            id@ == l.id@,
            id_ok(utf8(l.id@)),
            forall|k: int| 0 <= k < i ==> (#[trigger] ls@[k]).id@ != l.id@,
        decreases i - j,
    {
        if ls[j].bind == l.bind {
            return Err(ConfigError::Invalid(join2("duplicate listener bind for ", id)));
        }
        j += 1;
    }
    let p = l.protocol.as_str();
    if !(str_eq(p, "http") || str_eq(p, "https") || str_eq(p, "tcp") || str_eq(
        p,
        "tls_passthrough",
    )) {
        return Err(ConfigError::Invalid(join2("unsupported listener protocol ", p)));
    }
    if str_eq(p, "https") {
        if l.certificates.len() == 0 {
            return Err(ConfigError::Invalid(join3("HTTPS listener ", id, " has no certificates")));
        }
        let li = decimal(i);
        let mut k: usize = 0;
        while k < l.certificates.len()
            invariant
                i < ls@.len(),
                *l == ls@[i as int],
                k <= l.certificates@.len(),
                forall|a: int, b: int|
                    0 <= a < b < k ==> (#[trigger] l.certificates@[a])@ != (
                    #[trigger] l.certificates@[b])@,
                forall|m: int|
                    0 <= m < k ==> contains_string(cert_ids@, (#[trigger] l.certificates@[m])@),
                li@ == decimal_text(i as nat),
                listener_certs_error(*l, i as nat, cert_ids@, 0) == listener_certs_error(
                    *l,
                    i as nat,
                    cert_ids@,
                    k as int,
                ),
                listener_error(ls@, i as int, cert_ids@) == listener_certs_error(
                    *l,
                    i as nat,
                    cert_ids@,
                    0,
                ),
            decreases l.certificates@.len() - k,
        {
            let certificate = l.certificates[k].as_str();
            let ki = decimal(k);
            let place = join4("listeners[", li.as_str(), "].certificates[", ki.as_str());
            let mut m: usize = 0;
            while m < k
                invariant
                    i < ls@.len(),
                    *l == ls@[i as int],
                    k < l.certificates@.len(),
                    m <= k,
                    certificate@ == l.certificates@[k as int]@,
                    forall|a: int| 0 <= a < m ==> (#[trigger] l.certificates@[a])@ != certificate@,
                    place@ == certificate_place(i as nat, k as nat),
                    listener_error(ls@, i as int, cert_ids@) == listener_certs_error(
                        *l,
                        i as nat,
                        cert_ids@,
                        k as int,
                    ),
                    listener_certs_error(*l, i as nat, cert_ids@, k as int) == listener_cert_error(
                        *l,
                        i as nat,
                        cert_ids@,
                        k as int,
                    ) || listener_cert_error(*l, i as nat, cert_ids@, k as int) is None,
                decreases k - m,
            {
                if str_eq(l.certificates[m].as_str(), certificate) {
                    let what = join3(place.as_str(), "] duplicates certificate ", certificate);
                    return Err(ConfigError::Invalid(what));
                }
                m += 1;
            }
            if !vec_contains_str(cert_ids, certificate) {
                let what = join3(place.as_str(), "] references unknown certificate ", certificate);
                return Err(ConfigError::Invalid(what));
            }
            k += 1;
        }
    } else if l.certificates.len() != 0 {
        return Err(
            ConfigError::Invalid(join3("non-HTTPS listener ", id, " cannot reference certificates")),
        );
    }
    Ok(())
}

pub open spec fn listeners_ok(c: Config, cert_ids: Seq<String>) -> bool {
    forall|i: int| 0 <= i < c.listeners@.len() ==> #[trigger] listener_ok(c.listeners@, i, cert_ids)
}

fn check_listeners(config: &Config, cert_ids: &Vec<String>) -> (r: Result<(), ConfigError>)
    ensures
        r is Ok <==> listeners_ok(*config, cert_ids@),
        match listeners_error(config.listeners@, cert_ids@, 0) {
            Some(m) => r matches Err(ConfigError::Invalid(e)) && e@ == m,
            None => r is Ok,
        },
{
    let mut i: usize = 0;
    while i < config.listeners.len()
        invariant
            i <= config.listeners@.len(),
            forall|j: int| 0 <= j < i ==> #[trigger] listener_ok(config.listeners@, j, cert_ids@),
            listeners_error(config.listeners@, cert_ids@, 0) == listeners_error(
                config.listeners@,
                cert_ids@,
                i as int,
            ),
        decreases config.listeners@.len() - i,
    {
        match check_listener(&config.listeners, i, cert_ids) {
            Ok(()) => {},
            Err(e) => {
                return Err(e);
            },
        }
        i += 1;
    }
    Ok(())
}


/// Endpoint `k` of group `g`: valid ID unique in the group, weight
/// 1..=10000, a bounded absolute `http`, `https` or `tcp` URL with host and
/// port and no credentials, query or fragment; TLS settings only for HTTPS
/// (which needs an exact server name); an allowed IP literal or a valid DNS
/// name as host.
pub open spec fn endpoint_ok(g: UpstreamGroupConfig, k: int) -> bool {
    let e = g.endpoints@[k];
    let u = e.url@;
    &&& id_ok(utf8(e.id@))
    &&& forall|m: int| 0 <= m < k ==> (#[trigger] g.endpoints@[m]).id@ != e.id@
    &&& 1 <= e.weight <= 10_000
    &&& (u.scheme == "http"@ || u.scheme == "https"@ || u.scheme == "tcp"@)
    &&& u.host is Some
    &&& u.port is Some
    &&& utf8(u.serialization).len() <= 2_048
    &&& u.username.len() == 0
    &&& !u.has_password
    &&& u.query is None
    &&& u.fragment is None
    &&& if u.scheme == "https"@ {
        &&& e.server_name is Some
        &&& !starts_with(utf8(e.server_name->0@), seq![0x2au8, 0x2eu8])
        &&& cert_host_ok(utf8(e.server_name->0@))
        &&& match e.ca_bundle {
            Some(c) => secret_ref_ok(utf8(c@)),
            None => true,
        }
    } else {
        e.server_name is None && e.ca_bundle is None
    }
    &&& match std_ip_from_str(u.host->0) {
        Some(ip) => egress_refusal(ip, g.allowed_cidrs@, g.denied_cidrs@) is None,
        None => upstream_host_ok(utf8(u.host->0)),
    }
}

/// Sum of the endpoint weights.
pub open spec fn weight_total(es: Seq<EndpointConfig>) -> int
    decreases es.len(),
{
    if es.len() == 0 {
        0
    } else {
        weight_total(es.drop_last()) + es.last().weight
    }
}

pub open spec fn group_is_tcp(g: UpstreamGroupConfig) -> bool {
    g.endpoints@.len() > 0 && g.endpoints@[0].url@.scheme == "tcp"@
}

/// Group `i`: valid unique ID, 1..=256 endpoints, bounded CIDR lists, a safe
/// policy, valid endpoints with total weight at most 1000000, one transport
/// family, and for raw TCP a TCP probe and no retries.
pub open spec fn group_entry_ok(gs: Seq<UpstreamGroupConfig>, i: int) -> bool {
    let g = gs[i];
    &&& id_ok(utf8(g.id@))
    &&& forall|j: int| 0 <= j < i ==> (#[trigger] gs[j]).id@ != g.id@
    &&& 1 <= g.endpoints@.len() <= MAX_ENDPOINTS_PER_GROUP
    &&& g.allowed_cidrs@.len() <= 256
    &&& g.denied_cidrs@.len() <= 256
    &&& upstream_policy_ok(g)
    &&& forall|k: int| 0 <= k < g.endpoints@.len() ==> #[trigger] endpoint_ok(g, k)
    &&& weight_total(g.endpoints@) <= 1_000_000
    &&& forall|k: int|
        0 <= k < g.endpoints@.len() ==> ((#[trigger] g.endpoints@[k]).url@.scheme == "tcp"@)
            == group_is_tcp(g)
    &&& (group_is_tcp(g) ==> !(g.health matches Some(h) && h.kind == HealthCheckKind::Http))
    &&& (group_is_tcp(g) ==> g.retry == RetryConfig::spec_default())
}

/// Total number of endpoints over all groups.
pub open spec fn endpoint_count(gs: Seq<UpstreamGroupConfig>) -> int
    decreases gs.len(),
{
    if gs.len() == 0 {
        0
    } else {
        endpoint_count(gs.drop_last()) + gs.last().endpoints@.len()
    }
}

/// Total in-flight capacity over all groups.
pub open spec fn group_in_flight(gs: Seq<UpstreamGroupConfig>) -> int
    decreases gs.len(),
{
    if gs.len() == 0 {
        0
    } else {
        group_in_flight(gs.drop_last()) + gs.last().max_in_flight
    }
}

pub open spec fn groups_ok(c: Config) -> bool {
    let gs = c.upstream_groups@;
    &&& forall|i: int| 0 <= i < gs.len() ==> #[trigger] group_entry_ok(gs, i)
    &&& endpoint_count(gs) <= MAX_TOTAL_ENDPOINTS
    &&& group_in_flight(gs) <= 100_000
}

/// The text `upstream_groups[<gi>].endpoints[<k>`.
pub open spec fn endpoint_place(gi: nat, k: nat) -> Seq<char> {
    "upstream_groups["@ + decimal_text(gi) + "].endpoints["@ + decimal_text(k)
}

/// The message of the first rule that endpoint `k` of group `g` (at
/// position `gi`) breaks.
#[verifier::opaque]
pub open spec fn endpoint_error(g: UpstreamGroupConfig, gi: nat, k: int) -> Option<Seq<char>> {
    let e = g.endpoints@[k];
    let u = e.url@;
    let id = e.id@;
    let https = u.scheme == "https"@;
    let http = u.scheme == "http"@;
    if !id_ok(utf8(id)) {
        Some(id_message(id))
    } else if exists|m: int| 0 <= m < k && (#[trigger] g.endpoints@[m]).id@ == id {
        Some("duplicate endpoint id "@ + id + " in group "@ + g.id@)
    } else if !(1 <= e.weight <= 10_000) {
        Some(endpoint_place(gi, k as nat) + "].weight is outside 1..=10000"@)
    } else if !((http || https || u.scheme == "tcp"@) && u.host is Some && u.port is Some) {
        Some("endpoint "@ + id + " URL must be absolute http(s) or tcp with an explicit port"@)
    } else if !(utf8(u.serialization).len() <= 2_048 && u.username.len() == 0 && !u.has_password
        && u.query is None && u.fragment is None) {
        Some(
            endpoint_place(gi, k as nat)
                + "].url must be bounded and contain no credentials, query, or fragment"@,
        )
    } else if endpoint_tls_error(e) is Some {
        endpoint_tls_error(e)
    } else {
        endpoint_host_error(g, e)
    }
}

/// The message of the first server-name or CA-bundle rule that endpoint
/// `e` breaks: HTTPS needs an exact server name and may name a CA bundle;
/// HTTP and TCP endpoints set neither.
pub open spec fn endpoint_tls_error(e: EndpointConfig) -> Option<Seq<char>> {
    let u = e.url@;
    let id = e.id@;
    let https = u.scheme == "https"@;
    let http = u.scheme == "http"@;
    if e.server_name is Some && https && starts_with(
        utf8(e.server_name->0@),
        seq![0x2au8, 0x2eu8],
    ) {
        Some("HTTPS endpoint "@ + id + " requires an exact server_name"@)
    } else if e.server_name is Some && https && !cert_host_ok(utf8(e.server_name->0@)) {
        Some(cert_host_message(e.server_name->0@))
    } else if e.server_name is Some && http {
        Some("HTTP endpoint "@ + id + " cannot set server_name"@)
    } else if e.server_name is Some && !https {
        Some("TCP endpoint "@ + id + " cannot set server_name"@)
    } else if e.server_name is None && https {
        Some("HTTPS endpoint "@ + id + " requires an exact server_name"@)
    } else if e.ca_bundle is Some && https && !secret_ref_ok(utf8(e.ca_bundle->0@)) {
        Some("endpoint "@ + id + " has invalid CA bundle reference"@)
    } else if e.ca_bundle is Some && http {
        Some("HTTP endpoint "@ + id + " cannot set ca_bundle"@)
    } else if e.ca_bundle is Some && !https {
        Some("TCP endpoint "@ + id + " cannot set ca_bundle"@)
    } else {
        None
    }
}

/// The message of the egress or DNS-name rule that endpoint `e`'s host
/// breaks.
pub open spec fn endpoint_host_error(g: UpstreamGroupConfig, e: EndpointConfig) -> Option<Seq<char>> {
    let host = e.url@.host->0;
    match std_ip_from_str(host) {
        Some(ip) => match egress_refusal(ip, g.allowed_cidrs@, g.denied_cidrs@) {
            Some(code) => Some(
                "endpoint "@ + (e.id@ + " is not allowed: "@ + egress_refusal_text(code)),
            ),
            None => None,
        },
        None => if !upstream_host_ok(utf8(host)) {
            Some(
                "endpoint "@ + (e.id@ + " has invalid DNS name: "@ + upstream_host_reason(
                    utf8(host),
                )),
            )
        } else {
            None
        },
    }
}

/// The first endpoint error of group `g` from position `k` on, each
/// endpoint followed by the running weight bound.
pub open spec fn endpoints_error(g: UpstreamGroupConfig, gi: nat, k: int) -> Option<Seq<char>>
    decreases g.endpoints@.len() - k,
{
    if 0 <= k < g.endpoints@.len() {
        if endpoint_error(g, gi, k) is Some {
            endpoint_error(g, gi, k)
        } else if weight_total(g.endpoints@.take(k + 1)) > 1_000_000 {
            Some("upstream_groups["@ + decimal_text(gi) + "] total endpoint weight exceeds 1000000"@)
        } else {
            endpoints_error(g, gi, k + 1)
        }
    } else {
        None
    }
}

/// The message of the first rule that group `i` breaks.
pub open spec fn group_error(gs: Seq<UpstreamGroupConfig>, i: int) -> Option<Seq<char>> {
    let g = gs[i];
    let id = g.id@;
    let place = "upstream_groups["@ + decimal_text(i as nat);
    if !id_ok(utf8(id)) {
        Some(id_message(id))
    } else if exists|j: int| 0 <= j < i && (#[trigger] gs[j]).id@ == id {
        Some("duplicate upstream group "@ + id)
    } else if g.endpoints@.len() == 0 {
        Some("upstream group "@ + id + " has no endpoints"@)
    } else if g.endpoints@.len() > MAX_ENDPOINTS_PER_GROUP {
        Some(place + "].endpoints exceeds 256 entries"@)
    } else if g.allowed_cidrs@.len() > 256 {
        Some(place + "].allowed_cidrs exceeds 256 entries"@)
    } else if g.denied_cidrs@.len() > 256 {
        Some(place + "].denied_cidrs exceeds 256 entries"@)
    } else if upstream_policy_error(i as nat, g) is Some {
        upstream_policy_error(i as nat, g)
    } else if endpoints_error(g, i as nat, 0) is Some {
        endpoints_error(g, i as nat, 0)
    } else if exists|k: int|
        0 <= k < g.endpoints@.len() && ((#[trigger] g.endpoints@[k]).url@.scheme == "tcp"@)
            != group_is_tcp(g) {
        Some(place + "] mixes HTTP-family and TCP endpoints"@)
    } else if group_is_tcp(g) && (g.health matches Some(h) && h.kind == HealthCheckKind::Http) {
        Some(place + "].health must use kind = \"tcp\" for TCP endpoints"@)
    } else if group_is_tcp(g) && g.retry != RetryConfig::spec_default() {
        Some(place + "].retry is unsupported for raw TCP endpoints"@)
    } else {
        None
    }
}

/// The first group error from position `i` on, each group preceded by the
/// running endpoint bound and followed by the running in-flight bound.
pub open spec fn groups_error(gs: Seq<UpstreamGroupConfig>, i: int) -> Option<Seq<char>>
    decreases gs.len() - i,
{
    if 0 <= i < gs.len() {
        let n = gs[i].endpoints@.len();
        if n <= MAX_ENDPOINTS_PER_GROUP && endpoint_count(gs.take(i + 1)) > MAX_TOTAL_ENDPOINTS {
            Some("total upstream endpoint count exceeds 4096"@)
        } else if group_error(gs, i) is Some {
            group_error(gs, i)
        } else if group_in_flight(gs.take(i + 1)) > 100_000 {
            Some("aggregate upstream in-flight capacity exceeds 100000"@)
        } else {
            groups_error(gs, i + 1)
        }
    } else {
        None
    }
}

#[verifier::loop_isolation(false)]
fn check_endpoint(g: &UpstreamGroupConfig, group_index: usize, k: usize) -> (r: Result<
    (),
    ConfigError,
>)
    requires
        k < g.endpoints@.len(),
    ensures
        r is Ok <==> endpoint_ok(*g, k as int),
        match endpoint_error(*g, group_index as nat, k as int) {
            Some(m) => r matches Err(ConfigError::Invalid(e)) && e@ == m,
            None => r is Ok,
        },
{
    reveal(endpoint_error);
    let e = &g.endpoints[k];
    let id = e.id.as_str();
    match valid_id(id) {
        Ok(()) => {},
        Err(e) => {
            return Err(e);
        },
    }
    let mut m: usize = 0;
    while m < k
        invariant
            k < g.endpoints@.len(),
            *e == g.endpoints@[k as int],
            id@ == e.id@,
            m <= k,
            forall|j: int| 0 <= j < m ==> (#[trigger] g.endpoints@[j]).id@ != e.id@,
        decreases k - m,
    {
        if str_eq(g.endpoints[m].id.as_str(), id) {
            return Err(
                ConfigError::Invalid(
                    join4("duplicate endpoint id ", id, " in group ", g.id.as_str()),
                ),
            );
        }
        m += 1;
    }
    let gi = decimal(group_index);
    let ki = decimal(k);
    let place = join4("upstream_groups[", gi.as_str(), "].endpoints[", ki.as_str());
    if e.weight == 0 || e.weight > 10_000 {
        return Err(ConfigError::Invalid(join2(place.as_str(), "].weight is outside 1..=10000")));
    }
    let url = &e.url;
    let scheme = url.scheme();
    let https = str_eq(scheme, "https");
    let http = str_eq(scheme, "http");
    let tcp = str_eq(scheme, "tcp");
    if !(http || https || tcp) || url.host_str().is_none() || url.port().is_none() {
        return Err(
            ConfigError::Invalid(
                join3(
                    "endpoint ",
                    id,
                    " URL must be absolute http(s) or tcp with an explicit port",
                ),
            ),
        );
    }
    if url.as_str().as_bytes().len() > 2_048 || url.username().as_bytes().len() != 0
        || url.has_password() || url.has_query() || url.has_fragment() {
        return Err(
            ConfigError::Invalid(
                join2(
                    place.as_str(),
                    "].url must be bounded and contain no credentials, query, or fragment",
                ),
            ),
        );
    }
    let wild: [u8; 2] = [0x2a, 0x2e];
    assert(wild@ =~= seq![0x2au8, 0x2eu8]);
    match &e.server_name {
        Some(server_name) => {
            if https {
                if slice_starts_with(server_name.as_str().as_bytes(), wild.as_slice()) {
                    return Err(
                        ConfigError::Invalid(
                            join3("HTTPS endpoint ", id, " requires an exact server_name"),
                        ),
                    );
                }
                match valid_certificate_host(server_name.as_str()) {
                    Ok(()) => {},
                    Err(err) => {
                        return Err(err);
                    },
                }
            } else if http {
                return Err(
                    ConfigError::Invalid(join3("HTTP endpoint ", id, " cannot set server_name")),
                );
            } else {
                return Err(
                    ConfigError::Invalid(join3("TCP endpoint ", id, " cannot set server_name")),
                );
            }
        },
        None => {
            if https {
                return Err(
                    ConfigError::Invalid(
                        join3("HTTPS endpoint ", id, " requires an exact server_name"),
                    ),
                );
            }
        },
    }
    proof {
        reveal_strlit("https");
        reveal_strlit("http");
        assert("https"@.len() != "http"@.len());
    }
    match &e.ca_bundle {
        Some(reference) => {
            if https {
                if !secret_ref_valid(reference.as_str()) {
                    return Err(
                        ConfigError::Invalid(
                            join3("endpoint ", id, " has invalid CA bundle reference"),
                        ),
                    );
                }
            } else if http {
                return Err(ConfigError::Invalid(join3("HTTP endpoint ", id, " cannot set ca_bundle")));
            } else {
                return Err(ConfigError::Invalid(join3("TCP endpoint ", id, " cannot set ca_bundle")));
            }
        },
        None => {},
    }
    let host = match url.host_str() {
        Some(h) => h,
        None => "",
    };
    match IpAddress::parse(host) {
        Some(ip) => {
            match validate_egress_ip(ip, g.allowed_cidrs.as_slice(), g.denied_cidrs.as_slice()) {
                Ok(()) => {},
                Err(reason) => {
                    let what = join3(id, " is not allowed: ", reason);
                    return Err(ConfigError::Invalid(join2("endpoint ", what.as_str())));
                },
            }
        },
        None => {
            match valid_upstream_host(host) {
                Ok(()) => {},
                Err(reason) => {
                    let what = join3(id, " has invalid DNS name: ", reason);
                    return Err(ConfigError::Invalid(join2("endpoint ", what.as_str())));
                },
            }
        },
    }
    Ok(())
}


proof fn lemma_weight_total_monotone(es: Seq<EndpointConfig>, i: int)
    requires
        0 <= i <= es.len(),
    ensures
        weight_total(es.take(i)) <= weight_total(es),
    decreases es.len() - i,
{
    if i < es.len() {
        lemma_weight_total_monotone(es, i + 1);
        assert(es.take(i + 1).drop_last() =~= es.take(i));
    } else {
        assert(es.take(i) =~= es);
    }
}

#[verifier::loop_isolation(false)]
fn check_group(gs: &Vec<UpstreamGroupConfig>, i: usize) -> (r: Result<(), ConfigError>)
    requires
        i < gs@.len(),
    ensures
        r is Ok <==> group_entry_ok(gs@, i as int),
        match group_error(gs@, i as int) {
            Some(m) => r matches Err(ConfigError::Invalid(e)) && e@ == m,
            None => r is Ok,
        },
{
    let g = &gs[i];
    let id = g.id.as_str();
    match valid_id(id) {
        Ok(()) => {},
        Err(e) => {
            return Err(e);
        },
    }
    let mut j: usize = 0;
    while j < i
        invariant
            i < gs@.len(),
            *g == gs@[i as int],
            id@ == g.id@,
            j <= i,
            forall|k: int| 0 <= k < j ==> (#[trigger] gs@[k]).id@ != g.id@,
        decreases i - j,
    {
        if str_eq(gs[j].id.as_str(), id) {
            return Err(ConfigError::Invalid(join2("duplicate upstream group ", id)));
        }
        j += 1;
    }
    if g.endpoints.len() == 0 {
        return Err(ConfigError::Invalid(join3("upstream group ", id, " has no endpoints")));
    }
    let gi = decimal(i);
    if g.endpoints.len() > MAX_ENDPOINTS_PER_GROUP {
        return Err(
            ConfigError::Invalid(
                join3("upstream_groups[", gi.as_str(), "].endpoints exceeds 256 entries"),
            ),
        );
    }
    if g.allowed_cidrs.len() > 256 {
        return Err(
            ConfigError::Invalid(
                join3("upstream_groups[", gi.as_str(), "].allowed_cidrs exceeds 256 entries"),
            ),
        );
    }
    if g.denied_cidrs.len() > 256 {
        return Err(
            ConfigError::Invalid(
                join3("upstream_groups[", gi.as_str(), "].denied_cidrs exceeds 256 entries"),
            ),
        );
    }
    match validate_upstream_policy(i, g) {
        Ok(()) => {},
        Err(e) => {
            return Err(e);
        },
    }
    let mut total_weight: u64 = 0;
    let mut k: usize = 0;
    while k < g.endpoints.len()
        invariant
            i < gs@.len(),
            *g == gs@[i as int],
            k <= g.endpoints@.len(),
            forall|m: int| 0 <= m < k ==> #[trigger] endpoint_ok(*g, m),
            total_weight == weight_total(g.endpoints@.take(k as int)),
            total_weight <= 1_000_000,
            endpoints_error(*g, i as nat, 0) == endpoints_error(*g, i as nat, k as int),
        decreases g.endpoints@.len() - k,
    {
        match check_endpoint(g, i, k) {
            Ok(()) => {},
            Err(e) => {
                return Err(e);
            },
        }
        assert(g.endpoints@.take(k + 1).drop_last() =~= g.endpoints@.take(k as int));
        total_weight = total_weight + g.endpoints[k].weight as u64;
        if total_weight > 1_000_000 {
            proof {
                lemma_weight_total_monotone(g.endpoints@, k + 1);
            }
            return Err(
                ConfigError::Invalid(
                    join3("upstream_groups[", gi.as_str(), "] total endpoint weight exceeds 1000000"),
                ),
            );
        }
        k += 1;
    }
    assert(g.endpoints@.take(g.endpoints@.len() as int) =~= g.endpoints@);
    let is_tcp = str_eq(g.endpoints[0].url.scheme(), "tcp");
    let mut k: usize = 0;
    while k < g.endpoints.len()
        invariant
            i < gs@.len(),
            *g == gs@[i as int],
            is_tcp == group_is_tcp(*g),
            k <= g.endpoints@.len(),
            forall|m: int|
                0 <= m < k ==> ((#[trigger] g.endpoints@[m]).url@.scheme == "tcp"@) == is_tcp,
        decreases g.endpoints@.len() - k,
    {
        if str_eq(g.endpoints[k].url.scheme(), "tcp") != is_tcp {
            return Err(
                ConfigError::Invalid(
                    join3("upstream_groups[", gi.as_str(), "] mixes HTTP-family and TCP endpoints"),
                ),
            );
        }
        k += 1;
    }
    if is_tcp {
        match &g.health {
            Some(h) => {
                if h.kind == HealthCheckKind::Http {
                    return Err(
                        ConfigError::Invalid(
                            join3(
                                "upstream_groups[",
                                gi.as_str(),
                                "].health must use kind = \"tcp\" for TCP endpoints",
                            ),
                        ),
                    );
                }
            },
            None => {},
        }
        if g.retry != RetryConfig::default() {
            return Err(
                ConfigError::Invalid(
                    join3(
                        "upstream_groups[",
                        gi.as_str(),
                        "].retry is unsupported for raw TCP endpoints",
                    ),
                ),
            );
        }
    }
    Ok(())
}

proof fn lemma_group_sums_monotone(gs: Seq<UpstreamGroupConfig>, i: int)
    requires
        0 <= i <= gs.len(),
    ensures
        endpoint_count(gs.take(i)) <= endpoint_count(gs),
        group_in_flight(gs.take(i)) <= group_in_flight(gs),
    decreases gs.len() - i,
{
    if i < gs.len() {
        lemma_group_sums_monotone(gs, i + 1);
        assert(gs.take(i + 1).drop_last() =~= gs.take(i));
    } else {
        assert(gs.take(i) =~= gs);
    }
}

fn check_groups(config: &Config) -> (r: Result<(), ConfigError>)
    ensures
        r is Ok <==> groups_ok(*config),
        match groups_error(config.upstream_groups@, 0) {
            Some(m) => r matches Err(ConfigError::Invalid(e)) && e@ == m,
            None => r is Ok,
        },
{
    let gs = &config.upstream_groups;
    let mut total_endpoints: usize = 0;
    let mut total_in_flight: usize = 0;
    let mut i: usize = 0;
    while i < gs.len()
        invariant
            *gs == config.upstream_groups,
            i <= gs@.len(),
            forall|j: int| 0 <= j < i ==> #[trigger] group_entry_ok(gs@, j),
            total_endpoints == endpoint_count(gs@.take(i as int)),
            total_in_flight == group_in_flight(gs@.take(i as int)),
            total_endpoints <= MAX_TOTAL_ENDPOINTS,
            total_in_flight <= 100_000,
            groups_error(gs@, 0) == groups_error(gs@, i as int),
        decreases gs@.len() - i,
    {
        assert(gs@.take(i + 1).drop_last() =~= gs@.take(i as int));
        let n = gs[i].endpoints.len();
        if n <= MAX_ENDPOINTS_PER_GROUP && n > MAX_TOTAL_ENDPOINTS - total_endpoints {
            proof {
                lemma_group_sums_monotone(gs@, i + 1);
            }
            return Err(ConfigError::invalid("total upstream endpoint count exceeds 4096"));
        }
        match check_group(gs, i) {
            Ok(()) => {},
            Err(e) => {
                return Err(e);
            },
        }
        total_endpoints = total_endpoints + n;
        if gs[i].max_in_flight > 100_000 - total_in_flight {
            proof {
                lemma_group_sums_monotone(gs@, i + 1);
            }
            return Err(
                ConfigError::invalid("aggregate upstream in-flight capacity exceeds 100000"),
            );
        }
        total_in_flight = total_in_flight + gs[i].max_in_flight;
        i += 1;
    }
    assert(gs@.take(gs@.len() as int) =~= gs@);
    Ok(())
}


/// The first upstream group named `name`.
pub open spec fn find_first_group(gs: Seq<UpstreamGroupConfig>, name: Seq<char>) -> Option<
    UpstreamGroupConfig,
>
    decreases gs.len(),
{
    if gs.len() == 0 {
        None
    } else if gs[0].id@ == name {
        Some(gs[0])
    } else {
        find_first_group(gs.drop_first(), name)
    }
}

fn first_group<'a>(gs: &'a Vec<UpstreamGroupConfig>, name: &str) -> (r: Option<
    &'a UpstreamGroupConfig,
>)
    ensures
        r is Some <==> find_first_group(gs@, name@) is Some,
        r matches Some(g) ==> *g == find_first_group(gs@, name@)->0,
{
    let mut i: usize = 0;
    assert(gs@.skip(0) =~= gs@);
    while i < gs.len()
        invariant
            i <= gs@.len(),
            find_first_group(gs@, name@) == find_first_group(gs@.skip(i as int), name@),
        decreases gs@.len() - i,
    {
        assert(gs@.skip(i as int).drop_first() =~= gs@.skip(i + 1));
        assert(gs@.skip(i as int)[0] == gs@[i as int]);
        if str_eq(gs[i].id.as_str(), name) {
            return Some(&gs[i]);
        }
        i += 1;
    }
    assert(gs@.skip(i as int).len() == 0);
    None
}

/// The protocol of the first listener named `name`, or the empty text.
pub open spec fn listener_proto(c: Config, name: Seq<char>) -> Seq<char> {
    match find_listener(c.listeners@, name) {
        Some(l) => l.protocol@,
        None => Seq::empty(),
    }
}

/// Protocol family: 0 HTTP or HTTPS, 1 plain TCP, 2 TLS passthrough.
pub open spec fn family(p: Seq<char>) -> int {
    if p == "http"@ || p == "https"@ {
        0
    } else if p == "tcp"@ {
        1
    } else if p == "tls_passthrough"@ {
        2
    } else {
        3
    }
}

fn family_exec(p: &str) -> (r: u8)
    ensures
        r as int == family(p@),
{
    if str_eq(p, "http") || str_eq(p, "https") {
        0
    } else if str_eq(p, "tcp") {
        1
    } else if str_eq(p, "tls_passthrough") {
        2
    } else {
        3
    }
}

fn listener_protocol<'a>(config: &'a Config, name: &str) -> (r: &'a str)
    ensures
        r@ == listener_proto(*config, name@),
{
    match first_listener(&config.listeners, name) {
        Some(l) => l.protocol.as_str(),
        None => {
            proof {
                reveal_strlit("");
            }
            ""
        },
    }
}

/// Route `i`: valid unique ID, 1..=32 distinct listeners that exist, bounded
/// matcher and middleware counts, valid matchers, an existing upstream.
pub open spec fn route_shape_ok(c: Config, i: int) -> bool {
    let routes = c.routes@;
    let r = routes[i];
    &&& id_ok(utf8(r.id@))
    &&& forall|j: int| 0 <= j < i ==> (#[trigger] routes[j]).id@ != r.id@
    &&& 1 <= r.listeners@.len() <= 32
    &&& distinct_strings(r.listeners@)
    &&& r.hosts@.len() <= 64
    &&& r.paths@.len() <= 64
    &&& r.path_prefixes@.len() <= 64
    &&& r.methods@.len() <= 32
    &&& r.headers@.len() <= 32
    &&& r.middlewares@.len() <= 64
    &&& route_matchers_ok(r)
    &&& (r.upstream_group matches Some(g) ==> find_first_group(c.upstream_groups@, g@) is Some)
    &&& forall|k: int|
        0 <= k < r.listeners@.len() ==> find_listener(c.listeners@, (#[trigger] r.listeners@[k])@)
            is Some
}

/// The first listener reference of route `r` (at position `i`) that names
/// no listener, from position `k` on, as its message.
pub open spec fn route_listeners_error(c: Config, r: RouteConfig, i: nat, k: int) -> Option<
    Seq<char>,
>
    decreases r.listeners@.len() - k,
{
    if 0 <= k < r.listeners@.len() {
        if find_listener(c.listeners@, r.listeners@[k]@) is None {
            Some(
                "routes["@ + decimal_text(i) + "].listeners["@ + decimal_text(k as nat)
                    + "] references unknown listener "@ + r.listeners@[k]@,
            )
        } else {
            route_listeners_error(c, r, i, k + 1)
        }
    } else {
        None
    }
}

/// The message of the first shape rule that route `i` breaks.
pub open spec fn route_shape_error(c: Config, i: int) -> Option<Seq<char>> {
    let routes = c.routes@;
    let r = routes[i];
    let id = r.id@;
    if !id_ok(utf8(id)) {
        Some(id_message(id))
    } else if exists|j: int| 0 <= j < i && (#[trigger] routes[j]).id@ == id {
        Some("duplicate route id "@ + id)
    } else if !(1 <= r.listeners@.len() <= 32) {
        Some("route "@ + id + " listeners must contain 1..=32 entries"@)
    } else if !distinct_strings(r.listeners@) {
        Some("route "@ + id + " contains a duplicate reference in "@ + "listener"@)
    } else if !(r.hosts@.len() <= 64 && r.paths@.len() <= 64 && r.path_prefixes@.len() <= 64
        && r.methods@.len() <= 32 && r.headers@.len() <= 32 && r.middlewares@.len() <= 64) {
        Some("route "@ + id + " exceeds a matcher or middleware count limit"@)
    } else if route_matchers_error(r) is Some {
        route_matchers_error(r)
    } else if r.upstream_group is Some && find_first_group(
        c.upstream_groups@,
        r.upstream_group->0@,
    ) is None {
        Some("routes["@ + decimal_text(i as nat) + "].upstream_group references unknown upstream"@)
    } else {
        route_listeners_error(c, r, i as nat, 0)
    }
}

#[verifier::loop_isolation(false)]
fn check_route_shape(config: &Config, i: usize) -> (r: Result<(), ConfigError>)
    requires
        i < config.routes@.len(),
    ensures
        r is Ok <==> route_shape_ok(*config, i as int),
        match route_shape_error(*config, i as int) {
            Some(m) => r matches Err(ConfigError::Invalid(e)) && e@ == m,
            None => r is Ok,
        },
{
    let routes = &config.routes;
    let route = &routes[i];
    let id = route.id.as_str();
    match valid_id(id) {
        Ok(()) => {},
        Err(e) => {
            return Err(e);
        },
    }
    let mut j: usize = 0;
    while j < i
        invariant
            *routes == config.routes,
            i < routes@.len(),
            *route == routes@[i as int],
            id@ == route.id@,
            j <= i,
            forall|k: int| 0 <= k < j ==> (#[trigger] routes@[k]).id@ != route.id@,
        decreases i - j,
    {
        if str_eq(routes[j].id.as_str(), id) {
            return Err(ConfigError::Invalid(join2("duplicate route id ", id)));
        }
        j += 1;
    }
    if route.listeners.len() == 0 || route.listeners.len() > 32 {
        return Err(
            ConfigError::Invalid(join3("route ", id, " listeners must contain 1..=32 entries")),
        );
    }
    match crate::routing::validate_unique_strings(id, "listener", &route.listeners) {
        Ok(()) => {},
        Err(e) => {
            return Err(e);
        },
    }
    if route.hosts.len() > 64 || route.paths.len() > 64 || route.path_prefixes.len() > 64
        || route.methods.len() > 32 || route.headers.len() > 32 || route.middlewares.len() > 64 {
        return Err(
            ConfigError::Invalid(
                join3("route ", id, " exceeds a matcher or middleware count limit"),
            ),
        );
    }
    match crate::routing::validate_route_matchers(route) {
        Ok(()) => {},
        Err(e) => {
            return Err(e);
        },
    }
    let ri = decimal(i);
    match &route.upstream_group {
        Some(g) => {
            if first_group(&config.upstream_groups, g.as_str()).is_none() {
                return Err(
                    ConfigError::Invalid(
                        join3("routes[", ri.as_str(), "].upstream_group references unknown upstream"),
                    ),
                );
            }
        },
        None => {},
    }
    let mut k: usize = 0;
    while k < route.listeners.len()
        invariant
            *routes == config.routes,
            i < routes@.len(),
            *route == routes@[i as int],
            k <= route.listeners@.len(),
            forall|m: int|
                0 <= m < k ==> find_listener(config.listeners@, (#[trigger] route.listeners@[m])@)
                    is Some,
            route_listeners_error(*config, *route, i as nat, 0) == route_listeners_error(
                *config,
                *route,
                i as nat,
                k as int,
            ),
        decreases route.listeners@.len() - k,
    {
        let name = route.listeners[k].as_str();
        if first_listener(&config.listeners, name).is_none() {
            let ki = decimal(k);
            let place = join4("routes[", ri.as_str(), "].listeners[", ki.as_str());
            return Err(
                ConfigError::Invalid(join3(place.as_str(), "] references unknown listener ", name)),
            );
        }
        k += 1;
    }
    Ok(())
}

/// Whether the route's upstream group carries raw TCP.
pub open spec fn upstream_tcp(c: Config, r: RouteConfig) -> bool {
    match r.upstream_group {
        Some(g) => match find_first_group(c.upstream_groups@, g@) {
            Some(x) => group_is_tcp(x),
            None => false,
        },
        None => false,
    }
}

/// The family of the route's first listener.
pub open spec fn route_family(c: Config, r: RouteConfig) -> int {
    family(listener_proto(c, r.listeners@[0]@))
}

/// All listeners share one family, the upstream transport matches it, and
/// TCP-family routes follow the raw TCP route rules.
pub open spec fn route_transport_ok(c: Config, r: RouteConfig) -> bool {
    let fam = route_family(c, r);
    &&& forall|k: int|
        0 <= k < r.listeners@.len() ==> family(listener_proto(c, (#[trigger] r.listeners@[k])@))
            == fam
    &&& !(fam == 0 && r.upstream_group is Some && upstream_tcp(c, r))
    &&& ((fam == 1 || fam == 2) ==> r.upstream_group is Some && upstream_tcp(c, r))
    &&& (fam == 1 ==> tcp_route_ok(r, false))
    &&& (fam == 2 ==> tcp_route_ok(r, true))
}

/// The message of the first transport rule that route `r` breaks.
pub open spec fn route_transport_error(c: Config, r: RouteConfig) -> Option<Seq<char>> {
    let fam = route_family(c, r);
    let id = r.id@;
    if exists|k: int|
        0 <= k < r.listeners@.len() && family(listener_proto(c, (#[trigger] r.listeners@[k])@))
            != fam {
        Some("route "@ + id + " mixes incompatible listener protocols"@)
    } else if fam == 0 && r.upstream_group is Some && upstream_tcp(c, r) {
        Some("route "@ + id + " uses a TCP upstream on an HTTP-family listener"@)
    } else if (fam == 1 || fam == 2) && r.upstream_group is None {
        Some("route "@ + id + " requires a TCP upstream"@)
    } else if (fam == 1 || fam == 2) && !upstream_tcp(c, r) {
        Some("route "@ + id + " uses an HTTP-family upstream on a TCP-family listener"@)
    } else if fam == 1 {
        crate::routing::tcp_route_error(r, false)
    } else if fam == 2 {
        crate::routing::tcp_route_error(r, true)
    } else {
        None
    }
}

#[verifier::loop_isolation(false)]
fn check_route_transport(config: &Config, route: &RouteConfig) -> (r: Result<u8, ConfigError>)
    requires
        route.listeners@.len() >= 1,
    ensures
        r is Ok <==> route_transport_ok(*config, *route),
        r matches Ok(f) ==> f as int == route_family(*config, *route),
        match route_transport_error(*config, *route) {
            Some(m) => r matches Err(ConfigError::Invalid(e)) && e@ == m,
            None => r is Ok,
        },
{
    let id = route.id.as_str();
    let fam = family_exec(listener_protocol(config, route.listeners[0].as_str()));
    let mut k: usize = 0;
    while k < route.listeners.len()
        invariant
            route.listeners@.len() >= 1,
            fam as int == route_family(*config, *route),
            k <= route.listeners@.len(),
            forall|m: int|
                0 <= m < k ==> family(listener_proto(*config, (#[trigger] route.listeners@[m])@))
                    == fam as int,
        decreases route.listeners@.len() - k,
    {
        if family_exec(listener_protocol(config, route.listeners[k].as_str())) != fam {
            return Err(
                ConfigError::Invalid(join3("route ", id, " mixes incompatible listener protocols")),
            );
        }
        k += 1;
    }
    let tcp_upstream = match &route.upstream_group {
        Some(g) => match first_group(&config.upstream_groups, g.as_str()) {
            Some(x) => x.endpoints.len() > 0 && str_eq(x.endpoints[0].url.scheme(), "tcp"),
            None => false,
        },
        None => false,
    };
    if fam == 0 && route.upstream_group.is_some() && tcp_upstream {
        return Err(
            ConfigError::Invalid(
                join3("route ", id, " uses a TCP upstream on an HTTP-family listener"),
            ),
        );
    }
    if (fam == 1 || fam == 2) && route.upstream_group.is_none() {
        return Err(ConfigError::Invalid(join3("route ", id, " requires a TCP upstream")));
    }
    if (fam == 1 || fam == 2) && !tcp_upstream {
        return Err(
            ConfigError::Invalid(
                join3("route ", id, " uses an HTTP-family upstream on a TCP-family listener"),
            ),
        );
    }
    if fam == 1 {
        match crate::routing::validate_tcp_route(route, false) {
            Ok(()) => {},
            Err(e) => {
                return Err(e);
            },
        }
    } else if fam == 2 {
        match crate::routing::validate_tcp_route(route, true) {
            Ok(()) => {},
            Err(e) => {
                return Err(e);
            },
        }
    }
    Ok(fam)
}


/// The pipeline stage of a middleware: 0 redirect, 1 security headers, 2
/// client-IP rate limit, 3 principal rate limit, 4 in-flight limit, 5 IP
/// policy, 6 CORS, 7 authentication, 8 rewrite, 9 header mutation, 10
/// maintenance, 11 custom error, 12 compression.
pub open spec fn stage_kind(m: MiddlewareConfig) -> int {
    match m {
        MiddlewareConfig::Redirect { .. } => 0,
        MiddlewareConfig::SecurityHeaders { .. } => 1,
        MiddlewareConfig::RateLimit { key, .. } => if key == RateLimitKey::ClientIp {
            2
        } else {
            3
        },
        MiddlewareConfig::InFlightLimit { .. } => 4,
        MiddlewareConfig::IpPolicy { .. } => 5,
        MiddlewareConfig::Cors { .. } => 6,
        MiddlewareConfig::BasicAuth { .. } => 7,
        MiddlewareConfig::ForwardAuth { .. } => 7,
        MiddlewareConfig::Rewrite { .. } => 8,
        MiddlewareConfig::HeaderMutation { .. } => 9,
        MiddlewareConfig::Maintenance { .. } => 10,
        MiddlewareConfig::CustomError { .. } => 11,
        MiddlewareConfig::Compression { .. } => 12,
    }
}

fn stage_kind_exec(m: &MiddlewareConfig) -> (r: usize)
    ensures
        r as int == stage_kind(*m),
        r < 13,
{
    match m {
        MiddlewareConfig::Redirect { .. } => 0,
        MiddlewareConfig::SecurityHeaders { .. } => 1,
        MiddlewareConfig::RateLimit { key, .. } => if *key == RateLimitKey::ClientIp {
            2
        } else {
            3
        },
        MiddlewareConfig::InFlightLimit { .. } => 4,
        MiddlewareConfig::IpPolicy { .. } => 5,
        MiddlewareConfig::Cors { .. } => 6,
        MiddlewareConfig::BasicAuth { .. } => 7,
        MiddlewareConfig::ForwardAuth { .. } => 7,
        MiddlewareConfig::Rewrite { .. } => 8,
        MiddlewareConfig::HeaderMutation { .. } => 9,
        MiddlewareConfig::Maintenance { .. } => 10,
        MiddlewareConfig::CustomError { .. } => 11,
        MiddlewareConfig::Compression { .. } => 12,
    }
}

/// How many of the named middlewares belong to stage `k`.
pub open spec fn count_stage(c: Config, names: Seq<String>, k: int) -> int
    decreases names.len(),
{
    if names.len() == 0 {
        0
    } else {
        count_stage(c, names.drop_last(), k) + match c.middlewares.spec_get(names.last()@) {
            Some(d) => if stage_kind(d) == k {
                1int
            } else {
                0int
            },
            None => 0int,
        }
    }
}

/// Whether the last named header mutation changes the request.
pub open spec fn last_request_mutation(c: Config, names: Seq<String>) -> bool
    decreases names.len(),
{
    if names.len() == 0 {
        false
    } else {
        match c.middlewares.spec_get(names.last()@) {
            Some(
                MiddlewareConfig::HeaderMutation { request_set, request_add, request_remove, .. },
            ) => request_set.spec_entries().len() != 0 || request_add.spec_entries().len() != 0
                || request_remove@.len() != 0,
            _ => last_request_mutation(c, names.drop_last()),
        }
    }
}

/// Whether the last named maintenance response runs after authentication.
pub open spec fn last_maintenance_auth(c: Config, names: Seq<String>) -> bool
    decreases names.len(),
{
    if names.len() == 0 {
        false
    } else {
        match c.middlewares.spec_get(names.last()@) {
            Some(MiddlewareConfig::Maintenance { authenticated, .. }) => authenticated,
            _ => last_maintenance_auth(c, names.drop_last()),
        }
    }
}

/// Every listener of the route is HTTPS.
pub open spec fn all_https(c: Config, r: RouteConfig) -> bool {
    forall|k: int|
        0 <= k < r.listeners@.len() ==> listener_proto(c, (#[trigger] r.listeners@[k])@)
            == "https"@
}

/// A referenced middleware exists; HSTS and authentication need HTTPS
/// listeners; ForwardAuth needs an existing HTTP-family group.
pub open spec fn middleware_ref_ok(c: Config, r: RouteConfig, name: Seq<char>) -> bool {
    match c.middlewares.spec_get(name) {
        None => false,
        Some(d) => match d {
            MiddlewareConfig::SecurityHeaders { hsts, .. } => hsts is Some ==> all_https(c, r),
            MiddlewareConfig::BasicAuth { .. } => all_https(c, r),
            MiddlewareConfig::ForwardAuth { upstream_group, .. } => {
                &&& all_https(c, r)
                &&& find_first_group(c.upstream_groups@, upstream_group@) is Some
                &&& forall|e: int|
                    0 <= e < find_first_group(
                        c.upstream_groups@,
                        upstream_group@,
                    )->0.endpoints@.len() ==> (#[trigger] find_first_group(
                        c.upstream_groups@,
                        upstream_group@,
                    )->0.endpoints@[e]).url@.scheme != "tcp"@
            },
            _ => true,
        },
    }
}

/// Stage rules: distinct known middlewares, at most one per stage, exactly
/// one terminal action (proxy, redirect or maintenance), HTTP terminals on
/// HTTP listeners, and the pairing rules between authentication, rate
/// limits, rewrites, mutations, CORS, custom errors and compression.
pub open spec fn route_stages_ok(c: Config, r: RouteConfig, fam: int) -> bool {
    let names = r.middlewares@;
    let redirects = count_stage(c, names, 0);
    let principal = count_stage(c, names, 3);
    let cors = count_stage(c, names, 6);
    let auth = count_stage(c, names, 7);
    let rewrites = count_stage(c, names, 8);
    let mutations = count_stage(c, names, 9);
    let maintenance = count_stage(c, names, 10);
    let custom = count_stage(c, names, 11);
    let compression = count_stage(c, names, 12);
    let proxies = r.upstream_group is Some;
    &&& distinct_strings(names)
    &&& forall|k: int| 0 <= k < names.len() ==> middleware_ref_ok(c, r, (#[trigger] names[k])@)
    &&& forall|k: int| 0 <= k < 13 ==> #[trigger] count_stage(c, names, k) <= 1
    &&& ((proxies && redirects == 0 && maintenance == 0) || (!proxies && redirects == 1
        && maintenance == 0) || (!proxies && redirects == 0 && maintenance == 1))
    &&& ((redirects == 1 || maintenance == 1) ==> fam == 0)
    &&& (redirects == 1 ==> auth == 0)
    &&& (principal != 0 ==> auth == 1)
    &&& (redirects == 1 ==> rewrites == 0)
    &&& (redirects == 1 ==> mutations == 0)
    &&& (maintenance == 1 ==> rewrites == 0)
    &&& (maintenance == 1 ==> !last_request_mutation(c, names) && cors == 0)
    &&& (maintenance == 1 ==> last_maintenance_auth(c, names) == (auth == 1))
    &&& (custom != 0 ==> proxies)
    &&& (compression != 0 ==> proxies)
}

proof fn lemma_count_stage_bounds(c: Config, names: Seq<String>, k: int)
    ensures
        0 <= count_stage(c, names, k) <= names.len(),
    decreases names.len(),
{
    if names.len() > 0 {
        lemma_count_stage_bounds(c, names.drop_last(), k);
    }
}

fn listeners_all_https(config: &Config, route: &RouteConfig) -> (r: bool)
    ensures
        r == all_https(*config, *route),
{
    let mut k: usize = 0;
    while k < route.listeners.len()
        invariant
            k <= route.listeners@.len(),
            forall|m: int|
                0 <= m < k ==> listener_proto(*config, (#[trigger] route.listeners@[m])@)
                    == "https"@,
        decreases route.listeners@.len() - k,
    {
        if !str_eq(listener_protocol(config, route.listeners[k].as_str()), "https") {
            return false;
        }
        k += 1;
    }
    true
}

fn endpoints_have_tcp(g: &UpstreamGroupConfig) -> (r: bool)
    ensures
        r == !(forall|m: int|
            0 <= m < g.endpoints@.len() ==> (#[trigger] g.endpoints@[m]).url@.scheme != "tcp"@),
{
    let mut e: usize = 0;
    while e < g.endpoints.len()
        invariant
            e <= g.endpoints@.len(),
            forall|m: int| 0 <= m < e ==> (#[trigger] g.endpoints@[m]).url@.scheme != "tcp"@,
        decreases g.endpoints@.len() - e,
    {
        if str_eq(g.endpoints[e].url.scheme(), "tcp") {
            return true;
        }
        e += 1;
    }
    false
}

/// The message of the rule that the middleware reference `name` of route
/// `r` breaks.
pub open spec fn middleware_ref_error(c: Config, r: RouteConfig, name: Seq<char>) -> Option<
    Seq<char>,
> {
    let id = r.id@;
    match c.middlewares.spec_get(name) {
        None => Some("route "@ + id + " references unknown middleware "@ + name),
        Some(d) => match d {
            MiddlewareConfig::SecurityHeaders { hsts, .. } => {
                if hsts is Some && !all_https(c, r) {
                    Some("route "@ + id + " applies HSTS to a non-HTTPS listener"@)
                } else {
                    None
                }
            },
            MiddlewareConfig::BasicAuth { .. } => {
                if !all_https(c, r) {
                    Some("route "@ + id + " applies Basic authentication to a non-HTTPS listener"@)
                } else {
                    None
                }
            },
            MiddlewareConfig::ForwardAuth { upstream_group, .. } => {
                let g = find_first_group(c.upstream_groups@, upstream_group@);
                if !all_https(c, r) {
                    Some("route "@ + id + " applies ForwardAuth to a non-HTTPS listener"@)
                } else if g is None {
                    Some(
                        "route "@ + (id + " ForwardAuth references unknown upstream group "@
                            + upstream_group@),
                    )
                } else if exists|e: int|
                    0 <= e < g->0.endpoints@.len() && (#[trigger] g->0.endpoints@[e]).url@.scheme
                        == "tcp"@ {
                    Some("route "@ + id + " ForwardAuth requires an HTTP-family upstream group"@)
                } else {
                    None
                }
            },
            _ => None,
        },
    }
}

/// The first middleware reference error of route `r` from position `k` on.
pub open spec fn middleware_refs_error(c: Config, r: RouteConfig, k: int) -> Option<Seq<char>>
    decreases r.middlewares@.len() - k,
{
    if 0 <= k < r.middlewares@.len() {
        match middleware_ref_error(c, r, r.middlewares@[k]@) {
            Some(m) => Some(m),
            None => middleware_refs_error(c, r, k + 1),
        }
    } else {
        None
    }
}

/// The message of the first stage rule that route `r` (on listener family
/// `fam`) breaks.
pub open spec fn route_stages_error(c: Config, r: RouteConfig, fam: int) -> Option<Seq<char>> {
    let names = r.middlewares@;
    if !distinct_strings(names) {
        Some("route "@ + r.id@ + " contains a duplicate reference in "@ + "middleware"@)
    } else if middleware_refs_error(c, r, 0) is Some {
        middleware_refs_error(c, r, 0)
    } else {
        stage_rules_error(
            r.id@,
            Seq::new(13, |t: int| count_stage(c, names, t) as usize),
            last_request_mutation(c, names),
            last_maintenance_auth(c, names),
            r.upstream_group is Some,
            fam,
        )
    }
}

/// The message of the first rule that route `i` breaks: its shape, then its
/// transport, then its stages.
pub open spec fn route_error(c: Config, i: int) -> Option<Seq<char>> {
    let r = c.routes@[i];
    if route_shape_error(c, i) is Some {
        route_shape_error(c, i)
    } else if route_transport_error(c, r) is Some {
        route_transport_error(c, r)
    } else {
        route_stages_error(c, r, route_family(c, r))
    }
}

fn check_middleware_ref<'a>(config: &'a Config, route: &RouteConfig, name: &str) -> (r: Result<
    &'a MiddlewareConfig,
    ConfigError,
>)
    ensures
        r is Ok <==> middleware_ref_ok(*config, *route, name@),
        r matches Ok(d) ==> config.middlewares.spec_get(name@) == Some(*d),
        match middleware_ref_error(*config, *route, name@) {
            Some(m) => r matches Err(ConfigError::Invalid(e)) && e@ == m,
            None => r is Ok,
        },
{
    let id = route.id.as_str();
    let definition = match config.middlewares.get(name) {
        Some(d) => d,
        None => {
            return Err(
                ConfigError::Invalid(join4("route ", id, " references unknown middleware ", name)),
            );
        },
    };
    match definition {
        MiddlewareConfig::SecurityHeaders { hsts, .. } => {
            if hsts.is_some() && !listeners_all_https(config, route) {
                return Err(
                    ConfigError::Invalid(
                        join3("route ", id, " applies HSTS to a non-HTTPS listener"),
                    ),
                );
            }
        },
        MiddlewareConfig::BasicAuth { .. } => {
            if !listeners_all_https(config, route) {
                return Err(
                    ConfigError::Invalid(
                        join3(
                            "route ",
                            id,
                            " applies Basic authentication to a non-HTTPS listener",
                        ),
                    ),
                );
            }
        },
        MiddlewareConfig::ForwardAuth { upstream_group, .. } => {
            if !listeners_all_https(config, route) {
                return Err(
                    ConfigError::Invalid(
                        join3("route ", id, " applies ForwardAuth to a non-HTTPS listener"),
                    ),
                );
            }
            let group = match first_group(&config.upstream_groups, upstream_group.as_str()) {
                Some(g) => g,
                None => {
                    let what = join3(
                        id,
                        " ForwardAuth references unknown upstream group ",
                        upstream_group.as_str(),
                    );
                    return Err(ConfigError::Invalid(join2("route ", what.as_str())));
                },
            };
            if endpoints_have_tcp(group) {
                return Err(
                    ConfigError::Invalid(
                        join3("route ", id, " ForwardAuth requires an HTTP-family upstream group"),
                    ),
                );
            }
        },
        _ => {},
    }
    Ok(definition)
}


#[verifier::spinoff_prover]
#[verifier::rlimit(40)]
fn check_route_stages(config: &Config, route: &RouteConfig, fam: u8) -> (r: Result<
    (),
    ConfigError,
>)
    requires
        route.middlewares@.len() <= 64,
    ensures
        r is Ok <==> route_stages_ok(*config, *route, fam as int),
        match route_stages_error(*config, *route, fam as int) {
            Some(m) => r matches Err(ConfigError::Invalid(e)) && e@ == m,
            None => r is Ok,
        },
{
    let id = route.id.as_str();
    match crate::routing::validate_unique_strings(id, "middleware", &route.middlewares) {
        Ok(()) => {},
        Err(e) => {
            return Err(e);
        },
    }
    let ghost names = route.middlewares@;
    let mut counts: Vec<usize> = vec![0, 0, 0, 0, 0, 0, 0, 0, 0, 0, 0, 0, 0];
    let mut request_mutation = false;
    let mut maintenance_auth = false;
    assert(names.take(0) =~= Seq::<String>::empty());
    let mut k: usize = 0;
    while k < route.middlewares.len()
        invariant
            names == route.middlewares@,
            names.len() <= 64,
            k <= names.len(),
            counts@.len() == 13,
            forall|s: int| 0 <= s < 13 ==> counts@[s] == count_stage(*config, names.take(k as int), s),
            forall|s: int| 0 <= s < 13 ==> counts@[s] <= k,
            request_mutation == last_request_mutation(*config, names.take(k as int)),
            maintenance_auth == last_maintenance_auth(*config, names.take(k as int)),
            forall|m: int| 0 <= m < k ==> middleware_ref_ok(*config, *route, (#[trigger] names[m])@),
            distinct_strings(names),
            middleware_refs_error(*config, *route, 0) == middleware_refs_error(
                *config,
                *route,
                k as int,
            ),
        decreases names.len() - k,
    {
        let definition = match check_middleware_ref(config, route, route.middlewares[k].as_str()) {
            Ok(d) => d,
            Err(e) => {
                return Err(e);
            },
        };
        let kind = stage_kind_exec(definition);
        let ghost before = counts@;
        let next = counts[kind] + 1;
        counts.set(kind, next);
        match definition {
            MiddlewareConfig::HeaderMutation { request_set, request_add, request_remove, .. } => {
                request_mutation = !request_set.is_empty() || !request_add.is_empty()
                    || !request_remove.is_empty();
            },
            MiddlewareConfig::Maintenance { authenticated, .. } => {
                maintenance_auth = *authenticated;
            },
            _ => {},
        }
        proof {
            let t = names.take(k + 1);
            assert(t.drop_last() =~= names.take(k as int));
            assert(t.last() == names[k as int]);
            assert forall|s: int| 0 <= s < 13 implies counts@[s] == count_stage(
                *config,
                t,
                s,
            ) by {
                assert(count_stage(*config, t, s) == count_stage(*config, names.take(k as int), s)
                    + if stage_kind(*definition) == s {
                    1int
                } else {
                    0int
                });
            }
        }
        k += 1;
    }
    assert(names.take(names.len() as int) =~= names);
    let ghost cs = Seq::new(13, |t: int| count_stage(*config, names, t) as usize);
    assert(counts@ =~= cs);
    assert forall|t: int| 0 <= t < 13 implies #[trigger] cs[t] as int == count_stage(*config, names, t) by {
        assert(counts@[t] == count_stage(*config, names, t));
    }
    assert forall|t: int| 0 <= t < 13 && #[trigger] count_stage(*config, names, t) > 1 implies cs[t]
        > 1 by {
        assert(cs[t] as int == count_stage(*config, names, t));
    }
    assert forall|t: int| 0 <= t < 13 && #[trigger] cs[t] > 1 implies count_stage(
        *config,
        names,
        t,
    ) > 1 by {
        assert(cs[t] as int == count_stage(*config, names, t));
    }
    assert(cs[0] as int == count_stage(*config, names, 0));
    assert(cs[3] as int == count_stage(*config, names, 3));
    assert(cs[6] as int == count_stage(*config, names, 6));
    assert(cs[7] as int == count_stage(*config, names, 7));
    assert(cs[8] as int == count_stage(*config, names, 8));
    assert(cs[9] as int == count_stage(*config, names, 9));
    assert(cs[10] as int == count_stage(*config, names, 10));
    assert(cs[11] as int == count_stage(*config, names, 11));
    assert(cs[12] as int == count_stage(*config, names, 12));
    check_stage_rules(id, &counts, request_mutation, maintenance_auth, route.upstream_group.is_some(), fam)
}

/// The stage rules over the number of middlewares per stage: at most one
/// per stage, one terminal action, and the pairing rules.
pub open spec fn stage_rules_ok(
    counts: Seq<usize>,
    request_mutation: bool,
    maintenance_auth: bool,
    proxies: bool,
    fam: int,
) -> bool {
    let redirects = counts[0];
    let principal = counts[3];
    let cors = counts[6];
    let auth = counts[7];
    let rewrites = counts[8];
    let mutations = counts[9];
    let maintenance = counts[10];
    let custom = counts[11];
    let compression = counts[12];
    &&& forall|k: int| 0 <= k < 13 ==> #[trigger] counts[k] <= 1
    &&& ((proxies && redirects == 0 && maintenance == 0) || (!proxies && redirects == 1
        && maintenance == 0) || (!proxies && redirects == 0 && maintenance == 1))
    &&& ((redirects == 1 || maintenance == 1) ==> fam == 0)
    &&& (redirects == 1 ==> auth == 0)
    &&& (principal != 0 ==> auth == 1)
    &&& (redirects == 1 ==> rewrites == 0)
    &&& (redirects == 1 ==> mutations == 0)
    &&& (maintenance == 1 ==> rewrites == 0)
    &&& (maintenance == 1 ==> !request_mutation && cors == 0)
    &&& (maintenance == 1 ==> maintenance_auth == (auth == 1))
    &&& (custom != 0 ==> proxies)
    &&& (compression != 0 ==> proxies)
}

/// The message of the first stage rule broken, over the number of
/// middlewares per stage.
pub open spec fn stage_rules_error(
    id: Seq<char>,
    counts: Seq<usize>,
    request_mutation: bool,
    maintenance_auth: bool,
    proxies: bool,
    fam: int,
) -> Option<Seq<char>> {
    let m = |what: Seq<char>| "route "@ + id + what;
    let redirects = counts[0];
    let principal = counts[3];
    let cors = counts[6];
    let auth = counts[7];
    let rewrites = counts[8];
    let mutations = counts[9];
    let maintenance = counts[10];
    let custom = counts[11];
    let compression = counts[12];
    if exists|k: int| 0 <= k < 13 && #[trigger] counts[k] > 1 {
        Some(m(" contains an ambiguous duplicate middleware stage"@))
    } else if !((proxies && redirects == 0 && maintenance == 0) || (!proxies && redirects == 1
        && maintenance == 0) || (!proxies && redirects == 0 && maintenance == 1)) {
        Some(m(" must select exactly one proxy, redirect, or maintenance terminal action"@))
    } else if (redirects == 1 || maintenance == 1) && fam != 0 {
        Some(m(" uses an HTTP terminal outside an HTTP-family listener"@))
    } else if redirects == 1 && auth != 0 {
        Some(m(" cannot authenticate a public redirect stage"@))
    } else if principal != 0 && auth != 1 {
        Some(m(" principal rate limit requires exactly one authentication stage"@))
    } else if redirects == 1 && rewrites != 0 {
        Some(m(" cannot rewrite a terminal redirect"@))
    } else if redirects == 1 && mutations != 0 {
        Some(m(" cannot mutate a terminal redirect request"@))
    } else if maintenance == 1 && rewrites != 0 {
        Some(m(" cannot rewrite a terminal maintenance response"@))
    } else if maintenance == 1 && (request_mutation || cors != 0) {
        Some(m(" applies an unused request or CORS transform to maintenance"@))
    } else if maintenance == 1 && maintenance_auth != (auth == 1) {
        Some(m(" maintenance authentication mode does not match its auth middleware"@))
    } else if custom != 0 && !proxies {
        Some(m(" applies custom upstream errors without proxying"@))
    } else if compression != 0 && !proxies {
        Some(m(" applies compression without proxying"@))
    } else {
        None
    }
}

fn check_stage_rules(
    id: &str,
    counts: &Vec<usize>,
    request_mutation: bool,
    maintenance_auth: bool,
    proxies: bool,
    fam: u8,
) -> (r: Result<(), ConfigError>)
    requires
        counts@.len() == 13,
    ensures
        r is Ok <==> stage_rules_ok(counts@, request_mutation, maintenance_auth, proxies, fam as int),
        match stage_rules_error(id@, counts@, request_mutation, maintenance_auth, proxies, fam as int) {
            Some(m) => r matches Err(ConfigError::Invalid(e)) && e@ == m,
            None => r is Ok,
        },
{
    let redirects = counts[0];
    let principal = counts[3];
    let cors = counts[6];
    let auth = counts[7];
    let rewrites = counts[8];
    let mutations = counts[9];
    let maintenance = counts[10];
    let custom = counts[11];
    let compression = counts[12];
    if counts[0] > 1 || counts[1] > 1 || counts[2] > 1 || counts[3] > 1 || counts[4] > 1
        || counts[5] > 1 || counts[6] > 1 || counts[7] > 1 || counts[8] > 1 || counts[9] > 1
        || counts[10] > 1 || counts[11] > 1 || counts[12] > 1 {
        return Err(
            ConfigError::Invalid(
                join3("route ", id, " contains an ambiguous duplicate middleware stage"),
            ),
        );
    }
    assert forall|t: int| 0 <= t < 13 implies #[trigger] counts@[t] <= 1 by {
        assert(t == 0 || t == 1 || t == 2 || t == 3 || t == 4 || t == 5 || t == 6 || t == 7 || t
            == 8 || t == 9 || t == 10 || t == 11 || t == 12);
    }
    if !((proxies && redirects == 0 && maintenance == 0) || (!proxies && redirects == 1
        && maintenance == 0) || (!proxies && redirects == 0 && maintenance == 1)) {
        return Err(
            ConfigError::Invalid(
                join3(
                    "route ",
                    id,
                    " must select exactly one proxy, redirect, or maintenance terminal action",
                ),
            ),
        );
    }
    if (redirects == 1 || maintenance == 1) && fam != 0 {
        return Err(
            ConfigError::Invalid(
                join3("route ", id, " uses an HTTP terminal outside an HTTP-family listener"),
            ),
        );
    }
    if redirects == 1 && auth != 0 {
        return Err(
            ConfigError::Invalid(join3("route ", id, " cannot authenticate a public redirect stage")),
        );
    }
    if principal != 0 && auth != 1 {
        return Err(
            ConfigError::Invalid(
                join3(
                    "route ",
                    id,
                    " principal rate limit requires exactly one authentication stage",
                ),
            ),
        );
    }
    if redirects == 1 && rewrites != 0 {
        return Err(ConfigError::Invalid(join3("route ", id, " cannot rewrite a terminal redirect")));
    }
    if redirects == 1 && mutations != 0 {
        return Err(
            ConfigError::Invalid(join3("route ", id, " cannot mutate a terminal redirect request")),
        );
    }
    if maintenance == 1 && rewrites != 0 {
        return Err(
            ConfigError::Invalid(
                join3("route ", id, " cannot rewrite a terminal maintenance response"),
            ),
        );
    }
    if maintenance == 1 && (request_mutation || cors != 0) {
        return Err(
            ConfigError::Invalid(
                join3("route ", id, " applies an unused request or CORS transform to maintenance"),
            ),
        );
    }
    if maintenance == 1 && maintenance_auth != (auth == 1) {
        return Err(
            ConfigError::Invalid(
                join3(
                    "route ",
                    id,
                    " maintenance authentication mode does not match its auth middleware",
                ),
            ),
        );
    }
    if custom != 0 && !proxies {
        return Err(
            ConfigError::Invalid(
                join3("route ", id, " applies custom upstream errors without proxying"),
            ),
        );
    }
    if compression != 0 && !proxies {
        return Err(
            ConfigError::Invalid(join3("route ", id, " applies compression without proxying")),
        );
    }
    Ok(())
}



/// Route `i`: its shape, transport and stage rules.
pub open spec fn route_entry_ok(c: Config, i: int) -> bool {
    let r = c.routes@[i];
    &&& route_shape_ok(c, i)
    &&& route_transport_ok(c, r)
    &&& route_stages_ok(c, r, route_family(c, r))
}

fn check_route(config: &Config, i: usize) -> (r: Result<(), ConfigError>)
    requires
        i < config.routes@.len(),
    ensures
        r is Ok <==> route_entry_ok(*config, i as int),
        match route_error(*config, i as int) {
            Some(m) => r matches Err(ConfigError::Invalid(e)) && e@ == m,
            None => r is Ok,
        },
{
    match check_route_shape(config, i) {
        Ok(()) => {},
        Err(e) => {
            return Err(e);
        },
    }
    let route = &config.routes[i];
    let fam = match check_route_transport(config, route) {
        Ok(f) => f,
        Err(e) => {
            return Err(e);
        },
    };
    check_route_stages(config, route, fam)
}

/// How many routes are attached to the listener named `name`.
pub open spec fn listener_route_count(routes: Seq<RouteConfig>, name: Seq<char>) -> int
    decreases routes.len(),
{
    if routes.len() == 0 {
        0
    } else {
        listener_route_count(routes.drop_last(), name) + if contains_string(
            routes.last().listeners@,
            name,
        ) {
            1int
        } else {
            0int
        }
    }
}

/// A plain TCP listener has exactly one route; a TLS passthrough listener
/// has at least one.
pub open spec fn listener_routes_ok(c: Config) -> bool {
    forall|i: int|
        0 <= i < c.listeners@.len() ==> {
            let l = #[trigger] c.listeners@[i];
            let n = listener_route_count(c.routes@, l.id@);
            &&& (l.protocol@ == "tcp"@ ==> n == 1)
            &&& (l.protocol@ == "tls_passthrough"@ ==> n >= 1)
        }
}

fn route_count_for(routes: &Vec<RouteConfig>, name: &str) -> (r: usize)
    ensures
        r == listener_route_count(routes@, name@),
{
    let mut n: usize = 0;
    let mut i: usize = 0;
    assert(routes@.take(0) =~= Seq::<RouteConfig>::empty());
    while i < routes.len()
        invariant
            i <= routes@.len(),
            n == listener_route_count(routes@.take(i as int), name@),
            n <= i,
        decreases routes@.len() - i,
    {
        assert(routes@.take(i + 1).drop_last() =~= routes@.take(i as int));
        if vec_contains_str(&routes[i].listeners, name) {
            n += 1;
        }
        i += 1;
    }
    assert(routes@.take(routes@.len() as int) =~= routes@);
    n
}

/// The first listener from position `i` on whose route count breaks its
/// protocol's rule, as its message.
pub open spec fn listener_routes_error(c: Config, i: int) -> Option<Seq<char>>
    decreases c.listeners@.len() - i,
{
    if 0 <= i < c.listeners@.len() {
        let l = c.listeners@[i];
        let n = listener_route_count(c.routes@, l.id@);
        if l.protocol@ == "tcp"@ && n != 1 {
            Some("plain TCP listener "@ + l.id@ + " requires exactly one default route"@)
        } else if l.protocol@ == "tls_passthrough"@ && n == 0 {
            Some(
                "TLS passthrough listener "@ + l.id@
                    + " requires at least one SNI or default route"@,
            )
        } else {
            listener_routes_error(c, i + 1)
        }
    } else {
        None
    }
}

fn check_listener_routes(config: &Config) -> (r: Result<(), ConfigError>)
    ensures
        r is Ok <==> listener_routes_ok(*config),
        match listener_routes_error(*config, 0) {
            Some(m) => r matches Err(ConfigError::Invalid(e)) && e@ == m,
            None => r is Ok,
        },
{
    let mut i: usize = 0;
    while i < config.listeners.len()
        invariant
            i <= config.listeners@.len(),
            listener_routes_error(*config, 0) == listener_routes_error(*config, i as int),
            forall|j: int|
                0 <= j < i ==> {
                    let l = #[trigger] config.listeners@[j];
                    let n = listener_route_count(config.routes@, l.id@);
                    &&& (l.protocol@ == "tcp"@ ==> n == 1)
                    &&& (l.protocol@ == "tls_passthrough"@ ==> n >= 1)
                },
        decreases config.listeners@.len() - i,
    {
        let l = &config.listeners[i];
        let n = route_count_for(&config.routes, l.id.as_str());
        if str_eq(l.protocol.as_str(), "tcp") && n != 1 {
            return Err(
                ConfigError::Invalid(
                    join3(
                        "plain TCP listener ",
                        l.id.as_str(),
                        " requires exactly one default route",
                    ),
                ),
            );
        }
        if str_eq(l.protocol.as_str(), "tls_passthrough") && n == 0 {
            return Err(
                ConfigError::Invalid(
                    join3(
                        "TLS passthrough listener ",
                        l.id.as_str(),
                        " requires at least one SNI or default route",
                    ),
                ),
            );
        }
        i += 1;
    }
    Ok(())
}

/// The message of the first section-size bound broken.
pub open spec fn counts_error(c: Config) -> Option<Seq<char>> {
    if c.upstream_groups@.len() > MAX_UPSTREAM_GROUPS {
        Some("upstream_groups exceeds 1024 entries"@)
    } else if c.middlewares.spec_entries().len() > MAX_MIDDLEWARES {
        Some("middlewares exceeds 1024 entries"@)
    } else {
        None
    }
}







/// The certificate IDs that listeners may reference: static, then managed.
pub open spec fn known_certificate_ids(c: Config) -> Seq<String> {
    static_ids(c.certificates@) + cert_id_strings(c.acme.certificates@)
}




/// The first route error from position `i` on.
pub open spec fn routes_error(c: Config, i: int) -> Option<Seq<char>>
    decreases c.routes@.len() - i,
{
    if 0 <= i < c.routes@.len() {
        match route_error(c, i) {
            Some(m) => Some(m),
            None => routes_error(c, i + 1),
        }
    } else {
        None
    }
}

/// The message of the first rule that a configuration breaks, section by
/// section in the order they are checked; `None` exactly for a valid
/// configuration.
pub open spec fn config_error(c: Config) -> Option<Seq<char>> {
    let ids = static_ids(c.certificates@);
    let hosts = static_hosts(c.certificates@);
    if basics_error(c) is Some {
        basics_error(c)
    } else if admin_error(c.admin) is Some {
        admin_error(c.admin)
    } else if observability_error(c) is Some {
        observability_error(c)
    } else if counts_error(c) is Some {
        counts_error(c)
    } else if middlewares_error(c.middlewares.spec_entries(), 0) is Some {
        middlewares_error(c.middlewares.spec_entries(), 0)
    } else if trusted_proxies_error(c) is Some {
        trusted_proxies_error(c)
    } else if tls_error(c) is Some {
        tls_error(c)
    } else if certificates_error(c) is Some {
        certificates_error(c)
    } else if acme_error(c, ids, hosts) is Some {
        acme_error(c, ids, hosts)
    } else if limits_error(c) is Some {
        limits_error(c)
    } else if listeners_error(c.listeners@, known_certificate_ids(c), 0) is Some {
        listeners_error(c.listeners@, known_certificate_ids(c), 0)
    } else if groups_error(c.upstream_groups@, 0) is Some {
        groups_error(c.upstream_groups@, 0)
    } else if providers_error(c) is Some {
        providers_error(c)
    } else if routes_error(c, 0) is Some {
        routes_error(c, 0)
    } else if crate::conflict::conflicts_error(c.routes@, 0) is Some {
        crate::conflict::conflicts_error(c.routes@, 0)
    } else {
        listener_routes_error(c, 0)
    }
}

/// Every rule of a configuration, section by section, in the order they
/// are checked.
pub open spec fn config_ok(c: Config) -> bool {
    let static_id_list = static_ids(c.certificates@);
    let all_ids = static_id_list + cert_id_strings(c.acme.certificates@);
    &&& basics_ok(c)
    &&& admin_ok(c.admin)
    &&& observability_ok(c)
    &&& c.upstream_groups@.len() <= MAX_UPSTREAM_GROUPS
    &&& c.middlewares.spec_entries().len() <= MAX_MIDDLEWARES
    &&& middlewares_ok(c.middlewares.spec_entries())
    &&& trusted_proxies_ok(c)
    &&& tls_ok(c)
    &&& certificates_ok(c)
    &&& acme_ok(c, static_id_list, static_hosts(c.certificates@))
    &&& limits_ok(c)
    &&& listeners_ok(c, all_ids)
    &&& groups_ok(c)
    &&& providers_ok(c)
    &&& forall|i: int| 0 <= i < c.routes@.len() ==> #[trigger] route_entry_ok(c, i)
    &&& conflict_free(c.routes@)
    &&& listener_routes_ok(c)
}

/// Validate schema relationships and security-sensitive defaults.
#[verifier::loop_isolation(false)]
#[verifier::spinoff_prover]
#[verifier::rlimit(100)]
pub fn validate(config: &Config) -> (r: Result<(), ConfigError>)
    ensures
        r is Ok <==> config_ok(*config),
        match config_error(*config) {
            Some(m) => r matches Err(ConfigError::Invalid(e)) && e@ == m,
            None => r is Ok,
        },
{
    match check_basics(config) {
        Ok(()) => {},
        Err(e) => {
            return Err(e);
        },
    }
    match validate_admin(&config.admin) {
        Ok(()) => {},
        Err(e) => {
            return Err(e);
        },
    }
    match validate_observability(config) {
        Ok(()) => {},
        Err(e) => {
            return Err(e);
        },
    }
    if config.upstream_groups.len() > MAX_UPSTREAM_GROUPS {
        return Err(ConfigError::invalid("upstream_groups exceeds 1024 entries"));
    }
    if config.middlewares.len() > MAX_MIDDLEWARES {
        return Err(ConfigError::invalid("middlewares exceeds 1024 entries"));
    }
    match check_middlewares(config) {
        Ok(()) => {},
        Err(e) => {
            return Err(e);
        },
    }
    match check_trusted_proxies(config) {
        Ok(()) => {},
        Err(e) => {
            return Err(e);
        },
    }
    match check_tls(config) {
        Ok(()) => {},
        Err(e) => {
            return Err(e);
        },
    }
    let (mut certificate_ids, mut certificate_hosts) = match check_certificates(config) {
        Ok(sets) => sets,
        Err(e) => {
            return Err(e);
        },
    };
    match validate_acme(config, &mut certificate_ids, &mut certificate_hosts) {
        Ok(()) => {},
        Err(e) => {
            return Err(e);
        },
    }
    match check_limits(config) {
        Ok(()) => {},
        Err(e) => {
            return Err(e);
        },
    }
    match check_listeners(config, &certificate_ids) {
        Ok(()) => {},
        Err(e) => {
            return Err(e);
        },
    }
    match check_groups(config) {
        Ok(()) => {},
        Err(e) => {
            return Err(e);
        },
    }
    match validate_providers(config) {
        Ok(()) => {},
        Err(e) => {
            return Err(e);
        },
    }
    let mut i: usize = 0;
    while i < config.routes.len()
        invariant
            i <= config.routes@.len(),
            forall|j: int| 0 <= j < i ==> #[trigger] route_entry_ok(*config, j),
            routes_error(*config, 0) == routes_error(*config, i as int),
        decreases config.routes@.len() - i,
    {
        match check_route(config, i) {
            Ok(()) => {},
            Err(e) => {
                return Err(e);
            },
        }
        i += 1;
    }
    match crate::conflict::validate_route_conflicts(&config.routes) {
        Ok(()) => {},
        Err(e) => {
            return Err(e);
        },
    }
    check_listener_routes(config)
}


/// Maximum configuration bytes.
pub const MAX_CONFIG_BYTES: usize = 2 * 1024 * 1024;

/// The text of bounded configuration bytes: at most `MAX_CONFIG_BYTES` bytes
/// of valid UTF-8.
pub fn config_text(bytes: &[u8]) -> (r: Result<&str, ConfigError>)
    ensures
        r is Ok <==> bytes@.len() <= MAX_CONFIG_BYTES && vstd::utf8::valid_utf8(bytes@),
        r matches Ok(t) ==> utf8(t@) == bytes@,
{
    if bytes.len() > MAX_CONFIG_BYTES {
        return Err(ConfigError::invalid("configuration exceeds 2097152 bytes"));
    }
    match crate::text::utf8_text(bytes) {
        Some(t) => Ok(t),
        None => Err(ConfigError::invalid("configuration must be UTF-8")),
    }
}


proof fn lemma_found_listener(ls: Seq<ListenerConfig>, name: Seq<char>)
    requires
        find_listener(ls, name) is Some,
    ensures
        exists|j: int| 0 <= j < ls.len() && (#[trigger] ls[j]).id@ == name,
    decreases ls.len(),
{
    if ls[0].id@ != name {
        lemma_found_listener(ls.drop_first(), name);
        let j = choose|j: int| 0 <= j < ls.drop_first().len() && (#[trigger] ls.drop_first()[j]).id@ == name;
        assert(ls[j + 1] == ls.drop_first()[j]);
    } else {
        assert(ls[0].id@ == name);
    }
}

proof fn lemma_found_group(gs: Seq<UpstreamGroupConfig>, name: Seq<char>)
    requires
        find_first_group(gs, name) is Some,
    ensures
        exists|j: int| 0 <= j < gs.len() && (#[trigger] gs[j]).id@ == name,
    decreases gs.len(),
{
    if gs[0].id@ != name {
        lemma_found_group(gs.drop_first(), name);
        let j = choose|j: int| 0 <= j < gs.drop_first().len() && (#[trigger] gs.drop_first()[j]).id@ == name;
        assert(gs[j + 1] == gs.drop_first()[j]);
    } else {
        assert(gs[0].id@ == name);
    }
}

/// A configuration that validates has schema version 1, 1..=128 listeners
/// and at most 4096 routes; its listener IDs, listener binds and route IDs
/// are pairwise distinct; and every listener, upstream group and middleware
/// a route names exists.
pub proof fn lemma_valid_config_references(c: Config)
    requires
        config_ok(c),
    ensures
        c.schema_version == 1,
        1 <= c.listeners@.len() <= 128,
        c.routes@.len() <= 4096,
        forall|i: int, j: int|
            0 <= i < j < c.listeners@.len() ==> (#[trigger] c.listeners@[i]).id@ != (
            #[trigger] c.listeners@[j]).id@ && c.listeners@[i].bind != c.listeners@[j].bind,
        forall|i: int, j: int|
            0 <= i < j < c.routes@.len() ==> (#[trigger] c.routes@[i]).id@ != (
            #[trigger] c.routes@[j]).id@,
        forall|i: int, k: int|
            0 <= i < c.routes@.len() && 0 <= k < c.routes@[i].listeners@.len() ==> exists|j: int|
                0 <= j < c.listeners@.len() && (#[trigger] c.listeners@[j]).id@ == (
                #[trigger] c.routes@[i].listeners@[k])@,
        forall|i: int|
            0 <= i < c.routes@.len() && (#[trigger] c.routes@[i]).upstream_group is Some ==> exists|j: int|
                0 <= j < c.upstream_groups@.len() && (#[trigger] c.upstream_groups@[j]).id@
                    == c.routes@[i].upstream_group->0@,
        forall|i: int, k: int|
            0 <= i < c.routes@.len() && 0 <= k < c.routes@[i].middlewares@.len() ==> c.middlewares.spec_get(
                (#[trigger] c.routes@[i].middlewares@[k])@,
            ) is Some,
{
    let all_ids = static_ids(c.certificates@) + cert_id_strings(c.acme.certificates@);
    assert forall|i: int, j: int| 0 <= i < j < c.listeners@.len() implies (
    #[trigger] c.listeners@[i]).id@ != (#[trigger] c.listeners@[j]).id@ && c.listeners@[i].bind
        != c.listeners@[j].bind by {
        assert(listener_ok(c.listeners@, j, all_ids));
    }
    assert forall|i: int, j: int| 0 <= i < j < c.routes@.len() implies (#[trigger] c.routes@[i]).id@
        != (#[trigger] c.routes@[j]).id@ by {
        assert(route_entry_ok(c, j));
    }
    assert forall|i: int, k: int|
        0 <= i < c.routes@.len() && 0 <= k < c.routes@[i].listeners@.len() implies exists|j: int|
            0 <= j < c.listeners@.len() && (#[trigger] c.listeners@[j]).id@ == (
            #[trigger] c.routes@[i].listeners@[k])@ by {
        assert(route_entry_ok(c, i));
        lemma_found_listener(c.listeners@, c.routes@[i].listeners@[k]@);
    }
    assert forall|i: int|
        0 <= i < c.routes@.len() && (#[trigger] c.routes@[i]).upstream_group is Some implies exists|j: int|
            0 <= j < c.upstream_groups@.len() && (#[trigger] c.upstream_groups@[j]).id@
                == c.routes@[i].upstream_group->0@ by {
        assert(route_entry_ok(c, i));
        lemma_found_group(c.upstream_groups@, c.routes@[i].upstream_group->0@);
    }
    assert forall|i: int, k: int|
        0 <= i < c.routes@.len() && 0 <= k < c.routes@[i].middlewares@.len() implies c.middlewares.spec_get(
            (#[trigger] c.routes@[i].middlewares@[k])@,
        ) is Some by {
        assert(route_entry_ok(c, i));
        assert(middleware_ref_ok(c, c.routes@[i], c.routes@[i].middlewares@[k]@));
    }
}

/// In a configuration that validates, each route ends in exactly one
/// terminal action: it proxies to an upstream group with no Redirect and no
/// Maintenance middleware, or it names exactly one Redirect and no group,
/// or exactly one Maintenance and no group; and it names at most one
/// authentication middleware (Basic or Forward).
pub proof fn lemma_valid_route_terminal_action(c: Config, i: int)
    requires
        config_ok(c),
        0 <= i < c.routes@.len(),
    ensures
        ({
            let names = c.routes@[i].middlewares@;
            let proxies = c.routes@[i].upstream_group is Some;
            let redirects = count_stage(c, names, 0);
            let maintenance = count_stage(c, names, 10);
            &&& (proxies && redirects == 0 && maintenance == 0) || (!proxies && redirects == 1
                && maintenance == 0) || (!proxies && redirects == 0 && maintenance == 1)
            &&& count_stage(c, names, 7) <= 1
        }),
{
    assert(route_entry_ok(c, i));
    assert(count_stage(c, c.routes@[i].middlewares@, 7) <= 1);
}

} // verus!
