//! Configuration document types.

use vstd::prelude::*;
use vstd::string::StringExecFns;
use crate::map::OrderedMap;
use crate::net::{Cidr, IpAddress, SocketAddress};
use crate::web::WebUrl;
use crate::provider::ProviderConfig;

verus! {

/// Root configuration document.
#[derive(Clone, Debug)]
pub struct Config {
    /// Supported schema version.
    pub schema_version: u32,
    /// Runtime settings.
    pub runtime: RuntimeConfig,
    /// Resource limits.
    pub limits: LimitsConfig,
    /// Public data-plane listeners.
    pub listeners: Vec<ListenerConfig>,
    /// Global TLS policy.
    pub tls: TlsConfig,
    /// Bring-your-own certificate identities.
    pub certificates: Vec<CertificateConfig>,
    /// Automated certificate-management policy.
    pub acme: AcmeConfig,
    /// Trusted forwarding peers.
    pub trusted_proxies: TrustedProxyConfig,
    /// Upstream groups.
    pub upstream_groups: Vec<UpstreamGroupConfig>,
    /// Explicit bounded service-discovery providers.
    pub providers: Vec<ProviderConfig>,
    /// Middleware definitions by ID.
    pub middlewares: OrderedMap<MiddlewareConfig>,
    /// Routes.
    pub routes: Vec<RouteConfig>,
    /// Administrative settings.
    pub admin: AdminConfig,
    /// Logs, metrics, and optional trace export.
    pub observability: ObservabilityConfig,
}

/// Runtime settings.
#[derive(Clone, Debug)]
pub struct RuntimeConfig {
    /// State directory.
    pub state_dir: String,
    /// Graceful drain duration in seconds.
    pub shutdown_grace_secs: u64,
    /// Poll interval in seconds.
    pub config_poll_secs: u64,
}

impl Default for RuntimeConfig {
    fn default() -> (r: Self)
        ensures
            r.state_dir@ == "./state"@,
            r.shutdown_grace_secs == 30,
            r.config_poll_secs == 1,
    {
        RuntimeConfig {
            state_dir: String::from_str("./state"),
            shutdown_grace_secs: 30,
            config_poll_secs: 1,
        }
    }
}

/// Resource limits.
#[derive(Clone, Copy, Debug, PartialEq, Eq, Structural)]
pub struct LimitsConfig {
    /// Maximum accepted connections.
    pub max_connections: usize,
    /// Maximum header bytes.
    pub max_header_bytes: usize,
    /// Maximum header count.
    pub max_headers: usize,
    /// Maximum request-target bytes, including query.
    pub max_request_target: usize,
    /// Maximum concurrent HTTP/2 streams per connection.
    pub max_http2_streams: u32,
    /// Maximum concurrent active upstream health probes.
    pub max_health_checks: usize,
    /// Maximum concurrent upstream DNS lookups.
    pub max_dns_lookups: usize,
    /// Maximum raw upstream TCP connect time in seconds.
    pub tcp_connect_timeout_secs: u64,
    /// Maximum raw TCP inactivity in seconds.
    pub tcp_idle_timeout_secs: u64,
    /// Maximum raw TCP connection lifetime in seconds.
    pub tcp_connection_lifetime_secs: u64,
    /// Maximum request body bytes.
    pub max_request_body: usize,
    /// Request header timeout seconds.
    pub request_header_timeout_secs: u64,
    /// Upstream response header timeout seconds.
    pub response_header_timeout_secs: u64,
}

impl Default for LimitsConfig {
    fn default() -> (r: Self)
        ensures
            r == (LimitsConfig {
                max_connections: 4096,
                max_header_bytes: 32768,
                max_headers: 100,
                max_request_target: 8192,
                max_http2_streams: 128,
                max_health_checks: 64,
                max_dns_lookups: 32,
                tcp_connect_timeout_secs: 5,
                tcp_idle_timeout_secs: 300,
                tcp_connection_lifetime_secs: 86_400,
                max_request_body: 33554432,
                request_header_timeout_secs: 10,
                response_header_timeout_secs: 30,
            }),
    {
        LimitsConfig {
            max_connections: 4096,
            max_header_bytes: 32 * 1024,
            max_headers: 100,
            max_request_target: 8 * 1024,
            max_http2_streams: 128,
            max_health_checks: 64,
            max_dns_lookups: 32,
            tcp_connect_timeout_secs: 5,
            tcp_idle_timeout_secs: 300,
            tcp_connection_lifetime_secs: 86_400,
            max_request_body: 32 * 1024 * 1024,
            request_header_timeout_secs: 10,
            response_header_timeout_secs: 30,
        }
    }
}

/// A network listener.
#[derive(Clone, Debug)]
pub struct ListenerConfig {
    /// Stable identifier.
    pub id: String,
    /// Bind address.
    pub bind: SocketAddress,
    /// `http`, `https`, `tcp`, or `tls_passthrough`.
    pub protocol: String,
    /// Certificate identities available on an HTTPS listener.
    pub certificates: Vec<String>,
}

/// Global TLS policy.
#[derive(Clone, Debug)]
pub struct TlsConfig {
    /// Minimum accepted TLS version: `1.2` or `1.3`.
    pub minimum_version: String,
    /// Maximum concurrent handshakes.
    pub max_handshakes: usize,
    /// Handshake timeout in seconds.
    pub handshake_timeout_secs: u64,
    /// Secret reference containing one or more age X25519 decryption identities.
    pub identity: Option<String>,
    /// Public age X25519 recipients used for new encrypted state.
    pub state_encryption_recipients: Vec<String>,
}

impl Default for TlsConfig {
    fn default() -> (r: Self)
        ensures
            r.minimum_version@ == "1.2"@,
            r.max_handshakes == 256,
            r.handshake_timeout_secs == 10,
            r.identity is None,
            r.state_encryption_recipients@.len() == 0,
    {
        TlsConfig {
            minimum_version: String::from_str("1.2"),
            max_handshakes: 256,
            handshake_timeout_secs: 10,
            identity: None,
            state_encryption_recipients: Vec::new(),
        }
    }
}

/// Bring-your-own certificate and private-key references.
#[derive(Clone, Debug)]
pub struct CertificateConfig {
    /// Stable identity.
    pub id: String,
    /// Exact or single-label wildcard DNS names served by this identity.
    pub hosts: Vec<String>,
    /// PEM certificate-chain secret reference.
    pub certificate_chain: String,
    /// Age-encrypted PEM private-key envelope reference.
    pub private_key: String,
}

/// Strict ACME issuers, managed certificates, and DNS adapters.
#[derive(Clone, Debug)]
pub struct AcmeConfig {
    /// Global bound across all issuers.
    pub max_concurrent_orders: usize,
    /// Unique fleet node allowed to create accounts and renew certificates.
    pub renewal_owner: Option<String>,
    /// Explicit CA directory/account policies.
    pub issuers: Vec<AcmeIssuerConfig>,
    /// Certificates owned by ACME automation.
    pub certificates: Vec<AcmeCertificateConfig>,
    /// Approved DNS-01 providers.
    pub dns_providers: Vec<AcmeDnsProviderConfig>,
}

impl Default for AcmeConfig {
    fn default() -> (r: Self)
        ensures
            r.max_concurrent_orders == 4,
            r.renewal_owner is None,
            r.issuers@.len() == 0,
            r.certificates@.len() == 0,
            r.dns_providers@.len() == 0,
    {
        AcmeConfig {
            max_concurrent_orders: 4,
            renewal_owner: None,
            issuers: Vec::new(),
            certificates: Vec::new(),
            dns_providers: Vec::new(),
        }
    }
}

/// One explicitly classified ACME directory/account.
#[derive(Clone, Debug)]
pub struct AcmeIssuerConfig {
    /// Stable issuer ID.
    pub id: String,
    /// Exact ACME directory URL.
    pub directory_url: WebUrl,
    /// Operator-selected CA environment classification.
    pub environment: AcmeEnvironment,
    /// Optional account contact email.
    pub account_email: Option<String>,
    /// Explicit operator acceptance required before creating an account.
    pub terms_of_service_agreed: bool,
    /// Optional explicit private/test CA bundle.
    pub ca_bundle: Option<String>,
    /// Optional external-account binding.
    pub external_account: Option<AcmeExternalAccountConfig>,
    /// Per-issuer order concurrency bound.
    pub max_concurrent_orders: usize,
}

/// Explicit CA environment; it is never inferred from the directory URL.
#[derive(Clone, Copy, Debug, PartialEq, Eq, Structural)]
pub enum AcmeEnvironment {
    /// Real publicly trusted or organizational production issuance.
    Production,
    /// Test/staging issuance that must never replace production material.
    Staging,
}

/// External account binding references.
#[derive(Clone, Debug)]
pub struct AcmeExternalAccountConfig {
    /// CA-provided external account key ID.
    pub key_id: String,
    /// Secret reference containing raw or provider-documented HMAC bytes.
    pub hmac_key: String,
}

/// One managed certificate order and renewal policy.
#[derive(Clone, Debug)]
pub struct AcmeCertificateConfig {
    /// Stable certificate ID shared with listener references.
    pub id: String,
    /// Exact or single-label wildcard DNS identifiers.
    pub hosts: Vec<String>,
    /// Issuer ID.
    pub issuer: String,
    /// Challenge type selected without automatic fallback.
    pub challenge: AcmeChallenge,
    /// Listener that exclusively serves HTTP-01 or TLS-ALPN-01 state.
    pub challenge_listener: Option<String>,
    /// DNS provider ID required only for DNS-01.
    pub dns_provider: Option<String>,
    /// Optional ACME certificate profile name.
    pub profile: Option<String>,
    /// Fallback renewal window when ARI is unavailable.
    pub renew_before_days: u16,
}

/// Supported ACME ownership challenges.
#[derive(Clone, Copy, Debug, PartialEq, Eq, Structural)]
pub enum AcmeChallenge {
    /// HTTP token response on an explicitly configured HTTP listener.
    Http01,
    /// DNS TXT record through an approved provider.
    Dns01,
    /// Ephemeral `acme-tls/1` certificate on an HTTPS listener.
    TlsAlpn01,
}

/// Compile-time reviewed DNS-01 provider configuration.
#[derive(Clone, Debug)]
pub enum AcmeDnsProviderConfig {
    /// Cloudflare v4 API using a zone-scoped token.
    Cloudflare {
        /// Stable provider ID.
        id: String,
        /// Explicit Cloudflare zone ID; discovery is not used.
        zone_id: String,
        /// Secret reference containing a narrowly scoped API token.
        api_token: String,
    },
}

impl AcmeDnsProviderConfig {
    pub open spec fn spec_id(&self) -> Seq<char> {
        match self {
            AcmeDnsProviderConfig::Cloudflare { id, .. } => id@,
        }
    }

    /// Stable provider ID.
    pub fn id(&self) -> (r: &str)
        ensures
            r@ == self.spec_id(),
    {
        match self {
            AcmeDnsProviderConfig::Cloudflare { id, .. } => id.as_str(),
        }
    }
}

/// Default per-issuer order bound.
pub fn default_issuer_order_limit() -> (r: usize)
    ensures
        r == 2,
{
    2
}

/// Default renewal window in days.
pub fn default_renew_before_days() -> (r: u16)
    ensures
        r == 30,
{
    30
}

/// Trusted reverse proxies.
#[derive(Clone, Debug)]
pub struct TrustedProxyConfig {
    /// Explicit trusted networks.
    pub cidrs: Vec<Cidr>,
    /// Maximum trusted hops.
    pub trusted_hops: usize,
}

impl Default for TrustedProxyConfig {
    fn default() -> (r: Self)
        ensures
            r.cidrs@.len() == 0,
            r.trusted_hops == 0,
    {
        TrustedProxyConfig { cidrs: Vec::new(), trusted_hops: 0 }
    }
}

/// Upstream group.
#[derive(Clone, Debug)]
pub struct UpstreamGroupConfig {
    /// Stable identifier.
    pub id: String,
    /// Balancing algorithm.
    pub algorithm: BalancingAlgorithm,
    /// Explicit egress allowlist.
    pub allowed_cidrs: Vec<Cidr>,
    /// Explicit egress denylist. Denies override allows.
    pub denied_cidrs: Vec<Cidr>,
    /// DNS resolution policy for configured endpoint names.
    pub dns: DnsConfig,
    /// Optional active health-check policy.
    pub health: Option<HealthCheckConfig>,
    /// Passive failure classification and hysteresis.
    pub passive_health: PassiveHealthConfig,
    /// Retry attempt budget.
    pub retry: RetryConfig,
    /// Optional group circuit-breaker policy.
    pub circuit_breaker: Option<CircuitBreakerConfig>,
    /// Maximum time removed endpoints may drain existing work.
    pub drain_timeout_secs: u64,
    /// Maximum concurrent requests or raw connections for the group.
    pub max_in_flight: usize,
    /// Endpoints.
    pub endpoints: Vec<EndpointConfig>,
}

impl Default for UpstreamGroupConfig {
    fn default() -> (r: Self)
        ensures
            r.id@.len() == 0,
            r.algorithm == BalancingAlgorithm::RoundRobin,
            r.allowed_cidrs@.len() == 0,
            r.denied_cidrs@.len() == 0,
            r.dns == DnsConfig::spec_default(),
            r.health is None,
            r.passive_health == PassiveHealthConfig::spec_default(),
            r.retry == RetryConfig::spec_default(),
            r.circuit_breaker is None,
            r.drain_timeout_secs == 30,
            r.max_in_flight == 1024,
            r.endpoints@.len() == 0,
    {
        UpstreamGroupConfig {
            id: String::new(),
            algorithm: BalancingAlgorithm::RoundRobin,
            allowed_cidrs: Vec::new(),
            denied_cidrs: Vec::new(),
            dns: DnsConfig::default(),
            health: None,
            passive_health: PassiveHealthConfig::default(),
            retry: RetryConfig::default(),
            circuit_breaker: None,
            drain_timeout_secs: default_drain_timeout_secs(),
            max_in_flight: default_upstream_max_in_flight(),
            endpoints: Vec::new(),
        }
    }
}

/// Supported endpoint-selection algorithms.
#[derive(Clone, Copy, Debug, PartialEq, Eq, Structural)]
pub enum BalancingAlgorithm {
    /// Equal-share rotating selection.
    RoundRobin,
    /// Smooth weighted round robin.
    SmoothWeightedRoundRobin,
    /// Pseudo-random eligible endpoint.
    Random,
    /// Select the less busy of two pseudo-random candidates.
    PowerOfTwo,
}

/// DNS bounds for configured endpoint names.
#[derive(Clone, Copy, Debug, PartialEq, Eq, Structural)]
pub struct DnsConfig {
    /// Maximum accepted A/AAAA answers per lookup.
    pub max_answers: usize,
    /// Maximum lookup duration.
    pub lookup_timeout_secs: u64,
    /// Minimum refresh TTL applied to an answer.
    pub min_ttl_secs: u64,
    /// Maximum refresh TTL applied to an answer.
    pub max_ttl_secs: u64,
    /// Maximum time a last allowed answer may remain after refresh failure.
    pub stale_timeout_secs: u64,
}

impl DnsConfig {
    pub open spec fn spec_default() -> DnsConfig {
        DnsConfig {
            max_answers: 16,
            lookup_timeout_secs: 3,
            min_ttl_secs: 5,
            max_ttl_secs: 300,
            stale_timeout_secs: 300,
        }
    }
}

impl Default for DnsConfig {
    fn default() -> (r: Self)
        ensures
            r == DnsConfig::spec_default(),
    {
        DnsConfig {
            max_answers: 16,
            lookup_timeout_secs: 3,
            min_ttl_secs: 5,
            max_ttl_secs: 300,
            stale_timeout_secs: 300,
        }
    }
}

/// Active upstream health-check policy.
#[derive(Clone, Debug)]
pub struct HealthCheckConfig {
    /// Probe protocol.
    pub kind: HealthCheckKind,
    /// HTTP method for HTTP probes.
    pub method: String,
    /// Canonical HTTP path for HTTP probes.
    pub path: String,
    /// Accepted HTTP status codes.
    pub expected_statuses: Vec<u16>,
    /// Time between probes.
    pub interval_secs: u64,
    /// Per-probe deadline.
    pub timeout_secs: u64,
    /// Consecutive failures required for unhealthy state.
    pub unhealthy_threshold: u32,
    /// Consecutive successes required for healthy state.
    pub healthy_threshold: u32,
}

impl Default for HealthCheckConfig {
    fn default() -> (r: Self)
        ensures
            r.kind == HealthCheckKind::Http,
            r.method@ == "GET"@,
            r.path@ == "/"@,
            r.expected_statuses@ == seq![200u16],
            r.interval_secs == 10,
            r.timeout_secs == 2,
            r.unhealthy_threshold == 3,
            r.healthy_threshold == 2,
    {
        let mut expected_statuses = Vec::new();
        expected_statuses.push(200);
        HealthCheckConfig {
            kind: HealthCheckKind::Http,
            method: String::from_str("GET"),
            path: String::from_str("/"),
            expected_statuses,
            interval_secs: 10,
            timeout_secs: 2,
            unhealthy_threshold: 3,
            healthy_threshold: 2,
        }
    }
}

/// Active health-check protocol.
#[derive(Clone, Copy, Debug, PartialEq, Eq, Structural)]
pub enum HealthCheckKind {
    /// HTTP request probe.
    Http,
    /// TCP connection probe.
    Tcp,
}

/// Passive endpoint-health policy.
#[derive(Clone, Copy, Debug, PartialEq, Eq, Structural)]
pub struct PassiveHealthConfig {
    /// Classified failures required inside the rolling window.
    pub failure_threshold: u32,
    /// Consecutive successes required for recovery.
    pub healthy_threshold: u32,
    /// Rolling failure-window duration.
    pub window_secs: u64,
    /// Maximum observations retained per endpoint.
    pub max_samples: usize,
}

impl PassiveHealthConfig {
    pub open spec fn spec_default() -> PassiveHealthConfig {
        PassiveHealthConfig {
            failure_threshold: 5,
            healthy_threshold: 2,
            window_secs: 30,
            max_samples: 64,
        }
    }
}

impl Default for PassiveHealthConfig {
    fn default() -> (r: Self)
        ensures
            r == PassiveHealthConfig::spec_default(),
    {
        PassiveHealthConfig {
            failure_threshold: 5,
            healthy_threshold: 2,
            window_secs: 30,
            max_samples: 64,
        }
    }
}

/// Upstream retry budget.
#[derive(Clone, Copy, Debug, PartialEq, Eq, Structural)]
pub struct RetryConfig {
    /// Total attempts, including the first request.
    pub max_attempts: u32,
    /// Total wall-clock attempt budget.
    pub total_timeout_secs: u64,
    /// Maximum replayable request body bytes.
    pub replay_body_bytes: usize,
}

impl RetryConfig {
    pub open spec fn spec_default() -> RetryConfig {
        RetryConfig { max_attempts: 1, total_timeout_secs: 30, replay_body_bytes: 0 }
    }
}

impl Default for RetryConfig {
    fn default() -> (r: Self)
        ensures
            r == RetryConfig::spec_default(),
    {
        RetryConfig { max_attempts: 1, total_timeout_secs: 30, replay_body_bytes: 0 }
    }
}

/// Group circuit-breaker policy.
#[derive(Clone, Copy, Debug, PartialEq, Eq, Structural)]
pub struct CircuitBreakerConfig {
    /// Bounded rolling sample count.
    pub sample_size: usize,
    /// Minimum observations before opening is possible.
    pub minimum_requests: usize,
    /// Failure percentage that opens the circuit.
    pub failure_percent: u8,
    /// Open-state duration before half-open probes.
    pub open_secs: u64,
    /// Concurrent half-open probe budget.
    pub half_open_requests: usize,
}

impl Default for CircuitBreakerConfig {
    fn default() -> (r: Self)
        ensures
            r == (CircuitBreakerConfig {
                sample_size: 100,
                minimum_requests: 20,
                failure_percent: 50,
                open_secs: 10,
                half_open_requests: 1,
            }),
    {
        CircuitBreakerConfig {
            sample_size: 100,
            minimum_requests: 20,
            failure_percent: 50,
            open_secs: 10,
            half_open_requests: 1,
        }
    }
}

/// Default drain window for removed endpoints.
pub fn default_drain_timeout_secs() -> (r: u64)
    ensures
        r == 30,
{
    30
}

/// Default per-group in-flight bound.
pub fn default_upstream_max_in_flight() -> (r: usize)
    ensures
        r == 1024,
{
    1_024
}

/// Upstream endpoint.
#[derive(Clone, Debug)]
pub struct EndpointConfig {
    /// Stable identifier.
    pub id: String,
    /// Absolute HTTP(S) or raw TCP URL.
    pub url: WebUrl,
    /// Relative selection weight.
    pub weight: u32,
    /// Optional upstream TLS SNI/Host name.
    pub server_name: Option<String>,
    /// Optional PEM CA-bundle secret reference. When set, it replaces public roots.
    pub ca_bundle: Option<String>,
}

/// Default endpoint weight.
pub fn default_weight() -> (r: u32)
    ensures
        r == 1,
{
    1
}

/// Middleware definition.
#[derive(Clone, Debug)]
pub enum MiddlewareConfig {
    /// Security response headers.
    SecurityHeaders {
        /// HSTS value.
        hsts: Option<String>,
        /// Content-Security-Policy value.
        content_security_policy: Option<String>,
        /// Replace an upstream value instead of preserving it.
        override_existing: bool,
        /// Explicit acknowledgement for HSTS subdomain/preload persistence.
        acknowledge_hsts_risk: bool,
    },
    /// Edge request rate limit.
    RateLimit {
        /// Trusted key source and fixed pipeline stage.
        key: RateLimitKey,
        /// Sustained request rate.
        requests_per_second: u64,
        /// Burst capacity.
        burst: u64,
        /// Maximum simultaneously tracked client keys.
        max_keys: usize,
        /// Seconds after which an idle key may be evicted.
        idle_secs: u64,
    },
    /// Non-queuing route and trusted-client in-flight request limit.
    InFlightLimit {
        /// Maximum concurrent requests across all clients.
        max_requests: usize,
        /// Maximum concurrent requests for one trusted client address.
        max_per_client: usize,
        /// Rejection status: `429` or `503`.
        status: u16,
    },
    /// Trusted-client IP policy. Deny entries take precedence.
    IpPolicy {
        /// Optional allowlist; empty means any address not denied.
        allow: Vec<Cidr>,
        /// Explicit denylist.
        deny: Vec<Cidr>,
    },
    /// Exact-origin CORS policy.
    Cors {
        /// Exact canonical origins, or a single `*` without credentials.
        origins: Vec<String>,
        /// Allowed request methods.
        methods: Vec<String>,
        /// Allowed non-simple request headers.
        headers: Vec<String>,
        /// Emit `Access-Control-Allow-Credentials: true`.
        allow_credentials: bool,
        /// Bounded preflight cache duration.
        max_age_secs: u64,
    },
    /// TLS-only HTTP Basic authentication backed by Argon2id hashes.
    BasicAuth {
        /// Bounded challenge realm.
        realm: String,
        /// Username to Argon2id PHC secret reference.
        users: OrderedMap<String>,
        /// Maximum simultaneous password verifications.
        max_concurrent_verifications: usize,
        /// Verification deadline in seconds.
        timeout_secs: u64,
    },
    /// Fail-closed authentication subrequest to a configured HTTP upstream.
    ForwardAuth {
        /// Existing HTTP-family upstream group used only for authentication.
        upstream_group: String,
        /// Canonical authentication endpoint path.
        path: String,
        /// Client headers explicitly copied to the authentication request.
        request_headers: Vec<String>,
        /// Authentication response headers copied to the application request.
        response_headers: Vec<String>,
        /// Required response header used as the bounded principal identifier.
        principal_header: String,
        /// Exact hosts allowed in authentication redirects. Relative redirects remain allowed.
        redirect_hosts: Vec<String>,
        /// Complete authentication subrequest deadline in seconds.
        timeout_secs: u64,
    },
    /// Post-authentication path rewrite. Query parameters are preserved.
    Rewrite {
        /// Optional segment-aware prefix to replace. Omit for an exact replacement.
        from_prefix: Option<String>,
        /// Canonical replacement path or prefix.
        to: String,
    },
    /// Typed request and response header mutations.
    HeaderMutation {
        /// Replace request headers.
        request_set: OrderedMap<String>,
        /// Append request header values.
        request_add: OrderedMap<Vec<String>>,
        /// Remove request headers.
        request_remove: Vec<String>,
        /// Replace response headers.
        response_set: OrderedMap<String>,
        /// Append response header values.
        response_add: OrderedMap<Vec<String>>,
        /// Remove response headers.
        response_remove: Vec<String>,
    },
    /// Fixed terminal maintenance response.
    Maintenance {
        /// HTTP status, limited to 200 or 503.
        status: u16,
        /// Bounded static response body.
        body: String,
        /// `text/plain; charset=utf-8` or `text/html; charset=utf-8`.
        content_type: String,
        /// Optional Retry-After delta seconds.
        retry_after_secs: Option<u64>,
        /// Run authentication before returning maintenance content.
        authenticated: bool,
    },
    /// Static replacement for selected upstream 5xx responses.
    CustomError {
        /// Exact upstream response statuses to replace.
        statuses: Vec<u16>,
        /// Bounded static response body with no request interpolation.
        body: String,
        /// `text/plain; charset=utf-8` or `text/html; charset=utf-8`.
        content_type: String,
    },
    /// Streaming response compression with conservative exclusions.
    Compression {
        /// Preference-ordered enabled encodings.
        encodings: Vec<CompressionEncoding>,
        /// Allowed exact media types, excluding parameters.
        content_types: Vec<String>,
        /// Minimum declared response size.
        min_bytes: usize,
        /// Maximum concurrent encoders for this policy.
        max_concurrent: usize,
        /// Explicitly permit compression after authentication.
        allow_authenticated: bool,
    },
    /// Fixed redirect.
    Redirect {
        /// Destination URL.
        location: String,
        /// HTTP redirect status.
        status: u16,
        /// Append the original query when the fixed target has no query.
        preserve_query: bool,
    },
}

/// Trusted rate-limit key source.
#[derive(Clone, Copy, Debug, PartialEq, Eq, Structural)]
pub enum RateLimitKey {
    /// Immediate/trusted-chain client address at stage 5.
    ClientIp,
    /// Authenticated principal at stage 9.
    Principal,
}

/// Supported response content encodings.
#[derive(Clone, Copy, Debug, PartialEq, Eq, Structural)]
pub enum CompressionEncoding {
    /// RFC 9110 gzip content coding.
    Gzip,
    /// RFC 7932 Brotli content coding.
    Brotli,
}

/// Default tracked rate-limit keys.
pub fn default_rate_limit_keys() -> (r: usize)
    ensures
        r == 10_000,
{
    10_000
}

/// Default idle eviction age for rate-limit keys.
pub fn default_rate_limit_idle_secs() -> (r: u64)
    ensures
        r == 300,
{
    300
}

/// Default in-flight rejection status.
pub fn default_in_flight_status() -> (r: u16)
    ensures
        r == 503,
{
    503
}

/// Default concurrent password verifications.
pub fn default_auth_verifications() -> (r: usize)
    ensures
        r == 8,
{
    8
}

/// Default Basic authentication deadline.
pub fn default_auth_timeout_secs() -> (r: u64)
    ensures
        r == 5,
{
    5
}

/// Default ForwardAuth deadline.
pub fn default_forward_auth_timeout_secs() -> (r: u64)
    ensures
        r == 3,
{
    3
}

/// Default maintenance status.
pub fn default_maintenance_status() -> (r: u16)
    ensures
        r == 503,
{
    503
}

/// Default static response content type.
pub fn default_maintenance_content_type() -> (r: String)
    ensures
        r@ == "text/plain; charset=utf-8"@,
{
    String::from_str("text/plain; charset=utf-8")
}

/// Default minimum compressed response size.
pub fn default_compression_min_bytes() -> (r: usize)
    ensures
        r == 1024,
{
    1_024
}

/// Default concurrent encoders.
pub fn default_compression_concurrency() -> (r: usize)
    ensures
        r == 4,
{
    4
}

/// HTTP route.
#[derive(Clone, Debug)]
pub struct RouteConfig {
    /// Stable identifier.
    pub id: String,
    /// Listener IDs.
    pub listeners: Vec<String>,
    /// Exact or wildcard hosts.
    pub hosts: Vec<String>,
    /// Canonical exact paths.
    pub paths: Vec<String>,
    /// Segment-aware path prefixes.
    pub path_prefixes: Vec<String>,
    /// Allowed methods.
    pub methods: Vec<String>,
    /// Exact header predicates.
    pub headers: Vec<HeaderMatch>,
    /// Explicit catch-all route. Match predicates must be empty.
    pub default: bool,
    /// Explicit priority.
    pub priority: i32,
    /// Middleware IDs.
    pub middlewares: Vec<String>,
    /// Upstream group terminal action.
    pub upstream_group: Option<String>,
}

/// Exact request-header predicate.
#[derive(Clone, Debug)]
pub struct HeaderMatch {
    /// Header name.
    pub name: String,
    /// Exact value. Omit to match header presence only.
    pub value: Option<String>,
}

/// Administrative settings.
#[derive(Clone, Debug)]
pub struct AdminConfig {
    /// Absolute Unix socket path. Omit to use `<state_dir>/admin/admin.sock`.
    pub unix_socket: Option<String>,
    /// Optional peer-UID allowlist. Empty relies on socket filesystem access.
    pub allowed_uids: Vec<u32>,
    /// Secret reference for the durable audit HMAC key.
    pub audit_key: Option<String>,
    /// Maximum JSON or TOML request body bytes.
    pub max_body_bytes: usize,
    /// Maximum concurrent administrative requests.
    pub max_in_flight: usize,
    /// Maximum concurrent Argon2 token verifications.
    pub max_auth_in_flight: usize,
    /// Per-request deadline in seconds.
    pub request_timeout_secs: u64,
    /// Per-principal request rate.
    pub requests_per_second: u32,
    /// Per-principal request burst.
    pub burst: u32,
    /// Optional loopback browser administration.
    pub web: AdminWebConfig,
}

/// Loopback browser administration.
#[derive(Clone, Debug)]
pub struct AdminWebConfig {
    /// Serve the browser client.
    pub enabled: bool,
    /// Loopback bind address.
    pub bind: SocketAddress,
    /// Exact browser origin, `http://localhost:<port>`.
    pub origin: String,
    /// OpenID Connect sign-in policy.
    pub oidc: Option<AdminWebOidcConfig>,
}

/// OpenID Connect sign-in policy for browser administration.
#[derive(Clone, Debug)]
pub struct AdminWebOidcConfig {
    /// Canonical HTTPS issuer URL.
    pub issuer: String,
    /// Registered client ID.
    pub client_id: String,
    /// Client secret reference.
    pub client_secret: String,
    /// Optional CA bundle secret reference.
    pub ca_bundle: Option<String>,
    /// Claim that lists the user's groups.
    pub groups_claim: String,
    /// Groups granted each administrative role.
    pub groups: AdminWebOidcGroups,
}

/// Groups granted each administrative role.
#[derive(Clone, Debug)]
pub struct AdminWebOidcGroups {
    /// Read-only role.
    pub viewer: Vec<String>,
    /// Audit-log role.
    pub auditor: Vec<String>,
    /// Operational role.
    pub operator: Vec<String>,
    /// Full administrative role.
    pub admin: Vec<String>,
}

impl Default for AdminWebConfig {
    fn default() -> (r: Self)
        ensures
            !r.enabled,
            r.bind == (SocketAddress { ip: IpAddress::V4(0x7f00_0001), port: 9090 }),
            r.origin@ == "http://localhost:9090"@,
            r.oidc is None,
    {
        AdminWebConfig {
            enabled: false,
            bind: SocketAddress { ip: IpAddress::V4(0x7f00_0001), port: 9090 },
            origin: String::from_str("http://localhost:9090"),
            oidc: None,
        }
    }
}

impl Default for AdminConfig {
    fn default() -> (r: Self)
        ensures
            r.unix_socket is None,
            r.allowed_uids@.len() == 0,
            r.audit_key is None,
            r.max_body_bytes == 1024 * 1024,
            r.max_in_flight == 16,
            r.max_auth_in_flight == 4,
            r.request_timeout_secs == 10,
            r.requests_per_second == 20,
            r.burst == 40,
            !r.web.enabled,
            r.web.bind == (SocketAddress { ip: IpAddress::V4(0x7f00_0001), port: 9090 }),
            r.web.origin@ == "http://localhost:9090"@,
            r.web.oidc is None,
    {
        AdminConfig {
            unix_socket: None,
            allowed_uids: Vec::new(),
            audit_key: None,
            max_body_bytes: 1024 * 1024,
            max_in_flight: 16,
            max_auth_in_flight: 4,
            request_timeout_secs: 10,
            requests_per_second: 20,
            burst: 40,
            web: AdminWebConfig::default(),
        }
    }
}

/// Bounded process telemetry policy.
#[derive(Clone, Debug)]
pub struct ObservabilityConfig {
    /// Emit structured access events.
    pub access_log: bool,
    /// Access events retained per million completed requests.
    pub access_log_sample_per_million: u32,
    /// Expose OpenMetrics on the private administrative socket.
    pub metrics: bool,
    /// Optional OTLP/HTTP protobuf trace exporter.
    pub otlp_traces: Option<OtlpTraceConfig>,
}

impl Default for ObservabilityConfig {
    fn default() -> (r: Self)
        ensures
            r.access_log,
            r.access_log_sample_per_million == 1_000_000,
            r.metrics,
            r.otlp_traces is None,
    {
        ObservabilityConfig {
            access_log: true,
            access_log_sample_per_million: 1_000_000,
            metrics: true,
            otlp_traces: None,
        }
    }
}

/// Bounded OTLP trace-export configuration.
#[derive(Clone, Debug)]
pub struct OtlpTraceConfig {
    /// Full OTLP/HTTP protobuf traces endpoint.
    pub endpoint: WebUrl,
    /// Locally sampled root traces per million requests.
    pub sample_per_million: u32,
    /// Maximum queued spans waiting for export.
    pub max_queue_size: usize,
    /// Maximum spans in one export batch.
    pub max_export_batch_size: usize,
    /// Export attempt timeout in seconds.
    pub export_timeout_secs: u64,
}

} // verus!
