//! Service-discovery provider state: when to refresh, when a changed file
//! source is trusted, what a provider contributes to the running
//! configuration, and the redacted status it reports.

use vstd::prelude::*;
use vstd::string::StringExecFns;
use crate::provider::{ProviderError, ProviderConfig, FileProviderConfig, DnsProviderConfig};
use crate::web::opt_view;
use crate::net::{IpAddress, SocketAddress};
use crate::provider::{octets, address_octets, endpoint_matches};
use crate::provider::dns::{answer_order, sorted_answers, unparsable_answer, lemma_answer_order_unique, lemma_sorted_distinct_len, dns_id_chars};
use crate::provider::dns::endpoints as dns_endpoints;
use crate::provider::file::{FileProviderDocument, unparsable_record};
use crate::provider::file::endpoints as file_endpoints;
use crate::revision::{sha256, sha256_digest};
use crate::schema::{Config, EndpointConfig, UpstreamGroupConfig};
use crate::config::{config_ok, validate};
use crate::text::{utf8, lower_hex, hex, ascii_string, slice_eq, str_eq};

verus! {

/// Stable failure class of one provider refresh, without source data.
#[derive(Clone, Copy, Debug, PartialEq, Eq, Structural)]
pub enum ProviderFailure {
    /// The normalized result did not validate as a configuration overlay.
    InvalidResult,
    /// The source could not be read or normalized.
    InvalidSource,
    /// The blocking read task failed.
    TaskFailed,
    /// The DNS lookup failed or timed out.
    LookupFailed,
    /// The DNS answer exceeded the answer bound.
    AnswerLimit,
    /// No resolver could be built.
    ResolverUnavailable,
}

impl ProviderFailure {
    pub open spec fn spec_as_str(self) -> Seq<char> {
        match self {
            ProviderFailure::InvalidResult => "invalid_result"@,
            ProviderFailure::InvalidSource => "invalid_source"@,
            ProviderFailure::TaskFailed => "task_failed"@,
            ProviderFailure::LookupFailed => "lookup_failed"@,
            ProviderFailure::AnswerLimit => "answer_limit"@,
            ProviderFailure::ResolverUnavailable => "resolver_unavailable"@,
        }
    }

    /// The failure class label.
    pub fn as_str(self) -> (r: &'static str)
        ensures
            r@ == self.spec_as_str(),
    {
        match self {
            ProviderFailure::InvalidResult => "invalid_result",
            ProviderFailure::InvalidSource => "invalid_source",
            ProviderFailure::TaskFailed => "task_failed",
            ProviderFailure::LookupFailed => "lookup_failed",
            ProviderFailure::AnswerLimit => "answer_limit",
            ProviderFailure::ResolverUnavailable => "resolver_unavailable",
        }
    }
}

/// Redacted provider health exposed to the private control plane.
#[derive(Clone, Debug)]
pub struct ProviderStatus {
    /// Stable configured provider ID.
    pub id: String,
    /// Bounded provider kind (`file` or `dns`).
    pub kind: &'static str,
    /// Bounded state (`disabled`, `pending`, `fresh`, `degraded`, or `stale`).
    pub state: &'static str,
    /// SHA-256 of the last accepted source data.
    pub source_hash: Option<String>,
    /// Last successful refresh as Unix seconds.
    pub last_success_unix_secs: Option<u64>,
    /// Hard stale deadline as Unix seconds.
    pub stale_at_unix_secs: Option<u64>,
    /// Number of endpoints in the last accepted result.
    pub endpoint_count: usize,
    /// Stable failure class without source data.
    pub error: Option<&'static str>,
}

/// One provider's source state. Instants are monotonic milliseconds.
#[derive(Debug)]
pub struct ProviderState {
    /// The policy this state was built for.
    pub policy: ProviderConfig,
    /// Last accepted endpoints.
    pub endpoints: Vec<EndpointConfig>,
    /// SHA-256 of the last accepted source.
    pub source_hash: Option<Vec<u8>>,
    /// Last refresh attempt.
    pub last_attempt_ms: Option<u64>,
    /// Last success as Unix seconds.
    pub last_success_unix_secs: Option<u64>,
    /// Instant after which the last result is stale.
    pub stale_until_ms: Option<u64>,
    /// Stale deadline as Unix seconds.
    pub stale_at_unix_secs: Option<u64>,
    /// Changed file source waiting out its debounce.
    pub pending_hash: Option<Vec<u8>>,
    /// When the pending source was first seen.
    pub pending_since_ms: Option<u64>,
    /// Failure of the last refresh.
    pub error: Option<ProviderFailure>,
}

pub open spec fn hash_view(h: Option<Vec<u8>>) -> Option<Seq<u8>> {
    match h {
        Some(v) => Some(v@),
        None => None,
    }
}

/// What the debounce decision reads and writes.
pub struct Debounce {
    pub source_hash: Option<Seq<u8>>,
    pub pending_hash: Option<Seq<u8>>,
    pub pending_since: Option<u64>,
    pub error: Option<ProviderFailure>,
}

/// Milliseconds from `from` to `to`, zero when `to` is earlier.
pub open spec fn elapsed(from: u64, to: u64) -> int {
    if to >= from {
        to - from
    } else {
        0
    }
}

/// The debounce rule: a DNS result is taken at once. A file source equal
/// to the accepted one is taken and clears any pending change; a changed
/// source is first only recorded as pending, and is taken once it has been
/// seen unchanged for the provider's debounce period.
pub open spec fn debounce_step(d: Debounce, provider: ProviderConfig, h: Seq<u8>, now: u64) -> (
    Debounce,
    bool,
) {
    match provider {
        ProviderConfig::Dns(_) => (d, true),
        ProviderConfig::File(f) => if d.source_hash == Some(h) {
            (Debounce { pending_hash: None, pending_since: None, ..d }, true)
        } else if d.pending_hash != Some(h) {
            (Debounce { pending_hash: Some(h), pending_since: Some(now), error: None, ..d }, false)
        } else {
            (
                d,
                match d.pending_since {
                    Some(t) => elapsed(t, now) >= f.debounce_millis,
                    None => false,
                },
            )
        },
    }
}

/// Whether a refresh is due: a pending change, no attempt yet, or the
/// refresh period elapsed since the last attempt.
pub open spec fn refresh_due_spec(
    pending: Option<Seq<u8>>,
    last_attempt: Option<u64>,
    refresh_secs: u64,
    now: u64,
) -> bool {
    pending is Some || match last_attempt {
        None => true,
        Some(t) => elapsed(t, now) >= refresh_secs * 1000,
    }
}

/// `a + b`, held at `u64::MAX`.
pub open spec fn sat_add(a: u64, b: int) -> u64 {
    if a + b > u64::MAX {
        u64::MAX
    } else {
        (a + b) as u64
    }
}

pub open spec fn status_state_text(usable: bool, pending: bool, failed: bool, enabled: bool) -> Seq<
    char,
> {
    if !enabled {
        "disabled"@
    } else if pending {
        "pending"@
    } else if !failed && usable {
        "fresh"@
    } else if usable {
        "degraded"@
    } else {
        "stale"@
    }
}

fn copy_hash(h: &Option<Vec<u8>>) -> (r: Option<Vec<u8>>)
    ensures
        hash_view(r) == hash_view(*h),
{
    match h {
        Some(v) => {
            let mut out: Vec<u8> = Vec::new();
            let mut i: usize = 0;
            while i < v.len()
                invariant
                    i <= v@.len(),
                    out@ == v@.take(i as int),
                decreases v@.len() - i,
            {
                out.push(v[i]);
                i += 1;
            }
            assert(v@.take(v@.len() as int) =~= v@);
            Some(out)
        },
        None => None,
    }
}

impl ProviderState {
    pub open spec fn debounce_view(&self) -> Debounce {
        Debounce {
            source_hash: hash_view(self.source_hash),
            pending_hash: hash_view(self.pending_hash),
            pending_since: self.pending_since_ms,
            error: self.error,
        }
    }

    /// The last result is present and not yet stale.
    pub open spec fn spec_usable(&self, now: u64) -> bool {
        &&& self.endpoints@.len() > 0
        &&& self.stale_until_ms matches Some(d) && now <= d
    }

    /// A fresh state for a policy: nothing accepted, nothing attempted.
    pub fn new(policy: ProviderConfig) -> (r: ProviderState)
        ensures
            r.policy == policy,
            r.endpoints@.len() == 0,
            r.source_hash is None,
            r.last_attempt_ms is None,
            r.last_success_unix_secs is None,
            r.stale_until_ms is None,
            r.stale_at_unix_secs is None,
            r.pending_hash is None,
            r.pending_since_ms is None,
            r.error is None,
    {
        ProviderState {
            policy,
            endpoints: Vec::new(),
            source_hash: None,
            last_attempt_ms: None,
            last_success_unix_secs: None,
            stale_until_ms: None,
            stale_at_unix_secs: None,
            pending_hash: None,
            pending_since_ms: None,
            error: None,
        }
    }

    /// Whether the last result may still be served.
    pub fn usable(&self, now_ms: u64) -> (r: bool)
        ensures
            r == self.spec_usable(now_ms),
    {
        self.endpoints.len() > 0 && match self.stale_until_ms {
            Some(d) => now_ms <= d,
            None => false,
        }
    }

    /// Whether the provider should be read again now.
    pub fn refresh_due(&self, provider: &ProviderConfig, now_ms: u64) -> (r: bool)
        ensures
            r == refresh_due_spec(
                hash_view(self.pending_hash),
                self.last_attempt_ms,
                provider.spec_refresh_secs(),
                now_ms,
            ),
    {
        if self.pending_hash.is_some() {
            return true;
        }
        match self.last_attempt_ms {
            None => true,
            Some(t) => {
                let waited = if now_ms >= t {
                    now_ms - t
                } else {
                    0
                };
                waited / 1000 >= provider.refresh_secs()
            },
        }
    }

    /// Applies the debounce rule to a newly read source.
    pub fn accept_debounce(&mut self, provider: &ProviderConfig, source_hash: &Vec<u8>, now_ms: u64) -> (r:
        bool)
        ensures
            (final(self).debounce_view(), r) == debounce_step(
                old(self).debounce_view(),
                *provider,
                source_hash@,
                now_ms,
            ),
            final(self).policy == old(self).policy,
            final(self).endpoints == old(self).endpoints,
            final(self).source_hash == old(self).source_hash,
            final(self).last_attempt_ms == old(self).last_attempt_ms,
            final(self).last_success_unix_secs == old(self).last_success_unix_secs,
            final(self).stale_until_ms == old(self).stale_until_ms,
            final(self).stale_at_unix_secs == old(self).stale_at_unix_secs,
    {
        let debounce_millis = match provider {
            ProviderConfig::Dns(_) => {
                return true;
            },
            ProviderConfig::File(file) => file.debounce_millis,
        };
        let same_source = match &self.source_hash {
            Some(h) => slice_eq(h.as_slice(), source_hash.as_slice()),
            None => false,
        };
        if same_source {
            self.pending_hash = None;
            self.pending_since_ms = None;
            return true;
        }
        let same_pending = match &self.pending_hash {
            Some(h) => slice_eq(h.as_slice(), source_hash.as_slice()),
            None => false,
        };
        if !same_pending {
            self.pending_hash = copy_hash(&Some(source_hash.clone()));
            self.pending_since_ms = Some(now_ms);
            self.error = None;
            return false;
        }
        match self.pending_since_ms {
            Some(t) => {
                let waited = if now_ms >= t {
                    now_ms - t
                } else {
                    0
                };
                waited >= debounce_millis
            },
            None => false,
        }
    }

    /// Installs an accepted result: its endpoints and hash, the success
    /// time, and the stale deadlines; clears any pending change and error.
    pub fn install_success(
        &mut self,
        provider: &ProviderConfig,
        endpoints: Vec<EndpointConfig>,
        source_hash: Vec<u8>,
        now_ms: u64,
        unix_now: u64,
    )
        ensures
            final(self).policy == old(self).policy,
            final(self).endpoints == endpoints,
            hash_view(final(self).source_hash) == Some(source_hash@),
            final(self).last_attempt_ms == old(self).last_attempt_ms,
            final(self).last_success_unix_secs == Some(unix_now),
            final(self).stale_until_ms == Some(
                sat_add(now_ms, provider.spec_stale_after_secs() * 1000),
            ),
            final(self).stale_at_unix_secs == Some(sat_add(unix_now, provider.spec_stale_after_secs() as int)),
            final(self).pending_hash is None,
            final(self).pending_since_ms is None,
            final(self).error is None,
    {
        let stale = provider.stale_after_secs();
        let stale_ms: u64 = if stale > (u64::MAX - now_ms) / 1000 {
            u64::MAX
        } else {
            now_ms + stale * 1000
        };
        proof {
            if stale <= (u64::MAX - now_ms) / 1000 {
                assert(stale * 1000 <= u64::MAX - now_ms) by (nonlinear_arith)
                    requires
                        stale <= (u64::MAX - now_ms) / 1000,
                        now_ms <= u64::MAX,
                ;
            } else {
                assert(now_ms + stale * 1000 > u64::MAX) by (nonlinear_arith)
                    requires
                        stale > (u64::MAX - now_ms) / 1000,
                        now_ms <= u64::MAX,
                ;
            }
        }
        self.endpoints = endpoints;
        self.source_hash = Some(source_hash);
        self.last_success_unix_secs = Some(unix_now);
        self.stale_until_ms = Some(stale_ms);
        self.stale_at_unix_secs = Some(unix_now.saturating_add(stale));
        self.pending_hash = None;
        self.pending_since_ms = None;
        self.error = None;
    }

    /// Rejects a result whose overlay did not validate: the pending change
    /// is dropped and the failure recorded; the last accepted result stays.
    pub fn reject_result(&mut self)
        ensures
            final(self).policy == old(self).policy,
            final(self).endpoints == old(self).endpoints,
            final(self).source_hash == old(self).source_hash,
            final(self).last_attempt_ms == old(self).last_attempt_ms,
            final(self).last_success_unix_secs == old(self).last_success_unix_secs,
            final(self).stale_until_ms == old(self).stale_until_ms,
            final(self).stale_at_unix_secs == old(self).stale_at_unix_secs,
            final(self).pending_hash is None,
            final(self).pending_since_ms is None,
            final(self).error == Some(ProviderFailure::InvalidResult),
    {
        self.pending_hash = None;
        self.pending_since_ms = None;
        self.error = Some(ProviderFailure::InvalidResult);
    }

    /// Records a failed read: a file provider also drops its pending
    /// change; the last accepted result stays.
    pub fn record_failure(&mut self, provider: &ProviderConfig, failure: ProviderFailure)
        ensures
            final(self).policy == old(self).policy,
            final(self).endpoints == old(self).endpoints,
            final(self).source_hash == old(self).source_hash,
            final(self).last_attempt_ms == old(self).last_attempt_ms,
            final(self).last_success_unix_secs == old(self).last_success_unix_secs,
            final(self).stale_until_ms == old(self).stale_until_ms,
            final(self).stale_at_unix_secs == old(self).stale_at_unix_secs,
            provider is File ==> final(self).pending_hash is None && final(self).pending_since_ms is None,
            provider is Dns ==> final(self).pending_hash == old(self).pending_hash
                && final(self).pending_since_ms == old(self).pending_since_ms,
            final(self).error == Some(failure),
    {
        match provider {
            ProviderConfig::File(_) => {
                self.pending_hash = None;
                self.pending_since_ms = None;
            },
            ProviderConfig::Dns(_) => {},
        }
        self.error = Some(failure);
    }

    /// The redacted status of this provider.
    pub fn status(&self, enabled: bool, now_ms: u64) -> (r: ProviderStatus)
        ensures
            status_matches(r, *self, enabled, now_ms),
    {
        let usable = self.usable(now_ms);
        let state = if !enabled {
            "disabled"
        } else if self.pending_hash.is_some() {
            "pending"
        } else if self.error.is_none() && usable {
            "fresh"
        } else if usable {
            "degraded"
        } else {
            "stale"
        };
        let source_hash = match &self.source_hash {
            Some(h) => {
                let digits = hex(h.as_slice());
                Some(ascii_string(&digits))
            },
            None => None,
        };
        ProviderStatus {
            id: String::from_str(self.policy.id()),
            kind: self.policy.kind(),
            state,
            source_hash,
            last_success_unix_secs: self.last_success_unix_secs,
            stale_at_unix_secs: self.stale_at_unix_secs,
            endpoint_count: self.endpoints.len(),
            error: match self.error {
                Some(e) => Some(e.as_str()),
                None => None,
            },
        }
    }
}

/// `r` is the redacted status of a provider in `state`, enabled or not,
/// at `now`.
pub open spec fn status_matches(r: ProviderStatus, state: ProviderState, enabled: bool, now: u64) -> bool {
    &&& r.id@ == state.policy.spec_id()
    &&& r.kind@ == kind_text(state.policy)
    &&& r.state@ == status_state_text(
        state.spec_usable(now),
        state.pending_hash is Some,
        state.error is Some,
        enabled,
    )
    &&& match (r.source_hash, state.source_hash) {
        (Some(t), Some(h)) => utf8(t@) == lower_hex(h@),
        (None, None) => true,
        _ => false,
    }
    &&& r.last_success_unix_secs == state.last_success_unix_secs
    &&& r.stale_at_unix_secs == state.stale_at_unix_secs
    &&& r.endpoint_count == state.endpoints@.len()
    &&& match (r.error, state.error) {
        (Some(t), Some(e)) => t@ == e.spec_as_str(),
        (None, None) => true,
        _ => false,
    }
}

/// The statuses of the providers, in order, each from its state.
pub fn provider_snapshot(providers: &Vec<ProviderConfig>, states: &Vec<ProviderState>, now_ms: u64) -> (r:
    Vec<ProviderStatus>)
    requires
        states@.len() == providers@.len(),
    ensures
        r@.len() == providers@.len(),
        forall|i: int|
            0 <= i < r@.len() ==> status_matches(
                #[trigger] r@[i],
                states@[i],
                providers@[i].spec_enabled(),
                now_ms,
            ),
{
    let mut out: Vec<ProviderStatus> = Vec::new();
    let mut i: usize = 0;
    while i < providers.len()
        invariant
            states@.len() == providers@.len(),
            i <= providers@.len(),
            out@.len() == i,
            forall|k: int|
                0 <= k < i ==> status_matches(
                    #[trigger] out@[k],
                    states@[k],
                    providers@[k].spec_enabled(),
                    now_ms,
                ),
        decreases providers@.len() - i,
    {
        out.push(states[i].status(providers[i].enabled(), now_ms));
        i += 1;
    }
    out
}

fn same_opt(o: &Option<String>) -> (r: Option<String>)
    ensures
        r == *o,
{
    match o {
        Some(s) => Some(s.clone()),
        None => None,
    }
}

/// Equal copies of endpoints.
fn copy_endpoints(v: &Vec<EndpointConfig>) -> (r: Vec<EndpointConfig>)
    ensures
        r@ == v@,
{
    let mut out: Vec<EndpointConfig> = Vec::new();
    let mut i: usize = 0;
    while i < v.len()
        invariant
            i <= v@.len(),
            out@ == v@.take(i as int),
        decreases v@.len() - i,
    {
        let e = &v[i];
        out.push(
            EndpointConfig {
                id: e.id.clone(),
                url: e.url.copy(),
                weight: e.weight,
                server_name: same_opt(&e.server_name),
                ca_bundle: same_opt(&e.ca_bundle),
            },
        );
        proof {
            assert(v@.take(i + 1) =~= v@.take(i as int).push(v@[i as int]));
        }
        i += 1;
    }
    assert(v@.take(v@.len() as int) =~= v@);
    out
}

/// `after` has accepted a read of `endpoints` with hash `hash` at `now`
/// (Unix time `unix`): the endpoints, hash, success time and stale
/// deadlines are the new ones, and no change is pending or failed.
pub open spec fn installed(
    after: ProviderState,
    before: ProviderState,
    provider: ProviderConfig,
    endpoints: Vec<EndpointConfig>,
    hash: Seq<u8>,
    now: u64,
    unix: u64,
) -> bool {
    &&& after.endpoints@ == endpoints@
    &&& hash_view(after.source_hash) == Some(hash)
    &&& after.last_success_unix_secs == Some(unix)
    &&& after.stale_until_ms == Some(sat_add(now, provider.spec_stale_after_secs() * 1000))
    &&& after.stale_at_unix_secs == Some(sat_add(unix, provider.spec_stale_after_secs() as int))
    &&& after.pending_hash is None
    &&& after.pending_since_ms is None
    &&& after.error is None
}

/// The last accepted result of `before` stands in `after`.
pub open spec fn result_kept(after: ProviderState, before: ProviderState) -> bool {
    &&& after.endpoints == before.endpoints
    &&& after.source_hash == before.source_hash
    &&& after.last_success_unix_secs == before.last_success_unix_secs
    &&& after.stale_until_ms == before.stale_until_ms
    &&& after.stale_at_unix_secs == before.stale_at_unix_secs
}

impl ProviderState {
    /// Whether this provider reads its source in this reconciliation: it is
    /// enabled and its refresh is due.
    pub fn needs_refresh(&self, provider: &ProviderConfig, now_ms: u64) -> (r: bool)
        ensures
            r == (provider.spec_enabled() && refresh_due_spec(
                hash_view(self.pending_hash),
                self.last_attempt_ms,
                provider.spec_refresh_secs(),
                now_ms,
            )),
    {
        provider.enabled() && self.refresh_due(provider, now_ms)
    }

    /// Applies what a refresh read came back with. The attempt time is
    /// recorded. A read that the debounce rule holds back only updates the
    /// pending change; one it lets through is installed when the base
    /// configuration with its endpoints validates, and rejected otherwise;
    /// a failed read is recorded. A rejected or failed read keeps the last
    /// accepted result.
    pub fn apply_refresh(
        &mut self,
        base: Config,
        provider: &ProviderConfig,
        result: Result<(Vec<EndpointConfig>, Vec<u8>), ProviderFailure>,
        now_ms: u64,
        unix_now: u64,
    )
        ensures
            final(self).policy == old(self).policy,
            final(self).last_attempt_ms == Some(now_ms),
            match result {
                Err(f) => {
                    &&& result_kept(*final(self), *old(self))
                    &&& final(self).error == Some(f)
                    &&& provider is File ==> final(self).pending_hash is None
                        && final(self).pending_since_ms is None
                    &&& provider is Dns ==> final(self).pending_hash == old(self).pending_hash
                        && final(self).pending_since_ms == old(self).pending_since_ms
                },
                Ok((endpoints, hash)) => {
                    let (d, taken) = debounce_step(old(self).debounce_view(), *provider, hash@, now_ms);
                    if !taken {
                        &&& result_kept(*final(self), *old(self))
                        &&& final(self).debounce_view() == d
                    } else {
                        exists|c: Config, e: Vec<EndpointConfig>|
                            #![trigger overlaid(base, provider.spec_upstream_group(), e, c)]
                            e@ == endpoints@ && overlaid(base, provider.spec_upstream_group(), e, c) && (config_ok(c)
                                ==> installed(*final(self), *old(self), *provider, endpoints, hash@, now_ms, unix_now))
                                && (!config_ok(c) ==> {
                                &&& result_kept(*final(self), *old(self))
                                &&& final(self).pending_hash is None
                                &&& final(self).pending_since_ms is None
                                &&& final(self).error == Some(ProviderFailure::InvalidResult)
                            })
                    }
                },
            },
    {
        self.last_attempt_ms = Some(now_ms);
        match result {
            Ok((endpoints, hash)) => {
                if self.accept_debounce(provider, &hash, now_ms) {
                    let ok = valid_overlay(base, provider, copy_endpoints(&endpoints));
                    if ok {
                        self.install_success(provider, endpoints, hash, now_ms, unix_now);
                    } else {
                        self.reject_result();
                    }
                }
            },
            Err(failure) => {
                self.record_failure(provider, failure);
            },
        }
    }
}

/// The states a reconciliation starts with, one per configured provider in
/// order: the previous state kept under the provider's ID when it was built
/// for the same policy, a fresh one otherwise. States of providers no
/// longer configured are dropped.
pub fn carry_states(previous: Vec<ProviderState>, providers: &Vec<ProviderConfig>) -> (r: Vec<
    ProviderState,
>)
    ensures
        r@.len() == providers@.len(),
        forall|i: int| 0 <= i < r@.len() ==> policy_eq((#[trigger] r@[i]).policy, providers@[i]),
{
    let mut pool = previous;
    let mut out: Vec<ProviderState> = Vec::new();
    let mut i: usize = 0;
    while i < providers.len()
        invariant
            i <= providers@.len(),
            out@.len() == i,
            forall|k: int| 0 <= k < i ==> policy_eq((#[trigger] out@[k]).policy, providers@[k]),
        decreases providers@.len() - i,
    {
        let id = providers[i].id();
        let mut found: Option<usize> = None;
        let mut j: usize = 0;
        while j < pool.len()
            invariant
                j <= pool@.len(),
                found matches Some(f) ==> f < pool@.len(),
            decreases pool@.len() - j,
        {
            if found.is_none() && str_eq(pool[j].policy.id(), id) {
                found = Some(j);
            }
            j += 1;
        }
        let previous_state = match found {
            Some(f) => Some(pool.remove(f)),
            None => None,
        };
        out.push(carry_state(previous_state, &providers[i]));
        i += 1;
    }
    out
}

impl ProviderRegistry {
    /// Publishes the statuses of the providers, in order, each from its
    /// state, as the new snapshot.
    pub fn publish(&mut self, providers: &Vec<ProviderConfig>, states: &Vec<ProviderState>, now_ms: u64)
        requires
            states@.len() == providers@.len(),
        ensures
            final(self).spec_statuses().len() == providers@.len(),
            forall|i: int|
                0 <= i < providers@.len() ==> status_matches(
                    #[trigger] final(self).spec_statuses()[i],
                    states@[i],
                    providers@[i].spec_enabled(),
                    now_ms,
                ),
    {
        let snapshot = provider_snapshot(providers, states, now_ms);
        self.replace(snapshot);
    }
}

/// The bounded kind text of a provider.
pub open spec fn kind_text(p: ProviderConfig) -> Seq<char> {
    match p {
        ProviderConfig::File(_) => "file"@,
        ProviderConfig::Dns(_) => "dns"@,
    }
}

/// A snapshot built from the states a reconciliation carried for the
/// configured providers holds one status per provider, in order, with the
/// provider's ID and kind; it reads `disabled` exactly for a disabled
/// provider, and one of `pending`, `fresh`, `degraded` or `stale` for an
/// enabled one.
pub proof fn lemma_snapshot_follows_providers(
    providers: Seq<ProviderConfig>,
    states: Seq<ProviderState>,
    now: u64,
    s: Seq<ProviderStatus>,
)
    requires
        states.len() == providers.len(),
        forall|i: int| 0 <= i < providers.len() ==> policy_eq(#[trigger] states[i].policy, providers[i]),
        s.len() == providers.len(),
        forall|i: int|
            0 <= i < s.len() ==> status_matches(#[trigger] s[i], states[i], providers[i].spec_enabled(), now),
    ensures
        forall|i: int|
            0 <= i < s.len() ==> {
                &&& (#[trigger] s[i]).id@ == providers[i].spec_id()
                &&& s[i].kind@ == kind_text(providers[i])
                &&& (s[i].state@ == "disabled"@ <==> !providers[i].spec_enabled())
                &&& (providers[i].spec_enabled() ==> (s[i].state@ == "pending"@ || s[i].state@ == "fresh"@
                    || s[i].state@ == "degraded"@ || s[i].state@ == "stale"@))
            },
{
    assert forall|i: int| 0 <= i < s.len() implies {
        &&& (#[trigger] s[i]).id@ == providers[i].spec_id()
        &&& s[i].kind@ == kind_text(providers[i])
        &&& (s[i].state@ == "disabled"@ <==> !providers[i].spec_enabled())
        &&& (providers[i].spec_enabled() ==> (s[i].state@ == "pending"@ || s[i].state@ == "fresh"@
            || s[i].state@ == "degraded"@ || s[i].state@ == "stale"@))
    } by {
        assert(policy_eq(states[i].policy, providers[i]));
        assert(s[i].id@ == providers[i].spec_id());
        assert(s[i].kind@ == kind_text(providers[i]));
        assert(states[i].policy.spec_enabled() == providers[i].spec_enabled());
        reveal_strlit("disabled");
        reveal_strlit("pending");
        reveal_strlit("fresh");
        assert("disabled"@.len() != "pending"@.len());
        assert("disabled"@.len() != "fresh"@.len());
        reveal_strlit("degraded");
        reveal_strlit("stale");
        assert("disabled"@[1] != "degraded"@[1]);
        assert("disabled"@.len() != "stale"@.len());
    }
}

/// The first upstream group with this ID.
pub open spec fn first_group(groups: Seq<UpstreamGroupConfig>, id: Seq<char>, i: int) -> Option<int>
    decreases groups.len() - i,
{
    if i < 0 || i >= groups.len() {
        None
    } else if groups[i].id@ == id {
        Some(i)
    } else {
        first_group(groups, id, i + 1)
    }
}

proof fn lemma_first_group(groups: Seq<UpstreamGroupConfig>, id: Seq<char>, i: int)
    requires
        0 <= i,
    ensures
        first_group(groups, id, i) matches Some(j) ==> i <= j < groups.len() && groups[j].id@ == id,
    decreases groups.len() - i,
{
    if i < groups.len() {
        lemma_first_group(groups, id, i + 1);
    }
}

/// `after` is `before` with the endpoints of the first group named `group`
/// replaced; nothing else differs. Without such a group nothing changes.
pub open spec fn overlaid(before: Config, group: Seq<char>, endpoints: Vec<EndpointConfig>, after: Config) -> bool {
    &&& after == Config { upstream_groups: after.upstream_groups, ..before }
    &&& match first_group(before.upstream_groups@, group, 0) {
        None => after.upstream_groups@ == before.upstream_groups@,
        Some(i) => after.upstream_groups@ == before.upstream_groups@.update(
            i,
            UpstreamGroupConfig { endpoints: endpoints, ..before.upstream_groups@[i] },
        ),
    }
}

/// Replaces the endpoints of the first group with this ID.
pub fn replace_group_endpoints(config: &mut Config, group_id: &str, endpoints: Vec<EndpointConfig>)
    ensures
        overlaid(*old(config), group_id@, endpoints, *final(config)),
{
    proof {
        lemma_first_group(config.upstream_groups@, group_id@, 0);
    }
    let mut i: usize = 0;
    while i < config.upstream_groups.len()
        invariant
            *config == *old(config),
            i <= config.upstream_groups@.len(),
            first_group(config.upstream_groups@, group_id@, 0) == first_group(
                config.upstream_groups@,
                group_id@,
                i as int,
            ),
        decreases config.upstream_groups@.len() - i,
    {
        if str_eq(config.upstream_groups[i].id.as_str(), group_id) {
            let ghost before = config.upstream_groups@;
            config.upstream_groups[i].endpoints = endpoints;
            proof {
                assert(config.upstream_groups@ =~= before.update(
                    i as int,
                    UpstreamGroupConfig { endpoints: endpoints, ..before[i as int] },
                ));
            }
            return;
        }
        i += 1;
    }
}

/// Whether the base configuration, with the provider's group endpoints
/// replaced, still validates.
pub fn valid_overlay(base: Config, provider: &ProviderConfig, endpoints: Vec<EndpointConfig>) -> (r: bool)
    ensures
        exists|c: Config|
            overlaid(base, provider.spec_upstream_group(), endpoints, c) && (r <==> config_ok(c)),
{
    let mut candidate = base;
    replace_group_endpoints(&mut candidate, provider.upstream_group(), endpoints);
    validate(&candidate).is_ok()
}

/// The bytes a provider adds to the reconciled-configuration fingerprint:
/// its ID, a zero byte and `provider` with the source hash while its
/// output is in use, its ID, a zero byte and `static` while the static
/// endpoints stand.
pub open spec fn fingerprint_part_bytes(
    id: Seq<char>,
    in_use: bool,
    source_hash: Option<Seq<u8>>,
) -> Seq<u8> {
    if in_use {
        match source_hash {
            Some(h) => utf8(id) + seq![0u8] + utf8("provider"@) + h,
            None => Seq::empty(),
        }
    } else {
        utf8(id) + seq![0u8] + utf8("static"@)
    }
}

fn append_bytes(out: &mut Vec<u8>, bytes: &[u8])
    ensures
        final(out)@ == old(out)@ + bytes@,
{
    let mut i: usize = 0;
    let ghost start = out@;
    while i < bytes.len()
        invariant
            i <= bytes@.len(),
            out@ == start + bytes@.take(i as int),
        decreases bytes@.len() - i,
    {
        out.push(bytes[i]);
        proof {
            assert(bytes@.take(i + 1) =~= bytes@.take(i as int).push(bytes@[i as int]));
        }
        i += 1;
    }
    assert(bytes@.take(bytes@.len() as int) =~= bytes@);
}

impl ProviderState {
    /// Whether the provider's own endpoints replace the static ones now.
    pub open spec fn spec_in_use(&self, provider: ProviderConfig, now: u64) -> bool {
        provider.spec_enabled() && self.spec_usable(now)
    }

    /// The bytes this provider adds to the reconciled fingerprint.
    pub fn fingerprint_part(&self, provider: &ProviderConfig, now_ms: u64) -> (r: Vec<u8>)
        ensures
            r@ == fingerprint_part_bytes(
                provider.spec_id(),
                self.spec_in_use(*provider, now_ms),
                hash_view(self.source_hash),
            ),
    {
        let mut out: Vec<u8> = Vec::new();
        let in_use = provider.enabled() && self.usable(now_ms);
        if in_use {
            match &self.source_hash {
                Some(h) => {
                    append_bytes(&mut out, provider.id().as_bytes());
                    out.push(0);
                    append_bytes(&mut out, "provider".as_bytes());
                    append_bytes(&mut out, h.as_slice());
                },
                None => {},
            }
        } else {
            append_bytes(&mut out, provider.id().as_bytes());
            out.push(0);
            append_bytes(&mut out, "static".as_bytes());
        }
        proof {
            assert(out@ =~= fingerprint_part_bytes(
                provider.spec_id(),
                self.spec_in_use(*provider, now_ms),
                hash_view(self.source_hash),
            ));
        }
        out
    }
}

/// A changed file source is never taken when first seen; seen again with
/// the same content, it is taken exactly when the debounce period has
/// passed since the first sighting.
pub proof fn lemma_changed_source_waits_debounce(
    d: Debounce,
    provider: ProviderConfig,
    h: Seq<u8>,
    first: u64,
    later: u64,
)
    requires
        provider is File,
        d.source_hash != Some(h),
        d.pending_hash != Some(h),
    ensures
        !debounce_step(d, provider, h, first).1,
        debounce_step(debounce_step(d, provider, h, first).0, provider, h, later).1 <==> elapsed(first, later)
            >= provider->File_0.debounce_millis,
{
}

/// However many distinct sources arrive, at most one change is pending, and
/// it is the latest unaccepted one.
pub proof fn lemma_one_pending_source(d: Debounce, provider: ProviderConfig, h: Seq<u8>, now: u64)
    requires
        provider is File,
    ensures
        ({
            let (next, taken) = debounce_step(d, provider, h, now);
            &&& next.pending_hash is None || next.pending_hash == Some(h) || next.pending_hash
                == d.pending_hash
            &&& !taken ==> next.pending_hash == Some(h)
            &&& next.source_hash == d.source_hash
        }),
{
}

/// Two provider policies agree in every field.
pub open spec fn policy_eq(a: ProviderConfig, b: ProviderConfig) -> bool {
    match (a, b) {
        (ProviderConfig::File(x), ProviderConfig::File(y)) => {
            &&& x.id@ == y.id@
            &&& x.enabled == y.enabled
            &&& x.upstream_group@ == y.upstream_group@
            &&& x.path@ == y.path@
            &&& x.scheme == y.scheme
            &&& opt_view(x.server_name) == opt_view(y.server_name)
            &&& opt_view(x.ca_bundle) == opt_view(y.ca_bundle)
            &&& x.refresh_secs == y.refresh_secs
            &&& x.debounce_millis == y.debounce_millis
            &&& x.stale_after_secs == y.stale_after_secs
            &&& x.max_endpoints == y.max_endpoints
        },
        (ProviderConfig::Dns(x), ProviderConfig::Dns(y)) => {
            &&& x.id@ == y.id@
            &&& x.enabled == y.enabled
            &&& x.upstream_group@ == y.upstream_group@
            &&& x.hostname@ == y.hostname@
            &&& x.port == y.port
            &&& x.scheme == y.scheme
            &&& opt_view(x.server_name) == opt_view(y.server_name)
            &&& opt_view(x.ca_bundle) == opt_view(y.ca_bundle)
            &&& x.weight == y.weight
            &&& x.refresh_secs == y.refresh_secs
            &&& x.stale_after_secs == y.stale_after_secs
            &&& x.max_answers == y.max_answers
        },
        _ => false,
    }
}

fn opt_str_eq(a: &Option<String>, b: &Option<String>) -> (r: bool)
    ensures
        r == (opt_view(*a) == opt_view(*b)),
{
    match (a, b) {
        (Some(x), Some(y)) => str_eq(x.as_str(), y.as_str()),
        (None, None) => true,
        _ => false,
    }
}

fn copy_opt_str(o: &Option<String>) -> (r: Option<String>)
    ensures
        opt_view(r) == opt_view(*o),
{
    match o {
        Some(s) => Some(String::from_str(s.as_str())),
        None => None,
    }
}

/// Whether two provider policies agree in every field.
pub fn same_policy(a: &ProviderConfig, b: &ProviderConfig) -> (r: bool)
    ensures
        r == policy_eq(*a, *b),
{
    match (a, b) {
        (ProviderConfig::File(x), ProviderConfig::File(y)) => {
            str_eq(x.id.as_str(), y.id.as_str()) && x.enabled == y.enabled && str_eq(
                x.upstream_group.as_str(),
                y.upstream_group.as_str(),
            ) && str_eq(x.path.as_str(), y.path.as_str()) && x.scheme == y.scheme && opt_str_eq(
                &x.server_name,
                &y.server_name,
            ) && opt_str_eq(&x.ca_bundle, &y.ca_bundle) && x.refresh_secs == y.refresh_secs
                && x.debounce_millis == y.debounce_millis && x.stale_after_secs == y.stale_after_secs
                && x.max_endpoints == y.max_endpoints
        },
        (ProviderConfig::Dns(x), ProviderConfig::Dns(y)) => {
            str_eq(x.id.as_str(), y.id.as_str()) && x.enabled == y.enabled && str_eq(
                x.upstream_group.as_str(),
                y.upstream_group.as_str(),
            ) && str_eq(x.hostname.as_str(), y.hostname.as_str()) && x.port == y.port && x.scheme
                == y.scheme && opt_str_eq(&x.server_name, &y.server_name) && opt_str_eq(
                &x.ca_bundle,
                &y.ca_bundle,
            ) && x.weight == y.weight && x.refresh_secs == y.refresh_secs && x.stale_after_secs
                == y.stale_after_secs && x.max_answers == y.max_answers
        },
        _ => false,
    }
}

/// A copy of a provider policy.
pub fn copy_policy(p: &ProviderConfig) -> (r: ProviderConfig)
    ensures
        policy_eq(r, *p),
{
    match p {
        ProviderConfig::File(x) => ProviderConfig::File(
            FileProviderConfig {
                id: String::from_str(x.id.as_str()),
                enabled: x.enabled,
                upstream_group: String::from_str(x.upstream_group.as_str()),
                path: String::from_str(x.path.as_str()),
                scheme: x.scheme,
                server_name: copy_opt_str(&x.server_name),
                ca_bundle: copy_opt_str(&x.ca_bundle),
                refresh_secs: x.refresh_secs,
                debounce_millis: x.debounce_millis,
                stale_after_secs: x.stale_after_secs,
                max_endpoints: x.max_endpoints,
            },
        ),
        ProviderConfig::Dns(x) => ProviderConfig::Dns(
            DnsProviderConfig {
                id: String::from_str(x.id.as_str()),
                enabled: x.enabled,
                upstream_group: String::from_str(x.upstream_group.as_str()),
                hostname: String::from_str(x.hostname.as_str()),
                port: x.port,
                scheme: x.scheme,
                server_name: copy_opt_str(&x.server_name),
                ca_bundle: copy_opt_str(&x.ca_bundle),
                weight: x.weight,
                refresh_secs: x.refresh_secs,
                stale_after_secs: x.stale_after_secs,
                max_answers: x.max_answers,
            },
        ),
    }
}

/// The state a provider starts a reconciliation with: its previous state
/// when that was built for the same policy, a fresh one otherwise.
pub fn carry_state(previous: Option<ProviderState>, provider: &ProviderConfig) -> (r: ProviderState)
    ensures
        policy_eq(r.policy, *provider),
        (previous matches Some(s) && policy_eq(s.policy, *provider)) ==> Some(r) == previous,
        !(previous matches Some(s) && policy_eq(s.policy, *provider)) ==> {
            &&& r.endpoints@.len() == 0
            &&& r.source_hash is None
            &&& r.last_attempt_ms is None
            &&& r.last_success_unix_secs is None
            &&& r.stale_until_ms is None
            &&& r.stale_at_unix_secs is None
            &&& r.pending_hash is None
            &&& r.pending_since_ms is None
            &&& r.error is None
        },
{
    match previous {
        Some(s) => {
            if same_policy(&s.policy, provider) {
                return s;
            }
        },
        None => {},
    }
    ProviderState::new(copy_policy(provider))
}

/// The bytes a DNS source hash covers: per address in order, `4` or `6`
/// and then its octets.
pub open spec fn dns_source_bytes(s: Seq<IpAddress>) -> Seq<u8>
    decreases s.len(),
{
    if s.len() == 0 {
        Seq::empty()
    } else {
        dns_source_bytes(s.drop_last()) + match s.last() {
            IpAddress::V4(_) => seq![4u8] + octets(s.last()),
            IpAddress::V6(_) => seq![6u8] + octets(s.last()),
        }
    }
}

/// Turns raw DNS answers into a resolution: more answers than the bound is
/// `answer_limit`; otherwise the normalized endpoints, with the SHA-256 of
/// the sorted distinct answers as the source hash.
pub fn resolve_dns_answers(provider: &DnsProviderConfig, raw: &[IpAddress]) -> (r: Result<
    (Vec<EndpointConfig>, Vec<u8>),
    ProviderFailure,
>)
    ensures
        raw@.len() > provider.max_answers ==> r == Err::<(Vec<EndpointConfig>, Vec<u8>), ProviderFailure>(
            ProviderFailure::AnswerLimit,
        ),
        raw@.len() <= provider.max_answers ==> match r {
            Err(f) => f == ProviderFailure::InvalidSource && (raw@.len() == 0 || unparsable_answer(
                *provider,
                answer_order(raw@),
            )),
            Ok((v, h)) => {
                let s = answer_order(raw@);
                &&& h@ == sha256_digest(dns_source_bytes(s))
                &&& v@.len() == s.len() > 0
                &&& forall|i: int|
                    0 <= i < s.len() ==> #[trigger] endpoint_matches(
                        v@[i],
                        dns_id_chars(s[i]),
                        SocketAddress { ip: s[i], port: provider.port },
                        provider.weight,
                        provider.scheme,
                        opt_view(provider.server_name),
                        opt_view(provider.ca_bundle),
                    )
            },
        },
        (raw@.len() <= provider.max_answers && raw@.len() > 0 && !unparsable_answer(
            *provider,
            answer_order(raw@),
        )) ==> r is Ok,
{
    if raw.len() > provider.max_answers {
        return Err(ProviderFailure::AnswerLimit);
    }
    let sorted = sorted_answers(raw);
    proof {
        lemma_answer_order_unique(sorted@, raw@);
        lemma_sorted_distinct_len(sorted@, raw@);
    }
    let endpoints = match dns_endpoints(provider, raw) {
        Ok(v) => v,
        Err(e) => {
            assert(e == ProviderError::Limit || e == ProviderError::Invalid);
            return Err(ProviderFailure::InvalidSource);
        },
    };
    let mut source: Vec<u8> = Vec::new();
    let mut i: usize = 0;
    while i < sorted.len()
        invariant
            i <= sorted@.len(),
            source@ == dns_source_bytes(sorted@.take(i as int)),
        decreases sorted@.len() - i,
    {
        let address = sorted[i];
        match address {
            IpAddress::V4(_) => source.push(4),
            IpAddress::V6(_) => source.push(6),
        }
        let octs = address_octets(address);
        append_bytes(&mut source, octs.as_slice());
        proof {
            assert(sorted@.take(i + 1).drop_last() =~= sorted@.take(i as int));
            assert(source@ =~= dns_source_bytes(sorted@.take(i + 1)));
        }
        i += 1;
    }
    proof {
        assert(sorted@.take(sorted@.len() as int) =~= sorted@);
    }
    let hash = sha256(source.as_slice());
    Ok((endpoints, hash))
}

/// Turns a parsed file document into a resolution: the normalized
/// endpoints, with the SHA-256 of the file bytes as the source hash; any
/// normalization failure is `invalid_source`.
pub fn resolve_file_document(
    provider: &FileProviderConfig,
    document: &FileProviderDocument,
    bytes: &[u8],
) -> (r: Result<(Vec<EndpointConfig>, Vec<u8>), ProviderFailure>)
    ensures
        r matches Err(f) ==> f == ProviderFailure::InvalidSource,
        r matches Ok((v, h)) ==> h@ == sha256_digest(bytes@) && v@.len() == document.endpoints@.len()
            && forall|i: int|
            0 <= i < v@.len() ==> #[trigger] endpoint_matches(
                v@[i],
                document.endpoints@[i].id@,
                document.endpoints@[i].address,
                document.endpoints@[i].weight,
                provider.scheme,
                opt_view(provider.server_name),
                opt_view(provider.ca_bundle),
            ),
        (document.schema_version == 1 && document.provider_id@ == provider.id@ && 0
            < document.endpoints@.len() <= provider.max_endpoints && !unparsable_record(
            *provider,
            document.endpoints@,
        )) ==> r is Ok,
{
    match file_endpoints(provider, document) {
        Ok(v) => Ok((v, sha256(bytes))),
        Err(e) => {
            assert(e == ProviderError::Identity || e == ProviderError::Limit || e == ProviderError::Invalid);
            Err(ProviderFailure::InvalidSource)
        },
    }
}

/// Two statuses agree in every field.
pub open spec fn status_eq(a: ProviderStatus, b: ProviderStatus) -> bool {
    &&& a.id@ == b.id@
    &&& a.kind@ == b.kind@
    &&& a.state@ == b.state@
    &&& opt_view(a.source_hash) == opt_view(b.source_hash)
    &&& a.last_success_unix_secs == b.last_success_unix_secs
    &&& a.stale_at_unix_secs == b.stale_at_unix_secs
    &&& a.endpoint_count == b.endpoint_count
    &&& match (a.error, b.error) {
        (Some(x), Some(y)) => x@ == y@,
        (None, None) => true,
        _ => false,
    }
}

fn copy_status(s: &ProviderStatus) -> (r: ProviderStatus)
    ensures
        status_eq(r, *s),
{
    ProviderStatus {
        id: String::from_str(s.id.as_str()),
        kind: s.kind,
        state: s.state,
        source_hash: copy_opt_str(&s.source_hash),
        last_success_unix_secs: s.last_success_unix_secs,
        stale_at_unix_secs: s.stale_at_unix_secs,
        endpoint_count: s.endpoint_count,
        error: s.error,
    }
}

/// The latest provider statuses, as one consistent snapshot.
#[derive(Debug)]
pub struct ProviderRegistry {
    statuses: Vec<ProviderStatus>,
}

impl ProviderRegistry {
    pub closed spec fn spec_statuses(&self) -> Seq<ProviderStatus> {
        self.statuses@
    }

    /// An empty registry.
    pub fn new() -> (r: ProviderRegistry)
        ensures
            r.spec_statuses().len() == 0,
    {
        ProviderRegistry { statuses: Vec::new() }
    }

    /// A copy of the current snapshot.
    pub fn statuses(&self) -> (r: Vec<ProviderStatus>)
        ensures
            r@.len() == self.spec_statuses().len(),
            forall|i: int| 0 <= i < r@.len() ==> status_eq(#[trigger] r@[i], self.spec_statuses()[i]),
    {
        let mut out: Vec<ProviderStatus> = Vec::new();
        let mut i: usize = 0;
        while i < self.statuses.len()
            invariant
                i <= self.statuses@.len(),
                out@.len() == i,
                forall|k: int| 0 <= k < i ==> status_eq(#[trigger] out@[k], self.statuses@[k]),
            decreases self.statuses@.len() - i,
        {
            out.push(copy_status(&self.statuses[i]));
            i += 1;
        }
        out
    }

    /// Replaces the snapshot as a whole.
    pub fn replace(&mut self, statuses: Vec<ProviderStatus>)
        ensures
            final(self).spec_statuses() == statuses@,
    {
        self.statuses = statuses;
    }
}

} // verus!
