//! Decisions of the provider reconciliation loop: how a pass is classified
//! from the providers' statuses, whether it must be audited, and how an
//! activation failure is recorded.

use vstd::prelude::*;
use vstd::string::StringExecFns;
use crate::text::str_eq;
use crate::discovery::ProviderStatus;
use crate::provider::ProviderConfig;
use crate::revision::RevisionError;

verus! {

/// Outcome recorded in a provider audit event.
#[derive(Clone, Copy, Debug, PartialEq, Eq, Structural)]
pub enum ProviderAuditOutcome {
    /// The pass started.
    Intent,
    /// The step succeeded.
    Success,
    /// The step failed.
    Failed,
}

/// Why activating a candidate failed.
#[derive(Debug)]
pub enum ActivationError {
    /// Durable revision state failed.
    Revision(RevisionError),
    /// Candidate runtime preparation failed.
    Preparation(String),
    /// Candidate requires process restart because listener/resource limits changed.
    RestartRequired,
    /// Structural probation rejected the published candidate.
    Probation,
    /// In-memory rollback succeeded but durable rollback failed.
    RecoveryRequired,
    /// Rolling back the rejected candidate failed.
    RollbackFailed,
}

/// Successful atomic activation outcome.
#[derive(Clone, Debug)]
pub struct ActivationResult {
    /// Newly active immutable revision ID.
    pub active: String,
    /// Previously active immutable revision ID, when present.
    pub previous: Option<String>,
}

/// One provider audit record.
#[derive(Clone, Debug)]
pub struct ProviderAuditEvent {
    pub action: &'static str,
    pub resource_id: String,
    pub request_id: String,
    pub old_revision: Option<String>,
    pub new_revision: Option<String>,
    pub outcome: ProviderAuditOutcome,
    pub error_code: Option<&'static str>,
}

/// A skipped pass: the active revision stays, recorded as a success with
/// the reason as its code.
pub fn provider_skipped_event(
    resource_id: &str,
    request_id: &str,
    active_revision: &str,
    reason: &'static str,
) -> (r: ProviderAuditEvent)
    ensures
        r.action@ == "provider_reconciliation_skip"@,
        r.resource_id@ == resource_id@,
        r.request_id@ == request_id@,
        r.old_revision matches Some(o) && o@ == active_revision@,
        r.new_revision matches Some(n) && n@ == active_revision@,
        r.outcome == ProviderAuditOutcome::Success,
        r.error_code == Some(reason),
{
    ProviderAuditEvent {
        action: "provider_reconciliation_skip",
        resource_id: String::from_str(resource_id),
        request_id: String::from_str(request_id),
        old_revision: Some(String::from_str(active_revision)),
        new_revision: Some(String::from_str(active_revision)),
        outcome: ProviderAuditOutcome::Success,
        error_code: Some(reason),
    }
}

/// A failed activation of a candidate, from the active revision.
pub fn provider_activation_failure_event(
    candidate_id: &str,
    request_id: &str,
    active_revision: &str,
    error_code: &'static str,
) -> (r: ProviderAuditEvent)
    ensures
        r.action@ == "provider_activate"@,
        r.resource_id@ == candidate_id@,
        r.request_id@ == request_id@,
        r.old_revision matches Some(o) && o@ == active_revision@,
        r.new_revision matches Some(n) && n@ == candidate_id@,
        r.outcome == ProviderAuditOutcome::Failed,
        r.error_code == Some(error_code),
{
    ProviderAuditEvent {
        action: "provider_activate",
        resource_id: String::from_str(candidate_id),
        request_id: String::from_str(request_id),
        old_revision: Some(String::from_str(active_revision)),
        new_revision: Some(String::from_str(candidate_id)),
        outcome: ProviderAuditOutcome::Failed,
        error_code: Some(error_code),
    }
}

pub open spec fn activation_error_code(e: ActivationError) -> Seq<char> {
    match e {
        ActivationError::Revision(RevisionError::Conflict) => "activation_conflict"@,
        ActivationError::RecoveryRequired => "recovery_required"@,
        ActivationError::RollbackFailed => "rollback_failed"@,
        ActivationError::RestartRequired => "restart_required"@,
        ActivationError::Probation => "probation_failed"@,
        _ => "activation_failed"@,
    }
}

/// The audit error code of a failed activation.
pub fn provider_activation_error_code(error: &ActivationError) -> (r: &'static str)
    ensures
        r@ == activation_error_code(*error),
{
    match error {
        ActivationError::Revision(RevisionError::Conflict) => "activation_conflict",
        ActivationError::RecoveryRequired => "recovery_required",
        ActivationError::RollbackFailed => "rollback_failed",
        ActivationError::RestartRequired => "restart_required",
        ActivationError::Probation => "probation_failed",
        ActivationError::Revision(_) | ActivationError::Preparation(_) => "activation_failed",
    }
}

/// The rollback audit a failed activation needs: a successful rollback
/// after probation, a failed one when rolling back failed, none otherwise.
pub fn provider_rollback_outcome(error: &ActivationError) -> (r: Option<
    (ProviderAuditOutcome, Option<&'static str>),
>)
    ensures
        match *error {
            ActivationError::Probation => r == Some((ProviderAuditOutcome::Success, None::<&'static str>)),
            ActivationError::RollbackFailed => r matches Some((o, Some(c))) && o
                == ProviderAuditOutcome::Failed && c@ == "rollback_failed"@,
            _ => r is None,
        },
{
    match error {
        ActivationError::Probation => Some((ProviderAuditOutcome::Success, None)),
        ActivationError::RollbackFailed => Some((ProviderAuditOutcome::Failed, Some("rollback_failed"))),
        _ => None,
    }
}

/// The failure one provider status reports: a rejected result first, then
/// staleness, then any other fetch error.
pub open spec fn status_failure(s: ProviderStatus) -> Option<Seq<char>> {
    if s.error matches Some(e) && e@ == "invalid_result"@ {
        Some("provider_validation_rejected"@)
    } else if s.state@ == "stale"@ {
        Some("provider_stale_rejected"@)
    } else if s.error is Some {
        Some("provider_fetch_failed"@)
    } else {
        None
    }
}

/// The first failure among the statuses, in provider order.
pub open spec fn first_failure(statuses: Seq<ProviderStatus>, i: int) -> Option<Seq<char>>
    decreases statuses.len() - i,
{
    if i < 0 || i >= statuses.len() {
        None
    } else if status_failure(statuses[i]) is Some {
        status_failure(statuses[i])
    } else {
        first_failure(statuses, i + 1)
    }
}

fn failure_of(s: &ProviderStatus) -> (r: Option<&'static str>)
    ensures
        match status_failure(*s) {
            Some(c) => r matches Some(t) && t@ == c,
            None => r is None,
        },
{
    proof {
        reveal_strlit("invalid_result");
        reveal_strlit("stale");
    }
    match s.error {
        Some(e) => {
            if str_eq(e, "invalid_result") {
                return Some("provider_validation_rejected");
            }
        },
        None => {},
    }
    if str_eq(s.state, "stale") {
        return Some("provider_stale_rejected");
    }
    if s.error.is_some() {
        return Some("provider_fetch_failed");
    }
    None
}

/// The audit error code of a reconciliation pass whose providers failed.
pub fn provider_failure(statuses: &Vec<ProviderStatus>) -> (r: Option<&'static str>)
    ensures
        match first_failure(statuses@, 0) {
            Some(c) => r matches Some(t) && t@ == c,
            None => r is None,
        },
{
    let mut i: usize = 0;
    while i < statuses.len()
        invariant
            i <= statuses@.len(),
            first_failure(statuses@, 0) == first_failure(statuses@, i as int),
        decreases statuses@.len() - i,
    {
        let f = failure_of(&statuses[i]);
        if f.is_some() {
            return f;
        }
        i += 1;
    }
    None
}

/// A provider that has never succeeded and is pending or stale.
pub open spec fn unresolved(s: ProviderStatus) -> bool {
    (s.state@ == "pending"@ || s.state@ == "stale"@) && s.last_success_unix_secs is None
}

/// Whether some provider has not produced a usable first result yet.
pub fn source_unresolved(statuses: &Vec<ProviderStatus>) -> (r: bool)
    ensures
        r == exists|i: int| 0 <= i < statuses@.len() && unresolved(#[trigger] statuses@[i]),
{
    proof {
        reveal_strlit("pending");
        reveal_strlit("stale");
    }
    let mut i: usize = 0;
    while i < statuses.len()
        invariant
            i <= statuses@.len(),
            forall|k: int| 0 <= k < i ==> !unresolved(#[trigger] statuses@[k]),
        decreases statuses@.len() - i,
    {
        let s = &statuses[i];
        if (str_eq(s.state, "pending") || str_eq(s.state, "stale")) && s.last_success_unix_secs.is_none() {
            return true;
        }
        i += 1;
    }
    false
}

/// Whether every provider is disabled.
pub fn all_disabled(statuses: &Vec<ProviderStatus>) -> (r: bool)
    ensures
        r == forall|i: int| 0 <= i < statuses@.len() ==> (#[trigger] statuses@[i]).state@ == "disabled"@,
{
    proof {
        reveal_strlit("disabled");
    }
    let mut i: usize = 0;
    while i < statuses.len()
        invariant
            i <= statuses@.len(),
            forall|k: int| 0 <= k < i ==> (#[trigger] statuses@[k]).state@ == "disabled"@,
        decreases statuses@.len() - i,
    {
        if !str_eq(statuses[i].state, "disabled") {
            return false;
        }
        i += 1;
    }
    true
}

pub open spec fn any_enabled(providers: Seq<ProviderConfig>) -> bool {
    exists|i: int| 0 <= i < providers.len() && (#[trigger] providers[i]).spec_enabled()
}

fn some_enabled(providers: &Vec<ProviderConfig>) -> (r: bool)
    ensures
        r == any_enabled(providers@),
{
    let mut i: usize = 0;
    while i < providers.len()
        invariant
            i <= providers@.len(),
            forall|k: int| 0 <= k < i ==> !(#[trigger] providers@[k]).spec_enabled(),
        decreases providers@.len() - i,
    {
        if providers[i].enabled() {
            return true;
        }
        i += 1;
    }
    false
}

/// A pass must be audited durably when a provider is enabled in the new
/// base or in the active configuration.
pub fn provider_audit_required(base: &Vec<ProviderConfig>, active: &Vec<ProviderConfig>) -> (r: bool)
    ensures
        r == (any_enabled(base@) || any_enabled(active@)),
{
    some_enabled(base) || some_enabled(active)
}

/// What a reconciliation pass does once the providers were refreshed.
#[derive(Clone, Copy, Debug, PartialEq, Eq, Structural)]
pub enum ReconcileAction {
    /// A provider has no usable first result: keep the active configuration.
    Unresolved,
    /// Every typed provider is disabled: record the fingerprint and skip.
    Disabled,
    /// The reconciled configuration did not change: skip.
    NoChange,
    /// Persist and activate a candidate.
    Candidate,
}

pub open spec fn reconcile_action_spec(
    typed: bool,
    statuses: Seq<ProviderStatus>,
    last_fingerprint: Option<Seq<u8>>,
    fingerprint: Seq<u8>,
) -> ReconcileAction {
    if exists|i: int| 0 <= i < statuses.len() && unresolved(#[trigger] statuses[i]) {
        ReconcileAction::Unresolved
    } else if typed && forall|i: int| 0 <= i < statuses.len() ==> (#[trigger] statuses[i]).state@ == "disabled"@ {
        ReconcileAction::Disabled
    } else if last_fingerprint == Some(fingerprint) {
        ReconcileAction::NoChange
    } else {
        ReconcileAction::Candidate
    }
}

/// Classifies a reconciliation pass (`typed` for typed-revision mode).
pub fn reconcile_action(
    typed: bool,
    statuses: &Vec<ProviderStatus>,
    last_fingerprint: &Option<Vec<u8>>,
    fingerprint: &Vec<u8>,
) -> (r: ReconcileAction)
    ensures
        r == reconcile_action_spec(
            typed,
            statuses@,
            match last_fingerprint {
                Some(f) => Some(f@),
                None => None,
            },
            fingerprint@,
        ),
{
    if source_unresolved(statuses) {
        return ReconcileAction::Unresolved;
    }
    if typed && all_disabled(statuses) {
        return ReconcileAction::Disabled;
    }
    let same = match last_fingerprint {
        Some(f) => crate::text::slice_eq(f.as_slice(), fingerprint.as_slice()),
        None => false,
    };
    if same {
        ReconcileAction::NoChange
    } else {
        ReconcileAction::Candidate
    }
}


/// Byte view of an optional fingerprint.
pub open spec fn fingerprint_view(f: Option<Vec<u8>>) -> Option<Seq<u8>> {
    match f {
        Some(v) => Some(v@),
        None => None,
    }
}

/// Text view of an optional revision or message.
pub open spec fn text_view(t: Option<String>) -> Option<Seq<char>> {
    match t {
        Some(v) => Some(v@),
        None => None,
    }
}

/// What the provider loop remembers from one pass to the next: the
/// fingerprint of the last settled reconciliation, the revision it last
/// produced or found active, and the last load error it reported.
#[derive(Debug)]
pub struct ProviderMemory {
    /// Fingerprint of the last reconciliation that needs no new candidate.
    pub last_fingerprint: Option<Vec<u8>>,
    /// Revision the providers last produced or found active.
    pub last_provider_revision: Option<String>,
    /// Last configuration load error reported.
    pub last_error: Option<String>,
}

/// What a pass does once its providers were refreshed.
#[derive(Clone, Copy, Debug, PartialEq, Eq, Structural)]
pub enum PassDecision {
    /// A provider failure could not be audited: keep the active configuration.
    AuditUnavailable,
    /// The reconciliation classified as this action.
    Act(ReconcileAction),
}

/// The decision after a refresh: an unaudited provider failure stops the
/// pass; otherwise the pass is classified against the remembered
/// fingerprint.
pub open spec fn pass_decision_spec(
    typed: bool,
    statuses: Seq<ProviderStatus>,
    last_fingerprint: Option<Seq<u8>>,
    fingerprint: Seq<u8>,
    failure_audited: bool,
) -> PassDecision {
    if first_failure(statuses, 0) is Some && !failure_audited {
        PassDecision::AuditUnavailable
    } else {
        PassDecision::Act(reconcile_action_spec(typed, statuses, last_fingerprint, fingerprint))
    }
}

fn copy_text(t: &String) -> (r: String)
    ensures
        r@ == t@,
{
    String::from_str(t.as_str())
}

impl ProviderMemory {
    /// Nothing remembered yet, apart from the provider revision a typed
    /// base was loaded with.
    pub fn new(last_provider_revision: Option<String>) -> (r: ProviderMemory)
        ensures
            r.last_fingerprint is None,
            r.last_provider_revision == last_provider_revision,
            r.last_error is None,
    {
        ProviderMemory { last_fingerprint: None, last_provider_revision, last_error: None }
    }

    /// A configuration load failed with `message`: it is reported only when
    /// it differs from the last one reported, and is remembered.
    pub fn load_failed(&mut self, message: &str) -> (report: bool)
        ensures
            report == (text_view(old(self).last_error) != Some(message@)),
            text_view(final(self).last_error) == Some(message@),
            final(self).last_fingerprint == old(self).last_fingerprint,
            final(self).last_provider_revision == old(self).last_provider_revision,
    {
        let same = match &self.last_error {
            Some(e) => str_eq(e.as_str(), message),
            None => false,
        };
        if !same {
            self.last_error = Some(String::from_str(message));
        }
        !same
    }

    /// A configuration loaded: the next failure is reported again.
    pub fn load_succeeded(&mut self)
        ensures
            final(self).last_error is None,
            final(self).last_fingerprint == old(self).last_fingerprint,
            final(self).last_provider_revision == old(self).last_provider_revision,
    {
        self.last_error = None;
    }

    /// Whether a typed base must be reloaded: the active revision is
    /// neither the base's nor one the providers produced.
    pub fn needs_base_reload(&self, active: &str, base_revision: &str) -> (r: bool)
        ensures
            r == (active@ != base_revision@ && text_view(self.last_provider_revision) != Some(active@)),
    {
        if str_eq(active, base_revision) {
            return false;
        }
        match &self.last_provider_revision {
            Some(p) => !str_eq(p.as_str(), active),
            None => true,
        }
    }

    /// A typed base was reloaded: the fingerprint is forgotten and the
    /// base's provider revision remembered.
    pub fn base_reloaded(&mut self, provider_revision: Option<String>)
        ensures
            final(self).last_fingerprint is None,
            final(self).last_provider_revision == provider_revision,
            final(self).last_error == old(self).last_error,
    {
        self.last_fingerprint = None;
        self.last_provider_revision = provider_revision;
    }

    /// Decides a pass after its providers were refreshed.
    pub fn decide(
        &self,
        typed: bool,
        statuses: &Vec<ProviderStatus>,
        fingerprint: &Vec<u8>,
        failure_audited: bool,
    ) -> (r: PassDecision)
        ensures
            r == pass_decision_spec(
                typed,
                statuses@,
                fingerprint_view(self.last_fingerprint),
                fingerprint@,
                failure_audited,
            ),
    {
        if provider_failure(statuses).is_some() && !failure_audited {
            return PassDecision::AuditUnavailable;
        }
        PassDecision::Act(reconcile_action(typed, statuses, &self.last_fingerprint, fingerprint))
    }

    /// Every typed provider is disabled: the fingerprint is remembered and
    /// no provider revision stands.
    pub fn settle_disabled(&mut self, fingerprint: &Vec<u8>)
        ensures
            fingerprint_view(final(self).last_fingerprint) == Some(fingerprint@),
            final(self).last_provider_revision is None,
            final(self).last_error == old(self).last_error,
    {
        self.last_fingerprint = Some(fingerprint.clone());
        self.last_provider_revision = None;
    }

    /// The pass's candidate is active (it was already, or it was just
    /// activated): its fingerprint and revision are remembered.
    pub fn settle_active(&mut self, fingerprint: &Vec<u8>, revision: &String)
        ensures
            fingerprint_view(final(self).last_fingerprint) == Some(fingerprint@),
            text_view(final(self).last_provider_revision) == Some(revision@),
            final(self).last_error == old(self).last_error,
    {
        self.last_fingerprint = Some(fingerprint.clone());
        self.last_provider_revision = Some(copy_text(revision));
    }
}

/// Once a reconciliation is settled, a later pass with the same fingerprint
/// never creates a candidate.
pub proof fn lemma_settled_fingerprint_creates_nothing(
    typed: bool,
    statuses: Seq<ProviderStatus>,
    fingerprint: Seq<u8>,
    failure_audited: bool,
)
    ensures
        pass_decision_spec(typed, statuses, Some(fingerprint), fingerprint, failure_audited)
            != PassDecision::Act(ReconcileAction::Candidate),
{
}

} // verus!
