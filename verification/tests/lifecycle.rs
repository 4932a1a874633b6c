use aegisproxy::discovery::ProviderStatus;
use aegisproxy::lifecycle::{
    provider_activation_error_code, provider_activation_failure_event, provider_failure,
    provider_rollback_outcome, provider_skipped_event,
    reconcile_action, ActivationError, PassDecision, ProviderAuditOutcome, ProviderMemory,
    ReconcileAction,
};
use aegisproxy::revision::RevisionError;

fn status(state: &'static str, error: Option<&'static str>, succeeded: bool) -> ProviderStatus {
    ProviderStatus {
        id: "nodes".into(),
        kind: "file",
        state,
        source_hash: None,
        last_success_unix_secs: if succeeded { Some(1) } else { None },
        stale_at_unix_secs: None,
        endpoint_count: 0,
        error,
    }
}

#[test]
fn activation_failures_have_bounded_rollback_audit_outcomes() {
    assert_eq!(
        provider_activation_error_code(&ActivationError::Probation),
        "probation_failed"
    );
    assert_eq!(
        provider_rollback_outcome(&ActivationError::Probation),
        Some((ProviderAuditOutcome::Success, None))
    );
    assert_eq!(
        provider_rollback_outcome(&ActivationError::RollbackFailed),
        Some((ProviderAuditOutcome::Failed, Some("rollback_failed")))
    );
    assert_eq!(
        provider_rollback_outcome(&ActivationError::RestartRequired),
        None
    );
    assert_eq!(
        provider_activation_error_code(&ActivationError::Revision(RevisionError::Conflict)),
        "activation_conflict"
    );
    assert_eq!(
        provider_activation_error_code(&ActivationError::Revision(RevisionError::Limit)),
        "activation_failed"
    );
}

#[test]
fn provider_failures_are_classified_in_order() {
    assert_eq!(provider_failure(&vec![status("fresh", None, true)]), None);
    assert_eq!(
        provider_failure(&vec![
            status("degraded", Some("invalid_source"), true),
            status("stale", Some("invalid_result"), true),
        ]),
        Some("provider_fetch_failed")
    );
    assert_eq!(
        provider_failure(&vec![status("stale", Some("invalid_result"), true)]),
        Some("provider_validation_rejected")
    );
    assert_eq!(
        provider_failure(&vec![status("stale", None, true)]),
        Some("provider_stale_rejected")
    );
}

#[test]
fn reconciliation_passes_are_classified() {
    let fingerprint = vec![1_u8; 32];
    assert_eq!(
        reconcile_action(false, &vec![status("pending", None, false)], &None, &fingerprint),
        ReconcileAction::Unresolved
    );
    assert_eq!(
        reconcile_action(true, &vec![status("disabled", None, false)], &None, &fingerprint),
        ReconcileAction::Disabled
    );
    assert_eq!(
        reconcile_action(false, &vec![status("disabled", None, false)], &None, &fingerprint),
        ReconcileAction::Candidate
    );
    assert_eq!(
        reconcile_action(
            false,
            &vec![status("fresh", None, true)],
            &Some(fingerprint.clone()),
            &fingerprint
        ),
        ReconcileAction::NoChange
    );
}

#[test]
fn audit_events_record_revisions_and_codes() {
    let skipped = provider_skipped_event("provider/file", "provider-file-3", "rev-a", "provider_no_change");
    assert_eq!(skipped.action, "provider_reconciliation_skip");
    assert_eq!(skipped.old_revision.as_deref(), Some("rev-a"));
    assert_eq!(skipped.new_revision.as_deref(), Some("rev-a"));
    assert_eq!(skipped.outcome, ProviderAuditOutcome::Success);
    assert_eq!(skipped.error_code, Some("provider_no_change"));
    let failed = provider_activation_failure_event("rev-b", "provider-file-4", "rev-a", "probation_failed");
    assert_eq!(failed.action, "provider_activate");
    assert_eq!(failed.resource_id, "rev-b");
    assert_eq!(failed.new_revision.as_deref(), Some("rev-b"));
    assert_eq!(failed.outcome, ProviderAuditOutcome::Failed);
}

#[test]
fn provider_memory_dedups_errors_and_remembers_settled_passes() {
    let mut memory = ProviderMemory::new(None);
    assert!(memory.load_failed("bad config"));
    assert!(!memory.load_failed("bad config"));
    assert!(memory.load_failed("other"));
    memory.load_succeeded();
    assert!(memory.load_failed("other"));

    let fresh = vec![status("fresh", None, true)];
    let fingerprint = vec![7u8; 32];
    assert_eq!(
        memory.decide(false, &fresh, &fingerprint, true),
        PassDecision::Act(ReconcileAction::Candidate)
    );
    memory.settle_active(&fingerprint, &"00000000000000000002-abc".to_string());
    assert_eq!(
        memory.decide(false, &fresh, &fingerprint, true),
        PassDecision::Act(ReconcileAction::NoChange)
    );
    assert_eq!(memory.last_provider_revision.as_deref(), Some("00000000000000000002-abc"));
    assert!(!memory.needs_base_reload("00000000000000000002-abc", "00000000000000000001-abc"));
    assert!(memory.needs_base_reload("00000000000000000003-abc", "00000000000000000001-abc"));
    assert!(!memory.needs_base_reload("00000000000000000001-abc", "00000000000000000001-abc"));

    let failing = vec![status("degraded", Some("invalid_source"), true)];
    assert_eq!(memory.decide(false, &failing, &fingerprint, false), PassDecision::AuditUnavailable);
    assert_eq!(
        memory.decide(false, &failing, &fingerprint, true),
        PassDecision::Act(ReconcileAction::NoChange)
    );

    memory.base_reloaded(None);
    assert!(memory.last_fingerprint.is_none());
    let disabled = vec![status("disabled", None, false)];
    assert_eq!(
        memory.decide(true, &disabled, &fingerprint, true),
        PassDecision::Act(ReconcileAction::Disabled)
    );
    memory.settle_disabled(&fingerprint);
    assert!(memory.last_provider_revision.is_none());
    assert_eq!(memory.last_fingerprint.as_deref(), Some(&fingerprint[..]));
}
