use aegisproxy::revision::{
    allocate_revision, candidate_step, CandidateStep,
    begin_activation, check_journal_shape, check_metadata, check_pointer_shape, commit_activation,
    find_by_hash, hex_sha256, mark_probation, next_sequence, prune_selection, recovery_candidate,
    revision_id, rollback_activation, validate_revision_id, validate_source, ActivationJournal,
    ActivationPhase, ActivePointer, RevisionError, RevisionMetadata, RevisionTarget,
};

fn target(sequence: u64) -> RevisionTarget {
    let hash = hex_sha256(format!("revision {sequence}").as_bytes());
    RevisionTarget {
        id: revision_id(sequence, &hash),
        sequence,
        hash,
    }
}

fn metadata(sequence: u64, created: u64) -> RevisionMetadata {
    let t = target(sequence);
    RevisionMetadata {
        id: t.id,
        sequence,
        hash: t.hash,
        created_unix_secs: created,
        source: "test".into(),
    }
}

#[test]
fn identifiers_are_padded_sequence_and_lowercase_hash() {
    let empty = hex_sha256(b"");
    assert_eq!(
        empty,
        "e3b0c44298fc1c149afbf4c8996fb92427ae41e4649b934ca495991b7852b855"
    );
    let id = revision_id(7, &empty);
    assert_eq!(id, format!("00000000000000000007-{empty}"));
    assert!(validate_revision_id(&id).is_ok());
    assert!(validate_revision_id("../active").is_err());
    assert!(validate_revision_id(&id.to_uppercase()).is_err());
    let meta = RevisionMetadata {
        id: id.clone(),
        sequence: 7,
        hash: empty.clone(),
        created_unix_secs: 1,
        source: "test".into(),
    };
    assert!(check_metadata(&id, &meta).is_ok());
    let mut other = meta.clone();
    other.sequence = 8;
    assert!(matches!(
        check_metadata(&id, &other),
        Err(RevisionError::InvalidStored(_))
    ));
}

#[test]
fn source_labels_are_bounded_and_printable() {
    assert!(validate_source("operator").is_ok());
    assert!(validate_source("").is_err());
    assert!(validate_source("bad\nsource").is_err());
    assert!(validate_source(&"x".repeat(129)).is_err());
    assert!(validate_source(&"x".repeat(128)).is_ok());
}

#[test]
fn next_sequence_follows_the_largest_stored_prefix() {
    let names = vec![
        format!("{}.toml", target(3).id),
        "notes.txt".to_string(),
        format!("{}.json", target(12).id),
    ];
    assert_eq!(next_sequence(&names), 13);
    assert_eq!(next_sequence(&vec![]), 1);
    let top = vec![format!("{}-x", u64::MAX)];
    assert_eq!(next_sequence(&top), u64::MAX);
}

#[test]
fn activation_is_compare_and_swap_and_rollback_restores_previous() {
    let first = target(1);
    let (journal, pointer) = begin_activation(&first, &None, None, 10).expect("first intent");
    assert_eq!(journal.phase, ActivationPhase::Intent);
    assert!(pointer.previous.is_none());
    let active = Some(pointer);
    let journal = mark_probation(Some(journal), &active, &first.id, 11).expect("first probation");
    let journal = commit_activation(Some(journal), &active, &first.id, 12).expect("first commit");
    assert_eq!(journal.phase, ActivationPhase::Committed);
    assert!(check_journal_shape(&journal).is_ok());

    let second = target(2);
    assert!(matches!(
        begin_activation(&second, &active, None, 20),
        Err(RevisionError::Conflict)
    ));
    let (journal, pointer) =
        begin_activation(&second, &active, Some(&first.id), 20).expect("second intent");
    assert_eq!(pointer.previous.as_ref().map(|t| t.id.clone()), Some(first.id.clone()));
    assert!(check_pointer_shape(&pointer).is_ok());
    let active = Some(pointer);
    let journal = mark_probation(Some(journal), &active, &second.id, 21).expect("second probation");
    assert!(matches!(
        commit_activation(Some(journal.clone()), &active, &first.id, 22),
        Err(RevisionError::Conflict)
    ));
    let (rolled, restored) = rollback_activation(Some(journal), &second.id, 23).expect("rollback");
    assert_eq!(rolled.phase, ActivationPhase::RolledBack);
    let restored = restored.expect("active pointer");
    assert_eq!(restored.active.id, first.id);
    assert!(restored.previous.is_none());
    assert!(matches!(
        rollback_activation(Some(rolled), &second.id, 24),
        Err(RevisionError::Conflict)
    ));
}

#[test]
fn restart_recovers_incomplete_activation_only() {
    let first = target(1);
    let (journal, _) = begin_activation(&first, &None, None, 10).expect("intent");
    assert_eq!(recovery_candidate(&Some(journal.clone())), Some(first.id.clone()));
    let (rolled, restored) = rollback_activation(Some(journal), &first.id, 11).expect("rollback");
    assert!(restored.is_none());
    assert_eq!(recovery_candidate(&Some(rolled)), None);
    assert_eq!(recovery_candidate(&None), None);
}

#[test]
fn shapes_refuse_self_references() {
    let first = target(1);
    let pointer = ActivePointer {
        schema_version: 1,
        active: first.clone(),
        previous: Some(first.clone()),
    };
    assert!(check_pointer_shape(&pointer).is_err());
    let journal = ActivationJournal {
        schema_version: 1,
        candidate: first.clone(),
        previous: None,
        phase: ActivationPhase::Intent,
        created_unix_secs: 10,
        updated_unix_secs: 9,
    };
    assert!(check_journal_shape(&journal).is_err());
}

#[test]
fn retention_prunes_old_candidates_but_protects_rollback_targets() {
    let now = 100_000_000;
    let old = now - 31 * 24 * 60 * 60;
    let revisions: Vec<RevisionMetadata> = (1..=73).map(|sequence| metadata(sequence, old)).collect();
    let pointer = Some(ActivePointer {
        schema_version: 1,
        active: target(73),
        previous: Some(target(2)),
    });
    let removed = prune_selection(&revisions, &pointer, &None, now);
    assert_eq!(removed, vec![0, 2]);
    let young: Vec<RevisionMetadata> = (1..=73).map(|sequence| metadata(sequence, now)).collect();
    assert!(prune_selection(&young, &pointer, &None, now).is_empty());
    let few: Vec<RevisionMetadata> = (1..=70).map(|sequence| metadata(sequence, old)).collect();
    assert!(prune_selection(&few, &None, &None, now).is_empty());
}

#[test]
fn candidates_deduplicate_by_hash() {
    let revisions = vec![metadata(1, 0), metadata(2, 0)];
    assert_eq!(find_by_hash(&revisions, &revisions[1].hash), Some(1));
    assert_eq!(find_by_hash(&revisions, &hex_sha256(b"other")), None);
}

#[test]
fn same_content_reuses_and_new_content_is_stored_after_retention() {
    let now = 100_000_000;
    let old = now - 31 * 24 * 60 * 60;
    let revisions: Vec<RevisionMetadata> = (1..=73).map(|sequence| metadata(sequence, old)).collect();
    let same = revisions[5].hash.clone();
    assert!(matches!(
        candidate_step(&revisions, &same, true, &None, &None, now),
        CandidateStep::Reuse(5)
    ));
    let CandidateStep::Store(removed) = candidate_step(&revisions, &same, false, &None, &None, now)
    else {
        panic!("forward revisions are always stored");
    };
    assert_eq!(removed, vec![0, 1, 2]);
    let fresh = hex_sha256(b"new content");
    assert!(matches!(
        candidate_step(&revisions, &fresh, true, &None, &None, now),
        CandidateStep::Store(_)
    ));
    let (id, next) = allocate_revision(74, &fresh).expect("sequence advances");
    assert_eq!(id, format!("00000000000000000074-{fresh}"));
    assert_eq!(next, 75);
    assert!(matches!(
        allocate_revision(u64::MAX, &fresh),
        Err(RevisionError::InvalidStored(message)) if message == "revision sequence overflow"
    ));
}
