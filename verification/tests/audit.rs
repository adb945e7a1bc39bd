use sha2::{Digest, Sha256};
use vor_commander::audit::{
    digest_array, encode_event, encode_record, lock_is_abandoned, next_lock_action, retry_again,
    AuditError, AuditEvent, ExecutionRecoveryState, Ledger, LockAction, LockEvent,
    ABANDONED_LOCK_AGE_MS, LOCK_RETRY_ATTEMPTS,
};

fn event(id: &str) -> AuditEvent {
    AuditEvent {
        timestamp_unix_ms: 1,
        organization_id: "org".into(),
        actor_id: "actor".into(),
        device_id: "device".into(),
        request_id: id.into(),
        action: "filesystem.read".into(),
        target: r"D:\Proyectos\x".into(),
        outcome: "auto".into(),
        envelope_digest: [9; 32],
    }
}

fn event_for_org(org: &str, id: &str) -> AuditEvent {
    let mut event = event(id);
    event.organization_id = org.to_owned();
    event
}

fn empty() -> Ledger {
    Ledger::open(Vec::new(), Vec::new(), Vec::new(), Vec::new()).unwrap()
}

/// The ledger as it is found again in its stores.
fn reopen(ledger: Ledger) -> Result<Ledger, AuditError> {
    Ledger::open(
        ledger.rows,
        ledger.journal,
        ledger.consumptions,
        ledger.executions,
    )
}

/// A ledger that was opened earlier, when the stores ended with another record,
/// over the stores as they are now.
fn beside(stores: Ledger, last_sequence: u64, last_hash: [u8; 32]) -> Ledger {
    Ledger {
        last_sequence,
        last_hash,
        ..stores
    }
}

#[test]
fn append_reopen_and_verify() {
    let mut ledger = empty();
    ledger.append(event("r1")).unwrap();
    ledger.append(event("r2")).unwrap();
    ledger.verify_integrity().unwrap();
    assert_eq!(ledger.last_sequence(), 2);
    let ledger = reopen(ledger).unwrap();
    ledger.verify_integrity().unwrap();
    assert_eq!(ledger.last_sequence(), 2);
}

#[test]
fn detects_jsonl_divergence() {
    let mut ledger = empty();
    ledger.append(event("r1")).unwrap();
    ledger.journal.clear();
    assert!(matches!(reopen(ledger), Err(AuditError::Divergence)));
}

#[test]
fn tenant_scoped_reader_returns_only_requested_organization_records() {
    let mut ledger = empty();
    ledger.append(event_for_org("org-a", "a1")).unwrap();
    ledger.append(event_for_org("org-b", "b1")).unwrap();
    ledger.append(event_for_org("org-a", "a2")).unwrap();

    let org_a = ledger.records_for_organization("org-a").unwrap();
    assert_eq!(org_a.len(), 2);
    assert!(org_a
        .iter()
        .all(|record| record.event.organization_id == "org-a"));
    assert!(org_a
        .iter()
        .all(|record| !record.event.request_id.starts_with('b')));

    let org_b = ledger.records_for_organization("org-b").unwrap();
    assert_eq!(org_b.len(), 1);
    assert_eq!(org_b[0].event.request_id, "b1");

    let foreign_existing = ledger.records_for_organization("org-b").unwrap();
    let foreign_missing = ledger
        .records_for_organization("org-does-not-exist")
        .unwrap();
    assert_eq!(foreign_existing.len(), 1);
    assert!(foreign_missing.is_empty());
    assert!(foreign_existing
        .iter()
        .all(|record| record.event.organization_id == "org-b"));
}

#[test]
fn legacy_consumed_event_is_migrated_into_claim_table() {
    let mut event = event("legacy-consumed");
    event.outcome = "approval_consumed".into();
    let digest = event.envelope_digest;
    let mut ledger = empty();
    ledger.append(event).unwrap();
    ledger.verify_integrity().unwrap();
    ledger.consumptions.clear();

    let mut reopened = reopen(ledger).unwrap();
    assert!(!reopened
        .claim_approval_consumed("legacy-consumed", &digest, 2)
        .unwrap());
}

#[test]
fn independent_ledgers_append_distinct_events_without_stale_sequence_collision() {
    let mut a = empty();
    let b = empty();
    a.append(event("from-a")).unwrap();
    let (sequence, hash) = (a.last_sequence(), a.last_hash());
    let mut b = beside(a, b.last_sequence(), b.last_hash());
    assert_eq!(b.append(event("from-b")).unwrap().sequence, 2);
    let mut a = beside(b, sequence, hash);
    assert_eq!(a.last_sequence(), 1);
    assert_eq!(a.append(event("from-a-again")).unwrap().sequence, 3);

    let reopened = reopen(a).unwrap();
    reopened.verify_integrity().unwrap();
    assert_eq!(reopened.last_sequence(), 3);
    let records = reopened.records_for_organization("org").unwrap();
    assert_eq!(records.len(), 3);
    assert_eq!(records[0].event.request_id, "from-a");
    assert_eq!(records[1].event.request_id, "from-b");
    assert_eq!(records[2].event.request_id, "from-a-again");
}

#[test]
fn stale_ends_are_replaced_by_those_of_the_stores() {
    let mut ledger = empty();
    ledger.append(event("r1")).unwrap();
    let second = ledger.append(event("r2")).unwrap();
    let mut stale = beside(ledger, 7, [5; 32]);
    let third = stale.append(event("r3")).unwrap();
    assert_eq!(third.sequence, 3);
    assert_eq!(third.previous_hash, second.record_hash);
    assert_eq!(stale.last_sequence(), 3);
    assert_eq!(stale.last_hash(), third.record_hash);
    stale.verify_integrity().unwrap();
    let mut diverged = beside(stale, 0, [0; 32]);
    diverged.journal.pop();
    assert!(matches!(
        diverged.append(event("r4")),
        Err(AuditError::Divergence)
    ));
    assert_eq!(diverged.rows.len(), 3);
}

#[test]
fn the_chain_is_checked_apart_from_the_journal() {
    let mut ledger = empty();
    ledger.append(event("r1")).unwrap();
    ledger.append(event("r2")).unwrap();
    ledger.journal.clear();
    ledger.verify_chain().unwrap();
    assert!(matches!(
        ledger.verify_integrity(),
        Err(AuditError::Divergence)
    ));
    ledger.rows[1].event_json.push(' ');
    assert!(matches!(
        ledger.verify_chain(),
        Err(AuditError::HashMismatch(2))
    ));
    assert!(matches!(
        ledger.verify_integrity(),
        Err(AuditError::HashMismatch(2))
    ));
}

#[test]
fn texts_are_escaped_as_json_has_it() {
    let mut text: String = (0..=0x7fu8).map(char::from).collect();
    text.push_str("caf\u{e9} \u{2028} \u{1f600} \u{80}");
    let mut odd = event("r1");
    odd.target = text.clone();
    let written = encode_event(&odd);
    let shown = serde_json::to_string(&text).unwrap();
    assert!(written.contains(&format!("\"target\":{shown},")));
    assert!(written.contains("\\u0000\\u0001"));
    assert!(written.contains("\\b\\t\\n\\u000b\\f\\r\\u000e"));
    let read: serde_json::Value = serde_json::from_str(&written).unwrap();
    assert_eq!(read["target"].as_str(), Some(text.as_str()));
}

#[test]
fn a_record_is_hashed_with_what_came_before() {
    let mut ledger = empty();
    let first = ledger.append(event("r1")).unwrap();
    let second = ledger.append(event("r2")).unwrap();
    assert_eq!(first.previous_hash, [0; 32]);
    assert_eq!(second.previous_hash, first.record_hash);
    let mut hasher = Sha256::new();
    hasher.update(first.record_hash);
    hasher.update(2u64.to_be_bytes());
    hasher.update(encode_event(&event("r2")).as_bytes());
    assert_eq!(hasher.finalize().to_vec(), second.record_hash.to_vec());
    assert_eq!(ledger.last_hash(), second.record_hash);
}

#[test]
fn events_are_written_as_json() {
    let mut quoted = event("r\"1\"");
    quoted.envelope_digest = [0; 32];
    quoted.envelope_digest[31] = 255;
    let expected = String::from("{\"timestamp_unix_ms\":1,\"organization_id\":\"org\",")
        + "\"actor_id\":\"actor\",\"device_id\":\"device\",\"request_id\":\"r\\\"1\\\"\","
        + "\"action\":\"filesystem.read\",\"target\":\"D:\\\\Proyectos\\\\x\",\"outcome\":\"auto\","
        + "\"envelope_digest\":[0,0,0,0,0,0,0,0,0,0,0,0,0,0,0,0,0,0,0,0,0,0,0,0,0,0,0,0,0,0,0,255]}";
    assert_eq!(encode_event(&quoted), expected);
}

#[test]
fn records_are_written_with_their_event() {
    let mut ledger = empty();
    let record = ledger.append(event("r1")).unwrap();
    let line = encode_record(&record);
    assert!(line.starts_with("{\"sequence\":1,\"previous_hash\":[0,0,"));
    assert!(line.ends_with(&format!(",\"event\":{}}}", encode_event(&event("r1")))));
}

#[test]
fn altered_texts_are_noticed() {
    let mut ledger = empty();
    ledger.append(event("r1")).unwrap();
    ledger.append(event("r2")).unwrap();
    ledger.rows[0].event_json.push(' ');
    assert!(matches!(
        ledger.verify_integrity(),
        Err(AuditError::HashMismatch(1))
    ));
}

#[test]
fn broken_rows_are_told_apart() {
    let mut negative = empty();
    negative.append(event("r1")).unwrap();
    negative.rows[0].sequence = -1;
    assert!(matches!(
        negative.verify_integrity(),
        Err(AuditError::InvalidSequence)
    ));
    let mut no_hash = empty();
    no_hash.append(event("r1")).unwrap();
    no_hash.rows[0].record_hash = "zz".into();
    assert!(matches!(
        no_hash.verify_integrity(),
        Err(AuditError::InvalidHash)
    ));
    let mut no_event = empty();
    no_event.append(event("r1")).unwrap();
    no_event.rows[0].event = None;
    assert!(matches!(no_event.verify_integrity(), Err(AuditError::Json)));
}

#[test]
fn approvals_are_claimed_once() {
    let mut ledger = empty();
    assert!(ledger.claim_approval_consumed("r1", &[9; 32], 2).unwrap());
    assert!(!ledger.claim_approval_consumed("r1", &[9; 32], 3).unwrap());
    assert!(ledger.claim_approval_consumed("r1", &[8; 32], 3).unwrap());
    assert!(matches!(
        ledger.claim_approval_consumed("r2", &[9; 32], u64::MAX),
        Err(AuditError::InvalidSequence)
    ));
    assert_eq!(
        ledger.execution_recovery_state("r1", &[9; 32]),
        Ok(Some(ExecutionRecoveryState::NotExecuted))
    );
}

#[test]
fn executions_are_noted_once_they_are_claimed() {
    let mut ledger = empty();
    assert!(matches!(
        ledger.set_execution_recovery_state(
            "r1",
            &[9; 32],
            ExecutionRecoveryState::Completed,
            4
        ),
        Err(AuditError::MissingExecutionState)
    ));
    ledger.claim_approval_consumed("r1", &[9; 32], 2).unwrap();
    ledger
        .set_execution_recovery_state("r1", &[9; 32], ExecutionRecoveryState::Completed, 4)
        .unwrap();
    assert_eq!(
        ledger.execution_recovery_state("r1", &[9; 32]),
        Ok(Some(ExecutionRecoveryState::Completed))
    );
    assert_eq!(ledger.executions[0].updated_at_unix_ms, 4);
    assert_eq!(ledger.execution_recovery_state("r2", &[9; 32]), Ok(None));
}

#[test]
fn states_are_read_as_they_are_written() {
    for state in [
        ExecutionRecoveryState::NotExecuted,
        ExecutionRecoveryState::EffectUncertain,
        ExecutionRecoveryState::EffectApplied,
        ExecutionRecoveryState::PostEffectUncertain,
        ExecutionRecoveryState::Completed,
    ] {
        assert_eq!(ExecutionRecoveryState::parse(state.as_str()), Ok(state));
    }
    assert_eq!(
        ExecutionRecoveryState::parse("running"),
        Err(AuditError::InvalidExecutionState)
    );
}

#[test]
fn outcomes_are_found_by_request_and_digest() {
    let mut ledger = empty();
    ledger.append(event("r1")).unwrap();
    assert_eq!(ledger.has_outcome_for("r1", &[9; 32], "auto"), Ok(true));
    assert_eq!(ledger.has_outcome_for("r1", &[9; 32], "deny"), Ok(false));
    assert_eq!(ledger.has_outcome_for("r1", &[8; 32], "auto"), Ok(false));
}

#[test]
fn locks_are_waited_for_and_given_up() {
    assert_eq!(next_lock_action(1, LockEvent::Created), LockAction::Enter);
    assert_eq!(
        next_lock_action(1, LockEvent::Held),
        LockAction::WaitAndTryAgain
    );
    assert_eq!(
        next_lock_action(LOCK_RETRY_ATTEMPTS, LockEvent::Held),
        LockAction::GiveUp
    );
    assert_eq!(
        next_lock_action(1, LockEvent::Abandoned),
        LockAction::Remove
    );
    assert_eq!(
        next_lock_action(1, LockEvent::Removed),
        LockAction::TryAgain
    );
    assert_eq!(next_lock_action(1, LockEvent::Failed), LockAction::Fail);
    assert!(retry_again(0, true));
    assert!(!retry_again(0, false));
    assert!(!retry_again(LOCK_RETRY_ATTEMPTS - 1, true));
}

#[test]
fn old_locks_are_abandoned() {
    assert!(lock_is_abandoned("1000\n", 1000 + ABANDONED_LOCK_AGE_MS));
    assert!(!lock_is_abandoned("1000\n", 999 + ABANDONED_LOCK_AGE_MS));
    assert!(!lock_is_abandoned("held", u64::MAX));
    assert!(!lock_is_abandoned("2000", 1000));
}

#[test]
fn hashes_are_read_as_arrays() {
    assert_eq!(digest_array(&[7; 32]), [7; 32]);
}
