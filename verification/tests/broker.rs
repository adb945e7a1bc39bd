use vor_commander::approval::{
    approver_public_key, sign_approval, ApprovalChallenge, ApprovalError, ApprovalVerifier,
};
use vor_commander::audit::{AuditError, ExecutionRecoveryState, Ledger};
use vor_commander::broker::{Broker, CoreError};
use vor_commander::policy::{
    AuditPolicy, BrowserPolicy, DesktopPolicy, FilesystemRule, NetworkPolicy, PolicyConfig,
    PolicyEngine, ProcessPolicy, RuleDecision, TerminalPolicy,
};
use vor_commander::protocol::{ActionEnvelope, ActionRequest, ProtocolError};

fn request(action: &str, target: &str) -> ActionRequest {
    ActionRequest {
        envelope: ActionEnvelope {
            request_id: "req".into(),
            organization_id: "org".into(),
            actor_id: "actor".into(),
            device_id: "device".into(),
            action: action.into(),
            target: target.into(),
            parameters: Vec::new(),
            requested_capabilities: vec![],
            expires_at_unix_ms: 10_000,
            nonce: vec![3; 16],
        },
        envelope_digest: [4; 32],
    }
}

fn policy() -> PolicyEngine {
    PolicyEngine::from_config(PolicyConfig {
        version: 1,
        policy_id: "local-default".into(),
        filesystem: vec![FilesystemRule {
            path: r"D:\Proyectos".into(),
            read: RuleDecision::Auto,
            write: RuleDecision::Auto,
        }],
        terminal: TerminalPolicy {
            default: RuleDecision::Approval,
            inline_eval: RuleDecision::ElevatedApproval,
            project_tests: RuleDecision::Auto,
            destructive: RuleDecision::Approval,
            elevated: RuleDecision::Approval,
        },
        process: ProcessPolicy {
            list: RuleDecision::Auto,
            inspect: RuleDecision::Auto,
            terminate: RuleDecision::Approval,
        },
        browser: BrowserPolicy {
            authenticated_session_use: RuleDecision::Approval,
            secret_extraction: RuleDecision::Deny,
            publish: RuleDecision::Approval,
            purchase: RuleDecision::Approval,
        },
        desktop: DesktopPolicy { enabled: true },
        network: NetworkPolicy {
            public_listener_fallback: RuleDecision::Deny,
        },
        audit: AuditPolicy {
            required: true,
            fail_if_unwritable: true,
        },
    })
    .unwrap()
}

fn broker() -> Broker {
    let ledger = Ledger::open(Vec::new(), Vec::new(), Vec::new(), Vec::new()).unwrap();
    Broker::new(policy(), ledger)
}

/// A broker over the stores of another.
fn reopened(broker: Broker) -> Broker {
    let ledger = broker.into_ledger();
    Broker::new(
        policy(),
        Ledger::open(
            ledger.rows,
            ledger.journal,
            ledger.consumptions,
            ledger.executions,
        )
        .unwrap(),
    )
}

#[test]
fn auto_request_is_audited_before_return() {
    let mut broker = broker();
    let authorization = broker
        .authorize_at(request("filesystem.read", r"D:\Proyectos\x"), Ok(()), 1)
        .unwrap();
    assert!(authorization.is_auto());
    assert_eq!(broker.ledger().last_sequence(), 1);
}

#[test]
fn unknown_action_is_denied_and_audited() {
    let mut broker = broker();
    let authorization = broker
        .authorize_at(request("future.magic", "x"), Ok(()), 1)
        .unwrap();
    assert!(authorization.is_denied());
    assert_eq!(broker.ledger().last_sequence(), 1);
}

#[test]
fn signed_approval_is_consumed_once_and_survives_reopen() {
    let mut broker = broker();
    let prepared = broker
        .authorize_at(request("terminal.elevated", "powershell"), Ok(()), 1)
        .unwrap();
    assert!(prepared.requires_approval());
    let challenge =
        ApprovalChallenge::issue(&prepared.request, &prepared.decision, Ok(()), 1, 5_000).unwrap();
    let signing = rand::random::<[u8; 32]>();
    let approval = sign_approval(challenge, "operator-1".into(), &signing).unwrap();
    let mut verifier = ApprovalVerifier::new();
    verifier
        .add_approver("operator-1".into(), approver_public_key(&signing))
        .unwrap();
    let execution = broker
        .consume_approval_at(
            request("terminal.elevated", "powershell"),
            &approval,
            &verifier,
            Ok(()),
            2,
        )
        .unwrap();
    assert_eq!(execution.approver_id(), "operator-1");
    assert_eq!(broker.ledger().last_sequence(), 3);
    let mut reopened = reopened(broker);
    let replay = reopened.consume_approval_at(
        request("terminal.elevated", "powershell"),
        &approval,
        &verifier,
        Ok(()),
        3,
    );
    assert!(matches!(replay, Err(CoreError::ApprovalAlreadyConsumed)));
    assert_eq!(reopened.ledger().last_sequence(), 3);
}

#[test]
fn crashes_after_a_claim_never_free_the_approval() {
    let mut broker = broker();
    let prepared = broker
        .authorize_at(request("terminal.elevated", "powershell"), Ok(()), 1)
        .unwrap();
    let challenge =
        ApprovalChallenge::issue(&prepared.request, &prepared.decision, Ok(()), 1, 5_000).unwrap();
    let approval = sign_approval(challenge, "operator-1".into(), &[22; 32]).unwrap();
    let mut verifier = ApprovalVerifier::new();
    verifier
        .add_approver("operator-1".into(), approver_public_key(&[22; 32]))
        .unwrap();
    let make = || request("terminal.elevated", "powershell");
    broker
        .consume_approval_at(make(), &approval, &verifier, Ok(()), 2)
        .unwrap();

    let ledger = reopened(broker).into_ledger();
    let mut restarted = self::broker();
    restarted.resume(ledger);
    assert_eq!(
        restarted.execution_recovery_state(&make().envelope.request_id, &make().envelope_digest),
        Ok(Some(ExecutionRecoveryState::NotExecuted))
    );
    assert_eq!(
        restarted
            .consume_approval_at(make(), &approval, &verifier, Ok(()), 3)
            .err(),
        Some(CoreError::ApprovalAlreadyConsumed)
    );
}

#[test]
fn mutated_request_is_rejected_before_audit() {
    let mut broker = broker();
    let mut request = request("filesystem.read", r"D:\Proyectos\x");
    request.envelope.target.push_str("\\changed");
    let result = broker.authorize_at(request, Err(ProtocolError::DigestMismatch), 1);
    assert!(matches!(
        result,
        Err(CoreError::Protocol(ProtocolError::DigestMismatch))
    ));
    assert_eq!(broker.ledger().last_sequence(), 0);
}

#[test]
fn unprepared_and_foreign_approvals_are_refused() {
    let mut prepared = broker();
    let authorization = prepared
        .authorize_at(request("terminal.elevated", "powershell"), Ok(()), 1)
        .unwrap();
    let challenge = ApprovalChallenge::issue(
        &authorization.request,
        &authorization.decision,
        Ok(()),
        1,
        5_000,
    )
    .unwrap();
    let approval = sign_approval(challenge, "operator-1".into(), &[77; 32]).unwrap();
    let mut verifier = ApprovalVerifier::new();
    let nobody = prepared.consume_approval_at(
        request("terminal.elevated", "powershell"),
        &approval,
        &verifier,
        Ok(()),
        2,
    );
    assert!(matches!(
        nobody,
        Err(CoreError::Approval(ApprovalError::UnknownApprover))
    ));
    verifier
        .add_approver("operator-1".into(), approver_public_key(&[77; 32]))
        .unwrap();
    let mut unprepared = broker();
    let early = unprepared.consume_approval_at(
        request("terminal.elevated", "powershell"),
        &approval,
        &verifier,
        Ok(()),
        2,
    );
    assert!(matches!(early, Err(CoreError::ApprovalNotPrepared)));
    assert_eq!(unprepared.ledger().last_sequence(), 0);
}

#[test]
fn outcomes_are_recorded_and_executions_noted() {
    let mut broker = broker();
    let authorization = broker
        .authorize_at(request("filesystem.read", r"D:\Proyectos\x"), Ok(()), 1)
        .unwrap();
    broker
        .audit_outcome_at(&authorization, "executed", 2)
        .unwrap();
    assert_eq!(
        broker.ledger().has_outcome_for("req", &[4; 32], "executed"),
        Ok(true)
    );
    assert!(matches!(
        broker.set_execution_recovery_state(
            &authorization,
            ExecutionRecoveryState::EffectApplied,
            3
        ),
        Err(CoreError::Audit(AuditError::MissingExecutionState))
    ));
    assert_eq!(broker.execution_recovery_state("req", &[4; 32]), Ok(None));
}

#[test]
fn nothing_is_decided_on_a_trail_that_diverges() {
    let ledger = Ledger::open(Vec::new(), Vec::new(), Vec::new(), Vec::new()).unwrap();
    let mut first = Broker::new(policy(), ledger);
    first
        .authorize_at(request("process.list", "local"), Ok(()), 1)
        .unwrap();
    let mut ledger = first.into_ledger();
    ledger.journal.clear();
    let mut broker = Broker::new(policy(), ledger);
    assert!(matches!(
        broker.authorize_at(request("process.list", "local"), Ok(()), 2),
        Err(CoreError::Audit(AuditError::Divergence))
    ));
}
