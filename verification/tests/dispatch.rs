use vor_commander::approval::{
    approver_public_key, sign_approval, ApprovalChallenge, ApprovalError, ApproverAuthority,
    SignedApproval,
};
use vor_commander::audit::{
    AuditError, Consumption, Execution, ExecutionRecoveryState, Ledger, StoredRow,
};
use vor_commander::broker::{Authorization, CoreError, ExecutionAuthorization};
use vor_commander::browser::BrowserError;
use vor_commander::dispatch::{
    challenge_result, check_content, dispatch_status_code, execute_approved, execute_authorized,
    failure_json_result, failure_result, ms_to_timestamp, remote_action_allowed, remote_approved_action_allowed,
    remote_terminal_spec, remote_write_content, terminal_session_owner,
    terminal_session_state_name, ApprovedPlan, DispatchConfig, DispatchError, ReadPlan,
    TerminalDefaults, TerminalError, TerminalSessionState, TerminalSpec, DEFAULT_MAX_OUTPUT_BYTES,
    DEFAULT_MAX_REMOTE_WRITE_BYTES,
};
use vor_commander::dispatcher::{store_failed, ReadOnlyDispatcher, WorkerOutput};
use vor_commander::edits::PreparedEdit;
use vor_commander::files::FsError;
use vor_commander::git::GitError;
use vor_commander::paths::{PathPart, PathText};
use vor_commander::policy::{
    AuditPolicy, BrowserPolicy, DesktopPolicy, FilesystemRule, NetworkPolicy, PolicyConfig,
    PolicyEngine, PolicyError, ProcessPolicy, RuleDecision, TerminalPolicy,
};
use vor_commander::preparation::Preparation;
use vor_commander::protocol::{
    ActionEnvelope, ActionRequest, Parameter, ParameterValue, ProtocolError,
};
use vor_commander::reports::{
    challenge_report, edit_challenge_report, edited_envelope, failure_report,
    terminal_cancel_report, terminal_poll_report, terminal_start_report, write_report,
    TerminalSessionSnapshot,
};
use vor_commander::writes::{
    verify_target_precondition, TargetPrecondition, TargetState, WriteReceipt,
};

fn path(text: &str) -> PathText {
    let path = std::path::Path::new(text);
    PathText {
        text: text.into(),
        absolute: path.is_absolute(),
        parts: path
            .components()
            .map(|part| match part {
                std::path::Component::Prefix(_) => PathPart::Prefix(String::new()),
                std::path::Component::RootDir => PathPart::RootDir,
                std::path::Component::CurDir => PathPart::CurDir,
                std::path::Component::ParentDir => PathPart::ParentDir,
                std::path::Component::Normal(name) => {
                    PathPart::Normal(name.to_string_lossy().into_owned())
                }
            })
            .collect(),
    }
}

fn policy(root: &str, read: RuleDecision, write: RuleDecision) -> PolicyEngine {
    PolicyEngine::from_config(PolicyConfig {
        version: 1,
        policy_id: "dispatch-test".into(),
        filesystem: vec![FilesystemRule {
            path: root.into(),
            read,
            write,
        }],
        terminal: TerminalPolicy {
            default: RuleDecision::Approval,
            inline_eval: RuleDecision::ElevatedApproval,
            project_tests: RuleDecision::Auto,
            destructive: RuleDecision::Approval,
            elevated: RuleDecision::Approval,
        },
        process: ProcessPolicy {
            list: RuleDecision::Auto,
            inspect: RuleDecision::Auto,
            terminate: RuleDecision::Approval,
        },
        browser: BrowserPolicy {
            authenticated_session_use: RuleDecision::Approval,
            secret_extraction: RuleDecision::Deny,
            publish: RuleDecision::Approval,
            purchase: RuleDecision::Approval,
        },
        desktop: DesktopPolicy { enabled: true },
        network: NetworkPolicy {
            public_listener_fallback: RuleDecision::Deny,
        },
        audit: AuditPolicy {
            required: true,
            fail_if_unwritable: true,
        },
    })
    .unwrap()
}

const ROOT: &str = r"D:\work";

const DEFAULTS: TerminalDefaults = TerminalDefaults {
    timeout_ms: 60_000,
    max_output_bytes: 262_144,
};

fn config(max_output_bytes: usize) -> DispatchConfig {
    DispatchConfig {
        device_id: "device-1".into(),
        policy_path: path("/state/policy.yaml"),
        audit_sqlite: path("/state/audit.db"),
        audit_jsonl: path("/state/audit.jsonl"),
        journal_dir: path("/state/journal"),
        allowed_roots: vec![path("/work")],
        git_executable: path("/usr/bin/git"),
        max_output_bytes,
        browser: None,
    }
}

fn empty_ledger() -> Ledger {
    Ledger::open(Vec::new(), Vec::new(), Vec::new(), Vec::new()).unwrap()
}

fn dispatcher(max_output_bytes: usize) -> ReadOnlyDispatcher {
    ReadOnlyDispatcher::open(
        &config(max_output_bytes),
        Ok(policy(ROOT, RuleDecision::Auto, RuleDecision::Approval)),
        Ok(empty_ledger()),
    )
    .unwrap()
}

fn digest_of(text: &str) -> [u8; 32] {
    let mut digest = [0; 32];
    for (index, byte) in text.bytes().enumerate() {
        digest[index % 32] ^= byte.rotate_left((index / 32) as u32);
    }
    digest
}

fn request_with(
    request_id: &str,
    action: &str,
    target: &str,
    device_id: &str,
    parameters: Vec<Parameter>,
) -> ActionRequest {
    ActionRequest {
        envelope: ActionEnvelope {
            request_id: request_id.into(),
            organization_id: "org-1".into(),
            actor_id: "remote-test".into(),
            device_id: device_id.into(),
            action: action.into(),
            target: target.into(),
            parameters,
            requested_capabilities: vec![],
            expires_at_unix_ms: 10_000,
            nonce: vec![7; 16],
        },
        envelope_digest: digest_of(request_id),
    }
}

fn request(action: &str, target: &str, device_id: &str) -> ActionRequest {
    request_with(
        &format!("req-{action}-{target}"),
        action,
        target,
        device_id,
        Vec::new(),
    )
}

fn text(name: &str, value: &str) -> Parameter {
    Parameter {
        name: name.into(),
        value: ParameterValue::Text(value.into()),
    }
}

fn number(name: &str, value: u64) -> Parameter {
    Parameter {
        name: name.into(),
        value: ParameterValue::Unsigned(value),
    }
}

fn argv(words: &[&str]) -> Parameter {
    Parameter {
        name: "argv".into(),
        value: ParameterValue::List(
            words
                .iter()
                .map(|word| ParameterValue::Text(word.to_string()))
                .collect(),
        ),
    }
}

fn terminal_request(request_id: &str, words: &[&str]) -> ActionRequest {
    request_with(
        request_id,
        "terminal.exec",
        ROOT,
        "device-1",
        vec![argv(words)],
    )
}

fn write_request(request_id: &str, content: &[u8], expected: &str) -> ActionRequest {
    use_base64_request(request_id, &encoded(content), content, expected)
}

fn encoded(content: &[u8]) -> String {
    base64::Engine::encode(&base64::engine::general_purpose::STANDARD, content)
}

fn use_base64_request(
    request_id: &str,
    encoded: &str,
    content: &[u8],
    expected: &str,
) -> ActionRequest {
    request_with(
        request_id,
        "filesystem.write",
        r"D:\work\demo.txt",
        "device-1",
        vec![
            text("content_base64", encoded),
            text("content_sha256", &sha256(content)),
            text("expected_target_sha256", expected),
        ],
    )
}

fn sha256(bytes: &[u8]) -> String {
    vor_commander::maintenance::sha256_file(bytes)
}

/// The way of a request: prepared where it needs an approval, else decided.
fn dispatch(
    dispatcher: &mut ReadOnlyDispatcher,
    request: ActionRequest,
    now: u64,
) -> Result<Authorization, DispatchError> {
    if remote_approved_action_allowed(&request.envelope.action) {
        dispatcher.prepare_approved_at(request, Ok(()), now)
    } else {
        dispatcher.dispatch_at(request, Ok(()), now)
    }
}

fn challenge(
    dispatcher: &mut ReadOnlyDispatcher,
    request: ActionRequest,
    now: u64,
) -> ApprovalChallenge {
    let prepared = dispatcher
        .prepare_approved_at(request, Ok(()), now)
        .unwrap();
    dispatcher.challenge_at(&prepared, Ok(()), now).unwrap()
}

fn approve(challenge: &ApprovalChallenge, approver: &str, secret: u8) -> SignedApproval {
    sign_approval(challenge.duplicate(), approver.into(), &[secret; 32]).unwrap()
}

fn key(secret: u8) -> [u8; 32] {
    approver_public_key(&[secret; 32])
}

fn status(result: Result<ExecutionAuthorization, DispatchError>) -> &'static str {
    match result {
        Ok(_) => "ok",
        Err(error) => dispatch_status_code(&error),
    }
}

fn json(output: &[u8]) -> Result<WorkerOutput, DispatchError> {
    Ok(WorkerOutput {
        output: output.to_vec(),
        content_type: "application/json".into(),
    })
}

fn entries(report: &ParameterValue) -> &Vec<Parameter> {
    let ParameterValue::Table(entries) = report else {
        panic!("a report is a table");
    };
    entries
}

fn entry<'a>(report: &'a ParameterValue, name: &str) -> &'a ParameterValue {
    &entries(report)
        .iter()
        .find(|entry| entry.name == name)
        .unwrap()
        .value
}

fn word<'a>(report: &'a ParameterValue, name: &str) -> &'a str {
    let ParameterValue::Text(word) = entry(report, name) else {
        panic!("a text");
    };
    word
}

/// A report as a JSON document.
fn document(report: &ParameterValue) -> Vec<u8> {
    let mut object = serde_json::Map::new();
    for entry in entries(report) {
        let value = match &entry.value {
            ParameterValue::Text(word) => serde_json::Value::from(word.as_str()),
            ParameterValue::Unsigned(number) => serde_json::Value::from(*number),
            ParameterValue::Bool(flag) => serde_json::Value::from(*flag),
            ParameterValue::Null => serde_json::Value::Null,
            _ => panic!("a plain value"),
        };
        object.insert(entry.name.clone(), value);
    }
    serde_json::to_vec(&serde_json::Value::Object(object)).unwrap()
}

#[test]
fn c12_browser_foreign_and_missing_sessions_share_public_error_code() {
    assert_eq!(
        dispatch_status_code(&DispatchError::Browser(BrowserError::ApprovalMismatch)),
        dispatch_status_code(&DispatchError::Browser(BrowserError::SessionNotFound)),
    );
    assert_eq!(
        dispatch_status_code(&DispatchError::Browser(BrowserError::SessionNotFound)),
        "browser_session_not_found",
    );
}

#[test]
fn terminal_exec_without_structured_argv_fails_policy_closed() {
    let mut dispatcher = dispatcher(DEFAULT_MAX_OUTPUT_BYTES);
    let result = dispatch(
        &mut dispatcher,
        request("terminal.exec", ROOT, "device-1"),
        1_000,
    );
    assert!(matches!(result, Err(DispatchError::Denied)));
}

#[test]
fn inline_terminal_rejects_plain_approver_authority() {
    let make = || {
        terminal_request(
            "req-terminal-low-authority",
            &["cmd.exe", "/D", "/Q", "/C", "echo SHOULD_NOT_RUN"],
        )
    };
    let mut dispatcher = dispatcher(DEFAULT_MAX_OUTPUT_BYTES);
    dispatcher
        .add_trusted_approver("approver-1".into(), key(34))
        .unwrap();
    let challenge = challenge(&mut dispatcher, make(), 1_000);
    assert_eq!(challenge.required_capability.as_deref(), Some("elevated"));
    let approval = approve(&challenge, "approver-1", 34);
    let result = dispatcher.dispatch_approved_at(make(), &approval, Ok(()), 2_000);
    assert_eq!(status(result), "approval_invalid");
}

#[test]
fn inline_terminal_accepts_elevated_approver_authority() {
    let make = || {
        terminal_request(
            "req-terminal-elevated",
            &["cmd.exe", "/D", "/Q", "/C", "echo VOR_ELEVATED_OK"],
        )
    };
    let mut dispatcher = dispatcher(DEFAULT_MAX_OUTPUT_BYTES);
    dispatcher
        .add_trusted_approver_with_authority("elevated-1".into(), key(35), ApproverAuthority::Elevated)
        .unwrap();
    let challenge = challenge(&mut dispatcher, make(), 1_000);
    let approval = approve(&challenge, "elevated-1", 35);
    let execution = dispatcher
        .dispatch_approved_at(make(), &approval, Ok(()), 2_000)
        .unwrap();
    let plan = execute_approved(execution.request(), DEFAULT_MAX_OUTPUT_BYTES, DEFAULTS).unwrap();
    let ApprovedPlan::Terminal { command, owner } = plan else {
        panic!("a terminal is started");
    };
    assert_eq!(command.argv[4], "echo VOR_ELEVATED_OK");
    assert_eq!(owner.actor_id, "remote-test");
    let started = terminal_start_report("session-1", &command);
    assert_eq!(word(&started, "state"), "running");
    let (payload, finished) = terminal_poll_report(&TerminalSessionSnapshot {
        session_id: "session-1".into(),
        state: TerminalSessionState::Completed,
        exit_code: Some(0),
        output: b"VOR_ELEVATED_OK\r\n".to_vec(),
        error_code: None,
    });
    assert!(finished);
    assert_eq!(word(&payload, "state"), "completed");
    assert!(matches!(
        entry(&payload, "exit_code"),
        ParameterValue::Unsigned(0)
    ));
    assert_eq!(word(&payload, "output_base64"), "Vk9SX0VMRVZBVEVEX09LDQo=");
}

#[test]
fn approved_terminal_maps_timeout_and_output_limit_failures() {
    let snapshot = |state: TerminalSessionState, error: &str| TerminalSessionSnapshot {
        session_id: "session-1".into(),
        state,
        exit_code: None,
        output: Vec::new(),
        error_code: Some(error.into()),
    };
    let (timeout_final, _) = terminal_poll_report(&snapshot(
        TerminalSessionState::TimedOut,
        dispatch_status_code(&DispatchError::Terminal(TerminalError::Timeout)),
    ));
    assert_eq!(word(&timeout_final, "state"), "timed_out");
    assert_eq!(word(&timeout_final, "error_code"), "terminal_timeout");
    let (output_final, _) = terminal_poll_report(&snapshot(
        TerminalSessionState::Failed,
        dispatch_status_code(&DispatchError::Terminal(TerminalError::OutputLimitExceeded)),
    ));
    assert_eq!(word(&output_final, "state"), "failed");
    assert_eq!(
        word(&output_final, "error_code"),
        "terminal_output_limit_exceeded"
    );
}

#[test]
fn terminal_cancel_is_owner_bound_and_observed_by_poll() {
    let control = |actor: &str, action: &str| {
        let mut request = request_with("control", action, "session-1", "device-1", Vec::new());
        request.envelope.actor_id = actor.into();
        request
    };
    let mut dispatcher = dispatcher(DEFAULT_MAX_OUTPUT_BYTES);
    let own = dispatcher
        .dispatch_at(control("remote-terminal-test", "terminal.cancel"), Ok(()), 2_200)
        .unwrap();
    let foreign = dispatcher
        .dispatch_at(control("other-actor", "terminal.cancel"), Ok(()), 2_100)
        .unwrap();
    let owner_of = |authorization: &Authorization| {
        let ReadPlan::TerminalCancel { owner, session_id } =
            execute_authorized(authorization).unwrap()
        else {
            panic!("a session is cancelled");
        };
        assert_eq!(session_id, "session-1");
        owner
    };
    assert_ne!(owner_of(&own), owner_of(&foreign));
    let cancelled = terminal_cancel_report("session-1", true);
    assert!(matches!(
        entry(&cancelled, "cancel_requested"),
        ParameterValue::Bool(true)
    ));
    assert_eq!(
        terminal_session_state_name(TerminalSessionState::Cancelled),
        "cancelled"
    );
    assert_eq!(
        dispatch_status_code(&DispatchError::Terminal(TerminalError::Cancelled)),
        "terminal_cancelled"
    );
}

#[test]
fn tenant_scoped_approver_revocation_and_rotation_are_live_in_dispatcher() {
    let revoked = || {
        terminal_request(
            "req-terminal-revoked-approver",
            &["cmd.exe", "/D", "/Q", "/C", "echo REVOKED_SHOULD_NOT_RUN"],
        )
    };
    let mut dispatcher = dispatcher(DEFAULT_MAX_OUTPUT_BYTES);
    dispatcher.require_tenant_scoped_approvers();
    dispatcher
        .add_trusted_approver_for_organization(
            "tenant-owner".into(),
            key(44),
            ApproverAuthority::Owner,
            "org-1".into(),
        )
        .unwrap();
    let first = challenge(&mut dispatcher, revoked(), 1_000);
    let approval = approve(&first, "tenant-owner", 44);
    dispatcher.revoke_trusted_approver("tenant-owner").unwrap();
    let result = dispatcher.dispatch_approved_at(revoked(), &approval, Ok(()), 2_000);
    assert_eq!(status(result), "approval_invalid");

    let rotated = || {
        terminal_request(
            "req-terminal-rotated-approver",
            &["cmd.exe", "/D", "/Q", "/C", "echo ROTATED_OK"],
        )
    };
    dispatcher
        .rotate_trusted_approver_for_organization(
            "tenant-owner".into(),
            key(45),
            ApproverAuthority::Owner,
            "org-1".into(),
        )
        .unwrap();
    let second = challenge(&mut dispatcher, rotated(), 3_000);
    let old_approval = approve(&second, "tenant-owner", 45);
    dispatcher
        .rotate_trusted_approver_for_organization(
            "tenant-owner".into(),
            key(46),
            ApproverAuthority::Owner,
            "org-1".into(),
        )
        .unwrap();
    let old_result = dispatcher.dispatch_approved_at(rotated(), &old_approval, Ok(()), 4_000);
    assert_eq!(status(old_result), "approval_invalid");

    let new_approval = approve(&second, "tenant-owner", 46);
    let execution = dispatcher
        .dispatch_approved_at(rotated(), &new_approval, Ok(()), 4_100)
        .unwrap();
    let result = dispatcher
        .finish_approved_at(&execution, json(b"{}"), 4_100)
        .unwrap();
    assert_eq!(result.status, "ok");
}

#[test]
fn filesystem_read_executes_and_is_audited_twice() {
    let mut dispatcher = dispatcher(1024);
    let authorization = dispatch(
        &mut dispatcher,
        request("filesystem.read", r"D:\work\demo.txt", "device-1"),
        1_000,
    )
    .unwrap();
    assert!(matches!(
        execute_authorized(&authorization),
        Ok(ReadPlan::ReadWhole)
    ));
    let result = dispatcher
        .finish_at(
            &authorization,
            Ok(WorkerOutput {
                output: b"remote-read-ok".to_vec(),
                content_type: "application/octet-stream".into(),
            }),
            1_000,
        )
        .unwrap();
    assert_eq!(result.status, "ok");
    assert_eq!(result.output, b"remote-read-ok");
    assert_eq!(result.content_type, "application/octet-stream");
    assert_eq!(dispatcher.audit_sequence(), 2);
}

#[test]
fn remote_scope_blocks_local_auto_terminal_action() {
    let mut dispatcher = dispatcher(1024);
    let result = dispatch(
        &mut dispatcher,
        request("terminal.project_test", "local", "device-1"),
        1_000,
    );
    assert!(matches!(result, Err(DispatchError::RemoteActionNotAllowed)));
    assert_eq!(dispatcher.audit_sequence(), 2);
}

#[test]
fn wrong_device_is_rejected_before_local_audit() {
    let mut dispatcher = dispatcher(1024);
    let result = dispatch(
        &mut dispatcher,
        request("process.list", "local", "other-device"),
        1_000,
    );
    assert!(matches!(result, Err(DispatchError::WrongDevice)));
    assert_eq!(dispatcher.audit_sequence(), 0);
}

#[test]
fn file_limit_is_enforced_before_read_payload_is_returned() {
    let mut dispatcher = dispatcher(4);
    let authorization = dispatch(
        &mut dispatcher,
        request("filesystem.read", r"D:\work\large.bin", "device-1"),
        1_000,
    )
    .unwrap();
    let result = dispatcher.finish_at(
        &authorization,
        Err(DispatchError::Fs(FsError::ReadLimitExceeded {
            len: 5,
            max_bytes: 4,
        })),
        1_000,
    );
    assert!(matches!(
        result,
        Err(DispatchError::Fs(FsError::ReadLimitExceeded { .. }))
    ));
    assert_eq!(dispatcher.audit_sequence(), 2);
}

#[test]
fn approved_process_terminate_kills_exact_synthetic_instance_once() {
    let make = || {
        request_with(
            "req-process-terminate-ok",
            "process.terminate",
            "4242",
            "device-1",
            Vec::new(),
        )
    };
    let mut dispatcher = dispatcher(DEFAULT_MAX_OUTPUT_BYTES);
    dispatcher
        .add_trusted_approver("operator-1".into(), key(51))
        .unwrap();
    let challenge = challenge(&mut dispatcher, make(), 1_000);
    let approval = approve(&challenge, "operator-1", 51);
    let execution = dispatcher
        .dispatch_approved_at(make(), &approval, Ok(()), 2_000)
        .unwrap();
    assert!(matches!(
        execute_approved(execution.request(), DEFAULT_MAX_OUTPUT_BYTES, DEFAULTS),
        Ok(ApprovedPlan::TerminateProcess)
    ));
    dispatcher
        .finish_approved_at(&execution, json(b"{\"terminated\":true}"), 2_000)
        .unwrap();

    let replay = dispatcher.dispatch_approved_at(make(), &approval, Ok(()), 2_500);
    assert!(matches!(
        replay,
        Err(DispatchError::Core(CoreError::ApprovalAlreadyConsumed))
    ));
}

#[test]
fn approved_process_terminate_rejects_expired_approval() {
    let make = || {
        request_with(
            "req-process-terminate-expired",
            "process.terminate",
            "4242",
            "device-1",
            Vec::new(),
        )
    };
    let mut dispatcher = dispatcher(DEFAULT_MAX_OUTPUT_BYTES);
    dispatcher
        .add_trusted_approver("operator-1".into(), key(54))
        .unwrap();
    let challenge = challenge(&mut dispatcher, make(), 1_000);
    let approval = approve(&challenge, "operator-1", 54);
    let late = dispatcher.dispatch_approved_at(make(), &approval, Ok(()), 11_000);
    assert!(matches!(
        late,
        Err(DispatchError::Core(CoreError::Approval(
            ApprovalError::ApprovalExpired
        )))
    ));
    let expired = dispatcher.dispatch_approved_at(
        make(),
        &approval,
        Err(ProtocolError::Expired),
        11_000,
    );
    assert!(matches!(expired, Err(DispatchError::Core(_))));
}

#[test]
fn filesystem_write_prepare_emits_bound_challenge_without_writing() {
    let make = || write_request("req-write-prepare", b"new", &sha256(b"old"));
    let mut dispatcher = dispatcher(DEFAULT_MAX_OUTPUT_BYTES);
    let prepared = dispatcher
        .prepare_approved_at(make(), Ok(()), 1_000)
        .unwrap();
    let challenge = dispatcher.challenge_at(&prepared, Ok(()), 1_000).unwrap();
    let report = challenge_report(&challenge);
    let output = document(&report);
    let result = challenge_result(&prepared, output.clone(), 1_000);
    assert_eq!(result.request_id, "req-write-prepare");
    assert_eq!(result.status, "approval_required");
    assert_eq!(result.content_type, "application/json");
    assert_eq!(result.output, output);
    let shown: serde_json::Value = serde_json::from_slice(&result.output).unwrap();
    let nonce = base64::Engine::decode(
        &base64::engine::general_purpose::STANDARD,
        shown["approval_nonce_base64"].as_str().unwrap(),
    )
    .unwrap();
    assert_eq!(nonce.len(), 32);
    assert_eq!(nonce, challenge.approval_nonce);
    assert_eq!(shown["expires_at_unix_ms"].as_u64().unwrap(), 10_000);
    assert_eq!(word(&report, "request_id"), "req-write-prepare");
    assert_eq!(word(&report, "policy_id"), "dispatch-test");
    assert_eq!(
        word(&report, "envelope_digest_base64"),
        encoded(&make().envelope_digest)
    );
    assert!(matches!(
        entry(&report, "required_capability"),
        ParameterValue::Null
    ));
    assert!(matches!(
        entry(&report, "expires_at_unix_ms"),
        ParameterValue::Unsigned(10_000)
    ));
    assert_eq!(
        word(&report, "approval_nonce_base64"),
        encoded(&challenge.approval_nonce)
    );
    assert_eq!(dispatcher.audit_sequence(), 2);
}

/// What a worker makes of an approved write to a target in some state.
fn write_worker(
    execution: &ExecutionAuthorization,
    target: &mut TargetState,
) -> Result<WorkerOutput, DispatchError> {
    let ApprovedPlan::Write { content } =
        execute_approved(execution.request(), DEFAULT_MAX_OUTPUT_BYTES, DEFAULTS)?
    else {
        panic!("a write");
    };
    let expected = execution
        .request()
        .envelope
        .parameters
        .iter()
        .find(|parameter| parameter.name == "expected_target_sha256")
        .map(|parameter| match &parameter.value {
            ParameterValue::Text(value) if value == "absent" => TargetPrecondition::Absent,
            ParameterValue::Text(value) => TargetPrecondition::Sha256(value.clone()),
            _ => panic!("a text"),
        })
        .unwrap();
    verify_target_precondition(target, &expected).map_err(DispatchError::Fs)?;
    *target = TargetState::Bytes(content);
    json(b"{\"journaled\":true}")
}

fn approved_write(
    dispatcher: &mut ReadOnlyDispatcher,
    make: &dyn Fn() -> ActionRequest,
    secret: u8,
    target: &mut TargetState,
) -> (SignedApproval, Result<String, DispatchError>) {
    dispatcher
        .add_trusted_approver("operator-1".into(), key(secret))
        .unwrap();
    // The challenge comes from elsewhere, so that the trail holds what the
    // approved request alone leaves in it.
    let mut elsewhere = self::dispatcher(DEFAULT_MAX_OUTPUT_BYTES);
    let approval = approve(&challenge(&mut elsewhere, make(), 1_000), "operator-1", secret);
    let execution = dispatcher
        .dispatch_approved_at(make(), &approval, Ok(()), 2_000)
        .unwrap();
    let worker = write_worker(&execution, target);
    let result = dispatcher
        .finish_approved_at(&execution, worker, 2_000)
        .map(|result| result.status);
    (approval, result)
}

fn holds(target: &TargetState, bytes: &[u8]) -> bool {
    matches!(target, TargetState::Bytes(found) if found == bytes)
}

#[test]
fn approved_filesystem_write_is_signed_preconditioned_and_one_shot() {
    let make = || write_request("req-approved-write-1", b"new", &sha256(b"old"));
    let mut target = TargetState::Bytes(b"old".to_vec());
    let mut dispatcher = dispatcher(DEFAULT_MAX_OUTPUT_BYTES);
    let (approval, result) = approved_write(&mut dispatcher, &make, 11, &mut target);
    assert_eq!(result.unwrap(), "ok");
    assert!(holds(&target, b"new"));
    assert_eq!(dispatcher.audit_sequence(), 4);
    assert_eq!(
        dispatcher
            .ledger()
            .execution_recovery_state("req-approved-write-1", &make().envelope_digest),
        Ok(Some(ExecutionRecoveryState::Completed))
    );

    let replay = dispatcher.dispatch_approved_at(make(), &approval, Ok(()), 2_500);
    assert!(matches!(
        replay,
        Err(DispatchError::Core(CoreError::ApprovalAlreadyConsumed))
    ));
    assert!(holds(&target, b"new"));
    assert_eq!(dispatcher.audit_sequence(), 5);
}

/// Ledgers cannot be cloned, so a copy is built out of the tables alone.
fn tables_of(ledger: &Ledger) -> Ledger {
    Ledger {
        rows: Vec::new(),
        journal: Vec::new(),
        consumptions: ledger
            .consumptions
            .iter()
            .map(|used| Consumption {
                request_id: used.request_id.clone(),
                envelope_digest: used.envelope_digest,
                consumed_at_unix_ms: used.consumed_at_unix_ms,
            })
            .collect(),
        executions: ledger
            .executions
            .iter()
            .map(|execution| Execution {
                request_id: execution.request_id.clone(),
                envelope_digest: execution.envelope_digest,
                state: execution.state.clone(),
                updated_at_unix_ms: execution.updated_at_unix_ms,
            })
            .collect(),
        last_sequence: ledger.last_sequence(),
        last_hash: ledger.last_hash(),
    }
}

#[test]
fn uncertain_effects_are_noted_and_never_repeated() {
    let make = || write_request("req-uncertain", b"new", &sha256(b"old"));
    let mut target = TargetState::Bytes(b"old".to_vec());
    let mut dispatcher = dispatcher(DEFAULT_MAX_OUTPUT_BYTES);
    dispatcher
        .add_trusted_approver("operator-1".into(), key(23))
        .unwrap();
    let approval = approve(&challenge(&mut dispatcher, make(), 1_000), "operator-1", 23);
    let execution = dispatcher
        .dispatch_approved_at(make(), &approval, Ok(()), 2_000)
        .unwrap();
    let worker = write_worker(&execution, &mut target);
    assert!(holds(&target, b"new"));

    // The journal is lost before the effect is recorded.
    let mut diverged = tables_of(dispatcher.ledger());
    diverged.rows.push(StoredRow {
        sequence: 1,
        previous_hash: hex::encode([0; 32]),
        record_hash: hex::encode([1; 32]),
        event_json: "{}".into(),
        event: None,
    });
    dispatcher.resume(diverged);
    assert_eq!(
        dispatcher.finish_approved_at(&execution, worker, 2_100).err(),
        Some(DispatchError::PostEffectUncertain(CoreError::Audit(
            AuditError::Divergence
        )))
    );
    assert_eq!(
        dispatcher
            .ledger()
            .execution_recovery_state("req-uncertain", &make().envelope_digest),
        Ok(Some(ExecutionRecoveryState::PostEffectUncertain))
    );

    let repaired = tables_of(dispatcher.ledger());
    dispatcher.resume(repaired);
    challenge(&mut dispatcher, make(), 2_200);
    assert_eq!(
        dispatcher
            .dispatch_approved_at(make(), &approval, Ok(()), 2_300)
            .err(),
        Some(DispatchError::Core(CoreError::ApprovalAlreadyConsumed))
    );
}

#[test]
fn approved_filesystem_write_rejects_stale_target_digest() {
    let make = || write_request("req-approved-write-stale", b"new", &sha256(b"unexpected"));
    let mut target = TargetState::Bytes(b"old".to_vec());
    let mut dispatcher = dispatcher(DEFAULT_MAX_OUTPUT_BYTES);
    let (_, result) = approved_write(&mut dispatcher, &make, 12, &mut target);
    assert!(matches!(
        result,
        Err(DispatchError::Fs(FsError::TargetPreconditionFailed))
    ));
    assert!(holds(&target, b"old"));
    assert_eq!(dispatcher.audit_sequence(), 4);
    assert_eq!(
        dispatcher
            .ledger()
            .execution_recovery_state("req-approved-write-stale", &make().envelope_digest),
        Ok(Some(ExecutionRecoveryState::EffectUncertain))
    );
}

#[test]
fn approved_filesystem_write_creates_only_when_target_is_absent() {
    let make = || write_request("req-approved-write-create", b"created", "absent");
    let mut target = TargetState::Absent;
    let mut dispatcher = dispatcher(DEFAULT_MAX_OUTPUT_BYTES);
    let (_, result) = approved_write(&mut dispatcher, &make, 13, &mut target);
    assert_eq!(result.unwrap(), "ok");
    assert!(holds(&target, b"created"));
    assert_eq!(dispatcher.audit_sequence(), 4);
}

#[test]
fn approved_filesystem_write_rejects_payload_over_limit() {
    let content = vec![b'x'; DEFAULT_MAX_REMOTE_WRITE_BYTES + 1];
    let make = || write_request("req-approved-write-large", &content, &sha256(b"old"));
    let mut target = TargetState::Bytes(b"old".to_vec());
    let mut dispatcher = dispatcher(DEFAULT_MAX_OUTPUT_BYTES);
    let (_, result) = approved_write(&mut dispatcher, &make, 14, &mut target);
    assert!(matches!(result, Err(DispatchError::WriteTooLarge(_))));
    assert!(holds(&target, b"old"));
    assert_eq!(dispatcher.audit_sequence(), 4);
}

// Configuration

#[test]
fn dispatchers_need_a_name_and_room() {
    let open = |config: &DispatchConfig| {
        ReadOnlyDispatcher::open(
            config,
            Ok(policy(ROOT, RuleDecision::Auto, RuleDecision::Approval)),
            Ok(empty_ledger()),
        )
        .err()
    };
    let mut unnamed = config(1024);
    unnamed.device_id = " ".into();
    assert_eq!(open(&unnamed), Some(DispatchError::InvalidConfig));
    assert_eq!(open(&config(0)), Some(DispatchError::InvalidConfig));
    assert_eq!(
        ReadOnlyDispatcher::open(
            &config(1),
            Err(PolicyError::Yaml),
            Err(AuditError::Divergence)
        )
        .err(),
        Some(DispatchError::Policy(PolicyError::Yaml))
    );
    assert_eq!(
        ReadOnlyDispatcher::open(
            &config(1),
            Ok(policy(ROOT, RuleDecision::Auto, RuleDecision::Approval)),
            Err(AuditError::Divergence)
        )
        .err(),
        Some(DispatchError::Audit(AuditError::Divergence))
    );
}

#[test]
fn approvers_are_managed() {
    let mut dispatcher = dispatcher(1024);
    dispatcher
        .add_trusted_approver("operator-1".into(), key(1))
        .unwrap();
    assert_eq!(
        dispatcher.add_trusted_approver("operator-1".into(), key(1)),
        Err(DispatchError::Approval(ApprovalError::DuplicateApprover))
    );
    assert_eq!(
        dispatcher.revoke_trusted_approver("nobody"),
        Err(DispatchError::Approval(ApprovalError::UnknownApprover))
    );
}

// Decisions

#[test]
fn reads_that_need_an_approval_are_not_served() {
    let mut dispatcher = ReadOnlyDispatcher::open(
        &config(1024),
        Ok(policy(ROOT, RuleDecision::Approval, RuleDecision::Auto)),
        Ok(empty_ledger()),
    )
    .unwrap();
    assert!(matches!(
        dispatch(
            &mut dispatcher,
            request("filesystem.read", r"D:\work\x", "device-1"),
            1
        ),
        Err(DispatchError::ApprovalRequired)
    ));
    assert_eq!(dispatcher.audit_sequence(), 2);
    assert!(matches!(
        dispatch(
            &mut dispatcher,
            request("filesystem.write", r"D:\work\x", "device-1"),
            2
        ),
        Err(DispatchError::RemoteApprovalPolicyRequired)
    ));
    assert_eq!(dispatcher.audit_sequence(), 4);
    assert!(matches!(
        dispatch(
            &mut dispatcher,
            request("filesystem.read", r"E:\x", "device-1"),
            3
        ),
        Err(DispatchError::Denied)
    ));
    assert_eq!(dispatcher.audit_sequence(), 5);
}

#[test]
fn broken_seals_leave_no_trace() {
    let mut dispatcher = dispatcher(1024);
    assert!(matches!(
        dispatcher.dispatch_at(
            request("process.list", "local", "device-1"),
            Err(ProtocolError::DigestMismatch),
            1
        ),
        Err(DispatchError::Core(CoreError::Protocol(
            ProtocolError::DigestMismatch
        )))
    ));
    assert_eq!(dispatcher.audit_sequence(), 0);
}

#[test]
fn large_outputs_are_not_sent() {
    let mut dispatcher = dispatcher(4);
    let authorization = dispatch(
        &mut dispatcher,
        request("process.list", "local", "device-1"),
        1,
    )
    .unwrap();
    assert!(matches!(
        dispatcher.finish_at(&authorization, json(b"12345"), 1),
        Err(DispatchError::OutputTooLarge(5))
    ));
    assert_eq!(dispatcher.audit_sequence(), 2);
}

#[test]
fn challenges_last_two_minutes() {
    let mut dispatcher = dispatcher(1024);
    let mut long = request_with("long", "process.terminate", "1", "device-1", Vec::new());
    long.envelope.expires_at_unix_ms = u64::MAX;
    let prepared = dispatcher.prepare_approved_at(long, Ok(()), 1_000).unwrap();
    assert_eq!(
        dispatcher
            .challenge_at(&prepared, Ok(()), 1_000)
            .unwrap()
            .expires_at_unix_ms,
        121_000
    );
    assert!(matches!(
        dispatcher.challenge_at(&prepared, Ok(()), u64::MAX),
        Err(DispatchError::Clock)
    ));
}

#[test]
fn approvals_from_beyond_time_are_refused() {
    let make = || request_with("late", "process.terminate", "1", "device-1", Vec::new());
    let mut dispatcher = dispatcher(1024);
    dispatcher
        .add_trusted_approver("operator-1".into(), key(5))
        .unwrap();
    let challenge = challenge(&mut dispatcher, make(), 1_000);
    let approval = approve(&challenge, "operator-1", 5);
    let execution = dispatcher
        .dispatch_approved_at(make(), &approval, Ok(()), 2_000)
        .unwrap();
    assert!(matches!(
        dispatcher.finish_approved_at(&execution, json(b"{}"), u64::MAX),
        Err(DispatchError::Core(CoreError::Audit(
            AuditError::InvalidSequence
        )))
    ));
}

// Plans

fn plan(action: &str, parameters: Vec<Parameter>) -> Result<ReadPlan, DispatchError> {
    let mut dispatcher = dispatcher(1024);
    let authorization = dispatcher
        .dispatch_at(
            request_with("plan", action, r"D:\work\x", "device-1", parameters),
            Ok(()),
            1,
        )
        .unwrap();
    execute_authorized(&authorization)
}

#[test]
fn reads_go_by_bytes_or_by_lines() {
    assert!(matches!(
        plan(
            "filesystem.read",
            vec![number("offset", 6), number("length", 4)]
        ),
        Ok(ReadPlan::ReadRange {
            offset: 6,
            length: 4
        })
    ));
    assert!(matches!(
        plan(
            "filesystem.read",
            vec![number("line_start", 2), number("line_count", 1)]
        ),
        Ok(ReadPlan::ReadLines {
            line_start: 2,
            line_count: 1
        })
    ));
    for odd in [
        vec![number("offset", 6)],
        vec![number("line_count", 6)],
        vec![
            number("offset", 6),
            number("length", 4),
            number("line_start", 1),
            number("line_count", 1),
        ],
        vec![text("offset", "6"), number("length", 4)],
    ] {
        assert!(matches!(
            plan("filesystem.read", odd),
            Err(DispatchError::InvalidFilesystemParameters)
        ));
    }
}

#[test]
fn searches_need_all_their_parameters() {
    assert!(matches!(
        plan(
            "filesystem.list",
            vec![number("depth", 2), number("max_entries", 9)]
        ),
        Ok(ReadPlan::List {
            depth: 2,
            max_entries: 9
        })
    ));
    assert!(matches!(
        plan("filesystem.list", vec![number("depth", 2)]),
        Err(DispatchError::InvalidFilesystemParameters)
    ));
    assert!(matches!(
        plan(
            "filesystem.search_files",
            vec![text("pattern", "**"), number("max_results", 9)]
        ),
        Ok(ReadPlan::SearchFiles { max_results: 9, .. })
    ));
    let regex = Parameter {
        name: "regex".into(),
        value: ParameterValue::Bool(true),
    };
    assert!(matches!(
        plan(
            "filesystem.search_content",
            vec![
                text("query", "x"),
                regex,
                text("file_glob", "**"),
                number("max_matches", 1),
                number("max_file_bytes", 2)
            ]
        ),
        Ok(ReadPlan::SearchContent {
            regex: true,
            max_matches: 1,
            max_file_bytes: 2,
            ..
        })
    ));
    assert!(matches!(
        plan("filesystem.search_content", vec![text("query", "x")]),
        Err(DispatchError::InvalidFilesystemParameters)
    ));
    assert!(matches!(plan("filesystem.info", vec![]), Ok(ReadPlan::Info)));
    assert!(matches!(plan("git.status", vec![]), Ok(ReadPlan::GitStatus)));
    assert!(matches!(plan("git.diff", vec![]), Ok(ReadPlan::GitDiff)));
    assert!(matches!(
        plan("process.list", vec![]),
        Ok(ReadPlan::ProcessList)
    ));
    assert!(matches!(
        plan("process.inspect", vec![]),
        Ok(ReadPlan::ProcessInspect)
    ));
    assert!(matches!(
        plan("terminal.poll", vec![text("workspace_id", "ws-1")]),
        Ok(ReadPlan::TerminalPoll { .. })
    ));
    assert!(matches!(
        plan("terminal.poll", vec![number("workspace_id", 1)]),
        Err(DispatchError::InvalidTerminalParameters)
    ));
}

fn terminal(parameters: Vec<Parameter>, limit: usize) -> Result<TerminalSpec, DispatchError> {
    remote_terminal_spec(
        &request_with("terminal", "terminal.exec", ROOT, "device-1", parameters),
        limit,
        DEFAULTS,
    )
}

#[test]
fn terminals_have_defaults_and_bounds() {
    let plain = terminal(vec![argv(&["where.exe"])], DEFAULT_MAX_OUTPUT_BYTES).unwrap();
    assert_eq!(plain.timeout_ms, 60_000);
    assert_eq!(plain.max_output_bytes, 262_144);
    assert_eq!((plain.columns, plain.rows), (120, 40));
    assert_eq!(plain.cwd, ROOT);
    let narrow = terminal(
        vec![
            argv(&["where.exe"]),
            number("timeout_ms", 50),
            number("max_output_bytes", 1_000_000),
            number("columns", 80),
            number("rows", 25),
        ],
        16_384 + 400,
    )
    .unwrap();
    assert_eq!(narrow.max_output_bytes, 300);
    assert_eq!((narrow.columns, narrow.rows), (80, 25));
    assert_eq!(narrow.timeout_ms, 50);
    for odd in [
        vec![],
        vec![argv(&[])],
        vec![text("argv", "where.exe")],
        vec![argv(&["x"]), text("shell", "bash")],
        vec![argv(&["x"]), number("columns", 65_536)],
        vec![argv(&["x"]), text("rows", "40")],
    ] {
        assert!(matches!(
            terminal(odd, DEFAULT_MAX_OUTPUT_BYTES),
            Err(DispatchError::InvalidTerminalParameters)
        ));
    }
    assert!(matches!(
        terminal(vec![argv(&["x"])], 16_384),
        Err(DispatchError::InvalidTerminalParameters)
    ));
}

#[test]
fn sessions_belong_to_a_workspace() {
    let owner = terminal_session_owner(&request_with(
        "owner",
        "terminal.poll",
        "s",
        "device-1",
        vec![text("workspace_id", "ws-a1")],
    ))
    .unwrap();
    assert_eq!(owner.workspace_id.as_deref(), Some("ws-a1"));
    assert_eq!(owner.organization_id, "org-1");
    assert_eq!(owner.device_id, "device-1");
}

#[test]
fn written_content_is_decoded() {
    assert_eq!(
        remote_write_content(&write_request("w", b"new", "absent")).unwrap(),
        b"new"
    );
    assert!(matches!(
        remote_write_content(&request("filesystem.write", "x", "device-1")),
        Err(DispatchError::MissingWriteContent)
    ));
    assert!(matches!(
        remote_write_content(&use_base64_request("w", "not base64!", b"", "absent")),
        Err(DispatchError::InvalidWriteContent)
    ));
    let long = "A".repeat(1_398_112);
    assert!(matches!(
        remote_write_content(&use_base64_request("w", &long, b"", "absent")),
        Err(DispatchError::WriteTooLarge(1_398_112))
    ));
    assert!(matches!(
        check_content(None),
        Err(DispatchError::InvalidWriteContent)
    ));
    assert_eq!(check_content(Some(vec![1])).unwrap(), vec![1]);
}

#[test]
fn actions_are_asked_for_one_way() {
    for action in [
        "filesystem.read",
        "filesystem.write",
        "terminal.exec",
        "terminal.poll",
        "process.terminate",
        "browser.session.use",
        "git.diff",
    ] {
        assert_ne!(
            remote_action_allowed(action),
            remote_approved_action_allowed(action),
            "{action}"
        );
    }
    assert!(!remote_action_allowed("terminal.project_test"));
    assert!(!remote_approved_action_allowed("filesystem.read"));
    assert!(matches!(
        execute_approved(&request("filesystem.read", "x", "device-1"), 1024, DEFAULTS),
        Err(DispatchError::RemoteActionNotAllowed)
    ));
}

// Results and reports

#[test]
fn failures_are_answered_with_a_code() {
    let result = failure_result("req-1", "policy_denied", 1_234);
    assert_eq!(result.exit_code, -1);
    assert_eq!(result.status, "policy_denied");
    assert_eq!(result.content_type, "application/vnd.vor.error");
    assert_eq!(
        hex::encode(&result.stdout_digest),
        "e3b0c44298fc1c149afbf4c8996fb92427ae41e4649b934ca495991b7852b855"
    );
    let moment = result.completed_at.unwrap();
    assert_eq!((moment.seconds, moment.nanos), (1, 234_000_000));
    let json = failure_json_result("req-1", "filesystem_error", b"{}".to_vec(), 0);
    assert_eq!(json.output, b"{}");
    assert_eq!(json.content_type, "application/json");
    assert_eq!(ms_to_timestamp(u64::MAX).nanos, 615_000_000);
}

#[test]
fn codes_say_what_went_wrong() {
    for (error, code) in [
        (DispatchError::WrongDevice, "wrong_device"),
        (DispatchError::RemoteActionNotAllowed, "remote_scope_denied"),
        (DispatchError::Denied, "policy_denied"),
        (DispatchError::ApprovalRequired, "approval_required"),
        (
            DispatchError::RemoteApprovalPolicyRequired,
            "approval_policy_required",
        ),
        (DispatchError::InvalidApprovedAction, "invalid_request"),
        (DispatchError::Wire, "invalid_request"),
        (DispatchError::WriteTooLarge(1), "write_limit_exceeded"),
        (DispatchError::OutputTooLarge(1), "output_limit_exceeded"),
        (
            DispatchError::Approval(ApprovalError::InvalidExpiry),
            "approval_invalid",
        ),
        (
            DispatchError::Core(CoreError::ApprovalAlreadyConsumed),
            "approval_replayed",
        ),
        (
            DispatchError::Core(CoreError::ApprovalNotPrepared),
            "approval_not_prepared",
        ),
        (
            DispatchError::Core(CoreError::Clock),
            "audit_or_broker_unavailable",
        ),
        (
            DispatchError::Audit(AuditError::Divergence),
            "audit_or_broker_unavailable",
        ),
        (
            DispatchError::PostEffectUncertain(CoreError::Clock),
            "post_effect_uncertain",
        ),
        (
            DispatchError::Fs(FsError::TargetPreconditionFailed),
            "target_precondition_failed",
        ),
        (DispatchError::Fs(FsError::Denied), "filesystem_error"),
        (DispatchError::Git(GitError::Denied), "git_error"),
        (DispatchError::Process, "process_error"),
        (
            DispatchError::Terminal(TerminalError::Other),
            "terminal_error",
        ),
        (
            DispatchError::Browser(BrowserError::NavigationOutOfScope),
            "browser_navigation_out_of_scope",
        ),
        (
            DispatchError::Browser(BrowserError::StaleElement),
            "browser_stale_element",
        ),
        (
            DispatchError::Browser(BrowserError::BrowserDisabled),
            "browser_disabled",
        ),
        (DispatchError::Browser(BrowserError::Http), "browser_error"),
        (
            DispatchError::Policy(PolicyError::InvalidConfig),
            "policy_error",
        ),
        (DispatchError::Json, "serialization_error"),
        (DispatchError::InvalidConfig, "internal_error"),
        (DispatchError::Clock, "internal_error"),
    ] {
        assert_eq!(dispatch_status_code(&error), code);
    }
}

#[test]
fn failed_edits_are_explained() {
    let report = failure_report(&DispatchError::Fs(FsError::OccurrenceMismatch {
        edit_index: 1,
        expected: 2,
        actual: 0,
        closest_line: Some("3: close".into()),
    }))
    .unwrap();
    assert!(matches!(
        entry(&report, "edit_index"),
        ParameterValue::Unsigned(1)
    ));
    assert!(matches!(
        entry(&report, "actual_occurrences"),
        ParameterValue::Unsigned(0)
    ));
    assert_eq!(word(&report, "closest_line"), "3: close");
    assert!(failure_report(&DispatchError::Denied).is_none());
}

#[test]
fn writes_are_reported() {
    let report = write_report(&WriteReceipt {
        target: path("/work/demo.txt"),
        backup_path: Some(path("/state/journal/x.bak")),
        journal_path: path("/state/journal/x.json"),
        content_sha256: sha256(b"new"),
    });
    assert_eq!(word(&report, "target"), "/work/demo.txt");
    assert_eq!(word(&report, "content_sha256"), sha256(b"new"));
    assert!(matches!(
        entry(&report, "backup_created"),
        ParameterValue::Bool(true)
    ));
}

#[test]
fn edits_become_writes() {
    let prepared = PreparedEdit {
        content: b"edited".to_vec(),
        original_sha256: sha256(b"original"),
        diff_summary: "-a\n+b\n".into(),
        diff_truncated: false,
    };
    let recipe = request_with(
        "edit",
        "filesystem.write",
        r"D:\work\demo.txt",
        "device-1",
        vec![text("edit_recipe", "[]"), text("workspace_id", "ws-1")],
    );
    let edited = edited_envelope(recipe.envelope, &prepared);
    let names: Vec<&str> = edited
        .parameters
        .iter()
        .map(|parameter| parameter.name.as_str())
        .collect();
    assert_eq!(
        names,
        vec![
            "content_base64",
            "content_sha256",
            "expected_target_sha256",
            "workspace_id"
        ]
    );
    let sealed = ActionRequest {
        envelope: edited,
        envelope_digest: [9; 32],
    };
    assert_eq!(remote_write_content(&sealed).unwrap(), b"edited");

    let mut dispatcher = dispatcher(1024);
    let authorization = dispatcher.prepare_edited_at(sealed, Ok(()), 1_000).unwrap();
    let challenge = dispatcher
        .challenge_at(&authorization, Ok(()), 1_000)
        .unwrap();
    let report = edit_challenge_report(&challenge, b"request", &prepared);
    assert_eq!(word(&report, "request_base64"), encoded(b"request"));
    assert_eq!(word(&report, "content_sha256"), sha256(b"edited"));
    assert_eq!(word(&report, "diff_summary"), "-a\n+b\n");
    assert_eq!(entries(&report).len(), 10);
}

#[test]
fn edits_are_sealed_and_decided_on_before_the_challenge() {
    let mut dispatcher = dispatcher(1024);
    let request = |parameters| {
        request_with(
            "edit",
            "filesystem.write",
            r"D:\work\demo.txt",
            "device-1",
            parameters,
        )
    };
    let mut prepare = |parameters| {
        dispatcher
            .prepare_approved_at(request(parameters), Ok(()), 1_000)
            .unwrap()
    };
    let plain = prepare(vec![text("content_base64", "bmV3")]);
    assert!(matches!(
        Preparation::begin(plain),
        Preparation::Challenging(_, None)
    ));

    let recipe = || vec![text("edit_recipe", "[]"), text("workspace_id", "ws-1")];
    let unreadable = prepare(recipe());
    assert!(matches!(
        Preparation::edited(unreadable, None),
        Err(DispatchError::InvalidFilesystemParameters)
    ));
    let refused = prepare(recipe());
    assert!(matches!(
        Preparation::edited(refused, Some(Err(FsError::UnsafePath))),
        Err(DispatchError::Fs(FsError::UnsafePath))
    ));

    let Preparation::Editing(authorization) = Preparation::begin(prepare(recipe())) else {
        panic!("a recipe is followed first");
    };
    let edit = || PreparedEdit {
        content: b"edited".to_vec(),
        original_sha256: sha256(b"original"),
        diff_summary: "-a\n+b\n".into(),
        diff_truncated: false,
    };
    let Ok(Preparation::Sealing(envelope, kept)) =
        Preparation::edited(authorization, Some(Ok(edit())))
    else {
        panic!("an edit is sealed");
    };
    assert_eq!(kept, edit());
    assert_eq!(envelope.parameters.len(), 4);
    assert!(matches!(
        Preparation::sealed(None, edit()),
        Err(DispatchError::InvalidFilesystemParameters)
    ));
    let sealed = ActionRequest {
        envelope,
        envelope_digest: [9; 32],
    };
    let Ok(Preparation::Deciding(sealed, kept)) = Preparation::sealed(Some(sealed), kept) else {
        panic!("a sealed edit is decided on");
    };
    assert_eq!(remote_write_content(&sealed).unwrap(), b"edited");
    assert!(matches!(
        Preparation::decided(Err(DispatchError::Denied), edit()),
        Err(DispatchError::Denied)
    ));
    let outcome = dispatcher.prepare_edited_at(sealed, Ok(()), 1_000);
    let Ok(Preparation::Challenging(authorization, Some(kept))) =
        Preparation::decided(outcome, kept)
    else {
        panic!("an edit that was decided on is put to an approver");
    };
    assert_eq!(kept, edit());
    assert_eq!(authorization.request.envelope_digest, [9; 32]);
}

#[test]
fn lost_records_of_effects_are_uncertain() {
    let applied = store_failed(Some(4), 4, AuditError::Json);
    assert!(applied.note_uncertainty);
    assert_eq!(
        dispatch_status_code(&applied.error),
        dispatch_status_code(&DispatchError::PostEffectUncertain(CoreError::Audit(
            AuditError::Json
        )))
    );
    for output_len in [None, Some(5)] {
        let failure = store_failed(output_len, 4, AuditError::Json);
        assert!(!failure.note_uncertainty);
        assert!(matches!(
            failure.error,
            DispatchError::Core(CoreError::Audit(AuditError::Json))
        ));
    }
}
