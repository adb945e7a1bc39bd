use vor_commander::policy::{
    default_inline_eval_decision, policy_text, AuditPolicy, BrowserPolicy, DesktopPolicy,
    FilesystemRule, NetworkPolicy, PolicyConfig, PolicyEngine, PolicyError, ProcessPolicy,
    RuleDecision, TerminalPolicy,
};
use vor_commander::protocol::{
    ActionEnvelope, ActionRequest, Parameter, ParameterValue, PolicyDecisionKind,
};

fn sealed(envelope: ActionEnvelope) -> ActionRequest {
    ActionRequest {
        envelope,
        envelope_digest: [7; 32],
    }
}

fn request(action: &str, target: &str) -> ActionRequest {
    sealed(ActionEnvelope {
        request_id: "req-1".into(),
        organization_id: "org-1".into(),
        actor_id: "actor-1".into(),
        device_id: "device-1".into(),
        action: action.into(),
        target: target.into(),
        parameters: Vec::new(),
        requested_capabilities: vec![],
        expires_at_unix_ms: u64::MAX,
        nonce: vec![1; 16],
    })
}

fn rule(path: &str, read: RuleDecision, write: RuleDecision) -> FilesystemRule {
    FilesystemRule {
        path: path.into(),
        read,
        write,
    }
}

fn config() -> PolicyConfig {
    PolicyConfig {
        version: 1,
        policy_id: "local-default".into(),
        filesystem: vec![
            rule(r"D:\Proyectos", RuleDecision::Auto, RuleDecision::Auto),
            rule(
                r"D:\Proyectos\10_Active\vor-commander\state\local\m1-canary",
                RuleDecision::Auto,
                RuleDecision::Approval,
            ),
            rule(
                r"C:\Windows",
                RuleDecision::Approval,
                RuleDecision::ElevatedApproval,
            ),
        ],
        terminal: TerminalPolicy {
            default: RuleDecision::Approval,
            inline_eval: RuleDecision::ElevatedApproval,
            project_tests: RuleDecision::Auto,
            destructive: RuleDecision::Approval,
            elevated: RuleDecision::Approval,
        },
        process: ProcessPolicy {
            list: RuleDecision::Auto,
            inspect: RuleDecision::Auto,
            terminate: RuleDecision::Approval,
        },
        browser: BrowserPolicy {
            authenticated_session_use: RuleDecision::Approval,
            secret_extraction: RuleDecision::Deny,
            publish: RuleDecision::Approval,
            purchase: RuleDecision::Approval,
        },
        desktop: DesktopPolicy { enabled: true },
        network: NetworkPolicy {
            public_listener_fallback: RuleDecision::Deny,
        },
        audit: AuditPolicy {
            required: true,
            fail_if_unwritable: true,
        },
    }
}

fn engine() -> PolicyEngine {
    PolicyEngine::from_config(config()).unwrap()
}

fn terminal_request_with(argv: Option<ParameterValue>) -> ActionRequest {
    let mut parameters = Vec::new();
    if let Some(value) = argv {
        parameters.push(Parameter {
            name: "argv".into(),
            value,
        });
    }
    sealed(ActionEnvelope {
        request_id: "req-terminal".into(),
        organization_id: "org-1".into(),
        actor_id: "actor-1".into(),
        device_id: "device-1".into(),
        action: "terminal.exec".into(),
        target: "local".into(),
        parameters,
        requested_capabilities: vec![],
        expires_at_unix_ms: u64::MAX,
        nonce: vec![2; 16],
    })
}

fn terminal_request(argv: &[&str]) -> ActionRequest {
    terminal_request_with(Some(ParameterValue::List(
        argv.iter()
            .map(|text| ParameterValue::Text(text.to_string()))
            .collect(),
    )))
}

#[test]
fn accepts_utf8_bom() {
    let input = "\u{feff}version: 1\npolicy_id: local-default\n";
    assert!(input.starts_with('\u{feff}'));
    assert_eq!(policy_text(input), "version: 1\npolicy_id: local-default\n");
    assert!(PolicyEngine::from_config(config()).is_ok());
}

#[test]
fn terminal_exec_requires_structured_argv() {
    let missing = engine().evaluate(&terminal_request_with(None));
    assert_eq!(missing.kind, PolicyDecisionKind::Deny);
    assert_eq!(missing.reason_code, "terminal_argv_required");

    let invalid = engine().evaluate(&terminal_request_with(Some(ParameterValue::Text("python -c x".into()))));
    assert_eq!(invalid.kind, PolicyDecisionKind::Deny);
    assert_eq!(invalid.reason_code, "terminal_argv_required");

    let empty = engine().evaluate(&terminal_request(&[]));
    assert_eq!(empty.kind, PolicyDecisionKind::Deny);
    assert_eq!(empty.reason_code, "terminal_argv_required");
}

#[test]
fn normal_terminal_exec_keeps_default_approval() {
    let decision =
        engine().evaluate(&terminal_request(&["python", "safe_script.py"]));
    assert_eq!(decision.kind, PolicyDecisionKind::Approval);
    assert_eq!(decision.required_capability, None);
    assert_eq!(decision.reason_code, "terminal_default");
}

#[test]
fn inline_eval_requires_elevated_approval() {
    for argv in [
        &["python", "-c", "print(1)"][..],
        &["python.exe", "-cprint(1)"][..],
        &["py", "-3.12", "-c", "print(1)"][..],
        &["node", "--eval=console.log(1)"][..],
        &["node.exe", "-econsole.log(1)"][..],
        &["perl", "-eprint 1"][..],
        &["ruby", "-eputs(1)"][..],
        &["osascript", "-e", "display dialog"][..],
        &["pwsh", "-NoProfile", "-Command", "Get-Date"][..],
        &["powershell.exe", "-EncodedCommand", "AAAA"][..],
        &["cmd.exe", "/D", "/C", "echo hi"][..],
        &["bash", "-c", "printf hi"][..],
        &["wsl.exe", "bash", "-lc", "printf hi"][..],
    ] {
        let decision = engine().evaluate(&terminal_request(argv));
        assert_eq!(decision.kind, PolicyDecisionKind::Approval);
        assert_eq!(decision.required_capability.as_deref(), Some("elevated"));
        assert_eq!(decision.reason_code, "terminal_inline_eval");
    }
}

#[test]
fn inline_eval_does_not_match_script_arguments_after_positional_boundary() {
    for argv in [
        &["python", "script.py", "-c", "script-argument"][..],
        &["node", "app.js", "-e", "script-argument"][..],
        &["python", "--", "-c", "literal"][..],
        &["python", "-m", "pytest", "-q"][..],
    ] {
        let decision = engine().evaluate(&terminal_request(argv));
        assert_eq!(decision.kind, PolicyDecisionKind::Approval);
        assert_eq!(decision.required_capability, None);
        assert_eq!(decision.reason_code, "terminal_default");
    }
}

/// Every spelling of a `cmd.exe` inline command needs the elevated approval that
/// `powershell -Command` needs, and so do the spellings that PowerShell takes for
/// `-Command` and `-EncodedCommand`.
#[test]
fn sec7_inline_eval_table_for_cmd_and_powershell_variants() {
    let inline = [
        &["cmd", "/c", "whoami"][..],
        &["cmd", "/C", "whoami"][..],
        &["cmd", "/k", "whoami"][..],
        &["cmd", "/K", "whoami"][..],
        &["cmd.exe", "/c", "whoami"][..],
        &["CMD.EXE", "/C", "whoami"][..],
        &["Cmd.Exe", "/q", "/d", "/s", "/c", "whoami"][..],
        &["C:\\Windows\\System32\\cmd.exe", "/c", "whoami"][..],
        &["C:/Windows/System32/CMD.EXE", "/V:ON", "/E:ON", "/C", "whoami"][..],
        &["cmd", "/r", "whoami"][..],
        &["cmd", "/R", "whoami"][..],
        &["cmd", "/cwhoami"][..],
        &["cmd", "/Kwhoami"][..],
        &["powershell", "-Command", "Get-Date"][..],
        &["powershell", "-c", "Get-Date"][..],
        &["powershell", "/Command", "Get-Date"][..],
        &["powershell", "-Com", "Get-Date"][..],
        &["powershell.exe", "-e", "AAAA"][..],
        &["powershell.exe", "-ec", "AAAA"][..],
        &["powershell.exe", "-enc", "AAAA"][..],
        &["pwsh", "-CommandWithArgs", "Get-Date"][..],
        &["pwsh", "-cwa", "Get-Date"][..],
    ];
    let mut misses = Vec::new();
    for argv in inline {
        let decision = engine().evaluate(&terminal_request(argv));
        if decision.reason_code != "terminal_inline_eval"
            || decision.required_capability.as_deref() != Some("elevated")
        {
            misses.push(argv);
        }
    }
    assert!(
        misses.is_empty(),
        "not classified as inline eval: {misses:#?}"
    );

    for argv in [
        &["cmd", "script.bat", "/c"][..],
        &["cmdkey", "/list"][..],
        &["powershell", "-File", "script.ps1"][..],
        &["pwsh", "-NoProfile", "script.ps1", "-c"][..],
    ] {
        let decision = engine().evaluate(&terminal_request(argv));
        assert_eq!(decision.reason_code, "terminal_default", "{argv:?}");
    }
}

#[test]
fn legacy_policy_without_inline_eval_field_defaults_to_elevated_approval() {
    let mut legacy = config();
    legacy.terminal.inline_eval = default_inline_eval_decision();
    let engine = PolicyEngine::from_config(legacy).unwrap();
    let decision = engine.evaluate(&terminal_request(&["python", "-c", "print(1)"]));
    assert_eq!(decision.kind, PolicyDecisionKind::Approval);
    assert_eq!(decision.required_capability.as_deref(), Some("elevated"));
    assert_eq!(decision.reason_code, "terminal_inline_eval");
}

#[test]
fn project_read_is_auto() {
    for action in [
        "filesystem.read",
        "filesystem.list",
        "filesystem.search_files",
        "filesystem.search_content",
        "filesystem.info",
    ] {
        let decision = engine().evaluate(&request(action, r"D:\Proyectos\demo\README.md"));
        assert_eq!(decision.kind, PolicyDecisionKind::Auto, "{action}");
    }
}

#[test]
fn m1_canary_write_requires_approval_without_changing_project_default() {
    let canary = engine().evaluate(&request(
        "filesystem.write",
        r"D:\Proyectos\10_Active\vor-commander\state\local\m1-canary\live-write.txt",
    ));
    assert_eq!(canary.kind, PolicyDecisionKind::Approval);

    let ordinary =
        engine().evaluate(&request("filesystem.write", r"D:\Proyectos\demo\out.txt"));
    assert_eq!(ordinary.kind, PolicyDecisionKind::Auto);
}

#[test]
fn windows_write_requires_elevation_approval() {
    let decision =
        engine().evaluate(&request("filesystem.write", r"C:\Windows\System32\x.txt"));
    assert_eq!(decision.kind, PolicyDecisionKind::Approval);
    assert_eq!(decision.required_capability.as_deref(), Some("elevated"));
}

#[test]
fn process_reads_are_auto_but_terminate_requires_approval() {
    assert_eq!(
        engine().evaluate(&request("process.list", "local")).kind,
        PolicyDecisionKind::Auto
    );
    assert_eq!(
        engine().evaluate(&request("process.inspect", "1234")).kind,
        PolicyDecisionKind::Auto
    );
    assert_eq!(
        engine()
            .evaluate(&request("process.terminate", "1234"))
            .kind,
        PolicyDecisionKind::Approval
    );
}

#[test]
fn git_reads_in_project_inherit_filesystem_read_policy() {
    assert_eq!(
        engine()
            .evaluate(&request("git.status", r"D:\Proyectos\demo"))
            .kind,
        PolicyDecisionKind::Auto
    );
    assert_eq!(
        engine()
            .evaluate(&request("git.diff", r"C:\Windows\System32"))
            .kind,
        PolicyDecisionKind::Approval
    );
}

#[test]
fn secret_extraction_is_denied() {
    let decision = engine().evaluate(&request("browser.secret.extract", "firefox"));
    assert_eq!(decision.kind, PolicyDecisionKind::Deny);
}

#[test]
fn traversal_and_unknown_actions_fail_closed() {
    for action in [
        "filesystem.read",
        "filesystem.list",
        "filesystem.search_files",
        "filesystem.search_content",
        "filesystem.info",
    ] {
        let traversal = engine().evaluate(&request(action, r"D:\Proyectos\..\Windows\x"));
        assert_eq!(traversal.kind, PolicyDecisionKind::Deny, "{action}");
    }
    let unknown = engine().evaluate(&request("future.magic", "x"));
    assert_eq!(unknown.kind, PolicyDecisionKind::Deny);
}

#[test]
fn configurations_need_the_first_version_and_a_name() {
    let mut newer = config();
    newer.version = 2;
    assert!(matches!(
        PolicyEngine::from_config(newer),
        Err(PolicyError::InvalidConfig)
    ));
    let mut unnamed = config();
    unnamed.policy_id = " \t".into();
    assert!(matches!(
        PolicyEngine::from_config(unnamed),
        Err(PolicyError::InvalidConfig)
    ));
}

#[test]
fn the_deepest_rule_decides_whatever_its_place() {
    let mut reversed = config();
    reversed.filesystem.reverse();
    let engine = PolicyEngine::from_config(reversed).unwrap();
    let canary = engine.evaluate(&request(
        "filesystem.write",
        r"d:/proyectos/10_active/VOR-commander/state/local/m1-canary/x",
    ));
    assert_eq!(canary.kind, PolicyDecisionKind::Approval);
    assert_eq!(canary.reason_code, "filesystem_rule");
}

#[test]
fn uncovered_targets_are_denied() {
    for target in [r"E:\elsewhere", r"D:\Proyectos2\x", "relative", ""] {
        let decision = engine().evaluate(&request("filesystem.read", target));
        assert_eq!(decision.kind, PolicyDecisionKind::Deny, "{target}");
    }
}

#[test]
fn decisions_name_their_request_and_policy() {
    let decision = engine().evaluate(&request("process.list", "local"));
    assert_eq!(decision.request_id, "req-1");
    assert_eq!(decision.policy_id, "local-default");
    assert_eq!(decision.envelope_digest, [7; 32]);
    assert_eq!(decision.required_capability, None);
}
