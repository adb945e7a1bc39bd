use vor_commander::approval::{
    approver_public_key, sign_approval, ApprovalChallenge, ApprovalVerifier,
};
use vor_commander::audit::Ledger;
use vor_commander::broker::{Broker, ExecutionAuthorization};
use vor_commander::browser::{
    driver_ready, driver_turn, safe_download_name, value_string, webdriver_value, BrowserBridge,
    BrowserCloseState, BrowserConfig, BrowserError, BrowserSessionWorker, BrowserWorkerConfig,
    CloseTurn, DownloadObservation, ElementRef, SemanticNode, WEB_ELEMENT_KEY,
};
use vor_commander::paths::{IoFault, PathPart, PathStyle, PathText};
use vor_commander::policy::{
    AuditPolicy, BrowserPolicy, DesktopPolicy, FilesystemRule, NetworkPolicy, PolicyConfig,
    PolicyEngine, ProcessPolicy, RuleDecision, TerminalPolicy,
};
use vor_commander::protocol::{ActionEnvelope, ActionRequest, Parameter, ParameterValue};
use vor_commander::sessions::{
    allocate_session_root, confine_session_root, is_single_safe_component, opaque_session_id,
    remove_owned_session_root, same_origin_url, BrowserPlan,
};

fn path(text: &str) -> PathText {
    let path = std::path::Path::new(text);
    PathText {
        text: text.into(),
        absolute: path.is_absolute(),
        parts: path
            .components()
            .map(|part| match part {
                std::path::Component::Prefix(_) => PathPart::Prefix(String::new()),
                std::path::Component::RootDir => PathPart::RootDir,
                std::path::Component::CurDir => PathPart::CurDir,
                std::path::Component::ParentDir => PathPart::ParentDir,
                std::path::Component::Normal(name) => {
                    PathPart::Normal(name.to_string_lossy().into_owned())
                }
            })
            .collect(),
    }
}

fn policy(root: &str, read: RuleDecision, write: RuleDecision) -> PolicyEngine {
    PolicyEngine::from_config(PolicyConfig {
        version: 1,
        policy_id: "local-default".into(),
        filesystem: vec![FilesystemRule {
            path: root.into(),
            read,
            write,
        }],
        terminal: TerminalPolicy {
            default: RuleDecision::Approval,
            inline_eval: RuleDecision::ElevatedApproval,
            project_tests: RuleDecision::Auto,
            destructive: RuleDecision::Approval,
            elevated: RuleDecision::Approval,
        },
        process: ProcessPolicy {
            list: RuleDecision::Auto,
            inspect: RuleDecision::Auto,
            terminate: RuleDecision::Approval,
        },
        browser: BrowserPolicy {
            authenticated_session_use: RuleDecision::Approval,
            secret_extraction: RuleDecision::Deny,
            publish: RuleDecision::Approval,
            purchase: RuleDecision::Approval,
        },
        desktop: DesktopPolicy { enabled: true },
        network: NetworkPolicy {
            public_listener_fallback: RuleDecision::Deny,
        },
        audit: AuditPolicy {
            required: true,
            fail_if_unwritable: true,
        },
    })
    .unwrap()
}

/// A broker's leave to execute a request that an operator has approved.
fn approved(make: &dyn Fn() -> ActionRequest) -> ExecutionAuthorization {
    let ledger = Ledger::open(Vec::new(), Vec::new(), Vec::new(), Vec::new()).unwrap();
    let mut broker = Broker::new(
        policy("D:\\work", RuleDecision::Auto, RuleDecision::Approval),
        ledger,
    );
    let prepared = broker.authorize_at(make(), Ok(()), 1).unwrap();
    let challenge =
        ApprovalChallenge::issue(&prepared.request, &prepared.decision, Ok(()), 1, 5_000).unwrap();
    let approval = sign_approval(challenge, "operator-1".into(), &[7; 32]).unwrap();
    let mut verifier = ApprovalVerifier::new();
    verifier
        .add_approver("operator-1".into(), approver_public_key(&[7; 32]))
        .unwrap();
    broker
        .consume_approval_at(make(), &approval, &verifier, Ok(()), 2)
        .unwrap()
}

fn table(entries: Vec<(&str, ParameterValue)>) -> ParameterValue {
    ParameterValue::Table(
        entries
            .into_iter()
            .map(|(name, value)| Parameter {
                name: name.into(),
                value,
            })
            .collect(),
    )
}

fn text(value: &str) -> ParameterValue {
    ParameterValue::Text(value.into())
}

fn config() -> BrowserConfig {
    BrowserConfig::new(
        PathStyle::Unix,
        path("/opt/geckodriver"),
        path("/opt/firefox"),
        &path("/state"),
    )
}

fn launched() -> BrowserBridge {
    let body = table(vec![(
        "value",
        table(vec![
            ("sessionId", text("s-1")),
            (
                "capabilities",
                table(vec![("webSocketUrl", text("ws://127.0.0.1/session/s-1"))]),
            ),
        ]),
    )]);
    BrowserBridge::launch(&config(), "http://127.0.0.1:4444".into(), &body).unwrap()
}

fn browser_request(actor: &str, digest: u8, parameters: &[(&str, &str)]) -> ActionRequest {
    ActionRequest {
        envelope: ActionEnvelope {
            request_id: format!("req-{digest}"),
            organization_id: "org-1".into(),
            actor_id: actor.into(),
            device_id: "device-1".into(),
            action: "browser.session.use".into(),
            target: "browser".into(),
            parameters: parameters
                .iter()
                .map(|(name, value)| Parameter {
                    name: name.to_string(),
                    value: text(value),
                })
                .collect(),
            requested_capabilities: vec![],
            expires_at_unix_ms: 10_000,
            nonce: vec![5; 16],
        },
        envelope_digest: [digest; 32],
    }
}

fn use_browser(actor: &str, digest: u8, parameters: &[(&str, &str)]) -> ExecutionAuthorization {
    approved(&|| browser_request(actor, digest, parameters))
}

fn worker() -> BrowserSessionWorker {
    BrowserSessionWorker::new(BrowserWorkerConfig {
        geckodriver_path: path("/opt/geckodriver"),
        firefox_binary: path("/opt/firefox"),
        lab_root: path("/lab"),
        allowed_origin: "http://127.0.0.1:8080".into(),
    })
}

/// A worker with one session of `actor-a`, and its name.
fn serving() -> (BrowserSessionWorker, String) {
    let mut worker = worker();
    let start = use_browser("actor-a", 1, &[("operation", "start")]);
    let BrowserPlan::Start { session_id } =
        worker.execute_approved(PathStyle::Unix, &start).unwrap()
    else {
        panic!("a session is started");
    };
    worker.started(&start, &session_id, launched(), path("/lab/root"));
    (worker, session_id)
}

#[test]
fn default_profile_is_isolated_under_state_root() {
    let config = config();
    assert_eq!(config.profile_path.text, "/state/profiles/Vor-Automation");
    assert_eq!(config.driver_profile_root.text, "/state/driver-profiles");
    assert_eq!(config.download_dir.text, "/state/downloads");
}

#[test]
fn download_names_are_single_safe_components() {
    assert!(safe_download_name("report.txt").is_ok());
    for name in [
        "",
        ".",
        "..",
        "../secret.txt",
        "nested/file.txt",
        "nested\\file.txt",
        "C:\\secret.txt",
        "/tmp/secret.txt",
        "CON",
        "aux.txt",
        "bad:name.txt",
        "trailingspace.txt ",
        "trailingdot.txt.",
    ] {
        assert!(matches!(
            safe_download_name(name),
            Err(BrowserError::UnsafeDownloadName)
        ));
    }
}

#[test]
fn driver_ready_requires_ready_true() {
    assert!(!driver_ready(&table(vec![(
        "value",
        table(vec![("ready", ParameterValue::Bool(false))])
    )])));
    assert!(!driver_ready(&table(vec![("value", table(vec![]))])));
    assert!(!driver_ready(&table(vec![("value", text("not-object"))])));
    assert!(driver_ready(&table(vec![(
        "value",
        table(vec![("ready", ParameterValue::Bool(true))])
    )])));
}

#[test]
fn drivers_are_waited_for() {
    assert_eq!(driver_turn(false, None, true), Ok(true));
    assert_eq!(driver_turn(false, None, false), Ok(false));
    assert_eq!(
        driver_turn(false, Some(Some(3)), false),
        Err(BrowserError::DriverExited(Some(3)))
    );
    assert_eq!(
        driver_turn(true, None, false),
        Err(BrowserError::DriverStartupTimeout)
    );
}

#[test]
fn launches_need_their_executables() {
    assert_eq!(config().prepare(true, true), Ok(()));
    assert_eq!(
        config().prepare(false, true),
        Err(BrowserError::MissingExecutable("geckodriver".into()))
    );
    assert_eq!(
        config().prepare(true, false),
        Err(BrowserError::MissingExecutable("firefox".into()))
    );
}

#[test]
fn launch_answers_are_read() {
    let bridge = launched();
    assert_eq!(bridge.session_id(), "s-1");
    assert_eq!(bridge.bidi_url(), "ws://127.0.0.1/session/s-1");
    assert_eq!(
        bridge.command_url("/title"),
        "http://127.0.0.1:4444/session/s-1/title"
    );
    assert_eq!(
        bridge.click_url(&ElementRef { id: "e-9".into() }),
        "http://127.0.0.1:4444/session/s-1/element/e-9/click"
    );
    assert_eq!(
        bridge.value_url(&ElementRef { id: "e-9".into() }),
        "http://127.0.0.1:4444/session/s-1/element/e-9/value"
    );
    assert_eq!(
        bridge.text_url(&ElementRef { id: "e-9".into() }),
        "http://127.0.0.1:4444/session/s-1/element/e-9/text"
    );
    assert!(matches!(
        BrowserBridge::launch(&config(), "http://x".into(), &table(vec![])),
        Err(BrowserError::MissingField(_))
    ));
}

#[test]
fn launch_payloads_isolate_the_profile() {
    let shown = format!("{:?}", BrowserBridge::launch_payload(&config().headless(true)));
    assert!(shown.contains("-headless"));
    assert!(shown.contains("/state/profiles/Vor-Automation"));
    assert!(shown.contains("/state/downloads"));
}

#[test]
fn answers_hold_a_value() {
    let body = table(vec![("value", text("Vor Browser"))]);
    let value = webdriver_value(&body).unwrap();
    assert_eq!(value_string(value, "title").unwrap(), "Vor Browser");
    assert_eq!(
        value_string(&ParameterValue::Null, "title"),
        Err(BrowserError::MissingField("title".into()))
    );
    assert!(webdriver_value(&table(vec![])).is_err());
}

#[test]
fn screenshots_are_decoded() {
    let bridge = launched();
    assert_eq!(bridge.screenshot_png(&text("iVBORw==")), Ok(vec![137, 80, 78, 71]));
    assert_eq!(
        bridge.screenshot_png(&text("not base64")),
        Err(BrowserError::Base64)
    );
    let found = bridge
        .find_css(&table(vec![(WEB_ELEMENT_KEY, text("e-1"))]))
        .unwrap();
    assert_eq!(found.id, "e-1");
}

#[test]
fn sessions_are_closed_once() {
    let mut bridge = launched();
    assert_eq!(
        bridge.close(),
        Ok(CloseTurn::Delete("http://127.0.0.1:4444/session/s-1".into()))
    );
    assert_eq!(bridge.ensure_open(), Err(BrowserError::SessionClosing));
    assert_eq!(
        bridge.closed(true).unwrap().state,
        BrowserCloseState::Closed
    );
    assert_eq!(bridge.ensure_open(), Err(BrowserError::SessionClosed));
    let mut lost = launched();
    lost.close().unwrap();
    assert_eq!(lost.closed(false), Err(BrowserError::CloseUnconfirmed));
    assert_eq!(lost.ensure_open(), Err(BrowserError::SessionClosing));
}

#[test]
fn downloads_are_hashed_once_they_are_whole() {
    let bridge = launched();
    assert!(matches!(
        bridge.prepare_download(PathStyle::Unix, "op-1", "probe.txt", true, false),
        Err(BrowserError::PreexistingDownload(_))
    ));
    let operation = bridge
        .prepare_download(PathStyle::Unix, "op-1", "probe.txt", false, false)
        .unwrap();
    assert_eq!(operation.target.text, "/state/downloads/probe.txt");
    let mut seen = DownloadObservation {
        target_is_file: true,
        partial_exists: true,
        download_dir: Ok(path("/state/downloads")),
        target: Ok(path("/state/downloads/probe.txt")),
    };
    let bytes = || Ok(b"download-ok".to_vec());
    assert!(bridge
        .awaited_download(&operation, &seen, false)
        .unwrap()
        .is_none());
    assert!(bridge
        .complete_download(&operation, &seen, bytes(), false)
        .unwrap()
        .is_none());
    assert_eq!(
        bridge
            .complete_download(&operation, &seen, bytes(), true)
            .unwrap_err(),
        BrowserError::DownloadTimeout("probe.txt".into())
    );
    seen.partial_exists = false;
    let file = bridge.awaited_download(&operation, &seen, false).unwrap();
    assert_eq!(file.unwrap().text, "/state/downloads/probe.txt");
    let receipt = bridge
        .complete_download(&operation, &seen, bytes(), false)
        .unwrap()
        .unwrap();
    assert_eq!(receipt.size_bytes, 11);
    assert_eq!(
        receipt.sha256,
        "87ed2e37b5d7b03ee6a3f17b3b25999160e64384a8ced5baeb6ba82b660bde2f"
    );
    let unread = Err(IoFault { number: 2 });
    assert_eq!(
        bridge
            .complete_download(&operation, &seen, unread, false)
            .unwrap_err(),
        BrowserError::Io(IoFault { number: 2 })
    );
    seen.target = Ok(path("/elsewhere/probe.txt"));
    assert_eq!(
        bridge
            .awaited_download(&operation, &seen, false)
            .unwrap_err(),
        BrowserError::DownloadEscaped
    );
    assert_eq!(
        bridge
            .complete_download(&operation, &seen, bytes(), false)
            .unwrap_err(),
        BrowserError::DownloadEscaped
    );
}

#[test]
fn origins_are_told_apart() {
    for (candidate, same) in [
        ("http://127.0.0.1:8080/page", true),
        ("http://127.0.0.1:8080", true),
        ("HTTP://127.0.0.1:8080", false),
        ("http://127.0.0.1:8081/page", false),
        ("https://127.0.0.1:8080/page", false),
        ("http://127.0.0.1.evil.test:8080/", false),
        ("http://user@127.0.0.1:8080/", false),
        ("file:///etc/passwd", false),
        ("", false),
    ] {
        assert_eq!(
            same_origin_url(candidate, "http://127.0.0.1:8080"),
            same,
            "{candidate}"
        );
    }
}

#[test]
fn session_names_come_from_the_digest() {
    let name = opaque_session_id([0xab; 32]);
    assert_eq!(name, format!("bs-{}", "ab".repeat(32)));
    assert!(is_single_safe_component(&name));
    assert_ne!(name, opaque_session_id([0xac; 32]));
    for bad in ["", ".", "..", "a/b", "a\\b", "x.", "x_1"] {
        assert!(!is_single_safe_component(bad), "{bad}");
    }
}

#[test]
fn session_roots_stay_in_the_laboratory() {
    let root =
        allocate_session_root(PathStyle::Unix, &path("/lab"), "browser-1", false).unwrap();
    assert_eq!(root.text, "/lab/browser-1");
    assert_eq!(
        allocate_session_root(PathStyle::Unix, &path("/lab"), "../x", false).unwrap_err(),
        BrowserError::UnsafeSessionId
    );
    assert_eq!(
        allocate_session_root(PathStyle::Unix, &path("/lab"), "browser-1", true).unwrap_err(),
        BrowserError::DuplicateSession
    );
    assert!(confine_session_root(&path("/lab"), &path("/lab/browser-1")).is_ok());
    assert_eq!(
        confine_session_root(&path("/lab"), &path("/labs/browser-1")),
        Err(BrowserError::SessionRootEscaped)
    );
    assert_eq!(
        remove_owned_session_root(&path("/lab"), &path("/lab")),
        Err(BrowserError::SessionRootEscaped)
    );
}

#[test]
fn disabled_workers_start_nothing() {
    let start = use_browser("actor-a", 1, &[("operation", "start")]);
    assert_eq!(
        BrowserSessionWorker::disabled()
            .execute_approved(PathStyle::Unix, &start)
            .unwrap_err(),
        BrowserError::BrowserDisabled
    );
}

#[test]
fn sessions_serve_only_their_owner() {
    let (worker, session_id) = serving();
    let observe = [("operation", "observe"), ("session_id", session_id.as_str())];
    let own = use_browser("actor-a", 2, &observe);
    assert!(matches!(
        worker.execute_approved(PathStyle::Unix, &own),
        Ok(BrowserPlan::Observe { .. })
    ));
    let foreign = use_browser("actor-b", 3, &observe);
    let missing = use_browser(
        "actor-a",
        4,
        &[("operation", "observe"), ("session_id", "missing")],
    );
    assert_eq!(
        worker
            .execute_approved(PathStyle::Unix, &foreign)
            .unwrap_err(),
        BrowserError::SessionNotFound
    );
    assert_eq!(
        worker
            .execute_approved(PathStyle::Unix, &missing)
            .unwrap_err(),
        BrowserError::SessionNotFound
    );
}

#[test]
fn navigation_stays_at_the_allowed_origin() {
    let (mut worker, session_id) = serving();
    let outside = use_browser(
        "actor-a",
        2,
        &[
            ("operation", "navigate"),
            ("session_id", session_id.as_str()),
            ("url", "http://example.test/"),
        ],
    );
    assert_eq!(
        worker
            .execute_approved(PathStyle::Unix, &outside)
            .unwrap_err(),
        BrowserError::NavigationOutOfScope
    );
    let inside = use_browser(
        "actor-a",
        3,
        &[
            ("operation", "navigate"),
            ("session_id", session_id.as_str()),
            ("url", "http://127.0.0.1:8080/page"),
        ],
    );
    assert!(matches!(
        worker.execute_approved(PathStyle::Unix, &inside),
        Ok(BrowserPlan::Navigate { .. })
    ));
    let report = format!("{:?}", worker.navigated(&session_id));
    assert!(report.contains("generation"));
}

#[test]
fn pages_are_reported_by_their_elements() {
    let (worker, session_id) = serving();
    let node = SemanticNode {
        index: 4,
        tag: "button".into(),
        id: Some("go".into()),
        role: None,
        name: None,
        element_type: Some("submit".into()),
        text: "Go".into(),
        disabled: true,
    };
    let ParameterValue::Table(entries) = worker.observed(&session_id, &vec![node]) else {
        panic!("a report is a table");
    };
    assert_eq!(entries.len(), 3);
    assert_eq!(entries[2].name, "nodes");
    let shown = format!("{:?}", entries[2].value);
    assert_eq!(
        shown,
        "List([Table([\
         Parameter { name: \"index\", value: Unsigned(4) }, \
         Parameter { name: \"tag\", value: Text(\"button\") }, \
         Parameter { name: \"id\", value: Text(\"go\") }, \
         Parameter { name: \"role\", value: Null }, \
         Parameter { name: \"name\", value: Null }, \
         Parameter { name: \"element_type\", value: Text(\"submit\") }, \
         Parameter { name: \"text\", value: Text(\"Go\") }, \
         Parameter { name: \"disabled\", value: Bool(true) }])])"
    );
}

#[test]
fn closed_sessions_are_gone() {
    let (mut worker, session_id) = serving();
    assert!(matches!(
        worker.close(&session_id),
        Ok(CloseTurn::Delete(_))
    ));
    assert_eq!(worker.closed(&session_id, true).unwrap().text, "/lab/root");
    let again = use_browser(
        "actor-a",
        5,
        &[("operation", "close"), ("session_id", session_id.as_str())],
    );
    assert_eq!(
        worker
            .execute_approved(PathStyle::Unix, &again)
            .unwrap_err(),
        BrowserError::SessionNotFound
    );
}

#[test]
fn unknown_operations_are_refused() {
    let (worker, _) = serving();
    let odd = use_browser("actor-a", 2, &[("operation", "dance")]);
    assert_eq!(
        worker.execute_approved(PathStyle::Unix, &odd).unwrap_err(),
        BrowserError::InvalidOperation
    );
    let none = use_browser("actor-a", 3, &[]);
    assert_eq!(
        worker.execute_approved(PathStyle::Unix, &none).unwrap_err(),
        BrowserError::MissingParameter("operation".into())
    );
}
