use vor_commander::approval::{
    approver_public_key, sign_approval, ApprovalChallenge, ApprovalVerifier,
};
use vor_commander::audit::Ledger;
use vor_commander::broker::{Broker, ExecutionAuthorization};
use vor_commander::desktop::{
    approved_target, capture_virtual_desktop_png, check_settable, screenshot_bytes, set_value,
    to_rgba, DesktopError, DesktopRect, ElementSnapshot, SearchTurn, TargetSearch, TreeWalk,
    ABSOLUTE_MAX_DEPTH, ABSOLUTE_MAX_NODES, DEFAULT_MAX_DEPTH, DEFAULT_MAX_NODES, MAX_VALUE_BYTES,
};
use vor_commander::policy::{
    AuditPolicy, BrowserPolicy, DesktopPolicy, FilesystemRule, NetworkPolicy, PolicyConfig,
    PolicyEngine, ProcessPolicy, RuleDecision, TerminalPolicy,
};
use vor_commander::protocol::{ActionEnvelope, ActionRequest, Parameter, ParameterValue};

fn policy(root: &str, read: RuleDecision, write: RuleDecision) -> PolicyEngine {
    PolicyEngine::from_config(PolicyConfig {
        version: 1,
        policy_id: "local-default".into(),
        filesystem: vec![FilesystemRule {
            path: root.into(),
            read,
            write,
        }],
        terminal: TerminalPolicy {
            default: RuleDecision::Approval,
            inline_eval: RuleDecision::ElevatedApproval,
            project_tests: RuleDecision::Auto,
            destructive: RuleDecision::Approval,
            elevated: RuleDecision::Approval,
        },
        process: ProcessPolicy {
            list: RuleDecision::Auto,
            inspect: RuleDecision::Auto,
            terminate: RuleDecision::Approval,
        },
        browser: BrowserPolicy {
            authenticated_session_use: RuleDecision::Approval,
            secret_extraction: RuleDecision::Deny,
            publish: RuleDecision::Approval,
            purchase: RuleDecision::Approval,
        },
        desktop: DesktopPolicy { enabled: true },
        network: NetworkPolicy {
            public_listener_fallback: RuleDecision::Deny,
        },
        audit: AuditPolicy {
            required: true,
            fail_if_unwritable: true,
        },
    })
    .unwrap()
}

/// A broker's leave to execute a request that an operator has approved.
fn approved(make: &dyn Fn() -> ActionRequest) -> ExecutionAuthorization {
    let ledger = Ledger::open(Vec::new(), Vec::new(), Vec::new(), Vec::new()).unwrap();
    let mut broker = Broker::new(
        policy("D:\\work", RuleDecision::Auto, RuleDecision::Approval),
        ledger,
    );
    let prepared = broker.authorize_at(make(), Ok(()), 1).unwrap();
    let challenge =
        ApprovalChallenge::issue(&prepared.request, &prepared.decision, Ok(()), 1, 5_000).unwrap();
    let approval = sign_approval(challenge, "operator-1".into(), &[7; 32]).unwrap();
    let mut verifier = ApprovalVerifier::new();
    verifier
        .add_approver("operator-1".into(), approver_public_key(&[7; 32]))
        .unwrap();
    broker
        .consume_approval_at(make(), &approval, &verifier, Ok(()), 2)
        .unwrap()
}

fn action(name: &str, value: Option<&str>) -> ActionRequest {
    let mut parameters = vec![
        Parameter {
            name: "process_id".into(),
            value: ParameterValue::Unsigned(41),
        },
        Parameter {
            name: "automation_id".into(),
            value: ParameterValue::Text("input-1".into()),
        },
    ];
    if let Some(value) = value {
        parameters.push(Parameter {
            name: "value".into(),
            value: ParameterValue::Text(value.into()),
        });
    }
    ActionRequest {
        envelope: ActionEnvelope {
            request_id: "req-1".into(),
            organization_id: "org-1".into(),
            actor_id: "actor-1".into(),
            device_id: "device-1".into(),
            action: name.into(),
            target: "desktop".into(),
            parameters,
            requested_capabilities: vec![],
            expires_at_unix_ms: 10_000,
            nonce: vec![5; 16],
        },
        envelope_digest: [6; 32],
    }
}

fn element(name: &str) -> ElementSnapshot {
    ElementSnapshot {
        name: name.into(),
        automation_id: String::new(),
        control_type: 50_000,
        process_id: 41,
        native_window_handle: 0,
        bounds: DesktopRect {
            left: 0,
            top: 0,
            right: 1,
            bottom: 1,
        },
        enabled: true,
        offscreen: false,
    }
}

#[test]
fn rejects_unbounded_tree_requests() {
    assert!(matches!(
        TreeWalk::new(Some(ABSOLUTE_MAX_DEPTH + 1), Some(1)),
        Err(DesktopError::InvalidLimits)
    ));
}

#[test]
fn tree_limits_have_defaults() {
    let walk = TreeWalk::new(None, None).unwrap();
    assert_eq!(walk.max_depth, DEFAULT_MAX_DEPTH);
    assert_eq!(walk.max_nodes, DEFAULT_MAX_NODES);
    assert!(TreeWalk::new(Some(1), Some(0)).is_err());
    assert!(TreeWalk::new(Some(1), Some(ABSOLUTE_MAX_NODES + 1)).is_err());
}

#[test]
fn trees_are_walked_level_by_level() {
    let mut walk = TreeWalk::new(Some(1), Some(8)).unwrap();
    walk.enqueue_children(&vec![1, 2], None, 0);
    let first = walk.next().unwrap();
    assert_eq!((first.element, first.depth), (1, 0));
    let (index, depth) = walk.take(&first, element("a")).unwrap();
    walk.enqueue_children(&vec![3], Some(index), depth);
    let second = walk.next().unwrap();
    walk.take(&second, element("b"));
    let third = walk.next().unwrap();
    assert_eq!(third.element, 3);
    assert_eq!(third.parent_index, Some(0));
    assert!(walk.take(&third, element("c")).is_none());
    assert!(walk.next().is_none());
    assert_eq!(walk.nodes.len(), 3);
    assert_eq!(walk.nodes[2].parent_index, Some(0));
    assert_eq!(walk.nodes[2].depth, 1);
}

#[test]
fn approved_actions_name_their_element() {
    let execution = approved(&|| action("desktop.invoke", None));
    let target = approved_target(&execution, "desktop.invoke").unwrap();
    assert_eq!(target.process_id, 41);
    assert_eq!(target.automation_id, "input-1");
    assert_eq!(
        approved_target(&execution, "desktop.set_value"),
        Err(DesktopError::AuthorizationMismatch)
    );
}

#[test]
fn values_are_bounded() {
    let (target, value) =
        set_value(&approved(&|| action("desktop.set_value", Some("typed-vor")))).unwrap();
    assert_eq!(target.process_id, 41);
    assert_eq!(value, "typed-vor");
    assert_eq!(
        set_value(&approved(&|| action("desktop.set_value", None))),
        Err(DesktopError::InvalidActionParameters)
    );
    let long = "x".repeat(MAX_VALUE_BYTES + 1);
    assert_eq!(
        set_value(&approved(&|| action("desktop.set_value", Some(&long)))),
        Err(DesktopError::InvalidActionParameters)
    );
}

#[test]
fn passwords_are_never_set() {
    assert_eq!(check_settable(false, false), Ok(()));
    assert_eq!(
        check_settable(true, true),
        Err(DesktopError::PasswordFieldDenied)
    );
    assert_eq!(
        check_settable(false, true),
        Err(DesktopError::ReadOnlyElement)
    );
}

#[test]
fn targets_are_searched_breadth_first() {
    let execution = approved(&|| action("desktop.invoke", None));
    let target = approved_target(&execution, "desktop.invoke").unwrap();
    let mut search = TargetSearch::new(&target, 100).unwrap();
    assert_eq!(search.next(), SearchTurn::Look(100));
    assert_eq!(
        search.looked(100, Some(41), &Some("other".into())),
        SearchTurn::Expand(100)
    );
    search.expanded(&vec![7, 8]);
    assert_eq!(search.next(), SearchTurn::Look(7));
    assert_eq!(search.looked(7, Some(42), &Some("input-1".into())), SearchTurn::Expand(7));
    search.expanded(&vec![]);
    assert_eq!(search.next(), SearchTurn::Look(8));
    assert_eq!(
        search.looked(8, Some(41), &Some("input-1".into())),
        SearchTurn::Found(8)
    );
    assert_eq!(search.next(), SearchTurn::Failed(DesktopError::TargetNotFound));
}

#[test]
fn screenshots_are_bounded() {
    assert_eq!(screenshot_bytes(2, 3), Ok(24));
    assert_eq!(
        screenshot_bytes(0, 3),
        Err(DesktopError::InvalidScreenshotDimensions)
    );
    assert_eq!(
        screenshot_bytes(100_000, 100_000),
        Err(DesktopError::ScreenshotTooLarge)
    );
}

#[test]
fn pixels_are_turned_and_made_opaque() {
    assert_eq!(to_rgba(&[1, 2, 3, 0, 4, 5, 6, 7]), vec![3, 2, 1, 255, 6, 5, 4, 255]);
}

#[test]
fn screenshots_are_png() {
    let shot = capture_virtual_desktop_png(-1, 2, 1, 1, &[10, 20, 30, 0], 1).unwrap();
    assert_eq!((shot.origin_x, shot.origin_y), (-1, 2));
    assert_eq!((shot.width, shot.height), (1, 1));
    assert_eq!(&shot.png[..8], b"\x89PNG\r\n\x1a\n");
    let decoder = png::Decoder::new(std::io::Cursor::new(&shot.png));
    let mut reader = decoder.read_info().unwrap();
    let mut pixels = vec![0; 4];
    reader.next_frame(&mut pixels).unwrap();
    assert_eq!(pixels, vec![30, 20, 10, 255]);
}
