use vor_commander::broker::Authorization;
use vor_commander::git::{git_output, GitError, GitRun, GitWorker, MAX_OUTPUT_BYTES};
use vor_commander::paths::{
    Canonical, FileKind, IoFault, PathPart, PathText, Resolution, RootObservation,
};
use vor_commander::protocol::{
    ActionEnvelope, ActionRequest, PolicyDecision, PolicyDecisionKind,
};

fn path(text: &str) -> PathText {
    let path = std::path::Path::new(text);
    PathText {
        text: text.into(),
        absolute: path.is_absolute(),
        parts: path
            .components()
            .map(|part| match part {
                std::path::Component::Prefix(_) => PathPart::Prefix(String::new()),
                std::path::Component::RootDir => PathPart::RootDir,
                std::path::Component::CurDir => PathPart::CurDir,
                std::path::Component::ParentDir => PathPart::ParentDir,
                std::path::Component::Normal(name) => {
                    PathPart::Normal(name.to_string_lossy().into_owned())
                }
            })
            .collect(),
    }
}

fn directory(text: &str) -> Resolution {
    Resolution {
        reparse: Ok(None),
        canonical: Ok(Canonical {
            path: path(text),
            kind: FileKind::Directory,
        }),
    }
}

fn authorization(action: &str, kind: PolicyDecisionKind) -> Authorization {
    Authorization {
        request: ActionRequest {
            envelope: ActionEnvelope {
                request_id: "req-1".into(),
                organization_id: "org-1".into(),
                actor_id: "actor-1".into(),
                device_id: "device-1".into(),
                action: action.into(),
                target: "/work/repo".into(),
                parameters: Vec::new(),
                requested_capabilities: vec![],
                expires_at_unix_ms: 10_000,
                nonce: vec![1; 16],
            },
            envelope_digest: [2; 32],
        },
        decision: PolicyDecision {
            request_id: "req-1".into(),
            kind,
            policy_id: "local-default".into(),
            reason_code: "git_read".into(),
            required_capability: None,
            envelope_digest: [2; 32],
        },
    }
}

fn worker() -> GitWorker {
    GitWorker::new(
        &path("/usr/bin/git"),
        true,
        Ok(path("/usr/bin/git")),
        &vec![RootObservation {
            path: path("/work"),
            seen: directory("/work"),
        }],
    )
    .unwrap()
}

fn run(stdout: &[u8]) -> GitRun {
    GitRun {
        success: true,
        code: Some(0),
        stdout: stdout.to_vec(),
        stderr: Vec::new(),
    }
}

#[test]
fn status_reports_untracked_file() {
    let command = worker()
        .status(
            &authorization("git.status", PolicyDecisionKind::Auto),
            &path("/work/repo"),
            &directory("/work/repo"),
        )
        .unwrap();
    assert!(command.arguments.iter().any(|argument| argument == "status"));
    let output = git_output(&run(b"# branch.head main\n? new.txt\n")).unwrap();
    assert!(output.stdout.lines().any(|line| line == "? new.txt"));
}

#[test]
fn diff_disables_external_helpers_and_returns_patch() {
    let command = worker()
        .diff(
            &authorization("git.diff", PolicyDecisionKind::Auto),
            &path("/work/repo"),
            &directory("/work/repo"),
        )
        .unwrap();
    for argument in ["diff", "--no-ext-diff", "--no-textconv"] {
        assert!(
            command.arguments.iter().any(|given| given == argument),
            "{argument}"
        );
    }
    assert!(command
        .environment
        .iter()
        .any(|(name, value)| name == "GIT_TERMINAL_PROMPT" && value == "0"));
}

#[test]
fn workers_need_an_executable_and_roots() {
    assert!(matches!(
        GitWorker::new(&path("git"), true, Ok(path("/usr/bin/git")), &vec![]),
        Err(GitError::InvalidExecutable)
    ));
    assert!(matches!(
        GitWorker::new(&path("/usr/bin/git"), true, Ok(path("/usr/bin/git")), &vec![]),
        Err(GitError::NoAllowedRoots)
    ));
}

#[test]
fn commands_need_the_right_authorization() {
    let denied = |action: &str, kind: PolicyDecisionKind, target: &str| {
        let mut authorization = authorization(action, kind);
        authorization.request.envelope.target = target.into();
        worker()
            .status(&authorization, &path(target), &directory(target))
            .unwrap_err()
    };
    assert_eq!(
        denied("git.diff", PolicyDecisionKind::Auto, "/work/repo"),
        GitError::WrongAction
    );
    assert_eq!(
        denied("git.status", PolicyDecisionKind::Deny, "/work/repo"),
        GitError::Denied
    );
    assert_eq!(
        denied("git.status", PolicyDecisionKind::Approval, "/work/repo"),
        GitError::ApprovalRequired
    );
    assert_eq!(
        denied("git.status", PolicyDecisionKind::Auto, "/elsewhere"),
        GitError::OutsideAllowedRoots
    );
    assert_eq!(
        denied("git.status", PolicyDecisionKind::Auto, "/work/../etc"),
        GitError::UnsafePath
    );
    let mut foreign = authorization("git.status", PolicyDecisionKind::Auto);
    foreign.decision.request_id = "req-2".into();
    assert_eq!(
        worker()
            .status(&foreign, &path("/work/repo"), &directory("/work/repo"))
            .unwrap_err(),
        GitError::AuthorizationMismatch
    );
}

#[test]
fn links_and_files_are_no_repositories() {
    let auto = authorization("git.status", PolicyDecisionKind::Auto);
    let link = Resolution {
        reparse: Ok(Some("/work/repo".into())),
        canonical: Ok(Canonical {
            path: path("/work/repo"),
            kind: FileKind::Directory,
        }),
    };
    assert_eq!(
        worker().status(&auto, &path("/work/repo"), &link).unwrap_err(),
        GitError::ReparsePoint("/work/repo".into())
    );
    let file = Resolution {
        reparse: Ok(None),
        canonical: Ok(Canonical {
            path: path("/work/repo"),
            kind: FileKind::File,
        }),
    };
    assert_eq!(
        worker().status(&auto, &path("/work/repo"), &file).unwrap_err(),
        GitError::NotDirectory
    );
    let gone = Resolution {
        reparse: Ok(None),
        canonical: Err(IoFault { number: 2 }),
    };
    assert_eq!(
        worker().status(&auto, &path("/work/repo"), &gone).unwrap_err(),
        GitError::Io(IoFault { number: 2 })
    );
}

#[test]
fn output_is_bounded_and_read_leniently() {
    assert_eq!(
        git_output(&run(&vec![b'x'; MAX_OUTPUT_BYTES + 1])),
        Err(GitError::OutputLimitExceeded)
    );
    assert_eq!(git_output(&run(b"a\xffb")).unwrap().stdout, "a\u{fffd}b");
    let failed = GitRun {
        success: false,
        code: Some(128),
        stdout: Vec::new(),
        stderr: b"fatal: no repository".to_vec(),
    };
    assert_eq!(
        git_output(&failed),
        Err(GitError::CommandFailed {
            code: Some(128),
            stderr: "fatal: no repository".into()
        })
    );
}

#[test]
fn other_repositories_than_the_authorized_one_are_refused() {
    let authorization = |action: &str| authorization(action, PolicyDecisionKind::Auto);
    let other = path("/work/other");
    let seen = directory("/work/other");
    assert!(matches!(
        worker().status(&authorization("git.status"), &other, &seen),
        Err(GitError::AuthorizationMismatch)
    ));
    assert!(matches!(
        worker().diff(&authorization("git.diff"), &other, &seen),
        Err(GitError::AuthorizationMismatch)
    ));
}
