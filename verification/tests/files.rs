use vor_commander::approval::{
    approver_public_key, sign_approval, ApprovalChallenge, ApprovalVerifier,
};
use vor_commander::audit::Ledger;
use vor_commander::broker::{Authorization, Broker, ExecutionAuthorization};
use std::collections::{BTreeMap, BTreeSet};
use vor_commander::edits::{
    apply_edits, edits_fit, unified_diff_summary, PreparedEdit, TextEdit, MAX_DIFF_SUMMARY_BYTES,
    MAX_EDITS,
};
use vor_commander::encodings::{decode_search_text, encode_edit_text, looks_binary, Encoding};
use vor_commander::files::{
    select_lines, walk_order, DirectoryEntry, EntryObservation, FileInfo, FsError, FsWorker,
    JournalObservation, Metadata, MAX_LIST_DEPTH,
};
use vor_commander::passages::{
    closest_line, journal_lines, levenshtein, lines, occurrences, replaced, truncate,
};
use vor_commander::paths::{
    is_in, Canonical, FileKind, IoFault, PathPart, PathStyle, PathText, Resolution, RootObservation,
};
use vor_commander::policy::{
    AuditPolicy, BrowserPolicy, DesktopPolicy, FilesystemRule, NetworkPolicy, PolicyConfig,
    PolicyEngine, ProcessPolicy, RuleDecision, TerminalPolicy,
};
use vor_commander::protocol::{
    ActionEnvelope, ActionRequest, Parameter, ParameterValue, PolicyDecision, PolicyDecisionKind,
};
use vor_commander::search::{
    glob_text, ContentSearchResult, SearchAction, MAX_CONTENT_MATCHES, MAX_LINE_TEXT_BYTES,
    MAX_SEARCH_DURATION, MAX_SEARCH_FILE_BYTES,
};
use vor_commander::writes::{
    verify_target_precondition, FoundTarget, JournalRecord, JournalState, TargetPrecondition,
    TargetState, WriteObservation, WriteReceipt, WriteStep, WriteTransaction, WriteTurn,
};

fn path(text: &str) -> PathText {
    let path = std::path::Path::new(text);
    PathText {
        text: text.into(),
        absolute: path.is_absolute(),
        parts: path
            .components()
            .map(|part| match part {
                std::path::Component::Prefix(_) => PathPart::Prefix(String::new()),
                std::path::Component::RootDir => PathPart::RootDir,
                std::path::Component::CurDir => PathPart::CurDir,
                std::path::Component::ParentDir => PathPart::ParentDir,
                std::path::Component::Normal(name) => {
                    PathPart::Normal(name.to_string_lossy().into_owned())
                }
            })
            .collect(),
    }
}

fn policy(root: &str, read: RuleDecision, write: RuleDecision) -> PolicyEngine {
    PolicyEngine::from_config(PolicyConfig {
        version: 1,
        policy_id: "local-default".into(),
        filesystem: vec![FilesystemRule {
            path: root.into(),
            read,
            write,
        }],
        terminal: TerminalPolicy {
            default: RuleDecision::Approval,
            inline_eval: RuleDecision::ElevatedApproval,
            project_tests: RuleDecision::Auto,
            destructive: RuleDecision::Approval,
            elevated: RuleDecision::Approval,
        },
        process: ProcessPolicy {
            list: RuleDecision::Auto,
            inspect: RuleDecision::Auto,
            terminate: RuleDecision::Approval,
        },
        browser: BrowserPolicy {
            authenticated_session_use: RuleDecision::Approval,
            secret_extraction: RuleDecision::Deny,
            publish: RuleDecision::Approval,
            purchase: RuleDecision::Approval,
        },
        desktop: DesktopPolicy { enabled: true },
        network: NetworkPolicy {
            public_listener_fallback: RuleDecision::Deny,
        },
        audit: AuditPolicy {
            required: true,
            fail_if_unwritable: true,
        },
    })
    .unwrap()
}

/// A broker's leave to execute a request that an operator has approved.
fn approved(make: &dyn Fn() -> ActionRequest) -> ExecutionAuthorization {
    let ledger = Ledger::open(Vec::new(), Vec::new(), Vec::new(), Vec::new()).unwrap();
    let mut broker = Broker::new(
        policy(r"D:\work", RuleDecision::Auto, RuleDecision::Approval),
        ledger,
    );
    let prepared = broker.authorize_at(make(), Ok(()), 1).unwrap();
    let challenge =
        ApprovalChallenge::issue(&prepared.request, &prepared.decision, Ok(()), 1, 5_000).unwrap();
    let approval = sign_approval(challenge, "operator-1".into(), &[7; 32]).unwrap();
    let mut verifier = ApprovalVerifier::new();
    verifier
        .add_approver("operator-1".into(), approver_public_key(&[7; 32]))
        .unwrap();
    broker
        .consume_approval_at(make(), &approval, &verifier, Ok(()), 2)
        .unwrap()
}

const ROOT: &str = "/root";
const GONE: IoFault = IoFault { number: 2 };

fn sha256(bytes: &[u8]) -> String {
    vor_commander::maintenance::sha256_file(bytes)
}

fn authorization(action: &str, target: &str, content: Option<&[u8]>) -> Authorization {
    let mut parameters = Vec::new();
    if let Some(content) = content {
        parameters.push(Parameter {
            name: "content_sha256".into(),
            value: ParameterValue::Text(sha256(content)),
        });
    }
    let request = ActionRequest {
        envelope: ActionEnvelope {
            request_id: "req-fs-1".into(),
            organization_id: "org-1".into(),
            actor_id: "actor-1".into(),
            device_id: "device-1".into(),
            action: action.into(),
            target: target.into(),
            parameters,
            requested_capabilities: vec![],
            expires_at_unix_ms: u64::MAX,
            nonce: vec![9; 16],
        },
        envelope_digest: [0xc4; 32],
    };
    let decision = PolicyDecision {
        request_id: request.envelope.request_id.clone(),
        kind: PolicyDecisionKind::Auto,
        policy_id: "test".into(),
        reason_code: "test_auto".into(),
        required_capability: None,
        envelope_digest: request.envelope_digest,
    };
    Authorization { request, decision }
}

fn read_authorization(action: &str, target: &str) -> Authorization {
    authorization(action, target, None)
}

fn edit_authorization(target: &str) -> Authorization {
    let mut auth = authorization("filesystem.write", target, None);
    auth.decision.kind = PolicyDecisionKind::Approval;
    auth
}

fn found(name: &str, kind: FileKind) -> Resolution {
    Resolution {
        reparse: Ok(None),
        canonical: Ok(Canonical {
            path: path(name),
            kind,
        }),
    }
}

fn worker() -> FsWorker {
    FsWorker::new(
        &vec![RootObservation {
            path: path(ROOT),
            seen: found(ROOT, FileKind::Directory),
        }],
        JournalObservation {
            created: Ok(()),
            reparse: Ok(None),
            canonical: Ok(path("/root/journal")),
        },
    )
    .unwrap()
}

fn metadata(kind: FileKind, size: usize) -> Metadata {
    Metadata {
        kind,
        size: size as u64,
        created_unix_ms: None,
        modified_unix_ms: Some(5),
        accessed_unix_ms: None,
        read_only: false,
    }
}

/// A disk in memory: files by their path, directories above them, and links.
struct Disk {
    files: BTreeMap<String, Vec<u8>>,
    links: BTreeSet<String>,
    records: BTreeMap<String, JournalState>,
}

fn disk(files: &[(&str, &[u8])]) -> Disk {
    Disk {
        files: files
            .iter()
            .map(|(name, bytes)| (name.to_string(), bytes.to_vec()))
            .collect(),
        links: BTreeSet::new(),
        records: BTreeMap::new(),
    }
}

impl Disk {
    fn kind(&self, name: &str) -> Option<FileKind> {
        if self.files.contains_key(name) {
            Some(FileKind::File)
        } else if self.files.keys().any(|file| {
            file.starts_with(name) && file.as_bytes().get(name.len()) == Some(&b'/')
        }) {
            Some(FileKind::Directory)
        } else {
            None
        }
    }

    fn seen(&self, name: &str) -> Resolution {
        match self.kind(name) {
            None => Resolution {
                reparse: Ok(None),
                canonical: Err(GONE),
            },
            Some(kind) => found(name, kind),
        }
    }

    fn read(&self, name: &str) -> Result<Vec<u8>, IoFault> {
        self.files.get(name).cloned().ok_or(GONE)
    }

    fn entries(&self, directory: &str) -> Vec<EntryObservation> {
        let mut names: Vec<String> = self
            .files
            .keys()
            .filter_map(|file| file.strip_prefix(&format!("{directory}/")))
            .map(|rest| rest.split('/').next().unwrap().to_string())
            .collect();
        names.extend(
            self.links
                .iter()
                .filter_map(|link| link.strip_prefix(&format!("{directory}/")))
                .map(|rest| rest.to_string()),
        );
        names.sort();
        names.dedup();
        names.reverse();
        let bytes = names.iter().map(|name| name.as_bytes().to_vec()).collect();
        walk_order(&bytes)
            .into_iter()
            .map(|i| {
                let name = &names[i];
                let full = format!("{directory}/{name}");
                let is_link = self.links.contains(&full);
                let size = self.files.get(&full).map_or(0, |bytes| bytes.len());
                EntryObservation {
                    is_link: Ok(is_link),
                    canonical: Ok(path(&full)),
                    metadata: metadata(self.kind(&full).unwrap_or(FileKind::Other), size),
                }
            })
            .collect()
    }

    fn list(&self, depth: usize, max: usize) -> Result<Vec<DirectoryEntry>, FsError> {
        let auth = read_authorization("filesystem.list", ROOT);
        let worker = worker();
        let (mut walk, mut listing) =
            worker.list_directory(&auth, &path(ROOT), &self.seen(ROOT), Ok(true), depth, max)?;
        while let Some(directory) = walk.next_directory() {
            for entry in self.entries(&directory.path.text) {
                if let Some(found) = worker.visited(&entry)? {
                    if !listing.visit(found, &entry.metadata) {
                        return Ok(listing.entries);
                    }
                    walk.pass(found, entry.metadata.kind, directory.level);
                }
            }
        }
        Ok(listing.entries)
    }

    fn search_files(&self, pattern: &str, max: usize) -> Result<Vec<String>, FsError> {
        let auth = read_authorization("filesystem.search_files", ROOT);
        let worker = worker();
        let (mut walk, mut search) =
            worker.search_files(&auth, &path(ROOT), &self.seen(ROOT), pattern, max)?;
        while let Some(directory) = walk.next_directory() {
            for entry in self.entries(&directory.path.text) {
                if let Some(found) = worker.visited(&entry)? {
                    if !search.visit(found, &entry.metadata, 0)? {
                        return Ok(search.found);
                    }
                    walk.pass(found, entry.metadata.kind, directory.level);
                }
            }
        }
        Ok(search.found)
    }

    fn search_content(
        &self,
        query: &str,
        regex: bool,
        glob: &str,
        max: usize,
        max_bytes: usize,
        timeout: u128,
    ) -> Result<ContentSearchResult, FsError> {
        let auth = read_authorization("filesystem.search_content", ROOT);
        let worker = worker();
        let (mut walk, mut search) = worker.search_content(
            &auth,
            &path(ROOT),
            &self.seen(ROOT),
            query,
            regex,
            glob,
            max,
            max_bytes,
        )?;
        while let Some(directory) = walk.next_directory() {
            for entry in self.entries(&directory.path.text) {
                if let Some(found) = worker.visited(&entry)? {
                    if search.visit(found, &entry.metadata, 0, timeout)? == SearchAction::Read {
                        let bytes = self.read(&found.text).unwrap();
                        if !search.search(found, &bytes) {
                            return Ok(search.result);
                        }
                    }
                    walk.pass(found, entry.metadata.kind, directory.level);
                }
            }
        }
        Ok(search.result)
    }

    fn write_seen(&self, target: &str) -> WriteObservation {
        let (parent, _) = target.rsplit_once('/').unwrap();
        let existing = self.kind(target).map(|kind| FoundTarget {
            is_file: Ok(kind == FileKind::File),
            canonical: Ok(path(target)),
            directory: Some(path(parent)),
        });
        WriteObservation {
            reparse: Ok(None),
            existing,
            parent: Some(Ok(path(parent))),
            state: match self.files.get(target) {
                None => TargetState::Absent,
                Some(bytes) => TargetState::Bytes(bytes.clone()),
            },
            temp_exists: false,
            journal_exists: false,
        }
    }

    fn note(&mut self, tx: &WriteTransaction) {
        self.records
            .insert(tx.record.transaction_id.clone(), tx.record.state);
    }

    fn run(&mut self, tx: WriteTransaction, content: &[u8]) -> Result<WriteReceipt, FsError> {
        self.run_failing(tx, content, None)
    }

    /// Runs a write of which one step may fail, without an effect.
    fn run_failing(
        &mut self,
        mut tx: WriteTransaction,
        content: &[u8],
        failing: Option<usize>,
    ) -> Result<WriteReceipt, FsError> {
        let mut step = WriteStep::WriteTemp;
        let mut taken = 0;
        loop {
            let target = tx.target.text.clone();
            let temp = tx.temp.text.clone();
            let outcome = match &step {
                _ if failing == Some(taken) => Err(FsError::Io(GONE)),
                WriteStep::WriteTemp => {
                    self.files.insert(temp, content.to_vec());
                    Ok(())
                }
                WriteStep::CheckTarget => {
                    let state = match self.files.get(&target) {
                        None => TargetState::Absent,
                        Some(bytes) => TargetState::Bytes(bytes.clone()),
                    };
                    match &tx.precondition {
                        None => Ok(()),
                        Some(precondition) => verify_target_precondition(&state, precondition),
                    }
                }
                WriteStep::CopyBackup => {
                    let bytes = self.read(&target).unwrap();
                    self.files
                        .insert(tx.backup.as_ref().unwrap().text.clone(), bytes);
                    Ok(())
                }
                WriteStep::Note | WriteStep::NoteReplaced | WriteStep::NoteCommitted => {
                    self.note(&tx);
                    Ok(())
                }
                WriteStep::Replace => {
                    let bytes = self.files.remove(&temp).unwrap();
                    self.files.insert(target, bytes);
                    Ok(())
                }
                WriteStep::CheckContent => tx.check_content(self.read(&target)),
                WriteStep::DropTemp(_) => {
                    self.files.remove(&temp);
                    Ok(())
                }
            };
            taken += 1;
            match tx.next_turn(step, outcome) {
                WriteTurn::Next(next) => step = next,
                WriteTurn::Done(Err(error)) => return Err(error),
                WriteTurn::Done(Ok(())) => return Ok(tx.receipt()),
            }
        }
    }

    fn edit(&self, target: &str, edits: Vec<TextEdit>) -> Result<PreparedEdit, FsError> {
        worker().prepare_edit(
            &edit_authorization(target),
            &edits,
            &path(target),
            &self.seen(target),
            self.read(target),
        )
    }
}

fn edit(old: &str, new: &str, expected: usize) -> TextEdit {
    TextEdit {
        old_text: old.into(),
        new_text: new.into(),
        expected_occurrences: expected,
    }
}

fn info(target: &str, seen: &Resolution) -> Result<FileInfo, FsError> {
    worker().file_info(
        &read_authorization("filesystem.info", target),
        &path(target),
        seen,
        Ok(metadata(FileKind::File, 7)),
    )
}

#[test]
fn committed_write_is_verified_and_journaled() {
    let mut disk = disk(&[("/root/demo.txt", b"old")]);
    let auth = authorization("filesystem.write", "/root/demo.txt", Some(b"new"));
    let tx = worker()
        .write(
            PathStyle::Unix,
            &auth,
            b"new",
            &path("/root/demo.txt"),
            &disk.write_seen("/root/demo.txt"),
        )
        .unwrap();
    let receipt = disk.run(tx, b"new").unwrap();
    assert_eq!(disk.read("/root/demo.txt").unwrap(), b"new");
    assert_eq!(
        disk.read(&receipt.backup_path.unwrap().text).unwrap(),
        b"old"
    );
    assert!(disk
        .records
        .values()
        .all(|state| *state == JournalState::Committed));
}

#[test]
fn temporary_files_are_beside_the_target() {
    let disk = disk(&[("/root/inner/demo.txt", b"old"), ("/root/demo.txt", b"other")]);
    let target = "/root/inner/demo.txt";
    let auth = authorization("filesystem.write", target, Some(b"new"));
    let begin = |seen: &WriteObservation| {
        worker().write(PathStyle::Unix, &auth, b"new", &path(target), seen)
    };
    let tx = begin(&disk.write_seen(target)).unwrap();
    assert!(tx.temp.text.starts_with("/root/inner/"));
    assert_eq!(tx.temp.parts.len(), 4);
    for elsewhere in [None, Some(path("/root")), Some(path("/outside"))] {
        let mut seen = disk.write_seen(target);
        seen.existing.as_mut().unwrap().directory = elsewhere;
        assert!(matches!(begin(&seen), Err(FsError::UnsafePath)));
    }
    let fresh = "/root/inner/fresh.txt";
    let auth = authorization("filesystem.write", fresh, Some(b"new"));
    let tx = worker()
        .write(
            PathStyle::Unix,
            &auth,
            b"new",
            &path(fresh),
            &disk.write_seen(fresh),
        )
        .unwrap();
    assert!(tx.temp.text.starts_with("/root/inner/"));
}

#[test]
fn paths_are_in_their_directories() {
    let unix = |file: &str, directory: &str| {
        is_in(PathStyle::Unix, &path(file), &path(directory))
    };
    assert!(unix("/root/demo.txt", "/root"));
    assert!(unix("/demo.txt", "/"));
    assert!(!unix("/root/inner/demo.txt", "/root"));
    assert!(!unix("/root/demo.txt", "/other"));
    assert!(!unix("/root", "/root"));
    assert!(!unix("/", "/"));
    let drive = |text: &str, names: &[&str]| {
        let mut parts = vec![PathPart::Prefix(r"\\?\D:".into()), PathPart::RootDir];
        parts.extend(names.iter().map(|name| PathPart::Normal((*name).into())));
        PathText {
            text: text.into(),
            absolute: true,
            parts,
        }
    };
    let file = drive(r"\\?\D:\work\demo.txt", &["work", "demo.txt"]);
    assert!(is_in(
        PathStyle::Windows,
        &file,
        &drive(r"\\?\D:\work", &["work"])
    ));
    assert!(!is_in(PathStyle::Windows, &file, &drive(r"\\?\D:\", &[])));
    let top = drive(r"\\?\D:\demo.txt", &["demo.txt"]);
    assert!(is_in(PathStyle::Windows, &top, &drive(r"\\?\D:\", &[])));
}

#[test]
fn searches_end_when_their_time_is_over() {
    let disk = disk(&[("/root/demo.txt", b"needle")]);
    let auth = read_authorization("filesystem.search_files", ROOT);
    let file = path("/root/demo.txt");
    let (_, mut names) = worker()
        .search_files(&auth, &path(ROOT), &disk.seen(ROOT), "*", 10)
        .unwrap();
    let metadata = metadata(FileKind::File, 6);
    assert_eq!(names.visit(&file, &metadata, MAX_SEARCH_DURATION), Ok(true));
    assert_eq!(
        names.visit(&file, &metadata, MAX_SEARCH_DURATION + 1),
        Err(FsError::SearchTimeout)
    );
    let auth = read_authorization("filesystem.search_content", ROOT);
    let (_, mut texts) = worker()
        .search_content(&auth, &path(ROOT), &disk.seen(ROOT), "needle", false, "*", 10, 10)
        .unwrap();
    let limit = MAX_SEARCH_DURATION;
    assert_eq!(
        texts.visit(&file, &metadata, limit - 1, limit),
        Ok(SearchAction::Read)
    );
    assert_eq!(
        texts.visit(&file, &metadata, limit, limit),
        Err(FsError::SearchTimeout)
    );
}

#[test]
fn content_mismatch_does_not_create_target() {
    let disk = disk(&[("/root/other.txt", b"")]);
    let auth = authorization("filesystem.write", "/root/demo.txt", Some(b"expected"));
    let result = worker().write(
        PathStyle::Unix,
        &auth,
        b"different",
        &path("/root/demo.txt"),
        &disk.write_seen("/root/demo.txt"),
    );
    assert!(matches!(result, Err(FsError::ContentDigestMismatch)));
    assert!(disk.read("/root/demo.txt").is_err());
    assert!(disk.records.is_empty());
}

#[test]
fn traversal_is_rejected() {
    let disk = disk(&[("/root/other.txt", b"")]);
    let target = "/root/sub/../escape.txt";
    let auth = authorization("filesystem.write", target, Some(b"x"));
    assert!(matches!(
        worker().write(
            PathStyle::Unix,
            &auth,
            b"x",
            &path(target),
            &disk.write_seen(target)
        ),
        Err(FsError::UnsafePath)
    ));
}

#[test]
fn read_requires_matching_auto_authorization() {
    let disk = disk(&[("/root/demo.txt", b"payload")]);
    let auth = authorization("filesystem.read", "/root/demo.txt", None);
    let seen = disk.seen("/root/demo.txt");
    let resolved = worker()
        .read(&auth, &path("/root/demo.txt"), &seen, Ok(7))
        .unwrap();
    assert_eq!(disk.read(&resolved.text).unwrap(), b"payload");
    let wrong = authorization("filesystem.write", "/root/demo.txt", None);
    assert!(matches!(
        worker().read(&wrong, &path("/root/demo.txt"), &seen, Ok(7)),
        Err(FsError::WrongAction)
    ));
}

#[test]
fn ranged_and_line_reads_preserve_default_read_behavior() {
    let disk = disk(&[("/root/demo.txt", b"alpha\nbeta\ngamma\n")]);
    let target = path("/root/demo.txt");
    let seen = disk.seen("/root/demo.txt");
    let auth = read_authorization("filesystem.read", "/root/demo.txt");
    let resolved = worker().read(&auth, &target, &seen, Ok(17)).unwrap();
    assert_eq!(disk.read(&resolved.text).unwrap(), b"alpha\nbeta\ngamma\n");
    let ranged = worker().read_range(&auth, &target, &seen, 4, 64).unwrap();
    assert_eq!(&disk.read(&ranged.text).unwrap()[6..10], b"beta");
    assert_eq!(
        worker()
            .read_lines(&auth, &target, &seen, disk.read("/root/demo.txt"), 2, 1, 64)
            .unwrap(),
        b"beta\n"
    );
}

#[test]
fn list_info_and_searches_are_bounded_and_skip_binary_files() {
    let disk = disk(&[
        ("/root/nested/one.rs", b"first\nneedle here\n"),
        ("/root/nested/two.rs", b"needle again\n"),
        ("/root/nested/binary.rs", b"needle\0hidden"),
    ]);
    assert_eq!(disk.list(2, 2).unwrap().len(), 2);
    assert_eq!(disk.search_files("**/*.rs", 1).unwrap().len(), 1);
    let matches = disk
        .search_content("needle", false, "**/*.rs", 10, 1024, MAX_SEARCH_DURATION)
        .unwrap();
    assert_eq!(matches.matches.len(), 2);
    assert!(matches
        .matches
        .iter()
        .all(|item| !item.file.ends_with("binary.rs")));
    assert_eq!(matches.skipped_binary_files, 1);
    let info = info("/root/nested/one.rs", &disk.seen("/root/nested/one.rs")).unwrap();
    assert_eq!(info.entry_type, "file");
    assert!(info.size > 0);
}

#[test]
fn every_read_only_tool_rejects_outside_roots_and_parent_traversal() {
    let outside = found("/outside", FileKind::Directory);
    let worker = worker();
    let listing = |target: &str, seen: &Resolution| {
        worker
            .list_directory(
                &read_authorization("filesystem.list", target),
                &path(target),
                seen,
                Ok(true),
                1,
                10,
            )
            .map(|_| ())
    };
    let files = |target: &str, seen: &Resolution| {
        worker
            .search_files(
                &read_authorization("filesystem.search_files", target),
                &path(target),
                seen,
                "**",
                10,
            )
            .map(|_| ())
    };
    let content = |target: &str, seen: &Resolution| {
        worker
            .search_content(
                &read_authorization("filesystem.search_content", target),
                &path(target),
                seen,
                "x",
                false,
                "**",
                10,
                10,
            )
            .map(|_| ())
    };
    assert_eq!(
        listing("/outside", &outside),
        Err(FsError::OutsideAllowedRoots)
    );
    assert_eq!(
        files("/outside", &outside),
        Err(FsError::OutsideAllowedRoots)
    );
    assert_eq!(
        content("/outside", &outside),
        Err(FsError::OutsideAllowedRoots)
    );
    assert_eq!(
        info(
            "/outside/secret.txt",
            &found("/outside/secret.txt", FileKind::File)
        )
        .map(|_| ()),
        Err(FsError::OutsideAllowedRoots)
    );
    let traversal = "/root/child/../secret.txt";
    let seen = found("/root/secret.txt", FileKind::File);
    assert_eq!(listing(traversal, &seen), Err(FsError::UnsafePath));
    assert_eq!(files(traversal, &seen), Err(FsError::UnsafePath));
    assert_eq!(content(traversal, &seen), Err(FsError::UnsafePath));
    assert_eq!(
        info(traversal, &seen).map(|_| ()),
        Err(FsError::UnsafePath)
    );
    assert_eq!(
        worker
            .read(
                &read_authorization("filesystem.read", traversal),
                &path(traversal),
                &seen,
                Ok(6)
            )
            .map(|_| ()),
        Err(FsError::UnsafePath)
    );
}

#[test]
fn content_lines_are_truncated_and_hard_limits_are_rejected() {
    let text = format!("needle{}", "x".repeat(MAX_LINE_TEXT_BYTES + 50));
    let disk = disk(&[("/root/large.txt", text.as_bytes())]);
    let matches = disk
        .search_content("needle", false, "**", 1, MAX_SEARCH_FILE_BYTES, MAX_SEARCH_DURATION)
        .unwrap();
    assert_eq!(matches.matches.len(), 1);
    assert!(matches.matches[0].truncated);
    assert_eq!(matches.matches[0].line_text.len(), MAX_LINE_TEXT_BYTES);
    assert!(matches!(
        disk.search_content("x", false, "**", MAX_CONTENT_MATCHES + 1, 1, MAX_SEARCH_DURATION),
        Err(FsError::InvalidParameters)
    ));
    assert!(matches!(
        disk.search_content("x", false, "**", 1, 1, 0),
        Err(FsError::SearchTimeout)
    ));
}

#[test]
fn content_search_decodes_common_windows_text_encodings() {
    let utf16 = |little: bool| -> Vec<u8> {
        "\u{e1} canci\u{f3}n"
            .encode_utf16()
            .flat_map(|unit| {
                if little {
                    unit.to_le_bytes()
                } else {
                    unit.to_be_bytes()
                }
            })
            .collect()
    };
    let little = [vec![0xff, 0xfe], utf16(true)].concat();
    let big = [vec![0xfe, 0xff], utf16(false)].concat();
    let plain = "\u{e1} canci\u{f3}n".as_bytes().to_vec();
    let marked = [vec![0xef, 0xbb, 0xbf], plain.clone()].concat();
    let legacy = vec![0xe1, b' ', b'c', b'a', b'n', b'c', b'i', 0xf3, b'n'];
    let disk = disk(&[
        ("/root/windows-1252.txt", &legacy),
        ("/root/utf-16le.txt", &little),
        ("/root/utf-16be.txt", &big),
        ("/root/utf-8-bom.txt", &marked),
        ("/root/utf-8.txt", &plain),
    ]);
    let result = disk
        .search_content("canci\u{f3}n", false, "**/*.txt", 10, 1024, MAX_SEARCH_DURATION)
        .unwrap();
    assert_eq!(result.matches.len(), 5);
    let encodings: BTreeSet<&str> = result
        .matches
        .iter()
        .map(|item| item.encoding.as_str())
        .collect();
    assert_eq!(
        encodings,
        ["utf-16be", "utf-16le", "utf-8", "utf-8-bom", "windows-1252"]
            .into_iter()
            .collect()
    );
    // The accented letter and the space are three bytes in UTF-8, so the column
    // is 4 whatever the encoding of the file.
    assert!(result.matches.iter().all(|item| item.column == 4));
}

#[test]
fn content_search_reports_binary_and_size_limit_omissions() {
    let disk = disk(&[
        ("/root/binary.png", b"\x89PNG\r\n\x1a\n"),
        ("/root/too-large.txt", "canci\u{f3}n and more".as_bytes()),
        ("/root/match.txt", "canci\u{f3}n".as_bytes()),
    ]);
    let result = disk
        .search_content("canci\u{f3}n", false, "**", 10, 10, MAX_SEARCH_DURATION)
        .unwrap();
    assert_eq!(result.matches.len(), 1);
    assert_eq!(result.skipped_binary_files, 1);
    assert_eq!(result.skipped_size_limit_files, 1);
}

#[test]
fn directory_junction_escape_is_neither_listed_nor_traversed() {
    let mut disk = disk(&[("/root/plain.txt", b"nothing")]);
    disk.links.insert("/root/escape".into());
    let listed = disk.list(3, 10).unwrap();
    assert_eq!(listed.len(), 1);
    assert!(listed.iter().all(|entry| entry.name != "escape"));
    let matches = disk
        .search_content("needle", false, "**", 10, 1024, MAX_SEARCH_DURATION)
        .unwrap();
    assert!(matches.matches.is_empty());
}

#[test]
fn approval_is_not_execution_authority() {
    let disk = disk(&[("/root/other.txt", b"")]);
    let mut auth = authorization("filesystem.write", "/root/demo.txt", Some(b"x"));
    auth.decision.kind = PolicyDecisionKind::Approval;
    assert!(matches!(
        worker().write(
            PathStyle::Unix,
            &auth,
            b"x",
            &path("/root/demo.txt"),
            &disk.write_seen("/root/demo.txt")
        ),
        Err(FsError::ApprovalRequired)
    ));
    assert!(disk.read("/root/demo.txt").is_err());
}

#[test]
fn prepare_edit_applies_single_and_ordered_multiple_replacements() {
    let disk = disk(&[("/root/demo.txt", b"alpha beta\nbeta gamma\n")]);
    let single = disk
        .edit("/root/demo.txt", vec![edit("gamma", "omega", 1)])
        .unwrap();
    assert_eq!(single.content, b"alpha beta\nbeta omega\n");
    let prepared = disk
        .edit(
            "/root/demo.txt",
            vec![edit("alpha", "beta", 1), edit("beta", "delta", 3)],
        )
        .unwrap();
    assert_eq!(prepared.content, b"delta delta\ndelta gamma\n");
    assert!(prepared.diff_summary.contains("-alpha beta"));
    assert!(prepared.diff_summary.contains("+delta delta"));
    assert_eq!(
        prepared.original_sha256,
        sha256(b"alpha beta\nbeta gamma\n")
    );
    assert_eq!(
        disk.read("/root/demo.txt").unwrap(),
        b"alpha beta\nbeta gamma\n"
    );
}

#[test]
fn prepare_edit_rejects_absent_and_duplicate_text_with_real_counts() {
    let disk = disk(&[("/root/demo.txt", b"same\nsame\nclose\n")]);
    assert!(matches!(
        disk.edit("/root/demo.txt", vec![edit("same", "new", 1)]),
        Err(FsError::OccurrenceMismatch { actual: 2, .. })
    ));
    assert!(matches!(
        disk.edit("/root/demo.txt", vec![edit("cloze", "new", 1)]),
        Err(FsError::OccurrenceMismatch {
            actual: 0,
            closest_line: Some(_),
            ..
        })
    ));
}

#[test]
fn prepare_edit_preserves_crlf_and_windows_1252() {
    let disk = disk(&[("/root/legacy.txt", b"caf\xe9\r\nold line\r\n")]);
    let prepared = disk
        .edit(
            "/root/legacy.txt",
            vec![edit("old line\n", "new caf\u{e9}\n", 1)],
        )
        .unwrap();
    assert_eq!(prepared.content, b"caf\xe9\r\nnew caf\xe9\r\n");
}

#[test]
fn prepare_edit_rejects_paths_outside_allowed_root() {
    let disk = disk(&[("/outside/secret.txt", b"secret")]);
    assert!(matches!(
        disk.edit("/outside/secret.txt", vec![edit("secret", "x", 1)]),
        Err(FsError::OutsideAllowedRoots)
    ));
}

#[test]
fn prepare_edit_rejects_junction_escape() {
    let link = Resolution {
        reparse: Ok(Some("/root/escape".into())),
        canonical: Ok(Canonical {
            path: path("/outside/secret.txt"),
            kind: FileKind::File,
        }),
    };
    let result = worker().prepare_edit(
        &edit_authorization("/root/escape/secret.txt"),
        &vec![edit("secret", "x", 1)],
        &path("/root/escape/secret.txt"),
        &link,
        Ok(b"secret".to_vec()),
    );
    assert!(matches!(result, Err(FsError::ReparsePoint(_))));
}

// Reads and listings

#[test]
fn workers_need_roots() {
    let journal = || JournalObservation {
        created: Ok(()),
        reparse: Ok(None),
        canonical: Ok(path("/root/journal")),
    };
    assert!(matches!(
        FsWorker::new(&vec![], journal()),
        Err(FsError::NoAllowedRoots)
    ));
    assert!(matches!(
        FsWorker::new(
            &vec![RootObservation {
                path: path("relative"),
                seen: found("/relative", FileKind::Directory)
            }],
            journal()
        ),
        Err(FsError::UnsafePath)
    ));
}

#[test]
fn large_files_are_not_read() {
    let auth = read_authorization("filesystem.read", "/root/demo.txt");
    let seen = found("/root/demo.txt", FileKind::File);
    assert!(matches!(
        worker().read_limited(&auth, &path("/root/demo.txt"), &seen, Ok(65), 64),
        Err(FsError::ReadLimitExceeded {
            len: 65,
            max_bytes: 64
        })
    ));
    assert!(matches!(
        worker().read_range(&auth, &path("/root/demo.txt"), &seen, 65, 64),
        Err(FsError::ReadLimitExceeded {
            len: 65,
            max_bytes: 64
        })
    ));
}

#[test]
fn lines_are_counted_from_one() {
    let bytes = b"a\nb\nc".to_vec();
    assert_eq!(select_lines(&bytes, 1, 1, 64).unwrap(), b"a\n");
    assert_eq!(select_lines(&bytes, 2, 9, 64).unwrap(), b"b\nc");
    assert_eq!(select_lines(&bytes, 9, 1, 64).unwrap(), b"");
    assert!(matches!(
        select_lines(&bytes, 1, 3, 3),
        Err(FsError::ReadLimitExceeded { .. })
    ));
}

#[test]
fn listings_are_bounded_in_depth() {
    let seen = found(ROOT, FileKind::Directory);
    assert!(matches!(
        worker().list_directory(
            &read_authorization("filesystem.list", ROOT),
            &path(ROOT),
            &seen,
            Ok(true),
            MAX_LIST_DEPTH + 1,
            1
        ),
        Err(FsError::InvalidParameters)
    ));
    let disk = disk(&[("/root/a/b/c.txt", b"1"), ("/root/z.txt", b"22")]);
    let names: Vec<String> = disk
        .list(2, 10)
        .unwrap()
        .into_iter()
        .map(|entry| format!("{} {} {}", entry.name, entry.entry_type, entry.size))
        .collect();
    assert_eq!(names, vec!["a directory 0", "z.txt file 2", "b directory 0"]);
}

// Searching

#[test]
fn globs_become_patterns() {
    let matcher = regex::Regex::new(&glob_text("**/*.rs")).unwrap();
    assert!(matcher.is_match("nested/one.rs"));
    assert!(matcher.is_match("one.rs"));
    assert!(!matcher.is_match("one.rs.txt"));
    let single = regex::Regex::new(&glob_text("a?c*.t[t")).unwrap();
    assert!(single.is_match("abc-1.t[t"));
    assert!(!single.is_match("a/c.t[t"));
}

#[test]
fn patterns_are_searched_too() {
    let disk = disk(&[("/root/log.txt", b"id 17\nid xx\nid 4\n")]);
    let result = disk
        .search_content(r"id \d+", true, "**", 10, 1024, MAX_SEARCH_DURATION)
        .unwrap();
    let lines: Vec<usize> = result.matches.iter().map(|item| item.line).collect();
    assert_eq!(lines, vec![1, 3]);
    assert!(matches!(
        disk.search_content("(", true, "**", 10, 1024, MAX_SEARCH_DURATION),
        Err(FsError::InvalidPattern)
    ));
}

// Encodings

#[test]
fn texts_are_read_and_written_alike() {
    let bytes = [vec![0xef, 0xbb, 0xbf], b"caf\xc3\xa9".to_vec()].concat();
    let decoded = decode_search_text(&bytes).unwrap();
    assert_eq!(decoded.encoding, Encoding::Utf8Bom);
    assert_eq!(decoded.text, vec!['c', 'a', 'f', '\u{e9}']);
    assert_eq!(
        encode_edit_text(&decoded.text, Encoding::Utf8Bom).unwrap(),
        bytes
    );
    assert_eq!(
        encode_edit_text(&['\u{20ac}'], Encoding::Windows1252),
        Some(vec![0x80])
    );
    assert_eq!(encode_edit_text(&['\u{6f22}'], Encoding::Windows1252), None);
    assert_eq!(
        encode_edit_text(&['\u{1f600}'], Encoding::Utf16Le),
        Some(vec![0xff, 0xfe, 0x3d, 0xd8, 0x00, 0xde])
    );
    assert_eq!(Encoding::Windows1252.name(), "windows-1252");
}

/// What the bytes from 0x80 to 0x9f stand for in windows-1252.
const UPPER_CONTROLS: [u32; 32] = [
    0x20ac, 0x81, 0x201a, 0x192, 0x201e, 0x2026, 0x2020, 0x2021, 0x2c6, 0x2030, 0x160, 0x2039,
    0x152, 0x8d, 0x17d, 0x8f, 0x90, 0x2018, 0x2019, 0x201c, 0x201d, 0x2022, 0x2013, 0x2014, 0x2dc,
    0x2122, 0x161, 0x203a, 0x153, 0x9d, 0x17e, 0x178,
];

#[test]
fn windows_1252_is_read_and_written_by_its_table() {
    for byte in 0x80..=0xffu8 {
        let code = if byte < 0xa0 {
            UPPER_CONTROLS[usize::from(byte - 0x80)]
        } else {
            u32::from(byte)
        };
        let letter = char::from_u32(code).unwrap();
        let decoded = decode_search_text(&[b'a', byte, b'z']).unwrap();
        assert_eq!(decoded.encoding, Encoding::Windows1252);
        assert_eq!(decoded.text, vec!['a', letter, 'z']);
        assert_eq!(
            encode_edit_text(&decoded.text, Encoding::Windows1252),
            Some(vec![b'a', byte, b'z'])
        );
    }
    for letter in ['\u{80}', '\u{92}', '\u{9f}', '\u{100}', '\u{20ad}', '\u{1f600}'] {
        assert_eq!(encode_edit_text(&['a', letter], Encoding::Windows1252), None);
    }
}

#[test]
fn zero_bytes_look_binary() {
    assert!(looks_binary(b"a\0b"));
    assert!(!looks_binary(b"plain\r\n\ttext"));
}

// Edits

#[test]
fn edit_lists_are_bounded() {
    assert!(!edits_fit(&vec![]));
    assert!(!edits_fit(&vec![edit("", "x", 1)]));
    assert!(!edits_fit(&vec![edit("a", "x", 0)]));
    assert!(edits_fit(&vec![edit("a", "x", 1); MAX_EDITS]));
    assert!(!edits_fit(&vec![edit("a", "x", 1); MAX_EDITS + 1]));
}

#[test]
fn summaries_are_cut() {
    let before: Vec<char> = "a\n".repeat(20_000).chars().collect();
    let after: Vec<char> = "b\n".repeat(20_000).chars().collect();
    let (summary, truncated) = unified_diff_summary(&before, &after);
    assert!(truncated);
    assert!(summary.ends_with("\n... diff truncated ...\n"));
    assert!(summary.len() <= MAX_DIFF_SUMMARY_BYTES + 24);
    assert!(summary.starts_with("--- current\n+++ proposed\n@@ -1,20000 +1,20000 @@\n-a\n"));
}

#[test]
fn edits_are_applied_in_order() {
    let text: Vec<char> = "one two".chars().collect();
    let edited = apply_edits(&text, &vec![edit("one", "two", 1), edit("two", "3", 2)]).unwrap();
    assert_eq!(edited.into_iter().collect::<String>(), "3 3");
}

#[test]
fn unknown_encodings_are_not_edited() {
    let disk = disk(&[("/root/binary", b"a\0b")]);
    assert!(matches!(
        disk.edit("/root/binary", vec![edit("a", "b", 1)]),
        Err(FsError::UnsupportedEditEncoding)
    ));
    let legacy = self::disk(&[("/root/legacy", b"caf\xe9")]);
    assert!(matches!(
        legacy.edit("/root/legacy", vec![edit("caf", "\u{6f22}", 1)]),
        Err(FsError::UnrepresentableEditText)
    ));
}

// Passages

fn chars(text: &str) -> Vec<char> {
    text.chars().collect()
}

#[test]
fn passages_are_found_without_overlap() {
    assert_eq!(occurrences(&chars("aaaa"), &chars("aa")), vec![0, 2]);
    assert_eq!(
        replaced(&chars("a-b-c"), &chars("-"), &chars("+")),
        chars("a+b+c")
    );
    assert_eq!(
        lines(&chars("a\r\nb\n\nc")),
        vec![chars("a"), chars("b"), chars(""), chars("c")]
    );
}

#[test]
fn texts_are_cut_between_letters() {
    assert_eq!(truncate(&chars("a\u{e9}b"), 2), (chars("a"), true));
    assert_eq!(truncate(&chars("a\u{e9}b"), 4), (chars("a\u{e9}b"), false));
}

#[test]
fn distances_are_counted_in_edits() {
    assert_eq!(levenshtein(&chars("kitten"), &chars("sitting")), 3);
    assert_eq!(levenshtein(&chars(""), &chars("abc")), 3);
    assert_eq!(levenshtein(&chars("same"), &chars("same")), 0);
}

#[test]
fn the_closest_line_is_shown_with_its_number() {
    let shown = closest_line(&chars("same\nsame\nclose\n"), &chars("cloze"));
    assert!(shown.contains('3') && shown.contains("close"));
}

// Approved writes

fn write_request(content: &[u8], expected: Option<&str>) -> ActionRequest {
    let mut parameters = vec![Parameter {
        name: "content_sha256".into(),
        value: ParameterValue::Text(sha256(content)),
    }];
    if let Some(expected) = expected {
        parameters.push(Parameter {
            name: "expected_target_sha256".into(),
            value: ParameterValue::Text(expected.into()),
        });
    }
    ActionRequest {
        envelope: ActionEnvelope {
            request_id: "req-write".into(),
            organization_id: "org-1".into(),
            actor_id: "actor-1".into(),
            device_id: "device-1".into(),
            action: "filesystem.write".into(),
            target: r"D:\work\demo.txt".into(),
            parameters,
            requested_capabilities: vec![],
            expires_at_unix_ms: 10_000,
            nonce: vec![9; 16],
        },
        envelope_digest: [0xc5; 32],
    }
}

/// The target of the request, as the machine that it is for takes it apart.
fn request_target() -> PathText {
    PathText {
        text: r"D:\work\demo.txt".into(),
        absolute: true,
        parts: vec![
            PathPart::Prefix("D:".into()),
            PathPart::RootDir,
            PathPart::Normal("work".into()),
            PathPart::Normal("demo.txt".into()),
        ],
    }
}

#[test]
fn approved_writes_need_a_precondition() {
    let disk = disk(&[("/root/demo.txt", b"old")]);
    let seen = disk.write_seen("/root/demo.txt");
    let write = |expected: Option<&str>| {
        worker().write_approved(
            PathStyle::Unix,
            &approved(&|| write_request(b"new", expected)),
            b"new",
            &request_target(),
            &seen,
        )
    };
    assert!(matches!(
        write(None),
        Err(FsError::MissingTargetPrecondition)
    ));
    assert!(matches!(
        write(Some("nonsense")),
        Err(FsError::InvalidTargetPrecondition)
    ));
    assert!(matches!(
        write(Some(&sha256(b"other"))),
        Err(FsError::TargetPreconditionFailed)
    ));
    assert!(matches!(
        write(Some("absent")),
        Err(FsError::TargetPreconditionFailed)
    ));
    let tx = write(Some(&sha256(b"old"))).unwrap();
    assert_eq!(tx.record.state, JournalState::Prepared);
    assert_eq!(tx.record.transaction_id, "c5".repeat(32));
    assert!(tx.temp.text.starts_with("/root/.vor-"));
    assert_eq!(
        tx.journal.text,
        format!("/root/journal/{}.json", "c5".repeat(32))
    );
}

#[test]
fn targets_that_change_are_not_overwritten() {
    let mut disk = disk(&[("/root/demo.txt", b"old")]);
    let tx = worker()
        .write_approved(
            PathStyle::Unix,
            &approved(&|| write_request(b"new", Some(&sha256(b"old")))),
            b"new",
            &request_target(),
            &disk.write_seen("/root/demo.txt"),
        )
        .unwrap();
    let temp = tx.temp.text.clone();
    disk.files
        .insert("/root/demo.txt".into(), b"meanwhile".to_vec());
    assert!(matches!(
        disk.run(tx, b"new"),
        Err(FsError::TargetPreconditionFailed)
    ));
    assert_eq!(disk.read("/root/demo.txt").unwrap(), b"meanwhile");
    assert!(disk.read(&temp).is_err());
}

#[test]
fn preconditions_are_checked() {
    assert_eq!(
        verify_target_precondition(&TargetState::Absent, &TargetPrecondition::Absent),
        Ok(())
    );
    assert_eq!(
        verify_target_precondition(
            &TargetState::Bytes(b"x".to_vec()),
            &TargetPrecondition::Sha256(sha256(b"x"))
        ),
        Ok(())
    );
    assert!(verify_target_precondition(
        &TargetState::Bytes(b"x".to_vec()),
        &TargetPrecondition::Absent
    )
    .is_err());
}

#[test]
fn unfinished_transactions_are_pending() {
    let record = |id: &str, state: JournalState| JournalRecord {
        transaction_id: id.into(),
        request_id: "req".into(),
        target: "/root/demo.txt".into(),
        temp_path: "/root/.vor.tmp".into(),
        backup_path: None,
        content_sha256: sha256(b""),
        state,
    };
    let pending = worker().pending_transactions(vec![
        record("a", JournalState::Prepared),
        record("b", JournalState::Committed),
        record("c", JournalState::Replaced),
    ]);
    let ids: Vec<&str> = pending
        .iter()
        .map(|record| record.transaction_id.as_str())
        .collect();
    assert_eq!(ids, vec!["a", "c"]);
}

#[test]
fn only_the_authorized_target_is_touched() {
    let disk = disk(&[("/root/a.txt", b"a"), ("/root/b.txt", b"b"), ("/root/d/c.txt", b"c")]);
    let worker = worker();
    let other = path("/root/b.txt");
    let seen = disk.seen("/root/b.txt");
    let read = read_authorization("filesystem.read", "/root/a.txt");
    let refused = |error: FsError| assert!(matches!(error, FsError::AuthorizationMismatch));
    refused(worker.read(&read, &other, &seen, Ok(1)).unwrap_err());
    refused(worker.read_limited(&read, &other, &seen, Ok(1), 9).unwrap_err());
    refused(worker.read_range(&read, &other, &seen, 1, 9).unwrap_err());
    refused(
        worker
            .read_lines(&read, &other, &seen, Ok(b"b".to_vec()), 1, 1, 9)
            .unwrap_err(),
    );
    let info = read_authorization("filesystem.info", "/root/a.txt");
    refused(
        worker
            .file_info(&info, &other, &seen, Ok(metadata(FileKind::File, 1)))
            .unwrap_err(),
    );
    refused(
        worker
            .prepare_edit(
                &edit_authorization("/root/a.txt"),
                &vec![],
                &other,
                &seen,
                Ok(b"b".to_vec()),
            )
            .unwrap_err(),
    );
    let directory = path("/root/d");
    let inside = disk.seen("/root/d");
    for (action, searched) in [
        ("filesystem.list", "/root"),
        ("filesystem.search_files", "/root"),
        ("filesystem.search_content", "/root"),
    ] {
        let authorization = read_authorization(action, searched);
        let error = match action {
            "filesystem.list" => worker
                .list_directory(&authorization, &directory, &inside, Ok(true), 1, 1)
                .unwrap_err(),
            "filesystem.search_files" => worker
                .search_files(&authorization, &directory, &inside, "*", 1)
                .map(|_| ())
                .unwrap_err(),
            _ => worker
                .search_content(&authorization, &directory, &inside, "c", false, "*", 1, 9)
                .map(|_| ())
                .unwrap_err(),
        };
        refused(error);
    }
    let write = authorization("filesystem.write", "/root/a.txt", Some(b"new"));
    refused(
        worker
            .write(
                PathStyle::Unix,
                &write,
                b"new",
                &other,
                &disk.write_seen("/root/b.txt"),
            )
            .unwrap_err(),
    );
    let make = || ActionRequest {
        envelope: ActionEnvelope {
            request_id: "req-other".into(),
            organization_id: "org-1".into(),
            actor_id: "actor-1".into(),
            device_id: "device-1".into(),
            action: "filesystem.write".into(),
            target: r"D:\work\a.txt".into(),
            parameters: vec![],
            requested_capabilities: vec![],
            expires_at_unix_ms: u64::MAX,
            nonce: vec![9; 16],
        },
        envelope_digest: [7; 32],
    };
    refused(
        worker
            .write_approved(
                PathStyle::Unix,
                &approved(&make),
                b"new",
                &other,
                &disk.write_seen("/root/b.txt"),
            )
            .unwrap_err(),
    );
}

#[test]
fn new_files_get_the_name_that_the_target_ends_with() {
    let disk = disk(&[("/root/d/c.txt", b"c")]);
    let write = authorization("filesystem.write", "/root/d/new.txt", Some(b"new"));
    let transaction = worker()
        .write(
            PathStyle::Unix,
            &write,
            b"new",
            &path("/root/d/new.txt"),
            &disk.write_seen("/root/d/new.txt"),
        )
        .unwrap();
    assert_eq!(transaction.target.text, "/root/d/new.txt");
    assert!(transaction.backup.is_none());
}

#[test]
fn finished_writes_leave_no_temporary_file_and_are_not_pending() {
    let mut disk = disk(&[("/root/a.txt", b"old")]);
    let write = authorization("filesystem.write", "/root/a.txt", Some(b"new"));
    let transaction = worker()
        .write(
            PathStyle::Unix,
            &write,
            b"new",
            &path("/root/a.txt"),
            &disk.write_seen("/root/a.txt"),
        )
        .unwrap();
    let temp = transaction.temp.text.clone();
    let backup = transaction.backup.as_ref().unwrap().text.clone();
    let id = transaction.record.transaction_id.clone();
    disk.run(transaction, b"new").unwrap();
    assert_eq!(disk.read("/root/a.txt").unwrap(), b"new");
    assert_eq!(disk.read(&backup).unwrap(), b"old");
    assert!(disk.read(&temp).is_err());
    assert_eq!(disk.records[&id], JournalState::Committed);
}

#[test]
fn failed_writes_leave_the_target_or_a_way_back() {
    let target = "/root/demo.txt";
    let mut failures = 0;
    loop {
        let mut disk = disk(&[(target, b"old")]);
        let auth = authorization("filesystem.write", target, Some(b"new"));
        let tx = worker()
            .write(
                PathStyle::Unix,
                &auth,
                b"new",
                &path(target),
                &disk.write_seen(target),
            )
            .unwrap();
        let id = tx.record.transaction_id.clone();
        let backup = tx.backup.as_ref().unwrap().text.clone();
        let temp = tx.temp.text.clone();
        match disk.run_failing(tx, b"new", Some(failures)) {
            Err(error) => {
                assert_eq!(error, FsError::Io(GONE));
                if disk.read(target).unwrap() != b"old" {
                    assert_eq!(disk.read(&backup).unwrap(), b"old");
                    assert!(disk.records.contains_key(&id));
                }
            }
            Ok(_) => {
                assert_eq!(disk.read(target).unwrap(), b"new");
                assert_eq!(disk.read(&backup).unwrap(), b"old");
                assert!(disk.read(&temp).is_err());
                assert_eq!(disk.records[&id], JournalState::Committed);
                break;
            }
        }
        failures += 1;
    }
    assert_eq!(failures, 7);
}

#[test]
fn entries_are_taken_in_the_order_of_their_bytes() {
    let names: Vec<Vec<u8>> = vec![
        b"b".to_vec(),
        vec![0xff],
        b"".to_vec(),
        b"ab".to_vec(),
        b"a".to_vec(),
        vec![0xc3, 0xa9],
    ];
    assert_eq!(walk_order(&names), vec![2, 4, 3, 0, 5, 1]);
    assert!(walk_order(&vec![]).is_empty());
}

#[test]
fn blank_lines_of_a_journal_say_nothing() {
    assert_eq!(
        journal_lines("{\"a\":1}\r\n\n  \t\n{\"b\":2}"),
        vec!["{\"a\":1}".to_string(), "{\"b\":2}".to_string()]
    );
    assert!(journal_lines("").is_empty());
}

#[test]
fn distances_are_those_of_a_metric() {
    let words = ["", "a", "b", "ab", "kitten", "sitting", "\u{e9}t\u{e9}", "ete"];
    for a in words {
        for b in words {
            let ab = levenshtein(&chars(a), &chars(b));
            let (n, m) = (a.chars().count() as u128, b.chars().count() as u128);
            assert_eq!(ab == 0, a == b);
            assert_eq!(ab, levenshtein(&chars(b), &chars(a)));
            assert!(n.abs_diff(m) <= ab && ab <= n.max(m));
            for c in words {
                assert!(
                    levenshtein(&chars(a), &chars(c)) <= ab + levenshtein(&chars(b), &chars(c))
                );
            }
        }
    }
    assert_eq!(levenshtein(&chars("\u{e9}t\u{e9}"), &chars("ete")), 2);
}

#[test]
fn written_texts_are_read_back_in_their_encoding() {
    let written = chars("caf\u{e9} \u{1f600}\r\nline\n");
    for encoding in [
        Encoding::Utf8,
        Encoding::Utf8Bom,
        Encoding::Utf16Le,
        Encoding::Utf16Be,
    ] {
        let bytes = encode_edit_text(&written, encoding).unwrap();
        let read = decode_search_text(&bytes).unwrap();
        assert_eq!(read.text, written);
        assert_eq!(read.encoding, encoding);
    }
}
