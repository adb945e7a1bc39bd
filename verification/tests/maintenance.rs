use std::collections::BTreeMap;
use vor_commander::inspection::{
    content_status, inspect_plan, result_content, FoundFile, FoundJournal, FoundResult,
    InspectionObservation, ResultContent,
};
use vor_commander::maintenance::{
    backup_path, journal_path, plan_size_fits, sha256_file, side_file_name, temp_path,
    validate_plan, validate_plan_shape, validate_recovery_plan, verify_file_sha256,
    verify_plan_file_sha256, Anchor, JournalEntry, JournalState, MaintenanceError,
    MaintenanceInspection, MaintenanceObservedState, PlanObservation, RecoveryObservation,
    RestartSpec, UpdatePlan, MAX_HEALTH_WAIT_MS, MAX_PLAN_BYTES, MAX_RESTART_ARGS,
    UPDATE_PLAN_SCHEMA,
};
use vor_commander::paths::{
    file_name, goes_up, join_name, relative_part, same_path, within, within_folded, Canonical,
    FileKind, IoFault, PathPart, PathStyle, PathText,
};
use vor_commander::swap::{
    finish_recovery, journal_entry, next_rollback_turn, recover_previous, MaintenanceTransaction, RollbackStep, RollbackTurn,
    SwapStep, SwapTurn,
};
use vor_commander::table::Table;

fn path(text: &str) -> PathText {
    let path = std::path::Path::new(text);
    PathText {
        text: text.into(),
        absolute: path.is_absolute(),
        parts: path
            .components()
            .map(|part| match part {
                std::path::Component::Prefix(_) => PathPart::Prefix(String::new()),
                std::path::Component::RootDir => PathPart::RootDir,
                std::path::Component::CurDir => PathPart::CurDir,
                std::path::Component::ParentDir => PathPart::ParentDir,
                std::path::Component::Normal(name) => {
                    PathPart::Normal(name.to_string_lossy().into_owned())
                }
            })
            .collect(),
    }
}

const ROOT: &str = "/root";
const TARGET: &str = "/root/vor-agent.exe";
const STAGED: &str = "/root/staged.exe";
const GONE: IoFault = IoFault { number: 2 };

fn plan(staged: &str, request_id: &str) -> UpdatePlan {
    UpdatePlan {
        schema: UPDATE_PLAN_SCHEMA,
        request_id: request_id.into(),
        allowed_root: path(ROOT),
        target_executable: path(TARGET),
        staged_executable: path(staged),
        expected_current_sha256: sha256_file(b"old-agent"),
        expected_staged_sha256: sha256_file(b"new-agent"),
        journal_directory: path("/root/state/maintenance/journal"),
        result_file: path("/root/state/maintenance/result.json"),
        current_pid: 123,
        restart: RestartSpec {
            args: vec!["private-run".into(), "--device".into(), "device-1".into()],
            environment: Table::new(),
            working_directory: path(ROOT),
            stdout_log: path("/root/state/maintenance/agent.out.log"),
            stderr_log: path("/root/state/maintenance/agent.err.log"),
            health_wait_ms: 1_000,
        },
    }
}

/// A disk in memory, with the journals of the updates on it.
struct Disk {
    files: BTreeMap<String, Vec<u8>>,
    journals: BTreeMap<String, Vec<JournalState>>,
    journal_names: BTreeMap<String, String>,
    result: Option<String>,
}

fn disk() -> Disk {
    Disk {
        files: BTreeMap::from([
            (TARGET.to_string(), b"old-agent".to_vec()),
            (STAGED.to_string(), b"new-agent".to_vec()),
        ]),
        journals: BTreeMap::new(),
        journal_names: BTreeMap::new(),
        result: None,
    }
}

fn anchor() -> Anchor {
    Anchor {
        nearest: Ok(Some(path(ROOT))),
    }
}

fn root_directory() -> Result<Canonical, IoFault> {
    Ok(Canonical {
        path: path(ROOT),
        kind: FileKind::Directory,
    })
}

impl Disk {
    fn read(&self, name: &str) -> Result<Vec<u8>, IoFault> {
        self.files.get(name).cloned().ok_or(GONE)
    }

    fn canonical(&self, name: &str) -> Result<Canonical, IoFault> {
        self.files.get(name).map_or(Err(GONE), |_| {
            Ok(Canonical {
                path: path(name),
                kind: FileKind::File,
            })
        })
    }

    fn rename(&mut self, from: &str, to: &str) -> Result<(), MaintenanceError> {
        match self.files.remove(from) {
            None => Err(MaintenanceError::Io(GONE)),
            Some(bytes) => {
                self.files.insert(to.into(), bytes);
                Ok(())
            }
        }
    }

    fn check(&self, name: &str, digest: &str) -> Result<(), MaintenanceError> {
        match self.read(name) {
            Err(fault) => Err(MaintenanceError::Io(fault)),
            Ok(bytes) => verify_file_sha256(&bytes, digest),
        }
    }

    fn note(&mut self, entry: &JournalEntry) {
        self.journals
            .entry(entry.request_id.clone())
            .or_default()
            .push(entry.state);
        self.journal_names
            .insert(entry.request_id.clone(), entry.request_id.clone());
    }

    fn plan_seen(&self, plan: &UpdatePlan) -> PlanObservation {
        PlanObservation {
            root: root_directory(),
            target: self.canonical(TARGET),
            target_name: Some("vor-agent.exe".into()),
            target_parent: Some(path(ROOT)),
            staged: self.canonical(&plan.staged_executable.text),
            target_bytes: self.read(TARGET),
            staged_bytes: self.read(&plan.staged_executable.text),
            working_directory: root_directory(),
            journal_directory: anchor(),
            result_file: anchor(),
            stdout_log: anchor(),
            stderr_log: anchor(),
            backup: anchor(),
            temp: anchor(),
            journal: anchor(),
        }
    }

    fn begin(&mut self, plan: UpdatePlan) -> Result<MaintenanceTransaction, MaintenanceError> {
        let seen = self.plan_seen(&plan);
        let exists = self.journals.contains_key(&plan.request_id);
        let tx = MaintenanceTransaction::begin(PathStyle::Unix, plan, &seen, exists)?;
        self.note(&journal_entry(tx.update(), JournalState::Validated));
        Ok(tx)
    }

    fn roll_back(
        &mut self,
        tx: &MaintenanceTransaction,
        first: RollbackStep,
    ) -> Result<(), MaintenanceError> {
        let backup = tx.update().backup.text.clone();
        let temp = tx.update().temp.text.clone();
        let current = tx.update().plan.expected_current_sha256.clone();
        let mut step = first;
        loop {
            let outcome = match step {
                RollbackStep::CheckBackup => self
                    .files
                    .get(&backup)
                    .map(|_| ())
                    .ok_or(MaintenanceError::BackupMissing),
                RollbackStep::RemoveTarget => {
                    self.files.remove(TARGET);
                    Ok(())
                }
                RollbackStep::MoveBackup => self.rename(&backup, TARGET),
                RollbackStep::DropTemp => {
                    self.files.remove(&temp);
                    Ok(())
                }
                RollbackStep::CheckRestored => self.check(TARGET, &current),
            };
            match next_rollback_turn(step, outcome) {
                RollbackTurn::Next(next) => step = next,
                RollbackTurn::Done(result) => return result,
            }
        }
    }

    fn swap(&mut self, tx: &mut MaintenanceTransaction) -> Result<(), MaintenanceError> {
        let backup = tx.update().backup.text.clone();
        let temp = tx.update().temp.text.clone();
        let current = tx.update().plan.expected_current_sha256.clone();
        let wanted = tx.update().plan.expected_staged_sha256.clone();
        let mut step = tx.swap()?;
        loop {
            let outcome = match &step {
                SwapStep::CheckTarget => self.check(TARGET, &current),
                SwapStep::CheckStaged => self.check(STAGED, &wanted),
                SwapStep::CheckFree => {
                    if self.files.contains_key(&backup) || self.files.contains_key(&temp) {
                        Err(MaintenanceError::StagingCollision)
                    } else {
                        Ok(())
                    }
                }
                SwapStep::CopyStaged => {
                    let bytes = self.read(STAGED).unwrap();
                    self.files.insert(temp.clone(), bytes);
                    Ok(())
                }
                SwapStep::CheckTemp => self.check(&temp, &wanted),
                SwapStep::MoveTarget => self.rename(TARGET, &backup),
                SwapStep::MoveTemp => self.rename(&temp, TARGET),
                SwapStep::CheckSwapped => self.check(TARGET, &wanted),
                SwapStep::NoteSwap => {
                    self.note(&journal_entry(tx.update(), JournalState::Swapped));
                    Ok(())
                }
                SwapStep::RestoreTarget(_) => self.rename(&backup, TARGET),
                SwapStep::DropTemp(_) => {
                    self.files.remove(&temp);
                    Ok(())
                }
                SwapStep::RollBack(_) => self.roll_back(tx, RollbackStep::CheckBackup),
                SwapStep::NoteRollback(_) => {
                    self.note(&journal_entry(tx.update(), JournalState::RolledBack));
                    Ok(())
                }
            };
            match tx.next_swap_turn(step, outcome) {
                SwapTurn::Next(next) => step = next,
                SwapTurn::Done(result) => return result,
            }
        }
    }

    fn rollback(&mut self, tx: &mut MaintenanceTransaction) -> Result<(), MaintenanceError> {
        let first = tx.rollback()?;
        let restored = self.roll_back(tx, first);
        let entry = tx.finish_rollback(restored)?;
        self.note(&entry);
        Ok(())
    }

    fn recovery_seen(&self, plan: &UpdatePlan) -> RecoveryObservation {
        let backup = backup_path(
            PathStyle::Unix,
            &path(ROOT),
            "vor-agent.exe",
            &plan.request_id,
        );
        RecoveryObservation {
            root: root_directory(),
            target_parent: Some(Ok(path(ROOT))),
            target_name: Some("vor-agent.exe".into()),
            staged: self.canonical(STAGED),
            working_directory: root_directory(),
            journal_directory: anchor(),
            result_file: anchor(),
            stdout_log: anchor(),
            stderr_log: anchor(),
            backup_is_file: self.files.contains_key(&backup.text),
            backup_bytes: self.read(&backup.text),
            backup: Ok(backup),
            target: Some(self.canonical(TARGET)),
        }
    }

    fn found(&self, name: &str) -> Option<Result<FoundFile, IoFault>> {
        self.files.get(name).map(|bytes| {
            Ok(FoundFile {
                path: path(name),
                kind: FileKind::File,
                bytes: Ok(bytes.clone()),
            })
        })
    }

    fn inspect(&self, plan: UpdatePlan) -> Result<MaintenanceInspection, MaintenanceError> {
        let id = plan.request_id.clone();
        let backup = backup_path(PathStyle::Unix, &path(ROOT), "vor-agent.exe", &id);
        let temp = temp_path(PathStyle::Unix, &path(ROOT), "vor-agent.exe", &id);
        let lines = self.journals.get(&id).map(|states| {
            states
                .iter()
                .map(|state| {
                    Some(JournalEntry {
                        request_id: self.journal_names[&id].clone(),
                        state: *state,
                        target_executable: path(TARGET),
                        staged_executable: path(STAGED),
                        backup_executable: path(&backup.text),
                        temp_executable: path(&temp.text),
                        expected_current_sha256: sha256_file(b"old-agent"),
                        expected_staged_sha256: sha256_file(b"new-agent"),
                    })
                })
                .collect::<Vec<_>>()
        });
        let seen = InspectionObservation {
            root: root_directory(),
            target_parent: Some(Ok(path(ROOT))),
            target_name: Some("vor-agent.exe".into()),
            staged: Some(Ok(path(STAGED))),
            target_anchor: anchor(),
            staged_anchor: anchor(),
            journal_directory: anchor(),
            result_file: anchor(),
            stdout_log: anchor(),
            stderr_log: anchor(),
            working_directory: Ok(path(ROOT)),
            backup_anchor: anchor(),
            temp_anchor: anchor(),
            journal_anchor: anchor(),
            target_file: self.found(TARGET),
            staged_file: self.found(STAGED),
            backup_file: self.found(&backup.text),
            temp_file: self.found(&temp.text),
            journal_exists: lines.is_some(),
            journal: lines.map(|lines| {
                Ok(FoundJournal {
                    is_file: true,
                    len: 400 * lines.len() as u64,
                    lines: Ok(lines),
                })
            }),
            result: self.result.as_ref().map(|status| {
                Ok(FoundResult {
                    path: path("/root/state/maintenance/result.json"),
                    is_file: true,
                    len: 22,
                    bytes: Ok(format!("{{\"status\":\"{status}\"}}").into_bytes()),
                })
            }),
        };
        inspect_plan(PathStyle::Unix, plan, &seen)
    }
}

#[test]
fn swap_commit_preserves_verified_backup() {
    let mut disk = disk();
    let mut tx = disk.begin(plan(STAGED, "update-1")).unwrap();
    disk.swap(&mut tx).unwrap();
    assert_eq!(disk.read(TARGET).unwrap(), b"new-agent");
    assert_eq!(disk.read(&tx.update().backup.text).unwrap(), b"old-agent");
    let entry = tx.commit(disk.read(TARGET)).unwrap();
    disk.note(&entry);
    assert_eq!(tx.state(), JournalState::Committed);

    assert_eq!(
        disk.journals["update-1"],
        vec![
            JournalState::Validated,
            JournalState::Swapped,
            JournalState::Committed
        ]
    );
}

#[test]
fn rollback_restores_previous_binary() {
    let mut disk = disk();
    let mut tx = disk.begin(plan(STAGED, "update-2")).unwrap();
    disk.swap(&mut tx).unwrap();
    disk.rollback(&mut tx).unwrap();
    assert_eq!(disk.read(TARGET).unwrap(), b"old-agent");
    assert!(!disk.files.contains_key(&tx.update().backup.text));
    assert_eq!(tx.state(), JournalState::RolledBack);
}

#[test]
fn stale_current_digest_fails_before_swap() {
    let mut disk = disk();
    let mut update = plan(STAGED, "update-3");
    update.expected_current_sha256 = "00".repeat(32);

    assert!(matches!(
        disk.begin(update),
        Err(MaintenanceError::DigestMismatch { .. })
    ));
    assert_eq!(disk.read(TARGET).unwrap(), b"old-agent");
}

#[test]
fn staged_mutation_after_begin_is_detected() {
    let mut disk = disk();
    let mut tx = disk.begin(plan(STAGED, "update-4")).unwrap();
    disk.files.insert(STAGED.into(), b"tampered".to_vec());
    assert!(matches!(
        disk.swap(&mut tx),
        Err(MaintenanceError::DigestMismatch { .. })
    ));
    assert_eq!(disk.read(TARGET).unwrap(), b"old-agent");
}

#[test]
fn paths_outside_root_are_rejected() {
    let mut disk = disk();
    disk.files
        .insert("/outside/staged.exe".into(), b"new-agent".to_vec());
    assert!(matches!(
        disk.begin(plan("/outside/staged.exe", "update-5")),
        Err(MaintenanceError::OutsideAllowedRoot)
    ));
}

#[test]
fn recover_restores_backup_conservatively() {
    let mut disk = disk();
    let mut tx = disk.begin(plan(STAGED, "update-6")).unwrap();
    disk.swap(&mut tx).unwrap();

    let again = plan(STAGED, "update-6");
    let seen = disk.recovery_seen(&again);
    assert!(validate_recovery_plan(PathStyle::Unix, plan(STAGED, "update-6"), &seen).is_ok());
    let (recovered, first) = recover_previous(PathStyle::Unix, again, &seen).unwrap();
    assert_eq!(first, RollbackStep::RemoveTarget);
    assert_eq!(recovered.target.text, TARGET);
    let restored = disk.roll_back(&tx, first);
    let entry = finish_recovery(&recovered, restored).unwrap();
    assert_eq!(entry.state, JournalState::RolledBack);
    assert_eq!(disk.read(&recovered.target.text).unwrap(), b"old-agent");
    assert!(!disk.files.contains_key(&recovered.backup.text));
}

#[test]
fn recovery_rejects_mutated_backup_before_target_replacement() {
    let mut disk = disk();
    let mut tx = disk.begin(plan(STAGED, "update-7")).unwrap();
    disk.swap(&mut tx).unwrap();
    let backup = tx.update().backup.text.clone();
    disk.files.insert(backup, b"tampered-backup".to_vec());
    let before = disk.read(TARGET).unwrap();
    let again = plan(STAGED, "update-7");
    let seen = disk.recovery_seen(&again);
    assert!(matches!(
        validate_recovery_plan(PathStyle::Unix, plan(STAGED, "update-7"), &seen),
        Err(MaintenanceError::DigestMismatch { .. })
    ));
    assert!(matches!(
        recover_previous(PathStyle::Unix, again, &seen),
        Err(MaintenanceError::DigestMismatch { .. })
    ));
    assert_eq!(disk.read(TARGET).unwrap(), before);
}

#[test]
fn inspection_tracks_ready_validated_swapped_committed_and_rolled_back() {
    let mut disk = disk();
    let commit_plan = || plan(STAGED, "inspect-commit");
    let ready = disk.inspect(commit_plan()).unwrap();
    assert_eq!(ready.observed_state, MaintenanceObservedState::Ready);
    assert_eq!(ready.journal_state, None);
    assert!(ready.target_matches_current);
    assert!(ready.staged_matches_expected);

    let mut tx = disk.begin(commit_plan()).unwrap();
    let validated = disk.inspect(commit_plan()).unwrap();
    assert_eq!(
        validated.observed_state,
        MaintenanceObservedState::Validated
    );
    assert_eq!(validated.journal_state, Some(JournalState::Validated));

    disk.swap(&mut tx).unwrap();
    let swapped = disk.inspect(commit_plan()).unwrap();
    assert_eq!(swapped.observed_state, MaintenanceObservedState::Swapped);
    assert_eq!(swapped.journal_state, Some(JournalState::Swapped));
    assert!(swapped.target_matches_staged);
    assert!(swapped.backup_matches_current);

    let entry = tx.commit(disk.read(TARGET)).unwrap();
    disk.note(&entry);
    disk.result = Some("committed".into());
    let committed = disk.inspect(commit_plan()).unwrap();
    assert_eq!(
        committed.observed_state,
        MaintenanceObservedState::Committed
    );
    assert_eq!(committed.journal_state, Some(JournalState::Committed));
    assert_eq!(committed.result_status.as_deref(), Some("committed"));

    // The old bytes come back from the backup, so that a second update can be
    // rolled back.
    let backup = tx.update().backup.text.clone();
    disk.rename(&backup, TARGET).unwrap();
    disk.result = None;

    let rollback_plan = || plan(STAGED, "inspect-rollback");
    let mut rollback = disk.begin(rollback_plan()).unwrap();
    disk.swap(&mut rollback).unwrap();
    disk.rollback(&mut rollback).unwrap();
    let rolled_back = disk.inspect(rollback_plan()).unwrap();
    assert_eq!(
        rolled_back.observed_state,
        MaintenanceObservedState::RolledBack
    );
    assert_eq!(rolled_back.journal_state, Some(JournalState::RolledBack));
    assert!(rolled_back.target_matches_current);
    assert!(!rolled_back.backup_exists);
}

#[test]
fn inspection_reports_inconsistent_material_and_rejects_tampered_journal() {
    let mut disk = disk();
    let update = || plan(STAGED, "inspect-inconsistent");
    disk.begin(update()).unwrap();
    disk.files
        .insert(TARGET.into(), b"unexpected-target".to_vec());
    let inspection = disk.inspect(update()).unwrap();
    assert_eq!(
        inspection.observed_state,
        MaintenanceObservedState::Inconsistent
    );
    assert_eq!(inspection.journal_state, Some(JournalState::Validated));

    disk.journal_names
        .insert("inspect-inconsistent".into(), "tampered-request".into());
    assert!(matches!(
        disk.inspect(update()),
        Err(MaintenanceError::JournalInvalid)
    ));
}

#[test]
fn plan_file_hash_is_enforced() {
    let bytes = b"{\"schema\":1}";
    let digest = sha256_file(bytes);
    verify_plan_file_sha256(bytes, &digest).unwrap();
    assert!(matches!(
        verify_plan_file_sha256(bytes, &"00".repeat(32)),
        Err(MaintenanceError::DigestMismatch { .. })
    ));
}

#[test]
fn digests_are_compared_whatever_their_case() {
    assert_eq!(
        sha256_file(b"abc"),
        "ba7816bf8f01cfea414140de5dae2223b00361a396177a9cb410ff61f20015ad"
    );
    assert_eq!(
        verify_file_sha256(b"abc", &sha256_file(b"abc").to_uppercase()),
        Ok(())
    );
    assert_eq!(
        verify_file_sha256(b"abc", "abc"),
        Err(MaintenanceError::InvalidDigest)
    );
}

#[test]
fn plans_have_a_shape() {
    assert_eq!(validate_plan_shape(&plan(STAGED, "update-1")), Ok(()));
    let mut newer = plan(STAGED, "update-1");
    newer.schema = 2;
    assert_eq!(
        validate_plan_shape(&newer),
        Err(MaintenanceError::InvalidPlan)
    );
    let unsafe_id = plan(STAGED, "../update");
    assert_eq!(
        validate_plan_shape(&unsafe_id),
        Err(MaintenanceError::InvalidPlan)
    );
    let mut slow = plan(STAGED, "update-1");
    slow.restart.health_wait_ms = MAX_HEALTH_WAIT_MS + 1;
    assert_eq!(
        validate_plan_shape(&slow),
        Err(MaintenanceError::InvalidRestartSpec)
    );
    let mut wordy = plan(STAGED, "update-1");
    wordy.restart.args = vec![String::from("x"); MAX_RESTART_ARGS + 1];
    assert_eq!(
        validate_plan_shape(&wordy),
        Err(MaintenanceError::InvalidRestartSpec)
    );
}

#[test]
fn plan_files_are_bounded() {
    assert!(plan_size_fits(true, MAX_PLAN_BYTES));
    assert!(!plan_size_fits(true, MAX_PLAN_BYTES + 1));
    assert!(!plan_size_fits(false, 1));
}

#[test]
fn side_files_lie_beside_the_target() {
    let backup = backup_path(PathStyle::Unix, &path(ROOT), "vor-agent.exe", "update-1");
    let temp = temp_path(PathStyle::Unix, &path(ROOT), "vor-agent.exe", "update-1");
    assert_ne!(backup.text, temp.text);
    assert!(backup.text.starts_with("/root/") && backup.text.contains("vor-agent.exe"));
    assert!(temp.text.starts_with("/root/") && temp.text.contains("update-1"));
    assert_eq!(
        journal_path(PathStyle::Unix, &path("/root/journal"), "update-1").text,
        "/root/journal/update-1.jsonl"
    );
    assert!(side_file_name("a", "b", "c").contains('a'));
}

#[test]
fn journals_are_not_begun_twice() {
    let mut disk = disk();
    disk.begin(plan(STAGED, "update-8")).unwrap();
    assert!(matches!(
        disk.begin(plan(STAGED, "update-8")),
        Err(MaintenanceError::JournalExists)
    ));
}

#[test]
fn swaps_give_way_to_leftovers() {
    let mut disk = disk();
    let mut tx = disk.begin(plan(STAGED, "update-9")).unwrap();
    disk.files
        .insert(tx.update().backup.text.clone(), b"left".to_vec());
    assert_eq!(disk.swap(&mut tx), Err(MaintenanceError::StagingCollision));
    assert_eq!(disk.read(TARGET).unwrap(), b"old-agent");
    assert_eq!(tx.state(), JournalState::Validated);
}

#[test]
fn failed_moves_bring_the_target_back() {
    let mut disk = disk();
    let mut tx = disk.begin(plan(STAGED, "update-10")).unwrap();
    let turn = tx.next_swap_turn(
        SwapStep::MoveTemp,
        Err(MaintenanceError::Io(IoFault { number: 5 })),
    );
    assert_eq!(
        turn,
        SwapTurn::Next(SwapStep::RestoreTarget(MaintenanceError::Io(IoFault {
            number: 5
        })))
    );
    let failed = tx.next_swap_turn(
        SwapStep::RestoreTarget(MaintenanceError::Io(IoFault { number: 5 })),
        Err(MaintenanceError::Io(GONE)),
    );
    assert_eq!(
        failed,
        SwapTurn::Next(SwapStep::DropTemp(
            MaintenanceError::SwapAndRollbackFailed {
                swap: Box::new(MaintenanceError::Io(IoFault { number: 5 })),
                rollback: Box::new(MaintenanceError::Io(GONE)),
            }
        ))
    );
    let worse = tx.next_swap_turn(
        SwapStep::RollBack(MaintenanceError::StagingCollision),
        Err(MaintenanceError::BackupMissing),
    );
    assert_eq!(
        worse,
        SwapTurn::Done(Err(MaintenanceError::PostSwapAndRollbackFailed {
            verification: Box::new(MaintenanceError::StagingCollision),
            rollback: Box::new(MaintenanceError::BackupMissing),
        }))
    );
}

#[test]
fn roots_must_be_directories() {
    let disk = disk();
    let update = plan(STAGED, "update-11");
    let mut seen = disk.plan_seen(&update);
    seen.root = Ok(Canonical {
        path: path(ROOT),
        kind: FileKind::File,
    });
    assert!(matches!(
        validate_plan(PathStyle::Unix, update, &seen),
        Err(MaintenanceError::InvalidRoot)
    ));
}

#[test]
fn paths_are_compared_by_their_parts() {
    assert!(within(PathStyle::Unix, &path("/root/a"), &path(ROOT)));
    assert!(within(PathStyle::Unix, &path(ROOT), &path(ROOT)));
    assert!(!within(PathStyle::Unix, &path("/rootless/a"), &path(ROOT)));
    assert!(!within(PathStyle::Unix, &path("/Root/a"), &path(ROOT)));
    assert!(within(PathStyle::Windows, &path("/Root/a"), &path(ROOT)));
    assert!(same_path(PathStyle::Windows, &path("/ROOT"), &path(ROOT)));
    assert!(!same_path(PathStyle::Unix, &path("/ROOT"), &path(ROOT)));
    assert!(within_folded("D:\\Work\\a", "d:\\work"));
    assert!(!within_folded("D:\\Workshop", "d:\\work"));
    assert!(goes_up(&path("/root/../etc")));
    assert!(!goes_up(&path("/root/..a")));
    assert!(relative_part(&path("./a")));
    assert_eq!(file_name(&path("/root/a.txt")), Some(&"a.txt".to_string()));
    assert_eq!(file_name(&path("/")), None);
    assert_eq!(
        join_name(PathStyle::Windows, &path("dir"), "a").text,
        "dir\\a"
    );
}

#[test]
fn results_are_read_for_their_status() {
    let status = |json: &str| content_status(result_content(&Ok(json.as_bytes().to_vec())));
    assert_eq!(status(r#"{"status":"ok","more":[1]}"#), Ok("ok".to_string()));
    assert_eq!(status(r#"{"status":""}"#), Err(MaintenanceError::ResultInvalid));
    assert_eq!(status(r#"{"status":7}"#), Err(MaintenanceError::ResultInvalid));
    assert_eq!(status(r#"["status"]"#), Err(MaintenanceError::ResultInvalid));
    assert_eq!(status("{"), Err(MaintenanceError::Json));
    assert_eq!(
        content_status(ResultContent::Status("x".repeat(64))),
        Ok("x".repeat(64))
    );
    assert_eq!(
        content_status(ResultContent::Status("x".repeat(65))),
        Err(MaintenanceError::ResultInvalid)
    );
    assert_eq!(
        content_status(result_content(&Err(GONE))),
        Err(MaintenanceError::Io(GONE))
    );
}
