//! Putting a new executable in the place of the old one, step by step, so that
//! the old one can always be brought back.

use vstd::prelude::*;

use crate::inspection;
use crate::maintenance;
use crate::maintenance::{
    JournalEntry, JournalState, MaintenanceError, MaintenanceFault, PlanObservation,
    RecoveryObservation, UpdatePlan, ValidatedUpdate,
};
use crate::paths;
use crate::paths::{IoFault, PathStyle};
use crate::text;

verus! {

/// What a swap asks to be done next. A step that makes up for an error carries
/// the error that will be reported.
#[derive(Debug, PartialEq, Eq)]
pub enum SwapStep {
    /// Compare the target with the digest it is to have.
    CheckTarget,
    /// Compare the staged file with its digest.
    CheckStaged,
    /// See that neither the backup nor the temporary file is there.
    CheckFree,
    /// Copy the staged file to the temporary file.
    CopyStaged,
    /// Compare the temporary file with the digest of the staged one.
    CheckTemp,
    /// Rename the target to the backup.
    MoveTarget,
    /// Rename the temporary file to the target.
    MoveTemp,
    /// Compare the target with the digest of the staged file.
    CheckSwapped,
    /// Write the swap into the journal.
    NoteSwap,
    /// Rename the backup back to the target.
    RestoreTarget(MaintenanceError),
    /// Remove the temporary file, if that can be done.
    DropTemp(MaintenanceError),
    /// Roll back, by the steps of a rollback.
    RollBack(MaintenanceError),
    /// Write the rollback into the journal.
    NoteRollback(MaintenanceError),
}

/// A swap goes on with a step, or is over.
#[derive(Debug, PartialEq, Eq)]
pub enum SwapTurn {
    Next(SwapStep),
    Done(Result<(), MaintenanceError>),
}

/// What a rollback asks to be done next.
#[derive(Debug, Clone, Copy, PartialEq, Eq, Structural)]
pub enum RollbackStep {
    /// See that the backup is a file.
    CheckBackup,
    /// Remove the target, if it is there.
    RemoveTarget,
    /// Rename the backup to the target.
    MoveBackup,
    /// Remove the temporary file, if that can be done.
    DropTemp,
    /// Compare the target with the digest of the old executable.
    CheckRestored,
}

#[derive(Debug, PartialEq, Eq)]
pub enum RollbackTurn {
    Next(RollbackStep),
    Done(Result<(), MaintenanceError>),
}

/// An update on its way.
#[derive(Debug)]
pub struct MaintenanceTransaction {
    pub update: ValidatedUpdate,
    pub state: JournalState,
}

// ---------------------------------------------------------------------------
// The order of steps

/// What follows a step, by how it went.
pub open spec fn swap_turn(step: SwapStep, outcome: Result<(), MaintenanceError>) -> SwapTurn {
    match step {
        SwapStep::CheckTarget => match outcome {
            Ok(_) => SwapTurn::Next(SwapStep::CheckStaged),
            Err(error) => SwapTurn::Done(Err(error)),
        },
        SwapStep::CheckStaged => match outcome {
            Ok(_) => SwapTurn::Next(SwapStep::CheckFree),
            Err(error) => SwapTurn::Done(Err(error)),
        },
        SwapStep::CheckFree => match outcome {
            Ok(_) => SwapTurn::Next(SwapStep::CopyStaged),
            Err(_) => SwapTurn::Done(Err(MaintenanceError::StagingCollision)),
        },
        SwapStep::CopyStaged => match outcome {
            Ok(_) => SwapTurn::Next(SwapStep::CheckTemp),
            Err(error) => SwapTurn::Done(Err(error)),
        },
        SwapStep::CheckTemp => match outcome {
            Ok(_) => SwapTurn::Next(SwapStep::MoveTarget),
            Err(error) => SwapTurn::Done(Err(error)),
        },
        SwapStep::MoveTarget => match outcome {
            Ok(_) => SwapTurn::Next(SwapStep::MoveTemp),
            Err(error) => SwapTurn::Next(SwapStep::DropTemp(error)),
        },
        SwapStep::MoveTemp => match outcome {
            Ok(_) => SwapTurn::Next(SwapStep::CheckSwapped),
            Err(error) => SwapTurn::Next(SwapStep::RestoreTarget(error)),
        },
        SwapStep::CheckSwapped => match outcome {
            Ok(_) => SwapTurn::Next(SwapStep::NoteSwap),
            Err(error) => SwapTurn::Next(SwapStep::RollBack(error)),
        },
        SwapStep::NoteSwap => SwapTurn::Done(outcome),
        SwapStep::RestoreTarget(error) => match outcome {
            Ok(_) => SwapTurn::Next(SwapStep::DropTemp(error)),
            Err(other) => SwapTurn::Next(
                SwapStep::DropTemp(
                    MaintenanceError::SwapAndRollbackFailed {
                        swap: Box::new(error),
                        rollback: Box::new(other),
                    },
                ),
            ),
        },
        SwapStep::DropTemp(error) => SwapTurn::Done(Err(error)),
        SwapStep::RollBack(error) => match outcome {
            Ok(_) => SwapTurn::Next(SwapStep::NoteRollback(error)),
            Err(other) => SwapTurn::Done(
                Err(
                    MaintenanceError::PostSwapAndRollbackFailed {
                        verification: Box::new(error),
                        rollback: Box::new(other),
                    },
                ),
            ),
        },
        SwapStep::NoteRollback(error) => match outcome {
            Ok(_) => SwapTurn::Done(Err(error)),
            Err(other) => SwapTurn::Done(Err(other)),
        },
    }
}

/// The state that a step leaves, by how it went.
pub open spec fn swap_state(
    state: JournalState,
    step: SwapStep,
    outcome: Result<(), MaintenanceError>,
) -> JournalState {
    if step is CheckSwapped && outcome is Ok {
        JournalState::Swapped
    } else if step is RollBack && outcome is Ok {
        JournalState::RolledBack
    } else {
        state
    }
}

/// A swap may begin.
pub open spec fn may_swap(state: JournalState) -> bool {
    state == JournalState::Validated
}

/// A swap may be committed.
pub open spec fn may_commit(state: JournalState) -> bool {
    state == JournalState::Swapped
}

/// A rollback may begin.
pub open spec fn may_roll_back(state: JournalState) -> bool {
    state == JournalState::Swapped || state == JournalState::Validated
}

/// What follows a step of a rollback, by how it went.
pub open spec fn rollback_turn(
    step: RollbackStep,
    outcome: Result<(), MaintenanceError>,
) -> RollbackTurn {
    match step {
        RollbackStep::CheckBackup => match outcome {
            Ok(_) => RollbackTurn::Next(RollbackStep::RemoveTarget),
            Err(_) => RollbackTurn::Done(Err(MaintenanceError::BackupMissing)),
        },
        RollbackStep::RemoveTarget => match outcome {
            Ok(_) => RollbackTurn::Next(RollbackStep::MoveBackup),
            Err(error) => RollbackTurn::Done(Err(error)),
        },
        RollbackStep::MoveBackup => match outcome {
            Ok(_) => RollbackTurn::Next(RollbackStep::DropTemp),
            Err(error) => RollbackTurn::Done(Err(error)),
        },
        RollbackStep::DropTemp => RollbackTurn::Next(RollbackStep::CheckRestored),
        RollbackStep::CheckRestored => RollbackTurn::Done(outcome),
    }
}

/// Goes on with a rollback after a step.
pub fn next_rollback_turn(step: RollbackStep, outcome: Result<(), MaintenanceError>) -> (turn:
    RollbackTurn)
    ensures
        turn == rollback_turn(step, outcome),
{
    match step {
        RollbackStep::CheckBackup => match outcome {
            Ok(_) => RollbackTurn::Next(RollbackStep::RemoveTarget),
            Err(_) => RollbackTurn::Done(Err(MaintenanceError::BackupMissing)),
        },
        RollbackStep::RemoveTarget => match outcome {
            Ok(_) => RollbackTurn::Next(RollbackStep::MoveBackup),
            Err(error) => RollbackTurn::Done(Err(error)),
        },
        RollbackStep::MoveBackup => match outcome {
            Ok(_) => RollbackTurn::Next(RollbackStep::DropTemp),
            Err(error) => RollbackTurn::Done(Err(error)),
        },
        RollbackStep::DropTemp => RollbackTurn::Next(RollbackStep::CheckRestored),
        RollbackStep::CheckRestored => RollbackTurn::Done(outcome),
    }
}

/// The entry tells of an update in a state.
pub open spec fn entry_tells(entry: JournalEntry, update: ValidatedUpdate, state: JournalState) -> bool {
    &&& entry.request_id@ == update.plan.request_id@
    &&& entry.state == state
    &&& entry.target_executable@ == update.target@
    &&& entry.staged_executable@ == update.staged@
    &&& entry.backup_executable@ == update.backup@
    &&& entry.temp_executable@ == update.temp@
    &&& entry.expected_current_sha256@ == text::ascii_lower(update.plan.expected_current_sha256@)
    &&& entry.expected_staged_sha256@ == text::ascii_lower(update.plan.expected_staged_sha256@)
}

fn lowered(value: &str) -> (r: String)
    ensures
        r@ == text::ascii_lower(value@),
{
    let chars = text::chars_of(value);
    text::string_of(text::lower_chars(chars.as_slice()).as_slice())
}

/// The line of the journal for an update in a state.
pub fn journal_entry(update: &ValidatedUpdate, state: JournalState) -> (entry: JournalEntry)
    ensures
        entry_tells(entry, *update, state),
{
    JournalEntry {
        request_id: update.plan.request_id.clone(),
        state,
        target_executable: paths::copy_path(&update.target),
        staged_executable: paths::copy_path(&update.staged),
        backup_executable: paths::copy_path(&update.backup),
        temp_executable: paths::copy_path(&update.temp),
        expected_current_sha256: lowered(update.plan.expected_current_sha256.as_str()),
        expected_staged_sha256: lowered(update.plan.expected_staged_sha256.as_str()),
    }
}

/// What speaks against beginning, if anything.
pub open spec fn begin_fault(
    style: PathStyle,
    plan: UpdatePlan,
    seen: PlanObservation,
    journal_exists: bool,
) -> Option<MaintenanceFault> {
    maintenance::first(
        maintenance::plan_fault(style, plan, seen),
        if journal_exists {
            Some(MaintenanceFault::JournalExists)
        } else {
            None
        },
    )
}

impl MaintenanceTransaction {
    /// Begins an update by a plan. Its first line of the journal is that of the
    /// state it begins in.
    pub fn begin(
        style: PathStyle,
        plan: UpdatePlan,
        seen: &PlanObservation,
        journal_exists: bool,
    ) -> (r: Result<Self, MaintenanceError>)
        ensures
            r is Err == begin_fault(style, plan, *seen, journal_exists) is Some,
            r is Err ==> r->Err_0@ == begin_fault(style, plan, *seen, journal_exists)->0,
            r is Ok ==> r->Ok_0.state == JournalState::Validated && maintenance::update_follows(
                style,
                r->Ok_0.update,
                plan,
                *seen,
            ),
    {
        let update = match maintenance::validate_plan(style, plan, seen) {
            Err(error) => {
                return Err(error);
            },
            Ok(update) => update,
        };
        if journal_exists {
            return Err(MaintenanceError::JournalExists);
        }
        Ok(MaintenanceTransaction { update, state: JournalState::Validated })
    }

    pub fn update(&self) -> (update: &ValidatedUpdate)
        ensures
            *update == self.update,
    {
        &self.update
    }

    pub fn state(&self) -> (state: JournalState)
        ensures
            state == self.state,
    {
        self.state
    }

    /// The first step of a swap, where one may begin.
    pub fn swap(&self) -> (r: Result<SwapStep, MaintenanceError>)
        ensures
            r is Ok == may_swap(self.state),
            r is Ok ==> r->Ok_0 == SwapStep::CheckTarget,
            r is Err ==> r->Err_0 == MaintenanceError::InvalidState,
    {
        if self.state != JournalState::Validated {
            return Err(MaintenanceError::InvalidState);
        }
        Ok(SwapStep::CheckTarget)
    }

    /// Goes on with a swap after a step.
    pub fn next_swap_turn(&mut self, step: SwapStep, outcome: Result<(), MaintenanceError>) -> (turn:
        SwapTurn)
        ensures
            turn == swap_turn(step, outcome),
            *final(self) == (MaintenanceTransaction {
                state: swap_state(old(self).state, step, outcome),
                ..*old(self)
            }),
    {
        match step {
            SwapStep::CheckTarget => match outcome {
                Ok(_) => SwapTurn::Next(SwapStep::CheckStaged),
                Err(error) => SwapTurn::Done(Err(error)),
            },
            SwapStep::CheckStaged => match outcome {
                Ok(_) => SwapTurn::Next(SwapStep::CheckFree),
                Err(error) => SwapTurn::Done(Err(error)),
            },
            SwapStep::CheckFree => match outcome {
                Ok(_) => SwapTurn::Next(SwapStep::CopyStaged),
                Err(_) => SwapTurn::Done(Err(MaintenanceError::StagingCollision)),
            },
            SwapStep::CopyStaged => match outcome {
                Ok(_) => SwapTurn::Next(SwapStep::CheckTemp),
                Err(error) => SwapTurn::Done(Err(error)),
            },
            SwapStep::CheckTemp => match outcome {
                Ok(_) => SwapTurn::Next(SwapStep::MoveTarget),
                Err(error) => SwapTurn::Done(Err(error)),
            },
            SwapStep::MoveTarget => match outcome {
                Ok(_) => SwapTurn::Next(SwapStep::MoveTemp),
                Err(error) => SwapTurn::Next(SwapStep::DropTemp(error)),
            },
            SwapStep::MoveTemp => match outcome {
                Ok(_) => SwapTurn::Next(SwapStep::CheckSwapped),
                Err(error) => SwapTurn::Next(SwapStep::RestoreTarget(error)),
            },
            SwapStep::CheckSwapped => match outcome {
                Ok(_) => {
                    self.state = JournalState::Swapped;
                    SwapTurn::Next(SwapStep::NoteSwap)
                },
                Err(error) => SwapTurn::Next(SwapStep::RollBack(error)),
            },
            SwapStep::NoteSwap => SwapTurn::Done(outcome),
            SwapStep::RestoreTarget(error) => match outcome {
                Ok(_) => SwapTurn::Next(SwapStep::DropTemp(error)),
                Err(other) => SwapTurn::Next(
                    SwapStep::DropTemp(
                        MaintenanceError::SwapAndRollbackFailed {
                            swap: Box::new(error),
                            rollback: Box::new(other),
                        },
                    ),
                ),
            },
            SwapStep::DropTemp(error) => SwapTurn::Done(Err(error)),
            SwapStep::RollBack(error) => match outcome {
                Ok(_) => {
                    self.state = JournalState::RolledBack;
                    SwapTurn::Next(SwapStep::NoteRollback(error))
                },
                Err(other) => SwapTurn::Done(
                    Err(
                        MaintenanceError::PostSwapAndRollbackFailed {
                            verification: Box::new(error),
                            rollback: Box::new(other),
                        },
                    ),
                ),
            },
            SwapStep::NoteRollback(error) => match outcome {
                Ok(_) => SwapTurn::Done(Err(error)),
                Err(other) => SwapTurn::Done(Err(other)),
            },
        }
    }

    /// Commits a swap, by what the target holds now. The entry is to be written
    /// into the journal.
    pub fn commit(&mut self, target: Result<Vec<u8>, IoFault>) -> (r: Result<
        JournalEntry,
        MaintenanceError,
    >)
        ensures
            r is Ok == (may_commit(old(self).state) && maintenance::bytes_fault(
                target,
                old(self).update.plan.expected_staged_sha256@,
            ) is None),
            r is Ok ==> entry_tells(r->Ok_0, old(self).update, JournalState::Committed),
            r is Ok ==> *final(self) == (MaintenanceTransaction {
                state: JournalState::Committed,
                ..*old(self)
            }),
            r is Err ==> *final(self) == *old(self),
            r is Err && !may_commit(old(self).state) ==> r->Err_0
                == MaintenanceError::InvalidState,
            r is Err && may_commit(old(self).state) ==> r->Err_0@
                == maintenance::bytes_fault(
                target,
                old(self).update.plan.expected_staged_sha256@,
            )->0,
    {
        if self.state != JournalState::Swapped {
            return Err(MaintenanceError::InvalidState);
        }
        if let Err(error) = maintenance::verify_read(
            &target,
            self.update.plan.expected_staged_sha256.as_str(),
        ) {
            return Err(error);
        }
        self.state = JournalState::Committed;
        Ok(journal_entry(&self.update, JournalState::Committed))
    }

    /// The first step of a rollback, where one may begin.
    pub fn rollback(&self) -> (r: Result<RollbackStep, MaintenanceError>)
        ensures
            r is Ok == may_roll_back(self.state),
            r is Ok ==> r->Ok_0 == RollbackStep::CheckBackup,
            r is Err ==> r->Err_0 == MaintenanceError::InvalidState,
    {
        if self.state != JournalState::Swapped && self.state != JournalState::Validated {
            return Err(MaintenanceError::InvalidState);
        }
        Ok(RollbackStep::CheckBackup)
    }

    /// Ends a rollback, by how its steps went. The entry is to be written into
    /// the journal.
    pub fn finish_rollback(&mut self, restored: Result<(), MaintenanceError>) -> (r: Result<
        JournalEntry,
        MaintenanceError,
    >)
        ensures
            r is Ok == restored is Ok,
            r is Ok ==> entry_tells(r->Ok_0, old(self).update, JournalState::RolledBack),
            r is Ok ==> *final(self) == (MaintenanceTransaction {
                state: JournalState::RolledBack,
                ..*old(self)
            }),
            r is Err ==> *final(self) == *old(self) && r->Err_0 == restored->Err_0,
    {
        if let Err(error) = restored {
            return Err(error);
        }
        self.state = JournalState::RolledBack;
        Ok(journal_entry(&self.update, JournalState::RolledBack))
    }
}

/// Takes back an update that was begun earlier, whatever became of it: the first
/// step to take, once it is known that there is a backup.
pub fn recover_previous(style: PathStyle, plan: UpdatePlan, seen: &RecoveryObservation) -> (r:
    Result<(ValidatedUpdate, RollbackStep), MaintenanceError>)
    ensures
        r is Err == maintenance::recovery_fault(style, plan, *seen) is Some,
        r is Err ==> r->Err_0@ == maintenance::recovery_fault(style, plan, *seen)->0,
        r is Ok ==> maintenance::recovery_follows(style, r->Ok_0.0, plan, *seen),
        r is Ok ==> r->Ok_0.1 == RollbackStep::RemoveTarget,
{
    match maintenance::validate_recovery_plan(style, plan, seen) {
        Err(error) => Err(error),
        Ok(update) => Ok((update, RollbackStep::RemoveTarget)),
    }
}

/// Ends the recovery of an update, by how its steps went. The entry is to be
/// written into the journal.
pub fn finish_recovery(update: &ValidatedUpdate, restored: Result<(), MaintenanceError>) -> (r:
    Result<JournalEntry, MaintenanceError>)
    ensures
        r is Ok == restored is Ok,
        r is Ok ==> entry_tells(r->Ok_0, *update, JournalState::RolledBack),
        r is Err ==> r->Err_0 == restored->Err_0,
{
    match restored {
        Err(error) => Err(error),
        Ok(_) => Ok(journal_entry(update, JournalState::RolledBack)),
    }
}

// ---------------------------------------------------------------------------
// Laws

/// What the four files of an update hold, where they are there.
#[verifier::ext_equal]
pub struct Disk {
    pub target: Option<Seq<u8>>,
    pub staged: Option<Seq<u8>>,
    pub backup: Option<Seq<u8>>,
    pub temp: Option<Seq<u8>>,
}

pub open spec fn has_digest(content: Option<Seq<u8>>, digest: Seq<char>) -> bool {
    content is Some && maintenance::digest_text(content->0) == digest
}

/// Renaming went well: what was there is where it was moved, and gone from where
/// it was.
pub open spec fn moved(from: Option<Seq<u8>>, from_after: Option<Seq<u8>>, to_after: Option<Seq<u8>>) -> bool {
    from is Some && to_after == from && from_after is None
}

/// What a step of a rollback does to the files.
pub open spec fn rollback_effect(
    step: RollbackStep,
    outcome: Result<(), MaintenanceError>,
    before: Disk,
    after: Disk,
    old_digest: Seq<char>,
) -> bool {
    match step {
        RollbackStep::CheckBackup => after == before && outcome is Ok == before.backup is Some,
        RollbackStep::RemoveTarget => if outcome is Ok {
            after == (Disk { target: None, ..before })
        } else {
            after == before
        },
        RollbackStep::MoveBackup => if outcome is Ok {
            after == (Disk { target: after.target, backup: after.backup, ..before }) && moved(
                before.backup,
                after.backup,
                after.target,
            )
        } else {
            after == before
        },
        RollbackStep::DropTemp => if outcome is Ok {
            after == (Disk { temp: None, ..before })
        } else {
            after == before
        },
        RollbackStep::CheckRestored => after == before && outcome is Ok == has_digest(
            before.target,
            old_digest,
        ),
    }
}

/// What a step of a swap does to the files.
pub open spec fn swap_effect(
    step: SwapStep,
    outcome: Result<(), MaintenanceError>,
    before: Disk,
    after: Disk,
    old_digest: Seq<char>,
    new_digest: Seq<char>,
) -> bool {
    match step {
        SwapStep::CheckTarget => after == before && outcome is Ok == has_digest(
            before.target,
            old_digest,
        ),
        SwapStep::CheckStaged => after == before && outcome is Ok == has_digest(
            before.staged,
            new_digest,
        ),
        SwapStep::CheckFree => after == before && outcome is Ok == (before.backup is None
            && before.temp is None),
        SwapStep::CopyStaged => after == (Disk { temp: after.temp, ..before }) && (outcome is Ok
            ==> after.temp == before.staged),
        SwapStep::CheckTemp => after == before && outcome is Ok == has_digest(
            before.temp,
            new_digest,
        ),
        SwapStep::MoveTarget => if outcome is Ok {
            after == (Disk { target: after.target, backup: after.backup, ..before }) && moved(
                before.target,
                after.target,
                after.backup,
            )
        } else {
            after == before
        },
        SwapStep::MoveTemp => if outcome is Ok {
            after == (Disk { target: after.target, temp: after.temp, ..before }) && moved(
                before.temp,
                after.temp,
                after.target,
            )
        } else {
            after == before
        },
        SwapStep::CheckSwapped => after == before && outcome is Ok == has_digest(
            before.target,
            new_digest,
        ),
        SwapStep::NoteSwap => after == before,
        SwapStep::RestoreTarget(_) => if outcome is Ok {
            after == (Disk { target: after.target, backup: after.backup, ..before }) && moved(
                before.backup,
                after.backup,
                after.target,
            )
        } else {
            after == before
        },
        SwapStep::DropTemp(_) => if outcome is Ok {
            after == (Disk { temp: None, ..before })
        } else {
            after == before
        },
        SwapStep::RollBack(_) => rolled_back(outcome, before, after, old_digest),
        SwapStep::NoteRollback(_) => after == before,
    }
}

/// A step that was taken, with the files before and after it.
pub struct RollbackMoment {
    pub step: RollbackStep,
    pub outcome: Result<(), MaintenanceError>,
    pub before: Disk,
    pub after: Disk,
}

/// A rollback from one of its steps to its end.
pub open spec fn is_rollback(
    first: RollbackStep,
    run: Seq<RollbackMoment>,
    outcome: Result<(), MaintenanceError>,
    old_digest: Seq<char>,
) -> bool {
    &&& run.len() > 0
    &&& run[0].step == first
    &&& forall|i: int| #![trigger run[i]]
        0 <= i < run.len() ==> rollback_effect(
            run[i].step,
            run[i].outcome,
            run[i].before,
            run[i].after,
            old_digest,
        )
    &&& forall|i: int, j: int| #![trigger run[i], run[j]]
        0 <= i && j == i + 1 && j < run.len() ==> run[j].before == run[i].after && rollback_turn(
            run[i].step,
            run[i].outcome,
        ) == RollbackTurn::Next(run[j].step)
    &&& rollback_turn(run.last().step, run.last().outcome) == RollbackTurn::Done(outcome)
}

/// A rollback from one of its steps leads from the files before to the files
/// after.
pub open spec fn rolled_back_from(
    first: RollbackStep,
    outcome: Result<(), MaintenanceError>,
    before: Disk,
    after: Disk,
    old_digest: Seq<char>,
) -> bool {
    exists|run: Seq<RollbackMoment>| #[trigger]
        is_rollback(first, run, outcome, old_digest) && run[0].before == before
            && run.last().after == after
}

/// A whole rollback leads from the files before to the files after.
pub open spec fn rolled_back(
    outcome: Result<(), MaintenanceError>,
    before: Disk,
    after: Disk,
    old_digest: Seq<char>,
) -> bool {
    rolled_back_from(RollbackStep::CheckBackup, outcome, before, after, old_digest)
}

/// What holds before a step of a rollback, by the files it began with.
spec fn rollback_stage(step: RollbackStep, disk: Disk, start: Disk) -> bool {
    &&& disk.staged == start.staged
    &&& disk.temp == start.temp || disk.temp is None
    &&& match step {
        RollbackStep::CheckBackup => disk == start,
        RollbackStep::RemoveTarget => disk == start && start.backup is Some,
        RollbackStep::MoveBackup => disk.backup == start.backup && start.backup is Some,
        RollbackStep::DropTemp => disk.target == start.backup && disk.backup is None,
        RollbackStep::CheckRestored => disk.target == start.backup && disk.backup is None,
    }
}

proof fn lemma_rollback_stage(
    first: RollbackStep,
    run: Seq<RollbackMoment>,
    outcome: Result<(), MaintenanceError>,
    old_digest: Seq<char>,
    i: int,
)
    requires
        is_rollback(first, run, outcome, old_digest),
        rollback_stage(first, run[0].before, run[0].before),
        0 <= i < run.len(),
    ensures
        rollback_stage(run[i].step, run[i].before, run[0].before),
    decreases i,
{
    if i > 0 {
        lemma_rollback_stage(first, run, outcome, old_digest, i - 1);
        let k = i - 1;
        assert(run[k].step == run[k].step);
        assert(run[i].before == run[k].after);
    }
}

proof fn lemma_restores(
    first: RollbackStep,
    outcome: Result<(), MaintenanceError>,
    before: Disk,
    after: Disk,
    old_digest: Seq<char>,
)
    requires
        rolled_back_from(first, outcome, before, after, old_digest),
        rollback_stage(first, before, before),
    ensures
        outcome is Ok ==> after.target == before.backup && after.backup is None && has_digest(
            after.target,
            old_digest,
        ),
        outcome is Err ==> after.backup == before.backup || after.target == before.backup,
        after.staged == before.staged,
        after.temp == before.temp || after.temp is None,
{
    let run = choose|run: Seq<RollbackMoment>| #[trigger]
        is_rollback(first, run, outcome, old_digest) && run[0].before == before
            && run.last().after == after;
    let n = run.len() - 1;
    lemma_rollback_stage(first, run, outcome, old_digest, n);
    assert(run[n] == run.last());
}

/// A rollback that succeeds puts the backup, and nothing else, where the target
/// is. One that fails leaves the backup where it was, or where the target is. The
/// staged file stays as it is, and no temporary file comes to be. Where there is no
/// backup, nothing changes.
pub proof fn rolling_back_restores_the_backup(
    outcome: Result<(), MaintenanceError>,
    before: Disk,
    after: Disk,
    old_digest: Seq<char>,
)
    requires
        rolled_back(outcome, before, after, old_digest),
    ensures
        outcome is Ok ==> after.target == before.backup && after.backup is None && has_digest(
            after.target,
            old_digest,
        ),
        outcome is Err ==> after.backup == before.backup || after.target == before.backup,
        after.staged == before.staged,
        after.temp == before.temp || after.temp is None,
        before.backup is None ==> after == before && outcome == Err::<(), MaintenanceError>(
            MaintenanceError::BackupMissing,
        ),
{
    lemma_restores(RollbackStep::CheckBackup, outcome, before, after, old_digest);
    if before.backup is None {
        let run = choose|run: Seq<RollbackMoment>| #[trigger]
            is_rollback(RollbackStep::CheckBackup, run, outcome, old_digest) && run[0].before
                == before && run.last().after == after;
        if run.len() > 1 {
            assert(run[1].before == run[0].after);
        }
    }
}

/// A rollback whose backup is the old executable succeeds, unless the target cannot
/// be removed or the backup not be moved.
pub proof fn rollbacks_succeed(
    run: Seq<RollbackMoment>,
    outcome: Result<(), MaintenanceError>,
    old_digest: Seq<char>,
)
    requires
        is_rollback(RollbackStep::CheckBackup, run, outcome, old_digest),
        has_digest(run[0].before.backup, old_digest),
        forall|i: int|
            0 <= i < run.len() && ((#[trigger] run[i]).step is RemoveTarget || run[i].step is MoveBackup)
                ==> run[i].outcome is Ok,
    ensures
        outcome is Ok,
{
    let n = run.len() - 1;
    lemma_rollback_stage(RollbackStep::CheckBackup, run, outcome, old_digest, n);
    assert(run[n] == run.last());
}

/// The same holds of a recovery that finds a backup: it is restored, or not lost.
pub proof fn recovering_restores_the_backup(
    outcome: Result<(), MaintenanceError>,
    before: Disk,
    after: Disk,
    old_digest: Seq<char>,
)
    requires
        rolled_back_from(RollbackStep::RemoveTarget, outcome, before, after, old_digest),
        before.backup is Some,
    ensures
        outcome is Ok ==> after.target == before.backup && after.backup is None && has_digest(
            after.target,
            old_digest,
        ),
        outcome is Err ==> after.backup == before.backup || after.target == before.backup,
        after.staged == before.staged,
        after.temp == before.temp || after.temp is None,
{
    lemma_restores(RollbackStep::RemoveTarget, outcome, before, after, old_digest);
}

pub struct SwapMoment {
    pub step: SwapStep,
    pub outcome: Result<(), MaintenanceError>,
    pub before: Disk,
    pub after: Disk,
}

/// A swap from its first step to its end.
pub open spec fn is_swap(
    run: Seq<SwapMoment>,
    outcome: Result<(), MaintenanceError>,
    old_digest: Seq<char>,
    new_digest: Seq<char>,
) -> bool {
    &&& run.len() > 0
    &&& run[0].step == SwapStep::CheckTarget
    &&& forall|i: int| #![trigger run[i]]
        0 <= i < run.len() ==> swap_effect(
            run[i].step,
            run[i].outcome,
            run[i].before,
            run[i].after,
            old_digest,
            new_digest,
        )
    &&& forall|i: int, j: int| #![trigger run[i], run[j]]
        0 <= i && j == i + 1 && j < run.len() ==> run[j].before == run[i].after && swap_turn(
            run[i].step,
            run[i].outcome,
        ) == SwapTurn::Next(run[j].step)
    &&& swap_turn(run.last().step, run.last().outcome) == SwapTurn::Done(outcome)
}

/// What holds before a step of a swap, by the files it began with.
spec fn swap_stage(
    step: SwapStep,
    disk: Disk,
    start: Disk,
    old_digest: Seq<char>,
    new_digest: Seq<char>,
) -> bool {
    let target = start.target;
    &&& disk.staged == start.staged
    &&& match step {
        SwapStep::CheckTarget => disk == start,
        SwapStep::CheckStaged => disk == start && has_digest(target, old_digest),
        SwapStep::CheckFree => disk == start && has_digest(target, old_digest),
        SwapStep::CopyStaged => disk == start && has_digest(target, old_digest),
        SwapStep::CheckTemp => disk.target == target && has_digest(target, old_digest),
        SwapStep::MoveTarget => disk.target == target && has_digest(target, old_digest),
        SwapStep::MoveTemp => disk.backup == target && has_digest(target, old_digest),
        SwapStep::CheckSwapped => disk.backup == target && has_digest(target, old_digest)
            && disk.temp is None,
        SwapStep::NoteSwap => disk.backup == target && has_digest(target, old_digest)
            && has_digest(disk.target, new_digest) && disk.temp is None,
        SwapStep::RestoreTarget(_) => disk.backup == target,
        SwapStep::DropTemp(error) => disk.target == target || (disk.backup == target
            && error is SwapAndRollbackFailed),
        SwapStep::RollBack(_) => disk.backup == target,
        SwapStep::NoteRollback(_) => disk.target == target,
    }
}

proof fn lemma_swap_stage(
    run: Seq<SwapMoment>,
    outcome: Result<(), MaintenanceError>,
    old_digest: Seq<char>,
    new_digest: Seq<char>,
    i: int,
)
    requires
        is_swap(run, outcome, old_digest, new_digest),
        0 <= i < run.len(),
    ensures
        swap_stage(run[i].step, run[i].before, run[0].before, old_digest, new_digest),
    decreases i,
{
    if i > 0 {
        let k = i - 1;
        lemma_swap_stage(run, outcome, old_digest, new_digest, k);
        assert(run[i].before == run[k].after);
        if run[k].step is RollBack {
            rolling_back_restores_the_backup(
                run[k].outcome,
                run[k].before,
                run[k].after,
                old_digest,
            );
        }
    }
}

/// A swap never loses the executable it replaces: however it ends, what the
/// target held when it began is in the target or in the backup. If it succeeds,
/// the target is the new one, the backup the old, and no temporary file is left. The
/// staged file stays as it is.
pub proof fn swapping_keeps_the_old_executable(
    run: Seq<SwapMoment>,
    outcome: Result<(), MaintenanceError>,
    old_digest: Seq<char>,
    new_digest: Seq<char>,
)
    requires
        is_swap(run, outcome, old_digest, new_digest),
    ensures
        run.last().after.target == run[0].before.target || run.last().after.backup
            == run[0].before.target,
        outcome is Ok ==> has_digest(run.last().after.target, new_digest)
            && run.last().after.backup == run[0].before.target && has_digest(
            run.last().after.backup,
            old_digest,
        ) && run.last().after.temp is None,
        run.last().after.staged == run[0].before.staged,
{
    let n = run.len() - 1;
    lemma_swap_stage(run, outcome, old_digest, new_digest, n);
    assert(run[n] == run.last());
    if run[n].step is RollBack {
        rolling_back_restores_the_backup(
            run[n].outcome,
            run[n].before,
            run[n].after,
            old_digest,
        );
    }
}

/// A rollback undoes a swap: the target is what it was before, the staged file too,
/// and neither the backup nor the temporary file is left. It succeeds, unless the
/// target cannot be removed or the backup not be moved.
pub proof fn rolling_back_undoes_a_swap(
    swap: Seq<SwapMoment>,
    run: Seq<RollbackMoment>,
    outcome: Result<(), MaintenanceError>,
    old_digest: Seq<char>,
    new_digest: Seq<char>,
)
    requires
        is_swap(swap, Ok(()), old_digest, new_digest),
        is_rollback(RollbackStep::CheckBackup, run, outcome, old_digest),
        run[0].before == swap.last().after,
    ensures
        outcome is Ok ==> run.last().after == (Disk {
            target: swap[0].before.target,
            staged: swap[0].before.staged,
            backup: None,
            temp: None,
        }),
        (forall|i: int|
            0 <= i < run.len() && ((#[trigger] run[i]).step is RemoveTarget || run[i].step is MoveBackup)
                ==> run[i].outcome is Ok) ==> outcome is Ok,
{
    swapping_keeps_the_old_executable(swap, Ok(()), old_digest, new_digest);
    assert(rolled_back(outcome, run[0].before, run.last().after, old_digest));
    rolling_back_restores_the_backup(outcome, run[0].before, run.last().after, old_digest);
    if forall|i: int|
        0 <= i < run.len() && ((#[trigger] run[i]).step is RemoveTarget || run[i].step is MoveBackup)
            ==> run[i].outcome is Ok {
        rollbacks_succeed(run, outcome, old_digest);
    }
}

/// An update that was rolled back or committed is over: it is not swapped,
/// committed or rolled back again.
pub proof fn ended_updates_stay_ended(state: JournalState)
    requires
        state == JournalState::RolledBack || state == JournalState::Committed,
    ensures
        !may_swap(state),
        !may_commit(state),
        !may_roll_back(state),
{
}

/// A swap that fails before it moves the target leaves the target as it was.
pub proof fn refused_swaps_change_no_target(
    run: Seq<SwapMoment>,
    outcome: Result<(), MaintenanceError>,
    old_digest: Seq<char>,
    new_digest: Seq<char>,
)
    requires
        is_swap(run, outcome, old_digest, new_digest),
        !has_digest(run[0].before.target, old_digest) || !has_digest(
            run[0].before.staged,
            new_digest,
        ) || run[0].before.backup is Some || run[0].before.temp is Some,
    ensures
        outcome is Err,
        run.last().after.target == run[0].before.target,
        run.last().after.backup == run[0].before.backup,
{
    let first = run[0];
    if run.len() > 1 {
        let second = run[1];
        assert(second.before == first.after);
        assert(second.step == SwapStep::CheckStaged);
        if run.len() > 2 {
            let third = run[2];
            assert(third.before == second.after);
            assert(third.step == SwapStep::CheckFree);
            if run.len() > 3 {
                assert(run[3].before == third.after);
            }
        }
    }
}

/// The lines that an update writes into its journal are about that update: an
/// inspection by its plan accepts each of them.
pub proof fn journals_are_read_back(
    style: PathStyle,
    entry: JournalEntry,
    update: ValidatedUpdate,
    state: JournalState,
)
    requires
        entry_tells(entry, update, state),
    ensures
        inspection::entry_fits(
            style,
            entry,
            update.plan,
            inspection::UpdateFiles {
                target: update.target@,
                staged: update.staged@,
                backup: update.backup@,
                temp: update.temp@,
            },
        ),
{
    let a = update.plan.expected_current_sha256@;
    let b = update.plan.expected_staged_sha256@;
    assert(text::ascii_lower(text::ascii_lower(a)) =~= text::ascii_lower(a));
    assert(text::ascii_lower(text::ascii_lower(b)) =~= text::ascii_lower(b));
}

/// A swap whose steps all go well takes them in this order, and so does a rollback.
pub proof fn swaps_take_their_steps_in_order(well: Result<(), MaintenanceError>)
    requires
        well is Ok,
    ensures
        swap_turn(SwapStep::CheckTarget, well) == SwapTurn::Next(SwapStep::CheckStaged),
        swap_turn(SwapStep::CheckStaged, well) == SwapTurn::Next(SwapStep::CheckFree),
        swap_turn(SwapStep::CheckFree, well) == SwapTurn::Next(SwapStep::CopyStaged),
        swap_turn(SwapStep::CopyStaged, well) == SwapTurn::Next(SwapStep::CheckTemp),
        swap_turn(SwapStep::CheckTemp, well) == SwapTurn::Next(SwapStep::MoveTarget),
        swap_turn(SwapStep::MoveTarget, well) == SwapTurn::Next(SwapStep::MoveTemp),
        swap_turn(SwapStep::MoveTemp, well) == SwapTurn::Next(SwapStep::CheckSwapped),
        swap_turn(SwapStep::CheckSwapped, well) == SwapTurn::Next(SwapStep::NoteSwap),
        swap_turn(SwapStep::NoteSwap, well) == SwapTurn::Done(well),
        rollback_turn(RollbackStep::CheckBackup, well) == RollbackTurn::Next(
            RollbackStep::RemoveTarget,
        ),
        rollback_turn(RollbackStep::RemoveTarget, well) == RollbackTurn::Next(
            RollbackStep::MoveBackup,
        ),
        rollback_turn(RollbackStep::MoveBackup, well) == RollbackTurn::Next(RollbackStep::DropTemp),
        rollback_turn(RollbackStep::DropTemp, well) == RollbackTurn::Next(
            RollbackStep::CheckRestored,
        ),
        rollback_turn(RollbackStep::CheckRestored, well) == RollbackTurn::Done(well),
{
}

/// A swap that fails before anything was moved ends with its error, after that what was moved
/// is moved back first and the error is told; where moving back fails as well, both errors
/// are.
pub proof fn failed_swaps_are_taken_back(error: MaintenanceError, first: MaintenanceError)
    ensures
        ({
            let badly = Err::<(), MaintenanceError>(error);
            let well = Ok::<(), MaintenanceError>(());
            &&& swap_turn(SwapStep::CheckTarget, badly) == SwapTurn::Done(badly)
            &&& swap_turn(SwapStep::CheckStaged, badly) == SwapTurn::Done(badly)
            &&& swap_turn(SwapStep::CheckFree, badly) == SwapTurn::Done(
                Err::<(), MaintenanceError>(MaintenanceError::StagingCollision),
            )
            &&& swap_turn(SwapStep::CopyStaged, badly) == SwapTurn::Done(badly)
            &&& swap_turn(SwapStep::CheckTemp, badly) == SwapTurn::Done(badly)
            &&& swap_turn(SwapStep::MoveTarget, badly) == SwapTurn::Next(SwapStep::DropTemp(error))
            &&& swap_turn(SwapStep::MoveTemp, badly) == SwapTurn::Next(
                SwapStep::RestoreTarget(error),
            )
            &&& swap_turn(SwapStep::RestoreTarget(first), well) == SwapTurn::Next(
                SwapStep::DropTemp(first),
            )
            &&& swap_turn(SwapStep::RestoreTarget(first), badly) == SwapTurn::Next(
                SwapStep::DropTemp(
                    MaintenanceError::SwapAndRollbackFailed {
                        swap: Box::new(first),
                        rollback: Box::new(error),
                    },
                ),
            )
            &&& swap_turn(SwapStep::DropTemp(first), well) == SwapTurn::Done(
                Err::<(), MaintenanceError>(first),
            )
            &&& swap_turn(SwapStep::DropTemp(first), badly) == SwapTurn::Done(
                Err::<(), MaintenanceError>(first),
            )
            &&& swap_turn(SwapStep::CheckSwapped, badly) == SwapTurn::Next(
                SwapStep::RollBack(error),
            )
            &&& swap_turn(SwapStep::RollBack(first), well) == SwapTurn::Next(
                SwapStep::NoteRollback(first),
            )
            &&& swap_turn(SwapStep::RollBack(first), badly) == SwapTurn::Done(
                Err::<(), MaintenanceError>(
                    MaintenanceError::PostSwapAndRollbackFailed {
                        verification: Box::new(first),
                        rollback: Box::new(error),
                    },
                ),
            )
            &&& swap_turn(SwapStep::NoteRollback(first), well) == SwapTurn::Done(
                Err::<(), MaintenanceError>(first),
            )
            &&& swap_turn(SwapStep::NoteRollback(first), badly) == SwapTurn::Done(badly)
            &&& swap_turn(SwapStep::NoteSwap, badly) == SwapTurn::Done(badly)
            &&& rollback_turn(RollbackStep::CheckBackup, badly) == RollbackTurn::Done(
                Err::<(), MaintenanceError>(MaintenanceError::BackupMissing),
            )
            &&& rollback_turn(RollbackStep::RemoveTarget, badly) == RollbackTurn::Done(badly)
            &&& rollback_turn(RollbackStep::MoveBackup, badly) == RollbackTurn::Done(badly)
            &&& rollback_turn(RollbackStep::DropTemp, badly) == RollbackTurn::Next(
                RollbackStep::CheckRestored,
            )
            &&& rollback_turn(RollbackStep::CheckRestored, badly) == RollbackTurn::Done(badly)
        }),
{
}

/// An update may be swapped once it is validated, committed once it is swapped, and rolled
/// back from either; it is swapped once the new target was seen to be right, and rolled back
/// once the rollback went well.
pub proof fn updates_go_from_state_to_state(
    state: JournalState,
    step: SwapStep,
    error: MaintenanceError,
)
    ensures
        may_swap(state) <==> state is Validated,
        may_commit(state) <==> state is Swapped,
        may_roll_back(state) <==> state is Validated || state is Swapped,
        swap_state(state, step, Err::<(), MaintenanceError>(error)) == state,
        swap_state(state, step, Ok::<(), MaintenanceError>(())) == (if step is CheckSwapped {
            JournalState::Swapped
        } else if step is RollBack {
            JournalState::RolledBack
        } else {
            state
        }),
{
}

/// An update is begun exactly when its plan holds and it has no journal yet.
pub proof fn updates_are_begun_once(
    style: PathStyle,
    plan: UpdatePlan,
    seen: PlanObservation,
    journal_exists: bool,
)
    ensures
        begin_fault(style, plan, seen, journal_exists) is None <==> maintenance::plan_fault(
            style,
            plan,
            seen,
        ) is None && !journal_exists,
        maintenance::plan_fault(style, plan, seen) is Some ==> begin_fault(
            style,
            plan,
            seen,
            journal_exists,
        ) == maintenance::plan_fault(style, plan, seen),
        maintenance::plan_fault(style, plan, seen) is None && journal_exists ==> begin_fault(
            style,
            plan,
            seen,
            journal_exists,
        ) == Some(MaintenanceFault::JournalExists),
{
}

/// An entry of the journal tells the update: its request, its files, its digests in small
/// letters, and how far it came.
pub proof fn entries_tell_the_update(
    entry: JournalEntry,
    update: ValidatedUpdate,
    state: JournalState,
)
    requires
        entry_tells(entry, update, state),
    ensures
        entry.request_id@ == update.plan.request_id@,
        entry.state == state,
        entry.target_executable@ == update.target@,
        entry.staged_executable@ == update.staged@,
        entry.backup_executable@ == update.backup@,
        entry.temp_executable@ == update.temp@,
        entry.expected_current_sha256@ == text::ascii_lower(update.plan.expected_current_sha256@),
        entry.expected_staged_sha256@ == text::ascii_lower(update.plan.expected_staged_sha256@),
{
}

} // verus!
