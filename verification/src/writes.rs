//! Writing files: a write is prepared beside its target, checked, noted in a
//! journal, and then put in place.

use vstd::prelude::*;

use crate::broker::{Authorization, ExecutionAuthorization};
use crate::codec;
use crate::crypto;
use crate::files;
use crate::files::{FsError, FsFault, FsWorker};
use crate::paths;
use crate::paths::{IoFault, PathModel, PathStyle, PathText};
use crate::protocol;
use crate::text;

verus! {

#[derive(Debug, Clone, Copy, PartialEq, Eq, Structural)]
pub enum JournalState {
    Prepared,
    Replaced,
    Committed,
}

#[derive(Debug, PartialEq, Eq)]
pub struct JournalRecord {
    pub transaction_id: String,
    pub request_id: String,
    pub target: String,
    pub temp_path: String,
    pub backup_path: Option<String>,
    pub content_sha256: String,
    pub state: JournalState,
}

#[derive(Debug)]
pub struct WriteReceipt {
    pub target: PathText,
    pub backup_path: Option<PathText>,
    pub journal_path: PathText,
    pub content_sha256: String,
}

/// What the target of a write must be before it.
#[derive(Debug, PartialEq, Eq)]
pub enum TargetPrecondition {
    Absent,
    Sha256(String),
}

/// What a path holds.
#[derive(Debug)]
pub enum TargetState {
    Absent,
    Unreadable(IoFault),
    Bytes(Vec<u8>),
}

/// A target that exists: whether it is a file, where it is, and the directory it
/// is in.
#[derive(Debug)]
pub struct FoundTarget {
    pub is_file: Result<bool, IoFault>,
    pub canonical: Result<PathText, IoFault>,
    pub directory: Option<PathText>,
}

/// What was found where a write points.
#[derive(Debug)]
pub struct WriteObservation {
    pub reparse: Result<Option<String>, IoFault>,
    pub existing: Option<FoundTarget>,
    /// Of a target that does not: the directory it would be in.
    pub parent: Option<Result<PathText, IoFault>>,
    /// What the resolved target holds.
    pub state: TargetState,
    pub temp_exists: bool,
    pub journal_exists: bool,
}

// ---------------------------------------------------------------------------
// Digests that a request gives

/// Sixty-four hexadecimal digits.
pub open spec fn is_digest(value: Seq<char>) -> bool {
    value.len() == 64 && codec::is_hex(value)
}

/// The digest of the content that a request is to write, or why it gives none.
pub open spec fn content_digest(authorization: Authorization) -> Result<Seq<char>, FsFault> {
    match protocol::text_parameter(
        authorization.request.envelope.parameters@,
        "content_sha256"@,
    ) {
        None => Err(FsFault::MissingContentDigest),
        Some(value) => if is_digest(value) {
            Ok(text::ascii_lower(value))
        } else {
            Err(FsFault::InvalidContentDigest)
        },
    }
}

/// A precondition by what it says.
#[verifier::ext_equal]
pub enum PreconditionModel {
    Absent,
    Sha256(Seq<char>),
}

impl View for TargetPrecondition {
    type V = PreconditionModel;

    open spec fn view(&self) -> PreconditionModel {
        match self {
            TargetPrecondition::Absent => PreconditionModel::Absent,
            TargetPrecondition::Sha256(digest) => PreconditionModel::Sha256(digest@),
        }
    }
}

/// What a request says its target is before the write, or why it says nothing.
pub open spec fn target_precondition(authorization: Authorization) -> Result<
    PreconditionModel,
    FsFault,
> {
    match protocol::text_parameter(
        authorization.request.envelope.parameters@,
        "expected_target_sha256"@,
    ) {
        None => Err(FsFault::MissingTargetPrecondition),
        Some(value) => if text::ascii_lower(value) == "absent"@ {
            Ok(PreconditionModel::Absent)
        } else if is_digest(value) {
            Ok(PreconditionModel::Sha256(text::ascii_lower(value)))
        } else {
            Err(FsFault::InvalidTargetPrecondition)
        },
    }
}

/// Why a target is not what it must be, if it is not.
pub open spec fn precondition_fault(state: TargetState, precondition: PreconditionModel) -> Option<
    FsFault,
> {
    match precondition {
        PreconditionModel::Absent => if state is Absent {
            None
        } else {
            Some(FsFault::TargetPreconditionFailed)
        },
        PreconditionModel::Sha256(expected) => match state {
            TargetState::Absent => Some(FsFault::TargetPreconditionFailed),
            TargetState::Unreadable(fault) => Some(FsFault::Io(fault)),
            TargetState::Bytes(bytes) => if text::ascii_lower(files::digest_text(bytes@))
                == text::ascii_lower(expected) {
                None
            } else {
                Some(FsFault::TargetPreconditionFailed)
            },
        },
    }
}

fn lowered(value: &str) -> (r: String)
    ensures
        r@ == text::ascii_lower(value@),
{
    let chars = text::chars_of(value);
    text::string_of(text::lower_chars(chars.as_slice()).as_slice())
}

fn agree(a: &str, b: &str) -> (r: bool)
    ensures
        r == (text::ascii_lower(a@) == text::ascii_lower(b@)),
{
    let x = lowered(a);
    let y = lowered(b);
    text::same_text(x.as_str(), y.as_str())
}

fn digest_given(value: &str) -> (r: bool)
    ensures
        r == is_digest(value@),
{
    let chars = text::chars_of(value);
    chars.len() == 64 && codec::from_hex(value).is_some()
}

fn required_content_digest(authorization: &Authorization) -> (r: Result<String, FsError>)
    ensures
        r is Err == content_digest(*authorization) is Err,
        r is Err ==> r->Err_0@ == content_digest(*authorization)->Err_0,
        r is Ok ==> r->Ok_0@ == content_digest(*authorization)->Ok_0,
{
    match protocol::find_text(
        &authorization.request.envelope.parameters,
        "content_sha256",
    ) {
        None => Err(FsError::MissingContentDigest),
        Some(value) => {
            if !digest_given(value) {
                return Err(FsError::InvalidContentDigest);
            }
            Ok(lowered(value))
        },
    }
}

fn required_target_precondition(authorization: &Authorization) -> (r: Result<
    TargetPrecondition,
    FsError,
>)
    ensures
        r is Err == target_precondition(*authorization) is Err,
        r is Err ==> r->Err_0@ == target_precondition(*authorization)->Err_0,
        r is Ok ==> r->Ok_0@ == target_precondition(*authorization)->Ok_0,
{
    match protocol::find_text(
        &authorization.request.envelope.parameters,
        "expected_target_sha256",
    ) {
        None => Err(FsError::MissingTargetPrecondition),
        Some(value) => {
            let small = lowered(value);
            if text::same_text(small.as_str(), "absent") {
                return Ok(TargetPrecondition::Absent);
            }
            if !digest_given(value) {
                return Err(FsError::InvalidTargetPrecondition);
            }
            Ok(TargetPrecondition::Sha256(small))
        },
    }
}

/// Is a target what it must be?
pub fn verify_target_precondition(state: &TargetState, precondition: &TargetPrecondition) -> (r:
    Result<(), FsError>)
    ensures
        r is Err == precondition_fault(*state, precondition@) is Some,
        r is Err ==> r->Err_0@ == precondition_fault(*state, precondition@)->0,
{
    match precondition {
        TargetPrecondition::Absent => match state {
            TargetState::Absent => Ok(()),
            _ => Err(FsError::TargetPreconditionFailed),
        },
        TargetPrecondition::Sha256(expected) => match state {
            TargetState::Absent => Err(FsError::TargetPreconditionFailed),
            TargetState::Unreadable(fault) => Err(FsError::Io(*fault)),
            TargetState::Bytes(bytes) => {
                let actual = files::sha256_hex(bytes.as_slice());
                if agree(actual.as_str(), expected.as_str()) {
                    Ok(())
                } else {
                    Err(FsError::TargetPreconditionFailed)
                }
            },
        },
    }
}

// ---------------------------------------------------------------------------
// Where a write goes

/// Why a write may not go where it points, if it may not.
pub open spec fn write_target_fault(worker: FsWorker, target: PathText, seen: WriteObservation) -> Option<
    FsFault,
> {
    files::first(
        files::path_fault(target, seen.reparse),
        match seen.existing {
            Some(found) => match found.is_file {
                Err(fault) => Some(FsFault::Io(fault)),
                Ok(false) => Some(FsFault::UnsafePath),
                Ok(true) => match found.canonical {
                    Err(fault) => Some(FsFault::Io(fault)),
                    Ok(path) => files::allowed_fault(worker, path),
                },
            },
            None => match seen.parent {
                None => Some(FsFault::UnsafePath),
                Some(parent) => if paths::last_name(target@) is None {
                    Some(FsFault::UnsafePath)
                } else {
                    match parent {
                        Err(fault) => Some(FsFault::Io(fault)),
                        Ok(path) => files::allowed_fault(worker, path),
                    }
                },
            },
        },
    )
}

/// Where a write goes: to what was found at the target, or to the name that the
/// target ends with, in the directory that was found before it.
pub open spec fn write_target(style: PathStyle, target: PathModel, seen: WriteObservation) -> PathModel {
    match seen.existing {
        Some(found) => found.canonical->Ok_0@,
        None => paths::joined(style, seen.parent->0->Ok_0@, paths::last_name(target)->0),
    }
}

/// The directory that a write works in, which is that of its target.
pub open spec fn write_directory(seen: WriteObservation) -> Option<PathText> {
    match seen.existing {
        Some(found) => found.directory,
        None => Some(seen.parent->0->Ok_0),
    }
}

/// Why there is no directory to work in, if there is none.
pub open spec fn directory_fault(style: PathStyle, seen: WriteObservation) -> Option<FsFault> {
    match seen.existing {
        None => None,
        Some(found) => if found.directory is Some && paths::lies_in(
            style,
            found.canonical->Ok_0@,
            found.directory->0@,
        ) {
            None
        } else {
            Some(FsFault::UnsafePath)
        },
    }
}

pub open spec fn transaction_of(authorization: Authorization) -> Seq<char> {
    codec::hex_text(authorization.request.envelope_digest@)
}

pub open spec fn temp_name(transaction: Seq<char>) -> Seq<char> {
    ".vor-"@ + transaction.take(16) + ".tmp"@
}

/// Why the target is not what an approved write says, if it is not.
pub open spec fn approved_target_fault(authorization: Authorization, state: TargetState) -> Option<
    FsFault,
> {
    match target_precondition(authorization) {
        Err(fault) => Some(fault),
        Ok(precondition) => precondition_fault(state, precondition),
    }
}

/// Why a write may not begin, if it may not.
pub open spec fn write_fault(
    style: PathStyle,
    worker: FsWorker,
    authorization: Authorization,
    content: Seq<u8>,
    approved: bool,
    target: PathText,
    seen: WriteObservation,
) -> Option<FsFault> {
    files::first(
        match content_digest(authorization) {
            Err(fault) => Some(fault),
            Ok(expected) => if text::ascii_lower(expected) == text::ascii_lower(
                files::digest_text(content),
            ) {
                None
            } else {
                Some(FsFault::ContentDigestMismatch)
            },
        },
        files::first(
            write_target_fault(worker, target, seen),
            files::first(
                if approved {
                    approved_target_fault(authorization, seen.state)
                } else {
                    None
                },
                files::first(
                    directory_fault(style, seen),
                    if seen.temp_exists || seen.journal_exists {
                        Some(FsFault::TransactionExists)
                    } else {
                        None
                    },
                ),
            ),
        ),
    )
}

/// A write under way.
#[derive(Debug)]
pub struct WriteTransaction {
    pub record: JournalRecord,
    pub target: PathText,
    pub temp: PathText,
    pub journal: PathText,
    pub backup: Option<PathText>,
    pub precondition: Option<TargetPrecondition>,
}

/// The write that an authorization comes down to.
pub open spec fn write_follows(
    style: PathStyle,
    write: WriteTransaction,
    worker: FsWorker,
    authorization: Authorization,
    content: Seq<u8>,
    approved: bool,
    target: PathText,
    seen: WriteObservation,
) -> bool {
    let id = transaction_of(authorization);
    &&& write.target@ == write_target(style, target@, seen)
    &&& write.temp@ == paths::joined(style, write_directory(seen)->0@, temp_name(id))
    &&& write.journal@ == paths::joined(style, worker.journal_dir@, id + ".json"@)
    &&& write.backup is Some == !(seen.state is Absent)
    &&& write.backup is Some ==> write.backup->0@ == paths::joined(
        style,
        worker.journal_dir@,
        id + ".bak"@,
    )
    &&& write.precondition is Some == approved
    &&& approved ==> write.precondition->0@ == target_precondition(authorization)->Ok_0
    &&& write.record.transaction_id@ == id
    &&& write.record.request_id@ == authorization.request.envelope.request_id@
    &&& write.record.target@ == write.target.text@
    &&& write.record.temp_path@ == write.temp.text@
    &&& write.record.backup_path is Some == write.backup is Some
    &&& write.backup is Some ==> write.record.backup_path->0@ == write.backup->0.text@
    &&& write.record.content_sha256@ == files::digest_text(content)
    &&& write.record.state == JournalState::Prepared
}

fn named(id: &Vec<char>, ending: &str) -> (r: String)
    ensures
        r@ == id@ + ending@,
{
    let mut chars: Vec<char> = Vec::new();
    text::push_all(&mut chars, id.as_slice());
    text::push_text(&mut chars, ending);
    proof {
        assert(chars@ =~= id@ + ending@);
    }
    text::string_of(chars.as_slice())
}

fn temp_file_name(id: &Vec<char>) -> (r: String)
    requires
        id@.len() >= 16,
    ensures
        r@ == temp_name(id@),
{
    let mut chars = text::chars_of(".vor-");
    let short = crate::passages::part(id.as_slice(), 0, 16);
    proof {
        assert(short@ =~= id@.take(16));
    }
    text::push_all(&mut chars, short.as_slice());
    text::push_text(&mut chars, ".tmp");
    text::string_of(chars.as_slice())
}

impl FsWorker {
    fn resolve_write_target(&self, style: PathStyle, target: &PathText, seen: &WriteObservation) -> (r:
        Result<PathText, FsError>)
        ensures
            r is Err == write_target_fault(*self, *target, *seen) is Some,
            r is Err ==> r->Err_0@ == write_target_fault(*self, *target, *seen)->0,
            r is Ok ==> r->Ok_0@ == write_target(style, target@, *seen),
    {
        if let Err(error) = files::ensure_followable(target, &seen.reparse) {
            return Err(error);
        }
        if let Some(found) = &seen.existing {
            match &found.is_file {
                Err(fault) => {
                    return Err(FsError::Io(*fault));
                },
                Ok(is_file) => {
                    if !*is_file {
                        return Err(FsError::UnsafePath);
                    }
                },
            }
            return match &found.canonical {
                Err(fault) => Err(FsError::Io(*fault)),
                Ok(path) => match self.ensure_allowed(path) {
                    Err(error) => Err(error),
                    Ok(()) => Ok(paths::copy_path(path)),
                },
            };
        }
        let parent = match &seen.parent {
            None => {
                return Err(FsError::UnsafePath);
            },
            Some(parent) => parent,
        };
        let name = match paths::file_name(target) {
            None => {
                return Err(FsError::UnsafePath);
            },
            Some(name) => name,
        };
        match parent {
            Err(fault) => Err(FsError::Io(*fault)),
            Ok(path) => match self.ensure_allowed(path) {
                Err(error) => Err(error),
                Ok(()) => Ok(paths::join_name(style, path, name.as_str())),
            },
        }
    }

    fn working_directory<'a>(
        &self,
        style: PathStyle,
        resolved: &PathText,
        seen: &'a WriteObservation,
    ) -> (r: Result<&'a PathText, FsError>)
        requires
            seen.existing is Some ==> resolved@ == seen.existing->0.canonical->Ok_0@,
            seen.existing is None ==> seen.parent is Some && seen.parent->0 is Ok,
        ensures
            r is Err == directory_fault(style, *seen) is Some,
            r is Err ==> r->Err_0@ == directory_fault(style, *seen)->0,
            r is Ok ==> Some(*r->Ok_0) == write_directory(*seen),
    {
        match &seen.existing {
            Some(found) => match &found.directory {
                None => Err(FsError::UnsafePath),
                Some(directory) => {
                    if paths::is_in(style, resolved, directory) {
                        Ok(directory)
                    } else {
                        Err(FsError::UnsafePath)
                    }
                },
            },
            None => match &seen.parent {
                Some(Ok(directory)) => Ok(directory),
                _ => Err(FsError::UnsafePath),
            },
        }
    }

    fn write_inner(
        &self,
        style: PathStyle,
        authorization: &Authorization,
        content: &[u8],
        require_target_precondition: bool,
        target: &PathText,
        seen: &WriteObservation,
    ) -> (r: Result<WriteTransaction, FsError>)
        requires
            target.text@ == authorization.request.envelope.target@,
        ensures
            ({
                let fault = write_fault(
                    style,
                    *self,
                    *authorization,
                    content@,
                    require_target_precondition,
                    *target,
                    *seen,
                );
                &&& r is Err == fault is Some
                &&& r is Err ==> r->Err_0@ == fault->0
                &&& r is Ok ==> write_follows(
                    style,
                    r->Ok_0,
                    *self,
                    *authorization,
                    content@,
                    require_target_precondition,
                    *target,
                    *seen,
                )
            }),
    {
        let expected = match required_content_digest(authorization) {
            Err(error) => {
                return Err(error);
            },
            Ok(expected) => expected,
        };
        let actual = files::sha256_hex(content);
        if !agree(expected.as_str(), actual.as_str()) {
            return Err(FsError::ContentDigestMismatch);
        }
        let resolved = match self.resolve_write_target(style, target, seen) {
            Err(error) => {
                return Err(error);
            },
            Ok(resolved) => resolved,
        };
        let precondition = if require_target_precondition {
            match required_target_precondition(authorization) {
                Err(error) => {
                    return Err(error);
                },
                Ok(precondition) => {
                    if let Err(error) = verify_target_precondition(&seen.state, &precondition) {
                        return Err(error);
                    }
                    Some(precondition)
                },
            }
        } else {
            None
        };
        let directory = match self.working_directory(style, &resolved, seen) {
            Err(error) => {
                return Err(error);
            },
            Ok(directory) => directory,
        };
        if seen.temp_exists || seen.journal_exists {
            return Err(FsError::TransactionExists);
        }
        let transaction_id = codec::to_hex(authorization.request.envelope_digest.as_slice());
        let id = text::chars_of(transaction_id.as_str());
        let temp = paths::join_name(style, directory, temp_file_name(&id).as_str());
        let journal = paths::join_name(style, &self.journal_dir, named(&id, ".json").as_str());
        let present = match &seen.state {
            TargetState::Absent => false,
            _ => true,
        };
        let backup = if present {
            Some(paths::join_name(style, &self.journal_dir, named(&id, ".bak").as_str()))
        } else {
            None
        };
        let backup_path = match &backup {
            Some(path) => Some(path.text.clone()),
            None => None,
        };
        let record = JournalRecord {
            transaction_id,
            request_id: authorization.request.envelope.request_id.clone(),
            target: resolved.text.clone(),
            temp_path: temp.text.clone(),
            backup_path,
            content_sha256: actual,
            state: JournalState::Prepared,
        };
        Ok(WriteTransaction { record, target: resolved, temp, journal, backup, precondition })
    }

    /// Begins a write that needs no approval.
    pub fn write(
        &self,
        style: PathStyle,
        authorization: &Authorization,
        content: &[u8],
        target: &PathText,
        seen: &WriteObservation,
    ) -> (r: Result<WriteTransaction, FsError>)
        ensures
            ({
                let fault = files::first(
                    files::auto_fault(*authorization, "filesystem.write"@, target.text@),
                    write_fault(style, *self, *authorization, content@, false, *target, *seen),
                );
                &&& r is Err == fault is Some
                &&& r is Err ==> r->Err_0@ == fault->0
                &&& r is Ok ==> write_follows(
                    style,
                    r->Ok_0,
                    *self,
                    *authorization,
                    content@,
                    false,
                    *target,
                    *seen,
                )
            }),
    {
        if let Err(error) = files::ensure_auto_action(
            authorization,
            "filesystem.write",
            target,
        ) {
            return Err(error);
        }
        self.write_inner(style, authorization, content, false, target, seen)
    }

    /// Begins a write that was approved.
    pub fn write_approved(
        &self,
        style: PathStyle,
        execution: &ExecutionAuthorization,
        content: &[u8],
        target: &PathText,
        seen: &WriteObservation,
    ) -> (r: Result<WriteTransaction, FsError>)
        ensures
            ({
                let authorization = execution.granted();
                let fault = files::first(
                    files::approval_fault(authorization, "filesystem.write"@, target.text@),
                    write_fault(style, *self, authorization, content@, true, *target, *seen),
                );
                &&& r is Err == fault is Some
                &&& r is Err ==> r->Err_0@ == fault->0
                &&& r is Ok ==> write_follows(
                    style,
                    r->Ok_0,
                    *self,
                    authorization,
                    content@,
                    true,
                    *target,
                    *seen,
                )
            }),
    {
        let authorization = execution.authorization();
        if let Err(error) = files::ensure_approval_action(
            authorization,
            "filesystem.write",
            target,
        ) {
            return Err(error);
        }
        self.write_inner(style, authorization, content, true, target, seen)
    }
}

// ---------------------------------------------------------------------------
// The steps of a write

/// What a write asks to be done next.
#[derive(Debug, PartialEq, Eq)]
pub enum WriteStep {
    /// Write the content to the temporary file, which must not be there.
    WriteTemp,
    /// See that the target is still what it must be.
    CheckTarget,
    /// Copy the target to the backup.
    CopyBackup,
    /// Write the record into the journal.
    Note,
    /// Put the temporary file in the place of the target.
    Replace,
    /// Write the record into the journal once more.
    NoteReplaced,
    /// Compare the target with the digest of the content.
    CheckContent,
    /// Write the record into the journal for the last time.
    NoteCommitted,
    /// Remove the temporary file, if that can be done.
    DropTemp(FsError),
}

/// A write goes on with a step, or is over.
#[derive(Debug, PartialEq, Eq)]
pub enum WriteTurn {
    Next(WriteStep),
    Done(Result<(), FsError>),
}

/// The step that follows the check of the target.
pub open spec fn after_check(has_backup: bool) -> WriteStep {
    if has_backup {
        WriteStep::CopyBackup
    } else {
        WriteStep::Note
    }
}

/// What follows a step, by how it went.
pub open spec fn write_turn(
    step: WriteStep,
    outcome: Result<(), FsError>,
    has_precondition: bool,
    has_backup: bool,
) -> WriteTurn {
    match step {
        WriteStep::DropTemp(error) => WriteTurn::Done(Err(error)),
        WriteStep::NoteCommitted => WriteTurn::Done(outcome),
        WriteStep::CheckTarget => match outcome {
            Ok(_) => WriteTurn::Next(after_check(has_backup)),
            Err(error) => WriteTurn::Next(WriteStep::DropTemp(error)),
        },
        _ => match outcome {
            Err(error) => WriteTurn::Done(Err(error)),
            Ok(_) => WriteTurn::Next(
                match step {
                    WriteStep::WriteTemp => if has_precondition {
                        WriteStep::CheckTarget
                    } else {
                        after_check(has_backup)
                    },
                    WriteStep::CopyBackup => WriteStep::Note,
                    WriteStep::Note => WriteStep::Replace,
                    WriteStep::Replace => WriteStep::NoteReplaced,
                    WriteStep::NoteReplaced => WriteStep::CheckContent,
                    _ => WriteStep::NoteCommitted,
                },
            ),
        },
    }
}

/// The state of the record after a step.
pub open spec fn write_state(
    state: JournalState,
    step: WriteStep,
    outcome: Result<(), FsError>,
) -> JournalState {
    if step is Replace && outcome is Ok {
        JournalState::Replaced
    } else if step is CheckContent && outcome is Ok {
        JournalState::Committed
    } else {
        state
    }
}

impl WriteTransaction {
    /// Goes on with a write after a step.
    pub fn next_turn(&mut self, step: WriteStep, outcome: Result<(), FsError>) -> (turn: WriteTurn)
        ensures
            turn == write_turn(
                step,
                outcome,
                old(self).precondition is Some,
                old(self).backup is Some,
            ),
            *final(self) == (WriteTransaction {
                record: JournalRecord {
                    state: write_state(old(self).record.state, step, outcome),
                    ..old(self).record
                },
                ..*old(self)
            }),
    {
        let has_backup = self.backup.is_some();
        match step {
            WriteStep::DropTemp(error) => WriteTurn::Done(Err(error)),
            WriteStep::NoteCommitted => WriteTurn::Done(outcome),
            WriteStep::CheckTarget => match outcome {
                Ok(_) => {
                    if has_backup {
                        WriteTurn::Next(WriteStep::CopyBackup)
                    } else {
                        WriteTurn::Next(WriteStep::Note)
                    }
                },
                Err(error) => WriteTurn::Next(WriteStep::DropTemp(error)),
            },
            WriteStep::WriteTemp => match outcome {
                Err(error) => WriteTurn::Done(Err(error)),
                Ok(_) => {
                    if self.precondition.is_some() {
                        WriteTurn::Next(WriteStep::CheckTarget)
                    } else if has_backup {
                        WriteTurn::Next(WriteStep::CopyBackup)
                    } else {
                        WriteTurn::Next(WriteStep::Note)
                    }
                },
            },
            WriteStep::CopyBackup => match outcome {
                Err(error) => WriteTurn::Done(Err(error)),
                Ok(_) => WriteTurn::Next(WriteStep::Note),
            },
            WriteStep::Note => match outcome {
                Err(error) => WriteTurn::Done(Err(error)),
                Ok(_) => WriteTurn::Next(WriteStep::Replace),
            },
            WriteStep::Replace => match outcome {
                Err(error) => WriteTurn::Done(Err(error)),
                Ok(_) => {
                    self.record.state = JournalState::Replaced;
                    WriteTurn::Next(WriteStep::NoteReplaced)
                },
            },
            WriteStep::NoteReplaced => match outcome {
                Err(error) => WriteTurn::Done(Err(error)),
                Ok(_) => WriteTurn::Next(WriteStep::CheckContent),
            },
            WriteStep::CheckContent => match outcome {
                Err(error) => WriteTurn::Done(Err(error)),
                Ok(_) => {
                    self.record.state = JournalState::Committed;
                    WriteTurn::Next(WriteStep::NoteCommitted)
                },
            },
        }
    }

    /// Is what the target holds what was to be written?
    pub fn check_content(&self, bytes: Result<Vec<u8>, IoFault>) -> (r: Result<(), FsError>)
        ensures
            r is Ok == (bytes is Ok && files::digest_text(bytes->Ok_0@)
                == self.record.content_sha256@),
            r is Err ==> r->Err_0@ == (match bytes {
                Err(fault) => FsFault::Io(fault),
                Ok(_) => FsFault::PostWriteVerificationFailed,
            }),
    {
        match bytes {
            Err(fault) => Err(FsError::Io(fault)),
            Ok(bytes) => {
                let actual = files::sha256_hex(bytes.as_slice());
                if text::same_text(actual.as_str(), self.record.content_sha256.as_str()) {
                    Ok(())
                } else {
                    Err(FsError::PostWriteVerificationFailed)
                }
            },
        }
    }

    /// What is handed out for a write that is over.
    pub fn receipt(self) -> (receipt: WriteReceipt)
        ensures
            receipt.target == self.target,
            receipt.backup_path == self.backup,
            receipt.journal_path == self.journal,
            receipt.content_sha256 == self.record.content_sha256,
    {
        WriteReceipt {
            target: self.target,
            backup_path: self.backup,
            journal_path: self.journal,
            content_sha256: self.record.content_sha256,
        }
    }
}

/// The records of writes that were begun and not committed.
pub open spec fn pending(records: Seq<JournalRecord>) -> Seq<JournalRecord> {
    records.filter(|r: JournalRecord| r.state != JournalState::Committed)
}

impl FsWorker {
    /// The writes that were begun and not committed.
    pub fn pending_transactions(&self, records: Vec<JournalRecord>) -> (r: Vec<JournalRecord>)
        ensures
            r@ == pending(records@),
    {
        let ghost all = records@;
        let ghost open = |r: JournalRecord| r.state != JournalState::Committed;
        let mut rest = records;
        let mut reversed: Vec<JournalRecord> = Vec::new();
        proof {
            assert(rest@ + reversed@.reverse() =~= all);
        }
        while rest.len() > 0
            invariant
                rest@ + reversed@.reverse() == all,
            decreases rest@.len(),
        {
            let ghost left = rest@;
            let ghost done = reversed@;
            match rest.pop() {
                None => {},
                Some(record) => {
                    reversed.push(record);
                    proof {
                        assert(reversed@.reverse() =~= seq![record] + done.reverse());
                        assert(left =~= rest@.push(record));
                        assert(rest@ + reversed@.reverse() =~= all);
                    }
                },
            }
        }
        let mut r: Vec<JournalRecord> = Vec::new();
        proof {
            assert(reversed@.reverse() =~= all);
            assert(all.take(0) =~= Seq::empty());
            reveal(Seq::filter);
            assert(r@ =~= all.take(0).filter(open));
        }
        let ghost mut i: int = 0;
        while reversed.len() > 0
            invariant
                0 <= i <= all.len(),
                reversed@.len() == all.len() - i,
                reversed@.reverse() == all.skip(i),
                open == (|r: JournalRecord| r.state != JournalState::Committed),
                r@ == all.take(i).filter(open),
            decreases reversed@.len(),
        {
            let ghost before = reversed@;
            match reversed.pop() {
                None => {},
                Some(record) => {
                    proof {
                        assert(before.reverse()[0] == record);
                        assert(record == all[i]);
                        assert(reversed@.reverse() =~= all.skip(i + 1)) by {
                            assert forall|k: int| 0 <= k < reversed@.len() implies reversed@.reverse()[k]
                                == all.skip(i + 1)[k] by {
                                assert(before.reverse()[k + 1] == reversed@.reverse()[k]);
                                assert(all.skip(i)[k + 1] == all.skip(i + 1)[k]);
                            }
                        }
                        reveal(Seq::filter);
                        assert(all.take(i + 1).drop_last() =~= all.take(i));
                        assert(all.take(i + 1).last() == record);
                        i = i + 1;
                    }
                    if record.state != JournalState::Committed {
                        r.push(record);
                    }
                },
            }
        }
        proof {
            assert(all.take(i) =~= all);
        }
        r
    }
}

// ---------------------------------------------------------------------------
// Laws

/// What the three files of a write hold, where they are there, and how far the
/// journal says that it came.
#[verifier::ext_equal]
pub struct Disk {
    pub target: Option<Seq<u8>>,
    pub temp: Option<Seq<u8>>,
    pub backup: Option<Seq<u8>>,
    pub noted: Option<JournalState>,
}

/// What a step does to the files, where the record of the write is in a state.
pub open spec fn write_effect(
    step: WriteStep,
    outcome: Result<(), FsError>,
    state: JournalState,
    before: Disk,
    after: Disk,
    content: Seq<u8>,
) -> bool {
    match step {
        WriteStep::WriteTemp => after == (Disk { temp: after.temp, ..before }) && (outcome is Ok
            ==> after.temp == Some(content)),
        WriteStep::CopyBackup => after == (Disk { backup: after.backup, ..before }) && (
        outcome is Ok ==> before.target is Some && after.backup == before.target),
        WriteStep::Replace => if outcome is Ok {
            after == (Disk { target: before.temp, temp: None, ..before })
        } else {
            after == (Disk { target: after.target, ..before })
        },
        WriteStep::CheckContent => after == before && (outcome is Ok ==> before.target is Some
            && files::digest_text(before.target->0) == files::digest_text(content)),
        WriteStep::DropTemp(_) => if outcome is Ok {
            after == (Disk { temp: None, ..before })
        } else {
            after == before
        },
        WriteStep::CheckTarget => after == before,
        WriteStep::Note | WriteStep::NoteReplaced | WriteStep::NoteCommitted => after == (Disk {
            noted: after.noted,
            ..before
        }) && (outcome is Ok ==> after.noted == Some(state)),
    }
}

/// A step that was taken, with the state of the record before it and the files
/// before and after it.
pub struct WriteMoment {
    pub step: WriteStep,
    pub outcome: Result<(), FsError>,
    pub state: JournalState,
    pub before: Disk,
    pub after: Disk,
}

/// A write from its first step to its end.
pub open spec fn is_write(
    run: Seq<WriteMoment>,
    outcome: Result<(), FsError>,
    has_precondition: bool,
    has_backup: bool,
    content: Seq<u8>,
) -> bool {
    &&& run.len() > 0
    &&& run[0].step == WriteStep::WriteTemp
    &&& run[0].state == JournalState::Prepared
    &&& forall|i: int| #![trigger run[i]]
        0 <= i < run.len() ==> write_effect(
            run[i].step,
            run[i].outcome,
            run[i].state,
            run[i].before,
            run[i].after,
            content,
        )
    &&& forall|i: int, j: int| #![trigger run[i], run[j]]
        0 <= i && j == i + 1 && j < run.len() ==> run[j].before == run[i].after && run[j].state
            == write_state(run[i].state, run[i].step, run[i].outcome) && write_turn(
            run[i].step,
            run[i].outcome,
            has_precondition,
            has_backup,
        ) == WriteTurn::Next(run[j].step)
    &&& write_turn(run.last().step, run.last().outcome, has_precondition, has_backup)
        == WriteTurn::Done(outcome)
}

/// What holds before a step of a write that began with a target.
spec fn write_stage(
    step: WriteStep,
    state: JournalState,
    disk: Disk,
    target: Option<Seq<u8>>,
    has_backup: bool,
    content: Seq<u8>,
) -> bool {
    match step {
        WriteStep::WriteTemp => disk.target == target,
        WriteStep::CheckTarget => disk.target == target && disk.temp == Some(content),
        WriteStep::CopyBackup => disk.target == target && disk.temp == Some(content),
        WriteStep::Note => disk.target == target && disk.temp == Some(content) && (has_backup
            ==> disk.backup == target),
        WriteStep::Replace => disk.target == target && disk.temp == Some(content) && (has_backup
            ==> disk.backup == target) && disk.noted is Some,
        WriteStep::NoteReplaced => disk.target == Some(content) && disk.temp is None && (has_backup
            ==> disk.backup == target) && disk.noted is Some,
        WriteStep::CheckContent => disk.target == Some(content) && disk.temp is None && (has_backup
            ==> disk.backup == target) && disk.noted is Some,
        WriteStep::NoteCommitted => disk.target == Some(content) && disk.temp is None && (has_backup
            ==> disk.backup == target) && disk.noted is Some && state == JournalState::Committed,
        WriteStep::DropTemp(_) => disk.target == target,
    }
}

proof fn lemma_write_stage(
    run: Seq<WriteMoment>,
    outcome: Result<(), FsError>,
    has_precondition: bool,
    has_backup: bool,
    content: Seq<u8>,
    i: int,
)
    requires
        is_write(run, outcome, has_precondition, has_backup, content),
        0 <= i < run.len(),
    ensures
        write_stage(
            run[i].step,
            run[i].state,
            run[i].before,
            run[0].before.target,
            has_backup,
            content,
        ),
    decreases i,
{
    if i > 0 {
        let k = i - 1;
        lemma_write_stage(run, outcome, has_precondition, has_backup, content, k);
        assert(run[i].before == run[k].after);
    }
}

/// A write that succeeds leaves the content in the target, what was there before in
/// the backup, and no temporary file. One of which no step fails succeeds. However a write with a backup ends, what was there before
/// is in the target still or in the backup. One that ends before the target is
/// replaced leaves it as it was.
pub proof fn writes_keep_what_they_replace(
    run: Seq<WriteMoment>,
    outcome: Result<(), FsError>,
    has_precondition: bool,
    has_backup: bool,
    content: Seq<u8>,
)
    requires
        is_write(run, outcome, has_precondition, has_backup, content),
    ensures
        outcome is Ok ==> run.last().after.target == Some(content),
        outcome is Ok ==> run.last().after.temp is None,
        (forall|i: int| 0 <= i < run.len() ==> (#[trigger] run[i]).outcome is Ok) ==> outcome is Ok,
        outcome is Ok && has_backup ==> run.last().after.backup == run[0].before.target,
        has_backup ==> run.last().after.target == run[0].before.target || run.last().after.backup
            == run[0].before.target,
        run.last().step is WriteTemp || run.last().step is DropTemp || run.last().step is CopyBackup
            || run.last().step is Note ==> run.last().after.target == run[0].before.target,
{
    let n = run.len() - 1;
    lemma_write_stage(run, outcome, has_precondition, has_backup, content, n);
    assert(run[n] == run.last());
    if n > 0 {
        assert(run[n - 1].outcome is Ok ==> !(run[n].step is DropTemp));
    }
}

/// A write that succeeded is pending no longer, whatever else the journal holds.
pub proof fn completed_writes_are_not_pending(
    run: Seq<WriteMoment>,
    outcome: Result<(), FsError>,
    has_precondition: bool,
    has_backup: bool,
    content: Seq<u8>,
    transaction_id: Seq<char>,
    records: Seq<JournalRecord>,
)
    requires
        is_write(run, outcome, has_precondition, has_backup, content),
        outcome is Ok,
        forall|i: int|
            0 <= i < records.len() && (#[trigger] records[i]).transaction_id@ == transaction_id
                ==> run.last().after.noted == Some(records[i].state),
    ensures
        run.last().after.noted == Some(JournalState::Committed),
        forall|i: int|
            0 <= i < pending(records).len() ==> (#[trigger] pending(records)[i]).transaction_id@
                != transaction_id,
{
    let n = run.len() - 1;
    lemma_write_stage(run, outcome, has_precondition, has_backup, content, n);
    assert(run[n] == run.last());
    let open = |r: JournalRecord| r.state != JournalState::Committed;
    assert forall|i: int| 0 <= i < pending(records).len() implies (#[trigger] pending(
        records,
    )[i]).transaction_id@ != transaction_id by {
        records.lemma_filter_pred(open, i);
        records.lemma_filter_contains_rev(open, pending(records)[i]);
    }
}

/// What a target holds, by what was found there.
pub open spec fn held(state: TargetState) -> Option<Seq<u8>> {
    match state {
        TargetState::Bytes(bytes) => Some(bytes@),
        _ => None,
    }
}

/// A run of a write over the target that was seen, which `records` tell of. A note
/// that could not be made leaves the earlier one.
pub open spec fn is_run(
    write: WriteTransaction,
    seen: WriteObservation,
    content: Seq<u8>,
    run: Seq<WriteMoment>,
    outcome: Result<(), FsError>,
    records: Seq<JournalRecord>,
) -> bool {
    &&& is_write(run, outcome, write.precondition is Some, write.backup is Some, content)
    &&& run[0].before.target == held(seen.state)
    &&& forall|i: int|
        0 <= i < run.len() && (#[trigger] run[i]).outcome is Err && (run[i].step is NoteReplaced
            || run[i].step is NoteCommitted) ==> run[i].after.noted == run[i].before.noted
    &&& forall|i: int|
        0 <= i < records.len() && (#[trigger] records[i]).transaction_id@
            == write.record.transaction_id@ ==> run.last().after.noted == Some(records[i].state)
}

/// A write from its request to its end. Where its target may be written and nothing
/// of it is there yet, it is refused before its first step if the content does not
/// have the digest that was given, or if the target is not what it must be, and
/// begins otherwise. One that begins, and of which no step fails, succeeds. One that
/// succeeds leaves the content in the target, what was there before in the backup, if
/// there was anything, no temporary file, and is pending no longer. One that fails
/// leaves the target as it was, or a journal by which it can be put back: the write
/// is noted, and what was there before is in the backup.
pub proof fn writes_are_whole_or_can_be_taken_back(
    style: PathStyle,
    worker: FsWorker,
    authorization: Authorization,
    content: Seq<u8>,
    approved: bool,
    target: PathText,
    seen: WriteObservation,
    write: WriteTransaction,
    run: Seq<WriteMoment>,
    outcome: Result<(), FsError>,
    records: Seq<JournalRecord>,
)
    requires
        content_digest(authorization) is Ok,
        approved ==> target_precondition(authorization) is Ok,
        write_target_fault(worker, target, seen) is None,
        directory_fault(style, seen) is None,
        !(seen.state is Unreadable),
        !seen.temp_exists && !seen.journal_exists,
    ensures
        ({
            let fault = write_fault(style, worker, authorization, content, approved, target, seen);
            let digest_fits = text::ascii_lower(content_digest(authorization)->Ok_0)
                == text::ascii_lower(files::digest_text(content));
            let target_fits = !approved || precondition_fault(
                seen.state,
                target_precondition(authorization)->Ok_0,
            ) is None;
            &&& !digest_fits ==> fault == Some(FsFault::ContentDigestMismatch)
            &&& digest_fits && !target_fits ==> fault == Some(FsFault::TargetPreconditionFailed)
            &&& digest_fits && target_fits ==> fault is None
        }),
        write_follows(style, write, worker, authorization, content, approved, target, seen)
            && is_run(write, seen, content, run, outcome, records) ==> {
            let end = run.last().after;
            &&& (forall|i: int| 0 <= i < run.len() ==> (#[trigger] run[i]).outcome is Ok)
                ==> outcome is Ok
            &&& write.backup is Some == held(seen.state) is Some
            &&& outcome is Ok ==> {
                &&& end.target == Some(content)
                &&& write.backup is Some ==> end.backup == held(seen.state)
                &&& end.temp is None
                &&& end.noted == Some(JournalState::Committed)
                &&& forall|i: int|
                    0 <= i < pending(records).len() ==> (#[trigger] pending(
                        records,
                    )[i]).transaction_id@ != write.record.transaction_id@
            }
            &&& outcome is Err ==> end.target == held(seen.state) || (end.noted is Some && (
            write.backup is Some ==> end.backup == held(seen.state)))
        },
{
    if write_follows(style, write, worker, authorization, content, approved, target, seen)
        && is_run(write, seen, content, run, outcome, records) {
        let has_precondition = write.precondition is Some;
        let has_backup = write.backup is Some;
        let n = run.len() - 1;
        lemma_write_stage(run, outcome, has_precondition, has_backup, content, n);
        assert(run[n] == run.last());
        writes_keep_what_they_replace(run, outcome, has_precondition, has_backup, content);
        if outcome is Ok {
            completed_writes_are_not_pending(
                run,
                outcome,
                has_precondition,
                has_backup,
                content,
                write.record.transaction_id@,
                records,
            );
        }
    }
}

/// An approved write whose target is not what the request says does not begin.
pub proof fn changed_targets_are_not_overwritten(
    style: PathStyle,
    worker: FsWorker,
    authorization: Authorization,
    content: Seq<u8>,
    target: PathText,
    seen: WriteObservation,
)
    requires
        approved_target_fault(authorization, seen.state) is Some,
    ensures
        write_fault(style, worker, authorization, content, true, target, seen) is Some,
{
}

/// No write begins with content other than that which the request gives the
/// digest of.
pub proof fn only_the_given_content_is_written(
    style: PathStyle,
    worker: FsWorker,
    authorization: Authorization,
    content: Seq<u8>,
    approved: bool,
    target: PathText,
    seen: WriteObservation,
)
    requires
        write_fault(style, worker, authorization, content, approved, target, seen) is None,
    ensures
        content_digest(authorization) is Ok,
        text::ascii_lower(content_digest(authorization)->Ok_0) == text::ascii_lower(
            files::digest_text(content),
        ),
{
}

/// No write begins at a target other than that of the request: it goes to what was
/// found there, or to the name that the target ends with in the directory before
/// it, and only below a root; the temporary file is beside it.
pub proof fn only_the_authorized_target_is_written(
    style: PathStyle,
    write: WriteTransaction,
    worker: FsWorker,
    authorization: Authorization,
    content: Seq<u8>,
    approved: bool,
    target: PathText,
    seen: WriteObservation,
)
    requires
        if approved {
            files::approval_fault(authorization, "filesystem.write"@, target.text@) is None
        } else {
            files::auto_fault(authorization, "filesystem.write"@, target.text@) is None
        },
        write_fault(style, worker, authorization, content, approved, target, seen) is None,
        write_follows(style, write, worker, authorization, content, approved, target, seen),
    ensures
        target.text@ == authorization.request.envelope.target@,
        authorization.request.envelope.action@ == "filesystem.write"@,
        match seen.existing {
            Some(found) => write.target@ == found.canonical->Ok_0@ && paths::below_some(
                found.canonical->Ok_0,
                worker.allowed_roots@,
            ),
            None => paths::last_name(target@) is Some && write.target@ == paths::joined(
                style,
                seen.parent->0->Ok_0@,
                paths::last_name(target@)->0,
            ) && paths::below_some(seen.parent->0->Ok_0, worker.allowed_roots@),
        },
        seen.existing is Some ==> paths::lies_in(
            style,
            write.target@,
            write_directory(seen)->0@,
        ),
        write.temp@ == paths::joined(
            style,
            write_directory(seen)->0@,
            temp_name(transaction_of(authorization)),
        ),
{
}

/// A digest that a request gives is one exactly when it is 64 digits and letters up to f;
/// it is taken in small letters. Of the target it may also say that there is none.
pub proof fn digests_are_taken_as_they_are_given(authorization: Authorization)
    ensures
        ({
            let p = authorization.request.envelope.parameters@;
            let given = protocol::text_parameter(p, "content_sha256"@);
            let r = content_digest(authorization);
            &&& given is None ==> r == Err::<Seq<char>, FsFault>(FsFault::MissingContentDigest)
            &&& given is Some && !hexadecimal(given->0) ==> r == Err::<Seq<char>, FsFault>(
                FsFault::InvalidContentDigest,
            )
            &&& given is Some && hexadecimal(given->0) ==> r == Ok::<Seq<char>, FsFault>(
                text::ascii_lower(given->0),
            )
        }),
        ({
            let p = authorization.request.envelope.parameters@;
            let given = protocol::text_parameter(p, "expected_target_sha256"@);
            let r = target_precondition(authorization);
            &&& given is None ==> r == Err::<PreconditionModel, FsFault>(
                FsFault::MissingTargetPrecondition,
            )
            &&& r == Ok::<PreconditionModel, FsFault>(PreconditionModel::Absent) <==> given is Some
                && text::ascii_lower(given->0) == "absent"@
            &&& given is Some && hexadecimal(given->0) ==> r == Ok::<PreconditionModel, FsFault>(
                PreconditionModel::Sha256(text::ascii_lower(given->0)),
            )
            &&& given is Some && !hexadecimal(given->0) && text::ascii_lower(given->0)
                != "absent"@ ==> r == Err::<PreconditionModel, FsFault>(
                FsFault::InvalidTargetPrecondition,
            )
        }),
{
    reveal_strlit("absent");
    assert("absent"@.len() == 6);
    let p = authorization.request.envelope.parameters@;
    lemma_hexadecimal(protocol::text_parameter(p, "content_sha256"@)->0);
    let given = protocol::text_parameter(p, "expected_target_sha256"@)->0;
    lemma_hexadecimal(given);
    assert(text::ascii_lower(given).len() == given.len());
}

/// Sixty-four digits, or letters from a to f, large or small.
pub open spec fn hexadecimal(value: Seq<char>) -> bool {
    value.len() == 64 && forall|i: int|
        0 <= i < value.len() ==> ('0' <= #[trigger] value[i] <= '9' || 'a' <= value[i] <= 'f'
            || 'A' <= value[i] <= 'F')
}

proof fn lemma_hexadecimal(value: Seq<char>)
    ensures
        hexadecimal(value) == is_digest(value),
{
    if is_digest(value) {
        assert forall|i: int| 0 <= i < value.len() implies ('0' <= #[trigger] value[i] <= '9'
            || 'a' <= value[i] <= 'f' || 'A' <= value[i] <= 'F') by {}
    }
    if hexadecimal(value) {
        assert(codec::is_hex(value));
    }
}

/// A target is what it must be exactly when it must be absent and is, or when its bytes
/// have the digest that it must have, in letters of either case.
pub proof fn targets_are_compared_by_digest(state: TargetState, expected: Seq<char>)
    ensures
        precondition_fault(state, PreconditionModel::Absent) is None <==> state is Absent,
        precondition_fault(state, PreconditionModel::Sha256(expected)) is None <==> state is Bytes
            && text::ascii_lower(codec::hex_text(crypto::sha256_of(state->Bytes_0@)))
            == text::ascii_lower(expected),
        state is Unreadable ==> precondition_fault(state, PreconditionModel::Sha256(expected))
            == Some(FsFault::Io(state->Unreadable_0)),
        state is Absent || state is Bytes ==> precondition_fault(
            state,
            PreconditionModel::Sha256(expected),
        ) is None || precondition_fault(state, PreconditionModel::Sha256(expected)) == Some(
            FsFault::TargetPreconditionFailed,
        ),
{
}

/// A write begins exactly when the content is the one that was asked for, the path may be
/// tried and leads to a file, or to a name in a directory, below an allowed root, the
/// target is what an approval says it is, the directory of the target is known, and no
/// write of the same request is under way.
pub proof fn writes_begin_exactly_when_they_may(
    style: PathStyle,
    worker: FsWorker,
    authorization: Authorization,
    content: Seq<u8>,
    approved: bool,
    target: PathText,
    seen: WriteObservation,
)
    ensures
        write_fault(style, worker, authorization, content, approved, target, seen) is None == {
            &&& content_digest(authorization) matches Ok(digest) && text::ascii_lower(digest)
                == text::ascii_lower(codec::hex_text(crypto::sha256_of(content)))
            &&& target.absolute
            &&& forall|i: int|
                0 <= i < target@.parts.len() ==> !((#[trigger] target@.parts[i]) is ParentDir)
            &&& seen.reparse == Ok::<Option<String>, IoFault>(None)
            &&& seen.existing is Some ==> {
                let found = seen.existing->0;
                &&& found.is_file == Ok::<bool, IoFault>(true)
                &&& found.canonical is Ok
                &&& below_an_allowed_root(worker, found.canonical->Ok_0)
                &&& found.directory is Some
                &&& paths::lies_in(style, found.canonical->Ok_0@, found.directory->0@)
            }
            &&& seen.existing is None ==> {
                &&& seen.parent matches Some(Ok(parent)) && below_an_allowed_root(worker, parent)
                &&& paths::last_name(target@) is Some
            }
            &&& approved ==> (target_precondition(authorization) matches Ok(precondition)
                && precondition_fault(seen.state, precondition) is None)
            &&& !seen.temp_exists
            &&& !seen.journal_exists
        },
{
}

/// The path lies below one of the roots that the worker may touch.
pub open spec fn below_an_allowed_root(worker: FsWorker, path: PathText) -> bool {
    exists|i: int|
        0 <= i < worker.allowed_roots@.len() && paths::folded_within(
            path.text@,
            (#[trigger] worker.allowed_roots@[i]).text@,
        )
}

/// A write goes to what was found, or to the last name of the path in the directory that
/// was found; its new content waits beside it under a name of the request's digest, and
/// the journal and what was there before are kept under that digest. What was there is
/// kept exactly when something was.
pub proof fn writes_have_their_places(
    style: PathStyle,
    write: WriteTransaction,
    worker: FsWorker,
    authorization: Authorization,
    content: Seq<u8>,
    approved: bool,
    target: PathText,
    seen: WriteObservation,
)
    requires
        write_follows(style, write, worker, authorization, content, approved, target, seen),
    ensures
        ({
            let digest = codec::hex_text(authorization.request.envelope_digest@);
            &&& seen.existing matches Some(found) ==> write.target@ == found.canonical->Ok_0@
                && write.temp@ == paths::joined(
                style,
                found.directory->0@,
                ".vor-"@ + digest.subrange(0, 16) + ".tmp"@,
            )
            &&& seen.existing is None ==> write.target@ == paths::joined(
                style,
                seen.parent->0->Ok_0@,
                paths::last_name(target@)->0,
            ) && write.temp@ == paths::joined(
                style,
                seen.parent->0->Ok_0@,
                ".vor-"@ + digest.subrange(0, 16) + ".tmp"@,
            )
            &&& write.journal@ == paths::joined(style, worker.journal_dir@, digest + ".json"@)
            &&& write.backup is None <==> seen.state is Absent
            &&& write.backup matches Some(backup) ==> backup@ == paths::joined(
                style,
                worker.journal_dir@,
                digest + ".bak"@,
            )
            &&& write.record.transaction_id@ == digest
            &&& write.record.request_id@ == authorization.request.envelope.request_id@
            &&& write.record.target@ == write.target.text@
            &&& write.record.temp_path@ == write.temp.text@
            &&& write.record.content_sha256@ == codec::hex_text(crypto::sha256_of(content))
            &&& write.record.state is Prepared
            &&& write.precondition is Some <==> approved
            &&& approved ==> write.precondition->0@ == target_precondition(authorization)->Ok_0
            &&& write.record.backup_path is Some <==> write.backup is Some
            &&& write.backup matches Some(backup) ==> write.record.backup_path->0@ == backup.text@
        }),
{
    let digest = codec::hex_text(authorization.request.envelope_digest@);
    assert(digest.take(16) =~= digest.subrange(0, 16));
}

/// A write whose steps all go well takes them in this order: the new content, the look at
/// the target where one is owed, the copy where something was there, the journal, the
/// replacement, the journal, the look at the content, the journal.
pub proof fn writes_take_their_steps_in_order(
    has_precondition: bool,
    has_backup: bool,
    well: Result<(), FsError>,
)
    requires
        well is Ok,
    ensures
        ({
            let next = |step: WriteStep| write_turn(step, well, has_precondition, has_backup);
            &&& has_precondition ==> next(WriteStep::WriteTemp) == WriteTurn::Next(
                WriteStep::CheckTarget,
            )
            &&& !has_precondition && has_backup ==> next(WriteStep::WriteTemp) == WriteTurn::Next(
                WriteStep::CopyBackup,
            )
            &&& !has_precondition && !has_backup ==> next(WriteStep::WriteTemp) == WriteTurn::Next(
                WriteStep::Note,
            )
            &&& has_backup ==> next(WriteStep::CheckTarget) == WriteTurn::Next(
                WriteStep::CopyBackup,
            )
            &&& !has_backup ==> next(WriteStep::CheckTarget) == WriteTurn::Next(WriteStep::Note)
            &&& next(WriteStep::CopyBackup) == WriteTurn::Next(WriteStep::Note)
            &&& next(WriteStep::Note) == WriteTurn::Next(WriteStep::Replace)
            &&& next(WriteStep::Replace) == WriteTurn::Next(WriteStep::NoteReplaced)
            &&& next(WriteStep::NoteReplaced) == WriteTurn::Next(WriteStep::CheckContent)
            &&& next(WriteStep::CheckContent) == WriteTurn::Next(WriteStep::NoteCommitted)
            &&& next(WriteStep::NoteCommitted) == WriteTurn::Done(well)
        }),
{
}

/// A step that fails ends the write with its error, but for the look at the target, after
/// which the new content is taken away first. The record is moved on by the replacement and
/// by the look at the content alone, and only where they go well.
pub proof fn failed_steps_end_the_write(
    step: WriteStep,
    error: FsError,
    state: JournalState,
    has_precondition: bool,
    has_backup: bool,
)
    ensures
        ({
            let turn = write_turn(
                step,
                Err::<(), FsError>(error),
                has_precondition,
                has_backup,
            );
            &&& step is CheckTarget ==> turn == WriteTurn::Next(WriteStep::DropTemp(error))
            &&& step matches WriteStep::DropTemp(first) ==> turn == WriteTurn::Done(
                Err::<(), FsError>(first),
            )
            &&& !(step is CheckTarget) && !(step is DropTemp) ==> turn == WriteTurn::Done(
                Err::<(), FsError>(error),
            )
        }),
        write_state(state, step, Err::<(), FsError>(error)) == state,
        write_state(state, step, Ok::<(), FsError>(())) == (if step is Replace {
            JournalState::Replaced
        } else if step is CheckContent {
            JournalState::Committed
        } else {
            state
        }),
{
}

/// Writes are pending exactly until they are committed, each as often as it is recorded.
pub proof fn writes_are_pending_until_committed(records: Seq<JournalRecord>)
    ensures
        pending(records) == records.filter(
            |r: JournalRecord| r.state is Prepared || r.state is Replaced,
        ),
{
    let a = |r: JournalRecord| r.state != JournalState::Committed;
    let b = |r: JournalRecord| r.state is Prepared || r.state is Replaced;
    assert(a =~= b);
}

} // verus!
