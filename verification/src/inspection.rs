//! What the files of an update say about how far it got.

use vstd::prelude::*;

use crate::codec;
use crate::maintenance;
use crate::maintenance::{
    Anchor, JournalEntry, JournalState, MaintenanceError,
    MaintenanceFault, MaintenanceInspection, MaintenanceObservedState, UpdatePlan,
    MAX_JOURNAL_BYTES, MAX_JOURNAL_ENTRIES, MAX_RESULT_BYTES,
};
use crate::paths;
use crate::paths::{Canonical, FileKind, IoFault, PathModel, PathStyle, PathText};
use crate::text;

verus! {

/// A file that is there, and what reading it gave.
#[derive(Debug)]
pub struct FoundFile {
    pub path: PathText,
    pub kind: FileKind,
    pub bytes: Result<Vec<u8>, IoFault>,
}

/// A journal: its size, and its lines that are not blank, each as an entry
/// where it is one.
#[derive(Debug)]
pub struct FoundJournal {
    pub is_file: bool,
    pub len: u64,
    pub lines: Result<Vec<Option<JournalEntry>>, IoFault>,
}

/// What a result file holds.
#[derive(Debug)]
pub enum ResultContent {
    Unreadable(IoFault),
    Malformed,
    WithoutStatus,
    Status(String),
}

#[derive(Debug)]
pub struct FoundResult {
    pub path: PathText,
    pub is_file: bool,
    pub len: u64,
    pub bytes: Result<Vec<u8>, IoFault>,
}

/// What was found where a plan to inspect points.
#[derive(Debug)]
pub struct InspectionObservation {
    pub root: Result<Canonical, IoFault>,
    pub target_parent: Option<Result<PathText, IoFault>>,
    pub target_name: Option<String>,
    pub staged: Option<Result<PathText, IoFault>>,
    pub target_anchor: Anchor,
    pub staged_anchor: Anchor,
    pub journal_directory: Anchor,
    pub result_file: Anchor,
    pub stdout_log: Anchor,
    pub stderr_log: Anchor,
    pub working_directory: Result<PathText, IoFault>,
    pub backup_anchor: Anchor,
    pub temp_anchor: Anchor,
    pub journal_anchor: Anchor,
    pub target_file: Option<Result<FoundFile, IoFault>>,
    pub staged_file: Option<Result<FoundFile, IoFault>>,
    pub backup_file: Option<Result<FoundFile, IoFault>>,
    pub temp_file: Option<Result<FoundFile, IoFault>>,
    pub journal: Option<Result<FoundJournal, IoFault>>,
    pub journal_exists: bool,
    pub result: Option<Result<FoundResult, IoFault>>,
}

// ---------------------------------------------------------------------------
// Digests of files that may be there

pub open spec fn found_fault(
    style: PathStyle,
    found: Option<Result<FoundFile, IoFault>>,
    root: PathModel,
) -> Option<MaintenanceFault> {
    match found {
        None => None,
        Some(Err(fault)) => Some(MaintenanceFault::Io(fault)),
        Some(Ok(file)) => if !paths::is_within(style, file.path@, root) {
            Some(MaintenanceFault::OutsideAllowedRoot)
        } else if file.kind != FileKind::File {
            Some(MaintenanceFault::ExpectedFile)
        } else {
            match file.bytes {
                Err(fault) => Some(MaintenanceFault::Io(fault)),
                Ok(_) => None,
            }
        },
    }
}

/// The digest of a file, if it is there.
pub open spec fn found_digest(found: Option<Result<FoundFile, IoFault>>) -> Option<Seq<char>> {
    match found {
        Some(Ok(file)) => Some(maintenance::digest_text(file.bytes->Ok_0@)),
        _ => None,
    }
}

pub open spec fn text_model(t: Option<String>) -> Option<Seq<char>> {
    match t {
        Some(t) => Some(t@),
        None => None,
    }
}

fn optional_file_sha256(
    style: PathStyle,
    found: &Option<Result<FoundFile, IoFault>>,
    root: &PathText,
) -> (r: Result<Option<String>, MaintenanceError>)
    ensures
        r is Err == found_fault(style, *found, root@) is Some,
        r is Err ==> r->Err_0@ == found_fault(style, *found, root@)->0,
        r is Ok ==> text_model(r->Ok_0) == found_digest(*found),
{
    match found {
        None => Ok(None),
        Some(Err(fault)) => Err(MaintenanceError::Io(*fault)),
        Some(Ok(file)) => {
            if let Err(error) = maintenance::ensure_within(style, &file.path, root) {
                return Err(error);
            }
            if file.kind != FileKind::File {
                return Err(MaintenanceError::ExpectedFile);
            }
            match &file.bytes {
                Err(fault) => Err(MaintenanceError::Io(*fault)),
                Ok(bytes) => Ok(Some(maintenance::sha256_file(bytes.as_slice()))),
            }
        },
    }
}

// ---------------------------------------------------------------------------
// The journal

/// The files that an update moves, by their paths.
pub struct UpdateFiles {
    pub target: PathModel,
    pub staged: PathModel,
    pub backup: PathModel,
    pub temp: PathModel,
}

pub open spec fn same_digest(a: Seq<char>, b: Seq<char>) -> bool {
    text::ascii_lower(a) == text::ascii_lower(b)
}

/// The entry is about this update.
pub open spec fn entry_fits(
    style: PathStyle,
    entry: JournalEntry,
    plan: UpdatePlan,
    files: UpdateFiles,
) -> bool {
    &&& entry.request_id@ == plan.request_id@
    &&& paths::is_same(style, entry.target_executable@, files.target)
    &&& paths::is_same(style, entry.staged_executable@, files.staged)
    &&& paths::is_same(style, entry.backup_executable@, files.backup)
    &&& paths::is_same(style, entry.temp_executable@, files.temp)
    &&& same_digest(entry.expected_current_sha256@, plan.expected_current_sha256@)
    &&& same_digest(entry.expected_staged_sha256@, plan.expected_staged_sha256@)
}

/// What is wrong with the first line that is wrong, if one is.
pub open spec fn lines_fault(
    style: PathStyle,
    lines: Seq<Option<JournalEntry>>,
    plan: UpdatePlan,
    files: UpdateFiles,
) -> Option<MaintenanceFault>
    decreases lines.len(),
{
    if lines.len() == 0 {
        None
    } else {
        let before = lines_fault(style, lines.drop_last(), plan, files);
        if before is Some {
            before
        } else if lines.len() > MAX_JOURNAL_ENTRIES {
            Some(MaintenanceFault::JournalInvalid)
        } else {
            match lines.last() {
                None => Some(MaintenanceFault::Json),
                Some(entry) => if entry_fits(style, entry, plan, files) {
                    None
                } else {
                    Some(MaintenanceFault::JournalInvalid)
                },
            }
        }
    }
}

pub open spec fn journal_fault(
    style: PathStyle,
    journal: Option<Result<FoundJournal, IoFault>>,
    plan: UpdatePlan,
    files: UpdateFiles,
) -> Option<MaintenanceFault> {
    match journal {
        None => None,
        Some(Err(fault)) => Some(MaintenanceFault::Io(fault)),
        Some(Ok(found)) => if !found.is_file || found.len == 0 || found.len > MAX_JOURNAL_BYTES {
            Some(MaintenanceFault::JournalInvalid)
        } else {
            match found.lines {
                Err(fault) => Some(MaintenanceFault::Io(fault)),
                Ok(lines) => maintenance::first(
                    lines_fault(style, lines@, plan, files),
                    if lines@.len() == 0 {
                        Some(MaintenanceFault::JournalInvalid)
                    } else {
                        None
                    },
                ),
            }
        },
    }
}

/// The state that the last line of the journal gives.
pub open spec fn journal_end(journal: Option<Result<FoundJournal, IoFault>>) -> Option<JournalState> {
    match journal {
        Some(Ok(found)) => Some(found.lines->Ok_0@.last()->0.state),
        _ => None,
    }
}

proof fn lemma_lines_prefix(
    style: PathStyle,
    lines: Seq<Option<JournalEntry>>,
    plan: UpdatePlan,
    files: UpdateFiles,
    i: int,
)
    requires
        0 <= i <= lines.len(),
        lines_fault(style, lines.take(i), plan, files) is Some,
    ensures
        lines_fault(style, lines, plan, files) == lines_fault(style, lines.take(i), plan, files),
    decreases lines.len() - i,
{
    if i < lines.len() {
        assert(lines.take(i + 1).drop_last() =~= lines.take(i));
        lemma_lines_prefix(style, lines, plan, files, i + 1);
    } else {
        assert(lines.take(i) =~= lines);
    }
}

fn digests_agree(a: &str, b: &str) -> (r: bool)
    ensures
        r == same_digest(a@, b@),
{
    let x = text::chars_of(a);
    let y = text::chars_of(b);
    let p = text::lower_chars(x.as_slice());
    let q = text::lower_chars(y.as_slice());
    text::same_chars(p.as_slice(), q.as_slice())
}

fn read_lines(
    style: PathStyle,
    lines: &Vec<Option<JournalEntry>>,
    plan: &UpdatePlan,
    target: &PathText,
    staged: &PathText,
    backup: &PathText,
    temp: &PathText,
) -> (r: Result<Option<JournalState>, MaintenanceError>)
    ensures
        ({
            let files = UpdateFiles {
                target: target@,
                staged: staged@,
                backup: backup@,
                temp: temp@,
            };
            let fault = lines_fault(style, lines@, *plan, files);
            &&& r is Err == fault is Some
            &&& r is Err ==> r->Err_0@ == fault->0
            &&& r is Ok ==> r->Ok_0 == (if lines@.len() == 0 {
                None
            } else {
                Some(lines@.last()->0.state)
            })
        }),
{
    let ghost files = UpdateFiles {
        target: target@,
        staged: staged@,
        backup: backup@,
        temp: temp@,
    };
    let mut last: Option<JournalState> = None;
    let mut i: usize = 0;
    while i < lines.len()
        invariant
            i <= lines@.len(),
            i <= MAX_JOURNAL_ENTRIES,
            files == (UpdateFiles {
                target: target@,
                staged: staged@,
                backup: backup@,
                temp: temp@,
            }),
            lines_fault(style, lines@.take(i as int), *plan, files) is None,
            last == (if i == 0 {
                None
            } else {
                Some(lines@[i - 1]->0.state)
            }),
        decreases lines@.len() - i,
    {
        let ghost so_far = lines@.take(i + 1);
        proof {
            assert(so_far.drop_last() =~= lines@.take(i as int));
            assert(so_far.last() == lines@[i as int]);
            if lines_fault(style, so_far, *plan, files) is Some {
                lemma_lines_prefix(style, lines@, *plan, files, i + 1);
            }
        }
        if i + 1 > MAX_JOURNAL_ENTRIES {
            return Err(MaintenanceError::JournalInvalid);
        }
        match &lines[i] {
            None => {
                return Err(MaintenanceError::Json);
            },
            Some(entry) => {
                if !text::same_text(entry.request_id.as_str(), plan.request_id.as_str())
                    || !paths::same_path(style, &entry.target_executable, target)
                    || !paths::same_path(style, &entry.staged_executable, staged)
                    || !paths::same_path(style, &entry.backup_executable, backup)
                    || !paths::same_path(style, &entry.temp_executable, temp) || !digests_agree(
                    entry.expected_current_sha256.as_str(),
                    plan.expected_current_sha256.as_str(),
                ) || !digests_agree(
                    entry.expected_staged_sha256.as_str(),
                    plan.expected_staged_sha256.as_str(),
                ) {
                    return Err(MaintenanceError::JournalInvalid);
                }
                last = Some(entry.state);
            },
        }
        i = i + 1;
    }
    proof {
        assert(lines@.take(i as int) =~= lines@);
    }
    Ok(last)
}

/// The state that a journal ends in, if there is a journal.
pub fn read_journal_state(
    style: PathStyle,
    journal: &Option<Result<FoundJournal, IoFault>>,
    plan: &UpdatePlan,
    target: &PathText,
    staged: &PathText,
    backup: &PathText,
    temp: &PathText,
) -> (r: Result<Option<JournalState>, MaintenanceError>)
    ensures
        ({
            let files = UpdateFiles {
                target: target@,
                staged: staged@,
                backup: backup@,
                temp: temp@,
            };
            let fault = journal_fault(style, *journal, *plan, files);
            &&& r is Err == fault is Some
            &&& r is Err ==> r->Err_0@ == fault->0
            &&& r is Ok ==> r->Ok_0 == journal_end(*journal)
        }),
{
    let found = match journal {
        None => {
            return Ok(None);
        },
        Some(Err(fault)) => {
            return Err(MaintenanceError::Io(*fault));
        },
        Some(Ok(found)) => found,
    };
    if !found.is_file || found.len == 0 || found.len > MAX_JOURNAL_BYTES {
        return Err(MaintenanceError::JournalInvalid);
    }
    match &found.lines {
        Err(fault) => Err(MaintenanceError::Io(*fault)),
        Ok(lines) => match read_lines(style, lines, plan, target, staged, backup, temp) {
            Err(error) => Err(error),
            Ok(None) => Err(MaintenanceError::JournalInvalid),
            Ok(Some(state)) => Ok(Some(state)),
        },
    }
}

// ---------------------------------------------------------------------------
// The result

/// What a result file holds, by what it says.
#[verifier::ext_equal]
pub enum ContentModel {
    Unreadable(IoFault),
    Malformed,
    WithoutStatus,
    Status(Seq<char>),
}

impl View for ResultContent {
    type V = ContentModel;

    open spec fn view(&self) -> ContentModel {
        match self {
            ResultContent::Unreadable(fault) => ContentModel::Unreadable(*fault),
            ResultContent::Malformed => ContentModel::Malformed,
            ResultContent::WithoutStatus => ContentModel::WithoutStatus,
            ResultContent::Status(status) => ContentModel::Status(status@),
        }
    }
}

/// What the bytes of a result file come to.
pub open spec fn content_of(bytes: Result<Vec<u8>, IoFault>) -> ContentModel {
    match bytes {
        Err(fault) => ContentModel::Unreadable(fault),
        Ok(bytes) => if !codec::is_json(bytes@) {
            ContentModel::Malformed
        } else {
            match codec::json_field(bytes@, "status"@) {
                None => ContentModel::WithoutStatus,
                Some(status) => ContentModel::Status(status),
            }
        },
    }
}

/// Why a result gives no status, if it gives none.
pub open spec fn content_fault(content: ContentModel) -> Option<MaintenanceFault> {
    match content {
        ContentModel::Unreadable(fault) => Some(MaintenanceFault::Io(fault)),
        ContentModel::Malformed => Some(MaintenanceFault::Json),
        ContentModel::WithoutStatus => Some(MaintenanceFault::ResultInvalid),
        ContentModel::Status(status) => if status.len() == 0 || text::byte_len(status) > 64 {
            Some(MaintenanceFault::ResultInvalid)
        } else {
            None
        },
    }
}

/// Takes in the bytes of a result file.
pub fn result_content(bytes: &Result<Vec<u8>, IoFault>) -> (content: ResultContent)
    ensures
        content@ == content_of(*bytes),
{
    match bytes {
        Err(fault) => ResultContent::Unreadable(*fault),
        Ok(bytes) => match codec::json_text_field(bytes.as_slice(), "status") {
            Err(_) => ResultContent::Malformed,
            Ok(None) => ResultContent::WithoutStatus,
            Ok(Some(status)) => ResultContent::Status(status),
        },
    }
}

/// The status that a result gives.
pub fn content_status(content: ResultContent) -> (r: Result<String, MaintenanceError>)
    ensures
        r is Err == content_fault(content@) is Some,
        r is Err ==> r->Err_0@ == content_fault(content@)->0,
        r is Ok ==> content@ == ContentModel::Status(r->Ok_0@),
{
    match content {
        ResultContent::Unreadable(fault) => Err(MaintenanceError::Io(fault)),
        ResultContent::Malformed => Err(MaintenanceError::Json),
        ResultContent::WithoutStatus => Err(MaintenanceError::ResultInvalid),
        ResultContent::Status(status) => {
            let bytes: usize = text::text_bytes(status.as_str());
            let chars = text::chars_of(status.as_str());
            if chars.len() == 0 || bytes > 64 {
                return Err(MaintenanceError::ResultInvalid);
            }
            Ok(status)
        },
    }
}

pub open spec fn result_fault(
    style: PathStyle,
    result: Option<Result<FoundResult, IoFault>>,
    root: PathModel,
) -> Option<MaintenanceFault> {
    match result {
        None => None,
        Some(Err(fault)) => Some(MaintenanceFault::Io(fault)),
        Some(Ok(found)) => if !paths::is_within(style, found.path@, root) {
            Some(MaintenanceFault::OutsideAllowedRoot)
        } else if !found.is_file || found.len == 0 || found.len > MAX_RESULT_BYTES {
            Some(MaintenanceFault::ResultInvalid)
        } else {
            content_fault(content_of(found.bytes))
        },
    }
}

/// The status that a result file gives.
pub open spec fn result_end(result: Option<Result<FoundResult, IoFault>>) -> Option<Seq<char>> {
    match result {
        Some(Ok(found)) => Some(content_of(found.bytes)->Status_0),
        _ => None,
    }
}

/// The status that a result gives, if there is a result.
pub fn read_result_status(
    style: PathStyle,
    result: &Option<Result<FoundResult, IoFault>>,
    root: &PathText,
) -> (r: Result<Option<String>, MaintenanceError>)
    ensures
        r is Err == result_fault(style, *result, root@) is Some,
        r is Err ==> r->Err_0@ == result_fault(style, *result, root@)->0,
        r is Ok ==> text_model(r->Ok_0) == result_end(*result),
{
    let found = match result {
        None => {
            return Ok(None);
        },
        Some(Err(fault)) => {
            return Err(MaintenanceError::Io(*fault));
        },
        Some(Ok(found)) => found,
    };
    if let Err(error) = maintenance::ensure_within(style, &found.path, root) {
        return Err(error);
    }
    if !found.is_file || found.len == 0 || found.len > MAX_RESULT_BYTES {
        return Err(MaintenanceError::ResultInvalid);
    }
    match content_status(result_content(&found.bytes)) {
        Err(error) => Err(error),
        Ok(status) => Ok(Some(status)),
    }
}

// ---------------------------------------------------------------------------
// The inspection

/// How far an update got, by its journal and by what its files hold.
pub open spec fn state_of(
    journal: Option<JournalState>,
    target: Option<Seq<char>>,
    staged: Option<Seq<char>>,
    backup: Option<Seq<char>>,
    temp: Option<Seq<char>>,
    old_digest: Seq<char>,
    new_digest: Seq<char>,
) -> MaintenanceObservedState {
    let untouched = target == Some(old_digest) && staged == Some(new_digest) && backup is None
        && temp is None;
    let swapped = target == Some(new_digest) && backup == Some(old_digest);
    match journal {
        None => if untouched {
            MaintenanceObservedState::Ready
        } else {
            MaintenanceObservedState::Inconsistent
        },
        Some(JournalState::Validated) => if untouched {
            MaintenanceObservedState::Validated
        } else {
            MaintenanceObservedState::Inconsistent
        },
        Some(JournalState::Swapped) => if swapped {
            MaintenanceObservedState::Swapped
        } else {
            MaintenanceObservedState::Inconsistent
        },
        Some(JournalState::Committed) => if swapped {
            MaintenanceObservedState::Committed
        } else {
            MaintenanceObservedState::Inconsistent
        },
        Some(JournalState::RolledBack) => if target == Some(old_digest) && backup is None
            && temp is None {
            MaintenanceObservedState::RolledBack
        } else {
            MaintenanceObservedState::Inconsistent
        },
    }
}

pub open spec fn staged_fault(
    style: PathStyle,
    staged: Option<Result<PathText, IoFault>>,
    root: PathModel,
) -> Option<MaintenanceFault> {
    match staged {
        None => None,
        Some(found) => located_fault(style, found, root),
    }
}

pub open spec fn located_fault(
    style: PathStyle,
    found: Result<PathText, IoFault>,
    root: PathModel,
) -> Option<MaintenanceFault> {
    match found {
        Err(fault) => Some(MaintenanceFault::Io(fault)),
        Ok(path) => maintenance::within_fault(style, path@, root),
    }
}

/// The staged file: where it is, or where the plan has it.
pub open spec fn staged_path(plan: UpdatePlan, staged: Option<Result<PathText, IoFault>>) -> PathModel {
    match staged {
        Some(Ok(path)) => path@,
        _ => plan.staged_executable@,
    }
}

/// The files of the update that is inspected.
pub open spec fn inspected_files(
    style: PathStyle,
    plan: UpdatePlan,
    seen: InspectionObservation,
) -> UpdateFiles {
    let parent = seen.target_parent->0->Ok_0@;
    let name = seen.target_name->0@;
    UpdateFiles {
        target: paths::joined(style, parent, name),
        staged: staged_path(plan, seen.staged),
        backup: maintenance::backup_of(style, parent, name, plan.request_id@),
        temp: maintenance::temp_of(style, parent, name, plan.request_id@),
    }
}

/// What speaks against the plan's paths, if anything.
pub open spec fn paths_fault(style: PathStyle, plan: UpdatePlan, seen: InspectionObservation) -> Option<
    MaintenanceFault,
> {
    let root = seen.root->Ok_0.path@;
    maintenance::first(
        maintenance::parent_fault(style, seen.target_parent, seen.target_name, root),
        maintenance::first(
            staged_fault(style, seen.staged, root),
            maintenance::first(
                maintenance::output_fault(
                    style,
                    plan.target_executable@,
                    seen.target_anchor,
                    root,
                ),
                maintenance::first(
                    maintenance::output_fault(
                        style,
                        plan.staged_executable@,
                        seen.staged_anchor,
                        root,
                    ),
                    maintenance::first(
                        maintenance::outputs_fault(
                            style,
                            plan,
                            seen.journal_directory,
                            seen.result_file,
                            seen.stdout_log,
                            seen.stderr_log,
                            root,
                        ),
                        maintenance::first(
                            located_fault(style, seen.working_directory, root),
                            maintenance::side_files_fault(
                                style,
                                plan,
                                seen.target_parent->0->Ok_0@,
                                seen.target_name->0@,
                                seen.backup_anchor,
                                seen.temp_anchor,
                                seen.journal_anchor,
                                root,
                            ),
                        ),
                    ),
                ),
            ),
        ),
    )
}

/// What speaks against what the files hold, if anything.
pub open spec fn contents_fault(
    style: PathStyle,
    plan: UpdatePlan,
    seen: InspectionObservation,
) -> Option<MaintenanceFault> {
    let root = seen.root->Ok_0.path@;
    maintenance::first(
        found_fault(style, seen.target_file, root),
        maintenance::first(
            found_fault(style, seen.staged_file, root),
            maintenance::first(
                found_fault(style, seen.backup_file, root),
                maintenance::first(
                    found_fault(style, seen.temp_file, root),
                    maintenance::first(
                        journal_fault(
                            style,
                            seen.journal,
                            plan,
                            inspected_files(style, plan, seen),
                        ),
                        result_fault(style, seen.result, root),
                    ),
                ),
            ),
        ),
    )
}

/// What speaks against an inspection, if anything.
pub open spec fn inspection_fault(
    style: PathStyle,
    plan: UpdatePlan,
    seen: InspectionObservation,
) -> Option<MaintenanceFault> {
    maintenance::first(
        maintenance::shape_fault(plan),
        maintenance::first(
            maintenance::root_fault(seen.root),
            maintenance::first(
                paths_fault(style, plan, seen),
                contents_fault(style, plan, seen),
            ),
        ),
    )
}

/// The inspection says what was found.
pub open spec fn inspection_follows(
    inspection: MaintenanceInspection,
    plan: UpdatePlan,
    seen: InspectionObservation,
) -> bool {
    let old_digest = maintenance::normal_digest(plan.expected_current_sha256@)->0;
    let new_digest = maintenance::normal_digest(plan.expected_staged_sha256@)->0;
    let target = found_digest(seen.target_file);
    let staged = found_digest(seen.staged_file);
    let backup = found_digest(seen.backup_file);
    let temp = found_digest(seen.temp_file);
    &&& inspection.request_id@ == plan.request_id@
    &&& inspection.journal_state == journal_end(seen.journal)
    &&& inspection.observed_state == state_of(
        journal_end(seen.journal),
        target,
        staged,
        backup,
        temp,
        old_digest,
        new_digest,
    )
    &&& text_model(inspection.target_sha256) == target
    &&& text_model(inspection.staged_sha256) == staged
    &&& text_model(inspection.backup_sha256) == backup
    &&& text_model(inspection.temp_sha256) == temp
    &&& inspection.target_matches_current == (target == Some(old_digest))
    &&& inspection.target_matches_staged == (target == Some(new_digest))
    &&& inspection.staged_matches_expected == (staged == Some(new_digest))
    &&& inspection.backup_matches_current == (backup == Some(old_digest))
    &&& inspection.backup_exists == backup is Some
    &&& inspection.temp_exists == temp is Some
    &&& inspection.journal_exists == seen.journal_exists
    &&& text_model(inspection.result_status) == result_end(seen.result)
}

fn located_within(style: PathStyle, found: &Result<PathText, IoFault>, root: &PathText) -> (r: Result<
    (),
    MaintenanceError,
>)
    ensures
        r is Err == located_fault(style, *found, root@) is Some,
        r is Err ==> r->Err_0@ == located_fault(style, *found, root@)->0,
{
    match found {
        Err(fault) => Err(MaintenanceError::Io(*fault)),
        Ok(path) => maintenance::ensure_within(style, path, root),
    }
}

fn staged_location(
    style: PathStyle,
    plan: &UpdatePlan,
    staged: &Option<Result<PathText, IoFault>>,
    root: &PathText,
) -> (r: Result<PathText, MaintenanceError>)
    ensures
        r is Err == staged_fault(style, *staged, root@) is Some,
        r is Err ==> r->Err_0@ == staged_fault(style, *staged, root@)->0,
        r is Ok ==> r->Ok_0@ == staged_path(*plan, *staged),
{
    match staged {
        None => Ok(paths::copy_path(&plan.staged_executable)),
        Some(found) => {
            if let Err(error) = located_within(style, found, root) {
                return Err(error);
            }
            match found {
                Err(_) => Ok(paths::copy_path(&plan.staged_executable)),
                Ok(path) => Ok(paths::copy_path(path)),
            }
        },
    }
}

fn is_digest(digest: &Option<String>, expected: &str) -> (r: bool)
    ensures
        r == (text_model(*digest) == Some(expected@)),
{
    match digest {
        None => false,
        Some(digest) => text::same_text(digest.as_str(), expected),
    }
}

/// The files of an update, by their paths.
struct Located {
    target: PathText,
    staged: PathText,
    backup: PathText,
    temp: PathText,
}

fn locate(
    style: PathStyle,
    plan: &UpdatePlan,
    seen: &InspectionObservation,
    root: &PathText,
) -> (r: Result<Located, MaintenanceError>)
    requires
        seen.root is Ok,
        *root == seen.root->Ok_0.path,
    ensures
        r is Err == paths_fault(style, *plan, *seen) is Some,
        r is Err ==> r->Err_0@ == paths_fault(style, *plan, *seen)->0,
        r is Ok ==> ({
            let files = inspected_files(style, *plan, *seen);
            &&& r->Ok_0.target@ == files.target
            &&& r->Ok_0.staged@ == files.staged
            &&& r->Ok_0.backup@ == files.backup
            &&& r->Ok_0.temp@ == files.temp
        }),
{
    let (parent, name) = match maintenance::parent_and_name(
        style,
        &seen.target_parent,
        &seen.target_name,
        root,
    ) {
        Err(error) => {
            return Err(error);
        },
        Ok(found) => found,
    };
    let target = paths::join_name(style, parent, name.as_str());
    let staged = match staged_location(style, plan, &seen.staged, root) {
        Err(error) => {
            return Err(error);
        },
        Ok(staged) => staged,
    };
    if let Err(error) = maintenance::ensure_output_path_within(
        style,
        &plan.target_executable,
        &seen.target_anchor,
        root,
    ) {
        return Err(error);
    }
    if let Err(error) = maintenance::ensure_output_path_within(
        style,
        &plan.staged_executable,
        &seen.staged_anchor,
        root,
    ) {
        return Err(error);
    }
    if let Err(error) = maintenance::outputs_within(
        style,
        plan,
        &seen.journal_directory,
        &seen.result_file,
        &seen.stdout_log,
        &seen.stderr_log,
        root,
    ) {
        return Err(error);
    }
    if let Err(error) = located_within(style, &seen.working_directory, root) {
        return Err(error);
    }
    let id = plan.request_id.as_str();
    let backup = maintenance::backup_path(style, parent, name.as_str(), id);
    let temp = maintenance::temp_path(style, parent, name.as_str(), id);
    let journal = maintenance::journal_path(style, &plan.journal_directory, id);
    if let Err(error) = maintenance::ensure_output_path_within(
        style,
        &backup,
        &seen.backup_anchor,
        root,
    ) {
        return Err(error);
    }
    if let Err(error) = maintenance::ensure_output_path_within(
        style,
        &temp,
        &seen.temp_anchor,
        root,
    ) {
        return Err(error);
    }
    if let Err(error) = maintenance::ensure_output_path_within(
        style,
        &journal,
        &seen.journal_anchor,
        root,
    ) {
        return Err(error);
    }
    Ok(Located { target, staged, backup, temp })
}

/// Says how far the update of a plan got.
pub fn inspect_plan(style: PathStyle, plan: UpdatePlan, seen: &InspectionObservation) -> (r: Result<
    MaintenanceInspection,
    MaintenanceError,
>)
    ensures
        r is Err == inspection_fault(style, plan, *seen) is Some,
        r is Err ==> r->Err_0@ == inspection_fault(style, plan, *seen)->0,
        r is Ok ==> inspection_follows(r->Ok_0, plan, *seen),
{
    if let Err(error) = maintenance::validate_plan_shape(&plan) {
        return Err(error);
    }
    let root = match maintenance::canonical_root(&seen.root) {
        Err(error) => {
            return Err(error);
        },
        Ok(root) => root,
    };
    let files = match locate(style, &plan, seen, root) {
        Err(error) => {
            return Err(error);
        },
        Ok(files) => files,
    };
    let expected_current = match maintenance::normalize_sha256(
        plan.expected_current_sha256.as_str(),
    ) {
        Err(error) => {
            return Err(error);
        },
        Ok(digest) => digest,
    };
    let expected_staged = match maintenance::normalize_sha256(
        plan.expected_staged_sha256.as_str(),
    ) {
        Err(error) => {
            return Err(error);
        },
        Ok(digest) => digest,
    };
    let target_sha256 = match optional_file_sha256(style, &seen.target_file, root) {
        Err(error) => {
            return Err(error);
        },
        Ok(digest) => digest,
    };
    let staged_sha256 = match optional_file_sha256(style, &seen.staged_file, root) {
        Err(error) => {
            return Err(error);
        },
        Ok(digest) => digest,
    };
    let backup_sha256 = match optional_file_sha256(style, &seen.backup_file, root) {
        Err(error) => {
            return Err(error);
        },
        Ok(digest) => digest,
    };
    let temp_sha256 = match optional_file_sha256(style, &seen.temp_file, root) {
        Err(error) => {
            return Err(error);
        },
        Ok(digest) => digest,
    };
    let target_matches_current = is_digest(&target_sha256, expected_current.as_str());
    let target_matches_staged = is_digest(&target_sha256, expected_staged.as_str());
    let staged_matches_expected = is_digest(&staged_sha256, expected_staged.as_str());
    let backup_matches_current = is_digest(&backup_sha256, expected_current.as_str());
    let journal_state = match read_journal_state(
        style,
        &seen.journal,
        &plan,
        &files.target,
        &files.staged,
        &files.backup,
        &files.temp,
    ) {
        Err(error) => {
            return Err(error);
        },
        Ok(state) => state,
    };
    let result_status = match read_result_status(style, &seen.result, root) {
        Err(error) => {
            return Err(error);
        },
        Ok(status) => status,
    };
    let backup_exists = backup_sha256.is_some();
    let temp_exists = temp_sha256.is_some();
    let untouched = target_matches_current && staged_matches_expected && !backup_exists
        && !temp_exists;
    let swapped = target_matches_staged && backup_matches_current;
    let restored = target_matches_current && !backup_exists && !temp_exists;
    let observed_state = match journal_state {
        None => {
            if untouched {
                MaintenanceObservedState::Ready
            } else {
                MaintenanceObservedState::Inconsistent
            }
        },
        Some(JournalState::Validated) => {
            if untouched {
                MaintenanceObservedState::Validated
            } else {
                MaintenanceObservedState::Inconsistent
            }
        },
        Some(JournalState::Swapped) => {
            if swapped {
                MaintenanceObservedState::Swapped
            } else {
                MaintenanceObservedState::Inconsistent
            }
        },
        Some(JournalState::Committed) => {
            if swapped {
                MaintenanceObservedState::Committed
            } else {
                MaintenanceObservedState::Inconsistent
            }
        },
        Some(JournalState::RolledBack) => {
            if restored {
                MaintenanceObservedState::RolledBack
            } else {
                MaintenanceObservedState::Inconsistent
            }
        },
    };
    Ok(
        MaintenanceInspection {
            request_id: plan.request_id,
            observed_state,
            journal_state,
            target_sha256,
            staged_sha256,
            backup_sha256,
            temp_sha256,
            target_matches_current,
            target_matches_staged,
            staged_matches_expected,
            backup_matches_current,
            backup_exists,
            temp_exists,
            journal_exists: seen.journal_exists,
            result_status,
        },
    )
}

// ---------------------------------------------------------------------------
// Laws

/// An update is seen to be ready or validated exactly while nothing has been touched, swapped
/// or committed exactly when the target is new and the backup old, and rolled back exactly
/// when the target is old and nothing is left beside it, each as the journal says; anything
/// else is inconsistent.
pub proof fn states_are_seen_as_the_files_are(
    journal: Option<JournalState>,
    target: Option<Seq<char>>,
    staged: Option<Seq<char>>,
    backup: Option<Seq<char>>,
    temp: Option<Seq<char>>,
    old_digest: Seq<char>,
    new_digest: Seq<char>,
)
    ensures
        ({
            let r = state_of(journal, target, staged, backup, temp, old_digest, new_digest);
            let untouched = target == Some(old_digest) && staged == Some(new_digest)
                && backup is None && temp is None;
            let swapped = target == Some(new_digest) && backup == Some(old_digest);
            let restored = target == Some(old_digest) && backup is None && temp is None;
            &&& r is Ready <==> journal is None && untouched
            &&& r is Validated <==> journal == Some(JournalState::Validated) && untouched
            &&& r is Swapped <==> journal == Some(JournalState::Swapped) && swapped
            &&& r is Committed <==> journal == Some(JournalState::Committed) && swapped
            &&& r is RolledBack <==> journal == Some(JournalState::RolledBack) && restored
        }),
{
}

/// A file that was found is taken exactly when it is a file within the root that can be read;
/// one that is not there has no digest.
pub proof fn found_files_are_taken_exactly_when_they_may_be(
    style: PathStyle,
    found: Option<Result<FoundFile, IoFault>>,
    root: PathModel,
)
    ensures
        found_fault(style, found, root) is None <==> (found is Some ==> found->0 is Ok
            && paths::is_within(style, found->0->Ok_0.path@, root) && found->0->Ok_0.kind is File
            && found->0->Ok_0.bytes is Ok),
        found is None ==> found_digest(found) is None,
        found is Some && found->0 is Ok ==> found_digest(found) == Some(
            maintenance::digest_text(found->0->Ok_0.bytes->Ok_0@),
        ),
{
}

/// A journal is read exactly when it is a file of 1 to 1048576 bytes with 1 to 512 entries
/// that all belong to the update; the last tells how far it came.
pub proof fn journals_are_read_exactly_when_they_fit(
    style: PathStyle,
    journal: Option<Result<FoundJournal, IoFault>>,
    plan: UpdatePlan,
    files: UpdateFiles,
)
    ensures
        ({
            let found = journal->0->Ok_0;
            let lines = found.lines->Ok_0@;
            &&& journal_fault(style, journal, plan, files) is None <==> (journal is Some ==> {
                &&& journal->0 is Ok
                &&& found.is_file
                &&& 1 <= found.len <= 1_048_576
                &&& found.lines is Ok
                &&& 1 <= lines.len() <= 512
                &&& forall|i: int|
                    0 <= i < lines.len() ==> (#[trigger] lines[i]) is Some && entry_fits(
                        style,
                        lines[i]->0,
                        plan,
                        files,
                    )
            })
            &&& journal is None ==> journal_end(journal) is None
            &&& journal is Some && journal->0 is Ok && lines.len() > 0 ==> journal_end(journal)
                == Some(lines[lines.len() - 1]->0.state)
        }),
{
    if journal is Some && journal->0 is Ok && journal->0->Ok_0.lines is Ok {
        lemma_lines_fit(style, journal->0->Ok_0.lines->Ok_0@, plan, files);
    }
}

proof fn lemma_lines_fit(
    style: PathStyle,
    lines: Seq<Option<JournalEntry>>,
    plan: UpdatePlan,
    files: UpdateFiles,
)
    ensures
        lines_fault(style, lines, plan, files) is None <==> lines.len() <= 512 && forall|i: int|
            0 <= i < lines.len() ==> (#[trigger] lines[i]) is Some && entry_fits(
                style,
                lines[i]->0,
                plan,
                files,
            ),
    decreases lines.len(),
{
    if lines.len() > 0 {
        let fewer = lines.drop_last();
        lemma_lines_fit(style, fewer, plan, files);
        assert(lines[lines.len() - 1] == lines.last());
        assert forall|i: int| 0 <= i < fewer.len() implies fewer[i] == lines[i] by {}
        if lines_fault(style, lines, plan, files) is None {
            assert forall|i: int| 0 <= i < lines.len() implies (#[trigger] lines[i]) is Some
                && entry_fits(style, lines[i]->0, plan, files) by {
                if i < fewer.len() {
                    assert(fewer[i] == lines[i]);
                }
            }
        }
    }
}

/// An entry belongs to an update exactly when it names the same request, the same four files
/// and, in letters of either case, the same digests.
pub proof fn entries_belong_to_their_update(
    style: PathStyle,
    entry: JournalEntry,
    plan: UpdatePlan,
    files: UpdateFiles,
)
    ensures
        entry_fits(style, entry, plan, files) <==> {
            &&& entry.request_id@ == plan.request_id@
            &&& paths::is_same(style, entry.target_executable@, files.target)
            &&& paths::is_same(style, entry.staged_executable@, files.staged)
            &&& paths::is_same(style, entry.backup_executable@, files.backup)
            &&& paths::is_same(style, entry.temp_executable@, files.temp)
            &&& text::ascii_lower(entry.expected_current_sha256@) == text::ascii_lower(
                plan.expected_current_sha256@,
            )
            &&& text::ascii_lower(entry.expected_staged_sha256@) == text::ascii_lower(
                plan.expected_staged_sha256@,
            )
        },
{
}

/// A result is read exactly when it is a file of 1 to 131072 bytes within the root whose JSON
/// tells a status of 1 to 64 bytes.
pub proof fn results_are_read_exactly_when_they_fit(
    style: PathStyle,
    result: Option<Result<FoundResult, IoFault>>,
    root: PathModel,
)
    ensures
        ({
            let found = result->0->Ok_0;
            let status = codec::json_field(found.bytes->Ok_0@, "status"@);
            &&& result_fault(style, result, root) is None <==> (result is Some ==> {
                &&& result->0 is Ok
                &&& paths::is_within(style, found.path@, root)
                &&& found.is_file
                &&& 1 <= found.len <= 131_072
                &&& found.bytes is Ok
                &&& codec::is_json(found.bytes->Ok_0@)
                &&& status is Some
                &&& status->0.len() > 0
                &&& vstd::utf8::encode_utf8(status->0).len() <= 64
            })
            &&& result is Some && result_fault(style, result, root) is None ==> result_end(result)
                == status
            &&& result is None ==> result_end(result) is None
        }),
{
}

/// An update is inspected exactly when its plan has its shape, the root is a directory, every
/// place lies within it, and what was found there can be read.
pub proof fn updates_are_inspected_exactly_when_they_may_be(
    style: PathStyle,
    plan: UpdatePlan,
    seen: InspectionObservation,
)
    ensures
        ({
            let root = seen.root->Ok_0.path@;
            let id = plan.request_id@;
            let parent = seen.target_parent->0->Ok_0@;
            let name = seen.target_name->0@;
            let files = UpdateFiles {
                target: paths::joined(style, parent, name),
                staged: if seen.staged is Some && seen.staged->0 is Ok {
                    seen.staged->0->Ok_0@
                } else {
                    plan.staged_executable@
                },
                backup: maintenance::backup_of(style, parent, name, id),
                temp: maintenance::temp_of(style, parent, name, id),
            };
            let writable = |path: PathModel, anchor: Anchor|
                maintenance::output_fault(style, path, anchor, root) is None;
            inspection_fault(style, plan, seen) is None <==> {
                &&& maintenance::shape_fault(plan) is None
                &&& seen.root is Ok && seen.root->Ok_0.kind is Directory
                &&& seen.target_parent is Some && seen.target_parent->0 is Ok && paths::is_within(
                    style,
                    parent,
                    root,
                )
                &&& seen.target_name is Some
                &&& seen.staged is Some ==> seen.staged->0 is Ok && paths::is_within(
                    style,
                    seen.staged->0->Ok_0@,
                    root,
                )
                &&& seen.working_directory is Ok && paths::is_within(
                    style,
                    seen.working_directory->Ok_0@,
                    root,
                )
                &&& writable(plan.target_executable@, seen.target_anchor)
                &&& writable(plan.staged_executable@, seen.staged_anchor)
                &&& writable(plan.journal_directory@, seen.journal_directory)
                &&& writable(plan.result_file@, seen.result_file)
                &&& writable(plan.restart.stdout_log@, seen.stdout_log)
                &&& writable(plan.restart.stderr_log@, seen.stderr_log)
                &&& writable(files.backup, seen.backup_anchor)
                &&& writable(files.temp, seen.temp_anchor)
                &&& writable(
                    maintenance::journal_of(style, plan.journal_directory@, id),
                    seen.journal_anchor,
                )
                &&& found_fault(style, seen.target_file, root) is None
                &&& found_fault(style, seen.staged_file, root) is None
                &&& found_fault(style, seen.backup_file, root) is None
                &&& found_fault(style, seen.temp_file, root) is None
                &&& journal_fault(style, seen.journal, plan, files) is None
                &&& result_fault(style, seen.result, root) is None
            }
        }),
{
}

/// An inspection tells what was found: the digests, whether they are those of the plan, how
/// far the journal says that the update came, and the status of the result.
pub proof fn inspections_tell_what_was_found(
    inspection: MaintenanceInspection,
    plan: UpdatePlan,
    seen: InspectionObservation,
)
    requires
        inspection_follows(inspection, plan, seen),
    ensures
        ({
            let old_digest = maintenance::normal_digest(plan.expected_current_sha256@)->0;
            let new_digest = maintenance::normal_digest(plan.expected_staged_sha256@)->0;
            &&& inspection.request_id@ == plan.request_id@
            &&& inspection.target_matches_current <==> found_digest(seen.target_file) == Some(
                old_digest,
            )
            &&& inspection.target_matches_staged <==> found_digest(seen.target_file) == Some(
                new_digest,
            )
            &&& inspection.staged_matches_expected <==> found_digest(seen.staged_file) == Some(
                new_digest,
            )
            &&& inspection.backup_matches_current <==> found_digest(seen.backup_file) == Some(
                old_digest,
            )
            &&& inspection.backup_exists <==> found_digest(seen.backup_file) is Some
            &&& inspection.temp_exists <==> found_digest(seen.temp_file) is Some
            &&& inspection.journal_exists == seen.journal_exists
            &&& inspection.journal_state == journal_end(seen.journal)
            &&& text_model(inspection.target_sha256) == found_digest(seen.target_file)
            &&& text_model(inspection.staged_sha256) == found_digest(seen.staged_file)
            &&& text_model(inspection.backup_sha256) == found_digest(seen.backup_file)
            &&& text_model(inspection.temp_sha256) == found_digest(seen.temp_file)
            &&& text_model(inspection.result_status) == result_end(seen.result)
            &&& inspection.observed_state == state_of(
                journal_end(seen.journal),
                found_digest(seen.target_file),
                found_digest(seen.staged_file),
                found_digest(seen.backup_file),
                found_digest(seen.temp_file),
                old_digest,
                new_digest,
            )
        }),
{
}

} // verus!
