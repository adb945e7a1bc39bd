//! Reading, searching and writing files below allowed roots.

use vstd::prelude::*;

use crate::broker::Authorization;
use crate::codec;
use crate::crypto;
use crate::edits;
use crate::edits::{PreparedEdit, TextEdit};
use crate::gate;
use crate::gate::Flaw;
use crate::paths;
use crate::paths::{
    Canonical, FileKind, IoFault, PathModel, PathText, Resolution, RootObservation,
};
use crate::table;
use crate::text;

verus! {

pub const MAX_LIST_DEPTH: usize = 16;

pub const MAX_LIST_ENTRIES: usize = 10_000;

#[derive(Debug, Clone, PartialEq, Eq)]
pub struct DirectoryEntry {
    pub path: String,
    pub name: String,
    pub entry_type: String,
    pub size: u64,
    pub mtime_unix_ms: Option<u64>,
}

#[derive(Debug, Clone, PartialEq, Eq)]
pub struct FileInfo {
    pub path: String,
    pub entry_type: String,
    pub size: u64,
    pub created_unix_ms: Option<u64>,
    pub modified_unix_ms: Option<u64>,
    pub accessed_unix_ms: Option<u64>,
    pub read_only: bool,
}

/// A worker that acts on files below its roots, and keeps a journal of writes.
#[derive(Debug)]
pub struct FsWorker {
    pub allowed_roots: Vec<PathText>,
    pub journal_dir: PathText,
}

#[derive(Debug, PartialEq, Eq)]
pub enum FsError {
    NoAllowedRoots,
    UnsafePath,
    OutsideAllowedRoots,
    ReparsePoint(String),
    AuthorizationMismatch,
    ApprovalRequired,
    ApprovedExecutionRequired,
    MissingTargetPrecondition,
    InvalidTargetPrecondition,
    TargetPreconditionFailed,
    Denied,
    WrongAction,
    ReadLimitExceeded { len: u64, max_bytes: usize },
    InvalidParameters,
    InvalidEditParameters,
    OccurrenceMismatch {
        edit_index: usize,
        expected: usize,
        actual: usize,
        closest_line: Option<String>,
    },
    EditResultTooLarge(usize),
    UnsupportedEditEncoding,
    UnrepresentableEditText,
    InvalidPattern,
    SearchTimeout,
    MissingContentDigest,
    InvalidContentDigest,
    ContentDigestMismatch,
    TransactionExists,
    PostWriteVerificationFailed,
    Io(IoFault),
    Json,
}

/// An error by what it says.
#[verifier::ext_equal]
pub enum FsFault {
    NoAllowedRoots,
    UnsafePath,
    OutsideAllowedRoots,
    ReparsePoint(Seq<char>),
    AuthorizationMismatch,
    ApprovalRequired,
    ApprovedExecutionRequired,
    MissingTargetPrecondition,
    InvalidTargetPrecondition,
    TargetPreconditionFailed,
    Denied,
    WrongAction,
    ReadLimitExceeded(nat, nat),
    InvalidParameters,
    InvalidEditParameters,
    OccurrenceMismatch(nat, nat, nat, Option<Seq<char>>),
    EditResultTooLarge(nat),
    UnsupportedEditEncoding,
    UnrepresentableEditText,
    InvalidPattern,
    SearchTimeout,
    MissingContentDigest,
    InvalidContentDigest,
    ContentDigestMismatch,
    TransactionExists,
    PostWriteVerificationFailed,
    Io(IoFault),
    Json,
}

impl View for FsError {
    type V = FsFault;

    open spec fn view(&self) -> FsFault {
        match self {
            FsError::NoAllowedRoots => FsFault::NoAllowedRoots,
            FsError::UnsafePath => FsFault::UnsafePath,
            FsError::OutsideAllowedRoots => FsFault::OutsideAllowedRoots,
            FsError::ReparsePoint(path) => FsFault::ReparsePoint(path@),
            FsError::AuthorizationMismatch => FsFault::AuthorizationMismatch,
            FsError::ApprovalRequired => FsFault::ApprovalRequired,
            FsError::ApprovedExecutionRequired => FsFault::ApprovedExecutionRequired,
            FsError::MissingTargetPrecondition => FsFault::MissingTargetPrecondition,
            FsError::InvalidTargetPrecondition => FsFault::InvalidTargetPrecondition,
            FsError::TargetPreconditionFailed => FsFault::TargetPreconditionFailed,
            FsError::Denied => FsFault::Denied,
            FsError::WrongAction => FsFault::WrongAction,
            FsError::ReadLimitExceeded { len, max_bytes } => FsFault::ReadLimitExceeded(
                *len as nat,
                *max_bytes as nat,
            ),
            FsError::InvalidParameters => FsFault::InvalidParameters,
            FsError::InvalidEditParameters => FsFault::InvalidEditParameters,
            FsError::OccurrenceMismatch { edit_index, expected, actual, closest_line } => {
                FsFault::OccurrenceMismatch(
                    *edit_index as nat,
                    *expected as nat,
                    *actual as nat,
                    match closest_line {
                        Some(line) => Some(line@),
                        None => None,
                    },
                )
            },
            FsError::EditResultTooLarge(len) => FsFault::EditResultTooLarge(*len as nat),
            FsError::UnsupportedEditEncoding => FsFault::UnsupportedEditEncoding,
            FsError::UnrepresentableEditText => FsFault::UnrepresentableEditText,
            FsError::InvalidPattern => FsFault::InvalidPattern,
            FsError::SearchTimeout => FsFault::SearchTimeout,
            FsError::MissingContentDigest => FsFault::MissingContentDigest,
            FsError::InvalidContentDigest => FsFault::InvalidContentDigest,
            FsError::ContentDigestMismatch => FsFault::ContentDigestMismatch,
            FsError::TransactionExists => FsFault::TransactionExists,
            FsError::PostWriteVerificationFailed => FsFault::PostWriteVerificationFailed,
            FsError::Io(fault) => FsFault::Io(*fault),
            FsError::Json => FsFault::Json,
        }
    }
}

// ---------------------------------------------------------------------------
// Authorizations and paths

pub open spec fn flaw_fault(flaw: Flaw) -> FsFault {
    match flaw {
        Flaw::Mismatch => FsFault::AuthorizationMismatch,
        Flaw::ApprovalRequired => FsFault::ApprovalRequired,
        Flaw::Denied => FsFault::Denied,
        Flaw::NotForApproval => FsFault::ApprovedExecutionRequired,
        Flaw::WrongAction => FsFault::WrongAction,
    }
}

fn flaw_error(flaw: Flaw) -> (error: FsError)
    ensures
        error@ == flaw_fault(flaw),
{
    match flaw {
        Flaw::Mismatch => FsError::AuthorizationMismatch,
        Flaw::ApprovalRequired => FsError::ApprovalRequired,
        Flaw::Denied => FsError::Denied,
        Flaw::NotForApproval => FsError::ApprovedExecutionRequired,
        Flaw::WrongAction => FsError::WrongAction,
    }
}

pub open spec fn auto_fault(
    authorization: Authorization,
    action: Seq<char>,
    target: Seq<char>,
) -> Option<FsFault> {
    match gate::auto_flaw(authorization, action, target) {
        Some(flaw) => Some(flaw_fault(flaw)),
        None => None,
    }
}

pub open spec fn approval_fault(
    authorization: Authorization,
    action: Seq<char>,
    target: Seq<char>,
) -> Option<FsFault> {
    match gate::approval_flaw(authorization, action, target) {
        Some(flaw) => Some(flaw_fault(flaw)),
        None => None,
    }
}

pub(crate) fn ensure_auto_action(
    authorization: &Authorization,
    expected: &str,
    target: &PathText,
) -> (r: Result<(), FsError>)
    ensures
        r is Err == auto_fault(*authorization, expected@, target.text@) is Some,
        r is Err ==> r->Err_0@ == auto_fault(*authorization, expected@, target.text@)->0,
{
    match gate::check_auto(authorization, expected, target.text.as_str()) {
        None => Ok(()),
        Some(flaw) => Err(flaw_error(flaw)),
    }
}

pub(crate) fn ensure_approval_action(
    authorization: &Authorization,
    expected: &str,
    target: &PathText,
) -> (r: Result<(), FsError>)
    ensures
        r is Err == approval_fault(*authorization, expected@, target.text@) is Some,
        r is Err ==> r->Err_0@ == approval_fault(*authorization, expected@, target.text@)->0,
{
    match gate::check_approval(authorization, expected, target.text.as_str()) {
        None => Ok(()),
        Some(flaw) => Err(flaw_error(flaw)),
    }
}

/// The first fault of two.
pub open spec fn first(a: Option<FsFault>, b: Option<FsFault>) -> Option<FsFault> {
    if a is Some {
        a
    } else {
        b
    }
}

/// Why a path may not be tried, if it may not: it is no absolute path without
/// parents, or one of its components leads elsewhere.
pub open spec fn path_fault(path: PathText, reparse: Result<Option<String>, IoFault>) -> Option<
    FsFault,
> {
    if !path.absolute || paths::leads_up(path@) {
        Some(FsFault::UnsafePath)
    } else {
        match reparse {
            Err(fault) => Some(FsFault::Io(fault)),
            Ok(Some(component)) => Some(FsFault::ReparsePoint(component@)),
            Ok(None) => None,
        }
    }
}

/// Why a path may not be followed, if it may not.
pub open spec fn follow_fault(path: PathText, seen: Resolution) -> Option<FsFault> {
    first(
        path_fault(path, seen.reparse),
        match seen.canonical {
            Err(fault) => Some(FsFault::Io(fault)),
            Ok(_) => None,
        },
    )
}

pub open spec fn allowed_fault(worker: FsWorker, path: PathText) -> Option<FsFault> {
    if paths::below_some(path, worker.allowed_roots@) {
        None
    } else {
        Some(FsFault::OutsideAllowedRoots)
    }
}

/// Why something that exists may not be touched, if it may not.
pub open spec fn existing_fault(worker: FsWorker, path: PathText, seen: Resolution) -> Option<
    FsFault,
> {
    first(follow_fault(path, seen), allowed_fault(worker, seen.canonical->Ok_0.path))
}

pub(crate) fn ensure_followable(path: &PathText, reparse: &Result<Option<String>, IoFault>) -> (r:
    Result<(), FsError>)
    ensures
        r is Err == path_fault(*path, *reparse) is Some,
        r is Err ==> r->Err_0@ == path_fault(*path, *reparse)->0,
{
    if !path.absolute || paths::goes_up(path) {
        return Err(FsError::UnsafePath);
    }
    match reparse {
        Err(fault) => Err(FsError::Io(*fault)),
        Ok(Some(component)) => Err(FsError::ReparsePoint(component.clone())),
        Ok(None) => Ok(()),
    }
}

fn followed<'a>(path: &PathText, seen: &'a Resolution) -> (r: Result<&'a Canonical, FsError>)
    ensures
        r is Err == follow_fault(*path, *seen) is Some,
        r is Err ==> r->Err_0@ == follow_fault(*path, *seen)->0,
        r is Ok ==> *r->Ok_0 == seen.canonical->Ok_0,
{
    if let Err(error) = ensure_followable(path, &seen.reparse) {
        return Err(error);
    }
    match &seen.canonical {
        Err(fault) => Err(FsError::Io(*fault)),
        Ok(found) => Ok(found),
    }
}

// ---------------------------------------------------------------------------
// Making a worker

/// Why the first root that is refused is refused, if one is.
pub open spec fn roots_fault(roots: Seq<RootObservation>) -> Option<FsFault>
    decreases roots.len(),
{
    if roots.len() == 0 {
        None
    } else {
        first(
            roots_fault(roots.drop_last()),
            follow_fault(roots.last().path, roots.last().seen),
        )
    }
}

/// What was found of the directory for the journal, after it was to be created.
#[derive(Debug)]
pub struct JournalObservation {
    pub created: Result<(), IoFault>,
    pub reparse: Result<Option<String>, IoFault>,
    pub canonical: Result<PathText, IoFault>,
}

pub open spec fn journal_dir_fault(seen: JournalObservation) -> Option<FsFault> {
    match seen.created {
        Err(fault) => Some(FsFault::Io(fault)),
        Ok(_) => match seen.reparse {
            Err(fault) => Some(FsFault::Io(fault)),
            Ok(Some(component)) => Some(FsFault::ReparsePoint(component@)),
            Ok(None) => match seen.canonical {
                Err(fault) => Some(FsFault::Io(fault)),
                Ok(_) => None,
            },
        },
    }
}

/// Why a worker cannot be made, if it cannot.
pub open spec fn worker_fault(roots: Seq<RootObservation>, journal: JournalObservation) -> Option<
    FsFault,
> {
    first(
        roots_fault(roots),
        if roots.len() == 0 {
            Some(FsFault::NoAllowedRoots)
        } else {
            journal_dir_fault(journal)
        },
    )
}

proof fn lemma_roots_prefix(roots: Seq<RootObservation>, i: int)
    requires
        0 <= i <= roots.len(),
        roots_fault(roots.take(i)) is Some,
    ensures
        roots_fault(roots) == roots_fault(roots.take(i)),
    decreases roots.len() - i,
{
    if i < roots.len() {
        assert(roots.take(i + 1).drop_last() =~= roots.take(i));
        lemma_roots_prefix(roots, i + 1);
    } else {
        assert(roots.take(i) =~= roots);
    }
}

// ---------------------------------------------------------------------------
// Lines of bytes

/// The lines of some bytes, each with the line feed that ends it.
pub open spec fn byte_lines(bytes: Seq<u8>) -> Seq<Seq<u8>>
    decreases bytes.len(),
{
    if bytes.len() == 0 {
        Seq::empty()
    } else {
        let k = feed_index(bytes, 0);
        if 0 <= k < bytes.len() {
            seq![bytes.take(k + 1)] + byte_lines(bytes.skip(k + 1))
        } else {
            seq![bytes]
        }
    }
}

/// Where the next line feed is, from `i` on, or the length.
pub open spec fn feed_index(bytes: Seq<u8>, i: int) -> int
    decreases bytes.len() - i,
{
    if i < 0 || i >= bytes.len() || bytes[i] == 10 {
        i
    } else {
        feed_index(bytes, i + 1)
    }
}

/// The bytes of some lines, as far as they fit; the length of the shortest start
/// that does not fit, if one does not.
pub open spec fn fitting_lines(lines: Seq<Seq<u8>>, max: nat) -> Result<Seq<u8>, nat>
    decreases lines.len(),
{
    if lines.len() == 0 {
        Ok(Seq::empty())
    } else {
        match fitting_lines(lines.drop_last(), max) {
            Err(len) => Err(len),
            Ok(so_far) => if so_far.len() + lines.last().len() > max {
                Err((so_far.len() + lines.last().len()) as nat)
            } else {
                Ok(so_far + lines.last())
            },
        }
    }
}

pub open spec fn at_most(a: int, b: int) -> int {
    if a <= b {
        a
    } else {
        b
    }
}

/// The lines that a reader asked for: `count` from the line numbered `start` on.
pub open spec fn asked_lines(bytes: Seq<u8>, start: nat, count: nat) -> Seq<Seq<u8>> {
    let lines = byte_lines(bytes);
    let from = at_most(start - 1, lines.len() as int);
    lines.subrange(from, at_most(from + count, lines.len() as int))
}

proof fn lemma_feed_index(bytes: Seq<u8>, i: int, n: int)
    requires
        0 <= i <= n <= bytes.len(),
        forall|k: int| i <= k < n ==> #[trigger] bytes[k] != 10,
        n == bytes.len() || bytes[n] == 10,
    ensures
        feed_index(bytes, i) == n,
    decreases n - i,
{
    if i < n {
        lemma_feed_index(bytes, i + 1, n);
    }
}

proof fn lemma_fitting_prefix(lines: Seq<Seq<u8>>, max: nat, i: int)
    requires
        0 <= i <= lines.len(),
        fitting_lines(lines.take(i), max) is Err,
    ensures
        fitting_lines(lines, max) == fitting_lines(lines.take(i), max),
    decreases lines.len() - i,
{
    if i < lines.len() {
        assert(lines.take(i + 1).drop_last() =~= lines.take(i));
        lemma_fitting_prefix(lines, max, i + 1);
    } else {
        assert(lines.take(i) =~= lines);
    }
}

/// The end of the line that starts at `start`, with its line feed.
fn line_end(bytes: &Vec<u8>, start: usize) -> (end: usize)
    requires
        start < bytes@.len(),
    ensures
        start < end <= bytes@.len(),
        byte_lines(bytes@.skip(start as int)) == seq![bytes@.subrange(start as int, end as int)]
            + byte_lines(bytes@.skip(end as int)),
{
    let ghost rest = bytes@.skip(start as int);
    let mut end: usize = start;
    while end < bytes.len() && bytes[end] != 10
        invariant
            start <= end <= bytes@.len(),
            rest == bytes@.skip(start as int),
            forall|k: int| 0 <= k < end - start ==> #[trigger] rest[k] != 10,
        decreases bytes@.len() - end,
    {
        proof {
            assert(rest[end - start] == bytes@[end as int]);
        }
        end = end + 1;
    }
    proof {
        if end < bytes@.len() {
            assert(rest[end - start] == bytes@[end as int]);
        }
        lemma_feed_index(rest, 0, end - start);
    }
    if end < bytes.len() {
        proof {
            assert(rest.take(end - start + 1) =~= bytes@.subrange(start as int, end + 1));
            assert(rest.skip(end - start + 1) =~= bytes@.skip(end + 1));
        }
        end + 1
    } else {
        proof {
            assert(rest =~= bytes@.subrange(start as int, end as int));
            assert(bytes@.skip(end as int) =~= Seq::empty());
            assert(seq![rest] + byte_lines(bytes@.skip(end as int)) =~= seq![rest]);
        }
        end
    }
}

/// The lines that were asked for, if they fit.
pub fn select_lines(bytes: &Vec<u8>, line_start: usize, line_count: usize, max_bytes: usize) -> (r:
    Result<Vec<u8>, FsError>)
    requires
        line_start > 0,
    ensures
        ({
            let asked = fitting_lines(
                asked_lines(bytes@, line_start as nat, line_count as nat),
                max_bytes as nat,
            );
            &&& r is Err == asked is Err
            &&& r is Err ==> r->Err_0@ == FsFault::ReadLimitExceeded(
                asked->Err_0,
                max_bytes as nat,
            )
            &&& r is Ok ==> r->Ok_0@ == asked->Ok_0
        }),
{
    let ghost all = byte_lines(bytes@);
    let ghost asked = asked_lines(bytes@, line_start as nat, line_count as nat);
    let mut at: usize = 0;
    let mut skipped: usize = 0;
    proof {
        assert(bytes@.skip(0) =~= bytes@);
        assert(all.skip(0) =~= all);
    }
    while at < bytes.len() && skipped < line_start - 1
        invariant
            at <= bytes@.len(),
            line_start > 0,
            skipped <= line_start - 1,
            skipped <= all.len(),
            all == byte_lines(bytes@),
            byte_lines(bytes@.skip(at as int)) == all.skip(skipped as int),
        decreases bytes@.len() - at,
    {
        let end: usize = line_end(bytes, at);
        proof {
            let rest = all.skip(skipped as int);
            let next = byte_lines(bytes@.skip(end as int));
            assert(rest.len() == 1 + next.len());
            assert(all.skip(skipped + 1) =~= next) by {
                assert forall|i: int| 0 <= i < next.len() implies all[skipped + 1 + i] == next[i] by {
                    assert(rest[i + 1] == all[skipped + 1 + i]);
                    assert((seq![bytes@.subrange(at as int, end as int)] + next)[i + 1] == next[i]);
                }
            }
        }
        at = end;
        skipped = skipped + 1;
    }
    let ghost from = skipped as int;
    proof {
        if at >= bytes@.len() {
            assert(bytes@.skip(at as int) =~= Seq::empty());
            assert(all.skip(from).len() == 0);
        }
        assert(from == at_most(line_start - 1, all.len() as int));
    }
    let mut output: Vec<u8> = Vec::new();
    let mut taken: usize = 0;
    proof {
        assert(asked.take(0) =~= Seq::empty());
    }
    while at < bytes.len() && taken < line_count
        invariant
            at <= bytes@.len(),
            taken <= line_count,
            all == byte_lines(bytes@),
            from == at_most(line_start - 1, all.len() as int),
            0 <= from,
            from + taken <= all.len(),
            asked == asked_lines(bytes@, line_start as nat, line_count as nat),
            byte_lines(bytes@.skip(at as int)) == all.skip(from + taken),
            fitting_lines(asked.take(taken as int), max_bytes as nat) is Ok,
            output@ == fitting_lines(asked.take(taken as int), max_bytes as nat)->Ok_0,
            output@.len() <= max_bytes,
            output@.len() <= at,
        decreases bytes@.len() - at,
    {
        let end: usize = line_end(bytes, at);
        let ghost line = bytes@.subrange(at as int, end as int);
        proof {
            let rest = all.skip(from + taken);
            let next = byte_lines(bytes@.skip(end as int));
            assert(rest.len() == 1 + next.len());
            assert(rest[0] == line);
            assert(all[from + taken] == line);
            assert(all.skip(from + taken + 1) =~= next) by {
                assert forall|i: int| 0 <= i < next.len() implies all[from + taken + 1 + i]
                    == next[i] by {
                    assert(rest[i + 1] == all[from + taken + 1 + i]);
                    assert((seq![line] + next)[i + 1] == next[i]);
                }
            }
            assert(asked[taken as int] == line);
            let more = asked.take(taken + 1);
            assert(more.drop_last() =~= asked.take(taken as int));
            assert(more.last() == line);
            if fitting_lines(more, max_bytes as nat) is Err {
                lemma_fitting_prefix(asked, max_bytes as nat, taken + 1);
            }
        }
        let len: usize = end - at;
        if len > max_bytes - output.len() {
            return Err(
                FsError::ReadLimitExceeded { len: (output.len() + len) as u64, max_bytes },
            );
        }
        let mut k: usize = at;
        let ghost before = output@;
        while k < end
            invariant
                at <= k <= end <= bytes@.len(),
                output@ == before + bytes@.subrange(at as int, k as int),
            decreases end - k,
        {
            output.push(bytes[k]);
            proof {
                assert(output@ =~= before + bytes@.subrange(at as int, k + 1));
            }
            k = k + 1;
        }
        at = end;
        taken = taken + 1;
    }
    proof {
        if at >= bytes@.len() {
            assert(bytes@.skip(at as int) =~= Seq::empty());
            assert(all.skip(from + taken).len() == 0);
        }
        assert(asked.take(taken as int) =~= asked);
    }
    Ok(output)
}

// ---------------------------------------------------------------------------
// The worker

pub open spec fn kind_name(kind: FileKind) -> Seq<char> {
    match kind {
        FileKind::Directory => "directory"@,
        FileKind::File => "file"@,
        FileKind::Other => "other"@,
    }
}

fn entry_type(kind: FileKind) -> (r: String)
    ensures
        r@ == kind_name(kind),
{
    match kind {
        FileKind::Directory => text::copied("directory"),
        FileKind::File => text::copied("file"),
        FileKind::Other => text::copied("other"),
    }
}

/// What the file system says of a file.
#[derive(Debug, Clone, Copy)]
pub struct Metadata {
    pub kind: FileKind,
    pub size: u64,
    pub created_unix_ms: Option<u64>,
    pub modified_unix_ms: Option<u64>,
    pub accessed_unix_ms: Option<u64>,
    pub read_only: bool,
}

/// Why something that exists may not be used for an action that needs no
/// approval, if it may not.
pub open spec fn auto_existing_fault(
    worker: FsWorker,
    authorization: Authorization,
    action: Seq<char>,
    target: PathText,
    seen: Resolution,
) -> Option<FsFault> {
    first(
        auto_fault(authorization, action, target.text@),
        existing_fault(worker, target, seen),
    )
}

/// Why a whole file may not be read, if it may not.
pub open spec fn read_fault(
    worker: FsWorker,
    authorization: Authorization,
    target: PathText,
    seen: Resolution,
    len: Result<u64, IoFault>,
    max_bytes: usize,
) -> Option<FsFault> {
    first(
        auto_existing_fault(worker, authorization, "filesystem.read"@, target, seen),
        match len {
            Err(fault) => Some(FsFault::Io(fault)),
            Ok(len) => if len > max_bytes {
                Some(FsFault::ReadLimitExceeded(len as nat, max_bytes as nat))
            } else {
                None
            },
        },
    )
}

/// Why a range of a file may not be read, if it may not.
pub open spec fn range_fault(
    worker: FsWorker,
    authorization: Authorization,
    target: PathText,
    seen: Resolution,
    length: usize,
    max_bytes: usize,
) -> Option<FsFault> {
    first(
        auto_fault(authorization, "filesystem.read"@, target.text@),
        first(
            if length > max_bytes {
                Some(FsFault::ReadLimitExceeded(length as nat, max_bytes as nat))
            } else {
                None
            },
            existing_fault(worker, target, seen),
        ),
    )
}

/// Why lines of a file may not be read, if they may not.
pub open spec fn lines_fault(
    worker: FsWorker,
    authorization: Authorization,
    target: PathText,
    seen: Resolution,
    bytes: Result<Vec<u8>, IoFault>,
    line_start: usize,
    line_count: usize,
    max_bytes: usize,
) -> Option<FsFault> {
    first(
        auto_fault(authorization, "filesystem.read"@, target.text@),
        first(
            if line_start == 0 {
                Some(FsFault::InvalidParameters)
            } else {
                None
            },
            first(
                existing_fault(worker, target, seen),
                match bytes {
                    Err(fault) => Some(FsFault::Io(fault)),
                    Ok(bytes) => match fitting_lines(
                        asked_lines(bytes@, line_start as nat, line_count as nat),
                        max_bytes as nat,
                    ) {
                        Err(len) => Some(FsFault::ReadLimitExceeded(len, max_bytes as nat)),
                        Ok(_) => None,
                    },
                },
            ),
        ),
    )
}

/// Why a directory may not be listed, if it may not.
pub open spec fn list_fault(
    worker: FsWorker,
    authorization: Authorization,
    target: PathText,
    seen: Resolution,
    is_dir: Result<bool, IoFault>,
    depth: usize,
    max_entries: usize,
) -> Option<FsFault> {
    first(
        auto_fault(authorization, "filesystem.list"@, target.text@),
        first(
            if depth > MAX_LIST_DEPTH || max_entries == 0 || max_entries > MAX_LIST_ENTRIES {
                Some(FsFault::InvalidParameters)
            } else {
                None
            },
            first(
                existing_fault(worker, target, seen),
                match is_dir {
                    Err(fault) => Some(FsFault::Io(fault)),
                    Ok(true) => None,
                    Ok(false) => Some(FsFault::UnsafePath),
                },
            ),
        ),
    )
}

/// Why nothing can be said of a file, if nothing can.
pub open spec fn info_fault(
    worker: FsWorker,
    authorization: Authorization,
    target: PathText,
    seen: Resolution,
    metadata: Result<Metadata, IoFault>,
) -> Option<FsFault> {
    first(
        auto_existing_fault(worker, authorization, "filesystem.info"@, target, seen),
        match metadata {
            Err(fault) => Some(FsFault::Io(fault)),
            Ok(_) => None,
        },
    )
}

/// Why an edit cannot be prepared, if it cannot.
pub open spec fn edit_fault(
    worker: FsWorker,
    authorization: Authorization,
    edits: Seq<TextEdit>,
    target: PathText,
    seen: Resolution,
    original: Result<Vec<u8>, IoFault>,
) -> Option<FsFault> {
    first(
        approval_fault(authorization, "filesystem.write"@, target.text@),
        first(
            if edits::edits_allowed(edits) {
                None
            } else {
                Some(FsFault::InvalidEditParameters)
            },
            first(
                existing_fault(worker, target, seen),
                match original {
                    Err(fault) => Some(FsFault::Io(fault)),
                    Ok(original) => match edits::edited_file(original@, edits) {
                        Err(fault) => Some(fault),
                        Ok(_) => None,
                    },
                },
            ),
        ),
    )
}

/// The digest of some bytes, as it is written.
pub open spec fn digest_text(bytes: Seq<u8>) -> Seq<char> {
    codec::hex_text(crypto::sha256_of(bytes))
}

pub(crate) fn sha256_hex(content: &[u8]) -> (digest: String)
    ensures
        digest@ == digest_text(content@),
{
    let digest = crypto::sha256(content);
    codec::to_hex(digest.as_slice())
}

impl FsWorker {
    /// A worker that acts below the roots.
    pub fn new(roots: &Vec<RootObservation>, journal: JournalObservation) -> (r: Result<
        Self,
        FsError,
    >)
        ensures
            r is Err == worker_fault(roots@, journal) is Some,
            r is Err ==> r->Err_0@ == worker_fault(roots@, journal)->0,
            r is Ok ==> r->Ok_0.journal_dir == journal.canonical->Ok_0
                && r->Ok_0.allowed_roots@.len() == roots@.len() && forall|i: int|
                0 <= i < roots@.len() ==> (#[trigger] r->Ok_0.allowed_roots@[i])@
                    == roots@[i].seen.canonical->Ok_0.path@,
    {
        let mut allowed_roots: Vec<PathText> = Vec::new();
        let mut i: usize = 0;
        while i < roots.len()
            invariant
                i <= roots@.len(),
                roots_fault(roots@.take(i as int)) is None,
                allowed_roots@.len() == i,
                forall|k: int|
                    0 <= k < i ==> (#[trigger] allowed_roots@[k])@
                        == roots@[k].seen.canonical->Ok_0.path@,
            decreases roots@.len() - i,
        {
            proof {
                assert(roots@.take(i + 1).drop_last() =~= roots@.take(i as int));
                if roots_fault(roots@.take(i + 1)) is Some {
                    lemma_roots_prefix(roots@, i + 1);
                }
            }
            match followed(&roots[i].path, &roots[i].seen) {
                Err(error) => {
                    return Err(error);
                },
                Ok(found) => {
                    allowed_roots.push(paths::copy_path(&found.path));
                },
            }
            i = i + 1;
        }
        proof {
            assert(roots@.take(i as int) =~= roots@);
        }
        if allowed_roots.len() == 0 {
            return Err(FsError::NoAllowedRoots);
        }
        if let Err(fault) = journal.created {
            return Err(FsError::Io(fault));
        }
        match journal.reparse {
            Err(fault) => {
                return Err(FsError::Io(fault));
            },
            Ok(Some(component)) => {
                return Err(FsError::ReparsePoint(component));
            },
            Ok(None) => {},
        }
        match journal.canonical {
            Err(fault) => Err(FsError::Io(fault)),
            Ok(journal_dir) => Ok(FsWorker { allowed_roots, journal_dir }),
        }
    }

    /// Does a path in its canonical form lie below a root?
    pub fn ensure_allowed(&self, path: &PathText) -> (r: Result<(), FsError>)
        ensures
            r is Err == allowed_fault(*self, *path) is Some,
            r is Err ==> r->Err_0@ == allowed_fault(*self, *path)->0,
    {
        if paths::below_any(path, &self.allowed_roots) {
            Ok(())
        } else {
            Err(FsError::OutsideAllowedRoots)
        }
    }

    /// Where something that exists really is, if it may be used.
    pub fn resolve_existing<'a>(&self, target: &PathText, seen: &'a Resolution) -> (r: Result<
        &'a PathText,
        FsError,
    >)
        ensures
            r is Err == existing_fault(*self, *target, *seen) is Some,
            r is Err ==> r->Err_0@ == existing_fault(*self, *target, *seen)->0,
            r is Ok ==> *r->Ok_0 == seen.canonical->Ok_0.path,
    {
        let found = match followed(target, seen) {
            Err(error) => {
                return Err(error);
            },
            Ok(found) => found,
        };
        match self.ensure_allowed(&found.path) {
            Err(error) => Err(error),
            Ok(()) => Ok(&found.path),
        }
    }

    /// The file that is to be read whole.
    pub fn read<'a>(
        &self,
        authorization: &Authorization,
        target: &PathText,
        seen: &'a Resolution,
        len: Result<u64, IoFault>,
    ) -> (r: Result<&'a PathText, FsError>)
        ensures
            r is Err == read_fault(
                *self,
                *authorization,
                *target,
                *seen,
                len,
                usize::MAX,
            ) is Some,
            r is Err ==> r->Err_0@ == read_fault(
                *self,
                *authorization,
                *target,
                *seen,
                len,
                usize::MAX,
            )->0,
            r is Ok ==> *r->Ok_0 == seen.canonical->Ok_0.path,
    {
        self.read_limited(authorization, target, seen, len, usize::MAX)
    }

    /// The file that is to be read whole, where it is not longer than allowed.
    pub fn read_limited<'a>(
        &self,
        authorization: &Authorization,
        target: &PathText,
        seen: &'a Resolution,
        len: Result<u64, IoFault>,
        max_bytes: usize,
    ) -> (r: Result<&'a PathText, FsError>)
        ensures
            r is Err == read_fault(
                *self,
                *authorization,
                *target,
                *seen,
                len,
                max_bytes,
            ) is Some,
            r is Err ==> r->Err_0@ == read_fault(
                *self,
                *authorization,
                *target,
                *seen,
                len,
                max_bytes,
            )->0,
            r is Ok ==> *r->Ok_0 == seen.canonical->Ok_0.path,
    {
        if let Err(error) = ensure_auto_action(authorization, "filesystem.read", target) {
            return Err(error);
        }
        let path = match self.resolve_existing(target, seen) {
            Err(error) => {
                return Err(error);
            },
            Ok(path) => path,
        };
        let len: u64 = match len {
            Err(fault) => {
                return Err(FsError::Io(fault));
            },
            Ok(len) => len,
        };
        if len > max_bytes as u64 {
            return Err(FsError::ReadLimitExceeded { len, max_bytes });
        }
        Ok(path)
    }

    /// The file of which a range is to be read.
    pub fn read_range<'a>(
        &self,
        authorization: &Authorization,
        target: &PathText,
        seen: &'a Resolution,
        length: usize,
        max_bytes: usize,
    ) -> (r: Result<&'a PathText, FsError>)
        ensures
            r is Err == range_fault(
                *self,
                *authorization,
                *target,
                *seen,
                length,
                max_bytes,
            ) is Some,
            r is Err ==> r->Err_0@ == range_fault(
                *self,
                *authorization,
                *target,
                *seen,
                length,
                max_bytes,
            )->0,
            r is Ok ==> *r->Ok_0 == seen.canonical->Ok_0.path,
    {
        if let Err(error) = ensure_auto_action(authorization, "filesystem.read", target) {
            return Err(error);
        }
        if length > max_bytes {
            return Err(FsError::ReadLimitExceeded { len: length as u64, max_bytes });
        }
        self.resolve_existing(target, seen)
    }

    /// Lines of a file, by what it holds.
    pub fn read_lines(
        &self,
        authorization: &Authorization,
        target: &PathText,
        seen: &Resolution,
        bytes: Result<Vec<u8>, IoFault>,
        line_start: usize,
        line_count: usize,
        max_bytes: usize,
    ) -> (r: Result<Vec<u8>, FsError>)
        ensures
            ({
                let fault = lines_fault(
                    *self,
                    *authorization,
                    *target,
                    *seen,
                    bytes,
                    line_start,
                    line_count,
                    max_bytes,
                );
                &&& r is Err == fault is Some
                &&& r is Err ==> r->Err_0@ == fault->0
                &&& r is Ok ==> r->Ok_0@ == fitting_lines(
                    asked_lines(bytes->Ok_0@, line_start as nat, line_count as nat),
                    max_bytes as nat,
                )->Ok_0
            }),
    {
        if let Err(error) = ensure_auto_action(authorization, "filesystem.read", target) {
            return Err(error);
        }
        if line_start == 0 {
            return Err(FsError::InvalidParameters);
        }
        if let Err(error) = self.resolve_existing(target, seen) {
            return Err(error);
        }
        match bytes {
            Err(fault) => Err(FsError::Io(fault)),
            Ok(bytes) => select_lines(&bytes, line_start, line_count, max_bytes),
        }
    }

    /// Begins to list a directory: where the walk starts, and what it gathers.
    pub fn list_directory(
        &self,
        authorization: &Authorization,
        target: &PathText,
        seen: &Resolution,
        is_dir: Result<bool, IoFault>,
        depth: usize,
        max_entries: usize,
    ) -> (r: Result<(Walk, Listing), FsError>)
        ensures
            ({
                let fault = list_fault(
                    *self,
                    *authorization,
                    *target,
                    *seen,
                    is_dir,
                    depth,
                    max_entries,
                );
                &&& r is Err == fault is Some
                &&& r is Err ==> r->Err_0@ == fault->0
                &&& r is Ok ==> starts_at(r->Ok_0.0, seen.canonical->Ok_0.path@, depth)
                &&& r is Ok ==> r->Ok_0.1.entries@.len() == 0 && r->Ok_0.1.max_entries
                    == max_entries
            }),
    {
        if let Err(error) = ensure_auto_action(authorization, "filesystem.list", target) {
            return Err(error);
        }
        if depth > MAX_LIST_DEPTH || max_entries == 0 || max_entries > MAX_LIST_ENTRIES {
            return Err(FsError::InvalidParameters);
        }
        let root = match self.resolve_existing(target, seen) {
            Err(error) => {
                return Err(error);
            },
            Ok(root) => root,
        };
        match is_dir {
            Err(fault) => Err(FsError::Io(fault)),
            Ok(false) => Err(FsError::UnsafePath),
            Ok(true) => Ok((Walk::new(root, depth), Listing { entries: Vec::new(), max_entries })),
        }
    }

    /// What can be said of a file.
    pub fn file_info(
        &self,
        authorization: &Authorization,
        target: &PathText,
        seen: &Resolution,
        metadata: Result<Metadata, IoFault>,
    ) -> (r: Result<FileInfo, FsError>)
        ensures
            ({
                let fault = info_fault(*self, *authorization, *target, *seen, metadata);
                &&& r is Err == fault is Some
                &&& r is Err ==> r->Err_0@ == fault->0
            }),
            r is Ok ==> ({
                let info = r->Ok_0;
                let found = metadata->Ok_0;
                &&& info.path@ == seen.canonical->Ok_0.path.text@
                &&& info.entry_type@ == kind_name(found.kind)
                &&& info.size == found.size
                &&& info.created_unix_ms == found.created_unix_ms
                &&& info.modified_unix_ms == found.modified_unix_ms
                &&& info.accessed_unix_ms == found.accessed_unix_ms
                &&& info.read_only == found.read_only
            }),
    {
        if let Err(error) = ensure_auto_action(authorization, "filesystem.info", target) {
            return Err(error);
        }
        let path = match self.resolve_existing(target, seen) {
            Err(error) => {
                return Err(error);
            },
            Ok(path) => path,
        };
        match metadata {
            Err(fault) => Err(FsError::Io(fault)),
            Ok(found) => Ok(
                FileInfo {
                    path: path.text.clone(),
                    entry_type: entry_type(found.kind),
                    size: found.size,
                    created_unix_ms: found.created_unix_ms,
                    modified_unix_ms: found.modified_unix_ms,
                    accessed_unix_ms: found.accessed_unix_ms,
                    read_only: found.read_only,
                },
            ),
        }
    }

    /// Prepares an edit of a file, by what it holds. Nothing is written.
    pub fn prepare_edit(
        &self,
        authorization: &Authorization,
        edits: &Vec<TextEdit>,
        target: &PathText,
        seen: &Resolution,
        original: Result<Vec<u8>, IoFault>,
    ) -> (r: Result<PreparedEdit, FsError>)
        ensures
            ({
                let fault = edit_fault(*self, *authorization, edits@, *target, *seen, original);
                &&& r is Err == fault is Some
                &&& r is Err ==> r->Err_0@ == fault->0
            }),
            r is Ok ==> ({
                let before = original->Ok_0@;
                &&& r->Ok_0.content@ == edits::edited_file(before, edits@)->Ok_0
                &&& r->Ok_0.original_sha256@ == digest_text(before)
                &&& r->Ok_0.diff_summary@ == edits::edited_summary(before, edits@).0
                &&& r->Ok_0.diff_truncated == edits::edited_summary(before, edits@).1
            }),
    {
        if let Err(error) = ensure_approval_action(authorization, "filesystem.write", target) {
            return Err(error);
        }
        if !edits::edits_fit(edits) {
            return Err(FsError::InvalidEditParameters);
        }
        if let Err(error) = self.resolve_existing(target, seen) {
            return Err(error);
        }
        let original = match original {
            Err(fault) => {
                return Err(FsError::Io(fault));
            },
            Ok(original) => original,
        };
        match edits::edit_file(original.as_slice(), edits) {
            Err(error) => Err(error),
            Ok((content, diff_summary, diff_truncated)) => Ok(
                PreparedEdit {
                    content,
                    original_sha256: sha256_hex(original.as_slice()),
                    diff_summary,
                    diff_truncated,
                },
            ),
        }
    }
}

// ---------------------------------------------------------------------------
// Walks

/// A directory that is still to be read, and how deep it lies.
#[derive(Debug)]
pub struct PendingDirectory {
    pub path: PathText,
    pub level: usize,
}

/// A walk through directories, down to a depth.
#[derive(Debug)]
pub struct Walk {
    pub pending: Vec<PendingDirectory>,
    pub depth: usize,
}

/// What was found of an entry of a directory.
#[derive(Debug)]
pub struct EntryObservation {
    pub is_link: Result<bool, IoFault>,
    pub canonical: Result<PathText, IoFault>,
    pub metadata: Metadata,
}

pub open spec fn starts_at(walk: Walk, root: PathModel, depth: usize) -> bool {
    &&& walk.depth == depth
    &&& walk.pending@.len() == 1
    &&& walk.pending@[0].path@ == root
    &&& walk.pending@[0].level == 0
}

/// The directories that are read, without those that lie too deep.
pub open spec fn shallow(pending: Seq<PendingDirectory>, depth: usize) -> Seq<PendingDirectory>
    decreases pending.len(),
{
    if pending.len() == 0 {
        pending
    } else if pending.last().level >= depth {
        shallow(pending.drop_last(), depth)
    } else {
        pending
    }
}

impl Walk {
    pub fn new(root: &PathText, depth: usize) -> (walk: Self)
        ensures
            starts_at(walk, root@, depth),
    {
        let mut pending: Vec<PendingDirectory> = Vec::new();
        pending.push(PendingDirectory { path: paths::copy_path(root), level: 0 });
        Walk { pending, depth }
    }

    /// The next directory to read: the last that was put off and is not too deep.
    pub fn next_directory(&mut self) -> (r: Option<PendingDirectory>)
        ensures
            final(self).depth == old(self).depth,
            ({
                let left = shallow(old(self).pending@, old(self).depth);
                if left.len() == 0 {
                    r is None && final(self).pending@.len() == 0
                } else {
                    r == Some(left.last()) && final(self).pending@ == left.drop_last()
                }
            }),
            r is Some ==> r->0.level < final(self).depth,
    {
        while self.pending.len() > 0
            invariant
                self.depth == old(self).depth,
                shallow(self.pending@, self.depth) == shallow(old(self).pending@, old(self).depth),
            decreases self.pending@.len(),
        {
            let ghost before = self.pending@;
            match self.pending.pop() {
                None => {
                    return None;
                },
                Some(directory) => {
                    assert(self.pending@ == before.drop_last());
                    assert(directory == before.last());
                    if directory.level < self.depth {
                        return Some(directory);
                    }
                },
            }
        }
        None
    }

    /// Goes on behind an entry that was found in a directory of a level: one that
    /// is a directory itself is put off, to be read later.
    pub fn pass(&mut self, path: &PathText, kind: FileKind, level: usize)
        requires
            level < old(self).depth,
        ensures
            final(self).depth == old(self).depth,
            kind != FileKind::Directory ==> *final(self) == *old(self),
            kind == FileKind::Directory ==> {
                &&& final(self).pending@.len() == old(self).pending@.len() + 1
                &&& final(self).pending@.drop_last() == old(self).pending@
                &&& final(self).pending@.last().path@ == path@
                &&& final(self).pending@.last().level == level + 1
            },
    {
        if kind != FileKind::Directory {
            return;
        }
        self.pending.push(PendingDirectory { path: paths::copy_path(path), level: level + 1 });
        proof {
            assert(self.pending@.drop_last() =~= old(self).pending@);
        }
    }
}

/// Why a walk stops at an entry, if it does.
pub open spec fn entry_fault(worker: FsWorker, entry: EntryObservation) -> Option<FsFault> {
    match entry.is_link {
        Err(fault) => Some(FsFault::Io(fault)),
        Ok(true) => None,
        Ok(false) => match entry.canonical {
            Err(fault) => Some(FsFault::Io(fault)),
            Ok(path) => allowed_fault(worker, path),
        },
    }
}

impl FsWorker {
    /// The path of an entry that a walk visits; nothing for one that it passes by.
    pub fn visited<'a>(&self, entry: &'a EntryObservation) -> (r: Result<
        Option<&'a PathText>,
        FsError,
    >)
        ensures
            r is Err == entry_fault(*self, *entry) is Some,
            r is Err ==> r->Err_0@ == entry_fault(*self, *entry)->0,
            r is Ok ==> r->Ok_0 is None == (entry.is_link == Ok::<bool, IoFault>(true)),
            r is Ok && r->Ok_0 is Some ==> *r->Ok_0->0 == entry.canonical->Ok_0,
    {
        match entry.is_link {
            Err(fault) => {
                return Err(FsError::Io(fault));
            },
            Ok(true) => {
                return Ok(None);
            },
            Ok(false) => {},
        }
        match &entry.canonical {
            Err(fault) => Err(FsError::Io(*fault)),
            Ok(path) => match self.ensure_allowed(path) {
                Err(error) => Err(error),
                Ok(()) => Ok(Some(path)),
            },
        }
    }
}

/// The names in an order: no later one comes before an earlier one.
pub open spec fn in_order(names: Seq<Vec<u8>>, order: Seq<usize>) -> bool {
    forall|i: int, j: int|
        0 <= i < j < order.len() ==> !table::bytes_before(
            names[(#[trigger] order[j]) as int]@,
            names[(#[trigger] order[i]) as int]@,
        )
}

/// The order in which a walk takes the entries of a directory, by the bytes of
/// their names: the places of the names.
pub fn walk_order(names: &Vec<Vec<u8>>) -> (order: Vec<usize>)
    ensures
        order@.len() == names@.len(),
        order@.no_duplicates(),
        forall|i: int| 0 <= i < order@.len() ==> #[trigger] order@[i] < names@.len(),
        in_order(names@, order@),
{
    let mut order: Vec<usize> = Vec::new();
    let mut i: usize = 0;
    while i < names.len()
        invariant
            i <= names@.len(),
            order@.len() == i,
            order@.no_duplicates(),
            forall|k: int| 0 <= k < order@.len() ==> #[trigger] order@[k] < i,
            in_order(names@, order@),
        decreases names@.len() - i,
    {
        let mut at: usize = order.len();
        while at > 0 && table::bytes_come_before(
            names[i].as_slice(),
            names[order[at - 1]].as_slice(),
        )
            invariant
                at <= order@.len(),
                i < names@.len(),
                forall|k: int| 0 <= k < order@.len() ==> #[trigger] order@[k] < i,
                forall|k: int|
                    at <= k < order@.len() ==> table::bytes_before(
                        names@[i as int]@,
                        names@[(#[trigger] order@[k]) as int]@,
                    ),
            decreases at,
        {
            at = at - 1;
        }
        let ghost before = order@;
        order.insert(at, i);
        proof {
            assert(order@ =~= before.insert(at as int, i));
            lemma_inserted(names@, before, at as int, i);
            assert forall|a: int, b: int| 0 <= a < b < order@.len() implies order@[a] != order@[b] by {
                let a0 = if a < at { a } else { a - 1 };
                let b0 = if b < at { b } else { b - 1 };
                if a != at && b != at {
                    assert(order@[a] == before[a0] && order@[b] == before[b0]);
                } else if a == at {
                    assert(order@[b] == before[b0]);
                } else {
                    assert(order@[a] == before[a0]);
                }
            }
            assert forall|k: int| 0 <= k < order@.len() implies #[trigger] order@[k] < i + 1 by {
                if k < at {
                    assert(order@[k] == before[k]);
                } else if k > at {
                    assert(order@[k] == before[k - 1]);
                }
            }
        }
        i = i + 1;
    }
    order
}

proof fn lemma_inserted(names: Seq<Vec<u8>>, order: Seq<usize>, at: int, new: usize)
    requires
        0 <= at <= order.len(),
        in_order(names, order),
        at > 0 ==> !table::bytes_before(names[new as int]@, names[order[at - 1] as int]@),
        forall|k: int|
            at <= k < order.len() ==> table::bytes_before(
                names[new as int]@,
                names[(#[trigger] order[k]) as int]@,
            ),
    ensures
        in_order(names, order.insert(at, new)),
{
    let after = order.insert(at, new);
    let name = names[new as int]@;
    assert forall|i: int, j: int| 0 <= i < j < after.len() implies !table::bytes_before(
        names[(#[trigger] after[j]) as int]@,
        names[(#[trigger] after[i]) as int]@,
    ) by {
        if j < at {
            assert(after[i] == order[i] && after[j] == order[j]);
        } else if j == at {
            assert(after[i] == order[i] && after[j] == new);
            let last = names[order[at - 1] as int]@;
            let early = names[order[i] as int]@;
            if i < at - 1 && table::bytes_before(name, early) {
                assert(!table::bytes_before(last, early));
                table::lemma_bytes_chain(name, early, last);
            }
        } else if i < at {
            assert(after[i] == order[i] && after[j] == order[j - 1]);
        } else if i == at {
            assert(after[i] == new && after[j] == order[j - 1]);
            table::lemma_bytes_strict(name, names[order[j - 1] as int]@);
        } else {
            assert(after[i] == order[i - 1] && after[j] == order[j - 1]);
        }
    }
}

/// A listing under way: what it gathered, and how much it may gather.
#[derive(Debug)]
pub struct Listing {
    pub entries: Vec<DirectoryEntry>,
    pub max_entries: usize,
}

pub open spec fn is_entry(entry: DirectoryEntry, path: PathModel, metadata: Metadata) -> bool {
    &&& entry.path@ == path.text
    &&& entry.name@ == (match paths::last_name(path) {
        Some(name) => name,
        None => Seq::empty(),
    })
    &&& entry.entry_type@ == kind_name(metadata.kind)
    &&& entry.size == metadata.size
    &&& entry.mtime_unix_ms == metadata.modified_unix_ms
}

impl Listing {
    /// Takes in an entry. Says whether the walk goes on.
    pub fn visit(&mut self, path: &PathText, metadata: &Metadata) -> (go_on: bool)
        ensures
            final(self).max_entries == old(self).max_entries,
            old(self).entries@.len() >= old(self).max_entries ==> *final(self) == *old(self)
                && !go_on,
            old(self).entries@.len() < old(self).max_entries ==> {
                &&& final(self).entries@.len() == old(self).entries@.len() + 1
                &&& final(self).entries@.drop_last() == old(self).entries@
                &&& is_entry(final(self).entries@.last(), path@, *metadata)
                &&& go_on == (final(self).entries@.len() < final(self).max_entries)
            },
    {
        if self.entries.len() >= self.max_entries {
            return false;
        }
        let name = match paths::file_name(path) {
            Some(name) => name.clone(),
            None => text::copied(""),
        };
        proof {
            reveal_strlit("");
            assert(""@ =~= Seq::<char>::empty());
        }
        self.entries.push(
            DirectoryEntry {
                path: path.text.clone(),
                name,
                entry_type: entry_type(metadata.kind),
                size: metadata.size,
                mtime_unix_ms: metadata.modified_unix_ms,
            },
        );
        proof {
            assert(self.entries@.drop_last() =~= old(self).entries@);
        }
        self.entries.len() < self.max_entries
    }
}

// ---------------------------------------------------------------------------
// Laws

/// Nothing outside the roots is ever touched: whatever may be used, or visited by
/// a walk, is a root or lies below one.
pub proof fn workers_stay_below_their_roots(
    worker: FsWorker,
    path: PathText,
    seen: Resolution,
    entry: EntryObservation,
)
    ensures
        existing_fault(worker, path, seen) is None ==> paths::below_some(
            seen.canonical->Ok_0.path,
            worker.allowed_roots@,
        ) && !paths::leads_up(path@),
        entry_fault(worker, entry) is None && entry.is_link == Ok::<bool, IoFault>(false)
            ==> paths::below_some(entry.canonical->Ok_0, worker.allowed_roots@),
{
}

/// A path that leads up is refused by every tool, as long as the authorization is
/// good.
pub proof fn parent_traversal_is_refused(
    worker: FsWorker,
    authorization: Authorization,
    action: Seq<char>,
    target: PathText,
    seen: Resolution,
)
    requires
        paths::leads_up(target@),
        auto_fault(authorization, action, target.text@) is None,
    ensures
        auto_existing_fault(worker, authorization, action, target, seen) == Some(
            FsFault::UnsafePath,
        ),
{
}

/// What is read, listed, described or prepared for an edit is what was found at the
/// target of the authorized request.
pub proof fn only_the_authorized_target_is_used(
    worker: FsWorker,
    authorization: Authorization,
    target: PathText,
    seen: Resolution,
)
    ensures
        forall|len: Result<u64, IoFault>, max: usize| #[trigger]
            read_fault(worker, authorization, target, seen, len, max) is None ==> target.text@
                == authorization.request.envelope.target@,
        forall|length: usize, max: usize| #[trigger]
            range_fault(worker, authorization, target, seen, length, max) is None ==> target.text@
                == authorization.request.envelope.target@,
        forall|bytes: Result<Vec<u8>, IoFault>, start: usize, count: usize, max: usize| #[trigger]
            lines_fault(worker, authorization, target, seen, bytes, start, count, max) is None
                ==> target.text@ == authorization.request.envelope.target@,
        forall|is_dir: Result<bool, IoFault>, depth: usize, max: usize| #[trigger]
            list_fault(worker, authorization, target, seen, is_dir, depth, max) is None
                ==> target.text@ == authorization.request.envelope.target@,
        forall|metadata: Result<Metadata, IoFault>| #[trigger]
            info_fault(worker, authorization, target, seen, metadata) is None ==> target.text@
                == authorization.request.envelope.target@,
        forall|edits: Seq<TextEdit>, original: Result<Vec<u8>, IoFault>| #[trigger]
            edit_fault(worker, authorization, edits, target, seen, original) is None
                ==> target.text@ == authorization.request.envelope.target@,
{
}

/// The lines that are read are no more bytes than allowed, and are those asked
/// for, one after the other.
pub proof fn line_reads_are_bounded(lines: Seq<Seq<u8>>, max: nat)
    ensures
        fitting_lines(lines, max) is Ok ==> fitting_lines(lines, max)->Ok_0.len() <= max,
        fitting_lines(lines, max) is Ok ==> fitting_lines(lines, max)->Ok_0 == lines.flatten(),
        fitting_lines(lines, max) is Err ==> fitting_lines(lines, max)->Err_0 > max,
    decreases lines.len(),
{
    if lines.len() > 0 {
        line_reads_are_bounded(lines.drop_last(), max);
        lines.lemma_flatten_and_flatten_alt_are_equivalent();
        lines.drop_last().lemma_flatten_and_flatten_alt_are_equivalent();
    }
}

/// The lines of some bytes are the bytes, cut behind every line feed: put one after
/// the other they are the bytes again, no line is empty, none has a line feed before
/// its last byte, and all but the last end with one.
pub proof fn lines_are_cut_behind_every_feed(bytes: Seq<u8>)
    ensures
        byte_lines(bytes).flatten() == bytes,
        forall|i: int|
            0 <= i < byte_lines(bytes).len() ==> (#[trigger] byte_lines(bytes)[i]).len() > 0,
        forall|i: int, k: int|
            0 <= i < byte_lines(bytes).len() && 0 <= k < byte_lines(bytes)[i].len() - 1
                ==> #[trigger] byte_lines(bytes)[i][k] != 10,
        forall|i: int|
            0 <= i < byte_lines(bytes).len() - 1 ==> (#[trigger] byte_lines(bytes)[i]).last() == 10,
    decreases bytes.len(),
{
    if bytes.len() > 0 {
        lemma_feed_found(bytes, 0);
        let k = feed_index(bytes, 0);
        if k < bytes.len() {
            let rest = byte_lines(bytes.skip(k + 1));
            let all = byte_lines(bytes);
            lines_are_cut_behind_every_feed(bytes.skip(k + 1));
            assert(all.drop_first() =~= rest);
            assert(all.flatten() =~= bytes.take(k + 1) + bytes.skip(k + 1));
            assert(bytes.take(k + 1) + bytes.skip(k + 1) =~= bytes);
            assert forall|i: int| 0 < i < all.len() implies all[i] == rest[i - 1] by {}
            assert forall|i: int, j: int|
                0 <= i < all.len() && 0 <= j < all[i].len() - 1 implies #[trigger] all[i][j]
                != 10 by {
                if i > 0 {
                    assert(rest[i - 1][j] != 10);
                }
            }
            assert forall|i: int| 0 <= i < all.len() implies (#[trigger] all[i]).len() > 0 by {
                if i > 0 {
                    assert(rest[i - 1].len() > 0);
                }
            }
            assert forall|i: int| 0 <= i < all.len() - 1 implies (#[trigger] all[i]).last()
                == 10 by {
                if i > 0 {
                    assert(rest[i - 1].last() == 10);
                }
            }
        } else {
            seq![bytes].lemma_flatten_one_element();
        }
    }
}

proof fn lemma_feed_found(bytes: Seq<u8>, i: int)
    requires
        0 <= i <= bytes.len(),
    ensures
        i <= feed_index(bytes, i) <= bytes.len(),
        forall|k: int| i <= k < feed_index(bytes, i) ==> #[trigger] bytes[k] != 10,
        feed_index(bytes, i) < bytes.len() ==> bytes[feed_index(bytes, i)] == 10,
    decreases bytes.len() - i,
{
    if i < bytes.len() && bytes[i] != 10 {
        lemma_feed_found(bytes, i + 1);
    }
}

/// Line number `start` and those behind it are read, `count` in all or as many as
/// there are: what is read stands in the bytes behind the `start - 1` lines before
/// it, and before the lines that are left.
pub proof fn the_lines_asked_for_are_read(bytes: Seq<u8>, start: nat, count: nat)
    requires
        start > 0,
    ensures
        ({
            let lines = byte_lines(bytes);
            let asked = asked_lines(bytes, start, count);
            &&& forall|i: int|
                0 <= i < asked.len() ==> #[trigger] asked[i] == lines[start - 1 + i]
            &&& asked.len() <= count
            &&& start - 1 >= lines.len() ==> asked.len() == 0
            &&& asked.len() < count && start - 1 < lines.len() ==> start - 1 + asked.len()
                == lines.len()
            &&& start - 1 < lines.len() ==> bytes == lines.take(start - 1).flatten()
                + asked.flatten() + lines.skip(start - 1 + asked.len()).flatten()
        }),
{
    let lines = byte_lines(bytes);
    let asked = asked_lines(bytes, start, count);
    lines_are_cut_behind_every_feed(bytes);
    if start - 1 < lines.len() {
        let a = lines.take(start - 1);
        let c = lines.skip(start - 1 + asked.len());
        assert(lines =~= a + asked + c);
        vstd::seq_lib::lemma_flatten_concat(a + asked, c);
        vstd::seq_lib::lemma_flatten_concat(a, asked);
    }
}

/// Lines are read if and only if all their bytes together are no more than allowed;
/// else the length is told of the shortest start of them that is too long.
pub proof fn lines_that_fit_are_read(lines: Seq<Seq<u8>>, max: nat)
    ensures
        fitting_lines(lines, max) is Ok == (lines.flatten().len() <= max),
        fitting_lines(lines, max) is Err ==> exists|n: int|
            #![trigger lines.take(n)]
            0 < n <= lines.len() && fitting_lines(lines, max)->Err_0 == lines.take(
                n,
            ).flatten().len() && lines.take(n - 1).flatten().len() <= max,
    decreases lines.len(),
{
    if lines.len() > 0 {
        let shorter = lines.drop_last();
        lines_that_fit_are_read(shorter, max);
        line_reads_are_bounded(shorter, max);
        lines.lemma_flatten_and_flatten_alt_are_equivalent();
        shorter.lemma_flatten_and_flatten_alt_are_equivalent();
        if fitting_lines(lines, max) is Err {
            if fitting_lines(shorter, max) is Err {
                let n = choose|n: int|
                    #![trigger shorter.take(n)]
                    0 < n <= shorter.len() && fitting_lines(shorter, max)->Err_0 == shorter.take(
                        n,
                    ).flatten().len() && shorter.take(n - 1).flatten().len() <= max;
                assert(lines.take(n) =~= shorter.take(n));
                assert(lines.take(n - 1) =~= shorter.take(n - 1));
            } else {
                assert(lines.take(lines.len() as int) =~= lines);
                assert(lines.take(lines.len() - 1) =~= shorter);
            }
        }
    }
}

/// Something that exists may be touched if and only if its path is absolute and leads
/// nowhere up, none of its components leads elsewhere, it can be resolved, and what it
/// resolves to is a root or below one.
pub proof fn what_exists_is_touched_exactly_when_it_may_be(
    worker: FsWorker,
    path: PathText,
    seen: Resolution,
)
    ensures
        existing_fault(worker, path, seen) is None == {
            &&& path.absolute
            &&& forall|i: int|
                0 <= i < path@.parts.len() ==> !((#[trigger] path@.parts[i]) is ParentDir)
            &&& seen.reparse == Ok::<Option<String>, IoFault>(None)
            &&& seen.canonical is Ok
            &&& exists|i: int|
                0 <= i < worker.allowed_roots@.len() && paths::folded_within(
                    seen.canonical->Ok_0.path.text@,
                    (#[trigger] worker.allowed_roots@[i]).text@,
                )
        },
        !path.absolute ==> existing_fault(worker, path, seen) == Some(FsFault::UnsafePath),
        path_fault(path, seen.reparse) is None && seen.canonical is Ok && existing_fault(
            worker,
            path,
            seen,
        ) is Some ==> existing_fault(worker, path, seen) == Some(FsFault::OutsideAllowedRoots),
{
}

/// A worker is made if and only if there is a root, each can be followed, and the directory
/// for the journal was created, leads nowhere else, and can be resolved.
pub proof fn workers_are_made_exactly_when_their_places_hold(
    roots: Seq<RootObservation>,
    journal: JournalObservation,
)
    ensures
        worker_fault(roots, journal) is None == {
            &&& roots.len() > 0
            &&& forall|i: int|
                0 <= i < roots.len() ==> follow_fault(
                    (#[trigger] roots[i]).path,
                    roots[i].seen,
                ) is None
            &&& journal.created is Ok
            &&& journal.reparse == Ok::<Option<String>, IoFault>(None)
            &&& journal.canonical is Ok
        },
{
    lemma_all_roots(roots);
}

proof fn lemma_all_roots(roots: Seq<RootObservation>)
    ensures
        roots_fault(roots) is None == forall|i: int|
            0 <= i < roots.len() ==> follow_fault((#[trigger] roots[i]).path, roots[i].seen) is None,
    decreases roots.len(),
{
    if roots.len() > 0 {
        let shorter = roots.drop_last();
        lemma_all_roots(shorter);
        if roots_fault(roots) is None {
            assert forall|i: int| 0 <= i < roots.len() implies follow_fault(
                (#[trigger] roots[i]).path,
                roots[i].seen,
            ) is None by {
                if i < shorter.len() {
                    assert(shorter[i] == roots[i]);
                }
            }
        }
        if forall|i: int|
            0 <= i < roots.len() ==> follow_fault((#[trigger] roots[i]).path, roots[i].seen)
                is None {
            assert forall|i: int| 0 <= i < shorter.len() implies follow_fault(
                (#[trigger] shorter[i]).path,
                shorter[i].seen,
            ) is None by {
                assert(shorter[i] == roots[i]);
            }
        }
    }
}

/// Reading, listing and telling of files is done if and only if the request is authorized
/// to just that, the file may be touched, it could be looked at, and what is asked for is
/// within the limits: at most the allowed bytes, lines from number one on, at most sixteen
/// levels and from one to ten thousand entries of a directory.
pub proof fn files_are_read_exactly_when_they_may_be(
    worker: FsWorker,
    authorization: Authorization,
    target: PathText,
    seen: Resolution,
    max_bytes: usize,
)
    ensures
        ({
            let may = |action: Seq<char>|
                auto_fault(authorization, action, target.text@) is None && existing_fault(
                    worker,
                    target,
                    seen,
                ) is None;
            &&& forall|len: Result<u64, IoFault>|
                #![trigger read_fault(worker, authorization, target, seen, len, max_bytes)]
                read_fault(worker, authorization, target, seen, len, max_bytes) is None == (may(
                    "filesystem.read"@,
                ) && len is Ok && len->Ok_0 <= max_bytes)
            &&& forall|length: usize|
                #![trigger range_fault(worker, authorization, target, seen, length, max_bytes)]
                range_fault(worker, authorization, target, seen, length, max_bytes) is None == (may(
                    "filesystem.read"@,
                ) && length <= max_bytes)
            &&& forall|bytes: Result<Vec<u8>, IoFault>, start: usize, count: usize|
                #![trigger lines_fault(worker, authorization, target, seen, bytes, start, count, max_bytes)]
                lines_fault(worker, authorization, target, seen, bytes, start, count, max_bytes)
                    is None == (may("filesystem.read"@) && start >= 1 && bytes is Ok
                    && fitting_lines(
                    asked_lines(bytes->Ok_0@, start as nat, count as nat),
                    max_bytes as nat,
                ) is Ok)
            &&& forall|is_dir: Result<bool, IoFault>, depth: usize, max: usize|
                #![trigger list_fault(worker, authorization, target, seen, is_dir, depth, max)]
                list_fault(worker, authorization, target, seen, is_dir, depth, max) is None == (may(
                    "filesystem.list"@,
                ) && depth <= 16 && 1 <= max <= 10_000 && is_dir == Ok::<bool, IoFault>(true))
            &&& forall|metadata: Result<Metadata, IoFault>|
                #![trigger info_fault(worker, authorization, target, seen, metadata)]
                info_fault(worker, authorization, target, seen, metadata) is None == (may(
                    "filesystem.info"@,
                ) && metadata is Ok)
        }),
{
}

/// A file that is too long is refused with its length and the limit.
pub proof fn long_files_are_refused_with_their_length(
    worker: FsWorker,
    authorization: Authorization,
    target: PathText,
    seen: Resolution,
    len: u64,
    length: usize,
    max_bytes: usize,
)
    requires
        auto_fault(authorization, "filesystem.read"@, target.text@) is None,
        existing_fault(worker, target, seen) is None,
        len > max_bytes,
        length > max_bytes,
    ensures
        read_fault(worker, authorization, target, seen, Ok(len), max_bytes) == Some(
            FsFault::ReadLimitExceeded(len as nat, max_bytes as nat),
        ),
        range_fault(worker, authorization, target, seen, length, max_bytes) == Some(
            FsFault::ReadLimitExceeded(length as nat, max_bytes as nat),
        ),
{
}

/// An edit is prepared if and only if the request is authorized to write with an approval,
/// the edits can be tried, the file may be touched and could be read, and the edits apply.
pub proof fn edits_are_prepared_exactly_when_they_apply(
    worker: FsWorker,
    authorization: Authorization,
    edits: Seq<TextEdit>,
    target: PathText,
    seen: Resolution,
    original: Result<Vec<u8>, IoFault>,
)
    ensures
        edit_fault(worker, authorization, edits, target, seen, original) is None == {
            &&& approval_fault(authorization, "filesystem.write"@, target.text@) is None
            &&& edits::edits_allowed(edits)
            &&& existing_fault(worker, target, seen) is None
            &&& original is Ok
            &&& edits::edited_file(original->Ok_0@, edits) is Ok
        },
        auto_fault(authorization, "filesystem.write"@, target.text@) is None
            == gate::auto_flaw(authorization, "filesystem.write"@, target.text@) is None,
        approval_fault(authorization, "filesystem.write"@, target.text@) is None
            == gate::approval_flaw(authorization, "filesystem.write"@, target.text@) is None,
{
}

/// Each flaw of an authorization is told by an error of its own.
pub proof fn flaws_are_told_apart(a: Flaw, b: Flaw)
    ensures
        a != b ==> flaw_fault(a) != flaw_fault(b),
        flaw_fault(Flaw::Denied) == FsFault::Denied,
        flaw_fault(Flaw::ApprovalRequired) == FsFault::ApprovalRequired,
        flaw_fault(Flaw::WrongAction) == FsFault::WrongAction,
        flaw_fault(Flaw::Mismatch) == FsFault::AuthorizationMismatch,
{
}

/// A walk passes by the directories that lie as deep as it may not go, and goes on with the
/// last that does not; those before it stay.
pub proof fn walks_go_on_with_the_last_that_is_not_too_deep(
    pending: Seq<PendingDirectory>,
    depth: usize,
)
    ensures
        ({
            let left = shallow(pending, depth);
            let n = left.len() as int;
            &&& n <= pending.len()
            &&& left == pending.take(n)
            &&& forall|i: int| n <= i < pending.len() ==> (#[trigger] pending[i]).level >= depth
            &&& n > 0 ==> pending[n - 1].level < depth
        }),
    decreases pending.len(),
{
    if pending.len() > 0 && pending.last().level >= depth {
        walks_go_on_with_the_last_that_is_not_too_deep(pending.drop_last(), depth);
        let n = shallow(pending, depth).len() as int;
        assert(pending.drop_last().take(n) =~= pending.take(n));
        assert forall|i: int| n <= i < pending.len() implies (#[trigger] pending[i]).level
            >= depth by {
            if i < pending.len() - 1 {
                assert(pending.drop_last()[i] == pending[i]);
            }
        }
    } else {
        assert(pending.take(pending.len() as int) =~= pending);
    }
}

/// Files, directories and everything else are told by these words.
pub proof fn kinds_are_told_by_words(entry: DirectoryEntry, path: PathModel, metadata: Metadata)
    requires
        is_entry(entry, path, metadata),
    ensures
        metadata.kind is File ==> entry.entry_type@ == "file"@,
        metadata.kind is Directory ==> entry.entry_type@ == "directory"@,
        metadata.kind is Other ==> entry.entry_type@ == "other"@,
        entry.path@ == path.text,
        entry.size == metadata.size,
        entry.mtime_unix_ms == metadata.modified_unix_ms,
        path.parts.len() > 0 && path.parts.last() is Normal ==> paths::PartModel::Normal(entry.name@)
            == path.parts.last(),
{
}

/// A walk does not enter links, stops at what it cannot look at and at what is outside the
/// roots, and goes to everything else.
pub proof fn walks_enter_no_links(worker: FsWorker, entry: EntryObservation)
    ensures
        entry.is_link == Ok::<bool, IoFault>(true) ==> entry_fault(worker, entry) is None,
        entry.is_link == Ok::<bool, IoFault>(false) ==> entry_fault(worker, entry) is None == (
        entry.canonical is Ok && exists|i: int|
            0 <= i < worker.allowed_roots@.len() && paths::folded_within(
                entry.canonical->Ok_0.text@,
                (#[trigger] worker.allowed_roots@[i]).text@,
            )),
        entry.is_link is Err ==> entry_fault(worker, entry) == Some(
            FsFault::Io(entry.is_link->Err_0),
        ),
{
}

/// A walk takes names that come first first: of two different ones, the one whose bytes come
/// before the other's; it begins with its root alone.
pub proof fn walks_take_names_in_order(
    names: Seq<Vec<u8>>,
    order: Seq<usize>,
    i: int,
    j: int,
    walk: Walk,
    root: PathModel,
    depth: usize,
)
    requires
        in_order(names, order),
        0 <= i < j < order.len(),
    ensures
        ({
            let a = names[order[i] as int]@;
            let b = names[order[j] as int]@;
            a == b || table::bytes_before(a, b)
        }),
        starts_at(walk, root, depth) ==> walk.depth == depth && walk.pending@.len() == 1
            && walk.pending@[0].path@ == root && walk.pending@[0].level == 0,
{
    let a = names[order[i] as int]@;
    let b = names[order[j] as int]@;
    assert(!table::bytes_before(b, a));
    lemma_one_comes_first(a, b);
}

proof fn lemma_one_comes_first(a: Seq<u8>, b: Seq<u8>)
    ensures
        a == b || table::bytes_before(a, b) || table::bytes_before(b, a),
    decreases a.len(),
{
    if a.len() > 0 && b.len() > 0 {
        lemma_one_comes_first(a.drop_first(), b.drop_first());
        if a[0] == b[0] && a.drop_first() == b.drop_first() {
            assert(a =~= seq![a[0]] + a.drop_first());
            assert(b =~= seq![b[0]] + b.drop_first());
        }
    } else if a.len() == 0 && b.len() == 0 {
        assert(a =~= b);
    }
}

/// Directories are listed 16 levels down and 10000 entries long at most.
pub proof fn listings_have_these_limits()
    ensures
        MAX_LIST_DEPTH == 16,
        MAX_LIST_ENTRIES == 10_000,
{
}

} // verus!
