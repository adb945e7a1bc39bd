//! Updating the agent's own executable: plans, the swap, its journal, and what
//! an inspection makes of the files it finds.

use vstd::prelude::*;

use crate::codec;
use crate::crypto;
use crate::paths;
use crate::paths::{Canonical, FileKind, IoFault, PathModel, PathStyle, PathText};
use crate::table::Table;
use crate::text;

verus! {

pub const UPDATE_PLAN_SCHEMA: u32 = 1;

pub const MAX_PLAN_BYTES: u64 = 131_072;

pub const MAX_RESTART_ARGS: usize = 128;

pub const MAX_RESTART_ARG_BYTES: usize = 32_768;

pub const MAX_RESTART_TOTAL_ARG_BYTES: usize = 131_072;

pub const MAX_RESTART_ENV: usize = 64;

pub const MAX_HEALTH_WAIT_MS: u64 = 30_000;

pub const MAX_JOURNAL_BYTES: u64 = 1_048_576;

pub const MAX_JOURNAL_ENTRIES: usize = 512;

pub const MAX_RESULT_BYTES: u64 = 131_072;

#[derive(Debug)]
pub struct UpdatePlan {
    pub schema: u32,
    pub request_id: String,
    pub allowed_root: PathText,
    pub target_executable: PathText,
    pub staged_executable: PathText,
    pub expected_current_sha256: String,
    pub expected_staged_sha256: String,
    pub journal_directory: PathText,
    pub result_file: PathText,
    pub current_pid: u32,
    pub restart: RestartSpec,
}

#[derive(Debug)]
pub struct RestartSpec {
    pub args: Vec<String>,
    pub environment: Table<String>,
    pub working_directory: PathText,
    pub stdout_log: PathText,
    pub stderr_log: PathText,
    pub health_wait_ms: u64,
}

#[derive(Debug, Clone, Copy, PartialEq, Eq, Structural)]
pub enum JournalState {
    Validated,
    Swapped,
    Committed,
    RolledBack,
}

#[derive(Debug)]
pub struct JournalEntry {
    pub request_id: String,
    pub state: JournalState,
    pub target_executable: PathText,
    pub staged_executable: PathText,
    pub backup_executable: PathText,
    pub temp_executable: PathText,
    pub expected_current_sha256: String,
    pub expected_staged_sha256: String,
}

/// A plan with the paths it comes down to.
#[derive(Debug)]
pub struct ValidatedUpdate {
    pub plan: UpdatePlan,
    pub root: PathText,
    pub target: PathText,
    pub staged: PathText,
    pub working_directory: PathText,
    pub backup: PathText,
    pub temp: PathText,
    pub journal: PathText,
    pub result_file: PathText,
    pub stdout_log: PathText,
    pub stderr_log: PathText,
}

#[derive(Debug, Clone, Copy, PartialEq, Eq, Structural)]
pub enum MaintenanceObservedState {
    Ready,
    Validated,
    Swapped,
    Committed,
    RolledBack,
    Inconsistent,
}

#[derive(Debug)]
pub struct MaintenanceInspection {
    pub request_id: String,
    pub observed_state: MaintenanceObservedState,
    pub journal_state: Option<JournalState>,
    pub target_sha256: Option<String>,
    pub staged_sha256: Option<String>,
    pub backup_sha256: Option<String>,
    pub temp_sha256: Option<String>,
    pub target_matches_current: bool,
    pub target_matches_staged: bool,
    pub staged_matches_expected: bool,
    pub backup_matches_current: bool,
    pub backup_exists: bool,
    pub temp_exists: bool,
    pub journal_exists: bool,
    pub result_status: Option<String>,
}

#[derive(Debug, PartialEq, Eq)]
pub enum MaintenanceError {
    InvalidPlan,
    InvalidRoot,
    UnsafePath,
    OutsideAllowedRoot,
    ExpectedFile,
    ExpectedDirectory,
    InvalidDigest,
    InvalidRestartSpec,
    DigestMismatch { expected: String, actual: String },
    JournalExists,
    JournalInvalid,
    ResultInvalid,
    InvalidState,
    StagingCollision,
    BackupMissing,
    SwapAndRollbackFailed { swap: Box<MaintenanceError>, rollback: Box<MaintenanceError> },
    PostSwapAndRollbackFailed { verification: Box<MaintenanceError>, rollback: Box<MaintenanceError> },
    Io(IoFault),
    Json,
}

/// An error by what it says.
#[verifier::ext_equal]
pub enum MaintenanceFault {
    InvalidPlan,
    InvalidRoot,
    UnsafePath,
    OutsideAllowedRoot,
    ExpectedFile,
    ExpectedDirectory,
    InvalidDigest,
    InvalidRestartSpec,
    DigestMismatch(Seq<char>, Seq<char>),
    JournalExists,
    JournalInvalid,
    ResultInvalid,
    InvalidState,
    StagingCollision,
    BackupMissing,
    SwapAndRollbackFailed(Box<MaintenanceFault>, Box<MaintenanceFault>),
    PostSwapAndRollbackFailed(Box<MaintenanceFault>, Box<MaintenanceFault>),
    Io(IoFault),
    Json,
}

impl View for MaintenanceError {
    type V = MaintenanceFault;

    open spec fn view(&self) -> MaintenanceFault
        decreases self,
    {
        match self {
            MaintenanceError::InvalidPlan => MaintenanceFault::InvalidPlan,
            MaintenanceError::InvalidRoot => MaintenanceFault::InvalidRoot,
            MaintenanceError::UnsafePath => MaintenanceFault::UnsafePath,
            MaintenanceError::OutsideAllowedRoot => MaintenanceFault::OutsideAllowedRoot,
            MaintenanceError::ExpectedFile => MaintenanceFault::ExpectedFile,
            MaintenanceError::ExpectedDirectory => MaintenanceFault::ExpectedDirectory,
            MaintenanceError::InvalidDigest => MaintenanceFault::InvalidDigest,
            MaintenanceError::InvalidRestartSpec => MaintenanceFault::InvalidRestartSpec,
            MaintenanceError::DigestMismatch { expected, actual } => {
                MaintenanceFault::DigestMismatch(expected@, actual@)
            },
            MaintenanceError::JournalExists => MaintenanceFault::JournalExists,
            MaintenanceError::JournalInvalid => MaintenanceFault::JournalInvalid,
            MaintenanceError::ResultInvalid => MaintenanceFault::ResultInvalid,
            MaintenanceError::InvalidState => MaintenanceFault::InvalidState,
            MaintenanceError::StagingCollision => MaintenanceFault::StagingCollision,
            MaintenanceError::BackupMissing => MaintenanceFault::BackupMissing,
            MaintenanceError::SwapAndRollbackFailed { swap, rollback } => {
                MaintenanceFault::SwapAndRollbackFailed(
                    Box::new((**swap)@),
                    Box::new((**rollback)@),
                )
            },
            MaintenanceError::PostSwapAndRollbackFailed { verification, rollback } => {
                MaintenanceFault::PostSwapAndRollbackFailed(
                    Box::new((**verification)@),
                    Box::new((**rollback)@),
                )
            },
            MaintenanceError::Io(fault) => MaintenanceFault::Io(*fault),
            MaintenanceError::Json => MaintenanceFault::Json,
        }
    }
}

// ---------------------------------------------------------------------------
// Digests and names

/// Hexadecimal digits of either case.
pub open spec fn all_hex_digits(s: Seq<char>) -> bool {
    forall|i: int| 0 <= i < s.len() ==> codec::hex_value(#[trigger] s[i]) is Some
}

/// The one spelling of a digest: sixty-four small hexadecimal digits.
pub open spec fn normal_digest(value: Seq<char>) -> Option<Seq<char>> {
    let trimmed = text::trim(value);
    if trimmed.len() == 64 && all_hex_digits(trimmed) {
        Some(text::ascii_lower(trimmed))
    } else {
        None
    }
}

pub open spec fn is_request_id_char(c: char) -> bool {
    text::is_ascii_letter(c) || text::is_ascii_digit(c) || c == '-' || c == '_' || c == '.'
}

/// A request id that can be part of a file name.
pub open spec fn is_request_id(value: Seq<char>) -> bool {
    0 < value.len() <= 128 && forall|i: int|
        0 <= i < value.len() ==> is_request_id_char(#[trigger] value[i])
}

fn hex_char(c: char) -> (r: bool)
    ensures
        r == (codec::hex_value(c) is Some),
{
    ('0' <= c && c <= '9') || ('a' <= c && c <= 'f') || ('A' <= c && c <= 'F')
}

pub(crate) fn normalize_sha256(value: &str) -> (digest: Result<String, MaintenanceError>)
    ensures
        digest is Ok == normal_digest(value@) is Some,
        digest is Ok ==> digest->Ok_0@ == normal_digest(value@)->0,
        digest is Err ==> digest->Err_0@ == MaintenanceFault::InvalidDigest,
{
    let raw = text::chars_of(value);
    let chars = text::trimmed(raw.as_slice());
    if chars.len() != 64 {
        return Err(MaintenanceError::InvalidDigest);
    }
    let mut i: usize = 0;
    while i < 64
        invariant
            i <= 64,
            chars@.len() == 64,
            chars@ == text::trim(value@),
            forall|k: int| 0 <= k < i ==> codec::hex_value(#[trigger] chars@[k]) is Some,
        decreases 64 - i,
    {
        if !hex_char(chars[i]) {
            assert(codec::hex_value(chars@[i as int]) is None);
            return Err(MaintenanceError::InvalidDigest);
        }
        i = i + 1;
    }
    let lowered = text::lower_chars(chars);
    Ok(text::string_of(lowered.as_slice()))
}

fn valid_request_id(value: &str) -> (r: bool)
    ensures
        r == is_request_id(value@),
{
    let chars = text::chars_of(value);
    if chars.len() == 0 || chars.len() > 128 {
        return false;
    }
    let mut i: usize = 0;
    while i < chars.len()
        invariant
            chars@ == value@,
            i <= chars@.len(),
            forall|k: int| 0 <= k < i ==> is_request_id_char(#[trigger] chars@[k]),
        decreases chars@.len() - i,
    {
        let c = chars[i];
        if !(text::ascii_letter(c) || text::ascii_digit(c) || c == '-' || c == '_' || c == '.') {
            assert(!is_request_id_char(value@[i as int]));
            return false;
        }
        i = i + 1;
    }
    true
}

/// The digest of some bytes, as it is written.
pub open spec fn digest_text(bytes: Seq<u8>) -> Seq<char> {
    codec::hex_text(crypto::sha256_of(bytes))
}

/// The digest of a file's bytes.
pub fn sha256_file(bytes: &[u8]) -> (digest: String)
    ensures
        digest@ == digest_text(bytes@),
{
    let digest = crypto::sha256(bytes);
    codec::to_hex(digest.as_slice())
}

/// Why bytes are not those of a digest, if they are not.
pub open spec fn digest_fault(bytes: Seq<u8>, expected: Seq<char>) -> Option<MaintenanceFault> {
    match normal_digest(expected) {
        None => Some(MaintenanceFault::InvalidDigest),
        Some(digest) => if digest_text(bytes) != digest {
            Some(MaintenanceFault::DigestMismatch(digest, digest_text(bytes)))
        } else {
            None
        },
    }
}

/// Are the bytes of a file those of a digest?
pub fn verify_file_sha256(bytes: &[u8], expected: &str) -> (r: Result<(), MaintenanceError>)
    ensures
        r is Err == digest_fault(bytes@, expected@) is Some,
        r is Err ==> r->Err_0@ == digest_fault(bytes@, expected@)->0,
{
    let expected = match normalize_sha256(expected) {
        Err(error) => {
            return Err(error);
        },
        Ok(expected) => expected,
    };
    let actual = sha256_file(bytes);
    if !text::same_text(actual.as_str(), expected.as_str()) {
        return Err(MaintenanceError::DigestMismatch { expected, actual });
    }
    Ok(())
}

/// Are the bytes of a plan file those of a digest?
pub fn verify_plan_file_sha256(bytes: &[u8], expected: &str) -> (r: Result<(), MaintenanceError>)
    ensures
        r is Err == digest_fault(bytes@, expected@) is Some,
        r is Err ==> r->Err_0@ == digest_fault(bytes@, expected@)->0,
{
    verify_file_sha256(bytes, expected)
}

/// A plan file of this size may be read.
pub fn plan_size_fits(is_file: bool, len: u64) -> (r: bool)
    ensures
        r == (is_file && 0 < len <= MAX_PLAN_BYTES),
{
    is_file && len > 0 && len <= MAX_PLAN_BYTES
}

// ---------------------------------------------------------------------------
// The shape of a plan

/// An argument that a restart may have.
pub open spec fn argument_fits(argument: Seq<char>) -> bool {
    !argument.contains('\0') && text::byte_len(argument) <= MAX_RESTART_ARG_BYTES
}

/// The bytes of some arguments together.
pub open spec fn arguments_bytes(args: Seq<Seq<char>>) -> nat
    decreases args.len(),
{
    if args.len() == 0 {
        0
    } else {
        arguments_bytes(args.drop_last()) + text::byte_len(args.last())
    }
}

pub open spec fn variable_fits(key: Seq<char>, value: Seq<char>) -> bool {
    &&& !text::is_blank(key)
    &&& !key.contains('=')
    &&& !key.contains('\0')
    &&& !value.contains('\0')
    &&& text::byte_len(key) <= 256
    &&& text::byte_len(value) <= 8192
}

pub open spec fn restart_fits(restart: RestartSpec) -> bool {
    &&& restart.args@.len() <= MAX_RESTART_ARGS
    &&& restart.environment@.dom().len() <= MAX_RESTART_ENV
    &&& 0 < restart.health_wait_ms <= MAX_HEALTH_WAIT_MS
    &&& forall|i: int| 0 <= i < restart.args@.len() ==> argument_fits((#[trigger] restart.args@[i])@)
    &&& arguments_bytes(text::texts(restart.args@)) <= MAX_RESTART_TOTAL_ARG_BYTES
    &&& forall|key: Seq<char>| #[trigger]
        restart.environment@.contains_key(key) ==> variable_fits(key, restart.environment@[key]@)
}

pub open spec fn paths_absolute(plan: UpdatePlan) -> bool {
    &&& plan.allowed_root.absolute
    &&& plan.target_executable.absolute
    &&& plan.staged_executable.absolute
    &&& plan.journal_directory.absolute
    &&& plan.result_file.absolute
    &&& plan.restart.working_directory.absolute
    &&& plan.restart.stdout_log.absolute
    &&& plan.restart.stderr_log.absolute
}

pub open spec fn paths_plain(plan: UpdatePlan) -> bool {
    &&& !paths::has_relative_part(plan.allowed_root@)
    &&& !paths::has_relative_part(plan.target_executable@)
    &&& !paths::has_relative_part(plan.staged_executable@)
    &&& !paths::has_relative_part(plan.journal_directory@)
    &&& !paths::has_relative_part(plan.result_file@)
    &&& !paths::has_relative_part(plan.restart.working_directory@)
    &&& !paths::has_relative_part(plan.restart.stdout_log@)
    &&& !paths::has_relative_part(plan.restart.stderr_log@)
}

/// What is wrong with a plan by itself, if anything.
pub open spec fn shape_fault(plan: UpdatePlan) -> Option<MaintenanceFault> {
    if plan.schema != UPDATE_PLAN_SCHEMA || !is_request_id(plan.request_id@) || plan.current_pid
        == 0 || !paths_absolute(plan) {
        Some(MaintenanceFault::InvalidPlan)
    } else if !paths_plain(plan) {
        Some(MaintenanceFault::UnsafePath)
    } else if normal_digest(plan.expected_current_sha256@) is None || normal_digest(
        plan.expected_staged_sha256@,
    ) is None {
        Some(MaintenanceFault::InvalidDigest)
    } else if !restart_fits(plan.restart) {
        Some(MaintenanceFault::InvalidRestartSpec)
    } else {
        None
    }
}

proof fn lemma_arguments_prefix(args: Seq<Seq<char>>, i: int)
    requires
        0 <= i <= args.len(),
    ensures
        arguments_bytes(args.take(i)) <= arguments_bytes(args),
    decreases args.len() - i,
{
    if i < args.len() {
        lemma_arguments_prefix(args, i + 1);
        assert(args.take(i + 1).drop_last() =~= args.take(i));
    } else {
        assert(args.take(i) =~= args);
    }
}

fn reject_relative_components(path: &PathText) -> (r: Result<(), MaintenanceError>)
    ensures
        r is Err == paths::has_relative_part(path@),
        r is Err ==> r->Err_0@ == MaintenanceFault::UnsafePath,
{
    if paths::relative_part(path) {
        Err(MaintenanceError::UnsafePath)
    } else {
        Ok(())
    }
}

fn arguments_fit(args: &Vec<String>) -> (r: bool)
    ensures
        r == ((forall|i: int| 0 <= i < args@.len() ==> argument_fits((#[trigger] args@[i])@))
            && arguments_bytes(text::texts(args@)) <= MAX_RESTART_TOTAL_ARG_BYTES),
{
    let ghost all = text::texts(args@);
    let mut total: usize = 0;
    let mut i: usize = 0;
    while i < args.len()
        invariant
            i <= args@.len(),
            all == text::texts(args@),
            forall|k: int| 0 <= k < i ==> argument_fits((#[trigger] args@[k])@),
            total == arguments_bytes(all.take(i as int)),
            total <= MAX_RESTART_TOTAL_ARG_BYTES,
        decreases args@.len() - i,
    {
        proof {
            assert(all.take(i + 1).drop_last() =~= all.take(i as int));
            assert(all.take(i + 1).last() == args@[i as int]@);
            lemma_arguments_prefix(all, i + 1);
        }
        let chars = text::chars_of(args[i].as_str());
        let bytes: usize = text::text_bytes(args[i].as_str());
        if text::contains_char(chars.as_slice(), '\0') || bytes > MAX_RESTART_ARG_BYTES {
            assert(!argument_fits(args@[i as int]@));
            return false;
        }
        total = total + bytes;
        if total > MAX_RESTART_TOTAL_ARG_BYTES {
            return false;
        }
        i = i + 1;
    }
    proof {
        assert(all.take(all.len() as int) =~= all);
    }
    true
}

fn variable_allowed(key: &str, value: &str) -> (r: bool)
    ensures
        r == variable_fits(key@, value@),
{
    let k = text::chars_of(key);
    let v = text::chars_of(value);
    !text::blank(key) && !text::contains_char(k.as_slice(), '=') && !text::contains_char(
        k.as_slice(),
        '\0',
    ) && !text::contains_char(v.as_slice(), '\0') && text::text_bytes(key) <= 256
        && text::text_bytes(value) <= 8192
}

fn environment_fits(environment: &Table<String>) -> (r: bool)
    ensures
        r == (environment@.dom().len() <= MAX_RESTART_ENV && forall|key: Seq<char>| #[trigger]
            environment@.contains_key(key) ==> variable_fits(key, environment@[key]@)),
{
    let n: usize = environment.len();
    if n > MAX_RESTART_ENV {
        return false;
    }
    let mut i: usize = 0;
    while i < n
        invariant
            i <= n,
            n == environment.keys().len(),
            environment@.dom() == environment.keys().to_set(),
            forall|k: int|
                0 <= k < i ==> variable_fits(
                    #[trigger] environment.keys()[k],
                    environment@[environment.keys()[k]]@,
                ),
        decreases n - i,
    {
        if !variable_allowed(environment.key_at(i).as_str(), environment.value_at(i).as_str()) {
            return false;
        }
        i = i + 1;
    }
    proof {
        assert forall|key: Seq<char>| #[trigger] environment@.contains_key(key) implies variable_fits(
            key,
            environment@[key]@,
        ) by {
            assert(environment@.dom().contains(key));
            assert(environment.keys().contains(key));
            let k = choose|k: int|
                0 <= k < environment.keys().len() && environment.keys()[k] == key;
            assert(variable_fits(environment.keys()[k], environment@[environment.keys()[k]]@));
        }
    }
    true
}

/// Checks a plan by itself.
pub fn validate_plan_shape(plan: &UpdatePlan) -> (r: Result<(), MaintenanceError>)
    ensures
        r is Err == shape_fault(*plan) is Some,
        r is Err ==> r->Err_0@ == shape_fault(*plan)->0,
{
    if plan.schema != UPDATE_PLAN_SCHEMA || !valid_request_id(plan.request_id.as_str())
        || plan.current_pid == 0 || !plan.allowed_root.absolute || !plan.target_executable.absolute
        || !plan.staged_executable.absolute || !plan.journal_directory.absolute
        || !plan.result_file.absolute || !plan.restart.working_directory.absolute
        || !plan.restart.stdout_log.absolute || !plan.restart.stderr_log.absolute {
        return Err(MaintenanceError::InvalidPlan);
    }
    if let Err(error) = reject_relative_components(&plan.allowed_root) {
        return Err(error);
    }
    if let Err(error) = reject_relative_components(&plan.target_executable) {
        return Err(error);
    }
    if let Err(error) = reject_relative_components(&plan.staged_executable) {
        return Err(error);
    }
    if let Err(error) = reject_relative_components(&plan.journal_directory) {
        return Err(error);
    }
    if let Err(error) = reject_relative_components(&plan.result_file) {
        return Err(error);
    }
    if let Err(error) = reject_relative_components(&plan.restart.working_directory) {
        return Err(error);
    }
    if let Err(error) = reject_relative_components(&plan.restart.stdout_log) {
        return Err(error);
    }
    if let Err(error) = reject_relative_components(&plan.restart.stderr_log) {
        return Err(error);
    }
    if let Err(error) = normalize_sha256(plan.expected_current_sha256.as_str()) {
        return Err(error);
    }
    if let Err(error) = normalize_sha256(plan.expected_staged_sha256.as_str()) {
        return Err(error);
    }
    let wait: u64 = plan.restart.health_wait_ms;
    if plan.restart.args.len() > MAX_RESTART_ARGS || wait == 0 || wait > MAX_HEALTH_WAIT_MS
        || !arguments_fit(&plan.restart.args) || !environment_fits(&plan.restart.environment) {
        return Err(MaintenanceError::InvalidRestartSpec);
    }
    Ok(())
}

// ---------------------------------------------------------------------------
// A plan against the file system

/// Where output would go: the nearest part of the path that exists, in its
/// canonical form, or nothing if no part exists.
#[derive(Debug)]
pub struct Anchor {
    pub nearest: Result<Option<PathText>, IoFault>,
}

/// What was found where a plan points.
#[derive(Debug)]
pub struct PlanObservation {
    pub root: Result<Canonical, IoFault>,
    pub target: Result<Canonical, IoFault>,
    pub target_name: Option<String>,
    pub target_parent: Option<PathText>,
    pub staged: Result<Canonical, IoFault>,
    pub target_bytes: Result<Vec<u8>, IoFault>,
    pub staged_bytes: Result<Vec<u8>, IoFault>,
    pub working_directory: Result<Canonical, IoFault>,
    pub journal_directory: Anchor,
    pub result_file: Anchor,
    pub stdout_log: Anchor,
    pub stderr_log: Anchor,
    pub backup: Anchor,
    pub temp: Anchor,
    pub journal: Anchor,
}

/// What was found where a plan to recover points.
#[derive(Debug)]
pub struct RecoveryObservation {
    pub root: Result<Canonical, IoFault>,
    pub target_parent: Option<Result<PathText, IoFault>>,
    pub target_name: Option<String>,
    pub staged: Result<Canonical, IoFault>,
    pub working_directory: Result<Canonical, IoFault>,
    pub journal_directory: Anchor,
    pub result_file: Anchor,
    pub stdout_log: Anchor,
    pub stderr_log: Anchor,
    pub backup_is_file: bool,
    pub backup: Result<PathText, IoFault>,
    pub backup_bytes: Result<Vec<u8>, IoFault>,
    pub target: Option<Result<Canonical, IoFault>>,
}

/// The first fault of two.
pub open spec fn first(a: Option<MaintenanceFault>, b: Option<MaintenanceFault>) -> Option<
    MaintenanceFault,
> {
    if a is Some {
        a
    } else {
        b
    }
}

pub open spec fn within_fault(style: PathStyle, path: PathModel, root: PathModel) -> Option<
    MaintenanceFault,
> {
    if paths::is_within(style, path, root) {
        None
    } else {
        Some(MaintenanceFault::OutsideAllowedRoot)
    }
}

pub open spec fn root_fault(root: Result<Canonical, IoFault>) -> Option<MaintenanceFault> {
    match root {
        Err(fault) => Some(MaintenanceFault::Io(fault)),
        Ok(found) => if found.kind != FileKind::Directory {
            Some(MaintenanceFault::InvalidRoot)
        } else {
            None
        },
    }
}

pub open spec fn file_fault(
    style: PathStyle,
    found: Result<Canonical, IoFault>,
    root: PathModel,
) -> Option<MaintenanceFault> {
    match found {
        Err(fault) => Some(MaintenanceFault::Io(fault)),
        Ok(found) => if found.kind != FileKind::File {
            Some(MaintenanceFault::ExpectedFile)
        } else {
            within_fault(style, found.path@, root)
        },
    }
}

pub open spec fn directory_fault(
    style: PathStyle,
    found: Result<Canonical, IoFault>,
    root: PathModel,
) -> Option<MaintenanceFault> {
    match found {
        Err(fault) => Some(MaintenanceFault::Io(fault)),
        Ok(found) => if found.kind != FileKind::Directory {
            Some(MaintenanceFault::ExpectedDirectory)
        } else {
            within_fault(style, found.path@, root)
        },
    }
}

pub open spec fn output_fault(
    style: PathStyle,
    path: PathModel,
    anchor: Anchor,
    root: PathModel,
) -> Option<MaintenanceFault> {
    if paths::has_relative_part(path) || !path.absolute {
        Some(MaintenanceFault::UnsafePath)
    } else {
        match anchor.nearest {
            Err(fault) => Some(MaintenanceFault::Io(fault)),
            Ok(None) => Some(MaintenanceFault::UnsafePath),
            Ok(Some(existing)) => within_fault(style, existing@, root),
        }
    }
}

pub open spec fn bytes_fault(bytes: Result<Vec<u8>, IoFault>, expected: Seq<char>) -> Option<
    MaintenanceFault,
> {
    match normal_digest(expected) {
        None => Some(MaintenanceFault::InvalidDigest),
        Some(_) => match bytes {
            Err(fault) => Some(MaintenanceFault::Io(fault)),
            Ok(bytes) => digest_fault(bytes@, expected),
        },
    }
}

/// `.name.id.ending`
pub open spec fn side_name(name: Seq<char>, id: Seq<char>, ending: Seq<char>) -> Seq<char> {
    seq!['.'] + name + seq!['.'] + id + ending
}

pub open spec fn backup_of(
    style: PathStyle,
    parent: PathModel,
    name: Seq<char>,
    id: Seq<char>,
) -> PathModel {
    paths::joined(style, parent, side_name(name, id, ".bak"@))
}

pub open spec fn temp_of(
    style: PathStyle,
    parent: PathModel,
    name: Seq<char>,
    id: Seq<char>,
) -> PathModel {
    paths::joined(style, parent, side_name(name, id, ".new"@))
}

pub open spec fn journal_of(style: PathStyle, directory: PathModel, id: Seq<char>) -> PathModel {
    paths::joined(style, directory, id + ".jsonl"@)
}

pub open spec fn missing_fault(present: bool) -> Option<MaintenanceFault> {
    if present {
        None
    } else {
        Some(MaintenanceFault::InvalidPlan)
    }
}

/// What speaks against the plan's outputs, if anything.
pub open spec fn outputs_fault(
    style: PathStyle,
    plan: UpdatePlan,
    journal_directory: Anchor,
    result_file: Anchor,
    stdout_log: Anchor,
    stderr_log: Anchor,
    root: PathModel,
) -> Option<MaintenanceFault> {
    first(
        output_fault(style, plan.journal_directory@, journal_directory, root),
        first(
            output_fault(style, plan.result_file@, result_file, root),
            first(
                output_fault(style, plan.restart.stdout_log@, stdout_log, root),
                output_fault(style, plan.restart.stderr_log@, stderr_log, root),
            ),
        ),
    )
}

/// What speaks against the three files that an update leaves, if anything.
pub open spec fn side_files_fault(
    style: PathStyle,
    plan: UpdatePlan,
    parent: PathModel,
    name: Seq<char>,
    backup: Anchor,
    temp: Anchor,
    journal: Anchor,
    root: PathModel,
) -> Option<MaintenanceFault> {
    let id = plan.request_id@;
    first(
        output_fault(style, backup_of(style, parent, name, id), backup, root),
        first(
            output_fault(style, temp_of(style, parent, name, id), temp, root),
            output_fault(style, journal_of(style, plan.journal_directory@, id), journal, root),
        ),
    )
}

/// What speaks against a plan, if anything.
pub open spec fn plan_fault(style: PathStyle, plan: UpdatePlan, seen: PlanObservation) -> Option<
    MaintenanceFault,
> {
    let root = seen.root->Ok_0.path@;
    let same = seen.target is Ok && seen.staged is Ok && paths::is_same(
        style,
        seen.target->Ok_0.path@,
        seen.staged->Ok_0.path@,
    );
    first(
        shape_fault(plan),
        first(
            root_fault(seen.root),
            first(
                file_fault(style, seen.target, root),
                first(
                    file_fault(style, seen.staged, root),
                    first(
                        missing_fault(!same),
                        first(
                            bytes_fault(seen.target_bytes, plan.expected_current_sha256@),
                            first(
                                bytes_fault(seen.staged_bytes, plan.expected_staged_sha256@),
                                first(
                                    directory_fault(style, seen.working_directory, root),
                                    first(
                                        outputs_fault(
                                            style,
                                            plan,
                                            seen.journal_directory,
                                            seen.result_file,
                                            seen.stdout_log,
                                            seen.stderr_log,
                                            root,
                                        ),
                                        first(
                                            missing_fault(
                                                seen.target_name is Some && seen.target_parent is Some,
                                            ),
                                            side_files_fault(
                                                style,
                                                plan,
                                                seen.target_parent->0@,
                                                seen.target_name->0@,
                                                seen.backup,
                                                seen.temp,
                                                seen.journal,
                                                root,
                                            ),
                                        ),
                                    ),
                                ),
                            ),
                        ),
                    ),
                ),
            ),
        ),
    )
}

/// The update names the plan's own outputs.
pub open spec fn keeps_outputs(update: ValidatedUpdate, plan: UpdatePlan) -> bool {
    &&& update.plan == plan
    &&& update.result_file@ == plan.result_file@
    &&& update.stdout_log@ == plan.restart.stdout_log@
    &&& update.stderr_log@ == plan.restart.stderr_log@
}

/// The update is what a plan comes down to.
pub open spec fn update_follows(
    style: PathStyle,
    update: ValidatedUpdate,
    plan: UpdatePlan,
    seen: PlanObservation,
) -> bool {
    let id = plan.request_id@;
    &&& keeps_outputs(update, plan)
    &&& update.root@ == seen.root->Ok_0.path@
    &&& update.target@ == seen.target->Ok_0.path@
    &&& update.staged@ == seen.staged->Ok_0.path@
    &&& update.working_directory@ == seen.working_directory->Ok_0.path@
    &&& update.backup@ == backup_of(style, seen.target_parent->0@, seen.target_name->0@, id)
    &&& update.temp@ == temp_of(style, seen.target_parent->0@, seen.target_name->0@, id)
    &&& update.journal@ == journal_of(style, plan.journal_directory@, id)
}

/// What speaks against the backup, if anything.
pub open spec fn backup_fault(style: PathStyle, plan: UpdatePlan, seen: RecoveryObservation) -> Option<
    MaintenanceFault,
> {
    if !seen.backup_is_file {
        Some(MaintenanceFault::BackupMissing)
    } else {
        match seen.backup {
            Err(fault) => Some(MaintenanceFault::Io(fault)),
            Ok(path) => first(
                within_fault(style, path@, seen.root->Ok_0.path@),
                bytes_fault(seen.backup_bytes, plan.expected_current_sha256@),
            ),
        }
    }
}

/// What speaks against what is where the target was, if anything.
pub open spec fn present_fault(
    style: PathStyle,
    found: Option<Result<Canonical, IoFault>>,
    root: PathModel,
) -> Option<MaintenanceFault> {
    match found {
        None => None,
        Some(Err(fault)) => Some(MaintenanceFault::Io(fault)),
        Some(Ok(found)) => first(
            within_fault(style, found.path@, root),
            if found.kind != FileKind::File {
                Some(MaintenanceFault::ExpectedFile)
            } else {
                None
            },
        ),
    }
}

/// What speaks against the directory of the target, if anything.
pub open spec fn parent_fault(
    style: PathStyle,
    parent: Option<Result<PathText, IoFault>>,
    name: Option<String>,
    root: PathModel,
) -> Option<MaintenanceFault> {
    match parent {
        None => Some(MaintenanceFault::InvalidPlan),
        Some(Err(fault)) => Some(MaintenanceFault::Io(fault)),
        Some(Ok(path)) => first(within_fault(style, path@, root), missing_fault(name is Some)),
    }
}

/// What speaks against recovering by a plan, if anything.
pub open spec fn recovery_fault(style: PathStyle, plan: UpdatePlan, seen: RecoveryObservation) -> Option<
    MaintenanceFault,
> {
    let root = seen.root->Ok_0.path@;
    first(
        shape_fault(plan),
        first(
            root_fault(seen.root),
            first(
                parent_fault(style, seen.target_parent, seen.target_name, root),
                first(
                    file_fault(style, seen.staged, root),
                    first(
                        directory_fault(style, seen.working_directory, root),
                        first(
                            outputs_fault(
                                style,
                                plan,
                                seen.journal_directory,
                                seen.result_file,
                                seen.stdout_log,
                                seen.stderr_log,
                                root,
                            ),
                            first(
                                backup_fault(style, plan, seen),
                                present_fault(style, seen.target, root),
                            ),
                        ),
                    ),
                ),
            ),
        ),
    )
}

/// The update is what a plan to recover comes down to.
pub open spec fn recovery_follows(
    style: PathStyle,
    update: ValidatedUpdate,
    plan: UpdatePlan,
    seen: RecoveryObservation,
) -> bool {
    let id = plan.request_id@;
    let parent = seen.target_parent->0->Ok_0@;
    let name = seen.target_name->0@;
    &&& keeps_outputs(update, plan)
    &&& update.root@ == seen.root->Ok_0.path@
    &&& update.target@ == paths::joined(style, parent, name)
    &&& update.staged@ == seen.staged->Ok_0.path@
    &&& update.working_directory@ == seen.working_directory->Ok_0.path@
    &&& update.backup@ == backup_of(style, parent, name, id)
    &&& update.temp@ == temp_of(style, parent, name, id)
    &&& update.journal@ == journal_of(style, plan.journal_directory@, id)
}

pub(crate) fn ensure_within(style: PathStyle, path: &PathText, root: &PathText) -> (r: Result<
    (),
    MaintenanceError,
>)
    ensures
        r is Err == within_fault(style, path@, root@) is Some,
        r is Err ==> r->Err_0@ == within_fault(style, path@, root@)->0,
{
    if paths::within(style, path, root) {
        Ok(())
    } else {
        Err(MaintenanceError::OutsideAllowedRoot)
    }
}

pub(crate) fn canonical_root(root: &Result<Canonical, IoFault>) -> (r: Result<
    &PathText,
    MaintenanceError,
>)
    ensures
        r is Err == root_fault(*root) is Some,
        r is Err ==> r->Err_0@ == root_fault(*root)->0,
        r is Ok ==> *r->Ok_0 == root->Ok_0.path,
{
    match root {
        Err(fault) => Err(MaintenanceError::Io(*fault)),
        Ok(found) => {
            if found.kind != FileKind::Directory {
                Err(MaintenanceError::InvalidRoot)
            } else {
                Ok(&found.path)
            }
        },
    }
}

fn canonical_file_within<'a>(
    style: PathStyle,
    found: &'a Result<Canonical, IoFault>,
    root: &PathText,
) -> (r: Result<&'a PathText, MaintenanceError>)
    ensures
        r is Err == file_fault(style, *found, root@) is Some,
        r is Err ==> r->Err_0@ == file_fault(style, *found, root@)->0,
        r is Ok ==> *r->Ok_0 == found->Ok_0.path,
{
    match found {
        Err(fault) => Err(MaintenanceError::Io(*fault)),
        Ok(found) => {
            if found.kind != FileKind::File {
                return Err(MaintenanceError::ExpectedFile);
            }
            match ensure_within(style, &found.path, root) {
                Err(error) => Err(error),
                Ok(()) => Ok(&found.path),
            }
        },
    }
}

fn canonical_directory_within<'a>(
    style: PathStyle,
    found: &'a Result<Canonical, IoFault>,
    root: &PathText,
) -> (r: Result<&'a PathText, MaintenanceError>)
    ensures
        r is Err == directory_fault(style, *found, root@) is Some,
        r is Err ==> r->Err_0@ == directory_fault(style, *found, root@)->0,
        r is Ok ==> *r->Ok_0 == found->Ok_0.path,
{
    match found {
        Err(fault) => Err(MaintenanceError::Io(*fault)),
        Ok(found) => {
            if found.kind != FileKind::Directory {
                return Err(MaintenanceError::ExpectedDirectory);
            }
            match ensure_within(style, &found.path, root) {
                Err(error) => Err(error),
                Ok(()) => Ok(&found.path),
            }
        },
    }
}

pub(crate) fn ensure_output_path_within(
    style: PathStyle,
    path: &PathText,
    anchor: &Anchor,
    root: &PathText,
) -> (r: Result<(), MaintenanceError>)
    ensures
        r is Err == output_fault(style, path@, *anchor, root@) is Some,
        r is Err ==> r->Err_0@ == output_fault(style, path@, *anchor, root@)->0,
{
    if let Err(error) = reject_relative_components(path) {
        return Err(error);
    }
    if !path.absolute {
        return Err(MaintenanceError::UnsafePath);
    }
    match &anchor.nearest {
        Err(fault) => Err(MaintenanceError::Io(*fault)),
        Ok(None) => Err(MaintenanceError::UnsafePath),
        Ok(Some(existing)) => ensure_within(style, existing, root),
    }
}

pub(crate) fn verify_read(bytes: &Result<Vec<u8>, IoFault>, expected: &str) -> (r: Result<(), MaintenanceError>)
    ensures
        r is Err == bytes_fault(*bytes, expected@) is Some,
        r is Err ==> r->Err_0@ == bytes_fault(*bytes, expected@)->0,
{
    if let Err(error) = normalize_sha256(expected) {
        return Err(error);
    }
    match bytes {
        Err(fault) => Err(MaintenanceError::Io(*fault)),
        Ok(bytes) => verify_file_sha256(bytes.as_slice(), expected),
    }
}

/// The name of a file beside the target.
pub fn side_file_name(name: &str, id: &str, ending: &str) -> (r: String)
    ensures
        r@ == side_name(name@, id@, ending@),
{
    let mut chars: Vec<char> = Vec::new();
    chars.push('.');
    text::push_text(&mut chars, name);
    chars.push('.');
    text::push_text(&mut chars, id);
    text::push_text(&mut chars, ending);
    proof {
        assert(chars@ =~= side_name(name@, id@, ending@));
    }
    text::string_of(chars.as_slice())
}

/// Where an update keeps what it replaces.
pub fn backup_path(style: PathStyle, parent: &PathText, name: &str, id: &str) -> (path: PathText)
    ensures
        path@ == backup_of(style, parent@, name@, id@),
{
    paths::join_name(style, parent, side_file_name(name, id, ".bak").as_str())
}

/// Where an update puts what it will swap in.
pub fn temp_path(style: PathStyle, parent: &PathText, name: &str, id: &str) -> (path: PathText)
    ensures
        path@ == temp_of(style, parent@, name@, id@),
{
    paths::join_name(style, parent, side_file_name(name, id, ".new").as_str())
}

/// Where an update keeps its journal.
pub fn journal_path(style: PathStyle, directory: &PathText, id: &str) -> (path: PathText)
    ensures
        path@ == journal_of(style, directory@, id@),
{
    let mut chars = text::chars_of(id);
    text::push_text(&mut chars, ".jsonl");
    paths::join_name(style, directory, text::string_of(chars.as_slice()).as_str())
}

pub(crate) fn outputs_within(
    style: PathStyle,
    plan: &UpdatePlan,
    journal_directory: &Anchor,
    result_file: &Anchor,
    stdout_log: &Anchor,
    stderr_log: &Anchor,
    root: &PathText,
) -> (r: Result<(), MaintenanceError>)
    ensures
        r is Err == outputs_fault(
            style,
            *plan,
            *journal_directory,
            *result_file,
            *stdout_log,
            *stderr_log,
            root@,
        ) is Some,
        r is Err ==> r->Err_0@ == outputs_fault(
            style,
            *plan,
            *journal_directory,
            *result_file,
            *stdout_log,
            *stderr_log,
            root@,
        )->0,
{
    if let Err(error) = ensure_output_path_within(
        style,
        &plan.journal_directory,
        journal_directory,
        root,
    ) {
        return Err(error);
    }
    if let Err(error) = ensure_output_path_within(style, &plan.result_file, result_file, root) {
        return Err(error);
    }
    if let Err(error) = ensure_output_path_within(
        style,
        &plan.restart.stdout_log,
        stdout_log,
        root,
    ) {
        return Err(error);
    }
    ensure_output_path_within(style, &plan.restart.stderr_log, stderr_log, root)
}

/// Checks a plan against what was found where it points.
pub fn validate_plan(style: PathStyle, plan: UpdatePlan, seen: &PlanObservation) -> (r: Result<
    ValidatedUpdate,
    MaintenanceError,
>)
    ensures
        r is Err == plan_fault(style, plan, *seen) is Some,
        r is Err ==> r->Err_0@ == plan_fault(style, plan, *seen)->0,
        r is Ok ==> update_follows(style, r->Ok_0, plan, *seen),
{
    if let Err(error) = validate_plan_shape(&plan) {
        return Err(error);
    }
    let root = match canonical_root(&seen.root) {
        Err(error) => {
            return Err(error);
        },
        Ok(root) => root,
    };
    let target = match canonical_file_within(style, &seen.target, root) {
        Err(error) => {
            return Err(error);
        },
        Ok(target) => target,
    };
    let staged = match canonical_file_within(style, &seen.staged, root) {
        Err(error) => {
            return Err(error);
        },
        Ok(staged) => staged,
    };
    if paths::same_path(style, target, staged) {
        return Err(MaintenanceError::InvalidPlan);
    }
    if let Err(error) = verify_read(&seen.target_bytes, plan.expected_current_sha256.as_str()) {
        return Err(error);
    }
    if let Err(error) = verify_read(&seen.staged_bytes, plan.expected_staged_sha256.as_str()) {
        return Err(error);
    }
    let working_directory = match canonical_directory_within(style, &seen.working_directory, root) {
        Err(error) => {
            return Err(error);
        },
        Ok(path) => path,
    };
    if let Err(error) = outputs_within(
        style,
        &plan,
        &seen.journal_directory,
        &seen.result_file,
        &seen.stdout_log,
        &seen.stderr_log,
        root,
    ) {
        return Err(error);
    }
    let name = match &seen.target_name {
        None => {
            return Err(MaintenanceError::InvalidPlan);
        },
        Some(name) => name.as_str(),
    };
    let parent = match &seen.target_parent {
        None => {
            return Err(MaintenanceError::InvalidPlan);
        },
        Some(parent) => parent,
    };
    let backup = backup_path(style, parent, name, plan.request_id.as_str());
    let temp = temp_path(style, parent, name, plan.request_id.as_str());
    let journal = journal_path(style, &plan.journal_directory, plan.request_id.as_str());
    if let Err(error) = ensure_output_path_within(style, &backup, &seen.backup, root) {
        return Err(error);
    }
    if let Err(error) = ensure_output_path_within(style, &temp, &seen.temp, root) {
        return Err(error);
    }
    if let Err(error) = ensure_output_path_within(style, &journal, &seen.journal, root) {
        return Err(error);
    }
    let result_file = paths::copy_path(&plan.result_file);
    let stdout_log = paths::copy_path(&plan.restart.stdout_log);
    let stderr_log = paths::copy_path(&plan.restart.stderr_log);
    Ok(
        ValidatedUpdate {
            plan,
            root: paths::copy_path(root),
            target: paths::copy_path(target),
            staged: paths::copy_path(staged),
            working_directory: paths::copy_path(working_directory),
            backup,
            temp,
            journal,
            result_file,
            stdout_log,
            stderr_log,
        },
    )
}

fn backup_is_good(
    style: PathStyle,
    plan: &UpdatePlan,
    seen: &RecoveryObservation,
    root: &PathText,
) -> (r: Result<(), MaintenanceError>)
    requires
        seen.root is Ok,
        *root == seen.root->Ok_0.path,
    ensures
        r is Err == backup_fault(style, *plan, *seen) is Some,
        r is Err ==> r->Err_0@ == backup_fault(style, *plan, *seen)->0,
{
    if !seen.backup_is_file {
        return Err(MaintenanceError::BackupMissing);
    }
    match &seen.backup {
        Err(fault) => Err(MaintenanceError::Io(*fault)),
        Ok(path) => {
            if let Err(error) = ensure_within(style, path, root) {
                return Err(error);
            }
            verify_read(&seen.backup_bytes, plan.expected_current_sha256.as_str())
        },
    }
}

fn present_is_file(
    style: PathStyle,
    found: &Option<Result<Canonical, IoFault>>,
    root: &PathText,
) -> (r: Result<(), MaintenanceError>)
    ensures
        r is Err == present_fault(style, *found, root@) is Some,
        r is Err ==> r->Err_0@ == present_fault(style, *found, root@)->0,
{
    match found {
        None => Ok(()),
        Some(Err(fault)) => Err(MaintenanceError::Io(*fault)),
        Some(Ok(found)) => {
            if let Err(error) = ensure_within(style, &found.path, root) {
                return Err(error);
            }
            if found.kind != FileKind::File {
                return Err(MaintenanceError::ExpectedFile);
            }
            Ok(())
        },
    }
}

pub(crate) fn parent_and_name<'a>(
    style: PathStyle,
    parent: &'a Option<Result<PathText, IoFault>>,
    name: &'a Option<String>,
    root: &PathText,
) -> (r: Result<(&'a PathText, &'a String), MaintenanceError>)
    ensures
        r is Err == parent_fault(style, *parent, *name, root@) is Some,
        r is Err ==> r->Err_0@ == parent_fault(style, *parent, *name, root@)->0,
        r is Ok ==> *r->Ok_0.0 == parent->0->Ok_0 && *r->Ok_0.1 == name->0,
{
    match parent {
        None => Err(MaintenanceError::InvalidPlan),
        Some(Err(fault)) => Err(MaintenanceError::Io(*fault)),
        Some(Ok(path)) => {
            if let Err(error) = ensure_within(style, path, root) {
                return Err(error);
            }
            match name {
                None => Err(MaintenanceError::InvalidPlan),
                Some(name) => Ok((path, name)),
            }
        },
    }
}

/// Checks a plan whose update is to be undone against what was found.
pub fn validate_recovery_plan(
    style: PathStyle,
    plan: UpdatePlan,
    seen: &RecoveryObservation,
) -> (r: Result<ValidatedUpdate, MaintenanceError>)
    ensures
        r is Err == recovery_fault(style, plan, *seen) is Some,
        r is Err ==> r->Err_0@ == recovery_fault(style, plan, *seen)->0,
        r is Ok ==> recovery_follows(style, r->Ok_0, plan, *seen),
{
    if let Err(error) = validate_plan_shape(&plan) {
        return Err(error);
    }
    let root = match canonical_root(&seen.root) {
        Err(error) => {
            return Err(error);
        },
        Ok(root) => root,
    };
    let (parent, name) = match parent_and_name(style, &seen.target_parent, &seen.target_name, root) {
        Err(error) => {
            return Err(error);
        },
        Ok(found) => found,
    };
    let staged = match canonical_file_within(style, &seen.staged, root) {
        Err(error) => {
            return Err(error);
        },
        Ok(staged) => staged,
    };
    let working_directory = match canonical_directory_within(style, &seen.working_directory, root) {
        Err(error) => {
            return Err(error);
        },
        Ok(path) => path,
    };
    if let Err(error) = outputs_within(
        style,
        &plan,
        &seen.journal_directory,
        &seen.result_file,
        &seen.stdout_log,
        &seen.stderr_log,
        root,
    ) {
        return Err(error);
    }
    if let Err(error) = backup_is_good(style, &plan, seen, root) {
        return Err(error);
    }
    if let Err(error) = present_is_file(style, &seen.target, root) {
        return Err(error);
    }
    let backup = backup_path(style, parent, name.as_str(), plan.request_id.as_str());
    let temp = temp_path(style, parent, name.as_str(), plan.request_id.as_str());
    let journal = journal_path(style, &plan.journal_directory, plan.request_id.as_str());
    let result_file = paths::copy_path(&plan.result_file);
    let stdout_log = paths::copy_path(&plan.restart.stdout_log);
    let stderr_log = paths::copy_path(&plan.restart.stderr_log);
    Ok(
        ValidatedUpdate {
            plan,
            root: paths::copy_path(root),
            target: paths::join_name(style, parent, name.as_str()),
            staged: paths::copy_path(staged),
            working_directory: paths::copy_path(working_directory),
            backup,
            temp,
            journal,
            result_file,
            stdout_log,
            stderr_log,
        },
    )
}

// ---------------------------------------------------------------------------
// Laws

/// A digest is 64 digits and letters up to f, with white space around it or not, and is
/// taken in small letters; a request is named by 1 to 128 letters, digits, hyphens,
/// underscores and dots.
pub proof fn digests_and_requests_are_named_plainly(value: Seq<char>)
    ensures
        ({
            let inner = text::trim(value);
            let digits = inner.len() == 64 && forall|i: int|
                0 <= i < inner.len() ==> ('0' <= #[trigger] inner[i] <= '9' || 'a' <= inner[i]
                    <= 'f' || 'A' <= inner[i] <= 'F');
            &&& normal_digest(value) is Some <==> digits
            &&& digits ==> normal_digest(value) == Some(text::ascii_lower(inner))
        }),
        is_request_id(value) <==> 1 <= value.len() <= 128 && forall|i: int|
            0 <= i < value.len() ==> ('a' <= #[trigger] value[i] <= 'z' || 'A' <= value[i] <= 'Z'
                || '0' <= value[i] <= '9' || value[i] == '-' || value[i] == '_' || value[i] == '.'),
{
    let inner = text::trim(value);
    if all_hex_digits(inner) {
        assert forall|i: int| 0 <= i < inner.len() implies ('0' <= #[trigger] inner[i] <= '9' || 'a'
            <= inner[i] <= 'f' || 'A' <= inner[i] <= 'F') by {
            assert(codec::hex_value(inner[i]) is Some);
        }
    }
    if forall|i: int|
        0 <= i < inner.len() ==> ('0' <= #[trigger] inner[i] <= '9' || 'a' <= inner[i] <= 'f' || 'A'
            <= inner[i] <= 'F') {
        assert(all_hex_digits(inner));
    }
    if is_request_id(value) {
        assert forall|i: int| 0 <= i < value.len() implies ('a' <= #[trigger] value[i] <= 'z' || 'A'
            <= value[i] <= 'Z' || '0' <= value[i] <= '9' || value[i] == '-' || value[i] == '_'
            || value[i] == '.') by {
            assert(is_request_id_char(value[i]));
        }
    }
    if 1 <= value.len() <= 128 && forall|i: int|
        0 <= i < value.len() ==> ('a' <= #[trigger] value[i] <= 'z' || 'A' <= value[i] <= 'Z' || '0'
            <= value[i] <= '9' || value[i] == '-' || value[i] == '_' || value[i] == '.') {
        assert forall|i: int| 0 <= i < value.len() implies is_request_id_char(#[trigger] value[i]) by {}
    }
}

/// Bytes have the digest that they are to have exactly when that is one and is theirs; where
/// it is another, both are told.
pub proof fn files_are_compared_by_digest(bytes: Seq<u8>, expected: Seq<char>)
    ensures
        ({
            let own = codec::hex_text(crypto::sha256_of(bytes));
            let r = digest_fault(bytes, expected);
            &&& r is None <==> normal_digest(expected) == Some(own)
            &&& normal_digest(expected) is None ==> r == Some(MaintenanceFault::InvalidDigest)
            &&& normal_digest(expected) is Some && normal_digest(expected)->0 != own ==> r == Some(
                MaintenanceFault::DigestMismatch(normal_digest(expected)->0, own),
            )
        }),
{
}

/// The lengths of arguments add up.
pub proof fn argument_lengths_add_up(a: Seq<Seq<char>>, b: Seq<Seq<char>>, argument: Seq<char>)
    ensures
        arguments_bytes(Seq::empty()) == 0,
        arguments_bytes(seq![argument]) == vstd::utf8::encode_utf8(argument).len(),
        arguments_bytes(a + b) == arguments_bytes(a) + arguments_bytes(b),
    decreases b.len(),
{
    assert(seq![argument].drop_last() =~= Seq::<Seq<char>>::empty());
    assert(arguments_bytes(Seq::empty()) == 0);
    if b.len() == 0 {
        assert(a + b =~= a);
    } else {
        argument_lengths_add_up(a, b.drop_last(), argument);
        assert((a + b).drop_last() =~= a + b.drop_last());
        assert((a + b).last() == b.last());
    }
}

/// A program is restarted with at most 128 arguments of 32768 bytes each and 131072 in all,
/// none with a zero, at most 64 variables with names of 256 bytes and values of 8192, and is
/// watched for up to 30 seconds.
pub proof fn restarts_are_bounded(restart: RestartSpec)
    ensures
        restart_fits(restart) <==> {
            &&& restart.args@.len() <= 128
            &&& forall|i: int|
                0 <= i < restart.args@.len() ==> !(#[trigger] restart.args@[i])@.contains('\0')
                    && vstd::utf8::encode_utf8(restart.args@[i]@).len() <= 32_768
            &&& arguments_bytes(text::texts(restart.args@)) <= 131_072
            &&& restart.environment@.dom().len() <= 64
            &&& 1 <= restart.health_wait_ms <= 30_000
            &&& forall|key: Seq<char>| #[trigger]
                restart.environment@.contains_key(key) ==> {
                    &&& !text::is_blank(key)
                    &&& !key.contains('=') && !key.contains('\0')
                    &&& !restart.environment@[key]@.contains('\0')
                    &&& vstd::utf8::encode_utf8(key).len() <= 256
                    &&& vstd::utf8::encode_utf8(restart.environment@[key]@).len() <= 8192
                }
        },
{
    if restart_fits(restart) {
        assert forall|i: int| 0 <= i < restart.args@.len() implies !(
        #[trigger] restart.args@[i])@.contains('\0') && vstd::utf8::encode_utf8(
            restart.args@[i]@,
        ).len() <= 32_768 by {
            assert(argument_fits(restart.args@[i]@));
        }
        assert forall|key: Seq<char>| #[trigger] restart.environment@.contains_key(key) implies {
            &&& !text::is_blank(key)
            &&& !key.contains('=') && !key.contains('\0')
            &&& !restart.environment@[key]@.contains('\0')
            &&& vstd::utf8::encode_utf8(key).len() <= 256
            &&& vstd::utf8::encode_utf8(restart.environment@[key]@).len() <= 8192
        } by {
            assert(variable_fits(key, restart.environment@[key]@));
        }
    }
}

/// All paths are absolute, and none has a part that leads up or stays.
pub open spec fn all_places_are_plain(plan: UpdatePlan) -> bool {
    forall|i: int|
        0 <= i < 8 ==> (#[trigger] places_of(plan)[i]).absolute && forall|k: int|
            0 <= k < places_of(plan)[i]@.parts.len() ==> !((
            #[trigger] places_of(plan)[i]@.parts[k]) is ParentDir) && !(
            places_of(plan)[i]@.parts[k] is CurDir)
}

/// The eight paths that a plan names.
pub open spec fn places_of(plan: UpdatePlan) -> Seq<PathText> {
    seq![
        plan.allowed_root,
        plan.target_executable,
        plan.staged_executable,
        plan.journal_directory,
        plan.result_file,
        plan.restart.working_directory,
        plan.restart.stdout_log,
        plan.restart.stderr_log,
    ]
}

/// A plan has the right shape exactly when it is of the first schema, its request has a name
/// and its process a number, all its paths are absolute and plain, both digests are digests,
/// and the restart is within its bounds. Otherwise the first of these that fails is told.
pub proof fn plans_have_their_shape(plan: UpdatePlan)
    ensures
        ({
            let numbered = plan.schema == 1 && is_request_id(plan.request_id@) && plan.current_pid
                != 0 && paths_absolute(plan);
            let digests = normal_digest(plan.expected_current_sha256@) is Some && normal_digest(
                plan.expected_staged_sha256@,
            ) is Some;
            let r = shape_fault(plan);
            &&& r is None <==> plan.schema == 1 && is_request_id(plan.request_id@)
                && plan.current_pid != 0 && all_places_are_plain(plan) && digests && restart_fits(
                plan.restart,
            )
            &&& !numbered ==> r == Some(MaintenanceFault::InvalidPlan)
            &&& numbered && !paths_plain(plan) ==> r == Some(MaintenanceFault::UnsafePath)
            &&& numbered && paths_plain(plan) && !digests ==> r == Some(
                MaintenanceFault::InvalidDigest,
            )
            &&& numbered && paths_plain(plan) && digests && !restart_fits(plan.restart) ==> r
                == Some(MaintenanceFault::InvalidRestartSpec)
        }),
{
    let p = places_of(plan);
    assert(p[0] == plan.allowed_root && p[1] == plan.target_executable && p[2]
        == plan.staged_executable && p[3] == plan.journal_directory && p[4] == plan.result_file
        && p[5] == plan.restart.working_directory && p[6] == plan.restart.stdout_log && p[7]
        == plan.restart.stderr_log);
    if paths_absolute(plan) && paths_plain(plan) {
        assert forall|i: int| 0 <= i < 8 implies (#[trigger] places_of(plan)[i]).absolute && forall|
            k: int,
        |
            0 <= k < places_of(plan)[i]@.parts.len() ==> !((
            #[trigger] places_of(plan)[i]@.parts[k]) is ParentDir) && !(
            places_of(plan)[i]@.parts[k] is CurDir) by {
            assert(!paths::has_relative_part(p[i]@));
        }
    }
}

/// A place for output is good exactly when it is absolute and plain and the nearest place
/// that exists lies within the root.
pub open spec fn may_be_written(
    style: PathStyle,
    path: PathModel,
    anchor: Anchor,
    root: PathModel,
) -> bool {
    &&& path.absolute
    &&& forall|k: int|
        0 <= k < path.parts.len() ==> !((#[trigger] path.parts[k]) is ParentDir)
            && !(path.parts[k] is CurDir)
    &&& anchor.nearest is Ok
    &&& anchor.nearest->Ok_0 is Some
    &&& paths::is_within(style, anchor.nearest->Ok_0->0@, root)
}

proof fn lemma_may_be_written(style: PathStyle, path: PathModel, anchor: Anchor, root: PathModel)
    ensures
        may_be_written(style, path, anchor, root) <==> output_fault(style, path, anchor, root)
            is None,
{
}

/// An update is begun exactly when its plan has its shape, the root is a directory, both
/// executables are different files within it with the digests that they are to have, the
/// working directory lies within it, and every place that is written does.
pub proof fn updates_are_begun_exactly_when_they_may_be(
    style: PathStyle,
    plan: UpdatePlan,
    seen: PlanObservation,
)
    ensures
        ({
            let root = seen.root->Ok_0.path@;
            let id = plan.request_id@;
            let parent = seen.target_parent->0@;
            let name = seen.target_name->0@;
            plan_fault(style, plan, seen) is None <==> {
                &&& shape_fault(plan) is None
                &&& seen.root is Ok && seen.root->Ok_0.kind is Directory
                &&& seen.target is Ok && seen.target->Ok_0.kind is File && paths::is_within(
                    style,
                    seen.target->Ok_0.path@,
                    root,
                )
                &&& seen.staged is Ok && seen.staged->Ok_0.kind is File && paths::is_within(
                    style,
                    seen.staged->Ok_0.path@,
                    root,
                )
                &&& !paths::is_same(style, seen.target->Ok_0.path@, seen.staged->Ok_0.path@)
                &&& seen.target_bytes is Ok && digest_fault(
                    seen.target_bytes->Ok_0@,
                    plan.expected_current_sha256@,
                ) is None
                &&& seen.staged_bytes is Ok && digest_fault(
                    seen.staged_bytes->Ok_0@,
                    plan.expected_staged_sha256@,
                ) is None
                &&& seen.working_directory is Ok && seen.working_directory->Ok_0.kind is Directory
                    && paths::is_within(style, seen.working_directory->Ok_0.path@, root)
                &&& may_be_written(style, plan.journal_directory@, seen.journal_directory, root)
                &&& may_be_written(style, plan.result_file@, seen.result_file, root)
                &&& may_be_written(style, plan.restart.stdout_log@, seen.stdout_log, root)
                &&& may_be_written(style, plan.restart.stderr_log@, seen.stderr_log, root)
                &&& seen.target_name is Some && seen.target_parent is Some
                &&& may_be_written(style, backup_of(style, parent, name, id), seen.backup, root)
                &&& may_be_written(style, temp_of(style, parent, name, id), seen.temp, root)
                &&& may_be_written(
                    style,
                    journal_of(style, plan.journal_directory@, id),
                    seen.journal,
                    root,
                )
            }
        }),
{
    let root = seen.root->Ok_0.path@;
    let id = plan.request_id@;
    let parent = seen.target_parent->0@;
    let name = seen.target_name->0@;
    lemma_may_be_written(style, plan.journal_directory@, seen.journal_directory, root);
    lemma_may_be_written(style, plan.result_file@, seen.result_file, root);
    lemma_may_be_written(style, plan.restart.stdout_log@, seen.stdout_log, root);
    lemma_may_be_written(style, plan.restart.stderr_log@, seen.stderr_log, root);
    lemma_may_be_written(style, backup_of(style, parent, name, id), seen.backup, root);
    lemma_may_be_written(style, temp_of(style, parent, name, id), seen.temp, root);
    lemma_may_be_written(
        style,
        journal_of(style, plan.journal_directory@, id),
        seen.journal,
        root,
    );
}

/// What an update is kept under beside its target is named by the target and the request,
/// the journal by the request.
pub proof fn updates_have_their_places(
    style: PathStyle,
    update: ValidatedUpdate,
    plan: UpdatePlan,
    seen: PlanObservation,
)
    requires
        update_follows(style, update, plan, seen),
    ensures
        ({
            let parent = seen.target_parent->0@;
            let name = seen.target_name->0@;
            let id = plan.request_id@;
            &&& update.target@ == seen.target->Ok_0.path@
            &&& update.staged@ == seen.staged->Ok_0.path@
            &&& update.backup@ == paths::joined(
                style,
                parent,
                seq!['.'] + name + seq!['.'] + id + seq!['.', 'b', 'a', 'k'],
            )
            &&& update.temp@ == paths::joined(
                style,
                parent,
                seq!['.'] + name + seq!['.'] + id + seq!['.', 'n', 'e', 'w'],
            )
            &&& update.journal@ == paths::joined(
                style,
                plan.journal_directory@,
                id + seq!['.', 'j', 's', 'o', 'n', 'l'],
            )
            &&& update.result_file@ == plan.result_file@
            &&& update.stdout_log@ == plan.restart.stdout_log@
            &&& update.stderr_log@ == plan.restart.stderr_log@
            &&& update.working_directory@ == seen.working_directory->Ok_0.path@
        }),
{
    reveal_strlit(".bak");
    reveal_strlit(".new");
    reveal_strlit(".jsonl");
    assert(".bak"@ =~= seq!['.', 'b', 'a', 'k']);
    assert(".new"@ =~= seq!['.', 'n', 'e', 'w']);
    assert(".jsonl"@ =~= seq!['.', 'j', 's', 'o', 'n', 'l']);
}

/// What was there before is brought back exactly when the plan has its shape, the root is a
/// directory, the target's directory, the staged file and the working directory lie within
/// it, every output does, the backup is a file within it with the old digest, and the target
/// is a file within it or not there.
pub proof fn updates_are_recovered_exactly_when_they_may_be(
    style: PathStyle,
    plan: UpdatePlan,
    seen: RecoveryObservation,
)
    ensures
        ({
            let root = seen.root->Ok_0.path@;
            recovery_fault(style, plan, seen) is None <==> {
                &&& shape_fault(plan) is None
                &&& seen.root is Ok && seen.root->Ok_0.kind is Directory
                &&& seen.target_parent is Some && seen.target_parent->0 is Ok && paths::is_within(
                    style,
                    seen.target_parent->0->Ok_0@,
                    root,
                )
                &&& seen.target_name is Some
                &&& seen.staged is Ok && seen.staged->Ok_0.kind is File && paths::is_within(
                    style,
                    seen.staged->Ok_0.path@,
                    root,
                )
                &&& seen.working_directory is Ok && seen.working_directory->Ok_0.kind is Directory
                    && paths::is_within(style, seen.working_directory->Ok_0.path@, root)
                &&& may_be_written(style, plan.journal_directory@, seen.journal_directory, root)
                &&& may_be_written(style, plan.result_file@, seen.result_file, root)
                &&& may_be_written(style, plan.restart.stdout_log@, seen.stdout_log, root)
                &&& may_be_written(style, plan.restart.stderr_log@, seen.stderr_log, root)
                &&& seen.backup_is_file && seen.backup is Ok && paths::is_within(
                    style,
                    seen.backup->Ok_0@,
                    root,
                )
                &&& seen.backup_bytes is Ok && digest_fault(
                    seen.backup_bytes->Ok_0@,
                    plan.expected_current_sha256@,
                ) is None
                &&& seen.target is Some ==> seen.target->0 is Ok && seen.target->0->Ok_0.kind is File
                    && paths::is_within(style, seen.target->0->Ok_0.path@, root)
            }
        }),
{
    let root = seen.root->Ok_0.path@;
    lemma_may_be_written(style, plan.journal_directory@, seen.journal_directory, root);
    lemma_may_be_written(style, plan.result_file@, seen.result_file, root);
    lemma_may_be_written(style, plan.restart.stdout_log@, seen.stdout_log, root);
    lemma_may_be_written(style, plan.restart.stderr_log@, seen.stderr_log, root);
}

/// Plans have these limits.
pub proof fn plans_have_these_limits()
    ensures
        UPDATE_PLAN_SCHEMA == 1,
        MAX_PLAN_BYTES == 131_072,
{
}

/// What is brought back goes to the name of the target in its directory, from the backup that
/// the update was to leave there.
pub proof fn recoveries_have_their_places(
    style: PathStyle,
    update: ValidatedUpdate,
    plan: UpdatePlan,
    seen: RecoveryObservation,
)
    requires
        recovery_follows(style, update, plan, seen),
    ensures
        ({
            let parent = seen.target_parent->0->Ok_0@;
            let name = seen.target_name->0@;
            let id = plan.request_id@;
            &&& update.plan == plan
            &&& update.root@ == seen.root->Ok_0.path@
            &&& update.target@ == paths::joined(style, parent, name)
            &&& update.staged@ == seen.staged->Ok_0.path@
            &&& update.backup@ == paths::joined(
                style,
                parent,
                seq!['.'] + name + seq!['.'] + id + seq!['.', 'b', 'a', 'k'],
            )
            &&& update.temp@ == paths::joined(
                style,
                parent,
                seq!['.'] + name + seq!['.'] + id + seq!['.', 'n', 'e', 'w'],
            )
            &&& update.journal@ == paths::joined(
                style,
                plan.journal_directory@,
                id + seq!['.', 'j', 's', 'o', 'n', 'l'],
            )
            &&& update.result_file@ == plan.result_file@
            &&& update.stdout_log@ == plan.restart.stdout_log@
            &&& update.stderr_log@ == plan.restart.stderr_log@
            &&& update.working_directory@ == seen.working_directory->Ok_0.path@
        }),
{
    reveal_strlit(".bak");
    reveal_strlit(".new");
    reveal_strlit(".jsonl");
    assert(".bak"@ =~= seq!['.', 'b', 'a', 'k']);
    assert(".new"@ =~= seq!['.', 'n', 'e', 'w']);
    assert(".jsonl"@ =~= seq!['.', 'j', 's', 'o', 'n', 'l']);
}

} // verus!
