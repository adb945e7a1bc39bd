//! Requests from afar: which may be made, what they come down to, and how they
//! are answered.

use vstd::prelude::*;
use vstd::utf8::encode_utf8;

use crate::approval;
use crate::approval::ApprovalError;
use crate::audit::AuditError;
use crate::broker::{Authorization, CoreError};
use crate::browser::{BrowserError, BrowserWorkerConfig};
use crate::codec;
use crate::crypto;
use crate::files::FsError;
use crate::git::GitError;
use crate::paths::PathText;
use crate::policy::PolicyError;
use crate::protocol;
use crate::protocol::{ActionRequest, Parameter, ParameterValue};
use crate::text;

verus! {

pub const DEFAULT_MAX_OUTPUT_BYTES: usize = 1_048_576;

pub const DEFAULT_MAX_REMOTE_WRITE_BYTES: usize = 1_048_576;

pub const DEFAULT_APPROVAL_CHALLENGE_TTL_MS: u64 = 120_000;

/// The longest text that can encode what a remote write may hold.
pub const MAX_ENCODED_WRITE_BYTES: usize = 1_398_109;

/// What a result holds besides the output of a terminal.
pub const TERMINAL_RESULT_OVERHEAD_BYTES: usize = 16_384;

#[derive(Debug)]
pub struct DispatchConfig {
    pub device_id: String,
    pub policy_path: PathText,
    pub audit_sqlite: PathText,
    pub audit_jsonl: PathText,
    pub journal_dir: PathText,
    pub allowed_roots: Vec<PathText>,
    pub git_executable: PathText,
    pub max_output_bytes: usize,
    pub browser: Option<BrowserWorkerConfig>,
}

/// How a terminal failed.
#[derive(Debug, Clone, Copy, PartialEq, Eq, Structural)]
pub enum TerminalError {
    Cancelled,
    Timeout,
    OutputLimitExceeded,
    Other,
}

#[derive(Debug, PartialEq, Eq)]
pub enum DispatchError {
    InvalidConfig,
    PostEffectUncertain(CoreError),
    WrongDevice,
    RemoteActionNotAllowed,
    Denied,
    ApprovalRequired,
    InvalidApprovedAction,
    RemoteApprovalPolicyRequired,
    MissingWriteContent,
    InvalidWriteContent,
    WriteTooLarge(usize),
    InvalidTerminalParameters,
    InvalidFilesystemParameters,
    OutputTooLarge(usize),
    Clock,
    Wire,
    Approval(ApprovalError),
    Policy(PolicyError),
    Audit(AuditError),
    Core(CoreError),
    Fs(FsError),
    Git(GitError),
    Process,
    Terminal(TerminalError),
    Browser(BrowserError),
    Json,
}

// ---------------------------------------------------------------------------
// Which actions may be asked for

/// An action that may be asked for from afar and needs no approval.
pub open spec fn is_remote_action(action: Seq<char>) -> bool {
    action == "filesystem.read"@ || action == "filesystem.list"@ || action
        == "filesystem.search_files"@ || action == "filesystem.search_content"@ || action
        == "filesystem.info"@ || action == "git.status"@ || action == "git.diff"@ || action
        == "process.list"@ || action == "process.inspect"@ || action == "terminal.poll"@ || action
        == "terminal.cancel"@
}

/// An action that may be asked for from afar, with an approval.
pub open spec fn is_remote_approved_action(action: Seq<char>) -> bool {
    action == "filesystem.write"@ || action == "terminal.exec"@ || action == "process.terminate"@
        || action == "browser.session.use"@
}

pub fn remote_action_allowed(action: &str) -> (r: bool)
    ensures
        r == is_remote_action(action@),
{
    text::same_text(action, "filesystem.read") || text::same_text(action, "filesystem.list")
        || text::same_text(action, "filesystem.search_files") || text::same_text(
        action,
        "filesystem.search_content",
    ) || text::same_text(action, "filesystem.info") || text::same_text(action, "git.status")
        || text::same_text(action, "git.diff") || text::same_text(action, "process.list")
        || text::same_text(action, "process.inspect") || text::same_text(action, "terminal.poll")
        || text::same_text(action, "terminal.cancel")
}

pub fn remote_approved_action_allowed(action: &str) -> (r: bool)
    ensures
        r == is_remote_approved_action(action@),
{
    text::same_text(action, "filesystem.write") || text::same_text(action, "terminal.exec")
        || text::same_text(action, "process.terminate") || text::same_text(
        action,
        "browser.session.use",
    )
}

// ---------------------------------------------------------------------------
// Parameters

/// A number that may be given: nothing, the number, or a fault.
pub open spec fn number_given(parameters: Seq<Parameter>, name: Seq<char>, max: int) -> Result<
    Option<u64>,
    (),
> {
    match protocol::parameter(parameters, name) {
        None => Ok(None),
        Some(ParameterValue::Unsigned(n)) => if n <= max {
            Ok(Some(n))
        } else {
            Err(())
        },
        Some(_) => Err(()),
    }
}

/// A size that must be given.
pub open spec fn size_given(parameters: Seq<Parameter>, name: Seq<char>) -> Option<u64> {
    match number_given(parameters, name, usize::MAX as int) {
        Ok(Some(n)) => Some(n),
        _ => None,
    }
}

fn given_u64(parameters: &Vec<Parameter>, name: &str, max: u64) -> (r: Result<Option<u64>, ()>)
    ensures
        r == number_given(parameters@, name@, max as int),
{
    match protocol::find_parameter(parameters, name) {
        None => Ok(None),
        Some(ParameterValue::Unsigned(n)) => {
            if *n <= max {
                Ok(Some(*n))
            } else {
                Err(())
            }
        },
        Some(_) => Err(()),
    }
}

fn required_usize(parameters: &Vec<Parameter>, name: &str) -> (r: Result<usize, DispatchError>)
    ensures
        r is Ok == size_given(parameters@, name@) is Some,
        r is Ok ==> r->Ok_0 == size_given(parameters@, name@)->0,
        r is Err ==> r->Err_0 == DispatchError::InvalidFilesystemParameters,
{
    match given_u64(parameters, name, usize::MAX as u64) {
        Ok(Some(n)) => Ok(n as usize),
        _ => Err(DispatchError::InvalidFilesystemParameters),
    }
}

fn required_str<'a>(parameters: &'a Vec<Parameter>, name: &str) -> (r: Result<
    &'a str,
    DispatchError,
>)
    ensures
        r is Ok == protocol::text_parameter(parameters@, name@) is Some,
        r is Ok ==> r->Ok_0@ == protocol::text_parameter(parameters@, name@)->0,
        r is Err ==> r->Err_0 == DispatchError::InvalidFilesystemParameters,
{
    match protocol::find_text(parameters, name) {
        Some(value) => Ok(value),
        None => Err(DispatchError::InvalidFilesystemParameters),
    }
}

fn required_bool(parameters: &Vec<Parameter>, name: &str) -> (r: Result<bool, DispatchError>)
    ensures
        r is Ok == protocol::flag_parameter(parameters@, name@) is Some,
        r is Ok ==> r->Ok_0 == protocol::flag_parameter(parameters@, name@)->0,
        r is Err ==> r->Err_0 == DispatchError::InvalidFilesystemParameters,
{
    match protocol::find_flag(parameters, name) {
        Some(value) => Ok(value),
        None => Err(DispatchError::InvalidFilesystemParameters),
    }
}

// ---------------------------------------------------------------------------
// What an authorized request comes down to

/// Who a terminal session belongs to.
#[derive(Debug, PartialEq, Eq)]
pub struct TerminalSessionOwner {
    pub organization_id: String,
    pub actor_id: String,
    pub device_id: String,
    pub workspace_id: Option<String>,
}

/// What an authorized request asks a worker to do.
#[derive(Debug)]
pub enum ReadPlan {
    ReadRange { offset: u64, length: usize },
    ReadLines { line_start: usize, line_count: usize },
    ReadWhole,
    List { depth: usize, max_entries: usize },
    SearchFiles { pattern: String, max_results: usize },
    SearchContent {
        query: String,
        regex: bool,
        file_glob: String,
        max_matches: usize,
        max_file_bytes: usize,
    },
    Info,
    GitStatus,
    GitDiff,
    ProcessList,
    ProcessInspect,
    TerminalPoll { owner: TerminalSessionOwner, session_id: String },
    TerminalCancel { owner: TerminalSessionOwner, session_id: String },
}

/// How a file is to be read: by bytes, by lines, or whole.
pub open spec fn read_follows(plan: ReadPlan, parameters: Seq<Parameter>) -> bool {
    let offset = number_given(parameters, "offset"@, u64::MAX as int)->Ok_0;
    let length = number_given(parameters, "length"@, usize::MAX as int)->Ok_0;
    let start = number_given(parameters, "line_start"@, usize::MAX as int)->Ok_0;
    let count = number_given(parameters, "line_count"@, usize::MAX as int)->Ok_0;
    if offset is Some {
        plan matches ReadPlan::ReadRange { offset: o, length: l } && o == offset->0 && l
            == length->0
    } else if start is Some {
        plan matches ReadPlan::ReadLines { line_start, line_count } && line_start == start->0
            && line_count == count->0
    } else {
        plan is ReadWhole
    }
}

/// The parameters say one way of reading.
pub open spec fn read_given(parameters: Seq<Parameter>) -> bool {
    let offset = number_given(parameters, "offset"@, u64::MAX as int);
    let length = number_given(parameters, "length"@, usize::MAX as int);
    let start = number_given(parameters, "line_start"@, usize::MAX as int);
    let count = number_given(parameters, "line_count"@, usize::MAX as int);
    &&& offset is Ok && length is Ok && start is Ok && count is Ok
    &&& offset->Ok_0 is Some == length->Ok_0 is Some
    &&& start->Ok_0 is Some == count->Ok_0 is Some
    &&& !(offset->Ok_0 is Some && start->Ok_0 is Some)
}

/// The workspace of a terminal session is a text, or not given.
pub open spec fn workspace_given(parameters: Seq<Parameter>) -> bool {
    match protocol::parameter(parameters, "workspace_id"@) {
        None => true,
        Some(value) => value is Text,
    }
}

/// The owner is who the request comes from.
pub open spec fn is_owner(owner: TerminalSessionOwner, request: ActionRequest) -> bool {
    &&& owner.organization_id@ == request.envelope.organization_id@
    &&& owner.actor_id@ == request.envelope.actor_id@
    &&& owner.device_id@ == request.envelope.device_id@
    &&& approval::optional_text(owner.workspace_id) == protocol::text_parameter(
        request.envelope.parameters@,
        "workspace_id"@,
    )
}

/// Why an authorized request comes down to nothing, if it does.
pub open spec fn read_plan_fault(request: ActionRequest) -> Option<DispatchError> {
    let action = request.envelope.action@;
    let parameters = request.envelope.parameters@;
    if action == "filesystem.read"@ {
        if read_given(parameters) {
            None
        } else {
            Some(DispatchError::InvalidFilesystemParameters)
        }
    } else if action == "filesystem.list"@ {
        if size_given(parameters, "depth"@) is Some && size_given(
            parameters,
            "max_entries"@,
        ) is Some {
            None
        } else {
            Some(DispatchError::InvalidFilesystemParameters)
        }
    } else if action == "filesystem.search_files"@ {
        if protocol::text_parameter(parameters, "pattern"@) is Some && size_given(
            parameters,
            "max_results"@,
        ) is Some {
            None
        } else {
            Some(DispatchError::InvalidFilesystemParameters)
        }
    } else if action == "filesystem.search_content"@ {
        if protocol::text_parameter(parameters, "query"@) is Some && protocol::flag_parameter(
            parameters,
            "regex"@,
        ) is Some && protocol::text_parameter(parameters, "file_glob"@) is Some && size_given(
            parameters,
            "max_matches"@,
        ) is Some && size_given(parameters, "max_file_bytes"@) is Some {
            None
        } else {
            Some(DispatchError::InvalidFilesystemParameters)
        }
    } else if action == "filesystem.info"@ || action == "git.status"@ || action == "git.diff"@
        || action == "process.list"@ || action == "process.inspect"@ {
        None
    } else if action == "terminal.poll"@ || action == "terminal.cancel"@ {
        if workspace_given(parameters) {
            None
        } else {
            Some(DispatchError::InvalidTerminalParameters)
        }
    } else {
        Some(DispatchError::RemoteActionNotAllowed)
    }
}

/// The plan is what the request asks for.
pub open spec fn read_plan_follows(plan: ReadPlan, request: ActionRequest) -> bool {
    let action = request.envelope.action@;
    let parameters = request.envelope.parameters@;
    if action == "filesystem.read"@ {
        read_follows(plan, parameters)
    } else if action == "filesystem.list"@ {
        plan matches ReadPlan::List { depth, max_entries } && depth == size_given(
            parameters,
            "depth"@,
        )->0 && max_entries == size_given(parameters, "max_entries"@)->0
    } else if action == "filesystem.search_files"@ {
        plan matches ReadPlan::SearchFiles { pattern, max_results } && pattern@
            == protocol::text_parameter(parameters, "pattern"@)->0 && max_results == size_given(
            parameters,
            "max_results"@,
        )->0
    } else if action == "filesystem.search_content"@ {
        plan matches ReadPlan::SearchContent {
            query,
            regex,
            file_glob,
            max_matches,
            max_file_bytes,
        } && query@ == protocol::text_parameter(parameters, "query"@)->0 && regex
            == protocol::flag_parameter(parameters, "regex"@)->0 && file_glob@
            == protocol::text_parameter(parameters, "file_glob"@)->0 && max_matches == size_given(
            parameters,
            "max_matches"@,
        )->0 && max_file_bytes == size_given(parameters, "max_file_bytes"@)->0
    } else if action == "filesystem.info"@ {
        plan is Info
    } else if action == "git.status"@ {
        plan is GitStatus
    } else if action == "git.diff"@ {
        plan is GitDiff
    } else if action == "process.list"@ {
        plan is ProcessList
    } else if action == "process.inspect"@ {
        plan is ProcessInspect
    } else if action == "terminal.poll"@ {
        plan matches ReadPlan::TerminalPoll { owner, session_id } && is_owner(owner, request)
            && session_id@ == request.envelope.target@
    } else {
        plan matches ReadPlan::TerminalCancel { owner, session_id } && is_owner(owner, request)
            && session_id@ == request.envelope.target@
    }
}

/// Who a terminal session of a request belongs to.
pub fn terminal_session_owner(request: &ActionRequest) -> (r: Result<
    TerminalSessionOwner,
    DispatchError,
>)
    ensures
        r is Ok == workspace_given(request.envelope.parameters@),
        r is Err ==> r->Err_0 == DispatchError::InvalidTerminalParameters,
        r is Ok ==> is_owner(r->Ok_0, *request),
{
    let workspace_id = match protocol::find_parameter(
        &request.envelope.parameters,
        "workspace_id",
    ) {
        None => None,
        Some(ParameterValue::Text(id)) => Some(id.clone()),
        Some(_) => {
            return Err(DispatchError::InvalidTerminalParameters);
        },
    };
    Ok(
        TerminalSessionOwner {
            organization_id: request.envelope.organization_id.clone(),
            actor_id: request.envelope.actor_id.clone(),
            device_id: request.envelope.device_id.clone(),
            workspace_id,
        },
    )
}

fn read_plan(parameters: &Vec<Parameter>) -> (r: Result<ReadPlan, DispatchError>)
    ensures
        r is Ok == read_given(parameters@),
        r is Err ==> r->Err_0 == DispatchError::InvalidFilesystemParameters,
        r is Ok ==> read_follows(r->Ok_0, parameters@),
{
    let max: u64 = usize::MAX as u64;
    let offset = given_u64(parameters, "offset", u64::MAX);
    let length = given_u64(parameters, "length", max);
    let start = given_u64(parameters, "line_start", max);
    let count = given_u64(parameters, "line_count", max);
    match (offset, length, start, count) {
        (Ok(Some(offset)), Ok(Some(length)), Ok(None), Ok(None)) => Ok(
            ReadPlan::ReadRange { offset, length: length as usize },
        ),
        (Ok(None), Ok(None), Ok(Some(start)), Ok(Some(count))) => Ok(
            ReadPlan::ReadLines { line_start: start as usize, line_count: count as usize },
        ),
        (Ok(None), Ok(None), Ok(None), Ok(None)) => Ok(ReadPlan::ReadWhole),
        _ => Err(DispatchError::InvalidFilesystemParameters),
    }
}

fn list_plan(parameters: &Vec<Parameter>) -> (r: Result<ReadPlan, DispatchError>)
    ensures
        r is Ok == (size_given(parameters@, "depth"@) is Some && size_given(
            parameters@,
            "max_entries"@,
        ) is Some),
        r is Err ==> r->Err_0 == DispatchError::InvalidFilesystemParameters,
        r is Ok ==> (r->Ok_0 matches ReadPlan::List { depth, max_entries } && depth == size_given(
            parameters@,
            "depth"@,
        )->0 && max_entries == size_given(parameters@, "max_entries"@)->0),
{
    let depth: usize = match required_usize(parameters, "depth") {
        Err(error) => {
            return Err(error);
        },
        Ok(depth) => depth,
    };
    match required_usize(parameters, "max_entries") {
        Err(error) => Err(error),
        Ok(max_entries) => Ok(ReadPlan::List { depth, max_entries }),
    }
}

fn search_files_plan(parameters: &Vec<Parameter>) -> (r: Result<ReadPlan, DispatchError>)
    ensures
        r is Ok == (protocol::text_parameter(parameters@, "pattern"@) is Some && size_given(
            parameters@,
            "max_results"@,
        ) is Some),
        r is Err ==> r->Err_0 == DispatchError::InvalidFilesystemParameters,
        r is Ok ==> (r->Ok_0 matches ReadPlan::SearchFiles { pattern, max_results } && pattern@
            == protocol::text_parameter(parameters@, "pattern"@)->0 && max_results == size_given(
            parameters@,
            "max_results"@,
        )->0),
{
    let pattern = match required_str(parameters, "pattern") {
        Err(error) => {
            return Err(error);
        },
        Ok(pattern) => pattern,
    };
    match required_usize(parameters, "max_results") {
        Err(error) => Err(error),
        Ok(max_results) => Ok(
            ReadPlan::SearchFiles { pattern: text::copied(pattern), max_results },
        ),
    }
}

fn search_content_plan(parameters: &Vec<Parameter>) -> (r: Result<ReadPlan, DispatchError>)
    ensures
        r is Ok == (protocol::text_parameter(parameters@, "query"@) is Some
            && protocol::flag_parameter(parameters@, "regex"@) is Some && protocol::text_parameter(
            parameters@,
            "file_glob"@,
        ) is Some && size_given(parameters@, "max_matches"@) is Some && size_given(
            parameters@,
            "max_file_bytes"@,
        ) is Some),
        r is Err ==> r->Err_0 == DispatchError::InvalidFilesystemParameters,
        r is Ok ==> (r->Ok_0 matches ReadPlan::SearchContent {
            query,
            regex,
            file_glob,
            max_matches,
            max_file_bytes,
        } && query@ == protocol::text_parameter(parameters@, "query"@)->0 && regex
            == protocol::flag_parameter(parameters@, "regex"@)->0 && file_glob@
            == protocol::text_parameter(parameters@, "file_glob"@)->0 && max_matches == size_given(
            parameters@,
            "max_matches"@,
        )->0 && max_file_bytes == size_given(parameters@, "max_file_bytes"@)->0),
{
    let query = match required_str(parameters, "query") {
        Err(error) => {
            return Err(error);
        },
        Ok(query) => query,
    };
    let regex = match required_bool(parameters, "regex") {
        Err(error) => {
            return Err(error);
        },
        Ok(regex) => regex,
    };
    let file_glob = match required_str(parameters, "file_glob") {
        Err(error) => {
            return Err(error);
        },
        Ok(glob) => glob,
    };
    let max_matches: usize = match required_usize(parameters, "max_matches") {
        Err(error) => {
            return Err(error);
        },
        Ok(max) => max,
    };
    match required_usize(parameters, "max_file_bytes") {
        Err(error) => Err(error),
        Ok(max_file_bytes) => Ok(
            ReadPlan::SearchContent {
                query: text::copied(query),
                regex,
                file_glob: text::copied(file_glob),
                max_matches,
                max_file_bytes,
            },
        ),
    }
}

/// What an authorized request asks a worker to do.
pub fn execute_authorized(authorization: &Authorization) -> (r: Result<ReadPlan, DispatchError>)
    ensures
        r is Err == read_plan_fault(authorization.request) is Some,
        r is Err ==> r->Err_0 == read_plan_fault(authorization.request)->0,
        r is Ok ==> read_plan_follows(r->Ok_0, authorization.request),
{
    let request = &authorization.request;
    let action = request.envelope.action.as_str();
    let parameters = &request.envelope.parameters;
    if text::same_text(action, "filesystem.read") {
        read_plan(parameters)
    } else if text::same_text(action, "filesystem.list") {
        list_plan(parameters)
    } else if text::same_text(action, "filesystem.search_files") {
        search_files_plan(parameters)
    } else if text::same_text(action, "filesystem.search_content") {
        search_content_plan(parameters)
    } else if text::same_text(action, "filesystem.info") {
        Ok(ReadPlan::Info)
    } else if text::same_text(action, "git.status") {
        Ok(ReadPlan::GitStatus)
    } else if text::same_text(action, "git.diff") {
        Ok(ReadPlan::GitDiff)
    } else if text::same_text(action, "process.list") {
        Ok(ReadPlan::ProcessList)
    } else if text::same_text(action, "process.inspect") {
        Ok(ReadPlan::ProcessInspect)
    } else if text::same_text(action, "terminal.poll") {
        match terminal_session_owner(request) {
            Err(error) => Err(error),
            Ok(owner) => Ok(
                ReadPlan::TerminalPoll { owner, session_id: request.envelope.target.clone() },
            ),
        }
    } else if text::same_text(action, "terminal.cancel") {
        match terminal_session_owner(request) {
            Err(error) => Err(error),
            Ok(owner) => Ok(
                ReadPlan::TerminalCancel { owner, session_id: request.envelope.target.clone() },
            ),
        }
    } else {
        Err(DispatchError::RemoteActionNotAllowed)
    }
}

// ---------------------------------------------------------------------------
// What an approved request comes down to

/// A command to run in a terminal.
#[derive(Debug)]
pub struct TerminalSpec {
    pub argv: Vec<String>,
    pub cwd: String,
    pub timeout_ms: u64,
    pub max_output_bytes: usize,
    pub columns: u16,
    pub rows: u16,
}

/// What holds of a terminal where a request does not say.
#[derive(Debug, Clone, Copy)]
pub struct TerminalDefaults {
    pub timeout_ms: u64,
    pub max_output_bytes: usize,
}

/// What an approved request asks a worker to do.
#[derive(Debug)]
pub enum ApprovedPlan {
    Write { content: Vec<u8> },
    Terminal { command: TerminalSpec, owner: TerminalSessionOwner },
    TerminateProcess,
    UseBrowser,
}

pub open spec fn is_terminal_parameter(name: Seq<char>) -> bool {
    name == "argv"@ || name == "timeout_ms"@ || name == "max_output_bytes"@ || name == "columns"@
        || name == "rows"@ || name == "workspace_id"@
}

/// What of a result's room is left to the output of a terminal, once encoded.
pub open spec fn json_safe_output(limit: usize) -> int {
    let room = if limit > TERMINAL_RESULT_OVERHEAD_BYTES {
        limit - TERMINAL_RESULT_OVERHEAD_BYTES
    } else {
        0
    };
    (if room * 3 > usize::MAX {
        usize::MAX as int
    } else {
        room * 3
    }) / 4
}

/// The request says how to run a command.
pub open spec fn terminal_given(parameters: Seq<Parameter>, limit: usize) -> bool {
    &&& forall|i: int|
        0 <= i < parameters.len() ==> is_terminal_parameter((#[trigger] parameters[i]).name@)
    &&& protocol::parameter(parameters, "argv"@) matches Some(ParameterValue::List(argv))
        && argv@.len() > 0 && protocol::all_texts(argv@)
    &&& number_given(parameters, "timeout_ms"@, u64::MAX as int) is Ok
    &&& json_safe_output(limit) > 0
    &&& number_given(parameters, "max_output_bytes"@, usize::MAX as int) is Ok
    &&& number_given(parameters, "columns"@, u16::MAX as int) is Ok
    &&& number_given(parameters, "rows"@, u16::MAX as int) is Ok
}

pub open spec fn given_or(parameters: Seq<Parameter>, name: Seq<char>, default: int) -> int {
    match number_given(parameters, name, u64::MAX as int) {
        Ok(Some(n)) => n as int,
        _ => default,
    }
}

pub open spec fn smaller(a: int, b: int) -> int {
    if a <= b {
        a
    } else {
        b
    }
}

/// The command is what the request says.
pub open spec fn terminal_follows(
    command: TerminalSpec,
    request: ActionRequest,
    limit: usize,
    defaults: TerminalDefaults,
) -> bool {
    let parameters = request.envelope.parameters@;
    &&& text::texts(command.argv@) == protocol::value_texts(
        protocol::parameter(parameters, "argv"@)->0->List_0@,
    )
    &&& command.cwd@ == request.envelope.target@
    &&& command.timeout_ms == given_or(parameters, "timeout_ms"@, defaults.timeout_ms as int)
    &&& command.max_output_bytes == smaller(
        given_or(parameters, "max_output_bytes"@, defaults.max_output_bytes as int),
        json_safe_output(limit),
    )
    &&& command.columns == given_or(parameters, "columns"@, 120)
    &&& command.rows == given_or(parameters, "rows"@, 40)
}

fn terminal_parameter(name: &str) -> (r: bool)
    ensures
        r == is_terminal_parameter(name@),
{
    text::same_text(name, "argv") || text::same_text(name, "timeout_ms") || text::same_text(
        name,
        "max_output_bytes",
    ) || text::same_text(name, "columns") || text::same_text(name, "rows") || text::same_text(
        name,
        "workspace_id",
    )
}

fn only_terminal_parameters(parameters: &Vec<Parameter>) -> (r: bool)
    ensures
        r == (forall|i: int|
            0 <= i < parameters@.len() ==> is_terminal_parameter(
                (#[trigger] parameters@[i]).name@,
            )),
{
    let mut i: usize = 0;
    while i < parameters.len()
        invariant
            i <= parameters@.len(),
            forall|k: int|
                0 <= k < i ==> is_terminal_parameter((#[trigger] parameters@[k]).name@),
        decreases parameters@.len() - i,
    {
        if !terminal_parameter(parameters[i].name.as_str()) {
            proof {
                assert(!is_terminal_parameter(parameters@[i as int].name@));
            }
            return false;
        }
        i = i + 1;
    }
    true
}

fn output_room(limit: usize) -> (r: usize)
    ensures
        r == json_safe_output(limit),
{
    let room: usize = if limit > TERMINAL_RESULT_OVERHEAD_BYTES {
        limit - TERMINAL_RESULT_OVERHEAD_BYTES
    } else {
        0
    };
    match room.checked_mul(3) {
        Some(tripled) => tripled / 4,
        None => usize::MAX / 4,
    }
}

/// The command that an approved request runs, in a terminal whose output fits
/// into a result of `limit` bytes.
pub fn remote_terminal_spec(request: &ActionRequest, limit: usize, defaults: TerminalDefaults) -> (r:
    Result<TerminalSpec, DispatchError>)
    ensures
        r is Ok == terminal_given(request.envelope.parameters@, limit),
        r is Err ==> r->Err_0 == DispatchError::InvalidTerminalParameters,
        r is Ok ==> terminal_follows(r->Ok_0, *request, limit, defaults),
{
    let parameters = &request.envelope.parameters;
    if !only_terminal_parameters(parameters) {
        return Err(DispatchError::InvalidTerminalParameters);
    }
    let argv = match protocol::find_parameter(parameters, "argv") {
        Some(ParameterValue::List(values)) => match protocol::text_list(values) {
            None => {
                return Err(DispatchError::InvalidTerminalParameters);
            },
            Some(argv) => {
                proof {
                    assert(text::texts(argv@).len() == argv@.len());
                    assert(protocol::value_texts(values@).len() == values@.len());
                }
                argv
            },
        },
        _ => {
            return Err(DispatchError::InvalidTerminalParameters);
        },
    };
    let room: usize = output_room(limit);
    if argv.len() == 0 || room == 0 {
        return Err(DispatchError::InvalidTerminalParameters);
    }
    let timeout = given_u64(parameters, "timeout_ms", u64::MAX);
    let output = given_u64(parameters, "max_output_bytes", usize::MAX as u64);
    let columns = given_u64(parameters, "columns", u16::MAX as u64);
    let rows = given_u64(parameters, "rows", u16::MAX as u64);
    match (timeout, output, columns, rows) {
        (Ok(timeout), Ok(output), Ok(columns), Ok(rows)) => {
            let wanted: usize = match output {
                None => defaults.max_output_bytes,
                Some(n) => n as usize,
            };
            Ok(
                TerminalSpec {
                    argv,
                    cwd: request.envelope.target.clone(),
                    timeout_ms: match timeout {
                        None => defaults.timeout_ms,
                        Some(n) => n,
                    },
                    max_output_bytes: if wanted <= room {
                        wanted
                    } else {
                        room
                    },
                    columns: match columns {
                        None => 120,
                        Some(n) => n as u16,
                    },
                    rows: match rows {
                        None => 40,
                        Some(n) => n as u16,
                    },
                },
            )
        },
        _ => Err(DispatchError::InvalidTerminalParameters),
    }
}

pub open spec fn optional_bytes(bytes: Option<Vec<u8>>) -> Option<Seq<u8>> {
    match bytes {
        None => None,
        Some(bytes) => Some(bytes@),
    }
}

/// Why decoded content is not written, if it is not.
pub open spec fn content_fault(decoded: Option<Seq<u8>>) -> Option<DispatchError> {
    match decoded {
        None => Some(DispatchError::InvalidWriteContent),
        Some(content) => if content.len() > DEFAULT_MAX_REMOTE_WRITE_BYTES {
            Some(DispatchError::WriteTooLarge(content.len() as usize))
        } else {
            None
        },
    }
}

/// Why a request holds nothing to write, if it does not.
pub open spec fn write_fault(parameters: Seq<Parameter>) -> Option<DispatchError> {
    match protocol::text_parameter(parameters, "content_base64"@) {
        None => Some(DispatchError::MissingWriteContent),
        Some(encoded) => if text::byte_len(encoded) > MAX_ENCODED_WRITE_BYTES {
            Some(DispatchError::WriteTooLarge(text::byte_len(encoded) as usize))
        } else {
            content_fault(codec::standard_base64_bytes(encoded))
        },
    }
}

/// What a request asks to write.
pub open spec fn written_content(parameters: Seq<Parameter>) -> Seq<u8> {
    codec::standard_base64_bytes(
        protocol::text_parameter(parameters, "content_base64"@)->0,
    )->0
}

/// The content that an approved request writes.
pub fn remote_write_content(request: &ActionRequest) -> (r: Result<Vec<u8>, DispatchError>)
    ensures
        r is Err == write_fault(request.envelope.parameters@) is Some,
        r is Err ==> r->Err_0 == write_fault(request.envelope.parameters@)->0,
        r is Ok ==> r->Ok_0@ == written_content(request.envelope.parameters@),
{
    let encoded = match protocol::find_text(&request.envelope.parameters, "content_base64") {
        None => {
            return Err(DispatchError::MissingWriteContent);
        },
        Some(encoded) => encoded,
    };
    let size: usize = text::text_bytes(encoded);
    if size > MAX_ENCODED_WRITE_BYTES {
        return Err(DispatchError::WriteTooLarge(size));
    }
    check_content(codec::from_standard_base64(encoded))
}

/// Decoded content, where it is small enough to be written.
pub fn check_content(decoded: Option<Vec<u8>>) -> (r: Result<Vec<u8>, DispatchError>)
    ensures
        r is Err == content_fault(optional_bytes(decoded)) is Some,
        r is Err ==> r->Err_0 == content_fault(optional_bytes(decoded))->0,
        r is Ok ==> r->Ok_0@ == decoded->0@,
{
    match decoded {
        None => Err(DispatchError::InvalidWriteContent),
        Some(content) => {
            if content.len() > DEFAULT_MAX_REMOTE_WRITE_BYTES {
                Err(DispatchError::WriteTooLarge(content.len()))
            } else {
                Ok(content)
            }
        },
    }
}

/// Why an approved request comes down to nothing, if it does.
pub open spec fn approved_plan_fault(request: ActionRequest, limit: usize) -> Option<DispatchError> {
    let action = request.envelope.action@;
    let parameters = request.envelope.parameters@;
    if action == "filesystem.write"@ {
        write_fault(parameters)
    } else if action == "terminal.exec"@ {
        if terminal_given(parameters, limit) && workspace_given(parameters) {
            None
        } else {
            Some(DispatchError::InvalidTerminalParameters)
        }
    } else if action == "process.terminate"@ || action == "browser.session.use"@ {
        None
    } else {
        Some(DispatchError::RemoteActionNotAllowed)
    }
}

/// The plan is what the approved request asks for.
pub open spec fn approved_plan_follows(
    plan: ApprovedPlan,
    request: ActionRequest,
    limit: usize,
    defaults: TerminalDefaults,
) -> bool {
    let action = request.envelope.action@;
    if action == "filesystem.write"@ {
        plan matches ApprovedPlan::Write { content } && content@ == written_content(
            request.envelope.parameters@,
        )
    } else if action == "terminal.exec"@ {
        plan matches ApprovedPlan::Terminal { command, owner } && terminal_follows(
            command,
            request,
            limit,
            defaults,
        ) && is_owner(owner, request)
    } else if action == "process.terminate"@ {
        plan is TerminateProcess
    } else {
        plan is UseBrowser
    }
}

/// What an approved request asks a worker to do.
pub fn execute_approved(request: &ActionRequest, limit: usize, defaults: TerminalDefaults) -> (r:
    Result<ApprovedPlan, DispatchError>)
    ensures
        r is Err == approved_plan_fault(*request, limit) is Some,
        r is Err ==> r->Err_0 == approved_plan_fault(*request, limit)->0,
        r is Ok ==> approved_plan_follows(r->Ok_0, *request, limit, defaults),
{
    let action = request.envelope.action.as_str();
    if text::same_text(action, "filesystem.write") {
        match remote_write_content(request) {
            Err(error) => Err(error),
            Ok(content) => Ok(ApprovedPlan::Write { content }),
        }
    } else if text::same_text(action, "terminal.exec") {
        let command = match remote_terminal_spec(request, limit, defaults) {
            Err(error) => {
                return Err(error);
            },
            Ok(command) => command,
        };
        match terminal_session_owner(request) {
            Err(error) => Err(error),
            Ok(owner) => Ok(ApprovedPlan::Terminal { command, owner }),
        }
    } else if text::same_text(action, "process.terminate") {
        Ok(ApprovedPlan::TerminateProcess)
    } else if text::same_text(action, "browser.session.use") {
        Ok(ApprovedPlan::UseBrowser)
    } else {
        Err(DispatchError::RemoteActionNotAllowed)
    }
}

// ---------------------------------------------------------------------------
// Results

#[derive(Debug, Clone, Copy, PartialEq, Eq, Structural)]
pub struct Timestamp {
    pub seconds: i64,
    pub nanos: i32,
}

/// What became of a request.
#[derive(Debug, PartialEq, Eq)]
pub struct ActionResult {
    pub request_id: String,
    pub exit_code: i32,
    pub status: String,
    pub stdout_digest: Vec<u8>,
    pub stderr_digest: Vec<u8>,
    pub completed_at: Option<Timestamp>,
    pub output: Vec<u8>,
    pub content_type: String,
    pub truncated: bool,
}

/// The moment that lies so many milliseconds after the epoch.
pub open spec fn is_moment(moment: Timestamp, unix_ms: u64) -> bool {
    &&& moment.seconds * 1000 + moment.nanos / 1_000_000 == unix_ms
    &&& 0 <= moment.nanos < 1_000_000_000
    &&& moment.nanos % 1_000_000 == 0
}

/// The result says what it is asked to say.
pub open spec fn is_result(
    result: ActionResult,
    request_id: Seq<char>,
    exit_code: int,
    status: Seq<char>,
    output: Seq<u8>,
    content_type: Seq<char>,
    unix_ms: u64,
) -> bool {
    &&& result.request_id@ == request_id
    &&& result.exit_code == exit_code
    &&& result.status@ == status
    &&& result.stdout_digest@ == crypto::sha256_of(output)
    &&& result.stderr_digest@.len() == 0
    &&& result.completed_at matches Some(moment) && is_moment(moment, unix_ms)
    &&& result.output@ == output
    &&& result.content_type@ == content_type
    &&& !result.truncated
}

pub fn ms_to_timestamp(value: u64) -> (moment: Timestamp)
    ensures
        is_moment(moment, value),
{
    let moment = Timestamp {
        seconds: (value / 1000) as i64,
        nanos: ((value % 1000) * 1_000_000) as i32,
    };
    proof {
        assert((value % 1000) * 1_000_000 / 1_000_000 == value % 1000);
    }
    moment
}

fn result_of(
    request_id: &str,
    exit_code: i32,
    status: &str,
    output: Vec<u8>,
    content_type: &str,
    completed_unix_ms: u64,
) -> (result: ActionResult)
    ensures
        is_result(
            result,
            request_id@,
            exit_code as int,
            status@,
            output@,
            content_type@,
            completed_unix_ms,
        ),
{
    let digest = crypto::sha256(output.as_slice());
    let mut stdout_digest: Vec<u8> = Vec::new();
    codec::push_byte_slice(&mut stdout_digest, digest.as_slice());
    proof {
        assert(stdout_digest@ =~= crypto::sha256_of(output@));
    }
    ActionResult {
        request_id: text::copied(request_id),
        exit_code,
        status: text::copied(status),
        stdout_digest,
        stderr_digest: Vec::new(),
        completed_at: Some(ms_to_timestamp(completed_unix_ms)),
        output,
        content_type: text::copied(content_type),
        truncated: false,
    }
}

/// The result of a request that was served.
pub fn success_result(
    authorization: &Authorization,
    output: Vec<u8>,
    content_type: &str,
    completed_unix_ms: u64,
) -> (result: ActionResult)
    ensures
        is_result(
            result,
            authorization.request.envelope.request_id@,
            0,
            "ok"@,
            output@,
            content_type@,
            completed_unix_ms,
        ),
{
    result_of(
        authorization.request.envelope.request_id.as_str(),
        0,
        "ok",
        output,
        content_type,
        completed_unix_ms,
    )
}

/// The result that asks for an approval.
pub fn challenge_result(authorization: &Authorization, output: Vec<u8>, completed_unix_ms: u64) -> (result:
    ActionResult)
    ensures
        is_result(
            result,
            authorization.request.envelope.request_id@,
            0,
            "approval_required"@,
            output@,
            "application/json"@,
            completed_unix_ms,
        ),
{
    result_of(
        authorization.request.envelope.request_id.as_str(),
        0,
        "approval_required",
        output,
        "application/json",
        completed_unix_ms,
    )
}

/// The result of a request that was not served.
pub fn failure_result(request_id: &str, status: &str, completed_unix_ms: u64) -> (result:
    ActionResult)
    ensures
        is_result(
            result,
            request_id@,
            -1,
            status@,
            Seq::empty(),
            "application/vnd.vor.error"@,
            completed_unix_ms,
        ),
{
    let output: Vec<u8> = Vec::new();
    result_of(
        request_id,
        -1,
        status,
        output,
        "application/vnd.vor.error",
        completed_unix_ms,
    )
}

/// The result of a request that was not served, with a report on why.
pub fn failure_json_result(
    request_id: &str,
    status: &str,
    output: Vec<u8>,
    completed_unix_ms: u64,
) -> (result: ActionResult)
    ensures
        is_result(
            result,
            request_id@,
            -1,
            status@,
            output@,
            "application/json"@,
            completed_unix_ms,
        ),
{
    result_of(request_id, -1, status, output, "application/json", completed_unix_ms)
}

// ---------------------------------------------------------------------------
// Status codes

/// The code that a failure is answered with.
pub open spec fn status_code(error: DispatchError) -> Seq<char> {
    match error {
        DispatchError::WrongDevice => "wrong_device"@,
        DispatchError::RemoteActionNotAllowed => "remote_scope_denied"@,
        DispatchError::Denied => "policy_denied"@,
        DispatchError::ApprovalRequired => "approval_required"@,
        DispatchError::RemoteApprovalPolicyRequired => "approval_policy_required"@,
        DispatchError::InvalidApprovedAction => "invalid_request"@,
        DispatchError::MissingWriteContent => "invalid_request"@,
        DispatchError::InvalidWriteContent => "invalid_request"@,
        DispatchError::InvalidTerminalParameters => "invalid_request"@,
        DispatchError::InvalidFilesystemParameters => "invalid_request"@,
        DispatchError::WriteTooLarge(_) => "write_limit_exceeded"@,
        DispatchError::OutputTooLarge(_) => "output_limit_exceeded"@,
        DispatchError::Wire => "invalid_request"@,
        DispatchError::Approval(_) => "approval_invalid"@,
        DispatchError::Core(CoreError::ApprovalAlreadyConsumed) => "approval_replayed"@,
        DispatchError::Core(CoreError::ApprovalNotPrepared) => "approval_not_prepared"@,
        DispatchError::Core(CoreError::Approval(_)) => "approval_invalid"@,
        DispatchError::Core(_) => "audit_or_broker_unavailable"@,
        DispatchError::Audit(_) => "audit_or_broker_unavailable"@,
        DispatchError::PostEffectUncertain(_) => "post_effect_uncertain"@,
        DispatchError::Fs(FsError::TargetPreconditionFailed) => "target_precondition_failed"@,
        DispatchError::Fs(_) => "filesystem_error"@,
        DispatchError::Git(_) => "git_error"@,
        DispatchError::Process => "process_error"@,
        DispatchError::Terminal(TerminalError::Cancelled) => "terminal_cancelled"@,
        DispatchError::Terminal(TerminalError::Timeout) => "terminal_timeout"@,
        DispatchError::Terminal(TerminalError::OutputLimitExceeded) =>
            "terminal_output_limit_exceeded"@,
        DispatchError::Terminal(TerminalError::Other) => "terminal_error"@,
        DispatchError::Browser(BrowserError::ApprovalMismatch) => "browser_session_not_found"@,
        DispatchError::Browser(BrowserError::NavigationOutOfScope) =>
            "browser_navigation_out_of_scope"@,
        DispatchError::Browser(BrowserError::StaleElement) => "browser_stale_element"@,
        DispatchError::Browser(BrowserError::SessionNotFound) => "browser_session_not_found"@,
        DispatchError::Browser(BrowserError::BrowserDisabled) => "browser_disabled"@,
        DispatchError::Browser(_) => "browser_error"@,
        DispatchError::Policy(_) => "policy_error"@,
        DispatchError::Json => "serialization_error"@,
        DispatchError::InvalidConfig => "internal_error"@,
        DispatchError::Clock => "internal_error"@,
    }
}

pub fn dispatch_status_code(error: &DispatchError) -> (code: &'static str)
    ensures
        code@ == status_code(*error),
{
    match error {
        DispatchError::WrongDevice => "wrong_device",
        DispatchError::RemoteActionNotAllowed => "remote_scope_denied",
        DispatchError::Denied => "policy_denied",
        DispatchError::ApprovalRequired => "approval_required",
        DispatchError::RemoteApprovalPolicyRequired => "approval_policy_required",
        DispatchError::InvalidApprovedAction
        | DispatchError::MissingWriteContent
        | DispatchError::InvalidWriteContent
        | DispatchError::InvalidTerminalParameters
        | DispatchError::InvalidFilesystemParameters => "invalid_request",
        DispatchError::WriteTooLarge(_) => "write_limit_exceeded",
        DispatchError::OutputTooLarge(_) => "output_limit_exceeded",
        DispatchError::Wire => "invalid_request",
        DispatchError::Approval(_) => "approval_invalid",
        DispatchError::Core(CoreError::ApprovalAlreadyConsumed) => "approval_replayed",
        DispatchError::Core(CoreError::ApprovalNotPrepared) => "approval_not_prepared",
        DispatchError::Core(CoreError::Approval(_)) => "approval_invalid",
        DispatchError::Audit(_) | DispatchError::Core(_) => "audit_or_broker_unavailable",
        DispatchError::PostEffectUncertain(_) => "post_effect_uncertain",
        DispatchError::Fs(FsError::TargetPreconditionFailed) => "target_precondition_failed",
        DispatchError::Fs(_) => "filesystem_error",
        DispatchError::Git(_) => "git_error",
        DispatchError::Process => "process_error",
        DispatchError::Terminal(TerminalError::Cancelled) => "terminal_cancelled",
        DispatchError::Terminal(TerminalError::Timeout) => "terminal_timeout",
        DispatchError::Terminal(TerminalError::OutputLimitExceeded) =>
            "terminal_output_limit_exceeded",
        DispatchError::Terminal(TerminalError::Other) => "terminal_error",
        DispatchError::Browser(BrowserError::ApprovalMismatch) => "browser_session_not_found",
        DispatchError::Browser(BrowserError::NavigationOutOfScope) =>
            "browser_navigation_out_of_scope",
        DispatchError::Browser(BrowserError::StaleElement) => "browser_stale_element",
        DispatchError::Browser(BrowserError::SessionNotFound) => "browser_session_not_found",
        DispatchError::Browser(BrowserError::BrowserDisabled) => "browser_disabled",
        DispatchError::Browser(_) => "browser_error",
        DispatchError::Policy(_) => "policy_error",
        DispatchError::Json => "serialization_error",
        DispatchError::InvalidConfig | DispatchError::Clock => "internal_error",
    }
}

/// How far a terminal session has come.
#[derive(Debug, Clone, Copy, PartialEq, Eq, Structural)]
pub enum TerminalSessionState {
    Running,
    Completed,
    Cancelled,
    TimedOut,
    Failed,
}

pub open spec fn session_state_name(state: TerminalSessionState) -> Seq<char> {
    match state {
        TerminalSessionState::Running => "running"@,
        TerminalSessionState::Completed => "completed"@,
        TerminalSessionState::Cancelled => "cancelled"@,
        TerminalSessionState::TimedOut => "timed_out"@,
        TerminalSessionState::Failed => "failed"@,
    }
}

pub fn terminal_session_state_name(state: TerminalSessionState) -> (name: &'static str)
    ensures
        name@ == session_state_name(state),
{
    match state {
        TerminalSessionState::Running => "running",
        TerminalSessionState::Completed => "completed",
        TerminalSessionState::Cancelled => "cancelled",
        TerminalSessionState::TimedOut => "timed_out",
        TerminalSessionState::Failed => "failed",
    }
}

// ---------------------------------------------------------------------------
// Laws

/// No action is asked for both with an approval and without one.
pub proof fn no_action_is_asked_both_ways(action: Seq<char>)
    ensures
        !(is_remote_action(action) && is_remote_approved_action(action)),
{
    reveal_strlit("filesystem.read");
    reveal_strlit("filesystem.list");
    reveal_strlit("filesystem.search_files");
    reveal_strlit("filesystem.search_content");
    reveal_strlit("filesystem.info");
    reveal_strlit("git.status");
    reveal_strlit("git.diff");
    reveal_strlit("process.list");
    reveal_strlit("process.inspect");
    reveal_strlit("terminal.poll");
    reveal_strlit("terminal.cancel");
    reveal_strlit("filesystem.write");
    reveal_strlit("terminal.exec");
    reveal_strlit("process.terminate");
    reveal_strlit("browser.session.use");
    assert("filesystem.read"@.len() == 15);
    assert("filesystem.list"@.len() == 15);
    assert("filesystem.search_files"@.len() == 23);
    assert("filesystem.search_content"@.len() == 25);
    assert("filesystem.info"@.len() == 15);
    assert("git.status"@.len() == 10);
    assert("git.diff"@.len() == 8);
    assert("process.list"@.len() == 12);
    assert("process.inspect"@.len() == 15);
    assert("terminal.poll"@.len() == 13);
    assert("terminal.cancel"@.len() == 15);
    assert("filesystem.write"@.len() == 16);
    assert("terminal.exec"@.len() == 13);
    assert("process.terminate"@.len() == 17);
    assert("browser.session.use"@.len() == 19);
    assert("terminal.exec"@[9] != "terminal.poll"@[9]);
}

/// A session of another owner and a missing one are answered alike.
pub proof fn foreign_sessions_are_answered_as_missing()
    ensures
        status_code(DispatchError::Browser(BrowserError::ApprovalMismatch)) == status_code(
            DispatchError::Browser(BrowserError::SessionNotFound),
        ),
{
}

/// The longest output of a terminal, encoded in base64, fits into a result and
/// leaves room for what else stands there.
pub proof fn terminal_output_fits_a_result(limit: usize)
    ensures
        json_safe_output(limit) > 0 ==> (json_safe_output(limit) + 2) / 3 * 4 + (
        TERMINAL_RESULT_OVERHEAD_BYTES - 2) <= limit,
{
}

/// A write that is served writes no more than it may.
pub proof fn remote_writes_are_bounded(parameters: Seq<Parameter>)
    requires
        write_fault(parameters) is None,
    ensures
        written_content(parameters).len() <= DEFAULT_MAX_REMOTE_WRITE_BYTES,
{
}

/// Every request that is served without approval is for an action that may be
/// asked for from afar.
pub proof fn only_remote_actions_are_served(request: ActionRequest)
    requires
        read_plan_fault(request) is None,
    ensures
        is_remote_action(request.envelope.action@),
{
}

/// Every approved request that is served is for an action that may be asked
/// for with an approval.
pub proof fn only_approved_actions_are_served(request: ActionRequest, limit: usize)
    requires
        approved_plan_fault(request, limit) is None,
    ensures
        is_remote_approved_action(request.envelope.action@),
{
}

/// These actions may be asked for from afar without an approval, these with one, and no
/// other.
pub proof fn actions_from_afar_are_listed(action: Seq<char>)
    ensures
        is_remote_action(action) == seq![
            "filesystem.read"@,
            "filesystem.list"@,
            "filesystem.search_files"@,
            "filesystem.search_content"@,
            "filesystem.info"@,
            "git.status"@,
            "git.diff"@,
            "process.list"@,
            "process.inspect"@,
            "terminal.poll"@,
            "terminal.cancel"@,
        ].contains(action),
        is_remote_approved_action(action) == seq![
            "filesystem.write"@,
            "terminal.exec"@,
            "process.terminate"@,
            "browser.session.use"@,
        ].contains(action),
{
    let plain = seq![
        "filesystem.read"@,
        "filesystem.list"@,
        "filesystem.search_files"@,
        "filesystem.search_content"@,
        "filesystem.info"@,
        "git.status"@,
        "git.diff"@,
        "process.list"@,
        "process.inspect"@,
        "terminal.poll"@,
        "terminal.cancel"@,
    ];
    let approved = seq![
        "filesystem.write"@,
        "terminal.exec"@,
        "process.terminate"@,
        "browser.session.use"@,
    ];
    assert(plain[0] == "filesystem.read"@);
    assert(plain[1] == "filesystem.list"@);
    assert(plain[2] == "filesystem.search_files"@);
    assert(plain[3] == "filesystem.search_content"@);
    assert(plain[4] == "filesystem.info"@);
    assert(plain[5] == "git.status"@);
    assert(plain[6] == "git.diff"@);
    assert(plain[7] == "process.list"@);
    assert(plain[8] == "process.inspect"@);
    assert(plain[9] == "terminal.poll"@);
    assert(plain[10] == "terminal.cancel"@);
    assert(approved[0] == "filesystem.write"@);
    assert(approved[1] == "terminal.exec"@);
    assert(approved[2] == "process.terminate"@);
    assert(approved[3] == "browser.session.use"@);
}

/// A number that a request gives under a name, within a limit.
pub open spec fn gives(parameters: Seq<Parameter>, name: Seq<char>, n: int, max: int) -> bool {
    protocol::parameter(parameters, name) matches Some(ParameterValue::Unsigned(given)) && given
        == n && n <= max
}

/// A file is read by bytes if an offset and a length are given, by lines if a first line
/// and a number of lines are, and whole if none of the four is; every other choice of them
/// is refused, and so is what is not a whole number in reach.
pub proof fn reads_are_asked_for_in_one_way(request: ActionRequest, plan: ReadPlan, n: u64, m: u64)
    requires
        request.envelope.action@ == "filesystem.read"@,
        read_plan_follows(plan, request),
    ensures
        ({
            let p = request.envelope.parameters@;
            let none = |name: Seq<char>| protocol::parameter(p, name) is None;
            &&& gives(p, "offset"@, n as int, u64::MAX as int) && gives(
                p,
                "length"@,
                m as int,
                usize::MAX as int,
            ) && none("line_start"@) && none("line_count"@) ==> read_plan_fault(request) is None
                && plan == (ReadPlan::ReadRange { offset: n, length: m as usize })
            &&& gives(p, "line_start"@, n as int, usize::MAX as int) && gives(
                p,
                "line_count"@,
                m as int,
                usize::MAX as int,
            ) && none("offset"@) && none("length"@) ==> read_plan_fault(request) is None && plan
                == (ReadPlan::ReadLines { line_start: n as usize, line_count: m as usize })
            &&& none("offset"@) && none("length"@) && none("line_start"@) && none("line_count"@)
                ==> read_plan_fault(request) is None && plan is ReadWhole
            &&& none("offset"@) != none("length"@) || none("line_start"@) != none("line_count"@)
                || (!none("offset"@) && !none("line_start"@)) ==> read_plan_fault(request) == Some(
                DispatchError::InvalidFilesystemParameters,
            )
            &&& (protocol::parameter(p, "offset"@) matches Some(value) && !(value is Unsigned))
                ==> read_plan_fault(request) == Some(DispatchError::InvalidFilesystemParameters)
        }),
{
}

/// Each action that needs no approval comes down to what it is called, with the parameters
/// that carry the names of what they are for.
pub proof fn plans_do_what_the_action_says(request: ActionRequest, plan: ReadPlan)
    requires
        read_plan_fault(request) is None,
        read_plan_follows(plan, request),
    ensures
        ({
            let action = request.envelope.action@;
            let p = request.envelope.parameters@;
            let max = usize::MAX as int;
            &&& action == "filesystem.read"@ ==> plan is ReadWhole || plan is ReadRange
                || plan is ReadLines
            &&& action == "filesystem.list"@ ==> (plan matches ReadPlan::List { depth, max_entries }
                && gives(p, "depth"@, depth as int, max) && gives(
                p,
                "max_entries"@,
                max_entries as int,
                max,
            ))
            &&& action == "filesystem.search_files"@ ==> (plan matches ReadPlan::SearchFiles {
                pattern,
                max_results,
            } && protocol::text_parameter(p, "pattern"@) == Some(pattern@) && gives(
                p,
                "max_results"@,
                max_results as int,
                max,
            ))
            &&& action == "filesystem.search_content"@ ==> (plan matches ReadPlan::SearchContent {
                query,
                regex,
                file_glob,
                max_matches,
                max_file_bytes,
            } && protocol::text_parameter(p, "query"@) == Some(query@) && protocol::parameter(
                p,
                "regex"@,
            ) == Some(ParameterValue::Bool(regex)) && protocol::text_parameter(p, "file_glob"@)
                == Some(file_glob@) && gives(p, "max_matches"@, max_matches as int, max) && gives(
                p,
                "max_file_bytes"@,
                max_file_bytes as int,
                max,
            ))
            &&& action == "filesystem.info"@ ==> plan is Info
            &&& action == "git.status"@ ==> plan is GitStatus
            &&& action == "git.diff"@ ==> plan is GitDiff
            &&& action == "process.list"@ ==> plan is ProcessList
            &&& action == "process.inspect"@ ==> plan is ProcessInspect
            &&& action == "terminal.poll"@ ==> (plan matches ReadPlan::TerminalPoll {
                owner,
                session_id,
            } && session_id@ == request.envelope.target@ && owner.organization_id@
                == request.envelope.organization_id@ && owner.actor_id@ == request.envelope.actor_id@
                && owner.device_id@ == request.envelope.device_id@)
            &&& action == "terminal.cancel"@ ==> (plan matches ReadPlan::TerminalCancel {
                owner,
                session_id,
            } && session_id@ == request.envelope.target@ && owner.organization_id@
                == request.envelope.organization_id@ && owner.actor_id@ == request.envelope.actor_id@
                && owner.device_id@ == request.envelope.device_id@)
        }),
{
    reveal_strlit("filesystem.read");
    reveal_strlit("filesystem.list");
    reveal_strlit("filesystem.search_files");
    reveal_strlit("filesystem.search_content");
    reveal_strlit("filesystem.info");
    reveal_strlit("git.status");
    reveal_strlit("git.diff");
    reveal_strlit("process.list");
    reveal_strlit("process.inspect");
    reveal_strlit("terminal.poll");
    reveal_strlit("terminal.cancel");
    assert("filesystem.read"@.len() == 15);
    assert("filesystem.list"@.len() == 15);
    assert("filesystem.search_files"@.len() == 23);
    assert("filesystem.search_content"@.len() == 25);
    assert("filesystem.info"@.len() == 15);
    assert("git.status"@.len() == 10);
    assert("git.diff"@.len() == 8);
    assert("process.list"@.len() == 12);
    assert("process.inspect"@.len() == 15);
    assert("terminal.poll"@.len() == 13);
    assert("terminal.cancel"@.len() == 15);
    assert("filesystem.read"@[11] == 'r' && "filesystem.list"@[11] == 'l');
    assert("filesystem.read"@[11] == 'r' && "filesystem.info"@[11] == 'i');
    assert("filesystem.read"@[0] == 'f' && "process.inspect"@[0] == 'p');
    assert("filesystem.read"@[0] == 'f' && "terminal.cancel"@[0] == 't');
    assert("filesystem.list"@[11] == 'l' && "filesystem.info"@[11] == 'i');
    assert("filesystem.list"@[0] == 'f' && "process.inspect"@[0] == 'p');
    assert("filesystem.list"@[0] == 'f' && "terminal.cancel"@[0] == 't');
    assert("filesystem.info"@[0] == 'f' && "process.inspect"@[0] == 'p');
    assert("filesystem.info"@[0] == 'f' && "terminal.cancel"@[0] == 't');
    assert("process.inspect"@[0] == 'p' && "terminal.cancel"@[0] == 't');
}

/// What a request without an approval lacks is told: a file action whose parameters are
/// missing or of another kind is refused, and so is an action that needs an approval or is
/// not known; those without parameters are never refused.
pub proof fn requests_are_planned_exactly_when_complete(request: ActionRequest)
    ensures
        ({
            let action = request.envelope.action@;
            let p = request.envelope.parameters@;
            let size = |name: Seq<char>|
                (protocol::parameter(p, name) matches Some(ParameterValue::Unsigned(n)) && n
                    <= usize::MAX);
            let word = |name: Seq<char>|
                (protocol::parameter(p, name) matches Some(value) && value is Text);
            let flag = |name: Seq<char>|
                (protocol::parameter(p, name) matches Some(value) && value is Bool);
            let fault = read_plan_fault(request);
            &&& action == "filesystem.list"@ ==> fault is None == (size("depth"@) && size(
                "max_entries"@,
            ))
            &&& action == "filesystem.search_files"@ ==> fault is None == (word("pattern"@) && size(
                "max_results"@,
            ))
            &&& action == "filesystem.search_content"@ ==> fault is None == (word("query"@) && flag(
                "regex"@,
            ) && word("file_glob"@) && size("max_matches"@) && size("max_file_bytes"@))
            &&& action == "filesystem.info"@ || action == "git.status"@ || action == "git.diff"@
                || action == "process.list"@ || action == "process.inspect"@ ==> fault is None
            &&& action == "terminal.poll"@ || action == "terminal.cancel"@ ==> fault is None == (
            protocol::parameter(p, "workspace_id"@) is None || word("workspace_id"@))
            &&& !is_remote_action(action) ==> fault == Some(DispatchError::RemoteActionNotAllowed)
        }),
{
    reveal_strlit("filesystem.read");
    reveal_strlit("filesystem.list");
    reveal_strlit("filesystem.search_files");
    reveal_strlit("filesystem.search_content");
    reveal_strlit("filesystem.info");
    reveal_strlit("git.status");
    reveal_strlit("git.diff");
    reveal_strlit("process.list");
    reveal_strlit("process.inspect");
    reveal_strlit("terminal.poll");
    reveal_strlit("terminal.cancel");
    assert("filesystem.read"@.len() == 15);
    assert("filesystem.list"@.len() == 15);
    assert("filesystem.search_files"@.len() == 23);
    assert("filesystem.search_content"@.len() == 25);
    assert("filesystem.info"@.len() == 15);
    assert("git.status"@.len() == 10);
    assert("git.diff"@.len() == 8);
    assert("process.list"@.len() == 12);
    assert("process.inspect"@.len() == 15);
    assert("terminal.poll"@.len() == 13);
    assert("terminal.cancel"@.len() == 15);
    assert("filesystem.read"@[11] == 'r' && "filesystem.list"@[11] == 'l');
    assert("filesystem.read"@[11] == 'r' && "filesystem.info"@[11] == 'i');
    assert("filesystem.read"@[0] == 'f' && "process.inspect"@[0] == 'p');
    assert("filesystem.read"@[0] == 'f' && "terminal.cancel"@[0] == 't');
    assert("filesystem.list"@[11] == 'l' && "filesystem.info"@[11] == 'i');
    assert("filesystem.list"@[0] == 'f' && "process.inspect"@[0] == 'p');
    assert("filesystem.list"@[0] == 'f' && "terminal.cancel"@[0] == 't');
    assert("filesystem.info"@[0] == 'f' && "process.inspect"@[0] == 'p');
    assert("filesystem.info"@[0] == 'f' && "terminal.cancel"@[0] == 't');
    assert("process.inspect"@[0] == 'p' && "terminal.cancel"@[0] == 't');
}

/// An approved request to write writes the decoded content, to run a command runs just that
/// command, and the other two end a process and use the browser. Refused are content that
/// is missing, is no base64, or is longer than 1048576 bytes, encoded longer than 1398109,
/// and a command whose parameters say anything but how to run it.
pub proof fn approved_plans_do_what_was_approved(
    request: ActionRequest,
    plan: ApprovedPlan,
    limit: usize,
    defaults: TerminalDefaults,
)
    requires
        approved_plan_follows(plan, request, limit, defaults),
    ensures
        ({
            let action = request.envelope.action@;
            let p = request.envelope.parameters@;
            let fault = approved_plan_fault(request, limit);
            &&& action == "filesystem.write"@ ==> fault is None == {
                let encoded = protocol::text_parameter(p, "content_base64"@);
                let content = codec::standard_base64_bytes(encoded->0);
                encoded is Some && encode_utf8(encoded->0).len() <= 1_398_109 && content is Some
                    && content->0.len() <= 1_048_576
            }
            &&& action == "filesystem.write"@ && fault is None ==> (plan matches ApprovedPlan::Write {
                content,
            } && codec::standard_base64_bytes(protocol::text_parameter(p, "content_base64"@)->0)
                == Some(content@))
            &&& action == "filesystem.write"@ && protocol::text_parameter(p, "content_base64"@)
                is None ==> fault == Some(DispatchError::MissingWriteContent)
            &&& action == "terminal.exec"@ ==> (plan matches ApprovedPlan::Terminal {
                command,
                owner,
            } && command.cwd@ == request.envelope.target@ && owner.actor_id@
                == request.envelope.actor_id@ && owner.organization_id@
                == request.envelope.organization_id@ && owner.device_id@
                == request.envelope.device_id@)
            &&& action == "process.terminate"@ ==> fault is None && plan is TerminateProcess
            &&& action == "browser.session.use"@ ==> fault is None && plan is UseBrowser
            &&& !is_remote_approved_action(action) ==> fault == Some(
                DispatchError::RemoteActionNotAllowed,
            )
        }),
{
    reveal_strlit("filesystem.write");
    reveal_strlit("terminal.exec");
    reveal_strlit("process.terminate");
    reveal_strlit("browser.session.use");
    assert("filesystem.write"@.len() == 16);
    assert("terminal.exec"@.len() == 13);
    assert("process.terminate"@.len() == 17);
    assert("browser.session.use"@.len() == 19);
}

/// A command is run with the arguments, the time, the output and the screen that the
/// request gives; where it gives none, with the time and the output that are usual, and a
/// screen of 120 columns and 40 rows. The output is never more than fits a result.
pub proof fn commands_run_as_they_are_asked_to(
    command: TerminalSpec,
    request: ActionRequest,
    limit: usize,
    defaults: TerminalDefaults,
    argv: Vec<ParameterValue>,
    i: int,
)
    requires
        terminal_given(request.envelope.parameters@, limit),
        terminal_follows(command, request, limit, defaults),
        protocol::parameter(request.envelope.parameters@, "argv"@) == Some(
            ParameterValue::List(argv),
        ),
        0 <= i < argv@.len(),
    ensures
        ({
            let p = request.envelope.parameters@;
            let given = |name: Seq<char>| protocol::parameter(p, name)->0->Unsigned_0;
            let none = |name: Seq<char>| protocol::parameter(p, name) is None;
            &&& command.argv@.len() == argv@.len()
            &&& argv@[i] matches ParameterValue::Text(word) && command.argv@[i]@ == word@
            &&& none("timeout_ms"@) ==> command.timeout_ms == defaults.timeout_ms
            &&& !none("timeout_ms"@) ==> command.timeout_ms == given("timeout_ms"@)
            &&& none("columns"@) ==> command.columns == 120
            &&& !none("columns"@) ==> command.columns == given("columns"@)
            &&& none("rows"@) ==> command.rows == 40
            &&& !none("rows"@) ==> command.rows == given("rows"@)
            &&& command.max_output_bytes <= json_safe_output(limit)
            &&& none("max_output_bytes"@) && defaults.max_output_bytes <= json_safe_output(limit)
                ==> command.max_output_bytes == defaults.max_output_bytes
            &&& !none("max_output_bytes"@) && given("max_output_bytes"@) <= json_safe_output(limit)
                ==> command.max_output_bytes == given("max_output_bytes"@)
        }),
        forall|k: int|
            #![trigger request.envelope.parameters@[k]]
            0 <= k < request.envelope.parameters@.len() ==> {
                let name = request.envelope.parameters@[k].name@;
                name == "argv"@ || name == "timeout_ms"@ || name == "max_output_bytes"@ || name
                    == "columns"@ || name == "rows"@ || name == "workspace_id"@
            },
{
    let words = protocol::value_texts(argv@);
    assert(text::texts(command.argv@).len() == command.argv@.len());
    assert(words.len() == argv@.len());
    assert(text::texts(command.argv@)[i] == words[i]);
}

/// Of a result's room 16384 bytes are kept back, and of the rest three quarters are for the
/// output of a command, which takes a third more once it is encoded.
pub proof fn a_quarter_is_kept_for_encoding(limit: usize)
    ensures
        limit <= 16_384 ==> json_safe_output(limit) == 0,
        16_384 < limit && 3 * (limit - 16_384) <= usize::MAX ==> json_safe_output(limit) == 3 * (
        limit - 16_384) / 4,
{
}

/// The moment of a result is told in whole seconds and the nanoseconds beyond them.
pub proof fn moments_are_told_in_seconds(moment: Timestamp, unix_ms: u64)
    requires
        is_moment(moment, unix_ms),
    ensures
        moment.seconds == unix_ms / 1000,
        moment.nanos == (unix_ms % 1000) * 1_000_000,
{
}

/// A result carries the request, the status, the output, its digest and the moment, and is
/// not cut.
pub proof fn results_carry_their_output(
    result: ActionResult,
    request_id: Seq<char>,
    exit_code: int,
    status: Seq<char>,
    output: Seq<u8>,
    content_type: Seq<char>,
    unix_ms: u64,
)
    requires
        is_result(result, request_id, exit_code, status, output, content_type, unix_ms),
    ensures
        result.request_id@ == request_id,
        result.exit_code == exit_code,
        result.status@ == status,
        result.output@ == output,
        result.stdout_digest@ == crypto::sha256_of(result.output@),
        result.stderr_digest@.len() == 0,
        result.content_type@ == content_type,
        !result.truncated,
        result.completed_at matches Some(moment) && moment.seconds == unix_ms / 1000,
{
}

/// Each failure is answered with the code of its kind.
pub proof fn failures_are_answered_with_their_code(error: DispatchError)
    ensures
        error is WrongDevice ==> status_code(error) == "wrong_device"@,
        error is RemoteActionNotAllowed ==> status_code(error) == "remote_scope_denied"@,
        error is Denied ==> status_code(error) == "policy_denied"@,
        error is ApprovalRequired ==> status_code(error) == "approval_required"@,
        error is RemoteApprovalPolicyRequired ==> status_code(error) == "approval_policy_required"@,
        error is InvalidApprovedAction || error is MissingWriteContent || error is InvalidWriteContent || error is InvalidTerminalParameters || error is InvalidFilesystemParameters || error is Wire ==> status_code(error) == "invalid_request"@,
        error is WriteTooLarge ==> status_code(error) == "write_limit_exceeded"@,
        error is OutputTooLarge ==> status_code(error) == "output_limit_exceeded"@,
        error is Approval ==> status_code(error) == "approval_invalid"@,
        error == DispatchError::Core(CoreError::ApprovalAlreadyConsumed) ==> status_code(error) == "approval_replayed"@,
        error == DispatchError::Core(CoreError::ApprovalNotPrepared) ==> status_code(error) == "approval_not_prepared"@,
        error is Core && error->Core_0 is Approval ==> status_code(error) == "approval_invalid"@,
        error is Core && (error->Core_0 is Audit || error->Core_0 is Protocol) ==> status_code(error) == "audit_or_broker_unavailable"@,
        error is Audit ==> status_code(error) == "audit_or_broker_unavailable"@,
        error is PostEffectUncertain ==> status_code(error) == "post_effect_uncertain"@,
        error is Fs && error->Fs_0 is TargetPreconditionFailed ==> status_code(error) == "target_precondition_failed"@,
        error is Fs && !(error->Fs_0 is TargetPreconditionFailed) ==> status_code(error) == "filesystem_error"@,
        error is Git ==> status_code(error) == "git_error"@,
        error is Process ==> status_code(error) == "process_error"@,
        error == DispatchError::Terminal(TerminalError::Cancelled) ==> status_code(error) == "terminal_cancelled"@,
        error == DispatchError::Terminal(TerminalError::Timeout) ==> status_code(error) == "terminal_timeout"@,
        error == DispatchError::Terminal(TerminalError::OutputLimitExceeded) ==> status_code(error) == "terminal_output_limit_exceeded"@,
        error == DispatchError::Terminal(TerminalError::Other) ==> status_code(error) == "terminal_error"@,
        error is Browser && (error->Browser_0 is ApprovalMismatch || error->Browser_0 is SessionNotFound) ==> status_code(error) == "browser_session_not_found"@,
        error is Browser && error->Browser_0 is NavigationOutOfScope ==> status_code(error) == "browser_navigation_out_of_scope"@,
        error is Browser && error->Browser_0 is StaleElement ==> status_code(error) == "browser_stale_element"@,
        error is Browser && error->Browser_0 is BrowserDisabled ==> status_code(error) == "browser_disabled"@,
        error is Browser && !(error->Browser_0 is ApprovalMismatch || error->Browser_0 is SessionNotFound || error->Browser_0 is NavigationOutOfScope || error->Browser_0 is StaleElement || error->Browser_0 is BrowserDisabled) ==> status_code(error) == "browser_error"@,
        error is Policy ==> status_code(error) == "policy_error"@,
        error is Json ==> status_code(error) == "serialization_error"@,
        error is InvalidConfig || error is Clock ==> status_code(error) == "internal_error"@,
{
}

/// How far a session has come is told by these words.
pub proof fn session_states_are_told_by_words(state: TerminalSessionState)
    ensures
        state is Running <==> session_state_name(state) == "running"@,
        state is Completed <==> session_state_name(state) == "completed"@,
        state is Cancelled <==> session_state_name(state) == "cancelled"@,
        state is TimedOut <==> session_state_name(state) == "timed_out"@,
        state is Failed <==> session_state_name(state) == "failed"@,
{
    reveal_strlit("running");
    reveal_strlit("completed");
    reveal_strlit("cancelled");
    reveal_strlit("timed_out");
    reveal_strlit("failed");
    assert("running"@.len() == 7);
    assert("completed"@.len() == 9);
    assert("cancelled"@.len() == 9);
    assert("timed_out"@.len() == 9);
    assert("failed"@.len() == 6);
    assert("completed"@[1] == 'o' && "cancelled"@[1] == 'a');
    assert("completed"@[0] == 'c' && "timed_out"@[0] == 't');
    assert("cancelled"@[0] == 'c' && "timed_out"@[0] == 't');
}

/// Requests from afar have these limits.
pub proof fn requests_have_these_limits()
    ensures
        DEFAULT_MAX_OUTPUT_BYTES == 1_048_576,
        DEFAULT_MAX_REMOTE_WRITE_BYTES == 1_048_576,
        DEFAULT_APPROVAL_CHALLENGE_TTL_MS == 120_000,
        MAX_ENCODED_WRITE_BYTES == 1_398_109,
        TERMINAL_RESULT_OVERHEAD_BYTES == 16_384,
{
}

/// A session belongs to the actor of the organization, on the device and in the workspace that
/// the request names, in none where it names none.
pub proof fn sessions_belong_to_who_asked(owner: TerminalSessionOwner, request: ActionRequest)
    ensures
        is_owner(owner, request) <==> {
            &&& owner.organization_id@ == request.envelope.organization_id@
            &&& owner.actor_id@ == request.envelope.actor_id@
            &&& owner.device_id@ == request.envelope.device_id@
            &&& (match owner.workspace_id {
                Some(workspace) => Some(workspace@),
                None => None,
            }) == protocol::text_parameter(request.envelope.parameters@, "workspace_id"@)
        },
{
}

/// What is asked of a session, and a command that is run, is for the session's owner.
pub proof fn terminals_are_used_by_their_owner(
    request: ActionRequest,
    plan: ReadPlan,
    approved: ApprovedPlan,
    limit: usize,
    defaults: TerminalDefaults,
)
    ensures
        request.envelope.action@ == "terminal.poll"@ && read_plan_follows(plan, request) ==> is_owner(
            plan->TerminalPoll_owner,
            request,
        ),
        request.envelope.action@ == "terminal.cancel"@ && read_plan_follows(plan, request)
            ==> is_owner(plan->TerminalCancel_owner, request),
        request.envelope.action@ == "terminal.exec"@ && approved_plan_follows(
            approved,
            request,
            limit,
            defaults,
        ) ==> approved is Terminal && is_owner(approved->owner, request) && terminal_follows(
            approved->command,
            request,
            limit,
            defaults,
        ),
{
    reveal_strlit("filesystem.read");
    reveal_strlit("filesystem.list");
    reveal_strlit("filesystem.search_files");
    reveal_strlit("filesystem.search_content");
    reveal_strlit("filesystem.info");
    reveal_strlit("git.status");
    reveal_strlit("git.diff");
    reveal_strlit("process.list");
    reveal_strlit("process.inspect");
    reveal_strlit("terminal.poll");
    reveal_strlit("terminal.cancel");
    reveal_strlit("filesystem.write");
    reveal_strlit("terminal.exec");
    assert("filesystem.read"@.len() == 15);
    assert("filesystem.list"@.len() == 15);
    assert("filesystem.search_files"@.len() == 23);
    assert("filesystem.search_content"@.len() == 25);
    assert("filesystem.info"@.len() == 15);
    assert("git.status"@.len() == 10);
    assert("git.diff"@.len() == 8);
    assert("process.list"@.len() == 12);
    assert("process.inspect"@.len() == 15);
    assert("terminal.poll"@.len() == 13);
    assert("terminal.cancel"@.len() == 15);
    assert("filesystem.write"@.len() == 16);
    assert("terminal.exec"@.len() == 13);
    assert("filesystem.read"@[11] == 'r' && "filesystem.list"@[11] == 'l');
    assert("filesystem.read"@[11] == 'r' && "filesystem.info"@[11] == 'i');
    assert("filesystem.read"@[0] == 'f' && "process.inspect"@[0] == 'p');
    assert("filesystem.read"@[0] == 'f' && "terminal.cancel"@[0] == 't');
    assert("filesystem.list"@[11] == 'l' && "filesystem.info"@[11] == 'i');
    assert("filesystem.list"@[0] == 'f' && "process.inspect"@[0] == 'p');
    assert("filesystem.list"@[0] == 'f' && "terminal.cancel"@[0] == 't');
    assert("filesystem.info"@[0] == 'f' && "process.inspect"@[0] == 'p');
    assert("filesystem.info"@[0] == 'f' && "terminal.cancel"@[0] == 't');
    assert("process.inspect"@[0] == 'p' && "terminal.cancel"@[0] == 't');
    assert("terminal.poll"@[9] == 'p' && "terminal.exec"@[9] == 'e');
}

} // verus!
