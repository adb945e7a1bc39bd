//! What the commander says of requests that were served, refused, or wait for
//! an approval.

use vstd::prelude::*;

use crate::approval;
use crate::approval::ApprovalChallenge;
use crate::codec;
use crate::crypto;
use crate::dispatch;
use crate::dispatch::{DispatchError, TerminalSessionState, TerminalSpec};
use crate::edits::PreparedEdit;
use crate::files;
use crate::files::FsError;
use crate::protocol;
use crate::protocol::{ActionEnvelope, Parameter, ParameterValue};
use crate::text;
use crate::writes::WriteReceipt;

verus! {

/// What was seen of a terminal session.
#[derive(Debug)]
pub struct TerminalSessionSnapshot {
    pub session_id: String,
    pub state: TerminalSessionState,
    pub exit_code: Option<i64>,
    pub output: Vec<u8>,
    pub error_code: Option<String>,
}

// ---------------------------------------------------------------------------
// Entries

/// The entry has a name, and holds a text or nothing.
pub open spec fn optional_text_entry(entry: Parameter, name: Seq<char>, value: Option<Seq<char>>) -> bool {
    entry.name@ == name && match value {
        None => entry.value is Null,
        Some(text) => entry.value is Text && entry.value->Text_0@ == text,
    }
}

/// The entry has a name, and holds a whole number or nothing.
pub open spec fn optional_number_entry(entry: Parameter, name: Seq<char>, value: Option<i64>) -> bool {
    entry.name@ == name && match value {
        None => entry.value is Null,
        Some(n) => if n < 0 {
            entry.value == ParameterValue::Negative(n)
        } else {
            entry.value == ParameterValue::Unsigned(n as u64)
        },
    }
}

/// An entry with a text, or with nothing where there is none.
pub fn optional_text_field(name: &str, value: &Option<String>) -> (entry: Parameter)
    ensures
        optional_text_entry(entry, name@, approval::optional_text(*value)),
{
    Parameter {
        name: text::copied(name),
        value: match value {
            None => ParameterValue::Null,
            Some(text) => ParameterValue::Text(text.clone()),
        },
    }
}

fn optional_number_field(name: &str, value: Option<i64>) -> (entry: Parameter)
    ensures
        optional_number_entry(entry, name@, value),
{
    Parameter {
        name: text::copied(name),
        value: match value {
            None => ParameterValue::Null,
            Some(n) => if n < 0 {
                ParameterValue::Negative(n)
            } else {
                ParameterValue::Unsigned(n as u64)
            },
        },
    }
}

// ---------------------------------------------------------------------------
// Reports of workers

pub open spec fn is_write_report(entries: Seq<Parameter>, receipt: WriteReceipt) -> bool {
    &&& entries.len() == 4
    &&& protocol::text_entry(entries[0], "target"@, receipt.target.text@)
    &&& protocol::text_entry(entries[1], "content_sha256"@, receipt.content_sha256@)
    &&& protocol::flag_entry(entries[2], "backup_created"@, receipt.backup_path is Some)
    &&& protocol::flag_entry(entries[3], "journaled"@, true)
}

/// What is said of a write.
pub fn write_report(receipt: &WriteReceipt) -> (report: ParameterValue)
    ensures
        report matches ParameterValue::Table(entries) && is_write_report(entries@, *receipt),
{
    let mut entries: Vec<Parameter> = Vec::new();
    entries.push(protocol::text_field("target", receipt.target.text.as_str()));
    entries.push(protocol::text_field("content_sha256", receipt.content_sha256.as_str()));
    entries.push(protocol::flag_field("backup_created", receipt.backup_path.is_some()));
    entries.push(protocol::flag_field("journaled", true));
    ParameterValue::Table(entries)
}

pub open spec fn is_start_report(
    entries: Seq<Parameter>,
    session_id: Seq<char>,
    command: TerminalSpec,
) -> bool {
    &&& entries.len() == 7
    &&& protocol::text_entry(entries[0], "session_id"@, session_id)
    &&& protocol::text_entry(entries[1], "state"@, "running"@)
    &&& protocol::text_entry(entries[2], "cwd"@, command.cwd@)
    &&& protocol::number_entry(entries[3], "timeout_ms"@, command.timeout_ms)
    &&& protocol::number_entry(entries[4], "max_output_bytes"@, command.max_output_bytes as u64)
    &&& protocol::number_entry(entries[5], "columns"@, command.columns as u64)
    &&& protocol::number_entry(entries[6], "rows"@, command.rows as u64)
}

/// What is said of a terminal session that was started.
pub fn terminal_start_report(session_id: &str, command: &TerminalSpec) -> (report: ParameterValue)
    ensures
        report matches ParameterValue::Table(entries) && is_start_report(
            entries@,
            session_id@,
            *command,
        ),
{
    let mut entries: Vec<Parameter> = Vec::new();
    entries.push(protocol::text_field("session_id", session_id));
    entries.push(protocol::text_field("state", "running"));
    entries.push(protocol::text_field("cwd", command.cwd.as_str()));
    entries.push(protocol::number_field("timeout_ms", command.timeout_ms));
    entries.push(protocol::number_field("max_output_bytes", command.max_output_bytes as u64));
    entries.push(protocol::number_field("columns", command.columns as u64));
    entries.push(protocol::number_field("rows", command.rows as u64));
    ParameterValue::Table(entries)
}

pub open spec fn is_poll_report(
    entries: Seq<Parameter>,
    snapshot: TerminalSessionSnapshot,
) -> bool {
    &&& entries.len() == 5
    &&& protocol::text_entry(entries[0], "session_id"@, snapshot.session_id@)
    &&& protocol::text_entry(entries[1], "state"@, dispatch::session_state_name(snapshot.state))
    &&& optional_number_entry(entries[2], "exit_code"@, snapshot.exit_code)
    &&& protocol::text_entry(
        entries[3],
        "output_base64"@,
        codec::standard_base64(snapshot.output@),
    )
    &&& optional_text_entry(
        entries[4],
        "error_code"@,
        approval::optional_text(snapshot.error_code),
    )
}

/// What is said of a terminal session, and whether it has ended and is to be
/// forgotten.
pub fn terminal_poll_report(snapshot: &TerminalSessionSnapshot) -> (r: (ParameterValue, bool))
    ensures
        r.0 matches ParameterValue::Table(entries) && is_poll_report(entries@, *snapshot),
        r.1 == (snapshot.state != TerminalSessionState::Running),
{
    let output = codec::to_standard_base64(snapshot.output.as_slice());
    let mut entries: Vec<Parameter> = Vec::new();
    entries.push(protocol::text_field("session_id", snapshot.session_id.as_str()));
    entries.push(
        protocol::text_field("state", dispatch::terminal_session_state_name(snapshot.state)),
    );
    entries.push(optional_number_field("exit_code", snapshot.exit_code));
    entries.push(protocol::text_field("output_base64", output.as_str()));
    entries.push(optional_text_field("error_code", &snapshot.error_code));
    (ParameterValue::Table(entries), snapshot.state != TerminalSessionState::Running)
}

/// What is said of a terminal session that was asked to end.
pub fn terminal_cancel_report(session_id: &str, requested: bool) -> (report: ParameterValue)
    ensures
        report matches ParameterValue::Table(entries) && entries@.len() == 2
            && protocol::text_entry(entries@[0], "session_id"@, session_id@)
            && protocol::flag_entry(entries@[1], "cancel_requested"@, requested),
{
    let mut entries: Vec<Parameter> = Vec::new();
    entries.push(protocol::text_field("session_id", session_id));
    entries.push(protocol::flag_field("cancel_requested", requested));
    ParameterValue::Table(entries)
}

pub open spec fn is_mismatch_report(
    entries: Seq<Parameter>,
    edit_index: usize,
    expected: usize,
    actual: usize,
    closest_line: Option<String>,
) -> bool {
    &&& entries.len() == 4
    &&& protocol::number_entry(entries[0], "edit_index"@, edit_index as u64)
    &&& protocol::number_entry(entries[1], "expected_occurrences"@, expected as u64)
    &&& protocol::number_entry(entries[2], "actual_occurrences"@, actual as u64)
    &&& optional_text_entry(entries[3], "closest_line"@, approval::optional_text(closest_line))
}

/// What more is said of a failure: of an edit whose text was not found as often
/// as it should be, where; of others nothing.
pub fn failure_report(error: &DispatchError) -> (report: Option<ParameterValue>)
    ensures
        match *error {
            DispatchError::Fs(
                FsError::OccurrenceMismatch { edit_index, expected, actual, closest_line },
            ) => report matches Some(ParameterValue::Table(entries)) && is_mismatch_report(
                entries@,
                edit_index,
                expected,
                actual,
                closest_line,
            ),
            _ => report is None,
        },
{
    match error {
        DispatchError::Fs(
            FsError::OccurrenceMismatch { edit_index, expected, actual, closest_line },
        ) => {
            let mut entries: Vec<Parameter> = Vec::new();
            entries.push(protocol::number_field("edit_index", *edit_index as u64));
            entries.push(protocol::number_field("expected_occurrences", *expected as u64));
            entries.push(protocol::number_field("actual_occurrences", *actual as u64));
            entries.push(optional_text_field("closest_line", closest_line));
            Some(ParameterValue::Table(entries))
        },
        _ => None,
    }
}

// ---------------------------------------------------------------------------
// Challenges

pub open spec fn is_challenge_report(
    entries: Seq<Parameter>,
    challenge: ApprovalChallenge,
) -> bool {
    &&& entries.len() >= 6
    &&& protocol::text_entry(entries[0], "request_id"@, challenge.request_id@)
    &&& protocol::text_entry(
        entries[1],
        "envelope_digest_base64"@,
        codec::standard_base64(challenge.envelope_digest@),
    )
    &&& protocol::text_entry(entries[2], "policy_id"@, challenge.policy_id@)
    &&& optional_text_entry(
        entries[3],
        "required_capability"@,
        approval::optional_text(challenge.required_capability),
    )
    &&& protocol::number_entry(
        entries[4],
        "expires_at_unix_ms"@,
        challenge.expires_at_unix_ms,
    )
    &&& protocol::text_entry(
        entries[5],
        "approval_nonce_base64"@,
        codec::standard_base64(challenge.approval_nonce@),
    )
}

fn challenge_entries(challenge: &ApprovalChallenge) -> (entries: Vec<Parameter>)
    ensures
        is_challenge_report(entries@, *challenge),
        entries@.len() == 6,
{
    let digest = codec::to_standard_base64(challenge.envelope_digest.as_slice());
    let nonce = codec::to_standard_base64(challenge.approval_nonce.as_slice());
    let mut entries: Vec<Parameter> = Vec::new();
    entries.push(protocol::text_field("request_id", challenge.request_id.as_str()));
    entries.push(protocol::text_field("envelope_digest_base64", digest.as_str()));
    entries.push(protocol::text_field("policy_id", challenge.policy_id.as_str()));
    entries.push(optional_text_field("required_capability", &challenge.required_capability));
    entries.push(protocol::number_field("expires_at_unix_ms", challenge.expires_at_unix_ms));
    entries.push(protocol::text_field("approval_nonce_base64", nonce.as_str()));
    entries
}

/// What an approver is shown of a challenge.
pub fn challenge_report(challenge: &ApprovalChallenge) -> (report: ParameterValue)
    ensures
        report matches ParameterValue::Table(entries) && entries@.len() == 6
            && is_challenge_report(entries@, *challenge),
{
    ParameterValue::Table(challenge_entries(challenge))
}

/// What an approver is shown of a challenge for an edit; `request` is the edited
/// request as it is sent.
pub fn edit_challenge_report(
    challenge: &ApprovalChallenge,
    request: &[u8],
    prepared: &PreparedEdit,
) -> (report: ParameterValue)
    ensures
        report matches ParameterValue::Table(entries) && {
            &&& entries@.len() == 10
            &&& is_challenge_report(entries@, *challenge)
            &&& protocol::text_entry(
                entries@[6],
                "request_base64"@,
                codec::standard_base64(request@),
            )
            &&& protocol::text_entry(
                entries@[7],
                "content_sha256"@,
                files::digest_text(prepared.content@),
            )
            &&& protocol::text_entry(entries@[8], "diff_summary"@, prepared.diff_summary@)
            &&& protocol::flag_entry(entries@[9], "diff_truncated"@, prepared.diff_truncated)
        },
{
    let mut entries = challenge_entries(challenge);
    let encoded = codec::to_standard_base64(request);
    let digest = files::sha256_hex(prepared.content.as_slice());
    entries.push(protocol::text_field("request_base64", encoded.as_str()));
    entries.push(protocol::text_field("content_sha256", digest.as_str()));
    entries.push(protocol::text_field("diff_summary", prepared.diff_summary.as_str()));
    entries.push(protocol::flag_field("diff_truncated", prepared.diff_truncated));
    ParameterValue::Table(entries)
}

// ---------------------------------------------------------------------------
// Edits

/// `edited` is `envelope` with the recipe replaced by what it gives.
pub open spec fn is_edited(
    edited: ActionEnvelope,
    envelope: ActionEnvelope,
    prepared: PreparedEdit,
) -> bool {
    let parameters = edited.parameters@;
    let workspace = protocol::parameter(envelope.parameters@, "workspace_id"@);
    &&& edited == (ActionEnvelope { parameters: edited.parameters, ..envelope })
    &&& parameters.len() == (if workspace is Some {
        4int
    } else {
        3
    })
    &&& protocol::text_entry(
        parameters[0],
        "content_base64"@,
        codec::standard_base64(prepared.content@),
    )
    &&& protocol::text_entry(
        parameters[1],
        "content_sha256"@,
        files::digest_text(prepared.content@),
    )
    &&& protocol::text_entry(
        parameters[2],
        "expected_target_sha256"@,
        prepared.original_sha256@,
    )
    &&& workspace is Some ==> {
        &&& parameters[3].name@ == "workspace_id"@
        &&& parameters[3].value == workspace->0
    }
}

/// The value of a named parameter, taken out of them.
fn take_parameter(parameters: Vec<Parameter>, name: &str) -> (value: Option<ParameterValue>)
    ensures
        value == protocol::parameter(parameters@, name@),
{
    let mut left = parameters;
    let mut value: Option<ParameterValue> = None;
    proof {
        assert(parameters@.skip(left@.len() as int) =~= Seq::<Parameter>::empty());
    }
    while left.len() > 0
        invariant
            left@.len() <= parameters@.len(),
            left@ == parameters@.take(left@.len() as int),
            value == protocol::parameter(parameters@.skip(left@.len() as int), name@),
        decreases left@.len(),
    {
        let ghost rest = parameters@.skip(left@.len() as int);
        let ghost n = left@.len() - 1;
        if let Some(last) = left.pop() {
            proof {
                assert(parameters@.skip(n).drop_first() =~= rest);
                assert(parameters@.skip(n)[0] == last);
                assert(left@ =~= parameters@.take(n));
            }
            if text::same_text(last.name.as_str(), name) {
                value = Some(last.value);
            }
        }
    }
    proof {
        assert(parameters@.skip(0) =~= parameters@);
    }
    value
}

/// The envelope of a write that does what an edit gives.
pub fn edited_envelope(envelope: ActionEnvelope, prepared: &PreparedEdit) -> (edited:
    ActionEnvelope)
    ensures
        is_edited(edited, envelope, *prepared),
        codec::standard_base64_bytes(codec::standard_base64(prepared.content@)) == Some(
            prepared.content@,
        ),
{
    let content = codec::to_standard_base64(prepared.content.as_slice());
    let digest = files::sha256_hex(prepared.content.as_slice());
    let mut parameters: Vec<Parameter> = Vec::new();
    parameters.push(protocol::text_field("content_base64", content.as_str()));
    parameters.push(protocol::text_field("content_sha256", digest.as_str()));
    parameters.push(
        protocol::text_field("expected_target_sha256", prepared.original_sha256.as_str()),
    );
    if let Some(workspace) = take_parameter(envelope.parameters, "workspace_id") {
        parameters.push(Parameter { name: text::copied("workspace_id"), value: workspace });
    }
    ActionEnvelope {
        request_id: envelope.request_id,
        organization_id: envelope.organization_id,
        actor_id: envelope.actor_id,
        device_id: envelope.device_id,
        action: envelope.action,
        target: envelope.target,
        parameters,
        requested_capabilities: envelope.requested_capabilities,
        expires_at_unix_ms: envelope.expires_at_unix_ms,
        nonce: envelope.nonce,
    }
}

// ---------------------------------------------------------------------------
// Laws

/// An approved edit writes what was shown to the approver: the content of its
/// request is that of the prepared edit, and its digest was in the report.
pub proof fn edits_write_what_was_prepared(
    edited: ActionEnvelope,
    envelope: ActionEnvelope,
    prepared: PreparedEdit,
)
    requires
        is_edited(edited, envelope, prepared),
        codec::standard_base64_bytes(codec::standard_base64(prepared.content@)) == Some(
            prepared.content@,
        ),
    ensures
        dispatch::written_content(edited.parameters@) == prepared.content@,
        protocol::text_parameter(edited.parameters@, "content_sha256"@) == Some(
            files::digest_text(prepared.content@),
        ),
        protocol::text_parameter(edited.parameters@, "expected_target_sha256"@) == Some(
            prepared.original_sha256@,
        ),
{
    let p = edited.parameters@;
    reveal_strlit("content_base64");
    reveal_strlit("content_sha256");
    reveal_strlit("expected_target_sha256");
    assert("content_base64"@[8] != "content_sha256"@[8]);
    assert("content_base64"@.len() == 14);
    assert("content_sha256"@.len() == 14);
    assert("expected_target_sha256"@.len() == 22);
    assert(p.drop_first()[0] == p[1]);
    assert(p.drop_first().drop_first()[0] == p[2]);
    reveal_with_fuel(protocol::parameter, 4);
}

// ---------------------------------------------------------------------------
// Names

/// What was written is told under these names: where, by which digest, whether what was
/// there is kept, and that it was noted.
pub proof fn write_reports_tell_by_name(entries: Seq<Parameter>, receipt: WriteReceipt)
    requires
        is_write_report(entries, receipt),
    ensures
        protocol::text_parameter(entries, "target"@) == Some(receipt.target.text@),
        protocol::text_parameter(entries, "content_sha256"@) == Some(receipt.content_sha256@),
        protocol::flag_parameter(entries, "backup_created"@) == Some(receipt.backup_path is Some),
        protocol::flag_parameter(entries, "journaled"@) == Some(true),
{
    reveal_strlit("target");
    reveal_strlit("content_sha256");
    reveal_strlit("backup_created");
    reveal_strlit("journaled");
    assert("target"@.len() == 6);
    assert("content_sha256"@.len() == 14);
    assert("backup_created"@.len() == 14);
    assert("journaled"@.len() == 9);
    assert("content_sha256"@[0] == 'c' && "backup_created"@[0] == 'b');
    protocol::parameters_are_found_by_name(entries, "target"@, 0);
    protocol::parameters_are_found_by_name(entries, "content_sha256"@, 1);
    protocol::parameters_are_found_by_name(entries, "backup_created"@, 2);
    protocol::parameters_are_found_by_name(entries, "journaled"@, 3);
}

/// A command that was started is told under these names.
pub proof fn start_reports_tell_by_name(
    entries: Seq<Parameter>,
    session_id: Seq<char>,
    command: TerminalSpec,
)
    requires
        is_start_report(entries, session_id, command),
    ensures
        protocol::text_parameter(entries, "session_id"@) == Some(session_id),
        protocol::text_parameter(entries, "state"@) == Some("running"@),
        protocol::text_parameter(entries, "cwd"@) == Some(command.cwd@),
        protocol::unsigned_parameter(entries, "timeout_ms"@) == Some(command.timeout_ms),
        protocol::unsigned_parameter(entries, "max_output_bytes"@) == Some(
            command.max_output_bytes as u64,
        ),
        protocol::unsigned_parameter(entries, "columns"@) == Some(command.columns as u64),
        protocol::unsigned_parameter(entries, "rows"@) == Some(command.rows as u64),
{
    reveal_strlit("session_id");
    reveal_strlit("state");
    reveal_strlit("cwd");
    reveal_strlit("timeout_ms");
    reveal_strlit("max_output_bytes");
    reveal_strlit("columns");
    reveal_strlit("rows");
    assert("session_id"@.len() == 10);
    assert("state"@.len() == 5);
    assert("cwd"@.len() == 3);
    assert("timeout_ms"@.len() == 10);
    assert("max_output_bytes"@.len() == 16);
    assert("columns"@.len() == 7);
    assert("rows"@.len() == 4);
    assert("session_id"@[0] == 's' && "timeout_ms"@[0] == 't');
    protocol::parameters_are_found_by_name(entries, "session_id"@, 0);
    protocol::parameters_are_found_by_name(entries, "state"@, 1);
    protocol::parameters_are_found_by_name(entries, "cwd"@, 2);
    protocol::parameters_are_found_by_name(entries, "timeout_ms"@, 3);
    protocol::parameters_are_found_by_name(entries, "max_output_bytes"@, 4);
    protocol::parameters_are_found_by_name(entries, "columns"@, 5);
    protocol::parameters_are_found_by_name(entries, "rows"@, 6);
}

/// How far a command has come is told under these names; what is not known yet is null.
pub proof fn poll_reports_tell_by_name(
    entries: Seq<Parameter>,
    snapshot: TerminalSessionSnapshot,
)
    requires
        is_poll_report(entries, snapshot),
    ensures
        protocol::text_parameter(entries, "session_id"@) == Some(snapshot.session_id@),
        snapshot.state is Running <==> protocol::text_parameter(entries, "state"@) == Some(
            "running"@,
        ),
        snapshot.state is Completed <==> protocol::text_parameter(entries, "state"@) == Some(
            "completed"@,
        ),
        protocol::text_parameter(entries, "output_base64"@) == Some(
            codec::standard_base64(snapshot.output@),
        ),
        snapshot.exit_code is None ==> protocol::parameter(entries, "exit_code"@) == Some(
            ParameterValue::Null,
        ),
        snapshot.exit_code matches Some(code) ==> protocol::parameter(entries, "exit_code"@)
            == Some(
            if code < 0 {
                ParameterValue::Negative(code)
            } else {
                ParameterValue::Unsigned(code as u64)
            },
        ),
        snapshot.error_code is None ==> protocol::parameter(entries, "error_code"@) == Some(
            ParameterValue::Null,
        ),
        snapshot.error_code matches Some(code) ==> protocol::text_parameter(
            entries,
            "error_code"@,
        ) == Some(code@),
{
    dispatch::session_states_are_told_by_words(snapshot.state);
    reveal_strlit("session_id");
    reveal_strlit("state");
    reveal_strlit("exit_code");
    reveal_strlit("output_base64");
    reveal_strlit("error_code");
    assert("session_id"@.len() == 10);
    assert("state"@.len() == 5);
    assert("exit_code"@.len() == 9);
    assert("output_base64"@.len() == 13);
    assert("error_code"@.len() == 10);
    assert("session_id"@[0] == 's' && "error_code"@[0] == 'e');
    protocol::parameters_are_found_by_name(entries, "session_id"@, 0);
    protocol::parameters_are_found_by_name(entries, "state"@, 1);
    protocol::parameters_are_found_by_name(entries, "exit_code"@, 2);
    protocol::parameters_are_found_by_name(entries, "output_base64"@, 3);
    protocol::parameters_are_found_by_name(entries, "error_code"@, 4);
}

/// An edit that found its text too often or too seldom is told under these names.
pub proof fn mismatch_reports_tell_by_name(
    entries: Seq<Parameter>,
    edit_index: usize,
    expected: usize,
    actual: usize,
    closest_line: Option<String>,
)
    requires
        is_mismatch_report(entries, edit_index, expected, actual, closest_line),
    ensures
        protocol::unsigned_parameter(entries, "edit_index"@) == Some(edit_index as u64),
        protocol::unsigned_parameter(entries, "expected_occurrences"@) == Some(expected as u64),
        protocol::unsigned_parameter(entries, "actual_occurrences"@) == Some(actual as u64),
        closest_line is None ==> protocol::parameter(entries, "closest_line"@) == Some(
            ParameterValue::Null,
        ),
        closest_line matches Some(line) ==> protocol::text_parameter(entries, "closest_line"@)
            == Some(line@),
{
    reveal_strlit("edit_index");
    reveal_strlit("expected_occurrences");
    reveal_strlit("actual_occurrences");
    reveal_strlit("closest_line");
    assert("edit_index"@.len() == 10);
    assert("expected_occurrences"@.len() == 20);
    assert("actual_occurrences"@.len() == 18);
    assert("closest_line"@.len() == 12);
    protocol::parameters_are_found_by_name(entries, "edit_index"@, 0);
    protocol::parameters_are_found_by_name(entries, "expected_occurrences"@, 1);
    protocol::parameters_are_found_by_name(entries, "actual_occurrences"@, 2);
    protocol::parameters_are_found_by_name(entries, "closest_line"@, 3);
}

/// A challenge is told under these names.
pub proof fn challenge_reports_tell_by_name(entries: Seq<Parameter>, challenge: ApprovalChallenge)
    requires
        is_challenge_report(entries, challenge),
    ensures
        protocol::text_parameter(entries, "request_id"@) == Some(challenge.request_id@),
        protocol::text_parameter(entries, "envelope_digest_base64"@) == Some(
            codec::standard_base64(challenge.envelope_digest@),
        ),
        protocol::text_parameter(entries, "policy_id"@) == Some(challenge.policy_id@),
        challenge.required_capability is None ==> protocol::parameter(
            entries,
            "required_capability"@,
        ) == Some(ParameterValue::Null),
        challenge.required_capability matches Some(capability) ==> protocol::text_parameter(
            entries,
            "required_capability"@,
        ) == Some(capability@),
        protocol::unsigned_parameter(entries, "expires_at_unix_ms"@) == Some(
            challenge.expires_at_unix_ms,
        ),
        protocol::text_parameter(entries, "approval_nonce_base64"@) == Some(
            codec::standard_base64(challenge.approval_nonce@),
        ),
{
    reveal_strlit("request_id");
    reveal_strlit("envelope_digest_base64");
    reveal_strlit("policy_id");
    reveal_strlit("required_capability");
    reveal_strlit("expires_at_unix_ms");
    reveal_strlit("approval_nonce_base64");
    assert("request_id"@.len() == 10);
    assert("envelope_digest_base64"@.len() == 22);
    assert("policy_id"@.len() == 9);
    assert("required_capability"@.len() == 19);
    assert("expires_at_unix_ms"@.len() == 18);
    assert("approval_nonce_base64"@.len() == 21);
    protocol::parameters_are_found_by_name(entries, "request_id"@, 0);
    protocol::parameters_are_found_by_name(entries, "envelope_digest_base64"@, 1);
    protocol::parameters_are_found_by_name(entries, "policy_id"@, 2);
    protocol::parameters_are_found_by_name(entries, "required_capability"@, 3);
    protocol::parameters_are_found_by_name(entries, "expires_at_unix_ms"@, 4);
    protocol::parameters_are_found_by_name(entries, "approval_nonce_base64"@, 5);
}

/// An edited request writes the new content where the old one was, and says so under these
/// names; it stays with the workspace and everything else that the request says.
pub proof fn edited_requests_tell_by_name(
    edited: ActionEnvelope,
    envelope: ActionEnvelope,
    prepared: PreparedEdit,
)
    requires
        is_edited(edited, envelope, prepared),
    ensures
        ({
            let p = edited.parameters@;
            &&& protocol::text_parameter(p, "content_base64"@) == Some(
                codec::standard_base64(prepared.content@),
            )
            &&& protocol::text_parameter(p, "content_sha256"@) == Some(
                codec::hex_text(crypto::sha256_of(prepared.content@)),
            )
            &&& protocol::text_parameter(p, "expected_target_sha256"@) == Some(
                prepared.original_sha256@,
            )
            &&& protocol::parameter(p, "workspace_id"@) == protocol::parameter(
                envelope.parameters@,
                "workspace_id"@,
            )
            &&& protocol::parameter(p, "edit_recipe"@) is None
            &&& edited.request_id == envelope.request_id
            &&& edited.organization_id == envelope.organization_id
            &&& edited.actor_id == envelope.actor_id
            &&& edited.device_id == envelope.device_id
            &&& edited.action == envelope.action
            &&& edited.target == envelope.target
        }),
{
    reveal_strlit("content_base64");
    reveal_strlit("content_sha256");
    reveal_strlit("expected_target_sha256");
    reveal_strlit("workspace_id");
    reveal_strlit("edit_recipe");
    assert("content_base64"@.len() == 14);
    assert("content_sha256"@.len() == 14);
    assert("expected_target_sha256"@.len() == 22);
    assert("workspace_id"@.len() == 12);
    assert("edit_recipe"@.len() == 11);
    assert("content_base64"@[8] == 'b' && "content_sha256"@[8] == 's');
    let p = edited.parameters@;
    protocol::parameters_are_found_by_name(p, "content_base64"@, 0);
    protocol::parameters_are_found_by_name(p, "content_sha256"@, 1);
    protocol::parameters_are_found_by_name(p, "expected_target_sha256"@, 2);
    let workspace = protocol::parameter(envelope.parameters@, "workspace_id"@);
    let last: int = if workspace is Some {
        3
    } else {
        2
    };
    protocol::parameters_are_found_by_name(p, "workspace_id"@, last);
    protocol::parameters_are_found_by_name(p, "edit_recipe"@, last);
}

} // verus!
