//! The audit ledger: events chained by their hashes in a database and in a
//! journal file, and the approvals that have been used up.

use vstd::prelude::*;
use vstd::utf8::*;

use crate::codec;
use crate::crypto;
use crate::protocol::Digest32;
use crate::text;

verus! {

/// How often a lock file is tried for.
pub const LOCK_RETRY_ATTEMPTS: usize = 200;

/// Milliseconds between two tries.
pub const LOCK_RETRY_DELAY_MS: u64 = 10;

/// Milliseconds after which a lock file is taken to be left behind.
pub const ABANDONED_LOCK_AGE_MS: u64 = 30_000;

#[derive(Debug)]
pub struct AuditEvent {
    pub timestamp_unix_ms: u64,
    pub organization_id: String,
    pub actor_id: String,
    pub device_id: String,
    pub request_id: String,
    pub action: String,
    pub target: String,
    pub outcome: String,
    pub envelope_digest: Digest32,
}

#[derive(Debug)]
pub struct AuditRecord {
    pub sequence: u64,
    pub previous_hash: Digest32,
    pub record_hash: Digest32,
    pub event: AuditEvent,
}

#[derive(Debug, Clone, Copy, PartialEq, Eq, Structural)]
pub enum ExecutionRecoveryState {
    NotExecuted,
    EffectUncertain,
    EffectApplied,
    PostEffectUncertain,
    Completed,
}

#[derive(Debug, Clone, Copy, PartialEq, Eq, Structural)]
pub enum AuditError {
    Divergence,
    HashMismatch(u64),
    InvalidHash,
    InvalidSequence,
    InvalidExecutionState,
    MissingExecutionState,
    LockTimeout,
    Clock,
    Json,
    Store,
}

/// A row of the database, with the event that its JSON text parses to.
#[derive(Debug)]
pub struct StoredRow {
    pub sequence: i64,
    pub previous_hash: String,
    pub record_hash: String,
    pub event_json: String,
    pub event: Option<AuditEvent>,
}

/// An approval that has been used up.
#[derive(Debug)]
pub struct Consumption {
    pub request_id: String,
    pub envelope_digest: Digest32,
    pub consumed_at_unix_ms: i64,
}

/// How far the execution of a used approval has come, as it is stored.
#[derive(Debug)]
pub struct Execution {
    pub request_id: String,
    pub envelope_digest: Digest32,
    pub state: String,
    pub updated_at_unix_ms: i64,
}

/// The two copies of the audit trail and the tables of used approvals.
#[derive(Debug)]
pub struct Ledger {
    pub rows: Vec<StoredRow>,
    pub journal: Vec<AuditRecord>,
    pub consumptions: Vec<Consumption>,
    pub executions: Vec<Execution>,
    pub last_sequence: u64,
    pub last_hash: Digest32,
}

// ---------------------------------------------------------------------------
// Models

/// An event by the texts in it.
#[verifier::ext_equal]
pub struct EventView {
    pub timestamp_unix_ms: u64,
    pub organization_id: Seq<char>,
    pub actor_id: Seq<char>,
    pub device_id: Seq<char>,
    pub request_id: Seq<char>,
    pub action: Seq<char>,
    pub target: Seq<char>,
    pub outcome: Seq<char>,
    pub envelope_digest: Seq<u8>,
}

#[verifier::ext_equal]
pub struct RecordView {
    pub sequence: int,
    pub previous_hash: Seq<u8>,
    pub record_hash: Seq<u8>,
    pub event: EventView,
}

impl View for AuditEvent {
    type V = EventView;

    open spec fn view(&self) -> EventView {
        EventView {
            timestamp_unix_ms: self.timestamp_unix_ms,
            organization_id: self.organization_id@,
            actor_id: self.actor_id@,
            device_id: self.device_id@,
            request_id: self.request_id@,
            action: self.action@,
            target: self.target@,
            outcome: self.outcome@,
            envelope_digest: self.envelope_digest@,
        }
    }
}

impl View for AuditRecord {
    type V = RecordView;

    open spec fn view(&self) -> RecordView {
        RecordView {
            sequence: self.sequence as int,
            previous_hash: self.previous_hash@,
            record_hash: self.record_hash@,
            event: self.event@,
        }
    }
}

pub open spec fn record_views(records: Seq<AuditRecord>) -> Seq<RecordView> {
    records.map_values(|r: AuditRecord| r@)
}

/// The hash that comes before the first record.
pub open spec fn zero_hash() -> Seq<u8> {
    Seq::new(32, |i: int| 0u8)
}

/// The hash of a record: over the one before, its number and its text.
pub open spec fn chained_hash(sequence: int, previous: Seq<u8>, payload: Seq<u8>) -> Seq<u8> {
    crypto::sha256_of(previous + codec::be64(sequence) + payload)
}

/// An event as a JSON object, its fields in order.
pub open spec fn event_json(event: EventView) -> Seq<char> {
    "{\"timestamp_unix_ms\":"@ + text::decimal_text(event.timestamp_unix_ms as nat)
        + ",\"organization_id\":"@ + codec::json_string(event.organization_id) + ",\"actor_id\":"@
        + codec::json_string(event.actor_id) + ",\"device_id\":"@ + codec::json_string(
        event.device_id,
    ) + ",\"request_id\":"@ + codec::json_string(event.request_id) + ",\"action\":"@
        + codec::json_string(event.action) + ",\"target\":"@ + codec::json_string(event.target)
        + ",\"outcome\":"@ + codec::json_string(event.outcome) + ",\"envelope_digest\":"@
        + codec::json_bytes(event.envelope_digest) + "}"@
}

/// A record as the JSON object of one journal line.
pub open spec fn record_json(record: RecordView) -> Seq<char> {
    "{\"sequence\":"@ + text::decimal_text(record.sequence as nat) + ",\"previous_hash\":"@
        + codec::json_bytes(record.previous_hash) + ",\"record_hash\":"@ + codec::json_bytes(
        record.record_hash,
    ) + ",\"event\":"@ + event_json(record.event) + "}"@
}

/// Sixty-four hexadecimal digits.
pub open spec fn is_hash_text(s: Seq<char>) -> bool {
    codec::is_hex(s) && codec::hex_bytes(s).len() == 32
}

/// What is wrong with a row, if anything, where `previous` is the hash before
/// it.
pub open spec fn row_error(row: StoredRow, previous: Seq<u8>) -> Option<AuditError> {
    if row.sequence < 0 {
        Some(AuditError::InvalidSequence)
    } else if !is_hash_text(row.previous_hash@) || !is_hash_text(row.record_hash@) {
        Some(AuditError::InvalidHash)
    } else if codec::hex_bytes(row.previous_hash@) != previous || chained_hash(
        row.sequence as int,
        previous,
        encode_utf8(row.event_json@),
    ) != codec::hex_bytes(row.record_hash@) {
        Some(AuditError::HashMismatch(row.sequence as u64))
    } else if row.event is None {
        Some(AuditError::Json)
    } else {
        None
    }
}

/// The hash before row `i`.
pub open spec fn hash_before(rows: Seq<StoredRow>, i: int) -> Seq<u8> {
    if i <= 0 {
        zero_hash()
    } else {
        codec::hex_bytes(rows[i - 1].record_hash@)
    }
}

/// Row `i` is right, given the one before.
pub open spec fn row_holds(rows: Seq<StoredRow>, i: int) -> bool {
    row_error(rows[i], hash_before(rows, i)) is None
}

/// Every row is right.
pub open spec fn chain_holds(rows: Seq<StoredRow>) -> bool {
    forall|i: int| 0 <= i < rows.len() ==> #[trigger] row_holds(rows, i)
}

/// The error is that of the first row that is wrong.
pub open spec fn chain_fails(rows: Seq<StoredRow>, error: AuditError) -> bool {
    exists|i: int|
        {
            &&& 0 <= i < rows.len()
            &&& Some(error) == row_error(#[trigger] rows[i], hash_before(rows, i))
            &&& forall|j: int| 0 <= j < i ==> #[trigger] row_holds(rows, j)
        }
}

/// The record that a right row stands for.
pub open spec fn row_record(row: StoredRow) -> RecordView {
    RecordView {
        sequence: row.sequence as int,
        previous_hash: codec::hex_bytes(row.previous_hash@),
        record_hash: codec::hex_bytes(row.record_hash@),
        event: row.event->0@,
    }
}

pub open spec fn row_records(rows: Seq<StoredRow>) -> Seq<RecordView> {
    rows.map_values(|r: StoredRow| row_record(r))
}

// ---------------------------------------------------------------------------
// Encoding

fn copy_event(event: &AuditEvent) -> (copy: AuditEvent)
    ensures
        copy@ == event@,
{
    AuditEvent {
        timestamp_unix_ms: event.timestamp_unix_ms,
        organization_id: event.organization_id.clone(),
        actor_id: event.actor_id.clone(),
        device_id: event.device_id.clone(),
        request_id: event.request_id.clone(),
        action: event.action.clone(),
        target: event.target.clone(),
        outcome: event.outcome.clone(),
        envelope_digest: event.envelope_digest,
    }
}

fn same_event(a: &AuditEvent, b: &AuditEvent) -> (r: bool)
    ensures
        r == (a@ == b@),
{
    a.timestamp_unix_ms == b.timestamp_unix_ms && text::same_text(
        a.organization_id.as_str(),
        b.organization_id.as_str(),
    ) && text::same_text(a.actor_id.as_str(), b.actor_id.as_str()) && text::same_text(
        a.device_id.as_str(),
        b.device_id.as_str(),
    ) && text::same_text(a.request_id.as_str(), b.request_id.as_str()) && text::same_text(
        a.action.as_str(),
        b.action.as_str(),
    ) && text::same_text(a.target.as_str(), b.target.as_str()) && text::same_text(
        a.outcome.as_str(),
        b.outcome.as_str(),
    ) && codec::same_bytes(a.envelope_digest.as_slice(), b.envelope_digest.as_slice())
}

fn push_json_field(out: &mut Vec<char>, name: &str, value: &str)
    ensures
        final(out)@ == old(out)@ + name@ + codec::json_string(value@),
{
    text::push_text(out, name);
    let json = codec::to_json_string(value);
    text::push_text(out, json.as_str());
}

fn push_event_json(out: &mut Vec<char>, event: &AuditEvent)
    ensures
        final(out)@ == old(out)@ + event_json(event@),
{
    let ghost before = out@;
    let mut json: Vec<char> = text::chars_of("{\"timestamp_unix_ms\":");
    let digits = text::decimal(event.timestamp_unix_ms);
    text::push_all(&mut json, digits.as_slice());
    push_json_field(&mut json, ",\"organization_id\":", event.organization_id.as_str());
    push_json_field(&mut json, ",\"actor_id\":", event.actor_id.as_str());
    push_json_field(&mut json, ",\"device_id\":", event.device_id.as_str());
    push_json_field(&mut json, ",\"request_id\":", event.request_id.as_str());
    push_json_field(&mut json, ",\"action\":", event.action.as_str());
    push_json_field(&mut json, ",\"target\":", event.target.as_str());
    push_json_field(&mut json, ",\"outcome\":", event.outcome.as_str());
    text::push_text(&mut json, ",\"envelope_digest\":");
    codec::push_json_bytes(&mut json, event.envelope_digest.as_slice());
    text::push_text(&mut json, "}");
    text::push_all(out, json.as_slice());
    proof {
        assert(out@ =~= before + event_json(event@));
    }
}

/// The JSON text that an event is stored and hashed as.
pub fn encode_event(event: &AuditEvent) -> (json: String)
    ensures
        json@ == event_json(event@),
{
    let mut out: Vec<char> = Vec::new();
    push_event_json(&mut out, event);
    proof {
        assert(out@ =~= event_json(event@));
    }
    text::string_of(out.as_slice())
}

/// The line that a record takes in the journal file.
pub fn encode_record(record: &AuditRecord) -> (json: String)
    ensures
        json@ == record_json(record@),
{
    let mut json: Vec<char> = text::chars_of("{\"sequence\":");
    let digits = text::decimal(record.sequence);
    text::push_all(&mut json, digits.as_slice());
    text::push_text(&mut json, ",\"previous_hash\":");
    codec::push_json_bytes(&mut json, record.previous_hash.as_slice());
    text::push_text(&mut json, ",\"record_hash\":");
    codec::push_json_bytes(&mut json, record.record_hash.as_slice());
    text::push_text(&mut json, ",\"event\":");
    push_event_json(&mut json, &record.event);
    text::push_text(&mut json, "}");
    text::string_of(json.as_slice())
}

fn hash_record(sequence: u64, previous_hash: &Digest32, payload: &[u8]) -> (hash: Digest32)
    ensures
        hash@ == chained_hash(sequence as int, previous_hash@, payload@),
{
    let mut data: Vec<u8> = Vec::new();
    codec::push_byte_slice(&mut data, previous_hash.as_slice());
    codec::push_be64(&mut data, sequence);
    codec::push_byte_slice(&mut data, payload);
    proof {
        assert(data@ =~= previous_hash@ + codec::be64(sequence as int) + payload@);
    }
    crypto::sha256(data.as_slice())
}

/// Thirty-two bytes as an array.
pub fn digest_array(bytes: &[u8]) -> (digest: Digest32)
    requires
        bytes@.len() == 32,
    ensures
        digest@ == bytes@,
{
    let mut digest: Digest32 = [0u8;32];
    let mut i: usize = 0;
    while i < 32
        invariant
            i <= 32,
            bytes@.len() == 32,
            digest@.len() == 32,
            forall|k: int| 0 <= k < i ==> digest@[k] == bytes@[k],
        decreases 32 - i,
    {
        digest[i] = bytes[i];
        i = i + 1;
    }
    proof {
        assert(digest@ =~= bytes@);
    }
    digest
}

fn decode_hash(value: &str) -> (hash: Result<Digest32, AuditError>)
    ensures
        hash is Ok == is_hash_text(value@),
        hash is Ok ==> hash->Ok_0@ == codec::hex_bytes(value@),
        hash is Err ==> hash->Err_0 == AuditError::InvalidHash,
{
    match codec::from_hex(value) {
        None => Err(AuditError::InvalidHash),
        Some(bytes) => {
            if bytes.len() != 32 {
                Err(AuditError::InvalidHash)
            } else {
                Ok(digest_array(bytes.as_slice()))
            }
        },
    }
}

fn zero_digest() -> (hash: Digest32)
    ensures
        hash@ == zero_hash(),
{
    let hash: Digest32 = [0u8;32];
    proof {
        assert(hash@ =~= zero_hash());
    }
    hash
}

// ---------------------------------------------------------------------------
// The chain

/// Number and hash of the last row; an error where they cannot be read.
pub open spec fn rows_end(rows: Seq<StoredRow>) -> Result<Option<(int, Seq<u8>)>, AuditError> {
    if rows.len() == 0 {
        Ok(None)
    } else if rows.last().sequence < 0 {
        Err(AuditError::InvalidSequence)
    } else if !is_hash_text(rows.last().record_hash@) {
        Err(AuditError::InvalidHash)
    } else {
        Ok(Some((rows.last().sequence as int, codec::hex_bytes(rows.last().record_hash@))))
    }
}

/// Number and hash of the last journal record.
pub open spec fn journal_end(journal: Seq<AuditRecord>) -> Option<(int, Seq<u8>)> {
    if journal.len() == 0 {
        None
    } else {
        Some((journal.last().sequence as int, journal.last().record_hash@))
    }
}

/// Why nothing can be appended, if that is so.
pub open spec fn ends_error(rows: Seq<StoredRow>, journal: Seq<AuditRecord>) -> Option<AuditError> {
    if rows_end(rows) is Err {
        Some(rows_end(rows)->Err_0)
    } else if rows_end(rows)->Ok_0 != journal_end(journal) {
        Some(AuditError::Divergence)
    } else {
        None
    }
}

/// The number of the last record, zero before the first.
pub open spec fn end_sequence(end: Option<(int, Seq<u8>)>) -> int {
    match end {
        Some((sequence, _)) => sequence,
        None => 0,
    }
}

pub open spec fn end_hash(end: Option<(int, Seq<u8>)>) -> Seq<u8> {
    match end {
        Some((_, hash)) => hash,
        None => zero_hash(),
    }
}

/// The record that an event becomes behind `end`.
pub open spec fn next_record(end: Option<(int, Seq<u8>)>, event: EventView) -> RecordView {
    RecordView {
        sequence: end_sequence(end) + 1,
        previous_hash: end_hash(end),
        record_hash: chained_hash(
            end_sequence(end) + 1,
            end_hash(end),
            encode_utf8(event_json(event)),
        ),
        event,
    }
}

/// The row that holds a record.
pub open spec fn row_holds_record(row: StoredRow, record: RecordView) -> bool {
    &&& row.sequence == record.sequence
    &&& row.previous_hash@ == codec::hex_text(record.previous_hash)
    &&& row.record_hash@ == codec::hex_text(record.record_hash)
    &&& row.event_json@ == event_json(record.event)
    &&& row.event is Some
    &&& row.event->0@ == record.event
}

/// `after` is `before` with one event chained to both stores.
pub open spec fn appends(before: Ledger, after: Ledger, event: EventView) -> bool {
    let next = next_record(rows_end(before.rows@)->Ok_0, event);
    &&& same_tables(before, after)
    &&& next.record_hash.len() == 32
    &&& after.rows@.len() == before.rows@.len() + 1
    &&& after.rows@.drop_last() == before.rows@
    &&& row_holds_record(after.rows@.last(), next)
    &&& record_views(after.journal@) == record_views(before.journal@).push(next)
    &&& after.last_sequence == next.sequence
    &&& after.last_hash@ == next.record_hash
}

/// The numbers of `n` records more can still be stored.
pub open spec fn has_room(ledger: Ledger, n: int) -> bool {
    ledger.rows@.len() > 0 ==> ledger.rows@.last().sequence <= i64::MAX - n
}

/// The tables of used approvals are the same.
pub open spec fn same_tables(a: Ledger, b: Ledger) -> bool {
    a.consumptions == b.consumptions && a.executions == b.executions
}

// ---------------------------------------------------------------------------
// Used approvals

/// The row of a table speaks of this request.
pub open spec fn consumption_of(c: Consumption, request_id: Seq<char>, digest: Seq<u8>) -> bool {
    c.request_id@ == request_id && c.envelope_digest@ == digest
}

/// The approval of a request has been used up.
pub open spec fn is_consumed(
    consumptions: Seq<Consumption>,
    request_id: Seq<char>,
    digest: Seq<u8>,
) -> bool {
    exists|i: int|
        0 <= i < consumptions.len() && consumption_of(
            #[trigger] consumptions[i],
            request_id,
            digest,
        )
}

pub open spec fn execution_of(e: Execution, request_id: Seq<char>, digest: Seq<u8>) -> bool {
    e.request_id@ == request_id && e.envelope_digest@ == digest
}

pub open spec fn has_execution(
    executions: Seq<Execution>,
    request_id: Seq<char>,
    digest: Seq<u8>,
) -> bool {
    exists|i: int|
        0 <= i < executions.len() && execution_of(#[trigger] executions[i], request_id, digest)
}

/// Each request has one execution row at most.
pub open spec fn executions_distinct(executions: Seq<Execution>) -> bool {
    forall|i: int, j: int|
        0 <= i < j < executions.len() ==> !execution_of(
            #[trigger] executions[j],
            (#[trigger] executions[i]).request_id@,
            executions[i].envelope_digest@,
        )
}

pub open spec fn state_name(state: ExecutionRecoveryState) -> Seq<char> {
    match state {
        ExecutionRecoveryState::NotExecuted => "not_executed"@,
        ExecutionRecoveryState::EffectUncertain => "effect_uncertain"@,
        ExecutionRecoveryState::EffectApplied => "effect_applied"@,
        ExecutionRecoveryState::PostEffectUncertain => "post_effect_uncertain"@,
        ExecutionRecoveryState::Completed => "completed"@,
    }
}

pub open spec fn named_state(name: Seq<char>) -> Option<ExecutionRecoveryState> {
    if name == "not_executed"@ {
        Some(ExecutionRecoveryState::NotExecuted)
    } else if name == "effect_uncertain"@ {
        Some(ExecutionRecoveryState::EffectUncertain)
    } else if name == "effect_applied"@ {
        Some(ExecutionRecoveryState::EffectApplied)
    } else if name == "post_effect_uncertain"@ {
        Some(ExecutionRecoveryState::PostEffectUncertain)
    } else if name == "completed"@ {
        Some(ExecutionRecoveryState::Completed)
    } else {
        None
    }
}

/// The event records that an approval was used.
pub open spec fn consumes(row: StoredRow) -> bool {
    row.event is Some && row.event->0.outcome@ == "approval_consumed"@
}

/// Why the used approvals cannot be read from the rows, if that is so: the
/// first row that does not parse, or is too late to be stored.
pub open spec fn migration_error(rows: Seq<StoredRow>) -> Option<AuditError>
    decreases rows.len(),
{
    if rows.len() == 0 {
        None
    } else if migration_error(rows.drop_last()) is Some {
        migration_error(rows.drop_last())
    } else if rows.last().event is None {
        Some(AuditError::Json)
    } else if consumes(rows.last()) && rows.last().event->0.timestamp_unix_ms > i64::MAX {
        Some(AuditError::InvalidSequence)
    } else {
        None
    }
}

impl ExecutionRecoveryState {
    pub fn as_str(self) -> (name: &'static str)
        ensures
            name@ == state_name(self),
    {
        match self {
            ExecutionRecoveryState::NotExecuted => "not_executed",
            ExecutionRecoveryState::EffectUncertain => "effect_uncertain",
            ExecutionRecoveryState::EffectApplied => "effect_applied",
            ExecutionRecoveryState::PostEffectUncertain => "post_effect_uncertain",
            ExecutionRecoveryState::Completed => "completed",
        }
    }

    pub fn parse(value: &str) -> (state: Result<ExecutionRecoveryState, AuditError>)
        ensures
            state is Ok == named_state(value@) is Some,
            state is Ok ==> state->Ok_0 == named_state(value@)->0,
            state is Err ==> state->Err_0 == AuditError::InvalidExecutionState,
    {
        if text::same_text(value, "not_executed") {
            Ok(ExecutionRecoveryState::NotExecuted)
        } else if text::same_text(value, "effect_uncertain") {
            Ok(ExecutionRecoveryState::EffectUncertain)
        } else if text::same_text(value, "effect_applied") {
            Ok(ExecutionRecoveryState::EffectApplied)
        } else if text::same_text(value, "post_effect_uncertain") {
            Ok(ExecutionRecoveryState::PostEffectUncertain)
        } else if text::same_text(value, "completed") {
            Ok(ExecutionRecoveryState::Completed)
        } else {
            Err(AuditError::InvalidExecutionState)
        }
    }
}

/// A name gives back the state it was made of.
pub proof fn state_names_round_trip(state: ExecutionRecoveryState)
    ensures
        named_state(state_name(state)) == Some(state),
{
    reveal_strlit("not_executed");
    reveal_strlit("effect_uncertain");
    reveal_strlit("effect_applied");
    reveal_strlit("post_effect_uncertain");
    reveal_strlit("completed");
    assert("not_executed"@.len() == 12);
    assert("effect_uncertain"@.len() == 16);
    assert("effect_applied"@.len() == 14);
    assert("post_effect_uncertain"@.len() == 21);
    assert("completed"@.len() == 9);
}

fn find_consumption(consumptions: &Vec<Consumption>, request_id: &str, digest: &Digest32) -> (found:
    bool)
    ensures
        found == is_consumed(consumptions@, request_id@, digest@),
{
    let mut i: usize = 0;
    while i < consumptions.len()
        invariant
            i <= consumptions@.len(),
            forall|k: int|
                0 <= k < i ==> !consumption_of(
                    #[trigger] consumptions@[k],
                    request_id@,
                    digest@,
                ),
        decreases consumptions@.len() - i,
    {
        if text::same_text(consumptions[i].request_id.as_str(), request_id) && codec::same_bytes(
            consumptions[i].envelope_digest.as_slice(),
            digest.as_slice(),
        ) {
            proof {
                assert(consumption_of(consumptions@[i as int], request_id@, digest@));
            }
            return true;
        }
        i = i + 1;
    }
    false
}

fn find_execution(executions: &Vec<Execution>, request_id: &str, digest: &Digest32) -> (found:
    Option<usize>)
    ensures
        found is Some == has_execution(executions@, request_id@, digest@),
        found is Some ==> found->0 < executions@.len() && execution_of(
            executions@[found->0 as int],
            request_id@,
            digest@,
        ),
{
    let mut i: usize = 0;
    while i < executions.len()
        invariant
            i <= executions@.len(),
            forall|k: int|
                0 <= k < i ==> !execution_of(#[trigger] executions@[k], request_id@, digest@),
        decreases executions@.len() - i,
    {
        if text::same_text(executions[i].request_id.as_str(), request_id) && codec::same_bytes(
            executions[i].envelope_digest.as_slice(),
            digest.as_slice(),
        ) {
            proof {
                assert(execution_of(executions@[i as int], request_id@, digest@));
            }
            return Some(i);
        }
        i = i + 1;
    }
    None
}

/// What happened to one attempt to take the lock file.
#[derive(Debug, Clone, Copy, PartialEq, Eq, Structural)]
pub enum LockEvent {
    /// The file was created.
    Created,
    /// The file exists.
    Held,
    /// The file exists and was left behind.
    Abandoned,
    /// A left-behind file was removed.
    Removed,
    /// A left-behind file was gone, or is open elsewhere.
    RemovalMissed,
    /// The file is open elsewhere.
    Transient,
    /// Something else went wrong.
    Failed,
}

/// What to do about the lock file next.
#[derive(Debug, Clone, Copy, PartialEq, Eq, Structural)]
pub enum LockAction {
    Enter,
    Remove,
    TryAgain,
    WaitAndTryAgain,
    GiveUp,
    Fail,
}

/// The step after an event, where `tried` attempts have been made with this
/// one.
pub open spec fn lock_step(tried: int, event: LockEvent) -> LockAction {
    match event {
        LockEvent::Created => LockAction::Enter,
        LockEvent::Abandoned => LockAction::Remove,
        LockEvent::Failed => LockAction::Fail,
        LockEvent::Removed => if tried < LOCK_RETRY_ATTEMPTS {
            LockAction::TryAgain
        } else {
            LockAction::GiveUp
        },
        LockEvent::Held | LockEvent::RemovalMissed | LockEvent::Transient => if tried
            < LOCK_RETRY_ATTEMPTS {
            LockAction::WaitAndTryAgain
        } else {
            LockAction::GiveUp
        },
    }
}

pub fn next_lock_action(tried: usize, event: LockEvent) -> (action: LockAction)
    ensures
        action == lock_step(tried as int, event),
{
    match event {
        LockEvent::Created => LockAction::Enter,
        LockEvent::Abandoned => LockAction::Remove,
        LockEvent::Failed => LockAction::Fail,
        LockEvent::Removed => if tried < LOCK_RETRY_ATTEMPTS {
            LockAction::TryAgain
        } else {
            LockAction::GiveUp
        },
        LockEvent::Held | LockEvent::RemovalMissed | LockEvent::Transient => if tried
            < LOCK_RETRY_ATTEMPTS {
            LockAction::WaitAndTryAgain
        } else {
            LockAction::GiveUp
        },
    }
}

/// A lock file that says when it was made was left behind once it is old
/// enough; of one that does not say, that is never known.
pub fn lock_is_abandoned(contents: &str, now_unix_ms: u64) -> (abandoned: bool)
    ensures
        abandoned == match text::parsed_u64(text::trim(contents@)) {
            Some(created_at) => now_unix_ms - created_at >= ABANDONED_LOCK_AGE_MS,
            None => false,
        },
{
    let raw = text::chars_of(contents);
    match text::parse_u64(text::trimmed(raw.as_slice())) {
        Some(created_at) => now_unix_ms >= created_at && now_unix_ms - created_at
            >= ABANDONED_LOCK_AGE_MS,
        None => false,
    }
}

/// A file operation that failed for the moment is tried again, but not forever.
pub fn retry_again(attempt: usize, transient: bool) -> (again: bool)
    ensures
        again == (transient && attempt + 1 < LOCK_RETRY_ATTEMPTS),
{
    transient && attempt < LOCK_RETRY_ATTEMPTS - 1
}

// ---------------------------------------------------------------------------
// The ledger

/// The outcome of looking for an event: the first row that does not parse, or
/// that is it, decides.
pub open spec fn outcome_found(
    rows: Seq<StoredRow>,
    request_id: Seq<char>,
    digest: Seq<u8>,
    outcome: Seq<char>,
) -> Result<bool, AuditError>
    decreases rows.len(),
{
    if rows.len() == 0 {
        Ok(false)
    } else if outcome_found(rows.drop_last(), request_id, digest, outcome) != Ok::<
        bool,
        AuditError,
    >(false) {
        outcome_found(rows.drop_last(), request_id, digest, outcome)
    } else if rows.last().event is None {
        Err(AuditError::Json)
    } else {
        Ok(is_outcome(rows.last().event->0@, request_id, digest, outcome))
    }
}

pub open spec fn is_outcome(
    event: EventView,
    request_id: Seq<char>,
    digest: Seq<u8>,
    outcome: Seq<char>,
) -> bool {
    event.request_id == request_id && event.envelope_digest == digest && event.outcome == outcome
}

/// Why a row cannot be read as a record, if that is so.
pub open spec fn read_error(row: StoredRow) -> Option<AuditError> {
    if row.sequence < 0 {
        Some(AuditError::InvalidSequence)
    } else if !is_hash_text(row.previous_hash@) || !is_hash_text(row.record_hash@) {
        Some(AuditError::InvalidHash)
    } else if row.event is None {
        Some(AuditError::Json)
    } else {
        None
    }
}

/// The records of an organization, in order; an error where some row cannot be
/// read, the first one's.
pub open spec fn organization_records(rows: Seq<StoredRow>, organization_id: Seq<char>) -> Result<
    Seq<RecordView>,
    AuditError,
>
    decreases rows.len(),
{
    if rows.len() == 0 {
        Ok(Seq::empty())
    } else {
        match organization_records(rows.drop_last(), organization_id) {
            Err(error) => Err(error),
            Ok(records) => if read_error(rows.last()) is Some {
                Err(read_error(rows.last())->0)
            } else if row_record(rows.last()).event.organization_id == organization_id {
                Ok(records.push(row_record(rows.last())))
            } else {
                Ok(records)
            },
        }
    }
}

proof fn lemma_outcome_prefix(
    rows: Seq<StoredRow>,
    i: int,
    request_id: Seq<char>,
    digest: Seq<u8>,
    outcome: Seq<char>,
)
    requires
        0 <= i <= rows.len(),
        outcome_found(rows.take(i), request_id, digest, outcome) != Ok::<bool, AuditError>(false),
    ensures
        outcome_found(rows, request_id, digest, outcome) == outcome_found(
            rows.take(i),
            request_id,
            digest,
            outcome,
        ),
    decreases rows.len() - i,
{
    if i < rows.len() {
        assert(rows.take(i + 1).drop_last() =~= rows.take(i));
        lemma_outcome_prefix(rows, i + 1, request_id, digest, outcome);
    } else {
        assert(rows.take(i) =~= rows);
    }
}

proof fn lemma_records_prefix(rows: Seq<StoredRow>, i: int, organization_id: Seq<char>)
    requires
        0 <= i <= rows.len(),
        organization_records(rows.take(i), organization_id) is Err,
    ensures
        organization_records(rows, organization_id) == organization_records(
            rows.take(i),
            organization_id,
        ),
    decreases rows.len() - i,
{
    if i < rows.len() {
        assert(rows.take(i + 1).drop_last() =~= rows.take(i));
        lemma_records_prefix(rows, i + 1, organization_id);
    } else {
        assert(rows.take(i) =~= rows);
    }
}

proof fn lemma_migration_prefix(rows: Seq<StoredRow>, i: int)
    requires
        0 <= i <= rows.len(),
        migration_error(rows.take(i)) is Some,
    ensures
        migration_error(rows) == migration_error(rows.take(i)),
    decreases rows.len() - i,
{
    if i < rows.len() {
        assert(rows.take(i + 1).drop_last() =~= rows.take(i));
        lemma_migration_prefix(rows, i + 1);
    } else {
        assert(rows.take(i) =~= rows);
    }
}

/// Reads what is needed of the end of the rows.
fn load_db_last(rows: &Vec<StoredRow>) -> (end: Result<Option<(u64, Digest32)>, AuditError>)
    ensures
        match end {
            Err(error) => rows_end(rows@) == Err::<Option<(int, Seq<u8>)>, AuditError>(error),
            Ok(None) => rows_end(rows@) == Ok::<Option<(int, Seq<u8>)>, AuditError>(None),
            Ok(Some((sequence, hash))) => rows_end(rows@) == Ok::<
                Option<(int, Seq<u8>)>,
                AuditError,
            >(Some((sequence as int, hash@))) && sequence <= i64::MAX,
        },
{
    if rows.len() == 0 {
        return Ok(None);
    }
    let row = &rows[rows.len() - 1];
    if row.sequence < 0 {
        return Err(AuditError::InvalidSequence);
    }
    match decode_hash(row.record_hash.as_str()) {
        Err(error) => Err(error),
        Ok(hash) => Ok(Some((row.sequence as u64, hash))),
    }
}

fn load_jsonl_last(journal: &Vec<AuditRecord>) -> (end: Option<(u64, Digest32)>)
    ensures
        match end {
            None => journal_end(journal@) is None,
            Some((sequence, hash)) => journal_end(journal@) == Some((sequence as int, hash@)),
        },
{
    if journal.len() == 0 {
        return None;
    }
    let record = &journal[journal.len() - 1];
    Some((record.sequence, record.record_hash))
}

fn same_end(a: &Option<(u64, Digest32)>, b: &Option<(u64, Digest32)>) -> (r: bool)
    ensures
        r == match (*a, *b) {
            (None, None) => true,
            (Some((x, h)), Some((y, g))) => x == y && h@ == g@,
            _ => false,
        },
{
    match (a, b) {
        (None, None) => true,
        (Some((x, h)), Some((y, g))) => *x == *y && codec::same_bytes(h.as_slice(), g.as_slice()),
        _ => false,
    }
}

/// Every approval that an event says was used is in the table.
pub open spec fn migrated(rows: Seq<StoredRow>, consumptions: Seq<Consumption>) -> bool {
    forall|i: int|
        0 <= i < rows.len() && consumes(#[trigger] rows[i]) ==> is_consumed(
            consumptions,
            rows[i].event->0.request_id@,
            rows[i].event->0.envelope_digest@,
        )
}

/// Some event says that this approval was used, at this time.
pub open spec fn stems_from(rows: Seq<StoredRow>, c: Consumption) -> bool {
    exists|i: int|
        0 <= i < rows.len() && consumes(#[trigger] rows[i]) && consumption_of(
            c,
            rows[i].event->0.request_id@,
            rows[i].event->0.envelope_digest@,
        ) && c.consumed_at_unix_ms == rows[i].event->0.timestamp_unix_ms
}

/// `b` is `a` with rows for used approvals behind it, none of them twice.
pub open spec fn only_migrated(
    rows: Seq<StoredRow>,
    a: Seq<Consumption>,
    b: Seq<Consumption>,
) -> bool {
    &&& a.len() <= b.len()
    &&& b.take(a.len() as int) == a
    &&& forall|k: int|
        a.len() <= k < b.len() ==> stems_from(rows, #[trigger] b[k])
    &&& forall|j: int, k: int|
        0 <= j < k && a.len() <= k < b.len() ==> !consumption_of(
            #[trigger] b[k],
            (#[trigger] b[j]).request_id@,
            b[j].envelope_digest@,
        )
}

/// Brings the approvals that events say were used into the table.
fn migrate_approval_consumptions(rows: &Vec<StoredRow>, consumptions: &mut Vec<Consumption>) -> (r:
    Result<(), AuditError>)
    ensures
        r is Err == migration_error(rows@) is Some,
        r is Err ==> r->Err_0 == migration_error(rows@)->0,
        r is Ok ==> migrated(rows@, final(consumptions)@),
        r is Ok ==> only_migrated(rows@, old(consumptions)@, final(consumptions)@),
{
    let ghost a = consumptions@;
    let mut i: usize = 0;
    proof {
        assert(a.take(a.len() as int) =~= a);
        assert(migration_error(rows@.take(0)) is None);
    }
    while i < rows.len()
        invariant
            i <= rows@.len(),
            migration_error(rows@.take(i as int)) is None,
            a.len() <= consumptions@.len(),
            consumptions@.take(a.len() as int) == a,
            forall|k: int|
                0 <= k < i && consumes(#[trigger] rows@[k]) ==> is_consumed(
                    consumptions@,
                    rows@[k].event->0.request_id@,
                    rows@[k].event->0.envelope_digest@,
                ),
            forall|k: int|
                a.len() <= k < consumptions@.len() ==> stems_from(
                    rows@,
                    #[trigger] consumptions@[k],
                ),
            forall|j: int, k: int|
                0 <= j < k && a.len() <= k < consumptions@.len() ==> !consumption_of(
                    #[trigger] consumptions@[k],
                    (#[trigger] consumptions@[j]).request_id@,
                    consumptions@[j].envelope_digest@,
                ),
        decreases rows@.len() - i,
    {
        let ghost before = consumptions@;
        proof {
            assert(rows@.take(i + 1).drop_last() =~= rows@.take(i as int));
            assert(rows@.take(i + 1).last() == rows@[i as int]);
        }
        match &rows[i].event {
            None => {
                proof {
                    lemma_migration_prefix(rows@, i + 1);
                }
                return Err(AuditError::Json);
            },
            Some(event) => {
                if text::same_text(event.outcome.as_str(), "approval_consumed") {
                    if event.timestamp_unix_ms > i64::MAX as u64 {
                        proof {
                            lemma_migration_prefix(rows@, i + 1);
                        }
                        return Err(AuditError::InvalidSequence);
                    }
                    if !find_consumption(
                        consumptions,
                        event.request_id.as_str(),
                        &event.envelope_digest,
                    ) {
                        consumptions.push(
                            Consumption {
                                request_id: event.request_id.clone(),
                                envelope_digest: event.envelope_digest,
                                consumed_at_unix_ms: event.timestamp_unix_ms as i64,
                            },
                        );
                        proof {
                            lemma_consumed_push(before, consumptions@.last());
                            assert(consumptions@ =~= before.push(consumptions@.last()));
                            assert(consumptions@.take(a.len() as int) =~= before.take(
                                a.len() as int,
                            ));
                            assert(consumes(rows@[i as int]));
                            assert(stems_from(rows@, consumptions@[before.len() as int]));
                        }
                    }
                }
            },
        }
        i = i + 1;
    }
    proof {
        assert(rows@.take(rows@.len() as int) =~= rows@);
    }
    Ok(())
}

/// A row more in the table uses up one approval more.
proof fn lemma_consumed_push(list: Seq<Consumption>, c: Consumption)
    ensures
        forall|id: Seq<char>, digest: Seq<u8>| #[trigger]
            is_consumed(list.push(c), id, digest) == (is_consumed(list, id, digest)
                || consumption_of(c, id, digest)),
{
    assert forall|id: Seq<char>, digest: Seq<u8>| #[trigger]
        is_consumed(list.push(c), id, digest) == (is_consumed(list, id, digest) || consumption_of(
            c,
            id,
            digest,
        )) by {
        if is_consumed(list, id, digest) {
            let i = choose|i: int|
                0 <= i < list.len() && consumption_of(#[trigger] list[i], id, digest);
            assert(list.push(c)[i] == list[i]);
        }
        if consumption_of(c, id, digest) {
            assert(list.push(c)[list.len() as int] == c);
        }
        if is_consumed(list.push(c), id, digest) {
            let i = choose|i: int|
                0 <= i < list.push(c).len() && consumption_of(
                    #[trigger] list.push(c)[i],
                    id,
                    digest,
                );
            if i < list.len() {
                assert(list[i] == list.push(c)[i]);
            }
        }
    }
}

/// `after` is `before` with the execution row of one request brought up to
/// date.
pub open spec fn state_noted(
    before: Seq<Execution>,
    after: Seq<Execution>,
    request_id: Seq<char>,
    digest: Seq<u8>,
    state: ExecutionRecoveryState,
    updated_at_unix_ms: u64,
) -> bool {
    exists|i: int|
        {
            &&& 0 <= i < before.len()
            &&& execution_of(#[trigger] before[i], request_id, digest)
            &&& after == before.update(i, after[i])
            &&& execution_of(after[i], request_id, digest)
            &&& after[i].state@ == state_name(state)
            &&& after[i].updated_at_unix_ms == updated_at_unix_ms
        }
}

impl Ledger {
    /// A ledger over stores that agree, with every used approval known.
    pub fn open(
        rows: Vec<StoredRow>,
        journal: Vec<AuditRecord>,
        consumptions: Vec<Consumption>,
        executions: Vec<Execution>,
    ) -> (ledger: Result<Ledger, AuditError>)
        ensures
            ledger is Err == (migration_error(rows@) is Some || ends_error(rows@, journal@) is Some),
            ledger is Err ==> ledger->Err_0 == (if migration_error(rows@) is Some {
                migration_error(rows@)->0
            } else {
                ends_error(rows@, journal@)->0
            }),
            ledger is Ok ==> {
                let l = ledger->Ok_0;
                &&& l.rows == rows
                &&& l.journal == journal
                &&& l.executions == executions
                &&& migrated(rows@, l.consumptions@)
                &&& only_migrated(rows@, consumptions@, l.consumptions@)
                &&& l.last_sequence == end_sequence(rows_end(rows@)->Ok_0)
                &&& l.last_hash@ == end_hash(rows_end(rows@)->Ok_0)
            },
    {
        let mut consumptions = consumptions;
        if let Err(error) = migrate_approval_consumptions(&rows, &mut consumptions) {
            return Err(error);
        }
        let db_last = match load_db_last(&rows) {
            Err(error) => {
                return Err(error);
            },
            Ok(end) => end,
        };
        let file_last = load_jsonl_last(&journal);
        if !same_end(&db_last, &file_last) {
            return Err(AuditError::Divergence);
        }
        let (last_sequence, last_hash) = match db_last {
            Some((sequence, hash)) => (sequence, hash),
            None => (0, zero_digest()),
        };
        Ok(Ledger { rows, journal, consumptions, executions, last_sequence, last_hash })
    }

    /// Chains an event to both stores, if they agree.
    pub fn append(&mut self, event: AuditEvent) -> (record: Result<AuditRecord, AuditError>)
        requires
            has_room(*old(self), 1),
        ensures
            record is Err == ends_error(old(self).rows@, old(self).journal@) is Some,
            record is Err ==> {
                &&& record->Err_0 == ends_error(old(self).rows@, old(self).journal@)->0
                &&& *final(self) == *old(self)
            },
            record is Ok ==> appends(*old(self), *final(self), event@),
            record is Ok ==> record->Ok_0@ == next_record(
                rows_end(old(self).rows@)->Ok_0,
                event@,
            ),
    {
        let db_last = match load_db_last(&self.rows) {
            Err(error) => {
                return Err(error);
            },
            Ok(end) => end,
        };
        let file_last = load_jsonl_last(&self.journal);
        if !same_end(&db_last, &file_last) {
            return Err(AuditError::Divergence);
        }
        let (last_sequence, last_hash) = match db_last {
            Some((sequence, hash)) => (sequence, hash),
            None => (0, zero_digest()),
        };
        let sequence: u64 = last_sequence + 1;
        let event_json = encode_event(&event);
        let record_hash = hash_record(sequence, &last_hash, event_json.as_str().as_bytes());
        let kept = copy_event(&event);
        let journaled = copy_event(&event);
        self.rows.push(
            StoredRow {
                sequence: sequence as i64,
                previous_hash: codec::to_hex(last_hash.as_slice()),
                record_hash: codec::to_hex(record_hash.as_slice()),
                event_json,
                event: Some(kept),
            },
        );
        let ghost before = self.journal@;
        self.journal.push(
            AuditRecord { sequence, previous_hash: last_hash, record_hash, event: journaled },
        );
        proof {
            assert(self.rows@.drop_last() =~= old(self).rows@);
            assert(record_views(self.journal@) =~= record_views(before).push(
                self.journal@.last()@,
            ));
        }
        self.last_sequence = sequence;
        self.last_hash = record_hash;
        Ok(AuditRecord { sequence, previous_hash: last_hash, record_hash, event })
    }

    /// Checks every hash of the chain, and says whether both stores hold the same.
    fn check_rows(&self) -> (r: Result<bool, AuditError>)
        ensures
            r is Ok == chain_holds(self.rows@),
            r is Ok ==> r->Ok_0 == (row_records(self.rows@) == record_views(self.journal@)),
            r is Err ==> chain_fails(self.rows@, r->Err_0),
    {
        let mut previous = zero_digest();
        let mut i: usize = 0;
        let mut same = self.rows.len() == self.journal.len();
        while i < self.rows.len()
            invariant
                i <= self.rows@.len(),
                previous@ == hash_before(self.rows@, i as int),
                forall|j: int| 0 <= j < i ==> #[trigger] row_holds(self.rows@, j),
                same ==> self.rows@.len() == self.journal@.len(),
                same == (self.rows@.len() == self.journal@.len() && forall|j: int|
                    0 <= j < i ==> row_record(#[trigger] self.rows@[j]) == self.journal@[j]@),
            decreases self.rows@.len() - i,
        {
            let row = &self.rows[i];
            if row.sequence < 0 {
                assert(!row_holds(self.rows@, i as int));
                return Err(AuditError::InvalidSequence);
            }
            let sequence: u64 = row.sequence as u64;
            let stored_previous = match decode_hash(row.previous_hash.as_str()) {
                Err(error) => {
                    assert(!row_holds(self.rows@, i as int));
                    return Err(error);
                },
                Ok(hash) => hash,
            };
            let stored_record = match decode_hash(row.record_hash.as_str()) {
                Err(error) => {
                    assert(!row_holds(self.rows@, i as int));
                    return Err(error);
                },
                Ok(hash) => hash,
            };
            let computed = hash_record(sequence, &previous, row.event_json.as_str().as_bytes());
            if !codec::same_bytes(stored_previous.as_slice(), previous.as_slice())
                || !codec::same_bytes(computed.as_slice(), stored_record.as_slice()) {
                assert(!row_holds(self.rows@, i as int));
                return Err(AuditError::HashMismatch(sequence));
            }
            match &row.event {
                None => {
                    assert(!row_holds(self.rows@, i as int));
                    return Err(AuditError::Json);
                },
                Some(event) => {
                    assert(row_holds(self.rows@, i as int));
                    if same {
                        let filed = &self.journal[i];
                        same = filed.sequence == sequence && codec::same_bytes(
                            filed.previous_hash.as_slice(),
                            stored_previous.as_slice(),
                        ) && codec::same_bytes(
                            filed.record_hash.as_slice(),
                            stored_record.as_slice(),
                        ) && same_event(&filed.event, event);
                    }
                },
            }
            previous = stored_record;
            i = i + 1;
        }
        if same {
            proof {
                assert(row_records(self.rows@) =~= record_views(self.journal@));
            }
            Ok(true)
        } else {
            proof {
                if row_records(self.rows@) == record_views(self.journal@) {
                    assert(row_records(self.rows@).len() == record_views(self.journal@).len());
                    assert forall|j: int| 0 <= j < self.rows@.len() implies row_record(
                        #[trigger] self.rows@[j],
                    ) == self.journal@[j]@ by {
                        assert(row_records(self.rows@)[j] == record_views(self.journal@)[j]);
                    }
                }
            }
            Ok(false)
        }
    }

    /// Checks every hash of the chain.
    pub fn verify_chain(&self) -> (r: Result<(), AuditError>)
        ensures
            r is Ok == chain_holds(self.rows@),
            r is Err ==> chain_fails(self.rows@, r->Err_0),
    {
        match self.check_rows() {
            Err(error) => Err(error),
            Ok(_) => Ok(()),
        }
    }

    /// Checks every hash of the chain, and that both stores hold the same.
    pub fn verify_integrity(&self) -> (r: Result<(), AuditError>)
        ensures
            r is Ok == (chain_holds(self.rows@) && row_records(self.rows@) == record_views(
                self.journal@,
            )),
            r is Err && chain_holds(self.rows@) ==> r->Err_0 == AuditError::Divergence,
            r is Err && !chain_holds(self.rows@) ==> chain_fails(self.rows@, r->Err_0),
    {
        match self.check_rows() {
            Err(error) => Err(error),
            Ok(true) => Ok(()),
            Ok(false) => Err(AuditError::Divergence),
        }
    }

    pub fn last_sequence(&self) -> (sequence: u64)
        ensures
            sequence == self.last_sequence,
    {
        self.last_sequence
    }

    pub fn last_hash(&self) -> (hash: Digest32)
        ensures
            hash == self.last_hash,
    {
        self.last_hash
    }

    /// Was an event with this outcome recorded for the request?
    pub fn has_outcome_for(&self, request_id: &str, envelope_digest: &Digest32, outcome: &str) -> (r:
        Result<bool, AuditError>)
        ensures
            r == outcome_found(self.rows@, request_id@, envelope_digest@, outcome@),
    {
        let mut i: usize = 0;
        while i < self.rows.len()
            invariant
                i <= self.rows@.len(),
                outcome_found(
                    self.rows@.take(i as int),
                    request_id@,
                    envelope_digest@,
                    outcome@,
                ) == Ok::<bool, AuditError>(false),
            decreases self.rows@.len() - i,
        {
            proof {
                assert(self.rows@.take(i + 1).drop_last() =~= self.rows@.take(i as int));
                assert(self.rows@.take(i + 1).last() == self.rows@[i as int]);
            }
            match &self.rows[i].event {
                None => {
                    proof {
                        lemma_outcome_prefix(
                            self.rows@,
                            i + 1,
                            request_id@,
                            envelope_digest@,
                            outcome@,
                        );
                    }
                    return Err(AuditError::Json);
                },
                Some(event) => {
                    if text::same_text(event.request_id.as_str(), request_id) && codec::same_bytes(
                        event.envelope_digest.as_slice(),
                        envelope_digest.as_slice(),
                    ) && text::same_text(event.outcome.as_str(), outcome) {
                        proof {
                            lemma_outcome_prefix(
                                self.rows@,
                                i + 1,
                                request_id@,
                                envelope_digest@,
                                outcome@,
                            );
                        }
                        return Ok(true);
                    }
                },
            }
            i = i + 1;
        }
        proof {
            assert(self.rows@.take(self.rows@.len() as int) =~= self.rows@);
        }
        Ok(false)
    }

    /// The records of one organization, in order.
    pub fn records_for_organization(&self, organization_id: &str) -> (records: Result<
        Vec<AuditRecord>,
        AuditError,
    >)
        ensures
            match records {
                Err(error) => organization_records(self.rows@, organization_id@) == Err::<
                    Seq<RecordView>,
                    AuditError,
                >(error),
                Ok(list) => organization_records(self.rows@, organization_id@) == Ok::<
                    Seq<RecordView>,
                    AuditError,
                >(record_views(list@)),
            },
    {
        let mut out: Vec<AuditRecord> = Vec::new();
        let mut i: usize = 0;
        proof {
            assert(record_views(out@) =~= Seq::<RecordView>::empty());
        }
        while i < self.rows.len()
            invariant
                i <= self.rows@.len(),
                organization_records(self.rows@.take(i as int), organization_id@) == Ok::<
                    Seq<RecordView>,
                    AuditError,
                >(record_views(out@)),
            decreases self.rows@.len() - i,
        {
            let ghost rows = self.rows@;
            proof {
                assert(rows.take(i + 1).drop_last() =~= rows.take(i as int));
                assert(rows.take(i + 1).last() == rows[i as int]);
                if read_error(rows[i as int]) is Some {
                    lemma_records_prefix(rows, i + 1, organization_id@);
                }
            }
            let row = &self.rows[i];
            if row.sequence < 0 {
                return Err(AuditError::InvalidSequence);
            }
            let previous_hash = match decode_hash(row.previous_hash.as_str()) {
                Err(error) => {
                    return Err(error);
                },
                Ok(hash) => hash,
            };
            let record_hash = match decode_hash(row.record_hash.as_str()) {
                Err(error) => {
                    return Err(error);
                },
                Ok(hash) => hash,
            };
            let event = match &row.event {
                None => {
                    return Err(AuditError::Json);
                },
                Some(event) => event,
            };
            if text::same_text(event.organization_id.as_str(), organization_id) {
                let ghost before = out@;
                out.push(
                    AuditRecord {
                        sequence: row.sequence as u64,
                        previous_hash,
                        record_hash,
                        event: copy_event(event),
                    },
                );
                proof {
                    assert(record_views(out@) =~= record_views(before).push(
                        row_record(rows[i as int]),
                    ));
                }
            }
            i = i + 1;
        }
        proof {
            assert(self.rows@.take(self.rows@.len() as int) =~= self.rows@);
        }
        Ok(out)
    }

    /// Uses up the approval of a request, once: true for the call that did.
    pub fn claim_approval_consumed(
        &mut self,
        request_id: &str,
        envelope_digest: &Digest32,
        consumed_at_unix_ms: u64,
    ) -> (claimed: Result<bool, AuditError>)
        ensures
            final(self).rows == old(self).rows,
            final(self).journal == old(self).journal,
            final(self).last_sequence == old(self).last_sequence,
            final(self).last_hash == old(self).last_hash,
            claimed == claim_outcome(
                old(self).consumptions@,
                old(self).executions@,
                request_id@,
                envelope_digest@,
                consumed_at_unix_ms,
            ),
            claimed != Ok::<bool, AuditError>(true) ==> *final(self) == *old(self),
            claimed == Ok::<bool, AuditError>(true) ==> {
                &&& final(self).consumptions@.drop_last() == old(self).consumptions@
                &&& final(self).consumptions@.len() == old(self).consumptions@.len() + 1
                &&& consumption_of(
                    final(self).consumptions@.last(),
                    request_id@,
                    envelope_digest@,
                )
                &&& final(self).consumptions@.last().consumed_at_unix_ms == consumed_at_unix_ms
                &&& final(self).executions@.drop_last() == old(self).executions@
                &&& final(self).executions@.len() == old(self).executions@.len() + 1
                &&& execution_of(final(self).executions@.last(), request_id@, envelope_digest@)
                &&& final(self).executions@.last().state@ == state_name(
                    ExecutionRecoveryState::NotExecuted,
                )
                &&& final(self).executions@.last().updated_at_unix_ms == consumed_at_unix_ms
            },
    {
        if consumed_at_unix_ms > i64::MAX as u64 {
            return Err(AuditError::InvalidSequence);
        }
        if find_consumption(&self.consumptions, request_id, envelope_digest) {
            return Ok(false);
        }
        if find_execution(&self.executions, request_id, envelope_digest).is_some() {
            return Err(AuditError::Store);
        }
        self.consumptions.push(
            Consumption {
                request_id: text::copied(request_id),
                envelope_digest: *envelope_digest,
                consumed_at_unix_ms: consumed_at_unix_ms as i64,
            },
        );
        self.executions.push(
            Execution {
                request_id: text::copied(request_id),
                envelope_digest: *envelope_digest,
                state: text::copied(ExecutionRecoveryState::NotExecuted.as_str()),
                updated_at_unix_ms: consumed_at_unix_ms as i64,
            },
        );
        proof {
            assert(self.consumptions@.drop_last() =~= old(self).consumptions@);
            assert(self.executions@.drop_last() =~= old(self).executions@);
        }
        Ok(true)
    }

    /// Notes how far the execution of a used approval has come.
    pub fn set_execution_recovery_state(
        &mut self,
        request_id: &str,
        envelope_digest: &Digest32,
        state: ExecutionRecoveryState,
        updated_at_unix_ms: u64,
    ) -> (r: Result<(), AuditError>)
        ensures
            final(self).rows == old(self).rows,
            final(self).journal == old(self).journal,
            final(self).consumptions == old(self).consumptions,
            final(self).last_sequence == old(self).last_sequence,
            final(self).last_hash == old(self).last_hash,
            r is Ok == (updated_at_unix_ms <= i64::MAX && has_execution(
                old(self).executions@,
                request_id@,
                envelope_digest@,
            )),
            r is Err ==> *final(self) == *old(self),
            r is Err ==> r->Err_0 == (if updated_at_unix_ms > i64::MAX {
                AuditError::InvalidSequence
            } else {
                AuditError::MissingExecutionState
            }),
            r is Ok ==> state_noted(
                old(self).executions@,
                final(self).executions@,
                request_id@,
                envelope_digest@,
                state,
                updated_at_unix_ms,
            ),
    {
        if updated_at_unix_ms > i64::MAX as u64 {
            return Err(AuditError::InvalidSequence);
        }
        match find_execution(&self.executions, request_id, envelope_digest) {
            None => Err(AuditError::MissingExecutionState),
            Some(i) => {
                let ghost before = self.executions@;
                let updated = Execution {
                    request_id: text::copied(request_id),
                    envelope_digest: *envelope_digest,
                    state: text::copied(state.as_str()),
                    updated_at_unix_ms: updated_at_unix_ms as i64,
                };
                self.executions.set(i, updated);
                proof {
                    assert(execution_of(before[i as int], request_id@, envelope_digest@));
                    assert(self.executions@ =~= before.update(i as int, self.executions@[i as int]));
                }
                Ok(())
            },
        }
    }

    /// How far the execution of a used approval has come.
    pub fn execution_recovery_state(&self, request_id: &str, envelope_digest: &Digest32) -> (state:
        Result<Option<ExecutionRecoveryState>, AuditError>)
        requires
            executions_distinct(self.executions@),
        ensures
            !has_execution(self.executions@, request_id@, envelope_digest@) ==> state == Ok::<
                Option<ExecutionRecoveryState>,
                AuditError,
            >(None),
            forall|i: int|
                0 <= i < self.executions@.len() && execution_of(
                    #[trigger] self.executions@[i],
                    request_id@,
                    envelope_digest@,
                ) ==> state == (match named_state(self.executions@[i].state@) {
                    Some(known) => Ok::<Option<ExecutionRecoveryState>, AuditError>(Some(known)),
                    None => Err(AuditError::InvalidExecutionState),
                }),
    {
        match find_execution(&self.executions, request_id, envelope_digest) {
            None => Ok(None),
            Some(at) => {
                proof {
                    assert forall|i: int|
                        0 <= i < self.executions@.len() && execution_of(
                            #[trigger] self.executions@[i],
                            request_id@,
                            envelope_digest@,
                        ) implies i == at by {
                        assert(execution_of(
                            self.executions@[at as int],
                            request_id@,
                            envelope_digest@,
                        ));
                    }
                }
                match ExecutionRecoveryState::parse(self.executions[at].state.as_str()) {
                    Err(error) => Err(error),
                    Ok(known) => Ok(Some(known)),
                }
            },
        }
    }
}

/// What claiming an approval gives.
pub open spec fn claim_outcome(
    consumptions: Seq<Consumption>,
    executions: Seq<Execution>,
    request_id: Seq<char>,
    digest: Seq<u8>,
    consumed_at_unix_ms: u64,
) -> Result<bool, AuditError> {
    if consumed_at_unix_ms > i64::MAX {
        Err(AuditError::InvalidSequence)
    } else if is_consumed(consumptions, request_id, digest) {
        Ok(false)
    } else if has_execution(executions, request_id, digest) {
        Err(AuditError::Store)
    } else {
        Ok(true)
    }
}

// ---------------------------------------------------------------------------
// Laws

/// Appending to a ledger whose chain holds and whose stores agree leaves both
/// so.
pub proof fn append_keeps_integrity(before: Ledger, after: Ledger, event: EventView)
    requires
        chain_holds(before.rows@),
        row_records(before.rows@) == record_views(before.journal@),
        has_room(before, 1),
        appends(before, after, event),
    ensures
        ends_error(before.rows@, before.journal@) is None,
        chain_holds(after.rows@),
        row_records(after.rows@) == record_views(after.journal@),
{
    let n = before.rows@.len() as int;
    let next = next_record(rows_end(before.rows@)->Ok_0, event);
    let row = after.rows@[n];
    lemma_ends_agree(before);
    assert(end_hash(rows_end(before.rows@)->Ok_0) == hash_before(before.rows@, n));
    if n > 0 {
        assert(row_holds(before.rows@, n - 1));
        assert(after.rows@[n - 1] == after.rows@.drop_last()[n - 1]);
    }
    assert(hash_before(after.rows@, n) == hash_before(before.rows@, n));
    codec::hex_round_trip(next.previous_hash);
    codec::hex_round_trip(next.record_hash);
    assert(zero_hash().len() == 32);
    assert(row_holds(after.rows@, n));
    assert forall|i: int| 0 <= i < after.rows@.len() implies #[trigger] row_holds(after.rows@, i) by {
        if i < n {
            assert(after.rows@[i] == after.rows@.drop_last()[i]);
            if i > 0 {
                assert(after.rows@[i - 1] == after.rows@.drop_last()[i - 1]);
            }
            assert(row_holds(before.rows@, i));
        }
    }
    assert(row_record(row) == next);
    assert(row_records(after.rows@) =~= row_records(before.rows@).push(next)) by {
        assert forall|i: int| 0 <= i < n implies row_records(after.rows@)[i] == row_records(
            before.rows@,
        )[i] by {
            assert(after.rows@[i] == after.rows@.drop_last()[i]);
        }
    }
}

/// Every row can be read.
pub open spec fn rows_read(rows: Seq<StoredRow>) -> bool {
    forall|i: int| 0 <= i < rows.len() ==> (#[trigger] rows[i]).event is Some
}

proof fn lemma_read_rows_answer(
    rows: Seq<StoredRow>,
    request_id: Seq<char>,
    digest: Seq<u8>,
    outcome: Seq<char>,
)
    requires
        rows_read(rows),
    ensures
        outcome_found(rows, request_id, digest, outcome) is Ok,
    decreases rows.len(),
{
    if rows.len() > 0 {
        let fewer = rows.drop_last();
        assert forall|i: int| 0 <= i < fewer.len() implies (#[trigger] fewer[i]).event is Some by {
            assert(fewer[i] == rows[i]);
        }
        lemma_read_rows_answer(fewer, request_id, digest, outcome);
        assert(rows[rows.len() - 1].event is Some);
    }
}

/// What was recorded is found.
pub proof fn recorded_outcomes_are_found(before: Ledger, after: Ledger, event: EventView)
    requires
        appends(before, after, event),
        rows_read(before.rows@),
    ensures
        rows_read(after.rows@),
        outcome_found(after.rows@, event.request_id, event.envelope_digest, event.outcome) == Ok::<
            bool,
            AuditError,
        >(true),
{
    lemma_read_rows_answer(before.rows@, event.request_id, event.envelope_digest, event.outcome);
    assert forall|i: int| 0 <= i < after.rows@.len() implies (
    #[trigger] after.rows@[i]).event is Some by {
        if i < before.rows@.len() {
            assert(after.rows@[i] == after.rows@.drop_last()[i]);
        }
    }
    let found = outcome_found(
        before.rows@,
        event.request_id,
        event.envelope_digest,
        event.outcome,
    );
    assert(found == Ok::<bool, AuditError>(found->Ok_0));
    if found->Ok_0 {
        assert(found == Ok::<bool, AuditError>(true));
    } else {
        assert(found == Ok::<bool, AuditError>(false));
    }
    assert(is_outcome(
        after.rows@.last().event->0@,
        event.request_id,
        event.envelope_digest,
        event.outcome,
    ));
}

/// What was appended ends both stores alike, so that more can be.
pub proof fn appended_ends_agree(before: Ledger, after: Ledger, event: EventView)
    requires
        has_room(before, 1),
        ends_error(before.rows@, before.journal@) is None,
        appends(before, after, event),
    ensures
        ends_error(after.rows@, after.journal@) is None,
{
    let next = next_record(rows_end(before.rows@)->Ok_0, event);
    let n = after.journal@.len() as int;
    codec::hex_round_trip(next.record_hash);
    assert(record_views(before.journal@).push(next).len() == before.journal@.len() + 1);
    assert(record_views(after.journal@).len() == n);
    assert(record_views(after.journal@)[n - 1] == after.journal@[n - 1]@);
    assert(after.journal@[n - 1]@ == next);
    assert(rows_end(after.rows@)->Ok_0 == journal_end(after.journal@));
}

/// Stores that hold the same records end alike.
proof fn lemma_ends_agree(ledger: Ledger)
    requires
        chain_holds(ledger.rows@),
        row_records(ledger.rows@) == record_views(ledger.journal@),
    ensures
        ends_error(ledger.rows@, ledger.journal@) is None,
        rows_end(ledger.rows@) is Ok,
{
    let n = ledger.rows@.len() as int;
    assert(row_records(ledger.rows@).len() == ledger.rows@.len());
    assert(record_views(ledger.journal@).len() == ledger.journal@.len());
    if n > 0 {
        assert(row_holds(ledger.rows@, n - 1));
        assert(row_records(ledger.rows@)[n - 1] == record_views(ledger.journal@)[n - 1]);
        assert(record_views(ledger.journal@)[n - 1] == ledger.journal@[n - 1]@);
        assert(row_records(ledger.rows@)[n - 1] == row_record(ledger.rows@[n - 1]));
        assert(rows_end(ledger.rows@)->Ok_0 == journal_end(ledger.journal@));
    }
}

/// In a chain that holds, every record carries the hash of the one before it,
/// and its own hash covers that, its number and its text.
pub proof fn chain_links_every_record(rows: Seq<StoredRow>, i: int)
    requires
        chain_holds(rows),
        0 <= i < rows.len(),
    ensures
        row_record(rows[i]).previous_hash == hash_before(rows, i),
        row_record(rows[i]).record_hash == chained_hash(
            rows[i].sequence as int,
            hash_before(rows, i),
            encode_utf8(rows[i].event_json@),
        ),
{
    assert(row_holds(rows, i));
}

/// A changed text is noticed, unless it hashes to the very same value.
pub proof fn altered_text_breaks_the_chain(rows: Seq<StoredRow>, i: int, altered: StoredRow)
    requires
        chain_holds(rows),
        0 <= i < rows.len(),
        altered.sequence == rows[i].sequence,
        altered.previous_hash@ == rows[i].previous_hash@,
        altered.record_hash@ == rows[i].record_hash@,
        chained_hash(
            altered.sequence as int,
            hash_before(rows, i),
            encode_utf8(altered.event_json@),
        ) != chained_hash(
            rows[i].sequence as int,
            hash_before(rows, i),
            encode_utf8(rows[i].event_json@),
        ),
    ensures
        !chain_holds(rows.update(i, altered)),
{
    let changed = rows.update(i, altered);
    assert(row_holds(rows, i));
    assert(hash_before(changed, i) == hash_before(rows, i));
    assert(!row_holds(changed, i));
}

/// An approval is used up once: whoever claims it again is told that it was,
/// and it stays used up.
pub proof fn approvals_are_used_once(
    before: Ledger,
    after: Ledger,
    request_id: Seq<char>,
    digest: Seq<u8>,
    at: u64,
    later: u64,
)
    requires
        claim_outcome(before.consumptions@, before.executions@, request_id, digest, at) == Ok::<
            bool,
            AuditError,
        >(true),
        after.consumptions@.drop_last() == before.consumptions@,
        after.consumptions@.len() == before.consumptions@.len() + 1,
        consumption_of(after.consumptions@.last(), request_id, digest),
        later <= i64::MAX,
    ensures
        claim_outcome(after.consumptions@, after.executions@, request_id, digest, later) == Ok::<
            bool,
            AuditError,
        >(false),
        forall|id: Seq<char>, other: Seq<u8>|
            (id != request_id || other != digest) ==> #[trigger] is_consumed(
                after.consumptions@,
                id,
                other,
            ) == is_consumed(before.consumptions@, id, other),
{
    let c = after.consumptions@.last();
    assert(after.consumptions@ =~= before.consumptions@.push(c));
    lemma_consumed_push(before.consumptions@, c);
}

/// What an organization reads belongs to it.
pub proof fn organizations_read_their_own_records(rows: Seq<StoredRow>, organization_id: Seq<char>, i: int)
    requires
        organization_records(rows, organization_id) is Ok,
        0 <= i < organization_records(rows, organization_id)->Ok_0.len(),
    ensures
        organization_records(rows, organization_id)->Ok_0[i].event.organization_id
            == organization_id,
    decreases rows.len(),
{
    let shorter = organization_records(rows.drop_last(), organization_id);
    if i < shorter->Ok_0.len() {
        organizations_read_their_own_records(rows.drop_last(), organization_id, i);
    }
}

/// The events are told as JSON objects with these members, in this order.
pub proof fn events_are_told_by_members(event: EventView)
    ensures
        event_json(event) == "{"@ + member(
            "timestamp_unix_ms"@,
            text::decimal_text(event.timestamp_unix_ms as nat),
        ) + ","@
            + member("organization_id"@, codec::json_string(event.organization_id)) + ","@
            + member("actor_id"@, codec::json_string(event.actor_id)) + ","@
            + member("device_id"@, codec::json_string(event.device_id)) + ","@
            + member("request_id"@, codec::json_string(event.request_id)) + ","@
            + member("action"@, codec::json_string(event.action)) + ","@
            + member("target"@, codec::json_string(event.target)) + ","@
            + member("outcome"@, codec::json_string(event.outcome)) + ","@
            + member("envelope_digest"@, codec::json_bytes(event.envelope_digest)) + "}"@,
{
    reveal_strlit("{");
    reveal_strlit(",");
    reveal_strlit("\"");
    reveal_strlit("\":");
    reveal_strlit("{\"timestamp_unix_ms\":");
    reveal_strlit("timestamp_unix_ms");
    assert("{\"timestamp_unix_ms\":"@ =~= "{"@ + "\""@ + "timestamp_unix_ms"@ + "\":"@);
    reveal_strlit(",\"organization_id\":");
    reveal_strlit("organization_id");
    assert(",\"organization_id\":"@ =~= ","@ + "\""@ + "organization_id"@ + "\":"@);
    reveal_strlit(",\"actor_id\":");
    reveal_strlit("actor_id");
    assert(",\"actor_id\":"@ =~= ","@ + "\""@ + "actor_id"@ + "\":"@);
    reveal_strlit(",\"device_id\":");
    reveal_strlit("device_id");
    assert(",\"device_id\":"@ =~= ","@ + "\""@ + "device_id"@ + "\":"@);
    reveal_strlit(",\"request_id\":");
    reveal_strlit("request_id");
    assert(",\"request_id\":"@ =~= ","@ + "\""@ + "request_id"@ + "\":"@);
    reveal_strlit(",\"action\":");
    reveal_strlit("action");
    assert(",\"action\":"@ =~= ","@ + "\""@ + "action"@ + "\":"@);
    reveal_strlit(",\"target\":");
    reveal_strlit("target");
    assert(",\"target\":"@ =~= ","@ + "\""@ + "target"@ + "\":"@);
    reveal_strlit(",\"outcome\":");
    reveal_strlit("outcome");
    assert(",\"outcome\":"@ =~= ","@ + "\""@ + "outcome"@ + "\":"@);
    reveal_strlit(",\"envelope_digest\":");
    reveal_strlit("envelope_digest");
    assert(",\"envelope_digest\":"@ =~= ","@ + "\""@ + "envelope_digest"@ + "\":"@);
    let t0 = text::decimal_text(event.timestamp_unix_ms as nat);
    assert("{\"timestamp_unix_ms\":"@ + t0 =~= "{"@ + member("timestamp_unix_ms"@, t0));
    let s0 = "{"@ + member("timestamp_unix_ms"@, t0);
    lemma_member(s0, ",\"organization_id\":"@, "organization_id"@, codec::json_string(event.organization_id));
    let s1 = s0 + ","@ + member("organization_id"@, codec::json_string(event.organization_id));
    lemma_member(s1, ",\"actor_id\":"@, "actor_id"@, codec::json_string(event.actor_id));
    let s2 = s1 + ","@ + member("actor_id"@, codec::json_string(event.actor_id));
    lemma_member(s2, ",\"device_id\":"@, "device_id"@, codec::json_string(event.device_id));
    let s3 = s2 + ","@ + member("device_id"@, codec::json_string(event.device_id));
    lemma_member(s3, ",\"request_id\":"@, "request_id"@, codec::json_string(event.request_id));
    let s4 = s3 + ","@ + member("request_id"@, codec::json_string(event.request_id));
    lemma_member(s4, ",\"action\":"@, "action"@, codec::json_string(event.action));
    let s5 = s4 + ","@ + member("action"@, codec::json_string(event.action));
    lemma_member(s5, ",\"target\":"@, "target"@, codec::json_string(event.target));
    let s6 = s5 + ","@ + member("target"@, codec::json_string(event.target));
    lemma_member(s6, ",\"outcome\":"@, "outcome"@, codec::json_string(event.outcome));
    let s7 = s6 + ","@ + member("outcome"@, codec::json_string(event.outcome));
    lemma_member(s7, ",\"envelope_digest\":"@, "envelope_digest"@, codec::json_bytes(event.envelope_digest));
    let s8 = s7 + ","@ + member("envelope_digest"@, codec::json_bytes(event.envelope_digest));
}

/// A member of a JSON object, by its name and what stands for it.
pub open spec fn member(name: Seq<char>, value: Seq<char>) -> Seq<char> {
    "\""@ + name + "\":"@ + value
}

proof fn lemma_member(before: Seq<char>, lead: Seq<char>, name: Seq<char>, value: Seq<char>)
    requires
        lead == ","@ + "\""@ + name + "\":"@,
    ensures
        before + lead + value == before + ","@ + member(name, value),
{
    assert(before + lead + value =~= before + ","@ + member(name, value));
}

/// A record is told as a JSON object with its number, the two hashes and the event.
pub proof fn records_are_told_by_members(record: RecordView)
    ensures
        record_json(record) == "{"@ + member(
            "sequence"@,
            text::decimal_text(record.sequence as nat),
        ) + ","@ + member("previous_hash"@, codec::json_bytes(record.previous_hash)) + ","@
            + member("record_hash"@, codec::json_bytes(record.record_hash)) + ","@ + member(
            "event"@,
            event_json(record.event),
        ) + "}"@,
{
    reveal_strlit("{");
    reveal_strlit(",");
    reveal_strlit("\"");
    reveal_strlit("\":");
    reveal_strlit("{\"sequence\":");
    reveal_strlit("sequence");
    assert("{\"sequence\":"@ =~= "{"@ + "\""@ + "sequence"@ + "\":"@);
    reveal_strlit(",\"previous_hash\":");
    reveal_strlit("previous_hash");
    assert(",\"previous_hash\":"@ =~= ","@ + "\""@ + "previous_hash"@ + "\":"@);
    reveal_strlit(",\"record_hash\":");
    reveal_strlit("record_hash");
    assert(",\"record_hash\":"@ =~= ","@ + "\""@ + "record_hash"@ + "\":"@);
    reveal_strlit(",\"event\":");
    reveal_strlit("event");
    assert(",\"event\":"@ =~= ","@ + "\""@ + "event"@ + "\":"@);
    let t0 = text::decimal_text(record.sequence as nat);
    assert("{\"sequence\":"@ + t0 =~= "{"@ + member("sequence"@, t0));
    let s0 = "{"@ + member("sequence"@, t0);
    lemma_member(s0, ",\"previous_hash\":"@, "previous_hash"@, codec::json_bytes(record.previous_hash));
    let s1 = s0 + ","@ + member("previous_hash"@, codec::json_bytes(record.previous_hash));
    lemma_member(s1, ",\"record_hash\":"@, "record_hash"@, codec::json_bytes(record.record_hash));
    let s2 = s1 + ","@ + member("record_hash"@, codec::json_bytes(record.record_hash));
    lemma_member(s2, ",\"event\":"@, "event"@, event_json(record.event));
    let s3 = s2 + ","@ + member("event"@, event_json(record.event));
}

/// The next record has the number after the last, or one; the hash of the last before it,
/// or 32 zeros; and a hash over that, its number in eight bytes and its text.
pub proof fn records_follow_the_last(number: int, hash: Seq<u8>, event: EventView)
    ensures
        ({
            let next = next_record(Some((number, hash)), event);
            &&& next.sequence == number + 1
            &&& next.previous_hash == hash
            &&& next.record_hash == crypto::sha256_of(
                hash + codec::be64(number + 1) + encode_utf8(event_json(event)),
            )
            &&& next.event == event
        }),
        ({
            let next = next_record(None, event);
            &&& next.sequence == 1
            &&& next.previous_hash.len() == 32
            &&& forall|i: int| 0 <= i < 32 ==> #[trigger] next.previous_hash[i] == 0
            &&& next.record_hash == crypto::sha256_of(
                next.previous_hash + codec::be64(1) + encode_utf8(event_json(event)),
            )
            &&& next.event == event
        }),
{
}

/// A row is right exactly when its number is not negative, both hashes are 64 digits and
/// letters up to f, the one is that of the row before, the other is that of the row itself,
/// and its event can be read. Otherwise the first of these that fails is told.
pub proof fn rows_are_right_exactly_when_they_fit(row: StoredRow, previous: Seq<u8>)
    ensures
        ({
            let numbered = row.sequence >= 0;
            let hashed = hash_text(row.previous_hash@) && hash_text(row.record_hash@);
            let fits = codec::hex_bytes(row.previous_hash@) == previous && codec::hex_bytes(
                row.record_hash@,
            ) == crypto::sha256_of(
                previous + codec::be64(row.sequence as int) + encode_utf8(row.event_json@),
            );
            let r = row_error(row, previous);
            &&& r is None <==> numbered && hashed && fits && row.event is Some
            &&& !numbered ==> r == Some(AuditError::InvalidSequence)
            &&& numbered && !hashed ==> r == Some(AuditError::InvalidHash)
            &&& numbered && hashed && !fits ==> r == Some(
                AuditError::HashMismatch(row.sequence as u64),
            )
            &&& numbered && hashed && fits && row.event is None ==> r == Some(AuditError::Json)
        }),
{
    lemma_hash_text(row.previous_hash@);
    lemma_hash_text(row.record_hash@);
}

/// Sixty-four digits, or letters from a to f, large or small.
pub open spec fn hash_text(s: Seq<char>) -> bool {
    s.len() == 64 && forall|i: int|
        0 <= i < s.len() ==> ('0' <= #[trigger] s[i] <= '9' || 'a' <= s[i] <= 'f' || 'A' <= s[i]
            <= 'F')
}

proof fn lemma_hash_text(s: Seq<char>)
    ensures
        hash_text(s) == is_hash_text(s),
{
    if codec::is_hex(s) {
        assert forall|i: int| 0 <= i < s.len() implies ('0' <= #[trigger] s[i] <= '9' || 'a'
            <= s[i] <= 'f' || 'A' <= s[i] <= 'F') by {}
    }
    if hash_text(s) {
        assert(codec::is_hex(s));
    }
}

/// Both stores end alike exactly when both are empty, or when their last records have the
/// same number and the same hash.
pub proof fn stores_end_alike(rows: Seq<StoredRow>, journal: Seq<AuditRecord>)
    ensures
        ends_error(rows, journal) is None <==> {
            ||| rows.len() == 0 && journal.len() == 0
            ||| {
                &&& rows.len() > 0 && journal.len() > 0
                &&& rows.last().sequence >= 0
                &&& hash_text(rows.last().record_hash@)
                &&& rows.last().sequence == journal.last().sequence
                &&& codec::hex_bytes(rows.last().record_hash@) == journal.last().record_hash@
            }
        },
        rows.len() == 0 && journal.len() > 0 ==> ends_error(rows, journal) == Some(
            AuditError::Divergence,
        ),
{
    if rows.len() > 0 {
        lemma_hash_text(rows.last().record_hash@);
    }
}

/// An outcome was recorded for a request exactly when some row tells it, unless a row
/// before it cannot be read.
pub proof fn outcomes_are_looked_for_row_by_row(
    rows: Seq<StoredRow>,
    request_id: Seq<char>,
    digest: Seq<u8>,
    outcome: Seq<char>,
)
    ensures
        ({
            let tells = |i: int|
                rows[i].event is Some && rows[i].event->0.request_id@ == request_id
                    && rows[i].event->0.envelope_digest@ == digest && rows[i].event->0.outcome@
                    == outcome;
            let r = outcome_found(rows, request_id, digest, outcome);
            &&& r == Ok::<bool, AuditError>(true) ==> exists|i: int|
                0 <= i < rows.len() && #[trigger] tells(i)
            &&& r == Ok::<bool, AuditError>(false) ==> forall|i: int|
                0 <= i < rows.len() ==> rows[i].event is Some && !#[trigger] tells(i)
            &&& r is Err ==> r->Err_0 == AuditError::Json && exists|i: int|
                0 <= i < rows.len() && (#[trigger] rows[i]).event is None
            &&& r is Err || r->Ok_0 || !rows_read(rows) || forall|i: int|
                0 <= i < rows.len() ==> !#[trigger] tells(i)
        }),
    decreases rows.len(),
{
    if rows.len() > 0 {
        let fewer = rows.drop_last();
        outcomes_are_looked_for_row_by_row(fewer, request_id, digest, outcome);
        let tells = |i: int|
            rows[i].event is Some && rows[i].event->0.request_id@ == request_id
                && rows[i].event->0.envelope_digest@ == digest && rows[i].event->0.outcome@
                == outcome;
        let told = |i: int|
            fewer[i].event is Some && fewer[i].event->0.request_id@ == request_id
                && fewer[i].event->0.envelope_digest@ == digest && fewer[i].event->0.outcome@
                == outcome;
        let n = rows.len() - 1;
        assert(rows[n] == rows.last());
        assert forall|i: int| 0 <= i < n implies told(i) == tells(i) && fewer[i] == rows[i] by {}
        assert(tells(n) == (rows.last().event is Some && is_outcome(
            rows.last().event->0@,
            request_id,
            digest,
            outcome,
        )));
        let before = outcome_found(fewer, request_id, digest, outcome);
        if before == Ok::<bool, AuditError>(true) {
            let i = choose|i: int| 0 <= i < fewer.len() && #[trigger] told(i);
            assert(tells(i));
        } else if before is Err {
            let i = choose|i: int| 0 <= i < fewer.len() && (#[trigger] fewer[i]).event is None;
            assert(rows[i].event is None);
        } else {
            assert forall|i: int| 0 <= i < n implies rows[i].event is Some && !#[trigger] tells(
                i,
            ) by {
                assert(!told(i));
            }
        }
    }
}

/// An organization reads exactly the records of its own events, in the order in which they
/// were recorded, and none where some row cannot be read.
pub proof fn records_are_read_by_organization(rows: Seq<StoredRow>, organization_id: Seq<char>)
    ensures
        ({
            let r = organization_records(rows, organization_id);
            &&& r is Ok <==> forall|i: int|
                0 <= i < rows.len() ==> (#[trigger] rows[i]).sequence >= 0 && hash_text(
                    rows[i].previous_hash@,
                ) && hash_text(rows[i].record_hash@) && rows[i].event is Some
            &&& r is Ok ==> r->Ok_0 == row_records(
                rows.filter(|row: StoredRow| row.event->0.organization_id@ == organization_id),
            )
        }),
    decreases rows.len(),
{
    reveal(Seq::filter);
    let own = |row: StoredRow| row.event->0.organization_id@ == organization_id;
    if rows.len() > 0 {
        let fewer = rows.drop_last();
        let last = rows.last();
        records_are_read_by_organization(fewer, organization_id);
        lemma_hash_text(last.previous_hash@);
        lemma_hash_text(last.record_hash@);
        assert(rows[rows.len() - 1] == last);
        assert forall|i: int| 0 <= i < fewer.len() implies fewer[i] == rows[i] by {}
        let r = organization_records(rows, organization_id);
        if r is Ok {
            assert forall|i: int| 0 <= i < rows.len() implies (#[trigger] rows[i]).sequence >= 0
                && hash_text(rows[i].previous_hash@) && hash_text(rows[i].record_hash@)
                && rows[i].event is Some by {
                if i < fewer.len() {
                    assert(fewer[i] == rows[i]);
                }
            }
            if own(last) {
                assert(rows.filter(own) == fewer.filter(own).push(last));
                assert(row_records(rows.filter(own)) =~= row_records(fewer.filter(own)).push(
                    row_record(last),
                ));
            } else {
                assert(rows.filter(own) == fewer.filter(own));
            }
        }
    } else {
        assert(row_records(rows.filter(own)) =~= Seq::empty());
    }
}

/// An approval is used up by the first that claims it: exactly those that were not used, and
/// whose execution was not begun, can be claimed.
pub proof fn approvals_are_claimed_exactly_when_unused(
    consumptions: Seq<Consumption>,
    executions: Seq<Execution>,
    request_id: Seq<char>,
    digest: Seq<u8>,
    now: u64,
)
    ensures
        ({
            let used = exists|i: int|
                0 <= i < consumptions.len() && (#[trigger] consumptions[i]).request_id@
                    == request_id && consumptions[i].envelope_digest@ == digest;
            let begun = exists|i: int|
                0 <= i < executions.len() && (#[trigger] executions[i]).request_id@ == request_id
                    && executions[i].envelope_digest@ == digest;
            let r = claim_outcome(consumptions, executions, request_id, digest, now);
            &&& r == Ok::<bool, AuditError>(true) <==> now <= 0x7fff_ffff_ffff_ffff && !used
                && !begun
            &&& r == Ok::<bool, AuditError>(false) <==> now <= 0x7fff_ffff_ffff_ffff && used
            &&& now > 0x7fff_ffff_ffff_ffff ==> r == Err::<bool, AuditError>(
                AuditError::InvalidSequence,
            )
            &&& now <= 0x7fff_ffff_ffff_ffff && !used && begun ==> r == Err::<bool, AuditError>(
                AuditError::Store,
            )
        }),
{
    if is_consumed(consumptions, request_id, digest) {
        let i = choose|i: int|
            0 <= i < consumptions.len() && consumption_of(
                #[trigger] consumptions[i],
                request_id,
                digest,
            );
        assert(consumptions[i].request_id@ == request_id);
    }
    if has_execution(executions, request_id, digest) {
        let i = choose|i: int|
            0 <= i < executions.len() && execution_of(#[trigger] executions[i], request_id, digest);
        assert(executions[i].request_id@ == request_id);
    }
    assert forall|i: int|
        0 <= i < consumptions.len() && (#[trigger] consumptions[i]).request_id@ == request_id
            && consumptions[i].envelope_digest@ == digest implies is_consumed(
        consumptions,
        request_id,
        digest,
    ) by {
        assert(consumption_of(consumptions[i], request_id, digest));
    }
    assert forall|i: int|
        0 <= i < executions.len() && (#[trigger] executions[i]).request_id@ == request_id
            && executions[i].envelope_digest@ == digest implies has_execution(
        executions,
        request_id,
        digest,
    ) by {
        assert(execution_of(executions[i], request_id, digest));
    }
}

/// The used approvals can be read from the rows exactly when every row can be read and
/// those that tell of a use have a time that can be stored.
pub proof fn used_approvals_are_read_exactly_when_all_rows_are(rows: Seq<StoredRow>)
    ensures
        migration_error(rows) is None <==> forall|i: int|
            0 <= i < rows.len() ==> (#[trigger] rows[i]).event is Some && (
            rows[i].event->0.outcome@ == "approval_consumed"@ ==> rows[i].event->0.timestamp_unix_ms
                <= 0x7fff_ffff_ffff_ffff),
    decreases rows.len(),
{
    if rows.len() > 0 {
        let fewer = rows.drop_last();
        used_approvals_are_read_exactly_when_all_rows_are(fewer);
        assert(rows[rows.len() - 1] == rows.last());
        assert forall|i: int| 0 <= i < fewer.len() implies fewer[i] == rows[i] by {}
        if migration_error(rows) is None {
            assert forall|i: int| 0 <= i < rows.len() implies (#[trigger] rows[i]).event is Some && (
            rows[i].event->0.outcome@ == "approval_consumed"@ ==> rows[i].event->0.timestamp_unix_ms
                <= 0x7fff_ffff_ffff_ffff) by {
                if i < fewer.len() {
                    assert(fewer[i] == rows[i]);
                }
            }
        }
    }
}

/// How far an execution has come is told by these words, and by no others.
pub proof fn recovery_states_are_told_by_words(state: ExecutionRecoveryState, name: Seq<char>)
    ensures
        state is NotExecuted <==> state_name(state) == "not_executed"@,
        state is EffectUncertain <==> state_name(state) == "effect_uncertain"@,
        state is EffectApplied <==> state_name(state) == "effect_applied"@,
        state is PostEffectUncertain <==> state_name(state) == "post_effect_uncertain"@,
        state is Completed <==> state_name(state) == "completed"@,
        named_state(name) == Some(state) <==> state_name(state) == name,
{
    reveal_strlit("not_executed");
    reveal_strlit("effect_uncertain");
    reveal_strlit("effect_applied");
    reveal_strlit("post_effect_uncertain");
    reveal_strlit("completed");
    assert("not_executed"@.len() == 12);
    assert("effect_uncertain"@.len() == 16);
    assert("effect_applied"@.len() == 14);
    assert("post_effect_uncertain"@.len() == 21);
    assert("completed"@.len() == 9);
}

/// A lock that was taken is entered, one that was left behind is removed, and one that is
/// held is waited for, up to the two hundredth try.
pub proof fn locks_are_tried_two_hundred_times(tried: int)
    ensures
        lock_step(tried, LockEvent::Created) == LockAction::Enter,
        lock_step(tried, LockEvent::Abandoned) == LockAction::Remove,
        lock_step(tried, LockEvent::Failed) == LockAction::Fail,
        tried < 200 ==> lock_step(tried, LockEvent::Removed) == LockAction::TryAgain,
        tried < 200 ==> lock_step(tried, LockEvent::Held) == LockAction::WaitAndTryAgain,
        tried < 200 ==> lock_step(tried, LockEvent::RemovalMissed) == LockAction::WaitAndTryAgain,
        tried < 200 ==> lock_step(tried, LockEvent::Transient) == LockAction::WaitAndTryAgain,
        tried >= 200 ==> lock_step(tried, LockEvent::Removed) == LockAction::GiveUp,
        tried >= 200 ==> lock_step(tried, LockEvent::Held) == LockAction::GiveUp,
        tried >= 200 ==> lock_step(tried, LockEvent::RemovalMissed) == LockAction::GiveUp,
        tried >= 200 ==> lock_step(tried, LockEvent::Transient) == LockAction::GiveUp,
        ABANDONED_LOCK_AGE_MS == 30_000,
        LOCK_RETRY_ATTEMPTS == 200,
        LOCK_RETRY_DELAY_MS == 10,
{
}

/// A chain fails with the error of its first row that is wrong; it holds exactly when none
/// is.
pub proof fn chains_fail_at_their_first_wrong_row(rows: Seq<StoredRow>, error: AuditError)
    ensures
        chain_holds(rows) <==> forall|i: int|
            0 <= i < rows.len() ==> row_error(
                #[trigger] rows[i],
                if i == 0 {
                    Seq::new(32, |k: int| 0u8)
                } else {
                    codec::hex_bytes(rows[i - 1].record_hash@)
                },
            ) is None,
        chain_fails(rows, error) ==> !chain_holds(rows) && exists|i: int|
            0 <= i < rows.len() && row_error(#[trigger] rows[i], hash_before(rows, i)) == Some(
                error,
            ) && chain_holds(rows.take(i)),
{
    assert(zero_hash() =~= Seq::new(32, |k: int| 0u8));
    if chain_holds(rows) {
        assert forall|i: int| 0 <= i < rows.len() implies row_error(
            #[trigger] rows[i],
            if i == 0 {
                Seq::new(32, |k: int| 0u8)
            } else {
                codec::hex_bytes(rows[i - 1].record_hash@)
            },
        ) is None by {
            assert(row_holds(rows, i));
        }
    }
    if chain_fails(rows, error) {
        let i = choose|i: int|
            {
                &&& 0 <= i < rows.len()
                &&& Some(error) == row_error(#[trigger] rows[i], hash_before(rows, i))
                &&& forall|j: int| 0 <= j < i ==> #[trigger] row_holds(rows, j)
            };
        assert(!row_holds(rows, i));
        let start = rows.take(i);
        assert forall|j: int| 0 <= j < start.len() implies #[trigger] row_holds(start, j) by {
            assert(row_holds(rows, j));
            assert(start[j] == rows[j]);
        }
        assert(row_error(rows[i], hash_before(rows, i)) == Some(error));
    }
}

/// Every use that the rows tell of is in the table once it is brought in, and nothing is but
/// what was there and what they tell of; nothing that is brought in stands twice.
pub proof fn used_approvals_are_brought_in(
    rows: Seq<StoredRow>,
    before: Seq<Consumption>,
    after: Seq<Consumption>,
    i: int,
    k: int,
)
    requires
        migrated(rows, after),
        only_migrated(rows, before, after),
    ensures
        0 <= i < rows.len() && rows[i].event is Some && rows[i].event->0.outcome@
            == "approval_consumed"@ ==> exists|j: int|
            0 <= j < after.len() && (#[trigger] after[j]).request_id@
                == rows[i].event->0.request_id@ && after[j].envelope_digest@
                == rows[i].event->0.envelope_digest@,
        0 <= k < before.len() ==> k < after.len() && after[k] == before[k],
        before.len() <= k < after.len() ==> exists|j: int|
            0 <= j < rows.len() && (#[trigger] rows[j]).event is Some && rows[j].event->0.outcome@
                == "approval_consumed"@ && rows[j].event->0.request_id@ == after[k].request_id@
                && rows[j].event->0.envelope_digest@ == after[k].envelope_digest@
                && rows[j].event->0.timestamp_unix_ms == after[k].consumed_at_unix_ms,
        forall|j: int|
            before.len() <= k < after.len() && 0 <= j < k ==> (#[trigger] after[j]).request_id@
                != after[k].request_id@ || after[j].envelope_digest@ != after[k].envelope_digest@,
{
    if 0 <= i < rows.len() && consumes(rows[i]) {
        let request_id = rows[i].event->0.request_id@;
        let digest = rows[i].event->0.envelope_digest@;
        assert(is_consumed(after, request_id, digest));
        let j = choose|j: int|
            0 <= j < after.len() && consumption_of(#[trigger] after[j], request_id, digest);
        assert(after[j].request_id@ == request_id);
    }
    if 0 <= k < before.len() {
        assert(after.take(before.len() as int)[k] == after[k]);
    }
    if before.len() <= k < after.len() {
        assert(stems_from(rows, after[k]));
        let j = choose|j: int|
            0 <= j < rows.len() && consumes(#[trigger] rows[j]) && consumption_of(
                after[k],
                rows[j].event->0.request_id@,
                rows[j].event->0.envelope_digest@,
            ) && after[k].consumed_at_unix_ms == rows[j].event->0.timestamp_unix_ms;
        assert(rows[j].event is Some);
        assert forall|j: int| 0 <= j < k implies (#[trigger] after[j]).request_id@
            != after[k].request_id@ || after[j].envelope_digest@ != after[k].envelope_digest@ by {
            assert(!consumption_of(after[k], after[j].request_id@, after[j].envelope_digest@));
        }
    }
}

/// How far an execution has come is noted at its own row, by the word for it and the time, and
/// nothing else changes.
pub proof fn states_are_noted_at_their_row(
    before: Seq<Execution>,
    after: Seq<Execution>,
    request_id: Seq<char>,
    digest: Seq<u8>,
    state: ExecutionRecoveryState,
    now: u64,
    k: int,
)
    requires
        state_noted(before, after, request_id, digest, state, now),
        0 <= k < before.len(),
    ensures
        after.len() == before.len(),
        before[k].request_id@ != request_id || before[k].envelope_digest@ != digest ==> after[k]
            == before[k],
        exists|i: int|
            0 <= i < after.len() && (#[trigger] after[i]).request_id@ == request_id
                && after[i].envelope_digest@ == digest && named_state(after[i].state@) == Some(
                state,
            ) && after[i].updated_at_unix_ms == now,
{
    let i = choose|i: int|
        {
            &&& 0 <= i < before.len()
            &&& execution_of(#[trigger] before[i], request_id, digest)
            &&& after == before.update(i, after[i])
            &&& execution_of(after[i], request_id, digest)
            &&& after[i].state@ == state_name(state)
            &&& after[i].updated_at_unix_ms == now
        };
    recovery_states_are_told_by_words(state, state_name(state));
    assert(after[i].request_id@ == request_id);
}

/// Recording an event adds one row and one line of the journal behind all that was there, and
/// leaves the used approvals as they were; the ledger ends with what was recorded.
pub proof fn recording_adds_one_record(before: Ledger, after: Ledger, event: EventView)
    requires
        appends(before, after, event),
    ensures
        ({
            let n = before.rows@.len() as int;
            let m = before.journal@.len() as int;
            let row = after.rows@[n];
            let line = after.journal@[m];
            &&& after.rows@.len() == n + 1
            &&& after.rows@.take(n) == before.rows@
            &&& after.journal@.len() == m + 1
            &&& forall|i: int| 0 <= i < m ==> (#[trigger] after.journal@[i])@ == before.journal@[i]@
            &&& row.event is Some && row.event->0@ == event
            &&& row.event_json@ == event_json(event)
            &&& line@.event == event
            &&& row.sequence == line.sequence
            &&& row.record_hash@ == codec::hex_text(line.record_hash@)
            &&& row.previous_hash@ == codec::hex_text(line.previous_hash@)
            &&& after.last_sequence == line.sequence
            &&& after.last_hash@ == line.record_hash@
            &&& after.consumptions == before.consumptions
            &&& after.executions == before.executions
        }),
{
    let n = before.rows@.len() as int;
    let m = before.journal@.len() as int;
    let next = next_record(rows_end(before.rows@)->Ok_0, event);
    assert(after.rows@.take(n) =~= after.rows@.drop_last());
    let views = record_views(after.journal@);
    assert(views == record_views(before.journal@).push(next));
    assert(views.len() == m + 1);
    assert(views[m] == next);
    assert(after.journal@[m]@ == views[m]);
    assert forall|i: int| 0 <= i < m implies (#[trigger] after.journal@[i])@ == before.journal@[i]@ by {
        assert(views[i] == record_views(before.journal@)[i]);
    }
}

} // verus!
