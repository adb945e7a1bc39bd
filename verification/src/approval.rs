//! Approvals: a challenge bound to one request and one decision, signed by an
//! approver that the device trusts.

use vstd::prelude::*;
use vstd::utf8::*;

use crate::codec;
use crate::crypto;
use crate::protocol::{
    ActionRequest, DecisionModel, Digest32, PolicyDecision, PolicyDecisionKind, ProtocolError,
};
use crate::table::Table;
use crate::shown;
use crate::text;

verus! {

/// The most bytes that a signed text may have.
pub const MAX_FIELD_BYTES: usize = 4096;

/// What an approver is asked to sign.
#[derive(Debug)]
pub struct ApprovalChallenge {
    pub request_id: String,
    pub envelope_digest: Digest32,
    pub policy_id: String,
    pub required_capability: Option<String>,
    pub expires_at_unix_ms: u64,
    pub approval_nonce: [u8; 32],
}

/// A challenge with the signature of an approver.
pub struct SignedApproval {
    pub challenge: ApprovalChallenge,
    pub approver_id: String,
    pub signature: [u8; 64],
}

#[derive(Debug, Clone, Copy, PartialEq, Eq, PartialOrd, Ord, Structural)]
pub enum ApproverAuthority {
    Approve,
    Elevated,
    Owner,
}

#[derive(Debug, Clone, Copy, PartialEq, Eq, Structural)]
pub enum ApprovalError {
    Protocol(ProtocolError),
    DecisionMismatch,
    DecisionDoesNotRequireApproval,
    InvalidChallenge,
    ChallengeMismatch,
    InvalidExpiry,
    ApprovalExpired,
    UnknownApprover,
    ApproverRevoked,
    InvalidPublicKey,
    InvalidApproverAuthority,
    UnsupportedRequiredCapability,
    InsufficientApproverAuthority,
    ApproverTenantMismatch,
    DuplicateApprover,
    InvalidSignature,
}

/// An approver that the device trusts.
#[derive(Debug)]
pub struct TrustedApprover {
    pub key: [u8; 32],
    pub authority: ApproverAuthority,
    pub organization_id: Option<String>,
    pub revoked: bool,
}

/// The approvers of a device.
pub struct ApprovalVerifier {
    approvers: Table<TrustedApprover>,
    require_organization_scope: bool,
}

// ---------------------------------------------------------------------------
// What is signed

/// The text of an optional string.
pub open spec fn optional_text(value: Option<String>) -> Option<Seq<char>> {
    match value {
        Some(text) => Some(text@),
        None => None,
    }
}

/// A text that can be signed.
pub open spec fn is_field(value: Seq<char>) -> bool {
    !text::is_blank(value) && text::byte_len(value) <= MAX_FIELD_BYTES && !value.contains('\0')
}

/// A text behind its length.
pub open spec fn field_bytes(value: Seq<char>) -> Seq<u8> {
    codec::be32(encode_utf8(value).len() as int) + encode_utf8(value)
}

pub open spec fn domain_bytes() -> Seq<u8> {
    encode_utf8("vor-commander:approval:v1\0"@)
}

/// A flag, with the capability behind it where one is required.
pub open spec fn capability_bytes(capability: Option<Seq<char>>) -> Seq<u8> {
    match capability {
        Some(value) => seq![1u8] + field_bytes(value),
        None => seq![0u8],
    }
}

/// Every text of the challenge and the approver's name can be signed.
pub open spec fn can_be_signed(challenge: ApprovalChallenge, approver_id: Seq<char>) -> bool {
    &&& is_field(challenge.request_id@)
    &&& is_field(challenge.policy_id@)
    &&& challenge.required_capability is Some ==> is_field(challenge.required_capability->0@)
    &&& is_field(approver_id)
}

/// The message that an approver signs.
pub open spec fn message_bytes(challenge: ApprovalChallenge, approver_id: Seq<char>) -> Seq<u8> {
    domain_bytes() + (field_bytes(challenge.request_id@) + (challenge.envelope_digest@ + (
    field_bytes(challenge.policy_id@) + (capability_bytes(
        optional_text(challenge.required_capability),
    ) + (codec::be64(challenge.expires_at_unix_ms as int) + (challenge.approval_nonce@
        + field_bytes(approver_id)))))))
}

fn validate_text(value: &str) -> (r: Result<(), ApprovalError>)
    ensures
        r is Ok == is_field(value@),
        r is Err ==> r->Err_0 == ApprovalError::InvalidChallenge,
{
    let chars = text::chars_of(value);
    if text::blank(value) || text::text_bytes(value) > MAX_FIELD_BYTES || text::contains_char(
        chars.as_slice(),
        '\0',
    ) {
        return Err(ApprovalError::InvalidChallenge);
    }
    Ok(())
}

fn push_text(out: &mut Vec<u8>, value: &str) -> (r: Result<(), ApprovalError>)
    ensures
        r is Ok == is_field(value@),
        r is Ok ==> final(out)@ == old(out)@ + field_bytes(value@),
        r is Err ==> r->Err_0 == ApprovalError::InvalidChallenge,
{
    if let Err(error) = validate_text(value) {
        return Err(error);
    }
    let bytes = value.as_bytes();
    let ghost before = out@;
    codec::push_be32(out, bytes.len() as u32);
    codec::push_byte_slice(out, bytes);
    proof {
        assert(out@ =~= before + field_bytes(value@));
    }
    Ok(())
}

/// The message that an approver signs, or why there is none.
pub fn approval_message(challenge: &ApprovalChallenge, approver_id: &str) -> (message: Result<
    Vec<u8>,
    ApprovalError,
>)
    ensures
        message is Ok == can_be_signed(*challenge, approver_id@),
        message is Ok ==> message->Ok_0@ == message_bytes(*challenge, approver_id@),
        message is Err ==> message->Err_0 == ApprovalError::InvalidChallenge,
{
    let mut out: Vec<u8> = Vec::new();
    codec::push_byte_slice(&mut out, "vor-commander:approval:v1\0".as_bytes());
    if let Err(error) = push_text(&mut out, challenge.request_id.as_str()) {
        return Err(error);
    }
    codec::push_byte_slice(&mut out, challenge.envelope_digest.as_slice());
    if let Err(error) = push_text(&mut out, challenge.policy_id.as_str()) {
        return Err(error);
    }
    let ghost head = out@;
    match &challenge.required_capability {
        Some(value) => {
            out.push(1);
            if let Err(error) = push_text(&mut out, value.as_str()) {
                return Err(error);
            }
            proof {
                assert(out@ =~= head + capability_bytes(
                    optional_text(challenge.required_capability),
                ));
            }
        },
        None => {
            out.push(0);
            proof {
                assert(out@ =~= head + capability_bytes(
                    optional_text(challenge.required_capability),
                ));
            }
        },
    }
    codec::push_be64(&mut out, challenge.expires_at_unix_ms);
    codec::push_byte_slice(&mut out, challenge.approval_nonce.as_slice());
    if let Err(error) = push_text(&mut out, approver_id) {
        return Err(error);
    }
    proof {
        assert(out@ =~= message_bytes(*challenge, approver_id@));
    }
    Ok(out)
}

// ---------------------------------------------------------------------------
// Challenges

/// The decision was made on this very request.
pub open spec fn decision_matches(request: ActionRequest, decision: DecisionModel) -> bool {
    decision.request_id == request.envelope.request_id@ && decision.envelope_digest@
        == request.envelope_digest@
}

/// Why no challenge is issued, if none is. `verified` is what the check of the
/// request's seal gave.
pub open spec fn issue_error(
    request: ActionRequest,
    decision: DecisionModel,
    verified: Result<(), ProtocolError>,
    now_unix_ms: u64,
    expires_at_unix_ms: u64,
) -> Option<ApprovalError> {
    if verified is Err {
        Some(ApprovalError::Protocol(verified->Err_0))
    } else if !decision_matches(request, decision) {
        Some(ApprovalError::DecisionMismatch)
    } else if decision.kind != PolicyDecisionKind::Approval {
        Some(ApprovalError::DecisionDoesNotRequireApproval)
    } else if expires_at_unix_ms <= now_unix_ms || expires_at_unix_ms
        > request.envelope.expires_at_unix_ms {
        Some(ApprovalError::InvalidExpiry)
    } else if text::is_blank(decision.policy_id) {
        Some(ApprovalError::InvalidChallenge)
    } else {
        None
    }
}

/// The challenge speaks of the request and the decision.
pub open spec fn challenge_names(
    challenge: ApprovalChallenge,
    request: ActionRequest,
    decision: DecisionModel,
) -> bool {
    &&& challenge.request_id@ == request.envelope.request_id@
    &&& challenge.envelope_digest@ == request.envelope_digest@
    &&& challenge.policy_id@ == decision.policy_id
    &&& optional_text(challenge.required_capability) == decision.required_capability
}

fn ensure_decision_matches(request: &ActionRequest, decision: &PolicyDecision) -> (r: Result<
    (),
    ApprovalError,
>)
    ensures
        r is Ok == decision_matches(*request, decision@),
        r is Err ==> r->Err_0 == ApprovalError::DecisionMismatch,
{
    if !text::same_text(decision.request_id.as_str(), request.envelope.request_id.as_str())
        || !codec::same_bytes(
        decision.envelope_digest.as_slice(),
        request.envelope_digest.as_slice(),
    ) {
        return Err(ApprovalError::DecisionMismatch);
    }
    Ok(())
}

fn same_optional(a: &Option<String>, b: &Option<String>) -> (r: bool)
    ensures
        r == (optional_text(*a) == optional_text(*b)),
{
    match (a, b) {
        (None, None) => true,
        (Some(x), Some(y)) => text::same_text(x.as_str(), y.as_str()),
        _ => false,
    }
}

fn copy_optional(a: &Option<String>) -> (r: Option<String>)
    ensures
        optional_text(r) == optional_text(*a),
{
    match a {
        None => None,
        Some(x) => Some(x.clone()),
    }
}

impl ApprovalChallenge {
    /// A challenge for a request that needs an approval, with a fresh nonce.
    pub fn issue(
        request: &ActionRequest,
        decision: &PolicyDecision,
        verified: Result<(), ProtocolError>,
        now_unix_ms: u64,
        expires_at_unix_ms: u64,
    ) -> (challenge: Result<ApprovalChallenge, ApprovalError>)
        ensures
            challenge is Err == issue_error(
                *request,
                decision@,
                verified,
                now_unix_ms,
                expires_at_unix_ms,
            ) is Some,
            challenge is Err ==> challenge->Err_0 == issue_error(
                *request,
                decision@,
                verified,
                now_unix_ms,
                expires_at_unix_ms,
            )->0,
            challenge is Ok ==> challenge_names(challenge->Ok_0, *request, decision@),
            challenge is Ok ==> challenge->Ok_0.expires_at_unix_ms == expires_at_unix_ms,
    {
        Self::issue_with_nonce(
            request,
            decision,
            verified,
            now_unix_ms,
            expires_at_unix_ms,
            crypto::random_bytes::<32>(),
        )
    }

    /// A challenge with a given nonce.
    pub fn issue_with_nonce(
        request: &ActionRequest,
        decision: &PolicyDecision,
        verified: Result<(), ProtocolError>,
        now_unix_ms: u64,
        expires_at_unix_ms: u64,
        nonce: [u8; 32],
    ) -> (challenge: Result<ApprovalChallenge, ApprovalError>)
        ensures
            challenge is Err == issue_error(
                *request,
                decision@,
                verified,
                now_unix_ms,
                expires_at_unix_ms,
            ) is Some,
            challenge is Err ==> challenge->Err_0 == issue_error(
                *request,
                decision@,
                verified,
                now_unix_ms,
                expires_at_unix_ms,
            )->0,
            challenge is Ok ==> challenge_names(challenge->Ok_0, *request, decision@),
            challenge is Ok ==> challenge->Ok_0.expires_at_unix_ms == expires_at_unix_ms,
            challenge is Ok ==> challenge->Ok_0.approval_nonce == nonce,
    {
        if let Err(error) = verified {
            return Err(ApprovalError::Protocol(error));
        }
        if let Err(error) = ensure_decision_matches(request, decision) {
            return Err(error);
        }
        if decision.kind != PolicyDecisionKind::Approval {
            return Err(ApprovalError::DecisionDoesNotRequireApproval);
        }
        if expires_at_unix_ms <= now_unix_ms || expires_at_unix_ms
            > request.envelope.expires_at_unix_ms {
            return Err(ApprovalError::InvalidExpiry);
        }
        if text::blank(decision.policy_id.as_str()) {
            return Err(ApprovalError::InvalidChallenge);
        }
        Ok(
            ApprovalChallenge {
                request_id: request.envelope.request_id.clone(),
                envelope_digest: request.envelope_digest,
                policy_id: decision.policy_id.clone(),
                required_capability: copy_optional(&decision.required_capability),
                expires_at_unix_ms,
                approval_nonce: nonce,
            },
        )
    }

    /// The same challenge once more.
    pub fn duplicate(&self) -> (challenge: ApprovalChallenge)
        ensures
            challenge.request_id@ == self.request_id@,
            challenge.envelope_digest == self.envelope_digest,
            challenge.policy_id@ == self.policy_id@,
            optional_text(challenge.required_capability) == optional_text(self.required_capability),
            challenge.expires_at_unix_ms == self.expires_at_unix_ms,
            challenge.approval_nonce == self.approval_nonce,
    {
        ApprovalChallenge {
            request_id: self.request_id.clone(),
            envelope_digest: self.envelope_digest,
            policy_id: self.policy_id.clone(),
            required_capability: copy_optional(&self.required_capability),
            expires_at_unix_ms: self.expires_at_unix_ms,
            approval_nonce: self.approval_nonce,
        }
    }
}

/// The public key to register for an approver with this secret key.
pub fn approver_public_key(secret: &[u8; 32]) -> (key: [u8; 32])
    ensures
        key@ == crypto::public_key_of(secret@),
        crypto::is_public_key(key@),
{
    crypto::derive_public_key(secret)
}

/// Signs a challenge under an approver's name.
pub fn sign_approval(
    challenge: ApprovalChallenge,
    approver_id: String,
    secret: &[u8; 32],
) -> (approval: Result<SignedApproval, ApprovalError>)
    ensures
        approval is Ok == can_be_signed(challenge, approver_id@),
        approval is Err ==> approval->Err_0 == ApprovalError::InvalidChallenge,
        approval is Ok ==> {
            &&& approval->Ok_0.challenge == challenge
            &&& approval->Ok_0.approver_id == approver_id
            &&& approval->Ok_0.signature@ == crypto::signature_of(
                secret@,
                message_bytes(challenge, approver_id@),
            )
            &&& crypto::signature_holds(
                crypto::public_key_of(secret@),
                message_bytes(challenge, approver_id@),
                approval->Ok_0.signature@,
            )
        },
{
    if let Err(error) = validate_text(approver_id.as_str()) {
        return Err(error);
    }
    match approval_message(&challenge, approver_id.as_str()) {
        Err(error) => Err(error),
        Ok(message) => {
            let signature = crypto::sign(secret, message.as_slice());
            Ok(SignedApproval { challenge, approver_id, signature })
        },
    }
}

/// A challenge as it is written for a log.
pub open spec fn challenge_line(challenge: ApprovalChallenge) -> Seq<char> {
    "ApprovalChallenge { request_id: "@
        + shown::quoted_text(challenge.request_id@)
        + ", envelope_digest: ["@
        + shown::byte_list(challenge.envelope_digest@)
        + "], policy_id: "@
        + shown::quoted_text(challenge.policy_id@)
        + ", required_capability: "@
        + shown::optional_line(challenge.required_capability)
        + ", expires_at_unix_ms: "@
        + text::decimal_text(challenge.expires_at_unix_ms as nat)
        + ", approval_nonce: ["@
        + shown::byte_list(challenge.approval_nonce@)
        + "] }"@
}

fn challenge_shown(challenge: &ApprovalChallenge) -> (line: Vec<char>)
    ensures
        line@ == challenge_line(*challenge),
{
    let mut line = text::chars_of("ApprovalChallenge { request_id: ");
    shown::push_quoted(&mut line, challenge.request_id.as_str());
    text::push_text(&mut line, ", envelope_digest: [");
    shown::push_bytes(&mut line, challenge.envelope_digest.as_slice());
    text::push_text(&mut line, "], policy_id: ");
    shown::push_quoted(&mut line, challenge.policy_id.as_str());
    text::push_text(&mut line, ", required_capability: ");
    shown::push_optional(&mut line, &challenge.required_capability);
    text::push_text(&mut line, ", expires_at_unix_ms: ");
    shown::push_number(&mut line, challenge.expires_at_unix_ms);
    text::push_text(&mut line, ", approval_nonce: [");
    shown::push_bytes(&mut line, challenge.approval_nonce.as_slice());
    text::push_text(&mut line, "] }");
    line
}

impl SignedApproval {
    /// Who approves what, for a log: the signature is left out.
    pub fn redacted(&self) -> (line: String)
        ensures
            line@ == "SignedApproval { challenge: "@ + challenge_line(self.challenge)
                + ", approver_id: "@ + shown::quoted_text(self.approver_id@)
                + ", signature: \"<redacted>\" }"@,
    {
        let mut line: Vec<char> = text::chars_of("SignedApproval { challenge: ");
        let challenge = challenge_shown(&self.challenge);
        text::push_all(&mut line, challenge.as_slice());
        text::push_text(&mut line, ", approver_id: ");
        shown::push_quoted(&mut line, self.approver_id.as_str());
        text::push_text(&mut line, ", signature: \"<redacted>\" }");
        text::string_of(line.as_slice())
    }
}

// ---------------------------------------------------------------------------
// Authorities

/// How far an authority reaches.
pub open spec fn authority_rank(authority: ApproverAuthority) -> int {
    match authority {
        ApproverAuthority::Approve => 0,
        ApproverAuthority::Elevated => 1,
        ApproverAuthority::Owner => 2,
    }
}

/// The authority that a word names.
pub open spec fn named_authority(value: Seq<char>) -> Option<ApproverAuthority> {
    let word = text::ascii_lower(text::trim(value));
    if word == "approve"@ || word == "approval"@ {
        Some(ApproverAuthority::Approve)
    } else if word == "elevated"@ {
        Some(ApproverAuthority::Elevated)
    } else if word == "owner"@ || word == "full_owner"@ {
        Some(ApproverAuthority::Owner)
    } else {
        None
    }
}

/// The authority that a capability asks for; none for a capability that is not
/// known.
pub open spec fn required_authority(capability: Option<Seq<char>>) -> Option<ApproverAuthority> {
    match capability {
        None => Some(ApproverAuthority::Approve),
        Some(name) => if name == "elevated"@ {
            Some(ApproverAuthority::Elevated)
        } else if name == "owner"@ || name == "full_owner"@ {
            Some(ApproverAuthority::Owner)
        } else {
            None
        },
    }
}

impl ApproverAuthority {
    pub fn parse(value: &str) -> (authority: Result<ApproverAuthority, ApprovalError>)
        ensures
            authority is Ok == named_authority(value@) is Some,
            authority is Ok ==> authority->Ok_0 == named_authority(value@)->0,
            authority is Err ==> authority->Err_0 == ApprovalError::InvalidApproverAuthority,
    {
        let raw = text::chars_of(value);
        let lowered = text::lower_chars(text::trimmed(raw.as_slice()));
        let word = lowered.as_slice();
        if text::spells(word, "approve") || text::spells(word, "approval") {
            Ok(ApproverAuthority::Approve)
        } else if text::spells(word, "elevated") {
            Ok(ApproverAuthority::Elevated)
        } else if text::spells(word, "owner") || text::spells(word, "full_owner") {
            Ok(ApproverAuthority::Owner)
        } else {
            Err(ApprovalError::InvalidApproverAuthority)
        }
    }

    fn required_for(value: &Option<String>) -> (authority: Result<ApproverAuthority, ApprovalError>)
        ensures
            authority is Ok == required_authority(optional_text(*value)) is Some,
            authority is Ok ==> authority->Ok_0 == required_authority(optional_text(*value))->0,
            authority is Err ==> authority->Err_0 == ApprovalError::UnsupportedRequiredCapability,
    {
        match value {
            None => Ok(ApproverAuthority::Approve),
            Some(name) => {
                if text::same_text(name.as_str(), "elevated") {
                    Ok(ApproverAuthority::Elevated)
                } else if text::same_text(name.as_str(), "owner") || text::same_text(
                    name.as_str(),
                    "full_owner",
                ) {
                    Ok(ApproverAuthority::Owner)
                } else {
                    Err(ApprovalError::UnsupportedRequiredCapability)
                }
            },
        }
    }

    fn rank(&self) -> (rank: u8)
        ensures
            rank == authority_rank(*self),
    {
        match self {
            ApproverAuthority::Approve => 0,
            ApproverAuthority::Elevated => 1,
            ApproverAuthority::Owner => 2,
        }
    }
}

// ---------------------------------------------------------------------------
// The verifier

fn verify_challenge_binding(
    request: &ActionRequest,
    decision: &PolicyDecision,
    challenge: &ApprovalChallenge,
    now_unix_ms: u64,
) -> (r: Result<(), ApprovalError>)
    ensures
        r is Err == binding_error(*request, decision@, *challenge, now_unix_ms) is Some,
        r is Err ==> r->Err_0 == binding_error(*request, decision@, *challenge, now_unix_ms)->0,
{
    if !text::same_text(challenge.request_id.as_str(), request.envelope.request_id.as_str())
        || !codec::same_bytes(
        challenge.envelope_digest.as_slice(),
        request.envelope_digest.as_slice(),
    ) || !text::same_text(challenge.policy_id.as_str(), decision.policy_id.as_str())
        || !same_optional(&challenge.required_capability, &decision.required_capability) {
        return Err(ApprovalError::ChallengeMismatch);
    }
    if challenge.expires_at_unix_ms <= now_unix_ms {
        return Err(ApprovalError::ApprovalExpired);
    }
    if challenge.expires_at_unix_ms > request.envelope.expires_at_unix_ms {
        return Err(ApprovalError::InvalidExpiry);
    }
    Ok(())
}

/// Why a challenge does not stand for a request at a time, if it does not.
pub open spec fn binding_error(
    request: ActionRequest,
    decision: DecisionModel,
    challenge: ApprovalChallenge,
    now_unix_ms: u64,
) -> Option<ApprovalError> {
    if !challenge_names(challenge, request, decision) {
        Some(ApprovalError::ChallengeMismatch)
    } else if challenge.expires_at_unix_ms <= now_unix_ms {
        Some(ApprovalError::ApprovalExpired)
    } else if challenge.expires_at_unix_ms > request.envelope.expires_at_unix_ms {
        Some(ApprovalError::InvalidExpiry)
    } else {
        None
    }
}

/// Why an approver may not approve, if that is so; the signature apart.
pub open spec fn approver_error(
    approver: TrustedApprover,
    scoped: bool,
    organization_id: Seq<char>,
    capability: Option<Seq<char>>,
) -> Option<ApprovalError> {
    if approver.revoked {
        Some(ApprovalError::ApproverRevoked)
    } else if required_authority(capability) is None {
        Some(ApprovalError::UnsupportedRequiredCapability)
    } else if authority_rank(approver.authority) < authority_rank(
        required_authority(capability)->0,
    ) {
        Some(ApprovalError::InsufficientApproverAuthority)
    } else if scoped && approver.organization_id is None {
        Some(ApprovalError::ApproverTenantMismatch)
    } else if approver.organization_id is Some && approver.organization_id->0@ != organization_id {
        Some(ApprovalError::ApproverTenantMismatch)
    } else {
        None
    }
}

/// Why an approval is refused, if it is.
pub open spec fn approval_error(
    approvers: Map<Seq<char>, TrustedApprover>,
    scoped: bool,
    request: ActionRequest,
    decision: DecisionModel,
    approval: SignedApproval,
    verified: Result<(), ProtocolError>,
    now_unix_ms: u64,
) -> Option<ApprovalError> {
    let binding = binding_error(request, decision, approval.challenge, now_unix_ms);
    let approver = approvers[approval.approver_id@];
    let refusal = approver_error(
        approver,
        scoped,
        request.envelope.organization_id@,
        decision.required_capability,
    );
    if verified is Err {
        Some(ApprovalError::Protocol(verified->Err_0))
    } else if !decision_matches(request, decision) {
        Some(ApprovalError::DecisionMismatch)
    } else if decision.kind != PolicyDecisionKind::Approval {
        Some(ApprovalError::DecisionDoesNotRequireApproval)
    } else if binding is Some {
        binding
    } else if !approvers.contains_key(approval.approver_id@) {
        Some(ApprovalError::UnknownApprover)
    } else if refusal is Some {
        refusal
    } else if !can_be_signed(approval.challenge, approval.approver_id@) {
        Some(ApprovalError::InvalidChallenge)
    } else if !crypto::is_public_key(approver.key@) || !crypto::signature_holds(
        approver.key@,
        message_bytes(approval.challenge, approval.approver_id@),
        approval.signature@,
    ) {
        Some(ApprovalError::InvalidSignature)
    } else {
        None
    }
}

/// Why an approver cannot be added, if that is so.
pub open spec fn add_error(
    approvers: Map<Seq<char>, TrustedApprover>,
    approver_id: Seq<char>,
    public_key: Seq<u8>,
    organization_id: Option<Seq<char>>,
) -> Option<ApprovalError> {
    if !is_field(approver_id) {
        Some(ApprovalError::InvalidChallenge)
    } else if approvers.contains_key(approver_id) {
        Some(ApprovalError::DuplicateApprover)
    } else if organization_id is Some && !is_field(organization_id->0) {
        Some(ApprovalError::InvalidChallenge)
    } else if !crypto::is_public_key(public_key) {
        Some(ApprovalError::InvalidPublicKey)
    } else {
        None
    }
}

impl ApprovalVerifier {
    /// The approvers by name.
    pub closed spec fn approvers(&self) -> Map<Seq<char>, TrustedApprover> {
        self.approvers@
    }

    /// Approvers must belong to an organization.
    pub closed spec fn scoped(&self) -> bool {
        self.require_organization_scope
    }

    pub fn new() -> (verifier: ApprovalVerifier)
        ensures
            verifier.approvers() == Map::<Seq<char>, TrustedApprover>::empty(),
            !verifier.scoped(),
    {
        ApprovalVerifier { approvers: Table::new(), require_organization_scope: false }
    }

    pub fn require_organization_scope(&mut self)
        ensures
            final(self).approvers() == old(self).approvers(),
            final(self).scoped(),
    {
        self.require_organization_scope = true;
    }

    pub fn add_approver(&mut self, approver_id: String, public_key: [u8; 32]) -> (r: Result<
        (),
        ApprovalError,
    >)
        ensures
            final(self).scoped() == old(self).scoped(),
            r is Err == add_error(old(self).approvers(), approver_id@, public_key@, None) is Some,
            r is Err ==> r->Err_0 == add_error(
                old(self).approvers(),
                approver_id@,
                public_key@,
                None,
            )->0,
            r is Err ==> final(self).approvers() == old(self).approvers(),
            r is Ok ==> final(self).approvers() == old(self).approvers().insert(
                approver_id@,
                (TrustedApprover {
                    key: public_key,
                    authority: ApproverAuthority::Approve,
                    organization_id: None,
                    revoked: false,
                }),
            ),
    {
        self.add_approver_with_authority(approver_id, public_key, ApproverAuthority::Approve)
    }

    pub fn add_approver_with_authority(
        &mut self,
        approver_id: String,
        public_key: [u8; 32],
        authority: ApproverAuthority,
    ) -> (r: Result<(), ApprovalError>)
        ensures
            final(self).scoped() == old(self).scoped(),
            r is Err == add_error(old(self).approvers(), approver_id@, public_key@, None) is Some,
            r is Err ==> r->Err_0 == add_error(
                old(self).approvers(),
                approver_id@,
                public_key@,
                None,
            )->0,
            r is Err ==> final(self).approvers() == old(self).approvers(),
            r is Ok ==> final(self).approvers() == old(self).approvers().insert(
                approver_id@,
                (TrustedApprover {
                    key: public_key,
                    authority,
                    organization_id: None,
                    revoked: false,
                }),
            ),
    {
        self.add_approver_for_organization(approver_id, public_key, authority, None)
    }

    pub fn add_approver_for_organization(
        &mut self,
        approver_id: String,
        public_key: [u8; 32],
        authority: ApproverAuthority,
        organization_id: Option<String>,
    ) -> (r: Result<(), ApprovalError>)
        ensures
            final(self).scoped() == old(self).scoped(),
            r is Err == add_error(
                old(self).approvers(),
                approver_id@,
                public_key@,
                optional_text(organization_id),
            ) is Some,
            r is Err ==> r->Err_0 == add_error(
                old(self).approvers(),
                approver_id@,
                public_key@,
                optional_text(organization_id),
            )->0,
            r is Err ==> final(self).approvers() == old(self).approvers(),
            r is Ok ==> final(self).approvers() == old(self).approvers().insert(
                approver_id@,
                (TrustedApprover { key: public_key, authority, organization_id, revoked: false }),
            ),
    {
        if let Err(error) = validate_text(approver_id.as_str()) {
            return Err(error);
        }
        if self.approvers.contains(approver_id.as_str()) {
            return Err(ApprovalError::DuplicateApprover);
        }
        if let Some(organization) = &organization_id {
            if let Err(error) = validate_text(organization.as_str()) {
                return Err(error);
            }
        }
        if !crypto::decodes_as_key(&public_key) {
            return Err(ApprovalError::InvalidPublicKey);
        }
        self.approvers.insert(
            approver_id,
            TrustedApprover { key: public_key, authority, organization_id, revoked: false },
        );
        Ok(())
    }

    pub fn revoke_approver(&mut self, approver_id: &str) -> (r: Result<(), ApprovalError>)
        ensures
            final(self).scoped() == old(self).scoped(),
            r is Ok == (is_field(approver_id@) && old(self).approvers().contains_key(approver_id@)),
            r is Err ==> r->Err_0 == (if is_field(approver_id@) {
                ApprovalError::UnknownApprover
            } else {
                ApprovalError::InvalidChallenge
            }),
            r is Err ==> final(self).approvers() == old(self).approvers(),
            r is Ok ==> final(self).approvers() == old(self).approvers().insert(
                approver_id@,
                (TrustedApprover { revoked: true, ..old(self).approvers()[approver_id@] }),
            ),
    {
        if let Err(error) = validate_text(approver_id) {
            return Err(error);
        }
        match self.approvers.remove(approver_id) {
            None => {
                proof {
                    assert(self.approvers() =~= old(self).approvers());
                }
                Err(ApprovalError::UnknownApprover)
            },
            Some(approver) => {
                let revoked = TrustedApprover { revoked: true, ..approver };
                self.approvers.insert(text::copied(approver_id), revoked);
                proof {
                    assert(self.approvers() =~= old(self).approvers().insert(approver_id@, revoked));
                }
                Ok(())
            },
        }
    }

    pub fn rotate_approver_for_organization(
        &mut self,
        approver_id: String,
        public_key: [u8; 32],
        authority: ApproverAuthority,
        organization_id: String,
    ) -> (r: Result<(), ApprovalError>)
        ensures
            final(self).scoped() == old(self).scoped(),
            r is Ok == (is_field(approver_id@) && is_field(organization_id@)
                && crypto::is_public_key(public_key@)),
            r is Err ==> r->Err_0 == (if is_field(approver_id@) && is_field(organization_id@) {
                ApprovalError::InvalidPublicKey
            } else {
                ApprovalError::InvalidChallenge
            }),
            r is Err ==> final(self).approvers() == old(self).approvers(),
            r is Ok ==> final(self).approvers() == old(self).approvers().insert(
                approver_id@,
                (TrustedApprover {
                    key: public_key,
                    authority,
                    organization_id: Some(organization_id),
                    revoked: false,
                }),
            ),
    {
        if let Err(error) = validate_text(approver_id.as_str()) {
            return Err(error);
        }
        if let Err(error) = validate_text(organization_id.as_str()) {
            return Err(error);
        }
        if !crypto::decodes_as_key(&public_key) {
            return Err(ApprovalError::InvalidPublicKey);
        }
        self.approvers.insert(
            approver_id,
            TrustedApprover {
                key: public_key,
                authority,
                organization_id: Some(organization_id),
                revoked: false,
            },
        );
        Ok(())
    }

    /// Checks an approval of a request; `verified` is what the check of the
    /// request's seal gave.
    pub fn verify(
        &self,
        request: &ActionRequest,
        decision: &PolicyDecision,
        approval: &SignedApproval,
        verified: Result<(), ProtocolError>,
        now_unix_ms: u64,
    ) -> (r: Result<(), ApprovalError>)
        ensures
            r is Err == approval_error(
                self.approvers(),
                self.scoped(),
                *request,
                decision@,
                *approval,
                verified,
                now_unix_ms,
            ) is Some,
            r is Err ==> r->Err_0 == approval_error(
                self.approvers(),
                self.scoped(),
                *request,
                decision@,
                *approval,
                verified,
                now_unix_ms,
            )->0,
    {
        if let Err(error) = verified {
            return Err(ApprovalError::Protocol(error));
        }
        if let Err(error) = ensure_decision_matches(request, decision) {
            return Err(error);
        }
        if decision.kind != PolicyDecisionKind::Approval {
            return Err(ApprovalError::DecisionDoesNotRequireApproval);
        }
        if let Err(error) = verify_challenge_binding(
            request,
            decision,
            &approval.challenge,
            now_unix_ms,
        ) {
            return Err(error);
        }
        let approver = match self.approvers.get(approval.approver_id.as_str()) {
            None => {
                return Err(ApprovalError::UnknownApprover);
            },
            Some(approver) => approver,
        };
        if approver.revoked {
            return Err(ApprovalError::ApproverRevoked);
        }
        let required = match ApproverAuthority::required_for(&decision.required_capability) {
            Err(error) => {
                return Err(error);
            },
            Ok(required) => required,
        };
        if approver.authority.rank() < required.rank() {
            return Err(ApprovalError::InsufficientApproverAuthority);
        }
        if self.require_organization_scope && approver.organization_id.is_none() {
            return Err(ApprovalError::ApproverTenantMismatch);
        }
        if let Some(organization_id) = &approver.organization_id {
            if !text::same_text(
                organization_id.as_str(),
                request.envelope.organization_id.as_str(),
            ) {
                return Err(ApprovalError::ApproverTenantMismatch);
            }
        }
        match approval_message(&approval.challenge, approval.approver_id.as_str()) {
            Err(error) => Err(error),
            Ok(message) => {
                if crypto::verify(&approver.key, message.as_slice(), &approval.signature) {
                    Ok(())
                } else {
                    Err(ApprovalError::InvalidSignature)
                }
            },
        }
    }
}

// ---------------------------------------------------------------------------
// Laws

proof fn lemma_peel(a: Seq<u8>, rest_a: Seq<u8>, b: Seq<u8>, rest_b: Seq<u8>)
    requires
        a + rest_a == b + rest_b,
        a.len() == b.len(),
    ensures
        a == b,
        rest_a == rest_b,
{
    let n = a.len() as int;
    assert((a + rest_a).take(n) =~= a);
    assert((b + rest_b).take(n) =~= b);
    assert((a + rest_a).skip(n) =~= rest_a);
    assert((b + rest_b).skip(n) =~= rest_b);
}

proof fn lemma_peel_field(a: Seq<char>, rest_a: Seq<u8>, b: Seq<char>, rest_b: Seq<u8>)
    requires
        is_field(a),
        is_field(b),
        field_bytes(a) + rest_a == field_bytes(b) + rest_b,
    ensures
        a == b,
        rest_a == rest_b,
{
    let x = encode_utf8(a);
    let y = encode_utf8(b);
    assert(field_bytes(a) + rest_a =~= codec::be32(x.len() as int) + (x + rest_a));
    assert(field_bytes(b) + rest_b =~= codec::be32(y.len() as int) + (y + rest_b));
    lemma_peel(codec::be32(x.len() as int), x + rest_a, codec::be32(y.len() as int), y + rest_b);
    codec::lemma_be32_injective(x.len() as int, y.len() as int);
    lemma_peel(x, rest_a, y, rest_b);
    crate::table::lemma_same_bytes(a, b);
}

/// The signed message binds every part of the challenge and the approver's
/// name: two challenges with the same message are the same.
pub proof fn message_binds_every_field(
    a: ApprovalChallenge,
    approver_a: Seq<char>,
    b: ApprovalChallenge,
    approver_b: Seq<char>,
)
    requires
        can_be_signed(a, approver_a),
        can_be_signed(b, approver_b),
        message_bytes(a, approver_a) == message_bytes(b, approver_b),
    ensures
        a.request_id@ == b.request_id@,
        a.envelope_digest@ == b.envelope_digest@,
        a.policy_id@ == b.policy_id@,
        optional_text(a.required_capability) == optional_text(b.required_capability),
        a.expires_at_unix_ms == b.expires_at_unix_ms,
        a.approval_nonce@ == b.approval_nonce@,
        approver_a == approver_b,
{
    let end_a = field_bytes(approver_a);
    let end_b = field_bytes(approver_b);
    let nonce_a = a.approval_nonce@ + end_a;
    let nonce_b = b.approval_nonce@ + end_b;
    let time_a = codec::be64(a.expires_at_unix_ms as int);
    let time_b = codec::be64(b.expires_at_unix_ms as int);
    let cap_a = optional_text(a.required_capability);
    let cap_b = optional_text(b.required_capability);
    let from_cap_a = capability_bytes(cap_a) + (time_a + nonce_a);
    let from_cap_b = capability_bytes(cap_b) + (time_b + nonce_b);
    let from_policy_a = field_bytes(a.policy_id@) + from_cap_a;
    let from_policy_b = field_bytes(b.policy_id@) + from_cap_b;
    let from_digest_a = a.envelope_digest@ + from_policy_a;
    let from_digest_b = b.envelope_digest@ + from_policy_b;
    let from_id_a = field_bytes(a.request_id@) + from_digest_a;
    let from_id_b = field_bytes(b.request_id@) + from_digest_b;
    lemma_peel(domain_bytes(), from_id_a, domain_bytes(), from_id_b);
    lemma_peel_field(a.request_id@, from_digest_a, b.request_id@, from_digest_b);
    lemma_peel(a.envelope_digest@, from_policy_a, b.envelope_digest@, from_policy_b);
    lemma_peel_field(a.policy_id@, from_cap_a, b.policy_id@, from_cap_b);
    assert(from_cap_a[0] == capability_bytes(cap_a)[0]);
    assert(from_cap_b[0] == capability_bytes(cap_b)[0]);
    match (cap_a, cap_b) {
        (Some(x), Some(y)) => {
            assert(from_cap_a =~= seq![1u8] + (field_bytes(x) + (time_a + nonce_a)));
            assert(from_cap_b =~= seq![1u8] + (field_bytes(y) + (time_b + nonce_b)));
            lemma_peel(
                seq![1u8],
                field_bytes(x) + (time_a + nonce_a),
                seq![1u8],
                field_bytes(y) + (time_b + nonce_b),
            );
            lemma_peel_field(x, time_a + nonce_a, y, time_b + nonce_b);
        },
        (None, None) => {
            lemma_peel(seq![0u8], time_a + nonce_a, seq![0u8], time_b + nonce_b);
        },
        _ => {
            assert(false);
        },
    }
    lemma_peel(time_a, nonce_a, time_b, nonce_b);
    codec::lemma_be64_injective(a.expires_at_unix_ms as int, b.expires_at_unix_ms as int);
    lemma_peel(a.approval_nonce@, end_a, b.approval_nonce@, end_b);
    assert(end_a + Seq::<u8>::empty() =~= end_a);
    assert(end_b + Seq::<u8>::empty() =~= end_b);
    lemma_peel_field(approver_a, Seq::empty(), approver_b, Seq::empty());
}

/// An approval that its approver signed, for the very request and decision,
/// with enough authority and in time, is accepted.
pub proof fn signed_approvals_are_accepted(
    approvers: Map<Seq<char>, TrustedApprover>,
    scoped: bool,
    request: ActionRequest,
    decision: DecisionModel,
    approval: SignedApproval,
    secret: Seq<u8>,
    now_unix_ms: u64,
)
    requires
        issue_error(
            request,
            decision,
            Ok(()),
            now_unix_ms,
            approval.challenge.expires_at_unix_ms,
        ) is None,
        challenge_names(approval.challenge, request, decision),
        can_be_signed(approval.challenge, approval.approver_id@),
        crypto::signature_holds(
            crypto::public_key_of(secret),
            message_bytes(approval.challenge, approval.approver_id@),
            approval.signature@,
        ),
        approvers.contains_key(approval.approver_id@),
        approvers[approval.approver_id@].key@ == crypto::public_key_of(secret),
        crypto::is_public_key(crypto::public_key_of(secret)),
        approver_error(
            approvers[approval.approver_id@],
            scoped,
            request.envelope.organization_id@,
            decision.required_capability,
        ) is None,
    ensures
        approval_error(approvers, scoped, request, decision, approval, Ok(()), now_unix_ms) is None,
{
}

/// What is accepted names the request, its digest, the policy and the
/// capability, has not expired, and holds under the approver's key.
pub proof fn accepted_approvals_are_bound(
    approvers: Map<Seq<char>, TrustedApprover>,
    scoped: bool,
    request: ActionRequest,
    decision: DecisionModel,
    approval: SignedApproval,
    verified: Result<(), ProtocolError>,
    now_unix_ms: u64,
)
    requires
        approval_error(approvers, scoped, request, decision, approval, verified, now_unix_ms) is None,
    ensures
        verified is Ok,
        decision.kind == PolicyDecisionKind::Approval,
        decision_matches(request, decision),
        challenge_names(approval.challenge, request, decision),
        now_unix_ms < approval.challenge.expires_at_unix_ms <= request.envelope.expires_at_unix_ms,
        approvers.contains_key(approval.approver_id@),
        !approvers[approval.approver_id@].revoked,
        crypto::signature_holds(
            approvers[approval.approver_id@].key@,
            message_bytes(approval.challenge, approval.approver_id@),
            approval.signature@,
        ),
{
}

/// A revoked approver approves nothing.
pub proof fn revoked_approvers_are_refused(
    approvers: Map<Seq<char>, TrustedApprover>,
    scoped: bool,
    request: ActionRequest,
    decision: DecisionModel,
    approval: SignedApproval,
    verified: Result<(), ProtocolError>,
    now_unix_ms: u64,
)
    requires
        approvers.contains_key(approval.approver_id@),
        approvers[approval.approver_id@].revoked,
    ensures
        approval_error(approvers, scoped, request, decision, approval, verified, now_unix_ms) is Some,
        approval_error(
            approvers.insert(
                approval.approver_id@,
                (TrustedApprover { revoked: false, ..approvers[approval.approver_id@] }),
            ),
            scoped,
            request,
            decision,
            approval,
            verified,
            now_unix_ms,
        ) is None ==> approval_error(
            approvers,
            scoped,
            request,
            decision,
            approval,
            verified,
            now_unix_ms,
        ) == Some(ApprovalError::ApproverRevoked),
{
}

/// An approver of one organization approves nothing of another, and where
/// organizations are required, one without an organization approves nothing.
pub proof fn foreign_approvers_are_refused(
    approvers: Map<Seq<char>, TrustedApprover>,
    scoped: bool,
    request: ActionRequest,
    decision: DecisionModel,
    approval: SignedApproval,
    verified: Result<(), ProtocolError>,
    now_unix_ms: u64,
)
    requires
        approvers.contains_key(approval.approver_id@),
        match approvers[approval.approver_id@].organization_id {
            Some(organization) => organization@ != request.envelope.organization_id@,
            None => scoped,
        },
    ensures
        approval_error(approvers, scoped, request, decision, approval, verified, now_unix_ms) is Some,
{
}

/// A capability that is not known is never approved.
pub proof fn unknown_capabilities_fail_closed(
    approvers: Map<Seq<char>, TrustedApprover>,
    scoped: bool,
    request: ActionRequest,
    decision: DecisionModel,
    approval: SignedApproval,
    verified: Result<(), ProtocolError>,
    now_unix_ms: u64,
)
    requires
        required_authority(decision.required_capability) is None,
    ensures
        approval_error(approvers, scoped, request, decision, approval, verified, now_unix_ms) is Some,
{
}

/// An authority is enough for a capability: every one where none is asked for, all
/// but the plain one for `elevated`, and only that of an owner for an owner's.
pub open spec fn is_enough(authority: ApproverAuthority, capability: Option<Seq<char>>) -> bool {
    match capability {
        None => true,
        Some(name) => {
            ||| name == "elevated"@ && !(authority is Approve)
            ||| (name == "owner"@ || name == "full_owner"@) && authority is Owner
        },
    }
}

/// A capability that an approval can be asked for.
pub open spec fn is_known(capability: Option<Seq<char>>) -> bool {
    match capability {
        None => true,
        Some(name) => name == "elevated"@ || name == "owner"@ || name == "full_owner"@,
    }
}

/// The approver may speak for the organization.
pub open spec fn is_in_scope(
    approver: TrustedApprover,
    scoped: bool,
    organization_id: Seq<char>,
) -> bool {
    match approver.organization_id {
        Some(own) => own@ == organization_id,
        None => !scoped,
    }
}

proof fn lemma_capabilities_differ()
    ensures
        "elevated"@ != "owner"@,
        "elevated"@ != "full_owner"@,
        "owner"@ != "full_owner"@,
{
    reveal_strlit("elevated");
    reveal_strlit("owner");
    reveal_strlit("full_owner");
    assert("elevated"@.len() == 8);
    assert("owner"@.len() == 5);
    assert("full_owner"@.len() == 10);
}

/// An approver who is not revoked is refused for a lack of authority if and only if
/// the capability is known and the authority is below it. Whoever has the authority
/// that is asked for, or a higher one, is not refused for it; and whoever is refused
/// for it is refused for every capability that asks for as much.
pub proof fn higher_authorities_approve_what_lower_ones_do(
    approver: TrustedApprover,
    scoped: bool,
    organization_id: Seq<char>,
    capability: Option<Seq<char>>,
)
    ensures
        (approver_error(approver, scoped, organization_id, capability) == Some(
            ApprovalError::InsufficientApproverAuthority,
        )) == (!approver.revoked && is_known(capability) && !is_enough(
            approver.authority,
            capability,
        )),
        approver_error(approver, scoped, organization_id, capability) is None == (
        !approver.revoked && is_enough(approver.authority, capability) && is_in_scope(
            approver,
            scoped,
            organization_id,
        )),
        forall|higher: ApproverAuthority|
            approver_error(approver, scoped, organization_id, capability) is None && (
            approver.authority is Approve || higher is Owner || higher == approver.authority)
                ==> #[trigger] approver_error(
                (TrustedApprover { authority: higher, ..approver }),
                scoped,
                organization_id,
                capability,
            ) is None,
{
    lemma_capabilities_differ();
}

/// An approval is accepted if and only if the seal of the request holds, the decision
/// is on this very request and asks for an approval, the challenge names the request,
/// its digest, the policy and the capability and is in time, the approver is trusted,
/// not revoked, of enough authority and in scope, and the signature is the approver's
/// over a challenge that can be signed.
pub proof fn approvals_are_accepted_exactly_when_they_hold(
    approvers: Map<Seq<char>, TrustedApprover>,
    scoped: bool,
    request: ActionRequest,
    decision: DecisionModel,
    approval: SignedApproval,
    verified: Result<(), ProtocolError>,
    now_unix_ms: u64,
)
    ensures
        approval_error(approvers, scoped, request, decision, approval, verified, now_unix_ms)
            is None == {
            let challenge = approval.challenge;
            let approver = approvers[approval.approver_id@];
            &&& verified is Ok
            &&& decision.request_id == request.envelope.request_id@
            &&& decision.envelope_digest@ == request.envelope_digest@
            &&& decision.kind is Approval
            &&& challenge.request_id@ == request.envelope.request_id@
            &&& challenge.envelope_digest@ == request.envelope_digest@
            &&& challenge.policy_id@ == decision.policy_id
            &&& optional_text(challenge.required_capability) == decision.required_capability
            &&& now_unix_ms < challenge.expires_at_unix_ms
            &&& challenge.expires_at_unix_ms <= request.envelope.expires_at_unix_ms
            &&& approvers.contains_key(approval.approver_id@)
            &&& !approver.revoked
            &&& is_enough(approver.authority, decision.required_capability)
            &&& is_in_scope(approver, scoped, request.envelope.organization_id@)
            &&& can_be_signed(challenge, approval.approver_id@)
            &&& crypto::is_public_key(approver.key@)
            &&& crypto::signature_holds(
                approver.key@,
                message_bytes(challenge, approval.approver_id@),
                approval.signature@,
            )
        },
{
    lemma_capabilities_differ();
}

/// Of a refused approval the reason is told, the first that holds of those in this
/// order.
pub proof fn refusals_name_the_first_reason(
    approvers: Map<Seq<char>, TrustedApprover>,
    scoped: bool,
    request: ActionRequest,
    decision: DecisionModel,
    approval: SignedApproval,
    now_unix_ms: u64,
)
    ensures
        ({
            let refusal = |verified: Result<(), ProtocolError>|
                approval_error(
                    approvers,
                    scoped,
                    request,
                    decision,
                    approval,
                    verified,
                    now_unix_ms,
                );
            let challenge = approval.challenge;
            let approver = approvers[approval.approver_id@];
            let matches = decision.request_id == request.envelope.request_id@
                && decision.envelope_digest@ == request.envelope_digest@;
            let names = challenge.request_id@ == request.envelope.request_id@
                && challenge.envelope_digest@ == request.envelope_digest@ && challenge.policy_id@
                == decision.policy_id && optional_text(challenge.required_capability)
                == decision.required_capability;
            let bound = matches && decision.kind is Approval && names;
            let timely = bound && now_unix_ms < challenge.expires_at_unix_ms
                && challenge.expires_at_unix_ms <= request.envelope.expires_at_unix_ms;
            let trusted = timely && approvers.contains_key(approval.approver_id@)
                && !approver.revoked;
            let able = trusted && is_enough(approver.authority, decision.required_capability);
            let scope = is_in_scope(approver, scoped, request.envelope.organization_id@);
            &&& forall|error: ProtocolError| #[trigger]
                refusal(Err(error)) == Some(ApprovalError::Protocol(error))
            &&& !matches ==> refusal(Ok(())) == Some(ApprovalError::DecisionMismatch)
            &&& matches && !(decision.kind is Approval) ==> refusal(Ok(())) == Some(
                ApprovalError::DecisionDoesNotRequireApproval,
            )
            &&& matches && decision.kind is Approval && !names ==> refusal(Ok(())) == Some(
                ApprovalError::ChallengeMismatch,
            )
            &&& bound && challenge.expires_at_unix_ms <= now_unix_ms ==> refusal(Ok(())) == Some(
                ApprovalError::ApprovalExpired,
            )
            &&& bound && now_unix_ms < challenge.expires_at_unix_ms
                && request.envelope.expires_at_unix_ms < challenge.expires_at_unix_ms
                ==> refusal(Ok(())) == Some(ApprovalError::InvalidExpiry)
            &&& timely && !approvers.contains_key(approval.approver_id@) ==> refusal(Ok(()))
                == Some(ApprovalError::UnknownApprover)
            &&& timely && approvers.contains_key(approval.approver_id@) && approver.revoked
                ==> refusal(Ok(())) == Some(ApprovalError::ApproverRevoked)
            &&& trusted && !is_known(decision.required_capability) ==> refusal(Ok(())) == Some(
                ApprovalError::UnsupportedRequiredCapability,
            )
            &&& trusted && is_known(decision.required_capability) && !is_enough(
                approver.authority,
                decision.required_capability,
            ) ==> refusal(Ok(())) == Some(ApprovalError::InsufficientApproverAuthority)
            &&& able && !scope ==> refusal(Ok(())) == Some(ApprovalError::ApproverTenantMismatch)
            &&& able && scope && !can_be_signed(challenge, approval.approver_id@) ==> refusal(
                Ok(()),
            ) == Some(ApprovalError::InvalidChallenge)
            &&& able && scope && can_be_signed(challenge, approval.approver_id@) && !(
            crypto::is_public_key(approver.key@) && crypto::signature_holds(
                approver.key@,
                message_bytes(challenge, approval.approver_id@),
                approval.signature@,
            )) ==> refusal(Ok(())) == Some(ApprovalError::InvalidSignature)
        }),
{
    lemma_capabilities_differ();
}

/// A text can be signed if and only if it says something, is at most 4096 bytes long,
/// and has no zero character; a challenge can, if its texts and the name of the
/// approver can.
pub proof fn texts_to_sign_say_something(challenge: ApprovalChallenge, approver_id: Seq<char>)
    ensures
        can_be_signed(challenge, approver_id) == {
            let fits = |value: Seq<char>|
                (exists|i: int|
                    0 <= i < value.len() && !text::is_white_space(#[trigger] value[i]))
                    && text::byte_len(value) <= 4096 && (forall|i: int|
                    0 <= i < value.len() ==> #[trigger] value[i] != '\0');
            &&& fits(challenge.request_id@)
            &&& fits(challenge.policy_id@)
            &&& (challenge.required_capability matches Some(name) ==> fits(name@))
            &&& fits(approver_id)
        },
{
    let fits = |value: Seq<char>|
        (exists|i: int| 0 <= i < value.len() && !text::is_white_space(#[trigger] value[i]))
            && text::byte_len(value) <= 4096 && (forall|i: int|
            0 <= i < value.len() ==> #[trigger] value[i] != '\0');
    assert forall|value: Seq<char>| is_field(value) == #[trigger] fits(value) by {
        if !value.contains('\0') {
            assert forall|i: int| 0 <= i < value.len() implies #[trigger] value[i] != '\0' by {
                if value[i] == '\0' {
                    assert(value.contains('\0'));
                }
            }
        }
    }
    assert(is_field(challenge.request_id@) == fits(challenge.request_id@));
    assert(is_field(challenge.policy_id@) == fits(challenge.policy_id@));
    if let Some(name) = challenge.required_capability {
        assert(is_field(name@) == fits(name@));
    }
    assert(is_field(approver_id) == fits(approver_id));
}

/// The message begins with the name and the version of what is signed, and ends with
/// the nonce and the name of the approver behind its length.
pub proof fn messages_are_marked_as_approvals(challenge: ApprovalChallenge, approver_id: Seq<char>)
    requires
        can_be_signed(challenge, approver_id),
    ensures
        ({
            let message = message_bytes(challenge, approver_id);
            let mark = encode_utf8("vor-commander:approval:v1\0"@);
            let tail = challenge.approval_nonce@ + codec::be32(
                text::byte_len(approver_id) as int,
            ) + encode_utf8(approver_id);
            &&& mark.is_prefix_of(message)
            &&& tail.is_suffix_of(message)
            &&& message.len() == mark.len() + text::byte_len(challenge.request_id@)
                + text::byte_len(challenge.policy_id@) + text::byte_len(approver_id) + 85 + (
            match challenge.required_capability {
                Some(name) => text::byte_len(name@) + 4,
                None => 0,
            })
        }),
{
    let message = message_bytes(challenge, approver_id);
    let mark = encode_utf8("vor-commander:approval:v1\0"@);
    let tail = challenge.approval_nonce@ + codec::be32(text::byte_len(approver_id) as int)
        + encode_utf8(approver_id);
    assert(tail =~= challenge.approval_nonce@ + field_bytes(approver_id));
    assert(message.subrange(0, mark.len() as int) =~= mark);
    assert(message.subrange(message.len() - tail.len(), message.len() as int) =~= tail);
}

/// A challenge is issued if and only if the seal of the request holds, the decision is
/// on this very request, asks for an approval and names its policy, and the challenge
/// ends later than now and no later than the request.
pub proof fn challenges_are_issued_exactly_when_asked_for(
    request: ActionRequest,
    decision: DecisionModel,
    verified: Result<(), ProtocolError>,
    now_unix_ms: u64,
    expires_at_unix_ms: u64,
)
    ensures
        issue_error(request, decision, verified, now_unix_ms, expires_at_unix_ms) is None == {
            &&& verified is Ok
            &&& decision.request_id == request.envelope.request_id@
            &&& decision.envelope_digest@ == request.envelope_digest@
            &&& decision.kind is Approval
            &&& now_unix_ms < expires_at_unix_ms
            &&& expires_at_unix_ms <= request.envelope.expires_at_unix_ms
            &&& exists|i: int|
                0 <= i < decision.policy_id.len() && !text::is_white_space(
                    #[trigger] decision.policy_id[i],
                )
        },
{
}

/// An approver is added if and only if the name can be signed and is new, the
/// organization can be signed, if there is one, and the key is one.
pub proof fn approvers_are_added_exactly_when_they_can_sign(
    approvers: Map<Seq<char>, TrustedApprover>,
    approver_id: Seq<char>,
    public_key: Seq<u8>,
    organization_id: Option<Seq<char>>,
)
    ensures
        add_error(approvers, approver_id, public_key, organization_id) is None == {
            &&& is_field(approver_id)
            &&& !approvers.dom().contains(approver_id)
            &&& (organization_id matches Some(organization) ==> is_field(organization))
            &&& crypto::is_public_key(public_key)
        },
        is_field(approver_id) && approvers.dom().contains(approver_id) ==> add_error(
            approvers,
            approver_id,
            public_key,
            organization_id,
        ) == Some(ApprovalError::DuplicateApprover),
{
}

/// The words for authorities, in letters of any case and with white space around them.
pub proof fn authorities_are_named_by_words(value: Seq<char>)
    ensures
        ({
            let is = |word: Seq<char>| text::ascii_lower(text::trim(value)) == word;
            &&& named_authority(value) == Some(ApproverAuthority::Approve) <==> is("approve"@)
                || is("approval"@)
            &&& named_authority(value) == Some(ApproverAuthority::Elevated) <==> is("elevated"@)
            &&& named_authority(value) == Some(ApproverAuthority::Owner) <==> is("owner"@) || is(
                "full_owner"@,
            )
        }),
{
    reveal_strlit("approve");
    reveal_strlit("approval");
    reveal_strlit("elevated");
    reveal_strlit("owner");
    reveal_strlit("full_owner");
    assert("approve"@.len() == 7);
    assert("approval"@.len() == 8);
    assert("elevated"@.len() == 8);
    assert("owner"@.len() == 5);
    assert("full_owner"@.len() == 10);
    assert("approval"@[0] == 'a' && "elevated"@[0] == 'e');
}

/// A challenge is shown by its fields, in this order.
pub proof fn challenges_are_shown_by_field(challenge: ApprovalChallenge)
    ensures
        challenge_line(challenge) == "ApprovalChallenge { "@ + shown::field("request_id"@, shown::quoted_text(challenge.request_id@)) + ", "@
            + shown::field("envelope_digest"@, shown::between("["@, shown::byte_list(challenge.envelope_digest@), "]"@)) + ", "@
            + shown::field("policy_id"@, shown::quoted_text(challenge.policy_id@)) + ", "@
            + shown::field("required_capability"@, shown::optional_line(challenge.required_capability)) + ", "@
            + shown::field("expires_at_unix_ms"@, text::decimal_text(challenge.expires_at_unix_ms as nat)) + ", "@
            + shown::field("approval_nonce"@, shown::between("["@, shown::byte_list(challenge.approval_nonce@), "]"@)) + " }"@,
{
    reveal_strlit(", ");
    reveal_strlit(": ");
    reveal_strlit(" }");
    reveal_strlit("ApprovalChallenge { ");
    reveal_strlit("ApprovalChallenge { request_id: ");
    reveal_strlit("request_id");
    assert("ApprovalChallenge { request_id: "@ =~= "ApprovalChallenge { "@ + "request_id"@ + ": "@);
    let s0 = "ApprovalChallenge { "@ + shown::field("request_id"@, shown::quoted_text(challenge.request_id@));
    assert("ApprovalChallenge { request_id: "@ + shown::quoted_text(challenge.request_id@) =~= s0);
    reveal_strlit("envelope_digest");
    reveal_strlit(", envelope_digest: [");
    reveal_strlit("[");
    assert(", envelope_digest: ["@ =~= ", "@ + "envelope_digest"@ + ": "@ + "["@);
    let lead1 = ", envelope_digest: ["@;
    reveal_strlit("]");
    reveal_strlit("policy_id");
    reveal_strlit("], policy_id: ");
    let lead2 = ", "@ + "policy_id"@ + ": "@;
    assert("], policy_id: "@ =~= "]"@ + lead2);
    shown::lemma_list_field(s0, lead1, "["@, "envelope_digest"@, shown::byte_list(challenge.envelope_digest@), "]"@, lead2);
    let s1 = s0 + ", "@ + shown::field("envelope_digest"@, shown::between("["@, shown::byte_list(challenge.envelope_digest@), "]"@));
    shown::lemma_field(s1, lead2, "policy_id"@, shown::quoted_text(challenge.policy_id@));
    let s2 = s1 + ", "@ + shown::field("policy_id"@, shown::quoted_text(challenge.policy_id@));
    reveal_strlit("required_capability");
    reveal_strlit(", required_capability: ");
    assert(", required_capability: "@ =~= ", "@ + "required_capability"@ + ": "@);
    let lead3 = ", required_capability: "@;
    shown::lemma_field(s2, lead3, "required_capability"@, shown::optional_line(challenge.required_capability));
    let s3 = s2 + ", "@ + shown::field("required_capability"@, shown::optional_line(challenge.required_capability));
    reveal_strlit("expires_at_unix_ms");
    reveal_strlit(", expires_at_unix_ms: ");
    assert(", expires_at_unix_ms: "@ =~= ", "@ + "expires_at_unix_ms"@ + ": "@);
    let lead4 = ", expires_at_unix_ms: "@;
    shown::lemma_field(s3, lead4, "expires_at_unix_ms"@, text::decimal_text(challenge.expires_at_unix_ms as nat));
    let s4 = s3 + ", "@ + shown::field("expires_at_unix_ms"@, text::decimal_text(challenge.expires_at_unix_ms as nat));
    reveal_strlit("approval_nonce");
    reveal_strlit(", approval_nonce: [");
    assert(", approval_nonce: ["@ =~= ", "@ + "approval_nonce"@ + ": "@ + "["@);
    let lead5 = ", approval_nonce: ["@;
    reveal_strlit("] }");
    assert("] }"@ =~= "]"@ + " }"@);
    shown::lemma_list_field(s4, lead5, "["@, "approval_nonce"@, shown::byte_list(challenge.approval_nonce@), "]"@, " }"@);
    let s5 = s4 + ", "@ + shown::field("approval_nonce"@, shown::between("["@, shown::byte_list(challenge.approval_nonce@), "]"@));
}

/// What an approver signs names, one behind the other, what is signed, the request, its
/// digest, the policy, the capability where one is required, the end, the nonce and the
/// approver; each text stands behind its length in four bytes.
pub proof fn messages_name_everything_in_order(challenge: ApprovalChallenge, approver_id: Seq<char>)
    ensures
        ({
            let text_bytes = |s: Seq<char>|
                codec::be32(encode_utf8(s).len() as int) + encode_utf8(s);
            let capability = match challenge.required_capability {
                Some(name) => seq![1u8] + text_bytes(name@),
                None => seq![0u8],
            };
            message_bytes(challenge, approver_id) == encode_utf8("vor-commander:approval:v1\0"@)
                + text_bytes(challenge.request_id@) + challenge.envelope_digest@ + text_bytes(
                challenge.policy_id@,
            ) + capability + codec::be64(challenge.expires_at_unix_ms as int)
                + challenge.approval_nonce@ + text_bytes(approver_id)
        }),
{
    let a = encode_utf8("vor-commander:approval:v1\0"@);
    let b = field_bytes(challenge.request_id@);
    let c = challenge.envelope_digest@;
    let d = field_bytes(challenge.policy_id@);
    let e = capability_bytes(optional_text(challenge.required_capability));
    let f = codec::be64(challenge.expires_at_unix_ms as int);
    let g = challenge.approval_nonce@;
    let h = field_bytes(approver_id);
    lemma_eight_follow(a, b, c, d, e, f, g, h);
}

proof fn lemma_eight_follow(
    a: Seq<u8>,
    b: Seq<u8>,
    c: Seq<u8>,
    d: Seq<u8>,
    e: Seq<u8>,
    f: Seq<u8>,
    g: Seq<u8>,
    h: Seq<u8>,
)
    ensures
        a + (b + (c + (d + (e + (f + (g + h)))))) == a + b + c + d + e + f + g + h,
{
    assert(a + (b + (c + (d + (e + (f + (g + h)))))) =~= a + b + c + d + e + f + g + h);
}

} // verus!
