//! The dispatcher: it takes requests from afar, asks the broker, and records
//! what became of them.

use vstd::prelude::*;

use crate::approval;
use crate::approval::{
    ApprovalChallenge, ApprovalError, ApprovalVerifier, ApproverAuthority, SignedApproval,
    TrustedApprover,
};
use crate::audit;
use crate::audit::{AuditError, EventView, ExecutionRecoveryState, Ledger};
use crate::broker;
use crate::broker::{Authorization, Broker, CoreError, ExecutionAuthorization};
use crate::crypto;
use crate::dispatch;
use crate::dispatch::{ActionResult, DispatchConfig, DispatchError};
use crate::policy;
use crate::policy::{PolicyConfig, PolicyEngine, PolicyError};
use crate::protocol::{ActionRequest, DecisionModel, PolicyDecisionKind, ProtocolError};
use crate::text;

verus! {

/// Serves the requests for one device.
pub struct ReadOnlyDispatcher {
    device_id: String,
    broker: Broker,
    approval_verifier: ApprovalVerifier,
    max_output_bytes: usize,
}

/// What a worker gave, and as what it is to be read.
pub struct WorkerOutput {
    pub output: Vec<u8>,
    pub content_type: String,
}

/// What is done about an outcome that could not be stored: whether the uncertainty
/// is to be noted, and what is answered.
#[derive(Debug)]
pub struct StoreFailure {
    pub note_uncertainty: bool,
    pub error: DispatchError,
}

/// What is done when the store fails after a worker was asked for an approved
/// effect. `output_len` is the length of what the worker gave, if it did not fail.
pub fn store_failed(output_len: Option<usize>, limit: usize, error: AuditError) -> (failure:
    StoreFailure)
    ensures
        failure.note_uncertainty == (output_len is Some && output_len->0 <= limit),
        failure.error == (if failure.note_uncertainty {
            DispatchError::PostEffectUncertain(CoreError::Audit(error))
        } else {
            DispatchError::Core(CoreError::Audit(error))
        }),
{
    let applied = match output_len {
        None => false,
        Some(len) => len <= limit,
    };
    StoreFailure {
        note_uncertainty: applied,
        error: if applied {
            DispatchError::PostEffectUncertain(CoreError::Audit(error))
        } else {
            DispatchError::Core(CoreError::Audit(error))
        },
    }
}

/// The record that a request came to some outcome.
pub open spec fn outcome_event(request: ActionRequest, outcome: Seq<char>, now: u64) -> EventView {
    broker::request_event(request, request.envelope.actor_id@, outcome, now)
}

/// The record of a decision on a request.
pub open spec fn decision_event(request: ActionRequest, kind: PolicyDecisionKind, now: u64) -> EventView {
    outcome_event(request, broker::decision_outcome(kind), now)
}

/// What the broker refuses before it decides, if anything.
pub open spec fn broker_refusal(trail: Ledger, verified: Result<(), ProtocolError>) -> Option<
    DispatchError,
> {
    if verified is Err {
        Some(DispatchError::Core(CoreError::Protocol(verified->Err_0)))
    } else {
        match broker::record_error(trail) {
            Some(error) => Some(DispatchError::Core(error)),
            None => None,
        }
    }
}

/// `after` follows from `before` where an approval was used up for a request:
/// the decision is recorded, the approval claimed, both recorded, and the
/// effect noted as begun.
pub open spec fn approval_claimed(
    before: Ledger,
    after: Ledger,
    request: ActionRequest,
    approver_id: Seq<char>,
    now: u64,
) -> bool {
    exists|decided: Ledger, claimed: Ledger| #[trigger]
        claims(before, decided, claimed, after, request, approver_id, now)
}

pub open spec fn claims(
    before: Ledger,
    decided: Ledger,
    claimed: Ledger,
    after: Ledger,
    request: ActionRequest,
    approver_id: Seq<char>,
    now: u64,
) -> bool {
    &&& audit::appends(
        before,
        decided,
        decision_event(request, PolicyDecisionKind::Approval, now),
    )
    &&& broker::consumed(decided, claimed, request, now)
    &&& broker::records_two(
        (Ledger {
            consumptions: claimed.consumptions,
            executions: claimed.executions,
            ..decided
        }),
        claimed,
        broker::request_event(request, approver_id, "approval_verified"@, now),
        outcome_event(request, "approval_consumed"@, now),
    )
    &&& state_set(claimed, after, request, ExecutionRecoveryState::EffectUncertain, now)
}

/// `after` is `before` with the state of a request's execution noted.
pub open spec fn state_set(
    before: Ledger,
    after: Ledger,
    request: ActionRequest,
    state: ExecutionRecoveryState,
    now: u64,
) -> bool {
    &&& after == (Ledger { executions: after.executions, ..before })
    &&& audit::state_noted(
        before.executions@,
        after.executions@,
        request.envelope.request_id@,
        request.envelope_digest@,
        state,
        now,
    )
}

/// The execution of a request can be noted on.
pub open spec fn is_noted(trail: Ledger, request: ActionRequest, now: u64) -> bool {
    now <= i64::MAX && audit::has_execution(
        trail.executions@,
        request.envelope.request_id@,
        request.envelope_digest@,
    )
}

/// The result of a served request.
pub open spec fn is_served(
    result: ActionResult,
    request: ActionRequest,
    output: WorkerOutput,
    now: u64,
) -> bool {
    dispatch::is_result(
        result,
        request.envelope.request_id@,
        0,
        "ok"@,
        output.output@,
        output.content_type@,
        now,
    )
}

/// Why a request is not even put to the policy for an approval, if it is not.
pub open spec fn approved_refusal(
    dispatcher: ReadOnlyDispatcher,
    request: ActionRequest,
    verified: Result<(), ProtocolError>,
) -> Option<DispatchError> {
    if request.envelope.device_id@ != dispatcher.device() {
        Some(DispatchError::WrongDevice)
    } else if !dispatch::is_remote_approved_action(request.envelope.action@) {
        Some(DispatchError::RemoteActionNotAllowed)
    } else {
        broker_refusal(dispatcher.trail(), verified)
    }
}

/// When a challenge for a request ends.
pub open spec fn challenge_expiry(authorization: Authorization, now: u64) -> int {
    dispatch::smaller(
        now + dispatch::DEFAULT_APPROVAL_CHALLENGE_TTL_MS,
        authorization.request.envelope.expires_at_unix_ms as int,
    )
}

/// Why a request is not put to an approver, if it is not.
pub open spec fn challenge_error(
    trail: Ledger,
    authorization: Authorization,
    verified: Result<(), ProtocolError>,
    now: u64,
) -> Option<DispatchError> {
    let refusal = approval::issue_error(
        authorization.request,
        authorization.decision@,
        verified,
        now,
        challenge_expiry(authorization, now) as u64,
    );
    if now + dispatch::DEFAULT_APPROVAL_CHALLENGE_TTL_MS > u64::MAX {
        Some(DispatchError::Clock)
    } else if refusal is Some {
        Some(DispatchError::Approval(refusal->0))
    } else {
        match broker::record_error(trail) {
            Some(error) => Some(DispatchError::Core(error)),
            None => None,
        }
    }
}

/// Why the state of an execution is not noted, where it is not.
pub open spec fn note_error(now: u64) -> DispatchError {
    DispatchError::Core(
        CoreError::Audit(
            if now > i64::MAX {
                AuditError::InvalidSequence
            } else {
                AuditError::MissingExecutionState
            },
        ),
    )
}

/// `r` answers an approved request of which a worker made `worker`, and `after`
/// is the trail with all of that recorded.
pub open spec fn finishes(
    before: Ledger,
    after: Ledger,
    request: ActionRequest,
    worker: Result<WorkerOutput, DispatchError>,
    limit: usize,
    r: Result<ActionResult, DispatchError>,
    now: u64,
) -> bool {
    let refusal = broker::record_error(before);
    match worker {
        Err(error) => match refusal {
            Some(refusal) => {
                &&& r == Err::<ActionResult, DispatchError>(DispatchError::Core(refusal))
                &&& after == before
            },
            None => {
                &&& r == Err::<ActionResult, DispatchError>(error)
                &&& audit::appends(before, after, outcome_event(request, "worker_failed"@, now))
            },
        },
        Ok(output) => if !is_noted(before, request, now) {
            &&& r == Err::<ActionResult, DispatchError>(note_error(now))
            &&& after == before
        } else {
            exists|applied: Ledger| #[trigger]
                state_set(before, applied, request, ExecutionRecoveryState::EffectApplied, now)
                    && answers(applied, after, request, output, limit, r, now)
        },
    }
}

/// `r` answers an approved request whose effect was noted as applied.
pub open spec fn answers(
    applied: Ledger,
    after: Ledger,
    request: ActionRequest,
    output: WorkerOutput,
    limit: usize,
    r: Result<ActionResult, DispatchError>,
    now: u64,
) -> bool {
    let refusal = broker::record_error(applied);
    if output.output@.len() > limit {
        match refusal {
            Some(refusal) => {
                &&& r == Err::<ActionResult, DispatchError>(DispatchError::Core(refusal))
                &&& after == applied
            },
            None => {
                &&& r == Err::<ActionResult, DispatchError>(
                    DispatchError::OutputTooLarge(output.output@.len() as usize),
                )
                &&& audit::appends(
                    applied,
                    after,
                    outcome_event(request, "output_limit_exceeded"@, now),
                )
            },
        }
    } else {
        match refusal {
            Some(refusal) => {
                &&& r == Err::<ActionResult, DispatchError>(
                    DispatchError::PostEffectUncertain(refusal),
                )
                &&& state_set(
                    applied,
                    after,
                    request,
                    ExecutionRecoveryState::PostEffectUncertain,
                    now,
                )
            },
            None => {
                &&& r is Ok
                &&& is_served(r->Ok_0, request, output, now)
                &&& exists|recorded: Ledger| #[trigger]
                    audit::appends(applied, recorded, outcome_event(request, "executed"@, now))
                        && state_set(
                        recorded,
                        after,
                        request,
                        ExecutionRecoveryState::Completed,
                        now,
                    )
            },
        }
    }
}

proof fn lemma_still_has_execution(
    before: Ledger,
    after: Ledger,
    request: ActionRequest,
    state: ExecutionRecoveryState,
    now: u64,
)
    requires
        state_set(before, after, request, state, now),
        is_noted(before, request, now),
    ensures
        is_noted(after, request, now),
{
    let i = choose|i: int|
        0 <= i < before.executions@.len() && audit::execution_of(
            #[trigger] before.executions@[i],
            request.envelope.request_id@,
            request.envelope_digest@,
        );
    assert(audit::execution_of(
        after.executions@[i],
        request.envelope.request_id@,
        request.envelope_digest@,
    ));
}

impl ReadOnlyDispatcher {
    pub closed spec fn device(&self) -> Seq<char> {
        self.device_id@
    }

    pub closed spec fn rules(&self) -> PolicyConfig {
        self.broker.rules()
    }

    pub closed spec fn trail(&self) -> Ledger {
        self.broker.trail()
    }

    pub closed spec fn approvals(&self) -> ApprovalVerifier {
        self.approval_verifier
    }

    pub closed spec fn limit(&self) -> usize {
        self.max_output_bytes
    }

    /// Nothing but the trail may differ.
    pub open spec fn same_rules(&self, other: &Self) -> bool {
        &&& self.device() == other.device()
        &&& self.rules() == other.rules()
        &&& self.approvals() == other.approvals()
        &&& self.limit() == other.limit()
    }

    /// Nothing but the approvers may differ.
    pub open spec fn same_trail(&self, other: &Self) -> bool {
        &&& self.device() == other.device()
        &&& self.rules() == other.rules()
        &&& self.trail() == other.trail()
        &&& self.limit() == other.limit()
    }

    /// A dispatcher with the policy and the trail that were found, and no
    /// approvers.
    pub fn open(
        config: &DispatchConfig,
        policy: Result<PolicyEngine, PolicyError>,
        ledger: Result<Ledger, AuditError>,
    ) -> (r: Result<Self, DispatchError>)
        ensures
            r is Ok == (!text::is_blank(config.device_id@) && config.max_output_bytes > 0
                && policy is Ok && ledger is Ok),
            r is Err ==> r->Err_0 == (if text::is_blank(config.device_id@)
                || config.max_output_bytes == 0 {
                DispatchError::InvalidConfig
            } else if policy is Err {
                DispatchError::Policy(policy->Err_0)
            } else {
                DispatchError::Audit(ledger->Err_0)
            }),
            r matches Ok(dispatcher) ==> {
                &&& dispatcher.device() == config.device_id@
                &&& dispatcher.rules() == policy->Ok_0.policy()
                &&& dispatcher.trail() == ledger->Ok_0
                &&& dispatcher.limit() == config.max_output_bytes
                &&& dispatcher.approvals().approvers() == Map::<Seq<char>, TrustedApprover>::empty()
                &&& !dispatcher.approvals().scoped()
            },
    {
        if text::blank(config.device_id.as_str()) || config.max_output_bytes == 0 {
            return Err(DispatchError::InvalidConfig);
        }
        match policy {
            Err(error) => Err(DispatchError::Policy(error)),
            Ok(policy) => match ledger {
                Err(error) => Err(DispatchError::Audit(error)),
                Ok(ledger) => Ok(
                    ReadOnlyDispatcher {
                        device_id: config.device_id.clone(),
                        broker: Broker::new(policy, ledger),
                        approval_verifier: ApprovalVerifier::new(),
                        max_output_bytes: config.max_output_bytes,
                    },
                ),
            },
        }
    }

    pub fn audit_sequence(&self) -> (sequence: u64)
        ensures
            sequence == self.trail().last_sequence,
    {
        self.broker.ledger().last_sequence()
    }

    /// The trail of all that was asked.
    pub fn ledger(&self) -> (ledger: &Ledger)
        ensures
            *ledger == self.trail(),
    {
        self.broker.ledger()
    }

    /// Goes on with the trail as it was found in its stores.
    pub fn resume(&mut self, ledger: Ledger)
        ensures
            final(self).same_rules(old(self)),
            final(self).trail() == ledger,
    {
        self.broker.resume(ledger);
    }

    pub fn max_output_bytes(&self) -> (limit: usize)
        ensures
            limit == self.limit(),
    {
        self.max_output_bytes
    }

    // -----------------------------------------------------------------------
    // Approvers

    pub fn add_trusted_approver(&mut self, approver_id: String, public_key: [u8; 32]) -> (r: Result<
        (),
        DispatchError,
    >)
        ensures
            final(self).same_trail(old(self)),
            final(self).approvals().scoped() == old(self).approvals().scoped(),
            r is Err == approval::add_error(
                old(self).approvals().approvers(),
                approver_id@,
                public_key@,
                None,
            ) is Some,
            r is Err ==> r->Err_0 == DispatchError::Approval(
                approval::add_error(
                    old(self).approvals().approvers(),
                    approver_id@,
                    public_key@,
                    None,
                )->0,
            ),
            r is Err ==> final(self).approvals().approvers() == old(self).approvals().approvers(),
            r is Ok ==> final(self).approvals().approvers()
                == old(self).approvals().approvers().insert(
                approver_id@,
                (TrustedApprover {
                    key: public_key,
                    authority: ApproverAuthority::Approve,
                    organization_id: None,
                    revoked: false,
                }),
            ),
    {
        match self.approval_verifier.add_approver(approver_id, public_key) {
            Err(error) => Err(DispatchError::Approval(error)),
            Ok(()) => Ok(()),
        }
    }

    pub fn add_trusted_approver_with_authority(
        &mut self,
        approver_id: String,
        public_key: [u8; 32],
        authority: ApproverAuthority,
    ) -> (r: Result<(), DispatchError>)
        ensures
            final(self).same_trail(old(self)),
            final(self).approvals().scoped() == old(self).approvals().scoped(),
            r is Err == approval::add_error(
                old(self).approvals().approvers(),
                approver_id@,
                public_key@,
                None,
            ) is Some,
            r is Err ==> r->Err_0 == DispatchError::Approval(
                approval::add_error(
                    old(self).approvals().approvers(),
                    approver_id@,
                    public_key@,
                    None,
                )->0,
            ),
            r is Err ==> final(self).approvals().approvers() == old(self).approvals().approvers(),
            r is Ok ==> final(self).approvals().approvers()
                == old(self).approvals().approvers().insert(
                approver_id@,
                (TrustedApprover {
                    key: public_key,
                    authority,
                    organization_id: None,
                    revoked: false,
                }),
            ),
    {
        match self.approval_verifier.add_approver_with_authority(
            approver_id,
            public_key,
            authority,
        ) {
            Err(error) => Err(DispatchError::Approval(error)),
            Ok(()) => Ok(()),
        }
    }

    pub fn add_trusted_approver_for_organization(
        &mut self,
        approver_id: String,
        public_key: [u8; 32],
        authority: ApproverAuthority,
        organization_id: String,
    ) -> (r: Result<(), DispatchError>)
        ensures
            final(self).same_trail(old(self)),
            final(self).approvals().scoped() == old(self).approvals().scoped(),
            r is Err == approval::add_error(
                old(self).approvals().approvers(),
                approver_id@,
                public_key@,
                Some(organization_id@),
            ) is Some,
            r is Err ==> r->Err_0 == DispatchError::Approval(
                approval::add_error(
                    old(self).approvals().approvers(),
                    approver_id@,
                    public_key@,
                    Some(organization_id@),
                )->0,
            ),
            r is Err ==> final(self).approvals().approvers() == old(self).approvals().approvers(),
            r is Ok ==> final(self).approvals().approvers()
                == old(self).approvals().approvers().insert(
                approver_id@,
                (TrustedApprover {
                    key: public_key,
                    authority,
                    organization_id: Some(organization_id),
                    revoked: false,
                }),
            ),
    {
        match self.approval_verifier.add_approver_for_organization(
            approver_id,
            public_key,
            authority,
            Some(organization_id),
        ) {
            Err(error) => Err(DispatchError::Approval(error)),
            Ok(()) => Ok(()),
        }
    }

    pub fn require_tenant_scoped_approvers(&mut self)
        ensures
            final(self).same_trail(old(self)),
            final(self).approvals().approvers() == old(self).approvals().approvers(),
            final(self).approvals().scoped(),
    {
        self.approval_verifier.require_organization_scope();
    }

    pub fn revoke_trusted_approver(&mut self, approver_id: &str) -> (r: Result<(), DispatchError>)
        ensures
            final(self).same_trail(old(self)),
            final(self).approvals().scoped() == old(self).approvals().scoped(),
            r is Ok == (approval::is_field(approver_id@)
                && old(self).approvals().approvers().contains_key(approver_id@)),
            r is Err ==> r->Err_0 == DispatchError::Approval(
                if approval::is_field(approver_id@) {
                    ApprovalError::UnknownApprover
                } else {
                    ApprovalError::InvalidChallenge
                },
            ),
            r is Err ==> final(self).approvals().approvers() == old(self).approvals().approvers(),
            r is Ok ==> final(self).approvals().approvers()
                == old(self).approvals().approvers().insert(
                approver_id@,
                (TrustedApprover {
                    revoked: true,
                    ..old(self).approvals().approvers()[approver_id@]
                }),
            ),
    {
        match self.approval_verifier.revoke_approver(approver_id) {
            Err(error) => Err(DispatchError::Approval(error)),
            Ok(()) => Ok(()),
        }
    }

    pub fn rotate_trusted_approver_for_organization(
        &mut self,
        approver_id: String,
        public_key: [u8; 32],
        authority: ApproverAuthority,
        organization_id: String,
    ) -> (r: Result<(), DispatchError>)
        ensures
            final(self).same_trail(old(self)),
            final(self).approvals().scoped() == old(self).approvals().scoped(),
            r is Ok == (approval::is_field(approver_id@) && approval::is_field(organization_id@)
                && crypto::is_public_key(public_key@)),
            r is Err ==> r->Err_0 == DispatchError::Approval(
                if approval::is_field(approver_id@) && approval::is_field(organization_id@) {
                    ApprovalError::InvalidPublicKey
                } else {
                    ApprovalError::InvalidChallenge
                },
            ),
            r is Err ==> final(self).approvals().approvers() == old(self).approvals().approvers(),
            r is Ok ==> final(self).approvals().approvers()
                == old(self).approvals().approvers().insert(
                approver_id@,
                (TrustedApprover {
                    key: public_key,
                    authority,
                    organization_id: Some(organization_id),
                    revoked: false,
                }),
            ),
    {
        match self.approval_verifier.rotate_approver_for_organization(
            approver_id,
            public_key,
            authority,
            organization_id,
        ) {
            Err(error) => Err(DispatchError::Approval(error)),
            Ok(()) => Ok(()),
        }
    }

    // -----------------------------------------------------------------------
    // Requests that need no approval

    /// Decides whether a request is served without an approval; `verified` is
    /// what the check of its seal gave.
    pub fn dispatch_at(
        &mut self,
        request: ActionRequest,
        verified: Result<(), ProtocolError>,
        now_unix_ms: u64,
    ) -> (r: Result<Authorization, DispatchError>)
        requires
            audit::has_room(old(self).trail(), 2),
        ensures
            final(self).same_rules(old(self)),
            request.envelope.device_id@ != old(self).device() ==> {
                &&& r == Err::<Authorization, DispatchError>(DispatchError::WrongDevice)
                &&& final(self).trail() == old(self).trail()
            },
            request.envelope.device_id@ == old(self).device() ==> match broker_refusal(
                old(self).trail(),
                verified,
            ) {
                Some(error) => {
                    &&& r == Err::<Authorization, DispatchError>(error)
                    &&& final(self).trail() == old(self).trail()
                },
                None => {
                    let decision = policy::decision_on(old(self).rules(), request);
                    let first = decision_event(request, decision.kind, now_unix_ms);
                    if !dispatch::is_remote_action(request.envelope.action@) {
                        &&& r == Err::<Authorization, DispatchError>(
                            DispatchError::RemoteActionNotAllowed,
                        )
                        &&& broker::records_two(
                            old(self).trail(),
                            final(self).trail(),
                            first,
                            outcome_event(request, "remote_scope_denied"@, now_unix_ms),
                        )
                    } else {
                        match decision.kind {
                            PolicyDecisionKind::Deny => {
                                &&& r == Err::<Authorization, DispatchError>(
                                    DispatchError::Denied,
                                )
                                &&& audit::appends(old(self).trail(), final(self).trail(), first)
                            },
                            PolicyDecisionKind::Approval => {
                                &&& r == Err::<Authorization, DispatchError>(
                                    DispatchError::ApprovalRequired,
                                )
                                &&& broker::records_two(
                                    old(self).trail(),
                                    final(self).trail(),
                                    first,
                                    outcome_event(
                                        request,
                                        "remote_approval_required"@,
                                        now_unix_ms,
                                    ),
                                )
                            },
                            PolicyDecisionKind::Auto => {
                                &&& r is Ok
                                &&& audit::appends(old(self).trail(), final(self).trail(), first)
                            },
                        }
                    }
                },
            },
            r matches Ok(authorization) ==> {
                &&& authorization.request == request
                &&& policy::decides(old(self).rules(), request, authorization.decision)
                &&& authorization.decision.kind == PolicyDecisionKind::Auto
            },
    {
        if !text::same_text(request.envelope.device_id.as_str(), self.device_id.as_str()) {
            return Err(DispatchError::WrongDevice);
        }
        let authorization = match self.broker.authorize_at(request, verified, now_unix_ms) {
            Err(error) => {
                return Err(DispatchError::Core(error));
            },
            Ok(authorization) => authorization,
        };
        let ghost decided = self.trail();
        proof {
            audit::appended_ends_agree(
                old(self).trail(),
                decided,
                decision_event(request, authorization.decision.kind, now_unix_ms),
            );
        }
        if !dispatch::remote_action_allowed(authorization.request.envelope.action.as_str()) {
            return match self.broker.audit_outcome_at(
                &authorization,
                "remote_scope_denied",
                now_unix_ms,
            ) {
                Err(error) => Err(DispatchError::Core(error)),
                Ok(()) => Err(DispatchError::RemoteActionNotAllowed),
            };
        }
        if authorization.is_denied() {
            return Err(DispatchError::Denied);
        }
        if authorization.requires_approval() {
            return match self.broker.audit_outcome_at(
                &authorization,
                "remote_approval_required",
                now_unix_ms,
            ) {
                Err(error) => Err(DispatchError::Core(error)),
                Ok(()) => Err(DispatchError::ApprovalRequired),
            };
        }
        Ok(authorization)
    }

    /// Records what a worker made of a request, and answers it.
    pub fn finish_at(
        &mut self,
        authorization: &Authorization,
        worker: Result<WorkerOutput, DispatchError>,
        now_unix_ms: u64,
    ) -> (r: Result<ActionResult, DispatchError>)
        requires
            audit::has_room(old(self).trail(), 1),
        ensures
            final(self).same_rules(old(self)),
            match broker::record_error(old(self).trail()) {
                Some(error) => {
                    &&& r == Err::<ActionResult, DispatchError>(DispatchError::Core(error))
                    &&& final(self).trail() == old(self).trail()
                },
                None => match worker {
                    Err(error) => {
                        &&& r == Err::<ActionResult, DispatchError>(error)
                        &&& audit::appends(
                            old(self).trail(),
                            final(self).trail(),
                            outcome_event(authorization.request, "worker_failed"@, now_unix_ms),
                        )
                    },
                    Ok(output) => if output.output@.len() > old(self).limit() {
                        &&& r == Err::<ActionResult, DispatchError>(
                            DispatchError::OutputTooLarge(output.output@.len() as usize),
                        )
                        &&& audit::appends(
                            old(self).trail(),
                            final(self).trail(),
                            outcome_event(
                                authorization.request,
                                "output_limit_exceeded"@,
                                now_unix_ms,
                            ),
                        )
                    } else {
                        &&& r is Ok
                        &&& is_served(r->Ok_0, authorization.request, output, now_unix_ms)
                        &&& audit::appends(
                            old(self).trail(),
                            final(self).trail(),
                            outcome_event(authorization.request, "executed"@, now_unix_ms),
                        )
                    },
                },
            },
    {
        let output = match worker {
            Err(error) => {
                return match self.broker.audit_outcome_at(
                    authorization,
                    "worker_failed",
                    now_unix_ms,
                ) {
                    Err(refusal) => Err(DispatchError::Core(refusal)),
                    Ok(()) => Err(error),
                };
            },
            Ok(output) => output,
        };
        let size: usize = output.output.len();
        if size > self.max_output_bytes {
            return match self.broker.audit_outcome_at(
                authorization,
                "output_limit_exceeded",
                now_unix_ms,
            ) {
                Err(refusal) => Err(DispatchError::Core(refusal)),
                Ok(()) => Err(DispatchError::OutputTooLarge(size)),
            };
        }
        match self.broker.audit_outcome_at(authorization, "executed", now_unix_ms) {
            Err(refusal) => Err(DispatchError::Core(refusal)),
            Ok(()) => Ok(
                dispatch::success_result(
                    authorization,
                    output.output,
                    output.content_type.as_str(),
                    now_unix_ms,
                ),
            ),
        }
    }

    // -----------------------------------------------------------------------
    // Requests that need an approval

    /// Decides whether a request may be put to an approver.
    pub fn prepare_approved_at(
        &mut self,
        request: ActionRequest,
        verified: Result<(), ProtocolError>,
        now_unix_ms: u64,
    ) -> (r: Result<Authorization, DispatchError>)
        requires
            audit::has_room(old(self).trail(), 2),
        ensures
            final(self).same_rules(old(self)),
            match approved_refusal(*old(self), request, verified) {
                Some(error) => {
                    &&& r == Err::<Authorization, DispatchError>(error)
                    &&& final(self).trail() == old(self).trail()
                },
                None => {
                    let decision = policy::decision_on(old(self).rules(), request);
                    let first = decision_event(request, decision.kind, now_unix_ms);
                    match decision.kind {
                        PolicyDecisionKind::Deny => {
                            &&& r == Err::<Authorization, DispatchError>(DispatchError::Denied)
                            &&& audit::appends(old(self).trail(), final(self).trail(), first)
                        },
                        PolicyDecisionKind::Auto => {
                            &&& r == Err::<Authorization, DispatchError>(
                                DispatchError::RemoteApprovalPolicyRequired,
                            )
                            &&& broker::records_two(
                                old(self).trail(),
                                final(self).trail(),
                                first,
                                outcome_event(
                                    request,
                                    "remote_approval_policy_required"@,
                                    now_unix_ms,
                                ),
                            )
                        },
                        PolicyDecisionKind::Approval => {
                            &&& r is Ok
                            &&& audit::appends(old(self).trail(), final(self).trail(), first)
                            &&& broker::record_error(final(self).trail()) is None
                        },
                    }
                },
            },
            r matches Ok(authorization) ==> {
                &&& authorization.request == request
                &&& policy::decides(old(self).rules(), request, authorization.decision)
                &&& authorization.decision.kind == PolicyDecisionKind::Approval
            },
    {
        if !text::same_text(request.envelope.device_id.as_str(), self.device_id.as_str()) {
            return Err(DispatchError::WrongDevice);
        }
        if !dispatch::remote_approved_action_allowed(request.envelope.action.as_str()) {
            return Err(DispatchError::RemoteActionNotAllowed);
        }
        let authorization = match self.broker.authorize_at(request, verified, now_unix_ms) {
            Err(error) => {
                return Err(DispatchError::Core(error));
            },
            Ok(authorization) => authorization,
        };
        let ghost decided = self.trail();
        proof {
            audit::appended_ends_agree(
                old(self).trail(),
                decided,
                decision_event(request, authorization.decision.kind, now_unix_ms),
            );
        }
        if authorization.is_denied() {
            return Err(DispatchError::Denied);
        }
        if !authorization.requires_approval() {
            return match self.broker.audit_outcome_at(
                &authorization,
                "remote_approval_policy_required",
                now_unix_ms,
            ) {
                Err(error) => Err(DispatchError::Core(error)),
                Ok(()) => Err(DispatchError::RemoteApprovalPolicyRequired),
            };
        }
        Ok(authorization)
    }

    /// Decides on the request that an edit was turned into.
    pub fn prepare_edited_at(
        &mut self,
        request: ActionRequest,
        verified: Result<(), ProtocolError>,
        now_unix_ms: u64,
    ) -> (r: Result<Authorization, DispatchError>)
        requires
            audit::has_room(old(self).trail(), 1),
        ensures
            final(self).same_rules(old(self)),
            r is Err == broker_refusal(old(self).trail(), verified) is Some,
            r is Err ==> r->Err_0 == broker_refusal(old(self).trail(), verified)->0,
            r is Err ==> final(self).trail() == old(self).trail(),
            r matches Ok(authorization) ==> {
                &&& authorization.request == request
                &&& policy::decides(old(self).rules(), request, authorization.decision)
                &&& audit::appends(
                    old(self).trail(),
                    final(self).trail(),
                    decision_event(request, authorization.decision.kind, now_unix_ms),
                )
            },
    {
        match self.broker.authorize_at(request, verified, now_unix_ms) {
            Err(error) => Err(DispatchError::Core(error)),
            Ok(authorization) => Ok(authorization),
        }
    }

    /// Puts a request to an approver: a challenge that lasts for two minutes, or
    /// for as long as the request does, where that is shorter.
    pub fn challenge_at(
        &mut self,
        authorization: &Authorization,
        verified: Result<(), ProtocolError>,
        now_unix_ms: u64,
    ) -> (r: Result<ApprovalChallenge, DispatchError>)
        requires
            audit::has_room(old(self).trail(), 1),
        ensures
            final(self).same_rules(old(self)),
            r is Err == challenge_error(
                old(self).trail(),
                *authorization,
                verified,
                now_unix_ms,
            ) is Some,
            r is Err ==> r->Err_0 == challenge_error(
                old(self).trail(),
                *authorization,
                verified,
                now_unix_ms,
            )->0,
            r is Err ==> final(self).trail() == old(self).trail(),
            r matches Ok(challenge) ==> {
                &&& approval::challenge_names(
                    challenge,
                    authorization.request,
                    authorization.decision@,
                )
                &&& challenge.expires_at_unix_ms == challenge_expiry(*authorization, now_unix_ms)
                &&& audit::appends(
                    old(self).trail(),
                    final(self).trail(),
                    outcome_event(
                        authorization.request,
                        "approval_challenge_issued"@,
                        now_unix_ms,
                    ),
                )
            },
    {
        let limit: u64 = match now_unix_ms.checked_add(
            dispatch::DEFAULT_APPROVAL_CHALLENGE_TTL_MS,
        ) {
            None => {
                return Err(DispatchError::Clock);
            },
            Some(limit) => limit,
        };
        let expires: u64 = if limit <= authorization.request.envelope.expires_at_unix_ms {
            limit
        } else {
            authorization.request.envelope.expires_at_unix_ms
        };
        let challenge = match ApprovalChallenge::issue(
            &authorization.request,
            &authorization.decision,
            verified,
            now_unix_ms,
            expires,
        ) {
            Err(error) => {
                return Err(DispatchError::Approval(error));
            },
            Ok(challenge) => challenge,
        };
        match self.broker.audit_outcome_at(authorization, "approval_challenge_issued", now_unix_ms) {
            Err(error) => Err(DispatchError::Core(error)),
            Ok(()) => Ok(challenge),
        }
    }

    /// Uses up an approval of a request; what comes back may be executed once.
    pub fn dispatch_approved_at(
        &mut self,
        request: ActionRequest,
        approval: &SignedApproval,
        verified: Result<(), ProtocolError>,
        now_unix_ms: u64,
    ) -> (r: Result<ExecutionAuthorization, DispatchError>)
        requires
            audit::has_room(old(self).trail(), 3),
        ensures
            final(self).same_rules(old(self)),
            match approved_refusal(*old(self), request, verified) {
                Some(error) => {
                    &&& r == Err::<ExecutionAuthorization, DispatchError>(error)
                    &&& final(self).trail() == old(self).trail()
                },
                None => {
                    let decision = policy::decision_on(old(self).rules(), request);
                    let first = decision_event(request, decision.kind, now_unix_ms);
                    match decision.kind {
                        PolicyDecisionKind::Deny => {
                            &&& r == Err::<ExecutionAuthorization, DispatchError>(
                                DispatchError::Denied,
                            )
                            &&& audit::appends(old(self).trail(), final(self).trail(), first)
                        },
                        PolicyDecisionKind::Auto => {
                            &&& r == Err::<ExecutionAuthorization, DispatchError>(
                                DispatchError::RemoteApprovalPolicyRequired,
                            )
                            &&& broker::records_two(
                                old(self).trail(),
                                final(self).trail(),
                                first,
                                outcome_event(
                                    request,
                                    "remote_approval_policy_required"@,
                                    now_unix_ms,
                                ),
                            )
                        },
                        PolicyDecisionKind::Approval => exists|decided: Ledger| #[trigger]
                            audit::appends(old(self).trail(), decided, first)
                                && match broker::consume_error(
                                decided,
                                old(self).approvals(),
                                request,
                                decision,
                                *approval,
                                verified,
                                now_unix_ms,
                            ) {
                                Some(error) => {
                                    &&& r == Err::<ExecutionAuthorization, DispatchError>(
                                        DispatchError::Core(error),
                                    )
                                    &&& final(self).trail() == decided
                                },
                                None => r is Ok,
                            },
                    }
                },
            },
            r matches Ok(execution) ==> {
                &&& execution.granted().request == request
                &&& policy::decides(old(self).rules(), request, execution.granted().decision)
                &&& execution.approver() == approval.approver_id@
                &&& execution.expires() == approval.challenge.expires_at_unix_ms
                &&& approval_claimed(
                    old(self).trail(),
                    final(self).trail(),
                    request,
                    approval.approver_id@,
                    now_unix_ms,
                )
            },
    {
        let authorization = match self.prepare_approved_at(request, verified, now_unix_ms) {
            Err(error) => {
                return Err(error);
            },
            Ok(authorization) => authorization,
        };
        let ghost decided = self.trail();
        let ghost decision = authorization.decision;
        proof {
            assert(policy::decides(old(self).rules(), request, decision));
            assert(audit::appends(
                old(self).trail(),
                decided,
                decision_event(request, PolicyDecisionKind::Approval, now_unix_ms),
            ));
        }
        let execution = match self.broker.consume_approval_at(
            authorization.request,
            approval,
            &self.approval_verifier,
            verified,
            now_unix_ms,
        ) {
            Err(error) => {
                return Err(DispatchError::Core(error));
            },
            Ok(execution) => execution,
        };
        let ghost claimed = self.trail();
        proof {
            assert(broker::consumed(decided, claimed, request, now_unix_ms));
            assert(audit::execution_of(
                claimed.executions@[claimed.executions@.len() - 1],
                request.envelope.request_id@,
                request.envelope_digest@,
            ));
            assert(is_noted(claimed, request, now_unix_ms));
        }
        match self.broker.set_execution_recovery_state(
            execution.authorization(),
            ExecutionRecoveryState::EffectUncertain,
            now_unix_ms,
        ) {
            Err(error) => Err(DispatchError::Core(error)),
            Ok(()) => {
                proof {
                    assert(claims(
                        old(self).trail(),
                        decided,
                        claimed,
                        self.trail(),
                        request,
                        approval.approver_id@,
                        now_unix_ms,
                    ));
                }
                Ok(execution)
            },
        }
    }

    /// Records what a worker made of an approved request, and answers it.
    pub fn finish_approved_at(
        &mut self,
        execution: &ExecutionAuthorization,
        worker: Result<WorkerOutput, DispatchError>,
        now_unix_ms: u64,
    ) -> (r: Result<ActionResult, DispatchError>)
        requires
            audit::has_room(old(self).trail(), 1),
        ensures
            final(self).same_rules(old(self)),
            finishes(
                old(self).trail(),
                final(self).trail(),
                execution.granted().request,
                worker,
                old(self).limit(),
                r,
                now_unix_ms,
            ),
    {
        let authorization = execution.authorization();
        let ghost request = authorization.request;
        let output = match worker {
            Err(error) => {
                return match self.broker.audit_outcome_at(
                    authorization,
                    "worker_failed",
                    now_unix_ms,
                ) {
                    Err(refusal) => Err(DispatchError::Core(refusal)),
                    Ok(()) => Err(error),
                };
            },
            Ok(output) => output,
        };
        if let Err(error) = self.broker.set_execution_recovery_state(
            authorization,
            ExecutionRecoveryState::EffectApplied,
            now_unix_ms,
        ) {
            return Err(DispatchError::Core(error));
        }
        let ghost applied = self.trail();
        proof {
            assert(state_set(
                old(self).trail(),
                applied,
                request,
                ExecutionRecoveryState::EffectApplied,
                now_unix_ms,
            ));
            lemma_still_has_execution(
                old(self).trail(),
                applied,
                request,
                ExecutionRecoveryState::EffectApplied,
                now_unix_ms,
            );
        }
        let size: usize = output.output.len();
        if size > self.max_output_bytes {
            return match self.broker.audit_outcome_at(
                authorization,
                "output_limit_exceeded",
                now_unix_ms,
            ) {
                Err(refusal) => Err(DispatchError::Core(refusal)),
                Ok(()) => Err(DispatchError::OutputTooLarge(size)),
            };
        }
        if let Err(error) = self.broker.audit_outcome_at(authorization, "executed", now_unix_ms) {
            return match self.broker.set_execution_recovery_state(
                authorization,
                ExecutionRecoveryState::PostEffectUncertain,
                now_unix_ms,
            ) {
                Err(refusal) => Err(DispatchError::Core(refusal)),
                Ok(()) => Err(DispatchError::PostEffectUncertain(error)),
            };
        }
        let ghost recorded = self.trail();
        proof {
            assert(audit::appends(
                applied,
                recorded,
                outcome_event(request, "executed"@, now_unix_ms),
            ));
            assert(is_noted(recorded, request, now_unix_ms));
        }
        match self.broker.set_execution_recovery_state(
            authorization,
            ExecutionRecoveryState::Completed,
            now_unix_ms,
        ) {
            Err(refusal) => Err(DispatchError::Core(refusal)),
            Ok(()) => Ok(
                dispatch::success_result(
                    authorization,
                    output.output,
                    output.content_type.as_str(),
                    now_unix_ms,
                ),
            ),
        }
    }
}

// ---------------------------------------------------------------------------
// Laws

/// Whoever executes an approved request has used up its approval, and the trail
/// says that an effect may have happened before it can.
pub proof fn effects_are_noted_before_they_happen(
    before: Ledger,
    after: Ledger,
    request: ActionRequest,
    approver_id: Seq<char>,
    now: u64,
)
    requires
        approval_claimed(before, after, request, approver_id, now),
    ensures
        audit::is_consumed(
            after.consumptions@,
            request.envelope.request_id@,
            request.envelope_digest@,
        ),
        exists|i: int|
            0 <= i < after.executions@.len() && audit::execution_of(
                #[trigger] after.executions@[i],
                request.envelope.request_id@,
                request.envelope_digest@,
            ) && after.executions@[i].state@ == "effect_uncertain"@,
{
    let (decided, claimed) = choose|decided: Ledger, claimed: Ledger| #[trigger]
        claims(before, decided, claimed, after, request, approver_id, now);
    broker::consuming_uses_up(decided, claimed, request, now);
    assert(after.consumptions == claimed.consumptions);
    let i = choose|i: int|
        {
            &&& 0 <= i < claimed.executions@.len()
            &&& audit::execution_of(
                #[trigger] claimed.executions@[i],
                request.envelope.request_id@,
                request.envelope_digest@,
            )
            &&& after.executions@ == claimed.executions@.update(i, after.executions@[i])
            &&& audit::execution_of(
                after.executions@[i],
                request.envelope.request_id@,
                request.envelope_digest@,
            )
            &&& after.executions@[i].state@ == audit::state_name(
                ExecutionRecoveryState::EffectUncertain,
            )
            &&& after.executions@[i].updated_at_unix_ms == now
        };
    assert(audit::execution_of(
        after.executions@[i],
        request.envelope.request_id@,
        request.envelope_digest@,
    ));
}

/// Whoever sends an approved request again, with an approval that would still
/// hold, is told that it was used.
pub proof fn replays_are_named(
    ledger: Ledger,
    trusted: ApprovalVerifier,
    request: ActionRequest,
    decision: DecisionModel,
    approval: SignedApproval,
    now: u64,
)
    requires
        audit::is_consumed(
            ledger.consumptions@,
            request.envelope.request_id@,
            request.envelope_digest@,
        ),
        audit::outcome_found(
            ledger.rows@,
            request.envelope.request_id@,
            request.envelope_digest@,
            "approval"@,
        ) == Ok::<bool, AuditError>(true),
        approval::approval_error(
            trusted.approvers(),
            trusted.scoped(),
            request,
            decision,
            approval,
            Ok(()),
            now,
        ) is None,
        now <= i64::MAX,
    ensures
        broker::consume_error(ledger, trusted, request, decision, approval, Ok(()), now) == Some(
            CoreError::ApprovalAlreadyConsumed,
        ),
        dispatch::status_code(DispatchError::Core(CoreError::ApprovalAlreadyConsumed))
            == "approval_replayed"@,
{
}

/// An approval that was used is of no use for the same request again, whoever
/// asks and whenever.
pub proof fn approvals_serve_once(
    before: Ledger,
    after: Ledger,
    request: ActionRequest,
    approver_id: Seq<char>,
    now: u64,
    later: Ledger,
    trusted: ApprovalVerifier,
    decision: DecisionModel,
    approval: SignedApproval,
    verified: Result<(), ProtocolError>,
    then_unix_ms: u64,
)
    requires
        approval_claimed(before, after, request, approver_id, now),
        after.consumptions@.is_prefix_of(later.consumptions@),
    ensures
        broker::consume_error(
            later,
            trusted,
            request,
            decision,
            approval,
            verified,
            then_unix_ms,
        ) is Some,
{
    effects_are_noted_before_they_happen(before, after, request, approver_id, now);
    let i = choose|i: int|
        0 <= i < after.consumptions@.len() && audit::consumption_of(
            #[trigger] after.consumptions@[i],
            request.envelope.request_id@,
            request.envelope_digest@,
        );
    assert(later.consumptions@[i] == after.consumptions@[i]);
    broker::used_approvals_execute_nothing(
        later,
        trusted,
        request,
        decision,
        approval,
        verified,
        then_unix_ms,
    );
}

/// An approved request that is answered with success stands in the trail as
/// executed, and its execution as completed.
pub proof fn answered_requests_are_completed(
    before: Ledger,
    after: Ledger,
    request: ActionRequest,
    worker: Result<WorkerOutput, DispatchError>,
    limit: usize,
    r: Result<ActionResult, DispatchError>,
    now: u64,
)
    requires
        finishes(before, after, request, worker, limit, r, now),
        r is Ok,
    ensures
        after.rows@.len() == before.rows@.len() + 1,
        worker is Ok,
        worker->Ok_0.output@.len() <= limit,
        exists|i: int|
            0 <= i < after.executions@.len() && audit::execution_of(
                #[trigger] after.executions@[i],
                request.envelope.request_id@,
                request.envelope_digest@,
            ) && after.executions@[i].state@ == "completed"@,
{
    let output = worker->Ok_0;
    let applied = choose|applied: Ledger| #[trigger]
        state_set(before, applied, request, ExecutionRecoveryState::EffectApplied, now) && answers(
            applied,
            after,
            request,
            output,
            limit,
            r,
            now,
        );
    let recorded = choose|recorded: Ledger| #[trigger]
        audit::appends(applied, recorded, outcome_event(request, "executed"@, now)) && state_set(
            recorded,
            after,
            request,
            ExecutionRecoveryState::Completed,
            now,
        );
    let i = choose|i: int|
        {
            &&& 0 <= i < recorded.executions@.len()
            &&& audit::execution_of(
                #[trigger] recorded.executions@[i],
                request.envelope.request_id@,
                request.envelope_digest@,
            )
            &&& after.executions@ == recorded.executions@.update(i, after.executions@[i])
            &&& audit::execution_of(
                after.executions@[i],
                request.envelope.request_id@,
                request.envelope_digest@,
            )
            &&& after.executions@[i].state@ == audit::state_name(
                ExecutionRecoveryState::Completed,
            )
            &&& after.executions@[i].updated_at_unix_ms == now
        };
    assert(audit::execution_of(
        after.executions@[i],
        request.envelope.request_id@,
        request.envelope_digest@,
    ));
}

/// A request that needs an approval goes on exactly when it is for this device, asks for
/// what may be approved from afar, is sealed, and the trail can be written. Otherwise the
/// first of these that fails is told.
pub proof fn approved_requests_go_on_exactly_when_they_may(
    dispatcher: ReadOnlyDispatcher,
    request: ActionRequest,
    verified: Result<(), ProtocolError>,
)
    ensures
        ({
            let here = request.envelope.device_id@ == dispatcher.device();
            let action = request.envelope.action@;
            let offered = action == "filesystem.write"@ || action == "terminal.exec"@ || action
                == "process.terminate"@ || action == "browser.session.use"@;
            let trail = audit::ends_error(dispatcher.trail().rows@, dispatcher.trail().journal@);
            let r = approved_refusal(dispatcher, request, verified);
            &&& r is None <==> here && offered && verified is Ok && trail is None
            &&& !here ==> r == Some(DispatchError::WrongDevice)
            &&& here && !offered ==> r == Some(DispatchError::RemoteActionNotAllowed)
            &&& here && offered && verified is Err ==> r == Some(
                DispatchError::Core(CoreError::Protocol(verified->Err_0)),
            )
            &&& here && offered && verified is Ok && trail is Some ==> r == Some(
                DispatchError::Core(CoreError::Audit(trail->0)),
            )
        }),
{
}

/// A challenge ends two minutes from now, or with the request if that ends before.
pub proof fn challenges_end_in_two_minutes(authorization: Authorization, now: u64)
    ensures
        ({
            let end = challenge_expiry(authorization, now);
            let last = authorization.request.envelope.expires_at_unix_ms;
            &&& end <= now + 120_000
            &&& end <= last
            &&& end == now + 120_000 || end == last
        }),
{
}

/// A challenge is issued exactly when two minutes from now can be told, the request may be
/// put to an approver, and the trail can be written. Otherwise the first of these that
/// fails is told.
pub proof fn challenges_are_recorded_when_issued(
    trail: Ledger,
    authorization: Authorization,
    verified: Result<(), ProtocolError>,
    now: u64,
)
    ensures
        ({
            let early = now + 120_000 <= u64::MAX;
            let flaw = approval::issue_error(
                authorization.request,
                authorization.decision@,
                verified,
                now,
                challenge_expiry(authorization, now) as u64,
            );
            let store = audit::ends_error(trail.rows@, trail.journal@);
            let r = challenge_error(trail, authorization, verified, now);
            &&& r is None <==> early && flaw is None && store is None
            &&& !early ==> r == Some(DispatchError::Clock)
            &&& early && flaw is Some ==> r == Some(DispatchError::Approval(flaw->0))
            &&& early && flaw is None && store is Some ==> r == Some(
                DispatchError::Core(CoreError::Audit(store->0)),
            )
        }),
{
}

/// What a request is served with is the output of the worker, as it is, with the status
/// of success.
pub proof fn served_requests_carry_the_output(
    result: ActionResult,
    request: ActionRequest,
    output: WorkerOutput,
    now: u64,
)
    requires
        is_served(result, request, output, now),
    ensures
        result.request_id@ == request.envelope.request_id@,
        result.exit_code == 0,
        result.status@ == "ok"@,
        result.output@ == output.output@,
        result.content_type@ == output.content_type@,
{
}

/// A worker that failed is told by its error and recorded so. One that did its work is
/// answered exactly when its effect can be noted, the output is within the limit and the
/// trail can be written; beyond the limit the length is told, and where the trail cannot be
/// written the effect is said to be uncertain.
pub proof fn approved_work_is_answered_exactly_when_it_may(
    before: Ledger,
    after: Ledger,
    request: ActionRequest,
    worker: Result<WorkerOutput, DispatchError>,
    limit: usize,
    r: Result<ActionResult, DispatchError>,
    now: u64,
)
    requires
        finishes(before, after, request, worker, limit, r, now),
    ensures
        ({
            let store = audit::ends_error(before.rows@, before.journal@);
            let noted = now <= 0x7fff_ffff_ffff_ffff && audit::has_execution(
                before.executions@,
                request.envelope.request_id@,
                request.envelope_digest@,
            );
            let fits = worker->Ok_0.output@.len() <= limit;
            &&& r is Ok <==> worker is Ok && noted && fits && store is None
            &&& worker matches Err(error) ==> (store is None ==> r == Err::<
                ActionResult,
                DispatchError,
            >(error) && audit::appends(
                before,
                after,
                broker::request_event(
                    request,
                    request.envelope.actor_id@,
                    "worker_failed"@,
                    now,
                ),
            ))
            &&& (worker is Err || (noted && !fits)) && store is Some ==> r == Err::<
                ActionResult,
                DispatchError,
            >(DispatchError::Core(CoreError::Audit(store->0)))
            &&& worker is Ok && noted && !fits && store is None ==> r == Err::<
                ActionResult,
                DispatchError,
            >(DispatchError::OutputTooLarge(worker->Ok_0.output@.len() as usize))
            &&& worker is Ok && noted && fits && store is Some ==> r == Err::<
                ActionResult,
                DispatchError,
            >(DispatchError::PostEffectUncertain(CoreError::Audit(store->0)))
            &&& worker is Ok && !noted && now > 0x7fff_ffff_ffff_ffff ==> r == Err::<
                ActionResult,
                DispatchError,
            >(DispatchError::Core(CoreError::Audit(AuditError::InvalidSequence)))
            &&& worker is Ok && !noted && now <= 0x7fff_ffff_ffff_ffff ==> r == Err::<
                ActionResult,
                DispatchError,
            >(DispatchError::Core(CoreError::Audit(AuditError::MissingExecutionState)))
        }),
{
    if worker is Ok && is_noted(before, request, now) {
        let applied = choose|applied: Ledger| #[trigger]
            state_set(before, applied, request, ExecutionRecoveryState::EffectApplied, now)
                && answers(applied, after, request, worker->Ok_0, limit, r, now);
        assert(applied.rows == before.rows && applied.journal == before.journal);
    }
}

/// What a dispatcher does leaves its device, its policy and its limit as they were, and those
/// that it trusts unless it is told of others.
pub proof fn dispatchers_keep_what_they_are(a: ReadOnlyDispatcher, b: ReadOnlyDispatcher)
    ensures
        a.same_rules(&b) ==> a.device() == b.device() && a.rules() == b.rules() && a.approvals()
            == b.approvals() && a.limit() == b.limit(),
        a.same_trail(&b) ==> a.device() == b.device() && a.rules() == b.rules() && a.trail()
            == b.trail() && a.limit() == b.limit(),
{
}

/// Noting how far an execution has come changes that row alone.
pub proof fn notes_change_one_row(
    before: Ledger,
    after: Ledger,
    request: ActionRequest,
    state: ExecutionRecoveryState,
    now: u64,
)
    requires
        state_set(before, after, request, state, now),
    ensures
        after.rows == before.rows,
        after.journal == before.journal,
        after.consumptions == before.consumptions,
        after.last_sequence == before.last_sequence,
        after.last_hash == before.last_hash,
        exists|i: int|
            0 <= i < after.executions@.len() && (#[trigger] after.executions@[i]).request_id@
                == request.envelope.request_id@ && after.executions@[i].envelope_digest@
                == request.envelope_digest@ && audit::named_state(after.executions@[i].state@)
                == Some(state),
{
    let e = before.executions@;
    let i = choose|i: int|
        {
            &&& 0 <= i < e.len()
            &&& audit::execution_of(
                #[trigger] e[i],
                request.envelope.request_id@,
                request.envelope_digest@,
            )
            &&& after.executions@ == e.update(i, after.executions@[i])
            &&& audit::execution_of(
                after.executions@[i],
                request.envelope.request_id@,
                request.envelope_digest@,
            )
            &&& after.executions@[i].state@ == audit::state_name(state)
            &&& after.executions@[i].updated_at_unix_ms == now
        };
    audit::states_are_noted_at_their_row(
        e,
        after.executions@,
        request.envelope.request_id@,
        request.envelope_digest@,
        state,
        now,
        i,
    );
}

/// An approval that is claimed is recorded in three rows behind all that was there: that an
/// approval was to be asked for, that the approver's holds, and that it was used.
pub proof fn claims_are_recorded_step_by_step(
    before: Ledger,
    after: Ledger,
    request: ActionRequest,
    approver_id: Seq<char>,
    now: u64,
)
    requires
        approval_claimed(before, after, request, approver_id, now),
    ensures
        ({
            let n = before.rows@.len() as int;
            let told = |i: int| after.rows@[i].event->0@;
            &&& after.rows@.len() == n + 3
            &&& after.rows@.take(n) == before.rows@
            &&& forall|i: int|
                n <= i < n + 3 ==> (#[trigger] after.rows@[i]).event is Some
                    && after.rows@[i].event->0@.request_id == request.envelope.request_id@
                    && after.rows@[i].event->0@.envelope_digest == request.envelope_digest@
                    && after.rows@[i].event->0@.timestamp_unix_ms == now
            &&& told(n).outcome == "approval"@ && told(n).actor_id == request.envelope.actor_id@
            &&& told(n + 1).outcome == "approval_verified"@ && told(n + 1).actor_id == approver_id
            &&& told(n + 2).outcome == "approval_consumed"@ && told(n + 2).actor_id
                == request.envelope.actor_id@
        }),
{
    let (decided, claimed) = choose|decided: Ledger, claimed: Ledger| #[trigger]
        claims(before, decided, claimed, after, request, approver_id, now);
    let n = before.rows@.len() as int;
    let ready = Ledger {
        consumptions: claimed.consumptions,
        executions: claimed.executions,
        ..decided
    };
    let verified = broker::request_event(request, approver_id, "approval_verified"@, now);
    let consumed = outcome_event(request, "approval_consumed"@, now);
    broker::two_events_are_recorded_in_order(ready, claimed, verified, consumed);
    assert(after.rows == claimed.rows);
    assert(decided.rows@.drop_last() == before.rows@);
    assert(claimed.rows@.take(n + 1) == decided.rows@);
    assert(claimed.rows@[n] == claimed.rows@.take(n + 1)[n]);
    assert(after.rows@.take(n) =~= decided.rows@.drop_last());
}

} // verus!
