//! The broker: every request is decided by the policy and recorded before
//! anything is done, and an approval is used up before it is acted on.

use vstd::prelude::*;

use crate::approval;
use crate::approval::{ApprovalError, ApprovalVerifier, SignedApproval};
use crate::audit;
use crate::audit::{AuditError, AuditEvent, ExecutionRecoveryState, Ledger};
use crate::policy;
use crate::policy::PolicyEngine;
use crate::protocol::{
    ActionRequest, DecisionModel, Digest32, PolicyDecision, PolicyDecisionKind, ProtocolError,
};
use crate::text;

verus! {

/// A request with the decision on it.
#[derive(Debug)]
pub struct Authorization {
    pub request: ActionRequest,
    pub decision: PolicyDecision,
}

/// The right to execute one approved request.
#[derive(Debug)]
pub struct ExecutionAuthorization {
    authorization: Authorization,
    approver_id: String,
    approval_expires_at_unix_ms: u64,
}

#[derive(Debug, Clone, Copy, PartialEq, Eq, Structural)]
pub enum CoreError {
    Protocol(ProtocolError),
    Approval(ApprovalError),
    ApprovalNotPrepared,
    ApprovalAlreadyConsumed,
    Audit(AuditError),
    Clock,
}

/// Policy and audit trail of a device.
pub struct Broker {
    policy: PolicyEngine,
    ledger: Ledger,
}

impl ExecutionAuthorization {
    pub closed spec fn granted(&self) -> Authorization {
        self.authorization
    }

    pub closed spec fn approver(&self) -> Seq<char> {
        self.approver_id@
    }

    pub closed spec fn expires(&self) -> u64 {
        self.approval_expires_at_unix_ms
    }

    pub fn authorization(&self) -> (r: &Authorization)
        ensures
            *r == self.granted(),
    {
        &self.authorization
    }

    pub fn request(&self) -> (r: &ActionRequest)
        ensures
            *r == self.granted().request,
    {
        &self.authorization.request
    }

    pub fn approver_id(&self) -> (r: &str)
        ensures
            r@ == self.approver(),
    {
        self.approver_id.as_str()
    }

    pub fn approval_expires_at_unix_ms(&self) -> (r: u64)
        ensures
            r == self.expires(),
    {
        self.approval_expires_at_unix_ms
    }
}

impl Authorization {
    pub fn is_auto(&self) -> (r: bool)
        ensures
            r == (self.decision.kind == PolicyDecisionKind::Auto),
    {
        self.decision.kind == PolicyDecisionKind::Auto
    }

    pub fn requires_approval(&self) -> (r: bool)
        ensures
            r == (self.decision.kind == PolicyDecisionKind::Approval),
    {
        self.decision.kind == PolicyDecisionKind::Approval
    }

    pub fn is_denied(&self) -> (r: bool)
        ensures
            r == (self.decision.kind == PolicyDecisionKind::Deny),
    {
        self.decision.kind == PolicyDecisionKind::Deny
    }
}

/// The word that a decision is recorded as.
pub open spec fn decision_outcome(kind: PolicyDecisionKind) -> Seq<char> {
    match kind {
        PolicyDecisionKind::Auto => "auto"@,
        PolicyDecisionKind::Approval => "approval"@,
        PolicyDecisionKind::Deny => "deny"@,
    }
}

/// The event that records something about a request.
pub open spec fn request_event(
    request: ActionRequest,
    actor_id: Seq<char>,
    outcome: Seq<char>,
    timestamp_unix_ms: u64,
) -> audit::EventView {
    audit::EventView {
        timestamp_unix_ms,
        organization_id: request.envelope.organization_id@,
        actor_id,
        device_id: request.envelope.device_id@,
        request_id: request.envelope.request_id@,
        action: request.envelope.action@,
        target: request.envelope.target@,
        outcome,
        envelope_digest: request.envelope_digest@,
    }
}

fn event_for(request: &ActionRequest, actor_id: &str, outcome: &str, timestamp_unix_ms: u64) -> (event:
    AuditEvent)
    ensures
        event@ == request_event(*request, actor_id@, outcome@, timestamp_unix_ms),
{
    AuditEvent {
        timestamp_unix_ms,
        organization_id: request.envelope.organization_id.clone(),
        actor_id: text::copied(actor_id),
        device_id: request.envelope.device_id.clone(),
        request_id: request.envelope.request_id.clone(),
        action: request.envelope.action.clone(),
        target: request.envelope.target.clone(),
        outcome: text::copied(outcome),
        envelope_digest: request.envelope_digest,
    }
}

/// Why nothing can be recorded, if that is so.
pub open spec fn record_error(ledger: Ledger) -> Option<CoreError> {
    match audit::ends_error(ledger.rows@, ledger.journal@) {
        Some(error) => Some(CoreError::Audit(error)),
        None => None,
    }
}

/// Why an approval is not used up for a request, if it is not; recording it
/// apart.
pub open spec fn consume_error(
    ledger: Ledger,
    verifier: ApprovalVerifier,
    request: ActionRequest,
    decision: DecisionModel,
    approval: SignedApproval,
    verified: Result<(), ProtocolError>,
    now_unix_ms: u64,
) -> Option<CoreError> {
    let prepared = audit::outcome_found(
        ledger.rows@,
        request.envelope.request_id@,
        request.envelope_digest@,
        "approval"@,
    );
    let refusal = approval::approval_error(
        verifier.approvers(),
        verifier.scoped(),
        request,
        decision,
        approval,
        verified,
        now_unix_ms,
    );
    let claim = audit::claim_outcome(
        ledger.consumptions@,
        ledger.executions@,
        request.envelope.request_id@,
        request.envelope_digest@,
        now_unix_ms,
    );
    if verified is Err {
        Some(CoreError::Protocol(verified->Err_0))
    } else if prepared is Err {
        Some(CoreError::Audit(prepared->Err_0))
    } else if !prepared->Ok_0 {
        Some(CoreError::ApprovalNotPrepared)
    } else if refusal is Some {
        Some(CoreError::Approval(refusal->0))
    } else if claim is Err {
        Some(CoreError::Audit(claim->Err_0))
    } else if !claim->Ok_0 {
        Some(CoreError::ApprovalAlreadyConsumed)
    } else {
        None
    }
}

/// `after` is `before` with the approval of a request used up.
pub open spec fn consumed(
    before: Ledger,
    after: Ledger,
    request: ActionRequest,
    now_unix_ms: u64,
) -> bool {
    &&& after.consumptions@.drop_last() == before.consumptions@
    &&& after.consumptions@.len() == before.consumptions@.len() + 1
    &&& audit::consumption_of(
        after.consumptions@.last(),
        request.envelope.request_id@,
        request.envelope_digest@,
    )
    &&& after.consumptions@.last().consumed_at_unix_ms == now_unix_ms
    &&& after.executions@.drop_last() == before.executions@
    &&& after.executions@.len() == before.executions@.len() + 1
    &&& audit::execution_of(
        after.executions@.last(),
        request.envelope.request_id@,
        request.envelope_digest@,
    )
    &&& after.executions@.last().state@ == audit::state_name(ExecutionRecoveryState::NotExecuted)
}

/// `after` is `before` with two events chained to both stores.
pub open spec fn records_two(
    before: Ledger,
    after: Ledger,
    first: audit::EventView,
    second: audit::EventView,
) -> bool {
    exists|middle: Ledger| #[trigger]
        audit::appends(before, middle, first) && audit::appends(middle, after, second)
}

impl Broker {
    pub closed spec fn rules(&self) -> policy::PolicyConfig {
        self.policy.policy()
    }

    pub closed spec fn trail(&self) -> Ledger {
        self.ledger
    }

    pub fn new(policy: PolicyEngine, ledger: Ledger) -> (broker: Broker)
        ensures
            broker.rules() == policy.policy(),
            broker.trail() == ledger,
    {
        Broker { policy, ledger }
    }

    /// Decides on a request and records the decision; `verified` is what the
    /// check of the request's seal gave.
    pub fn authorize_at(
        &mut self,
        request: ActionRequest,
        verified: Result<(), ProtocolError>,
        now_unix_ms: u64,
    ) -> (authorization: Result<Authorization, CoreError>)
        requires
            audit::has_room(old(self).trail(), 1),
        ensures
            final(self).rules() == old(self).rules(),
            authorization is Ok == (verified is Ok && record_error(old(self).trail()) is None),
            authorization is Err ==> authorization->Err_0 == (if verified is Err {
                CoreError::Protocol(verified->Err_0)
            } else {
                record_error(old(self).trail())->0
            }),
            authorization is Err ==> final(self).trail() == old(self).trail(),
            authorization is Ok ==> {
                &&& authorization->Ok_0.request == request
                &&& policy::decides(old(self).rules(), request, authorization->Ok_0.decision)
                &&& audit::appends(
                    old(self).trail(),
                    final(self).trail(),
                    request_event(
                        request,
                        request.envelope.actor_id@,
                        decision_outcome(authorization->Ok_0.decision.kind),
                        now_unix_ms,
                    ),
                )
            },
    {
        if let Err(error) = verified {
            return Err(CoreError::Protocol(error));
        }
        let decision = self.policy.evaluate(&request);
        let outcome = match decision.kind {
            PolicyDecisionKind::Auto => "auto",
            PolicyDecisionKind::Approval => "approval",
            PolicyDecisionKind::Deny => "deny",
        };
        let event = event_for(
            &request,
            request.envelope.actor_id.as_str(),
            outcome,
            now_unix_ms,
        );
        match self.ledger.append(event) {
            Err(error) => Err(CoreError::Audit(error)),
            Ok(_) => Ok(Authorization { request, decision }),
        }
    }

    /// Uses up a signed approval of a request that was prepared for it.
    pub fn consume_approval_at(
        &mut self,
        request: ActionRequest,
        approval: &SignedApproval,
        verifier: &ApprovalVerifier,
        verified: Result<(), ProtocolError>,
        now_unix_ms: u64,
    ) -> (execution: Result<ExecutionAuthorization, CoreError>)
        requires
            audit::has_room(old(self).trail(), 2),
        ensures
            final(self).rules() == old(self).rules(),
            match consume_error(
                old(self).trail(),
                *verifier,
                request,
                policy::decision_on(old(self).rules(), request),
                *approval,
                verified,
                now_unix_ms,
            ) {
                Some(error) => {
                    &&& execution == Err::<ExecutionAuthorization, CoreError>(error)
                    &&& final(self).trail() == old(self).trail()
                },
                None => {
                    &&& execution is Ok == record_error(old(self).trail()) is None
                    &&& execution is Err ==> execution->Err_0 == record_error(
                        old(self).trail(),
                    )->0
                    &&& consumed(old(self).trail(), final(self).trail(), request, now_unix_ms)
                },
            },
            execution is Ok ==> {
                &&& execution->Ok_0.granted().request == request
                &&& policy::decides(
                    old(self).rules(),
                    request,
                    execution->Ok_0.granted().decision,
                )
                &&& execution->Ok_0.approver() == approval.approver_id@
                &&& execution->Ok_0.expires() == approval.challenge.expires_at_unix_ms
                &&& records_two(
                    (Ledger {
                        consumptions: final(self).trail().consumptions,
                        executions: final(self).trail().executions,
                        ..old(self).trail()
                    }),
                    final(self).trail(),
                    request_event(
                        request,
                        approval.approver_id@,
                        "approval_verified"@,
                        now_unix_ms,
                    ),
                    request_event(
                        request,
                        request.envelope.actor_id@,
                        "approval_consumed"@,
                        now_unix_ms,
                    ),
                )
            },
    {
        if let Err(error) = verified {
            return Err(CoreError::Protocol(error));
        }
        let decision = self.policy.evaluate(&request);
        match self.ledger.has_outcome_for(
            request.envelope.request_id.as_str(),
            &request.envelope_digest,
            "approval",
        ) {
            Err(error) => {
                return Err(CoreError::Audit(error));
            },
            Ok(prepared) => {
                if !prepared {
                    return Err(CoreError::ApprovalNotPrepared);
                }
            },
        }
        if let Err(error) = verifier.verify(&request, &decision, approval, verified, now_unix_ms) {
            return Err(CoreError::Approval(error));
        }
        match self.ledger.claim_approval_consumed(
            request.envelope.request_id.as_str(),
            &request.envelope_digest,
            now_unix_ms,
        ) {
            Err(error) => {
                return Err(CoreError::Audit(error));
            },
            Ok(claimed) => {
                if !claimed {
                    return Err(CoreError::ApprovalAlreadyConsumed);
                }
            },
        }
        let ghost claimed = self.ledger;
        if let Err(error) = self.append_approval_event(
            &request,
            approval.approver_id.as_str(),
            "approval_verified",
            now_unix_ms,
        ) {
            return Err(error);
        }
        let ghost noted = self.ledger;
        proof {
            audit::appended_ends_agree(
                claimed,
                noted,
                request_event(request, approval.approver_id@, "approval_verified"@, now_unix_ms),
            );
        }
        if let Err(error) = self.append_approval_event(
            &request,
            request.envelope.actor_id.as_str(),
            "approval_consumed",
            now_unix_ms,
        ) {
            return Err(error);
        }
        proof {
            assert(claimed == (Ledger {
                consumptions: self.ledger.consumptions,
                executions: self.ledger.executions,
                ..old(self).ledger
            }));
        }
        Ok(
            ExecutionAuthorization {
                authorization: Authorization { request, decision },
                approver_id: approval.approver_id.clone(),
                approval_expires_at_unix_ms: approval.challenge.expires_at_unix_ms,
            },
        )
    }

    fn append_approval_event(
        &mut self,
        request: &ActionRequest,
        actor_id: &str,
        outcome: &str,
        timestamp_unix_ms: u64,
    ) -> (r: Result<(), CoreError>)
        requires
            audit::has_room(old(self).trail(), 1),
        ensures
            final(self).rules() == old(self).rules(),
            r is Ok == record_error(old(self).trail()) is None,
            r is Err ==> r->Err_0 == record_error(old(self).trail())->0,
            r is Err ==> final(self).trail() == old(self).trail(),
            r is Ok ==> audit::appends(
                old(self).trail(),
                final(self).trail(),
                request_event(*request, actor_id@, outcome@, timestamp_unix_ms),
            ),
    {
        let event = event_for(request, actor_id, outcome, timestamp_unix_ms);
        match self.ledger.append(event) {
            Err(error) => Err(CoreError::Audit(error)),
            Ok(_) => Ok(()),
        }
    }

    /// Records what became of an authorized request.
    pub fn audit_outcome_at(
        &mut self,
        authorization: &Authorization,
        outcome: &str,
        timestamp_unix_ms: u64,
    ) -> (r: Result<(), CoreError>)
        requires
            audit::has_room(old(self).trail(), 1),
        ensures
            final(self).rules() == old(self).rules(),
            r is Ok == record_error(old(self).trail()) is None,
            r is Err ==> r->Err_0 == record_error(old(self).trail())->0,
            r is Err ==> final(self).trail() == old(self).trail(),
            r is Ok ==> audit::appends(
                old(self).trail(),
                final(self).trail(),
                request_event(
                    authorization.request,
                    authorization.request.envelope.actor_id@,
                    outcome@,
                    timestamp_unix_ms,
                ),
            ),
    {
        self.append_approval_event(
            &authorization.request,
            authorization.request.envelope.actor_id.as_str(),
            outcome,
            timestamp_unix_ms,
        )
    }

    pub fn ledger(&self) -> (r: &Ledger)
        ensures
            *r == self.trail(),
    {
        &self.ledger
    }

    /// Goes on with the ledger as it was found in its stores.
    pub fn resume(&mut self, ledger: Ledger)
        ensures
            final(self).rules() == old(self).rules(),
            final(self).trail() == ledger,
    {
        self.ledger = ledger;
    }

    /// The ledger, given up by the broker.
    pub fn into_ledger(self) -> (r: Ledger)
        ensures
            r == self.trail(),
    {
        self.ledger
    }

    pub fn set_execution_recovery_state(
        &mut self,
        authorization: &Authorization,
        state: ExecutionRecoveryState,
        timestamp_unix_ms: u64,
    ) -> (r: Result<(), CoreError>)
        ensures
            final(self).rules() == old(self).rules(),
            final(self).trail() == (Ledger {
                executions: final(self).trail().executions,
                ..old(self).trail()
            }),
            r is Ok == (timestamp_unix_ms <= i64::MAX && audit::has_execution(
                old(self).trail().executions@,
                authorization.request.envelope.request_id@,
                authorization.request.envelope_digest@,
            )),
            r is Err ==> final(self).trail() == old(self).trail(),
            r is Err ==> r->Err_0 == CoreError::Audit(
                if timestamp_unix_ms > i64::MAX {
                    AuditError::InvalidSequence
                } else {
                    AuditError::MissingExecutionState
                },
            ),
            r is Ok ==> audit::state_noted(
                old(self).trail().executions@,
                final(self).trail().executions@,
                authorization.request.envelope.request_id@,
                authorization.request.envelope_digest@,
                state,
                timestamp_unix_ms,
            ),
    {
        match self.ledger.set_execution_recovery_state(
            authorization.request.envelope.request_id.as_str(),
            &authorization.request.envelope_digest,
            state,
            timestamp_unix_ms,
        ) {
            Err(error) => Err(CoreError::Audit(error)),
            Ok(()) => Ok(()),
        }
    }

    pub fn execution_recovery_state(&self, request_id: &str, envelope_digest: &Digest32) -> (state:
        Result<Option<ExecutionRecoveryState>, CoreError>)
        requires
            audit::executions_distinct(self.trail().executions@),
        ensures
            !audit::has_execution(self.trail().executions@, request_id@, envelope_digest@)
                ==> state == Ok::<Option<ExecutionRecoveryState>, CoreError>(None),
            forall|i: int|
                0 <= i < self.trail().executions@.len() && audit::execution_of(
                    #[trigger] self.trail().executions@[i],
                    request_id@,
                    envelope_digest@,
                ) ==> state == (match audit::named_state(self.trail().executions@[i].state@) {
                    Some(known) => Ok::<Option<ExecutionRecoveryState>, CoreError>(Some(known)),
                    None => Err(CoreError::Audit(AuditError::InvalidExecutionState)),
                }),
    {
        match self.ledger.execution_recovery_state(request_id, envelope_digest) {
            Err(error) => Err(CoreError::Audit(error)),
            Ok(state) => Ok(state),
        }
    }
}

// ---------------------------------------------------------------------------
// Laws

/// An approval that has been used up executes nothing more.
pub proof fn used_approvals_execute_nothing(
    ledger: Ledger,
    verifier: ApprovalVerifier,
    request: ActionRequest,
    decision: DecisionModel,
    approval: SignedApproval,
    verified: Result<(), ProtocolError>,
    now_unix_ms: u64,
)
    requires
        audit::is_consumed(
            ledger.consumptions@,
            request.envelope.request_id@,
            request.envelope_digest@,
        ),
    ensures
        consume_error(ledger, verifier, request, decision, approval, verified, now_unix_ms) is Some,
{
}

/// Once consumed, a request's approval is used up.
pub proof fn consuming_uses_up(before: Ledger, after: Ledger, request: ActionRequest, now_unix_ms: u64)
    requires
        consumed(before, after, request, now_unix_ms),
    ensures
        audit::is_consumed(
            after.consumptions@,
            request.envelope.request_id@,
            request.envelope_digest@,
        ),
{
    assert(audit::consumption_of(
        after.consumptions@[after.consumptions@.len() - 1],
        request.envelope.request_id@,
        request.envelope_digest@,
    ));
}

/// A request that was prepared for approval is executed with an approval that
/// holds, the first time that one comes.
pub proof fn prepared_requests_are_executed(
    before: Ledger,
    prepared: Ledger,
    verifier: ApprovalVerifier,
    request: ActionRequest,
    decision: DecisionModel,
    approval: SignedApproval,
    prepared_at: u64,
    now_unix_ms: u64,
)
    requires
        audit::rows_read(before.rows@),
        audit::appends(
            before,
            prepared,
            request_event(
                request,
                request.envelope.actor_id@,
                decision_outcome(PolicyDecisionKind::Approval),
                prepared_at,
            ),
        ),
        approval::approval_error(
            verifier.approvers(),
            verifier.scoped(),
            request,
            decision,
            approval,
            Ok(()),
            now_unix_ms,
        ) is None,
        !audit::is_consumed(
            before.consumptions@,
            request.envelope.request_id@,
            request.envelope_digest@,
        ),
        !audit::has_execution(
            before.executions@,
            request.envelope.request_id@,
            request.envelope_digest@,
        ),
        now_unix_ms <= i64::MAX,
    ensures
        consume_error(prepared, verifier, request, decision, approval, Ok(()), now_unix_ms) is None,
{
    audit::recorded_outcomes_are_found(
        before,
        prepared,
        request_event(
            request,
            request.envelope.actor_id@,
            decision_outcome(PolicyDecisionKind::Approval),
            prepared_at,
        ),
    );
}

/// A request that was never prepared for approval is not executed.
pub proof fn unprepared_requests_are_refused(
    ledger: Ledger,
    verifier: ApprovalVerifier,
    request: ActionRequest,
    decision: DecisionModel,
    approval: SignedApproval,
    verified: Result<(), ProtocolError>,
    now_unix_ms: u64,
)
    requires
        audit::outcome_found(
            ledger.rows@,
            request.envelope.request_id@,
            request.envelope_digest@,
            "approval"@,
        ) != Ok::<bool, AuditError>(true),
    ensures
        consume_error(ledger, verifier, request, decision, approval, verified, now_unix_ms) is Some,
{
}

/// Decisions are recorded by these words.
pub proof fn decisions_are_recorded_by_words(kind: PolicyDecisionKind)
    ensures
        kind is Auto <==> decision_outcome(kind) == "auto"@,
        kind is Approval <==> decision_outcome(kind) == "approval"@,
        kind is Deny <==> decision_outcome(kind) == "deny"@,
{
    reveal_strlit("auto");
    reveal_strlit("approval");
    reveal_strlit("deny");
    assert("auto"@.len() == 4);
    assert("approval"@.len() == 8);
    assert("deny"@.len() == 4);
    assert("auto"@[0] == 'a' && "deny"@[0] == 'd');
}

/// An event of a request tells the request, and who did what when.
pub proof fn events_tell_their_request(
    request: ActionRequest,
    actor_id: Seq<char>,
    outcome: Seq<char>,
    now: u64,
)
    ensures
        ({
            let event = request_event(request, actor_id, outcome, now);
            &&& event.timestamp_unix_ms == now
            &&& event.actor_id == actor_id
            &&& event.outcome == outcome
            &&& event.organization_id == request.envelope.organization_id@
            &&& event.device_id == request.envelope.device_id@
            &&& event.request_id == request.envelope.request_id@
            &&& event.action == request.envelope.action@
            &&& event.target == request.envelope.target@
            &&& event.envelope_digest == request.envelope_digest@
        }),
{
}

/// An approval is consumed exactly when the request is sealed, was recorded as one to be
/// approved, the approval holds, and was not used. Otherwise the first of these that fails
/// is told.
pub proof fn approvals_are_consumed_exactly_when_they_hold(
    ledger: Ledger,
    verifier: ApprovalVerifier,
    request: ActionRequest,
    decision: DecisionModel,
    approval: SignedApproval,
    verified: Result<(), ProtocolError>,
    now: u64,
)
    ensures
        ({
            let id = request.envelope.request_id@;
            let digest = request.envelope_digest@;
            let prepared = audit::outcome_found(ledger.rows@, id, digest, "approval"@);
            let flaw = approval::approval_error(
                verifier.approvers(),
                verifier.scoped(),
                request,
                decision,
                approval,
                verified,
                now,
            );
            let claim = audit::claim_outcome(
                ledger.consumptions@,
                ledger.executions@,
                id,
                digest,
                now,
            );
            let r = consume_error(ledger, verifier, request, decision, approval, verified, now);
            let sealed = verified is Ok;
            let ready = sealed && prepared == Ok::<bool, AuditError>(true);
            let holds = ready && flaw is None;
            &&& r is None <==> holds && claim == Ok::<bool, AuditError>(true)
            &&& !sealed ==> r == Some(CoreError::Protocol(verified->Err_0))
            &&& sealed && prepared is Err ==> r == Some(CoreError::Audit(prepared->Err_0))
            &&& r == Some(CoreError::ApprovalNotPrepared) <==> sealed && prepared == Ok::<
                bool,
                AuditError,
            >(false)
            &&& ready && flaw is Some ==> r == Some(CoreError::Approval(flaw->0))
            &&& holds && claim is Err ==> r == Some(CoreError::Audit(claim->Err_0))
            &&& r == Some(CoreError::ApprovalAlreadyConsumed) <==> holds && claim == Ok::<
                bool,
                AuditError,
            >(false)
        }),
{
}

/// What was consumed is noted as used now and as not executed yet, behind all that was
/// noted before.
pub proof fn consumed_approvals_are_noted(
    before: Ledger,
    after: Ledger,
    request: ActionRequest,
    now: u64,
)
    requires
        consumed(before, after, request, now),
    ensures
        ({
            let n = before.consumptions@.len() as int;
            let m = before.executions@.len() as int;
            &&& after.consumptions@.len() == n + 1
            &&& after.executions@.len() == m + 1
            &&& forall|i: int|
                0 <= i < n ==> #[trigger] after.consumptions@[i] == before.consumptions@[i]
            &&& forall|i: int|
                0 <= i < m ==> #[trigger] after.executions@[i] == before.executions@[i]
            &&& after.consumptions@[n].request_id@ == request.envelope.request_id@
            &&& after.consumptions@[n].envelope_digest@ == request.envelope_digest@
            &&& after.consumptions@[n].consumed_at_unix_ms == now
            &&& after.executions@[m].request_id@ == request.envelope.request_id@
            &&& after.executions@[m].envelope_digest@ == request.envelope_digest@
            &&& after.executions@[m].state@ == "not_executed"@
        }),
{
    assert forall|i: int| 0 <= i < before.consumptions@.len() implies #[trigger] after.consumptions@[i]
        == before.consumptions@[i] by {
        assert(after.consumptions@.drop_last()[i] == after.consumptions@[i]);
    }
    assert forall|i: int| 0 <= i < before.executions@.len() implies #[trigger] after.executions@[i]
        == before.executions@[i] by {
        assert(after.executions@.drop_last()[i] == after.executions@[i]);
    }
}

/// Two events that are recorded are the last two rows, the first before the second, behind all
/// that was there.
pub proof fn two_events_are_recorded_in_order(
    before: Ledger,
    after: Ledger,
    first: audit::EventView,
    second: audit::EventView,
)
    requires
        records_two(before, after, first, second),
    ensures
        ({
            let n = before.rows@.len() as int;
            &&& after.rows@.len() == n + 2
            &&& after.rows@.take(n) == before.rows@
            &&& after.rows@[n].event is Some && after.rows@[n].event->0@ == first
            &&& after.rows@[n + 1].event is Some && after.rows@[n + 1].event->0@ == second
        }),
{
    let middle = choose|middle: Ledger| #[trigger]
        audit::appends(before, middle, first) && audit::appends(middle, after, second);
    let n = before.rows@.len() as int;
    assert(after.rows@.drop_last() == middle.rows@);
    assert(middle.rows@.drop_last() == before.rows@);
    assert(after.rows@[n] == after.rows@.drop_last()[n]);
    assert(after.rows@.take(n) =~= middle.rows@.take(n));
    assert(middle.rows@.take(n) =~= before.rows@);
}

} // verus!
