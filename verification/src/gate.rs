//! What a worker asks of an authorization before it acts.

use vstd::prelude::*;

use crate::broker::Authorization;
use crate::codec;
use crate::protocol::PolicyDecisionKind;
use crate::text;

verus! {

/// Why an authorization does not let a worker act.
#[derive(Debug, Clone, Copy, PartialEq, Eq, Structural)]
pub enum Flaw {
    /// The decision is about another request, or the request about another
    /// target.
    Mismatch,
    /// The action waits for an approval.
    ApprovalRequired,
    /// The policy denies the action.
    Denied,
    /// The policy does not ask for an approval.
    NotForApproval,
    /// The request is for another action.
    WrongAction,
}

/// The decision is about the request.
pub open spec fn belongs(authorization: Authorization) -> bool {
    authorization.request.envelope_digest@ == authorization.decision.envelope_digest@
        && authorization.request.envelope.request_id@ == authorization.decision.request_id@
}

/// The decision is about the request, and the request about the target.
pub open spec fn about(authorization: Authorization, target: Seq<char>) -> bool {
    belongs(authorization) && authorization.request.envelope.target@ == target
}

/// Why an action that needs no approval may not be done to a target, if it may
/// not.
pub open spec fn auto_flaw(
    authorization: Authorization,
    action: Seq<char>,
    target: Seq<char>,
) -> Option<Flaw> {
    if !about(authorization, target) {
        Some(Flaw::Mismatch)
    } else if authorization.decision.kind == PolicyDecisionKind::Approval {
        Some(Flaw::ApprovalRequired)
    } else if authorization.decision.kind == PolicyDecisionKind::Deny {
        Some(Flaw::Denied)
    } else if authorization.request.envelope.action@ != action {
        Some(Flaw::WrongAction)
    } else {
        None
    }
}

/// Why an action that needs approval may not be done to a target, if it may not.
pub open spec fn approval_flaw(
    authorization: Authorization,
    action: Seq<char>,
    target: Seq<char>,
) -> Option<Flaw> {
    if !about(authorization, target) {
        Some(Flaw::Mismatch)
    } else if authorization.decision.kind != PolicyDecisionKind::Approval {
        Some(Flaw::NotForApproval)
    } else if authorization.request.envelope.action@ != action {
        Some(Flaw::WrongAction)
    } else {
        None
    }
}

fn is_about(authorization: &Authorization, target: &str) -> (r: bool)
    ensures
        r == about(*authorization, target@),
{
    codec::same_bytes(
        authorization.request.envelope_digest.as_slice(),
        authorization.decision.envelope_digest.as_slice(),
    ) && text::same_text(
        authorization.request.envelope.request_id.as_str(),
        authorization.decision.request_id.as_str(),
    ) && text::same_text(authorization.request.envelope.target.as_str(), target)
}

pub fn check_auto(authorization: &Authorization, action: &str, target: &str) -> (flaw: Option<Flaw>)
    ensures
        flaw == auto_flaw(*authorization, action@, target@),
{
    if !is_about(authorization, target) {
        return Some(Flaw::Mismatch);
    }
    match authorization.decision.kind {
        PolicyDecisionKind::Auto => {},
        PolicyDecisionKind::Approval => {
            return Some(Flaw::ApprovalRequired);
        },
        PolicyDecisionKind::Deny => {
            return Some(Flaw::Denied);
        },
    }
    if !text::same_text(authorization.request.envelope.action.as_str(), action) {
        return Some(Flaw::WrongAction);
    }
    None
}

pub fn check_approval(authorization: &Authorization, action: &str, target: &str) -> (flaw: Option<
    Flaw,
>)
    ensures
        flaw == approval_flaw(*authorization, action@, target@),
{
    if !is_about(authorization, target) {
        return Some(Flaw::Mismatch);
    }
    if authorization.decision.kind != PolicyDecisionKind::Approval {
        return Some(Flaw::NotForApproval);
    }
    if !text::same_text(authorization.request.envelope.action.as_str(), action) {
        return Some(Flaw::WrongAction);
    }
    None
}

// ---------------------------------------------------------------------------
// Laws

/// No authorization is good both without an approval and with one.
pub proof fn no_decision_serves_both_ways(
    authorization: Authorization,
    action: Seq<char>,
    target: Seq<char>,
    other: Seq<char>,
    other_target: Seq<char>,
)
    ensures
        !(auto_flaw(authorization, action, target) is None && approval_flaw(
            authorization,
            other,
            other_target,
        ) is None),
{
}

/// What lets a worker do one action lets it do no other.
pub proof fn authorizations_name_one_action(
    authorization: Authorization,
    action: Seq<char>,
    other: Seq<char>,
    target: Seq<char>,
)
    requires
        action != other,
    ensures
        auto_flaw(authorization, action, target) is None ==> auto_flaw(
            authorization,
            other,
            target,
        ) is Some,
        approval_flaw(authorization, action, target) is None ==> approval_flaw(
            authorization,
            other,
            target,
        ) is Some,
{
}

/// What lets a worker act lets it act on the target of the request alone.
pub proof fn authorizations_name_one_target(
    authorization: Authorization,
    action: Seq<char>,
    target: Seq<char>,
)
    ensures
        auto_flaw(authorization, action, target) is None ==> target
            == authorization.request.envelope.target@,
        approval_flaw(authorization, action, target) is None ==> target
            == authorization.request.envelope.target@,
{
}

/// An action that needs no approval may be done if and only if the decision is on this very
/// request, lets it run, and the request is for the action and the target. Where it may
/// not, the first of these that fails is told.
pub proof fn actions_run_exactly_when_decided_so(
    authorization: Authorization,
    action: Seq<char>,
    target: Seq<char>,
)
    ensures
        ({
            let request = authorization.request;
            let decision = authorization.decision;
            let fits = request.envelope_digest@ == decision.envelope_digest@
                && request.envelope.request_id@ == decision.request_id@ && request.envelope.target@
                == target;
            let same = request.envelope.action@ == action;
            &&& auto_flaw(authorization, action, target) is None == (fits && decision.kind is Auto
                && same)
            &&& approval_flaw(authorization, action, target) is None == (fits
                && decision.kind is Approval && same)
            &&& !fits ==> auto_flaw(authorization, action, target) == Some(Flaw::Mismatch)
                && approval_flaw(authorization, action, target) == Some(Flaw::Mismatch)
            &&& fits && decision.kind is Approval ==> auto_flaw(authorization, action, target)
                == Some(Flaw::ApprovalRequired)
            &&& fits && decision.kind is Deny ==> auto_flaw(authorization, action, target) == Some(
                Flaw::Denied,
            )
            &&& fits && !(decision.kind is Approval) ==> approval_flaw(
                authorization,
                action,
                target,
            ) == Some(Flaw::NotForApproval)
            &&& fits && decision.kind is Auto && !same ==> auto_flaw(authorization, action, target)
                == Some(Flaw::WrongAction)
            &&& fits && decision.kind is Approval && !same ==> approval_flaw(
                authorization,
                action,
                target,
            ) == Some(Flaw::WrongAction)
        }),
{
}

} // verus!
