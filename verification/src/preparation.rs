//! How a request is prepared for an approval: an edit is turned into the write of
//! what it gives, sealed and decided on anew, before it is put to an approver.

use vstd::prelude::*;

use crate::broker::Authorization;
use crate::codec;
use crate::dispatch::DispatchError;
use crate::edits::PreparedEdit;
use crate::files::FsError;
use crate::protocol;
use crate::protocol::{ActionEnvelope, ActionRequest};
use crate::reports;

verus! {

/// Where a preparation is, which says what comes next.
pub enum Preparation {
    /// The edits that the request asks for are to be read, and applied to its target.
    Editing(Authorization),
    /// The write of the edited file is to be sealed.
    Sealing(ActionEnvelope, PreparedEdit),
    /// The sealed write is to be decided on.
    Deciding(ActionRequest, PreparedEdit),
    /// The request is to be put to an approver, with what an edit gave.
    Challenging(Authorization, Option<PreparedEdit>),
}

/// The request asks for edits.
pub open spec fn asks_for_edits(request: ActionRequest) -> bool {
    protocol::parameter(request.envelope.parameters@, "edit_recipe"@) is Some
}

impl Preparation {
    /// The preparation of a request that needs an approval.
    pub fn begin(authorization: Authorization) -> (r: Preparation)
        ensures
            r == (if asks_for_edits(authorization.request) {
                Preparation::Editing(authorization)
            } else {
                Preparation::Challenging(authorization, None)
            }),
    {
        match protocol::find_parameter(&authorization.request.envelope.parameters, "edit_recipe") {
            Some(_) => Preparation::Editing(authorization),
            None => Preparation::Challenging(authorization, None),
        }
    }

    /// Goes on from the edits; `outcome` is what they gave, if they could be read.
    pub fn edited(
        authorization: Authorization,
        outcome: Option<Result<PreparedEdit, FsError>>,
    ) -> (r: Result<Preparation, DispatchError>)
        ensures
            match outcome {
                None => r == Err::<Preparation, DispatchError>(
                    DispatchError::InvalidFilesystemParameters,
                ),
                Some(Err(error)) => r == Err::<Preparation, DispatchError>(
                    DispatchError::Fs(error),
                ),
                Some(Ok(edit)) => {
                    &&& r is Ok
                    &&& r->Ok_0 is Sealing
                    &&& reports::is_edited(
                        r->Ok_0->Sealing_0,
                        authorization.request.envelope,
                        edit,
                    )
                    &&& r->Ok_0->Sealing_1 == edit
                    &&& codec::standard_base64_bytes(codec::standard_base64(edit.content@))
                        == Some(edit.content@)
                },
            },
    {
        match outcome {
            None => Err(DispatchError::InvalidFilesystemParameters),
            Some(Err(error)) => Err(DispatchError::Fs(error)),
            Some(Ok(edit)) => {
                let envelope = reports::edited_envelope(authorization.request.envelope, &edit);
                Ok(Preparation::Sealing(envelope, edit))
            },
        }
    }

    /// Goes on from the seal; `request` is the sealed write, if it could be sealed.
    pub fn sealed(request: Option<ActionRequest>, edit: PreparedEdit) -> (r: Result<
        Preparation,
        DispatchError,
    >)
        ensures
            r == (match request {
                None => Err::<Preparation, DispatchError>(
                    DispatchError::InvalidFilesystemParameters,
                ),
                Some(request) => Ok(Preparation::Deciding(request, edit)),
            }),
    {
        match request {
            None => Err(DispatchError::InvalidFilesystemParameters),
            Some(request) => Ok(Preparation::Deciding(request, edit)),
        }
    }

    /// Goes on from the decision on the sealed write.
    pub fn decided(outcome: Result<Authorization, DispatchError>, edit: PreparedEdit) -> (r: Result<
        Preparation,
        DispatchError,
    >)
        ensures
            r == (match outcome {
                Err(error) => Err::<Preparation, DispatchError>(error),
                Ok(authorization) => Ok(Preparation::Challenging(authorization, Some(edit))),
            }),
    {
        match outcome {
            Err(error) => Err(error),
            Ok(authorization) => Ok(Preparation::Challenging(authorization, Some(edit))),
        }
    }
}

} // verus!
