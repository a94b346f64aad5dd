//! Connecting a federation: the request, and the answer to it.

use crate::error::{AppError, AppErrorView};
use crate::federation::InviteCode;
use crate::registry::{
    register_step, MultiMint, RegistrationAction, RegistrationActionView, RegistrationEvent,
};
use vstd::prelude::*;

verus! {

/// A request to connect the federation of an invite code, and to make it
/// the default federation where `set_default` says so.
#[derive(Debug, PartialEq, Eq)]
pub struct ConnectFedPayload {
    pub invite_code: InviteCode,
    pub set_default: bool,
}

/// The answer to a request that went through.
#[derive(Debug, PartialEq, Eq)]
pub struct ConnectFedResponse {
    pub status: String,
}

/// How a request is answered when the registration has told `action`: with
/// `ok` where the federation is registered, with the error where the
/// registration has failed, and not yet where there is more to do.
pub open spec fn reply_to(action: RegistrationActionView) -> Option<Result<Seq<char>, AppErrorView>> {
    match action {
        RegistrationActionView::Registered(_) => Some(Ok("ok"@)),
        RegistrationActionView::Failed(error) => Some(Err(error)),
        _ => None,
    }
}

/// Begins to connect the federation that `req` names: asks the registry to
/// register it, and hands back what is to be done next.
pub fn handle_connect_federation<H>(multimint: &mut MultiMint<H>, req: ConnectFedPayload) -> (action:
    RegistrationAction)
    requires
        old(multimint).wf(),
    ensures
        final(multimint).wf(),
        final(multimint).builder() == old(multimint).builder(),
        (final(multimint)@, action@) == register_step(
            old(multimint)@,
            RegistrationEvent::Requested {
                invite_code: req.invite_code,
                set_default: req.set_default,
            },
        ),
{
    multimint.register_new(
        RegistrationEvent::Requested { invite_code: req.invite_code, set_default: req.set_default },
    )
}

/// The answer to the caller, once the registration is over: `None` while
/// there is more to do.
pub fn connect_reply(action: RegistrationAction) -> (r: Option<Result<ConnectFedResponse, AppError>>)
    ensures
        match r {
            Some(Ok(response)) => reply_to(action@) == Some(
                Ok::<Seq<char>, AppErrorView>(response.status@),
            ),
            Some(Err(error)) => reply_to(action@) == Some(Err::<Seq<char>, AppErrorView>(error@)),
            None => reply_to(action@) is None,
        },
{
    match action {
        RegistrationAction::Registered(_) => Some(Ok(ConnectFedResponse { status: "ok".to_owned() })),
        RegistrationAction::Failed(error) => Some(Err(error)),
        _ => None,
    }
}

} // verus!
