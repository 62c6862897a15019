//! The per-connection protocol step: what the connection handler does with
//! the bytes of one read. The handler loops `AwaitingRequest -> Processing ->
//! AwaitingRequest` until the peer shuts down or sends malformed bytes; both
//! transitions end in `Closed`, the latter without a response.
//!
//! The step itself is pure; the loop around it performs the reads and
//! writes.

use vstd::prelude::*;

use crate::auth::{login, spec_login};
use crate::codec::{decode_request, decoded_request, decoded_response, encode_response,
    encoded_response};
use crate::login_action::{LoginAction, LoginActionV};
use crate::store::UserStore;
use crate::user::UserV;

verus! {

/// What the connection handler does after one read: write a response and
/// await the next request, or close the connection.
#[derive(Debug)]
pub enum ConnectionStep {
    Respond(Vec<u8>),
    Close,
}

/// The mathematical shape of a connection step.
pub enum ConnectionStepV {
    Respond(Seq<u8>),
    Close,
}

impl View for ConnectionStep {
    type V = ConnectionStepV;

    open spec fn view(&self) -> ConnectionStepV {
        match self {
            ConnectionStep::Respond(bytes) => ConnectionStepV::Respond(bytes@),
            ConnectionStep::Close => ConnectionStepV::Close,
        }
    }
}

impl DeepView for ConnectionStep {
    type V = ConnectionStepV;

    open spec fn deep_view(&self) -> ConnectionStepV {
        self.view()
    }
}

/// The protocol decision on one read: an empty read is the peer's shutdown;
/// bytes that do not decode to a request are fatal to the connection and get
/// no response; a decoded request is authenticated and the encoded optional
/// outcome is the response.
pub open spec fn spec_connection_step(
    m: Map<Seq<char>, UserV>,
    input: Seq<u8>,
) -> ConnectionStepV {
    if input.len() == 0 {
        ConnectionStepV::Close
    } else {
        match decoded_request(input) {
            Some(req) => ConnectionStepV::Respond(
                encoded_response(spec_login(m, req.username, req.password)),
            ),
            None => ConnectionStepV::Close,
        }
    }
}

/// One iteration of the connection handler, given the bytes of one read.
pub fn connection_step(users: &UserStore, input: &[u8]) -> (step: ConnectionStep)
    requires
        users.wf(),
    ensures
        step.deep_view() == spec_connection_step(users@, input@),
{
    if input.len() == 0 {
        return ConnectionStep::Close;
    }
    match decode_request(input) {
        Some(request) => {
            let outcome = login(users, request.username.as_str(), request.password.as_str());
            let bytes = encode_response(&outcome);
            ConnectionStep::Respond(bytes)
        },
        None => ConnectionStep::Close,
    }
}

/// How the client reads the server's reply: malformed bytes are an error of
/// their own, an absent outcome means the server knows no such login, and a
/// present outcome is handed back as it came.
#[derive(Clone, Copy, Debug, PartialEq, Eq, Structural)]
pub enum ClientError {
    MalformedResponse,
    UnknownUser,
}

/// Interprets the bytes a server wrote back for one request.
pub fn interpret_response(b: &[u8]) -> (r: Result<LoginAction, ClientError>)
    ensures
        match decoded_response(b@) {
            None => r == Err::<LoginAction, ClientError>(ClientError::MalformedResponse),
            Some(None) => r == Err::<LoginAction, ClientError>(ClientError::UnknownUser),
            Some(Some(a)) => r matches Ok(action) && action@ == a,
        },
{
    match crate::codec::decode_response(b) {
        None => Err(ClientError::MalformedResponse),
        Some(None) => Err(ClientError::UnknownUser),
        Some(Some(action)) => Ok(action),
    }
}

} // verus!
