//! The `wipe` operation's request and response shapes.

use vstd::prelude::*;

use crate::error::StoreError;

verus! {

/// Request body: the subject whose record is deleted.
pub struct WipeReq {
    pub id: String,
}

/// Tagged response: a bare acknowledgement (deleting an absent record also
/// succeeds), or an error reason.
#[derive(Debug, PartialEq)]
pub enum WipeRes {
    Wiped,
    Error { reason: String },
}

impl WipeRes {
    /// The success acknowledgement; it carries no payload.
    pub fn success(_ack: ()) -> (r: Self)
        ensures
            r == WipeRes::Wiped,
    {
        Self::Wiped
    }

    /// The error response carrying the fault's reason string.
    pub fn failure(e: StoreError) -> (r: Self)
        ensures
            r matches WipeRes::Error { reason } && reason@ == e.reason_view(),
    {
        Self::Error { reason: e.reason() }
    }

    /// The status code the response maps to: success or server fault.
    pub fn status(&self) -> (code: u16)
        ensures
            code == (if self is Wiped {
                200u16
            } else {
                500u16
            }),
    {
        match self {
            WipeRes::Wiped => 200,
            WipeRes::Error { .. } => 500,
        }
    }
}

} // verus!
