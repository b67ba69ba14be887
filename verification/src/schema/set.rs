//! The `set` operation's request and response shapes.

use vstd::prelude::*;

use crate::error::StoreError;

verus! {

/// Request body: the subject and the (key, level) entries to apply; a zero
/// level clears its key.
pub struct SetReq {
    pub id: String,
    pub entries: Vec<(String, u32)>,
}

/// Tagged response: a bare acknowledgement with no payload, or an error
/// reason.
#[derive(Debug, PartialEq)]
pub enum SetRes {
    Ack,
    Error { reason: String },
}

impl SetRes {
    /// The success acknowledgement; it carries no payload.
    pub fn success(_ack: ()) -> (r: Self)
        ensures
            r == SetRes::Ack,
    {
        Self::Ack
    }

    /// The error response carrying the fault's reason string.
    pub fn failure(e: StoreError) -> (r: Self)
        ensures
            r matches SetRes::Error { reason } && reason@ == e.reason_view(),
    {
        Self::Error { reason: e.reason() }
    }

    /// The status code the response maps to: success or server fault.
    pub fn status(&self) -> (code: u16)
        ensures
            code == (if self is Ack {
                200u16
            } else {
                500u16
            }),
    {
        match self {
            SetRes::Ack => 200,
            SetRes::Error { .. } => 500,
        }
    }
}

} // verus!
