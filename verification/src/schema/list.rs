//! The `list` operation's request and response shapes.

use vstd::prelude::*;

use crate::error::StoreError;

verus! {

/// Request body: the subject whose whole record is listed.
pub struct ListReq {
    pub id: String,
}

/// Tagged response: the subject's full decoded mapping, or an error reason.
#[derive(Debug, PartialEq)]
pub enum ListRes {
    List { values: Vec<(String, u32)> },
    Error { reason: String },
}

impl ListRes {
    /// The success response carrying the listed entries.
    pub fn success(values: Vec<(String, u32)>) -> (r: Self)
        ensures
            r == (ListRes::List { values }),
    {
        Self::List { values }
    }

    /// The error response carrying the fault's reason string.
    pub fn failure(e: StoreError) -> (r: Self)
        ensures
            r matches ListRes::Error { reason } && reason@ == e.reason_view(),
    {
        Self::Error { reason: e.reason() }
    }

    /// The status code the response maps to: success or server fault.
    pub fn status(&self) -> (code: u16)
        ensures
            code == (if self is List {
                200u16
            } else {
                500u16
            }),
    {
        match self {
            ListRes::List { .. } => 200,
            ListRes::Error { .. } => 500,
        }
    }
}

} // verus!
