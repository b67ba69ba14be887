//! The `show` operation's request and response shapes.

use vstd::prelude::*;

use crate::error::StoreError;

verus! {

/// Request body: the subject and the keys whose levels are requested.
pub struct ShowReq {
    pub id: String,
    pub entries: Vec<String>,
}

/// Tagged response: the requested entries that are present, or an error
/// reason. Requested keys absent from the record are omitted, not padded
/// with zero.
#[derive(Debug, PartialEq)]
pub enum ShowRes {
    Show { values: Vec<(String, u32)> },
    Error { reason: String },
}

impl ShowRes {
    /// The success response carrying the requested entries.
    pub fn success(values: Vec<(String, u32)>) -> (r: Self)
        ensures
            r == (ShowRes::Show { values }),
    {
        Self::Show { values }
    }

    /// The error response carrying the fault's reason string.
    pub fn failure(e: StoreError) -> (r: Self)
        ensures
            r matches ShowRes::Error { reason } && reason@ == e.reason_view(),
    {
        Self::Error { reason: e.reason() }
    }

    /// The status code the response maps to: success or server fault.
    pub fn status(&self) -> (code: u16)
        ensures
            code == (if self is Show {
                200u16
            } else {
                500u16
            }),
    {
        match self {
            ShowRes::Show { .. } => 200,
            ShowRes::Error { .. } => 500,
        }
    }
}

} // verus!
