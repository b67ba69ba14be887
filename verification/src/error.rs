//! The store's fault taxonomy: local key validation, storage-layer failures
//! propagated with their own description, and the internal-consistency fault
//! raised when a stored field name does not follow the codec's grammar.

use vstd::prelude::*;

verus! {

/// Why a store operation failed.
#[derive(Debug, PartialEq)]
pub enum StoreError {
    /// A supplied permission key is empty or equals the reserved identity
    /// field name; detected locally, before any storage call.
    BadKey,
    /// A failure reported by the storage layer, carried verbatim.
    StorageFault { reason: String },
    /// A stored field name does not follow the codec's escape grammar:
    /// the record was written by an incompatible codec.
    DecodeInconsistency,
}

impl StoreError {
    /// The machine-readable reason string surfaced in error responses.
    pub open spec fn reason_view(self) -> Seq<char> {
        match self {
            StoreError::BadKey => "bad key"@,
            StoreError::StorageFault { reason } => reason@,
            StoreError::DecodeInconsistency => "unknown escape sequence"@,
        }
    }

    /// The reason string for this fault.
    pub fn reason(&self) -> (r: String)
        ensures
            r@ == self.reason_view(),
    {
        match self {
            StoreError::BadKey => String::from_str("bad key"),
            StoreError::StorageFault { reason } => String::from_str(reason.as_str()),
            StoreError::DecodeInconsistency => String::from_str("unknown escape sequence"),
        }
    }
}

} // verus!
