//! Per-operation request and response shapes: one tagged response per verb,
//! a success variant and an error variant each, and the status each maps to.

pub mod list;
pub mod set;
pub mod show;
pub mod wipe;
