//! Error taxonomy of the plan engine. Conditions that allow progress are
//! expressed as warnings or conflicts on plan nodes instead; an error is
//! raised only when the plan itself cannot be produced.

use vstd::prelude::*;

verus! {

/// Errors surfaced by the engine. Paths and messages are carried as plain
/// strings.
#[derive(Debug, Clone, PartialEq)]
pub enum FileMoverError {
    Io { message: String },
    Pattern { message: String },
    Scan { path: String, message: String },
    PlanValidation { message: String },
    Execution { path: String, message: String },
    Undo { message: String },
    Config { message: String },
    PermissionDenied { path: String },
    PathNotFound { path: String },
    LongPathNotSupported { path: String },
    OneDriveOffline { path: String },
    InsufficientSpace { path: String },
    InvalidNodeId(String),
}

} // verus!
