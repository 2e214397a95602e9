//! The error value that every tool returns on failure.
use vstd::prelude::*;

verus! {

/// Unified error shape: a stable `code` (such as `"INVALID_PATH"`) and a human-readable
/// `message`.
#[derive(Debug)]
pub struct ToolError {
    pub code: String,
    pub message: String,
}

} // verus!
