//! Error codes shared across tool families, and an error value typed by them.
use vstd::prelude::*;

use crate::json::owned;

verus! {

/// The stable error codes shared across tool families.
#[derive(Clone, Copy, PartialEq, Eq, Structural, Debug)]
pub enum ToolErrorCode {
    FileNotFound,
    PermissionDenied,
    FileAlreadyExists,
    DirectoryNotEmpty,
    PatternNotUnique,
    PatternNotFound,
    /// Invalid user-supplied glob or regular expression.
    InvalidPattern,
    InvalidPath,
    NetworkError,
    GitError,
    MemoryKeyNotFound,
}

/// The text of each code, as it appears in an error's `code`.
pub open spec fn code_text(c: ToolErrorCode) -> Seq<char> {
    match c {
        ToolErrorCode::FileNotFound => "FILE_NOT_FOUND"@,
        ToolErrorCode::PermissionDenied => "PERMISSION_DENIED"@,
        ToolErrorCode::FileAlreadyExists => "FILE_ALREADY_EXISTS"@,
        ToolErrorCode::DirectoryNotEmpty => "DIRECTORY_NOT_EMPTY"@,
        ToolErrorCode::PatternNotUnique => "PATTERN_NOT_UNIQUE"@,
        ToolErrorCode::PatternNotFound => "PATTERN_NOT_FOUND"@,
        ToolErrorCode::InvalidPattern => "INVALID_PATTERN"@,
        ToolErrorCode::InvalidPath => "INVALID_PATH"@,
        ToolErrorCode::NetworkError => "NETWORK_ERROR"@,
        ToolErrorCode::GitError => "GIT_ERROR"@,
        ToolErrorCode::MemoryKeyNotFound => "MEMORY_KEY_NOT_FOUND"@,
    }
}

impl ToolErrorCode {
    /// The text of the code (what the code displays as).
    pub fn as_str(self) -> (r: &'static str)
        ensures
            r@ == code_text(self),
    {
        match self {
            ToolErrorCode::FileNotFound => "FILE_NOT_FOUND",
            ToolErrorCode::PermissionDenied => "PERMISSION_DENIED",
            ToolErrorCode::FileAlreadyExists => "FILE_ALREADY_EXISTS",
            ToolErrorCode::DirectoryNotEmpty => "DIRECTORY_NOT_EMPTY",
            ToolErrorCode::PatternNotUnique => "PATTERN_NOT_UNIQUE",
            ToolErrorCode::PatternNotFound => "PATTERN_NOT_FOUND",
            ToolErrorCode::InvalidPattern => "INVALID_PATTERN",
            ToolErrorCode::InvalidPath => "INVALID_PATH",
            ToolErrorCode::NetworkError => "NETWORK_ERROR",
            ToolErrorCode::GitError => "GIT_ERROR",
            ToolErrorCode::MemoryKeyNotFound => "MEMORY_KEY_NOT_FOUND",
        }
    }
}

/// An error with a typed code.
#[derive(Debug)]
pub struct ToolError {
    pub code: ToolErrorCode,
    pub message: String,
}

impl ToolError {
    /// The error's text: `"<code>: <message>"` (what it displays as).
    pub fn to_text(&self) -> (r: String)
        ensures
            r@ == code_text(self.code) + ": "@ + self.message@,
    {
        crate::json::concat3(self.code.as_str(), ": ", self.message.as_str())
    }

    /// The untyped form carried by tool results.
    pub fn untyped(&self) -> (r: crate::tool::ToolError)
        ensures
            r.code@ == code_text(self.code),
            r.message@ == self.message@,
    {
        crate::tool::ToolError { code: owned(self.code.as_str()), message: owned(self.message.as_str()) }
    }
}

} // verus!
