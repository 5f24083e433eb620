//! The closed set of failures that filesystem operations report.

use vstd::prelude::*;

verus! {

/// A failed filesystem operation.
#[derive(Debug)]
pub enum VfsError {
    NotFound(String),
    PermissionDenied(String),
    AlreadyExists(String),
    NotADirectory(String),
    IsADirectory(String),
    InvalidArgument(String),
    InvalidPath(String),
    BadOffset,
    LockPoisoned,
}

pub type VfsResult<T> = Result<T, VfsError>;

impl VfsError {
    /// The human-readable text of the error.
    pub open spec fn spec_message(&self) -> Seq<char> {
        match self {
            VfsError::NotFound(s) => "path not found: "@ + s@,
            VfsError::PermissionDenied(s) => "permission denied: "@ + s@,
            VfsError::AlreadyExists(s) => "already exists: "@ + s@,
            VfsError::NotADirectory(s) => "not a directory: "@ + s@,
            VfsError::IsADirectory(s) => "is a directory: "@ + s@,
            VfsError::InvalidArgument(s) => "invalid argument: "@ + s@,
            VfsError::InvalidPath(s) => "invalid path: "@ + s@,
            VfsError::BadOffset => "invalid offset"@,
            VfsError::LockPoisoned => "lock poisoned"@,
        }
    }

    /// Renders the error as text.
    pub fn message(&self) -> (r: String)
        ensures
            r@ == self.spec_message(),
    {
        match self {
            VfsError::NotFound(s) => String::from_str("path not found: ").concat(s.as_str()),
            VfsError::PermissionDenied(s) => String::from_str("permission denied: ").concat(
                s.as_str(),
            ),
            VfsError::AlreadyExists(s) => String::from_str("already exists: ").concat(s.as_str()),
            VfsError::NotADirectory(s) => String::from_str("not a directory: ").concat(s.as_str()),
            VfsError::IsADirectory(s) => String::from_str("is a directory: ").concat(s.as_str()),
            VfsError::InvalidArgument(s) => String::from_str("invalid argument: ").concat(
                s.as_str(),
            ),
            VfsError::InvalidPath(s) => String::from_str("invalid path: ").concat(s.as_str()),
            VfsError::BadOffset => String::from_str("invalid offset"),
            VfsError::LockPoisoned => String::from_str("lock poisoned"),
        }
    }
}

} // verus!
