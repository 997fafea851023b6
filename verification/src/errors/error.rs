//! Errors of the library.
use vstd::prelude::*;
use crate::text::concat;

verus! {

/// What can go wrong in repository operations.
#[derive(Debug)]
pub enum Error {
    PathResolution(String),
    DirectoryCreation(String),
    InvalidPath(String),
    Generic(String),
    /// An I/O failure, described by its message.
    IO(String),
    GlobError(String),
    Lock(String),
}

/// The message printed for an error: its kind followed by its detail.
pub open spec fn error_message(e: Error) -> Seq<char> {
    match e {
        Error::PathResolution(m) => "Path resolution error: "@ + m@,
        Error::DirectoryCreation(m) => "Directory creation error: "@ + m@,
        Error::InvalidPath(m) => "Invalid path: "@ + m@,
        Error::Generic(m) => "Error: "@ + m@,
        Error::IO(m) => "IO error: "@ + m@,
        Error::GlobError(m) => "Glob pattern error: "@ + m@,
        Error::Lock(m) => "Lock error: "@ + m@,
    }
}

impl Error {
    /// The message an error displays as.
    pub fn to_message(&self) -> (s: String)
        ensures
            s@ == error_message(*self),
    {
        match self {
            Error::PathResolution(m) => concat("Path resolution error: ", m.as_str()),
            Error::DirectoryCreation(m) => concat("Directory creation error: ", m.as_str()),
            Error::InvalidPath(m) => concat("Invalid path: ", m.as_str()),
            Error::Generic(m) => concat("Error: ", m.as_str()),
            Error::IO(m) => concat("IO error: ", m.as_str()),
            Error::GlobError(m) => concat("Glob pattern error: ", m.as_str()),
            Error::Lock(m) => concat("Lock error: ", m.as_str()),
        }
    }
}

/// Why a lock file could not be taken or written.
#[derive(Debug)]
pub enum LockError {
    MissingParent(String),
    NoPermission(String),
    StaleLock(String),
    LockDenied(String),
}

/// A generic error carrying `message`.
pub fn generic(message: &str) -> (e: Error)
    ensures
        e matches Error::Generic(m) && m@ == message@,
{
    Error::Generic(message.to_string())
}

} // verus!
