//! The error taxonomy shared by the registry store, the codec and the
//! command-running front end.

use vstd::prelude::*;

verus! {

/// Every failure the system surfaces, as a typed value. The registry store
/// and the codec never recover internally: each failure is returned to the
/// immediate caller. Where a slug is to blame, the error value names it.
#[derive(Clone, Debug, PartialEq, Eq)]
pub enum ErrorKind {
    /// A lookup by the named slug found no connection.
    NotFound(String),
    /// An add or rename would give a second connection the named slug.
    DuplicateKey(String),
    /// The persisted file exists but is not valid in the expected format.
    DataCorrupt,
    /// A filesystem read, write or directory creation failed.
    IOFailure,
    /// The in-memory state could not be serialized.
    SerializationFailure,
    /// A caller-supplied value failed to parse.
    InvalidInput,
    /// A spawned remote-access process exited non-zero or could not start.
    ExternalCommandFailed,
}

impl ErrorKind {
    /// A short fixed description of the failure's kind, for callers that
    /// print errors.
    pub fn describe(&self) -> (r: &'static str)
        ensures
            r@ == self.spec_describe(),
    {
        match self {
            ErrorKind::NotFound(_) => "connection not found",
            ErrorKind::DuplicateKey(_) => "a connection with this slug already exists",
            ErrorKind::DataCorrupt => "the registry file is not valid",
            ErrorKind::IOFailure => "a filesystem operation failed",
            ErrorKind::SerializationFailure => "the registry could not be serialized",
            ErrorKind::InvalidInput => "invalid input value",
            ErrorKind::ExternalCommandFailed => "the external command failed",
        }
    }

    pub open spec fn spec_describe(&self) -> Seq<char> {
        match self {
            ErrorKind::NotFound(_) => "connection not found"@,
            ErrorKind::DuplicateKey(_) => "a connection with this slug already exists"@,
            ErrorKind::DataCorrupt => "the registry file is not valid"@,
            ErrorKind::IOFailure => "a filesystem operation failed"@,
            ErrorKind::SerializationFailure => "the registry could not be serialized"@,
            ErrorKind::InvalidInput => "invalid input value"@,
            ErrorKind::ExternalCommandFailed => "the external command failed"@,
        }
    }
}

} // verus!
