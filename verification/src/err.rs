//! Error reporting: the error taxonomy and the per-arena last-error record.

use vstd::prelude::*;

verus! {

/// The kinds of failure an arena operation can report.
#[derive(Clone, Copy, Debug, PartialEq, Eq, Structural)]
pub enum MGAErrorCode {
    /// No error has occurred.
    NoError,
    /// The arena failed to initialize: bad descriptor or backend setup failure.
    InitFailed,
    /// A heap block allocation failed.
    MallocFailed,
    /// The block chain hit the node ceiling.
    OutOfNodes,
    /// Committing reserved memory failed.
    CommitFailed,
    /// The requested growth would exceed the arena's maximum capacity.
    OutOfMemory,
    /// A pop argument exceeded the current position.
    InvalidPop,
}

/// An error raised by an arena: the code, with a message derived from it.
#[derive(Clone, Copy, Debug, PartialEq, Eq, Structural)]
pub struct MGAError {
    /// The kind of error being raised.
    pub code: MGAErrorCode,
}

impl MGAError {
    /// Builds the record for a given code.
    pub fn new(code: MGAErrorCode) -> (e: MGAError)
        ensures
            e.code == code,
    {
        MGAError { code }
    }

    /// Returns the diagnostic message behind the error.
    pub fn msg_to_string(&self) -> (s: String)
        ensures
            self.code is NoError ==> s@ == "no error"@,
            self.code is InitFailed ==> s@ == "arena failed to initialize"@,
            self.code is MallocFailed ==> s@ == "heap block allocation failed"@,
            self.code is OutOfNodes ==> s@ == "block chain hit the node ceiling"@,
            self.code is CommitFailed ==> s@ == "commit of reserved memory failed"@,
            self.code is OutOfMemory ==> s@ == "growth would exceed the maximum capacity"@,
            self.code is InvalidPop ==> s@ == "pop argument exceeded the current position"@,
    {
        match self.code {
            MGAErrorCode::NoError => "no error".to_string(),
            MGAErrorCode::InitFailed => "arena failed to initialize".to_string(),
            MGAErrorCode::MallocFailed => "heap block allocation failed".to_string(),
            MGAErrorCode::OutOfNodes => "block chain hit the node ceiling".to_string(),
            MGAErrorCode::CommitFailed => "commit of reserved memory failed".to_string(),
            MGAErrorCode::OutOfMemory => "growth would exceed the maximum capacity".to_string(),
            MGAErrorCode::InvalidPop => "pop argument exceeded the current position".to_string(),
        }
    }
}

/// The result of a fallible arena operation.
pub type ArenaResult<T> = Result<T, MGAError>;

} // verus!
