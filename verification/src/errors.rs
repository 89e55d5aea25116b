//! The error taxonomy of the orchestrator.

use vstd::prelude::*;

verus! {

/// Every way a lion command can fail. Each variant carries a
/// human-readable message describing the failing operation.
#[derive(Clone, Debug)]
pub enum LionError {
    /// A directory that was about to be created already exists.
    AlreadyExists(String),
    /// A filesystem read, write or create failed.
    IoError(String),
    /// A configuration document is malformed or does not match the schema.
    ParseError(String),
    /// The compiler produced diagnostics; the text is attached verbatim.
    CompileError(String),
    /// The compiler executable could not be spawned.
    ProcessLaunchError(String),
}

impl LionError {
    /// The message carried by the error.
    pub closed spec fn message_spec(&self) -> Seq<char> {
        match self {
            LionError::AlreadyExists(m) => m@,
            LionError::IoError(m) => m@,
            LionError::ParseError(m) => m@,
            LionError::CompileError(m) => m@,
            LionError::ProcessLaunchError(m) => m@,
        }
    }

    /// Returns the human-readable message of this error.
    pub fn message(&self) -> (r: &str)
        ensures
            r@ == self.message_spec(),
    {
        match self {
            LionError::AlreadyExists(m) => m.as_str(),
            LionError::IoError(m) => m.as_str(),
            LionError::ParseError(m) => m.as_str(),
            LionError::CompileError(m) => m.as_str(),
            LionError::ProcessLaunchError(m) => m.as_str(),
        }
    }
}

} // verus!
