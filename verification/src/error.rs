//! The error type shared by the engines, the server and the client.

use vstd::prelude::*;

verus! {

/// What can go wrong in the store, on the wire, or around them.
#[derive(Debug, Clone)]
pub enum KvsError {
    /// Removal was asked for a key that is not present.
    KeyNotFound,
    /// The index pointed at a record that is not a `Set`: a corrupted log or
    /// a bug.
    UnexpectedCommandType,
    /// The engine named on start does not match the one the store was
    /// written with.
    UnexpectedConfig,
    /// A filesystem or socket failure, with its message.
    Io(String),
    /// Malformed text on the wire or in the log.
    Sered(String),
    /// Any other failure, described by its message.
    StringError(String),
}

impl KvsError {
    /// The human-readable message for this error, as the server puts it in a
    /// response and the client prints it.
    pub fn message(&self) -> (r: String)
        ensures
            r@ == self.spec_message(),
    {
        match self {
            KvsError::KeyNotFound => "Key not found".to_owned(),
            KvsError::UnexpectedCommandType => "Unexpected command type".to_owned(),
            KvsError::UnexpectedConfig => "Unexpected config".to_owned(),
            KvsError::Io(m) => {
                let mut s = "IO error: ".to_owned();
                s.append(m.as_str());
                s
            },
            KvsError::Sered(m) => {
                let mut s = "serialization error: ".to_owned();
                s.append(m.as_str());
                s
            },
            KvsError::StringError(m) => m.clone(),
        }
    }

    /// The characters of the message for this error.
    pub open spec fn spec_message(&self) -> Seq<char> {
        match self {
            KvsError::KeyNotFound => "Key not found"@,
            KvsError::UnexpectedCommandType => "Unexpected command type"@,
            KvsError::UnexpectedConfig => "Unexpected config"@,
            KvsError::Io(m) => "IO error: "@ + m@,
            KvsError::Sered(m) => "serialization error: "@ + m@,
            KvsError::StringError(m) => m@,
        }
    }
}

} // verus!
