//! The record and response types carried on the wire and written to the log.

use vstd::prelude::*;

verus! {

/// An operation on the store, as carried on the wire and (for `Set` and
/// `Rm`) written to the log.
#[derive(Debug, Clone, PartialEq, Eq)]
pub enum Command {
    /// Bind `key` to `value`.
    Put { key: String, value: String },
    /// Ask for the current value of `key`; carried on the wire only, never
    /// written to the log.
    Get { key: String },
    /// Remove `key`.
    Rm { key: String },
}

/// The mathematical content of a `Command`: the same three shapes over
/// character sequences.
pub enum CommandModel {
    /// Bind `key` to `value`.
    Put { key: Seq<char>, value: Seq<char> },
    /// Ask for the current value of `key`.
    Get { key: Seq<char> },
    /// Remove `key`.
    Rm { key: Seq<char> },
}

impl View for Command {
    type V = CommandModel;

    open spec fn view(&self) -> CommandModel {
        match self {
            Command::Put { key, value } => CommandModel::Put { key: key@, value: value@ },
            Command::Get { key } => CommandModel::Get { key: key@ },
            Command::Rm { key } => CommandModel::Rm { key: key@ },
        }
    }
}

/// The reply to one request: `res` is true when the operation succeeded, and
/// `info` carries the value, the "Key not found" sentinel, or an error
/// message.
#[derive(Debug, Clone, PartialEq, Eq)]
pub struct Response {
    /// Whether the operation succeeded.
    pub res: bool,
    /// The value, the sentinel, or an error message.
    pub info: String,
}

/// The mathematical content of a `Response`.
pub struct ResponseModel {
    /// Whether the operation succeeded.
    pub res: bool,
    /// The characters of the `info` field.
    pub info: Seq<char>,
}

impl View for Response {
    type V = ResponseModel;

    open spec fn view(&self) -> ResponseModel {
        ResponseModel { res: self.res, info: self.info@ }
    }
}

} // verus!
