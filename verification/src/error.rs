//! The errors that the library reports.

use vstd::prelude::*;

verus! {

/// The kind of an error, matching the `std::io::ErrorKind` that each one
/// corresponds to.
#[derive(Clone, Copy, Debug, Eq, PartialEq, Structural)]
pub enum ErrorKind {
    /// Something that was looked up (a table, a stream) does not exist.
    NotFound,
    /// A request or a value passed in is not acceptable.
    InvalidInput,
    /// Data read from a package is malformed.
    InvalidData,
    /// Something to be created exists already.
    AlreadyExists,
    /// Data ended before a complete item could be read.
    UnexpectedEof,
}

/// An error: its kind and a human-readable description.
#[derive(Debug)]
pub struct Error {
    /// What kind of error this is.
    pub kind: ErrorKind,
    /// A description of the error.
    pub message: String,
}

impl Error {
    /// Creates an error of the given kind with a description.
    pub fn new(kind: ErrorKind, message: String) -> (r: Error)
        ensures
            r.kind == kind,
            r.message@ == message@,
    {
        Error { kind, message }
    }

    /// Creates an error of the given kind with a fixed description.
    pub fn with_text(kind: ErrorKind, message: &str) -> (r: Error)
        ensures
            r.kind == kind,
            r.message@ == message@,
    {
        Error { kind, message: message.to_owned() }
    }

    /// Returns the kind of this error.
    pub fn kind(&self) -> (r: ErrorKind)
        ensures
            r == self.kind,
    {
        self.kind
    }

    /// Returns the description of this error.
    pub fn to_string(&self) -> (r: String)
        ensures
            r@ == self.message@,
    {
        self.message.clone()
    }
}

} // verus!
