//! The errors that the library reports.

use vstd::prelude::*;

verus! {

/// The classes of failure that the library reports.
#[derive(Clone, Copy, Debug, PartialEq, Eq, Hash, Structural)]
pub enum ErrorKind {
    /// A textual type could not be parsed.
    BadType,
    /// A type breaks a structural rule.
    InvalidType,
    /// A value does not match its declared type.
    TypeMismatch,
    /// The bytes on the wire are not a valid encoding.
    ProtocolError,
    /// The construct is recognised but not implemented.
    Unsupported,
}

/// A failure: its class and a message for people.
#[derive(Debug)]
pub struct Error {
    pub kind: ErrorKind,
    pub message: String,
}

impl Error {
    /// An error of class `kind` with the given message.
    pub fn new(kind: ErrorKind, message: &str) -> (e: Error)
        ensures
            e.kind == kind,
            e.message@ == message@,
    {
        Error { kind, message: message.to_owned() }
    }

    /// The class of this error.
    pub fn kind(&self) -> (k: ErrorKind)
        ensures
            k == self.kind,
    {
        self.kind
    }

    /// The message, as text.
    pub fn to_string(&self) -> (s: String)
        ensures
            s@ == self.message@,
    {
        self.message.clone()
    }
}

} // verus!
