//! The failures that reading and evaluating a template can report.

use vstd::prelude::*;

verus! {

/// What went wrong. A failure is a kind together with a message for people.
#[derive(Clone, Copy, Debug, PartialEq, Eq, Structural)]
pub enum ErrorKind {
    /// The input is not a template of the grammar.
    SyntaxError,
    /// A variable was referenced that the registry does not hold.
    VariableNotFound,
    /// A function was called that the registry does not hold.
    FunctionNotFound,
    /// A function was called with the wrong number of arguments.
    ArityMismatch,
    /// A function was called with an argument of a kind it does not take.
    TypeMismatch,
    /// The machine could not answer a question put to it.
    SystemQueryFailed,
    /// The text of a literal does not denote a value of its kind.
    LiteralParseError,
    /// A failure raised by a host function that names no kind.
    Other,
}

/// A failure: its kind and a message.
#[derive(Debug)]
pub struct Error {
    pub message: String,
    pub kind: ErrorKind,
}

impl Error {
    /// A failure of kind [`ErrorKind::Other`] with the given message.
    pub fn new(message: String) -> (e: Self)
        ensures
            e.message == message,
            e.kind == ErrorKind::Other,
    {
        Self { message, kind: ErrorKind::Other }
    }

    /// A failure of the given kind with the given message.
    pub fn with_kind(kind: ErrorKind, message: String) -> (e: Self)
        ensures
            e.message == message,
            e.kind == kind,
    {
        Self { message, kind }
    }

    /// The kind of this failure.
    pub fn kind(&self) -> (k: ErrorKind)
        ensures
            k == self.kind,
    {
        self.kind
    }

    /// The message, as the text by which the failure is shown.
    pub fn to_string(&self) -> (s: String)
        ensures
            s@ == self.message@,
    {
        self.message.clone()
    }
}

impl Clone for Error {
    fn clone(&self) -> (e: Self)
        ensures
            e == *self,
    {
        Self { message: self.message.clone(), kind: self.kind }
    }
}

} // verus!
