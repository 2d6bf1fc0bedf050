//! The structural errors of a parse.
use vstd::prelude::*;

verus! {

/// What went wrong.
#[derive(Debug, Clone, Copy, PartialEq, Eq, Structural)]
pub enum ParseErrorKind {
    /// An opener was not followed by exactly one body and then the
    /// matching closer; this includes a block left open at the end.
    MalformedBlock,
    /// A closer came with no open block.
    UnexpectedClose,
}

/// A failed parse: its kind and a message for people.
#[derive(Debug, Clone)]
pub struct ParseError {
    pub kind: ParseErrorKind,
    pub message: String,
}

impl ParseError {
    /// An error of the given kind with the given message.
    pub fn new(kind: ParseErrorKind, message: &str) -> (r: Self)
        ensures
            r.kind == kind,
            r.message@ == message@,
    {
        ParseError { kind, message: String::from_str(message) }
    }

    /// The message, as text.
    pub fn to_string(&self) -> (r: String)
        ensures
            r@ == self.message@,
    {
        self.message.clone()
    }
}

} // verus!
