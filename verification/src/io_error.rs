//! Errors of input and output.
use vstd::prelude::*;

verus! {

/// The kinds of errors that the library makes itself.
#[derive(Clone, Copy, Debug, PartialEq, Eq, Structural)]
pub enum ErrorKind {
    NotFound,
    BrokenPipe,
    InvalidInput,
    TimedOut,
    UnexpectedEof,
    Other,
}

/// An input or output error.
#[derive(Debug)]
pub struct IoError {
    pub kind: ErrorKind,
    pub message: String,
}

impl IoError {
    /// Whether this is the error of the given kind and text.
    pub open spec fn is_error(self, kind: ErrorKind, what: Seq<char>) -> bool {
        self.kind == kind && self.message@ == what
    }

    /// An error of the given kind and text.
    pub fn new(kind: ErrorKind, what: &str) -> (e: Self)
        ensures
            e.is_error(kind, what@),
    {
        IoError { kind, message: what.to_owned() }
    }
}

} // verus!
