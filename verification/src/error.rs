//! The crate's error type.
use vstd::prelude::*;

verus! {

/// The possible error kinds.
#[derive(Debug, Clone, Copy, PartialEq, Eq, Structural)]
pub enum ErrorKind {
    /// Invalid input.
    InvalidInput,
    /// Other error.
    Other,
}

/// The crate's error type.
#[derive(Debug, Clone, Copy, PartialEq, Eq, Structural)]
pub struct Error {
    /// The kind of the error.
    pub kind: ErrorKind,
}

impl Error {
    /// Makes an error of the given kind.
    pub fn new(kind: ErrorKind) -> (r: Self)
        ensures
            r.kind == kind,
    {
        Error { kind }
    }

    /// Returns the kind of this error.
    pub fn kind(&self) -> (r: ErrorKind)
        ensures
            r == self.kind,
    {
        self.kind
    }

    /// An `InvalidInput` error.
    pub fn invalid_input() -> (r: Self)
        ensures
            r.kind == ErrorKind::InvalidInput,
    {
        Error { kind: ErrorKind::InvalidInput }
    }

    /// An `Other` error.
    pub fn other() -> (r: Self)
        ensures
            r.kind == ErrorKind::Other,
    {
        Error { kind: ErrorKind::Other }
    }
}

} // verus!
