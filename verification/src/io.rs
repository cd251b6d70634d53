//! What an operation on a socket or a file can fail with, as far as the server
//! tells failures apart.

use vstd::prelude::*;

verus! {

#[derive(Debug, Clone, Copy, PartialEq, Eq, Structural)]
pub enum ErrorKind {
    WouldBlock,
    Interrupted,
    NotFound,
    /// A part of the path that is not the last one names no directory.
    NotADirectory,
    PermissionDenied,
    Other,
}

impl ErrorKind {
    /// The operation may succeed when it is tried again.
    pub open spec fn transient(self) -> bool {
        self == ErrorKind::WouldBlock || self == ErrorKind::Interrupted
    }

    /// There is nothing at the path that was asked for.
    pub open spec fn missing(self) -> bool {
        self == ErrorKind::NotFound || self == ErrorKind::NotADirectory
    }

    /// Whether there is nothing at the path that was asked for.
    pub fn is_missing(self) -> (r: bool)
        ensures
            r == self.missing(),
    {
        self == ErrorKind::NotFound || self == ErrorKind::NotADirectory
    }

    /// Whether the operation may succeed when it is tried again.
    pub fn is_transient(self) -> (r: bool)
        ensures
            r == self.transient(),
    {
        self == ErrorKind::WouldBlock || self == ErrorKind::Interrupted
    }
}

} // verus!
