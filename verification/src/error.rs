//! The kinds of failure and how each is reported.

use vstd::prelude::*;

verus! {

/// What went wrong.
#[derive(Clone, Copy, Debug, PartialEq, Eq, Structural)]
pub enum ErrorKind {
    /// The embedding of a text could not be computed.
    Encode,
    /// The index is full: it has a fixed capacity and does not grow.
    IndexCapacity,
    /// A snapshot could not be read or written.
    Persistence,
    /// The relational store failed.
    Store,
    /// The completion service failed or answered in an unknown form.
    Llm,
    /// The input of an ingestion was malformed.
    Validation,
}

impl ErrorKind {
    /// Whether the failure is the client's: only malformed input is, every
    /// other kind is reported as a failure of the server.
    pub open spec fn client_side(self) -> bool {
        self is Validation
    }

    /// Whether the failure is reported as the client's.
    pub fn is_client_error(&self) -> (b: bool)
        ensures
            b == self.client_side(),
    {
        match self {
            ErrorKind::Validation => true,
            _ => false,
        }
    }
}

} // verus!
