//! The errors of the synchronisation engine.

use vstd::prelude::*;

verus! {

/// Why an operation of the engine did not go through.
#[derive(Clone, Copy, Debug, PartialEq, Eq, Structural)]
pub enum ErrorCode {
    /// A delta is structurally corrupt: its bytes do not decode, or its
    /// lengths do not fit the document it is applied to.
    MalformedDelta,
    /// A revision does not continue the sequence it is added to.
    OutOfOrder,
    /// A local edit was based on a revision id that is no longer current.
    Conflict,
    /// The state after a revision does not match its checksum.
    Divergence,
    /// The transport could not deliver.
    TransportFailure,
}

impl ErrorCode {
    /// Whether the session can go on after this error without a full resync.
    pub fn is_recoverable(&self) -> (b: bool)
        ensures
            b == !(*self == ErrorCode::Divergence),
    {
        match self {
            ErrorCode::Divergence => false,
            _ => true,
        }
    }
}

} // verus!
