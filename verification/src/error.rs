//! Error values shared by the validator, and the assertion helper that guards
//! its internal invariants.

use vstd::prelude::*;

verus! {

/// Failures of the distributed validator.
#[derive(Clone, Debug, PartialEq)]
pub enum DvfError {
    /// The consensus protocol failed.
    ConsensusFailure(String),
    /// Key generation failed.
    KeyGenError(String),
    /// Too few signatures were collected for threshold aggregation.
    InsufficientSignatures { got: usize, expected: usize },
    /// Too few of the collected signatures were valid.
    InsufficientValidSignatures { got: usize, expected: usize },
    /// An operator's signature share did not verify.
    InvalidSignatureShare { id: u64 },
    /// No operator has this id.
    InvalidOperatorId { id: u64 },
    /// Two inputs that must have equal length do not.
    DifferentLength { x: usize, y: usize },
    /// An input has a length that is not accepted.
    InvalidLength,
    /// The named function must not be called in this state.
    UnexpectedCall(String),
    /// Any other failure.
    Unknown,
}

/// Records that `status` holds at the point of the call.
///
/// The condition is a proof obligation of the caller: verified code can only
/// reach this call where `status` is known to be true, so the message is never
/// needed at run time.
pub fn require(status: bool, msg: &'static str)
    requires
        status,
{
    let _ = msg;
}

} // verus!
