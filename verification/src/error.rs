//! Error taxonomy of the oracle core.
//!
//! Every failure carries a specific, stable kind, so that callers can tell
//! "not yet committed" from "verification failed" from "malformed input".

use vstd::prelude::*;

verus! {

#[derive(Clone, Copy, Debug, PartialEq, Eq, Structural)]
pub enum ContractError {
    /// The caller is not allowed to perform an owner-only operation, or not
    /// allowed to touch somebody else's service record.
    Unauthorized,
    /// The addressed stage or record does not exist.
    NotFound,
    /// The stage's Merkle root is already registered and immutable.
    AlreadyFinished,
    /// The request's threshold exceeds what the current executor set admits.
    InvalidThreshold,
    /// A requested percentage cap lies outside `0..=100`.
    InvalidCap,
    /// A hex string could not be decoded.
    DecodeError,
    /// A decoded root or proof element is not exactly 32 bytes.
    WrongLength,
    /// An identity string is malformed.
    InvalidIdentity,
    /// The addressed stage has no committed result to verify against.
    NoCommittedRoot,
    /// The addressed service record does not exist.
    ServiceNotFound,
    /// A service record with this name already exists.
    ServiceExists,
}

} // verus!
