//! Errors of the ceremony protocol.

use vstd::prelude::*;

verus! {

/// A failure that the protocol does not expect in normal operation.
#[derive(Debug, PartialEq, Eq)]
pub enum UnexpectedError {
    /// The participant's nonce has reached its largest value.
    AllNoncesUsed,
    /// A participant that should be registered was not found.
    MissingRegisteredParticipant,
    /// Bytes could not be read as the value they should hold.
    Serialization { message: String },
}

/// Why a request was refused.
#[derive(Debug, PartialEq, Eq)]
pub enum CeremonyError {
    /// The identifier is not in the registry.
    NotRegistered,
    /// The participant has contributed already.
    AlreadyContributed,
    /// The signature does not verify under the stored nonce, which the next
    /// request must use.
    InvalidSignature { expected_nonce: u64 },
    /// Another participant holds the lock.
    NotYourTurn,
    /// The participant held the lock longer than allowed and lost it.
    Timeout,
    /// The contribution does not verify.
    BadRequest,
    /// See [`UnexpectedError`].
    Unexpected(UnexpectedError),
}

} // verus!
