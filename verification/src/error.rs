//! Errors of the verification of message proofs.

use vstd::prelude::*;

verus! {

/// Error that happens during message verification.
///
/// Such an error refuses the whole call before any lane has been touched. The errors
/// of the header chain and of the storage proof are those of whoever verifies them.
#[derive(Clone, Debug, PartialEq, Eq)]
pub enum VerificationError<HeaderChainError, StorageProofError> {
    /// The message proof is empty.
    EmptyMessageProof,
    /// Error returned by the bridged header chain.
    HeaderChain(HeaderChainError),
    /// Error returned while reading/decoding inbound lane data from the storage proof.
    InboundLaneStorage(StorageProofError),
    /// The declared message weight is incorrect.
    InvalidMessageWeight,
    /// Declared messages count doesn't match actual value.
    MessagesCountMismatch,
    /// Error returned while reading/decoding message data from the storage proof.
    MessageStorage(StorageProofError),
    /// The message is too large.
    MessageTooLarge,
    /// Error returned while reading/decoding outbound lane data from the storage proof.
    OutboundLaneStorage(StorageProofError),
    /// Storage proof related error.
    StorageProof(StorageProofError),
    /// Custom error
    Other(&'static str),
}

} // verus!
