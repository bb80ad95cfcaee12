//! What can go wrong while a claimed decryption is checked.

use vstd::prelude::*;

verus! {

/// Why the election key or the plaintext of a vote could not be computed.
#[derive(Clone, Copy, Debug, PartialEq, Eq, Structural)]
pub enum Error {
    /// The shares are too few, malformed or do not fit together.
    SecretRecoveryFailed,
    /// The key does not open the ciphertext: a wrong or garbled key, a
    /// malformed ciphertext, or one whose integrity tag does not verify.
    DecryptVoteFailed,
}

/// Why a decryption transaction was rejected.
#[derive(Clone, Copy, Debug, PartialEq, Eq, Structural)]
pub enum ValidationError {
    /// The posted shares did not yield an election key.
    SecretRecoveryFailed,
    /// The reconstructed key did not decrypt the vote.
    DecryptVoteFailed,
    /// The vote decrypts to something other than what the transaction claims.
    MismatchedDecryptedVote,
}

} // verus!
