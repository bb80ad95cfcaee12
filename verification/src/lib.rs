//! Validation core of an auditable election protocol: reconstructs the election
//! key from trustee shares, decrypts a vote and checks a claimed decryption.

pub mod decryption;
pub mod encryption;
pub mod error;
pub mod sharing;
pub mod transaction;

pub use decryption::{collect_shares, DecryptionTransaction};
pub use encryption::{decrypt_vote, CIPHERTEXT_OVERHEAD, KEY_LENGTH};
pub use error::{Error, ValidationError};
pub use sharing::{
    holds_values, is_taken_at, leading_distinct_shares, recover_secret_from_shares,
    shares_are_consistent, shift_shares,
};
pub use transaction::{
    ElectionTransaction, Identifier, SecretShareTransaction, Signable, TransactionType,
    VoteTransaction,
};
