//! Decryption of a vote with the election key.
//!
//! Ballots are sealed with an integrated encryption scheme over secp256k1: a
//! ciphertext holds the sender's ephemeral public key, then a nonce, an
//! integrity tag and the encrypted ballot.

use crate::error::Error;
use ecies::SecpError;
use vstd::prelude::*;

verus! {

/// The length of a secp256k1 secret key.
pub const KEY_LENGTH: usize = 32;

/// What a ciphertext holds besides the encrypted ballot: an uncompressed
/// public key of 65 bytes, a nonce of 16 and a tag of 16.
pub const CIPHERTEXT_OVERHEAD: usize = 97;

/// What `ecies::decrypt` finds: the plaintext that the secret key `key` opens
/// `ciphertext` to, and `None` where it fails.
pub uninterp spec fn ecies_decryption(key: Seq<u8>, ciphertext: Seq<u8>) -> Option<Seq<u8>>;

/// Whether key and ciphertext have lengths with which decryption can succeed.
pub open spec fn decryptable_lengths(key: Seq<u8>, ciphertext: Seq<u8>) -> bool {
    key.len() == KEY_LENGTH && ciphertext.len() >= CIPHERTEXT_OVERHEAD
}

/// `ecies::SecpError`, the error of `ecies::decrypt`. The library tells
/// success from failure and looks no further.
#[verifier::external_type_specification]
#[verifier::external_body]
pub struct ExSecpError(SecpError);

/// `ecies::decrypt`. Its outcome depends on key and ciphertext alone. It
/// fails on a key that is not 32 bytes long and on a ciphertext too short to
/// hold a public key, a nonce and a tag; a plaintext that it returns is as
/// long as what the ciphertext holds beyond those.
#[verifier::external_body]
fn ecies_decrypt(key: &[u8], ciphertext: &[u8]) -> (res: Result<Vec<u8>, SecpError>)
    ensures
        match res {
            Ok(plaintext) => ecies_decryption(key@, ciphertext@) == Some(plaintext@),
            Err(_) => ecies_decryption(key@, ciphertext@) is None,
        },
        res is Ok ==> decryptable_lengths(key@, ciphertext@),
        res matches Ok(plaintext) ==> plaintext@.len() + CIPHERTEXT_OVERHEAD == ciphertext@.len(),
{
    ecies::decrypt(key, ciphertext)
}

/// Decrypts a vote with the reconstructed election key.
///
/// Every failure comes back as `DecryptVoteFailed`, whether the key or the
/// ciphertext is malformed or the integrity tag does not verify. A key that
/// is not 32 bytes long and a ciphertext of fewer than 97 bytes always fail.
pub fn decrypt_vote(election_key: &[u8], encrypted_vote: &[u8]) -> (res: Result<Vec<u8>, Error>)
    ensures
        match res {
            Ok(plaintext) => ecies_decryption(election_key@, encrypted_vote@) == Some(plaintext@),
            Err(e) => e == Error::DecryptVoteFailed && ecies_decryption(
                election_key@,
                encrypted_vote@,
            ) is None,
        },
        !decryptable_lengths(election_key@, encrypted_vote@) ==> res == Err::<Vec<u8>, Error>(
            Error::DecryptVoteFailed,
        ),
        res matches Ok(plaintext) ==> plaintext@.len() + CIPHERTEXT_OVERHEAD
            == encrypted_vote@.len(),
{
    match ecies_decrypt(election_key, encrypted_vote) {
        Ok(plaintext) => Ok(plaintext),
        Err(_) => Err(Error::DecryptVoteFailed),
    }
}

} // verus!
