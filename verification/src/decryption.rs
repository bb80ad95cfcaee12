//! The decryption transaction: a claim of what a vote decrypts to, and the
//! check of that claim against the election key that the trustees' shares
//! reconstruct.

use crate::encryption::{decrypt_vote, ecies_decryption};
use crate::error::ValidationError;
use crate::sharing::{
    lemma_too_few_shares,
    recover_secret_from_shares,
    recovered_secret,
    share_bytes,
};
use crate::transaction::{
    ElectionTransaction,
    Identifier,
    SecretShareTransaction,
    Signable,
    TransactionType,
    VoteTransaction,
};
use ed25519_dalek::PublicKey;
use vstd::prelude::*;
use vstd::std_specs::cmp::PartialEqSpec;

verus! {

/// After a quorum of trustees have posted their shares, any node may post,
/// for each vote, what that vote decrypts to.
#[derive(Clone, Debug)]
pub struct DecryptionTransaction {
    pub id: Identifier,
    pub election: Identifier,
    pub vote: Identifier,
    /// The claimed plaintext. Nothing vouches for it until `validate` has.
    pub decrypted_vote: Vec<u8>,
}

/// The shares that the secret-share transactions carry, in their order.
pub open spec fn posted_shares(transactions: Seq<SecretShareTransaction>) -> Seq<Seq<u8>> {
    transactions.map_values(|tx: SecretShareTransaction| tx.secret_share@)
}

/// The plaintext of the vote as the shares and the ciphertext give it: the
/// key recovered from the shares, applied to the ciphertext.
pub open spec fn recomputed_plaintext(
    threshold: u8,
    shares: Seq<Seq<u8>>,
    ciphertext: Seq<u8>,
) -> Result<Seq<u8>, ValidationError> {
    match recovered_secret(threshold, shares) {
        None => Err(ValidationError::SecretRecoveryFailed),
        Some(key) => match ecies_decryption(key, ciphertext) {
            None => Err(ValidationError::DecryptVoteFailed),
            Some(plaintext) => Ok(plaintext),
        },
    }
}

/// The verdict on a claimed plaintext that is held against a recomputed one.
pub open spec fn plaintext_verdict(claimed: Seq<u8>, recomputed: Seq<u8>) -> Result<
    (),
    ValidationError,
> {
    if recomputed == claimed {
        Ok(())
    } else {
        Err(ValidationError::MismatchedDecryptedVote)
    }
}

/// The verdict on a claimed plaintext, given the quorum, the posted shares
/// and the ciphertext of the vote.
pub open spec fn validation_outcome(
    claimed: Seq<u8>,
    threshold: u8,
    shares: Seq<Seq<u8>>,
    ciphertext: Seq<u8>,
) -> Result<(), ValidationError> {
    match recomputed_plaintext(threshold, shares, ciphertext) {
        Err(e) => Err(e),
        Ok(plaintext) => plaintext_verdict(claimed, plaintext),
    }
}

/// A claim is accepted if and only if it is the recomputed plaintext, byte for
/// byte; a plaintext that was recomputed and differs from the claim is a
/// mismatch.
pub proof fn lemma_accepted_iff_claim_is_recomputed(
    claimed: Seq<u8>,
    threshold: u8,
    shares: Seq<Seq<u8>>,
    ciphertext: Seq<u8>,
)
    ensures
        validation_outcome(claimed, threshold, shares, ciphertext) is Ok <==> recomputed_plaintext(
            threshold,
            shares,
            ciphertext,
        ) == Ok::<Seq<u8>, ValidationError>(claimed),
        recomputed_plaintext(threshold, shares, ciphertext) matches Ok(plaintext) ==> (plaintext
            != claimed ==> validation_outcome(claimed, threshold, shares, ciphertext) == Err::<
            (),
            ValidationError,
        >(ValidationError::MismatchedDecryptedVote)),
{
}

/// Where a claim is accepted, the claim with any one byte changed is a
/// mismatch.
pub proof fn lemma_altered_byte_is_mismatch(
    claimed: Seq<u8>,
    position: int,
    byte: u8,
    threshold: u8,
    shares: Seq<Seq<u8>>,
    ciphertext: Seq<u8>,
)
    requires
        validation_outcome(claimed, threshold, shares, ciphertext) is Ok,
        0 <= position < claimed.len(),
        byte != claimed[position],
    ensures
        validation_outcome(claimed.update(position, byte), threshold, shares, ciphertext) == Err::<
            (),
            ValidationError,
        >(ValidationError::MismatchedDecryptedVote),
{
    assert(claimed.update(position, byte)[position] != claimed[position]);
}

/// Where a claim is accepted, no claim of another length is.
pub proof fn lemma_other_length_is_mismatch(
    claimed: Seq<u8>,
    other: Seq<u8>,
    threshold: u8,
    shares: Seq<Seq<u8>>,
    ciphertext: Seq<u8>,
)
    requires
        validation_outcome(claimed, threshold, shares, ciphertext) is Ok,
        other.len() != claimed.len(),
    ensures
        validation_outcome(other, threshold, shares, ciphertext) == Err::<(), ValidationError>(
            ValidationError::MismatchedDecryptedVote,
        ),
{
}

/// Two validations of one transaction against the same election, vote and
/// secret shares give the same verdict.
pub proof fn lemma_validation_repeats(
    transaction: DecryptionTransaction,
    election: ElectionTransaction,
    vote: VoteTransaction,
    secret_shares: Seq<SecretShareTransaction>,
    first: Result<(), ValidationError>,
    second: Result<(), ValidationError>,
)
    requires
        first == validation_outcome(
            transaction.decrypted_vote@,
            election.trustees_threshold,
            posted_shares(secret_shares),
            vote.encrypted_vote@,
        ),
        second == validation_outcome(
            transaction.decrypted_vote@,
            election.trustees_threshold,
            posted_shares(secret_shares),
            vote.encrypted_vote@,
        ),
    ensures
        first == second,
{
}

/// With fewer secret shares than the election's quorum, every claim is
/// rejected for want of the key.
pub proof fn lemma_below_quorum_is_rejected(
    claimed: Seq<u8>,
    threshold: u8,
    shares: Seq<Seq<u8>>,
    ciphertext: Seq<u8>,
)
    requires
        shares.len() < threshold,
    ensures
        validation_outcome(claimed, threshold, shares, ciphertext) == Err::<(), ValidationError>(
            ValidationError::SecretRecoveryFailed,
        ),
{
    lemma_too_few_shares(threshold, shares);
}

/// Copies the share out of each secret-share transaction, keeping their order.
pub fn collect_shares(secret_shares: &[SecretShareTransaction]) -> (shares: Vec<Vec<u8>>)
    ensures
        share_bytes(shares@) == posted_shares(secret_shares@),
{
    let mut shares: Vec<Vec<u8>> = Vec::with_capacity(secret_shares.len());
    let mut i: usize = 0;
    while i < secret_shares.len()
        invariant
            i <= secret_shares.len(),
            shares.len() == i,
            forall|j: int| 0 <= j < i ==> (#[trigger] shares[j])@ == secret_shares[j].secret_share@,
        decreases secret_shares.len() - i,
    {
        let share = secret_shares[i].secret_share.clone();
        assert(share@ =~= secret_shares[i as int].secret_share@);
        shares.push(share);
        i += 1;
    }
    assert(share_bytes(shares@) =~= posted_shares(secret_shares@));
    shares
}

impl DecryptionTransaction {
    /// The transaction's identifier is the one that its election gives to
    /// decryptions, and its vote belongs to that election.
    pub open spec fn well_formed(&self) -> bool {
        &&& self.id == Identifier::derived(self.election, TransactionType::Decryption)
        &&& self.vote.election_id == self.election.election_id
    }

    /// What `inputs` returns: the election, the vote, and the wildcard for
    /// all the secret shares of the election.
    pub open spec fn dependencies(&self) -> Seq<Identifier> {
        seq![
            self.election,
            self.vote,
            Identifier {
                election_id: self.election.election_id,
                transaction_type: TransactionType::SecretShare,
                unique_id: None,
            },
        ]
    }

    /// Records the claim that `vote` decrypts to `decrypted_vote`. Nothing is
    /// decrypted or checked here: that is for `validate`.
    pub fn new(election: Identifier, vote: Identifier, decrypted_vote: Vec<u8>) -> (tx:
        DecryptionTransaction)
        ensures
            tx.id == Identifier::derived(election, TransactionType::Decryption),
            tx.election == election,
            tx.vote == vote,
            tx.decrypted_vote == decrypted_vote,
            tx.well_formed() <==> vote.election_id == election.election_id,
    {
        DecryptionTransaction {
            id: Identifier::new(election, TransactionType::Decryption),
            election,
            vote,
            decrypted_vote,
        }
    }

    /// Holds the claimed plaintext against a recomputed one, byte for byte.
    /// Any difference, one of length too, is a mismatch.
    pub fn verify_plaintext(&self, recomputed: &Vec<u8>) -> (res: Result<(), ValidationError>)
        ensures
            res == plaintext_verdict(self.decrypted_vote@, recomputed@),
    {
        let same = *recomputed == self.decrypted_vote;
        proof {
            if same {
                assert forall|i: int| 0 <= i < recomputed@.len() implies recomputed@[i]
                    == self.decrypted_vote@[i] by {
                    assert(recomputed[i].eq_spec(&self.decrypted_vote[i]));
                }
                assert(recomputed@ =~= self.decrypted_vote@);
            }
        }
        if same {
            Ok(())
        } else {
            Err(ValidationError::MismatchedDecryptedVote)
        }
    }

    /// Validates the transaction against the election, the vote and the
    /// secret shares that were posted.
    ///
    /// The election key is recovered from all the shares under the election's
    /// quorum, the vote is decrypted with it, and the outcome is compared with
    /// the claim. Nothing is changed and nothing remembered: the verdict
    /// depends on the claim, the quorum, the shares and the ciphertext alone.
    pub fn validate(
        &self,
        election: &ElectionTransaction,
        vote: &VoteTransaction,
        secret_shares: &[SecretShareTransaction],
    ) -> (res: Result<(), ValidationError>)
        ensures
            res == validation_outcome(
                self.decrypted_vote@,
                election.trustees_threshold,
                posted_shares(secret_shares@),
                vote.encrypted_vote@,
            ),
            secret_shares@.len() < election.trustees_threshold ==> res == Err::<
                (),
                ValidationError,
            >(ValidationError::SecretRecoveryFailed),
    {
        let shares = collect_shares(secret_shares);

        let election_key = match recover_secret_from_shares(election.trustees_threshold, shares) {
            Ok(key) => key,
            Err(_) => {
                return Err(ValidationError::SecretRecoveryFailed);
            },
        };

        let decrypted_vote = match decrypt_vote(
            election_key.as_slice(),
            vote.encrypted_vote.as_slice(),
        ) {
            Ok(plaintext) => plaintext,
            Err(_) => {
                return Err(ValidationError::DecryptVoteFailed);
            },
        };

        self.verify_plaintext(&decrypted_vote)
    }
}

/// The inputs of a well-formed decryption all lie in the election of the
/// transaction itself, and the last of them reaches every secret share of that
/// election.
pub proof fn lemma_dependencies_stay_in_election(
    transaction: DecryptionTransaction,
    share: Identifier,
)
    requires
        transaction.well_formed(),
    ensures
        forall|i: int|
            0 <= i < 3 ==> (#[trigger] transaction.dependencies()[i]).election_id
                == transaction.id.election_id,
        transaction.dependencies()[2].reaches(share) <==> (share.election_id
            == transaction.id.election_id && share.transaction_type
            == TransactionType::SecretShare),
{
}

impl Signable for DecryptionTransaction {
    fn id(&self) -> (id: Identifier)
        ensures
            id == self.id,
    {
        self.id
    }

    /// No key authorizes a decryption: whoever posts it, it stands or falls
    /// with the recomputation in `validate`.
    fn public(&self) -> (key: Option<PublicKey>)
        ensures
            key is None,
    {
        None
    }

    fn inputs(&self) -> (inputs: Vec<Identifier>)
        ensures
            inputs@ == self.dependencies(),
    {
        let all_secret_shares = Identifier {
            election_id: self.election.election_id,
            transaction_type: TransactionType::SecretShare,
            unique_id: None,
        };

        let mut inputs: Vec<Identifier> = Vec::with_capacity(3);
        inputs.push(self.election);
        inputs.push(self.vote);
        inputs.push(all_secret_shares);
        assert(inputs@ =~= self.dependencies());
        inputs
    }
}

} // verus!
