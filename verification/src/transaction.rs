//! Identifiers of transactions and the transactions a decryption refers to.

use ed25519_dalek::PublicKey;
use vstd::prelude::*;

verus! {

/// An ed25519 public key, as `ed25519_dalek` holds it. The library hands such
/// keys on and never looks inside one.
#[verifier::external_type_specification]
#[verifier::external_body]
pub struct ExPublicKey(PublicKey);

/// The kinds of transaction in an election's log.
#[derive(Clone, Copy, Debug, PartialEq, Eq, Structural)]
pub enum TransactionType {
    Election,
    Vote,
    SecretShare,
    Decryption,
}

/// The name of a transaction: the election it belongs to, its kind, and, for
/// one particular transaction, what tells it apart from the others of its kind.
///
/// Without a `unique_id` the identifier is a wildcard: it stands for every
/// transaction of that kind in that election.
#[derive(Clone, Copy, Debug, PartialEq, Eq, Structural)]
pub struct Identifier {
    pub election_id: u128,
    pub transaction_type: TransactionType,
    pub unique_id: Option<u128>,
}

impl Identifier {
    /// The identifier that the election of `election` gives to its
    /// transactions of kind `transaction_type`.
    pub open spec fn derived(election: Identifier, transaction_type: TransactionType) -> Identifier {
        Identifier { election_id: election.election_id, transaction_type, unique_id: None }
    }

    /// Whether the identifier stands for a whole kind of transaction.
    pub open spec fn wildcard(self) -> bool {
        self.unique_id is None
    }

    /// What `covers` computes: a wildcard reaches every identifier of its
    /// election and kind, any other identifier only itself.
    pub open spec fn reaches(self, other: Identifier) -> bool {
        &&& self.election_id == other.election_id
        &&& self.transaction_type == other.transaction_type
        &&& (self.wildcard() || self.unique_id == other.unique_id)
    }

    /// Derives an identifier from the election's own and the kind of the
    /// transaction. The same arguments always give the same identifier.
    pub fn new(election: Identifier, transaction_type: TransactionType) -> (id: Identifier)
        ensures
            id == Identifier::derived(election, transaction_type),
    {
        Identifier { election_id: election.election_id, transaction_type, unique_id: None }
    }

    /// Whether the identifier is a wildcard.
    pub fn is_wildcard(&self) -> (b: bool)
        ensures
            b == self.wildcard(),
    {
        self.unique_id.is_none()
    }

    /// Whether `other` is among the transactions that this identifier names.
    pub fn covers(&self, other: &Identifier) -> (b: bool)
        ensures
            b == self.reaches(*other),
    {
        if self.election_id != other.election_id {
            return false;
        }
        if self.transaction_type != other.transaction_type {
            return false;
        }
        match self.unique_id {
            None => true,
            Some(mine) => match other.unique_id {
                None => false,
                Some(theirs) => mine == theirs,
            },
        }
    }
}

/// A concrete identifier reaches exactly itself.
pub proof fn lemma_concrete_reaches_itself_only(id: Identifier, other: Identifier)
    requires
        !id.wildcard(),
    ensures
        id.reaches(other) <==> id == other,
{
}

/// A wildcard reaches every identifier of its election and kind, whatever its
/// `unique_id`, and no identifier of another election or kind.
pub proof fn lemma_wildcard_reaches_its_kind(id: Identifier, other: Identifier)
    requires
        id.wildcard(),
    ensures
        id.reaches(other) <==> (id.election_id == other.election_id && id.transaction_type
            == other.transaction_type),
{
}

/// What every transaction can say of itself.
pub trait Signable {
    /// The transaction's own identifier.
    fn id(&self) -> Identifier;

    /// The key whose signature authorizes the transaction, if its authority
    /// rests on a signature.
    fn public(&self) -> Option<PublicKey>;

    /// The transactions that this one depends on, in the order in which they
    /// are to be resolved.
    fn inputs(&self) -> Vec<Identifier>;
}

/// The transaction that opens an election. Of its fields, the validation of a
/// decryption reads the quorum.
#[derive(Clone, Debug)]
pub struct ElectionTransaction {
    pub id: Identifier,
    /// How many trustees' shares it takes to reconstruct the election key.
    pub trustees_threshold: u8,
}

/// A cast ballot, encrypted under the election's public key.
#[derive(Clone, Debug)]
pub struct VoteTransaction {
    pub id: Identifier,
    pub election: Identifier,
    pub encrypted_vote: Vec<u8>,
}

/// One trustee's share of the election's private key.
#[derive(Clone, Debug)]
pub struct SecretShareTransaction {
    pub id: Identifier,
    pub election: Identifier,
    pub secret_share: Vec<u8>,
}

} // verus!
