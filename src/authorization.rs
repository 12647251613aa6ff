//! Ed25519 authorization of transactions: each input is signed by the key
//! whose address owns the spent output, over the transaction's signing message.

use vstd::prelude::*;
use ed25519_dalek::Verifier;
use crate::hashes::HashBytes;
use crate::types::{
    Address, Authorization, Output, Transaction, address_of, encode_unsigned, get_address, sig_message_of,
};

verus! {

/// The Ed25519 public key of a 32-byte secret key.
pub uninterp spec fn ed25519_public_of(secret: Seq<u8>) -> Seq<u8>;

/// The Ed25519 signature that a 32-byte secret key makes on a message.
pub uninterp spec fn ed25519_signature_of(secret: Seq<u8>, message: Seq<u8>) -> Seq<u8>;

/// Whether a signature verifies on a message under a public key.
pub uninterp spec fn ed25519_verifies(public_key: Seq<u8>, message: Seq<u8>, signature: Seq<u8>) -> bool;

/// Relies on ed25519_dalek's `SecretKey::from_bytes` (which accepts any 32
/// bytes) and `PublicKey::from(&SecretKey)`: the public key depends on the
/// secret alone.
#[verifier::external_body]
fn ed25519_public(secret: &[u8; 32]) -> (r: [u8; 32])
    ensures
        r@ == ed25519_public_of(secret@),
{
    let sk = ed25519_dalek::SecretKey::from_bytes(secret).unwrap();
    ed25519_dalek::PublicKey::from(&sk).to_bytes()
}

/// Relies on ed25519_dalek's `ExpandedSecretKey::sign`: deterministic Ed25519
/// signing, whose signatures verify under the matching public key.
#[verifier::external_body]
fn ed25519_sign(secret: &[u8; 32], message: &[u8; 32]) -> (r: [u8; 64])
    ensures
        r@ == ed25519_signature_of(secret@, message@),
        ed25519_verifies(ed25519_public_of(secret@), message@, r@),
{
    let sk = ed25519_dalek::SecretKey::from_bytes(secret).unwrap();
    let pk = ed25519_dalek::PublicKey::from(&sk);
    ed25519_dalek::ExpandedSecretKey::from(&sk).sign(message, &pk).to_bytes()
}

/// Relies on ed25519_dalek's `PublicKey::from_bytes`, `Signature::from_bytes`
/// and `PublicKey::verify`: a malformed key or signature does not verify.
#[verifier::external_body]
fn ed25519_verify(public_key: &[u8; 32], message: &[u8; 32], signature: &[u8; 64]) -> (r: bool)
    ensures
        r == ed25519_verifies(public_key@, message@, signature@),
{
    match (
        ed25519_dalek::PublicKey::from_bytes(public_key),
        ed25519_dalek::Signature::from_bytes(signature),
    ) {
        (Ok(pk), Ok(sig)) => pk.verify(message, &sig).is_ok(),
        _ => false,
    }
}

#[derive(Clone, Copy, PartialEq, Eq, Debug)]
pub enum AuthorizationError {
    /// The transaction has not one authorization per input.
    MissingSignature,
    /// The key of an authorization does not own the output that its input spends.
    WrongAddress,
    /// A signature does not verify on the signing message.
    BadSignature,
}

/// The check of the `i`-th authorization against the output its input spends.
pub open spec fn authorization_error_at(
    tx: Transaction,
    spent: Seq<Output>,
    i: int,
) -> Option<AuthorizationError> {
    let a = tx.authorizations@[i];
    if spent[i].address != address_of(a.public_key@) {
        Some(AuthorizationError::WrongAddress)
    } else if !ed25519_verifies(a.public_key@, sig_message_of(tx)@, a.signature@) {
        Some(AuthorizationError::BadSignature)
    } else {
        None
    }
}

/// The first failing check among the first `n` authorizations.
pub open spec fn first_authorization_error(
    tx: Transaction,
    spent: Seq<Output>,
    n: int,
) -> Option<AuthorizationError>
    decreases n,
{
    if n <= 0 {
        None
    } else {
        match first_authorization_error(tx, spent, n - 1) {
            Some(e) => Some(e),
            None => authorization_error_at(tx, spent, n - 1),
        }
    }
}

/// Once a failure is found among the first `m` authorizations, it stays the
/// first failure among any longer prefix.
proof fn lemma_first_authorization_error_stays(tx: Transaction, spent: Seq<Output>, m: int, n: int)
    requires
        m <= n,
        first_authorization_error(tx, spent, m) is Some,
    ensures
        first_authorization_error(tx, spent, n) == first_authorization_error(tx, spent, m),
    decreases n - m,
{
    if m < n {
        lemma_first_authorization_error_stays(tx, spent, m, n - 1);
    }
}

/// The outcome of checking a transaction's authorizations against the outputs
/// that its inputs spend.
pub open spec fn authorizations_result(tx: Transaction, spent: Seq<Output>) -> Result<
    (),
    AuthorizationError,
> {
    if tx.authorizations@.len() != tx.inputs@.len() {
        Err(AuthorizationError::MissingSignature)
    } else {
        match first_authorization_error(tx, spent, tx.inputs@.len() as int) {
            Some(e) => Err(e),
            None => Ok(()),
        }
    }
}

/// Checks that each input is signed by the owner of the output it spends.
pub fn verify_authorizations(tx: &Transaction, spent: &Vec<Output>) -> (r: Result<
    (),
    AuthorizationError,
>)
    requires
        spent@.len() == tx.inputs@.len(),
    ensures
        r == authorizations_result(*tx, spent@),
{
    if tx.authorizations.len() != tx.inputs.len() {
        return Err(AuthorizationError::MissingSignature);
    }
    let message = tx.sig_message();
    let mut i: usize = 0;
    while i < tx.authorizations.len()
        invariant
            tx.authorizations@.len() == tx.inputs@.len() == spent@.len(),
            0 <= i <= spent@.len(),
            message == sig_message_of(*tx),
            first_authorization_error(*tx, spent@, i as int) is None,
        decreases spent@.len() - i,
    {
        let a = &tx.authorizations[i];
        let address = get_address(&a.public_key);
        if !address.same(&spent[i].address) {
            proof {
                lemma_first_authorization_error_stays(*tx, spent@, i + 1, spent@.len() as int);
            }
            return Err(AuthorizationError::WrongAddress);
        }
        if !ed25519_verify(&a.public_key, &message, &a.signature) {
            proof {
                lemma_first_authorization_error_stays(*tx, spent@, i + 1, spent@.len() as int);
            }
            return Err(AuthorizationError::BadSignature);
        }
        i += 1;
    }
    Ok(())
}

/// A secret key with its public key.
#[derive(Clone, Copy, Debug)]
pub struct Keypair {
    secret: [u8; 32],
    public: [u8; 32],
}

impl Keypair {
    pub closed spec fn secret_bytes(&self) -> Seq<u8> {
        self.secret@
    }

    pub closed spec fn public_bytes(&self) -> Seq<u8> {
        self.public@
    }

    /// The public key is the one that belongs to the secret.
    pub closed spec fn wf(&self) -> bool {
        self.public@ == ed25519_public_of(self.secret@)
    }

    pub fn from_secret(secret: [u8; 32]) -> (r: Keypair)
        ensures
            r.wf(),
            r.secret_bytes() == secret@,
    {
        let public = ed25519_public(&secret);
        Keypair { secret, public }
    }

    pub fn public_key(&self) -> (r: [u8; 32])
        ensures
            r@ == self.public_bytes(),
    {
        self.public
    }

    pub fn address(&self) -> (r: Address)
        ensures
            r == address_of(self.public_bytes()),
    {
        get_address(&self.public)
    }

    /// Signs a 32-byte message.
    pub fn sign(&self, message: &[u8; 32]) -> (r: [u8; 64])
        requires
            self.wf(),
        ensures
            r@ == ed25519_signature_of(self.secret_bytes(), message@),
            ed25519_verifies(self.public_bytes(), message@, r@),
    {
        ed25519_sign(&self.secret, message)
    }
}

/// Some keypair in `keypairs` owns `address`.
pub open spec fn has_keypair_for(keypairs: Seq<Keypair>, address: Address) -> bool {
    exists|j: int| 0 <= j < keypairs.len() && address_of(#[trigger] keypairs[j].public_bytes()) == address
}

/// The first keypair that owns `address`.
fn find_keypair(keypairs: &Vec<Keypair>, address: &Address) -> (r: usize)
    requires
        has_keypair_for(keypairs@, *address),
    ensures
        r < keypairs@.len(),
        address_of(keypairs@[r as int].public_bytes()) == *address,
{
    let mut j: usize = 0;
    while j < keypairs.len()
        invariant
            0 <= j <= keypairs@.len(),
            has_keypair_for(keypairs@, *address),
            forall|k: int| 0 <= k < j ==> address_of(keypairs@[k].public_bytes()) != *address,
        decreases keypairs@.len() - j,
    {
        if keypairs[j].address().same(address) {
            return j;
        }
        j += 1;
    }
    proof {
        let k = choose|k: int| 0 <= k < keypairs@.len() && address_of(#[trigger] keypairs@[k].public_bytes()) == *address;
        assert(address_of(keypairs@[k].public_bytes()) == *address);
    }
    0
}

/// `a` carries the public key of a keypair in `keypairs` that owns `owner`,
/// and that keypair's signature on `message`, which verifies.
pub open spec fn signed_by_owner(
    keypairs: Seq<Keypair>,
    owner: Address,
    a: Authorization,
    message: Seq<u8>,
) -> bool {
    exists|j: int|
        0 <= j < keypairs.len() && address_of(#[trigger] keypairs[j].public_bytes()) == owner
            && a.public_key@ == keypairs[j].public_bytes() && a.signature@ == ed25519_signature_of(
            keypairs[j].secret_bytes(),
            message,
        ) && ed25519_verifies(a.public_key@, message, a.signature@)
}

/// A transaction whose every input is signed by the owner of the output it
/// spends passes the authorization check.
pub proof fn lemma_authorized_transaction_verifies(
    keypairs: Seq<Keypair>,
    spent: Seq<Output>,
    tx: Transaction,
)
    requires
        spent.len() == tx.inputs@.len(),
        tx.authorizations@.len() == spent.len(),
        forall|i: int|
            0 <= i < spent.len() ==> signed_by_owner(
                keypairs,
                spent[i].address,
                #[trigger] tx.authorizations@[i],
                sig_message_of(tx)@,
            ),
    ensures
        authorizations_result(tx, spent) == Ok::<(), AuthorizationError>(()),
{
    lemma_no_authorization_error(keypairs, spent, tx, spent.len() as int);
}

proof fn lemma_no_authorization_error(
    keypairs: Seq<Keypair>,
    spent: Seq<Output>,
    tx: Transaction,
    n: int,
)
    requires
        n <= spent.len() == tx.authorizations@.len(),
        forall|i: int|
            0 <= i < spent.len() ==> signed_by_owner(
                keypairs,
                spent[i].address,
                #[trigger] tx.authorizations@[i],
                sig_message_of(tx)@,
            ),
    ensures
        first_authorization_error(tx, spent, n) is None,
    decreases n,
{
    if n > 0 {
        lemma_no_authorization_error(keypairs, spent, tx, n - 1);
        assert(signed_by_owner(keypairs, spent[n - 1].address, tx.authorizations@[n - 1], sig_message_of(tx)@));
    }
}

/// Signs each input of `transaction` with the keypair that owns the output it
/// spends, replacing any authorizations it had.
pub fn authorize_transaction(
    keypairs: &Vec<Keypair>,
    spent_utxos: &Vec<Output>,
    transaction: Transaction,
) -> (r: Transaction)
    requires
        forall|j: int| 0 <= j < keypairs@.len() ==> (#[trigger] keypairs@[j]).wf(),
        forall|i: int|
            0 <= i < spent_utxos@.len() ==> has_keypair_for(keypairs@, #[trigger] spent_utxos@[i].address),
    ensures
        r.inputs@ == transaction.inputs@,
        r.outputs@ == transaction.outputs@,
        sig_message_of(r) == sig_message_of(transaction),
        r.authorizations@.len() == spent_utxos@.len(),
        forall|i: int|
            0 <= i < spent_utxos@.len() ==> signed_by_owner(
                keypairs@,
                spent_utxos@[i].address,
                #[trigger] r.authorizations@[i],
                sig_message_of(r)@,
            ),
{
    let message = transaction.sig_message();
    let mut authorizations: Vec<Authorization> = Vec::new();
    let mut i: usize = 0;
    while i < spent_utxos.len()
        invariant
            0 <= i <= spent_utxos@.len(),
            message == sig_message_of(transaction),
            authorizations@.len() == i,
            forall|j: int| 0 <= j < keypairs@.len() ==> (#[trigger] keypairs@[j]).wf(),
            forall|k: int|
                0 <= k < spent_utxos@.len() ==> has_keypair_for(keypairs@, #[trigger] spent_utxos@[k].address),
            forall|k: int|
                0 <= k < i ==> signed_by_owner(
                    keypairs@,
                    spent_utxos@[k].address,
                    #[trigger] authorizations@[k],
                    message@,
                ),
        decreases spent_utxos@.len() - i,
    {
        let address = spent_utxos[i].get_address();
        let j = find_keypair(keypairs, &address);
        let kp = &keypairs[j];
        let a = Authorization { public_key: kp.public_key(), signature: kp.sign(&message) };
        authorizations.push(a);
        proof {
            assert(authorizations@[i as int] == a);
            assert(address_of(keypairs@[j as int].public_bytes()) == spent_utxos@[i as int].address);
            assert(signed_by_owner(keypairs@, spent_utxos@[i as int].address, a, message@));
        }
        i += 1;
    }
    let r = Transaction { inputs: transaction.inputs, outputs: transaction.outputs, authorizations };
    assert(encode_unsigned(r) == encode_unsigned(transaction));
    r
}

} // verus!
