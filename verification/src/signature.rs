//! Ed25519 signatures over transaction digests. The signer's public key is
//! the sender's account identifier, and strict verification is required, so
//! malleable signature encodings are rejected.

use vstd::prelude::*;

use ed25519_dalek::Signer;

use crate::codec::{encode_transaction, spec_tx_id};
use crate::hash::hash_bytes;
use crate::types::{AccountId, Transaction};

verus! {

/// 64-byte Ed25519 signature.
#[derive(Clone, Copy, PartialEq, Eq, Debug)]
pub struct Signature(pub [u8; 64]);

impl Signature {
    /// Read a signature from a 64-byte slice; any other length is rejected.
    pub fn from_slice(bytes: &[u8]) -> (r: Option<Self>)
        ensures
            match r {
                Some(s) => bytes@.len() == 64 && s.0@ == bytes@,
                None => bytes@.len() != 64,
            },
    {
        if bytes.len() != 64 {
            return None;
        }
        let mut arr = [0u8; 64];
        let mut i: usize = 0;
        while i < 64
            invariant
                0 <= i <= 64,
                bytes@.len() == 64,
                arr@.len() == 64,
                forall|j: int| 0 <= j < i ==> arr@[j] == bytes@[j],
            decreases 64 - i,
        {
            arr[i] = bytes[i];
            i = i + 1;
        }
        proof {
            assert(arr@ =~= bytes@);
        }
        Some(Signature(arr))
    }

    /// The raw bytes of the signature.
    pub fn as_bytes(&self) -> (r: &[u8; 64])
        ensures
            r@ == self.0@,
    {
        &self.0
    }
}

/// Why a signature check failed.
#[derive(Clone, Copy, Debug, PartialEq, Eq, Structural)]
pub enum SignatureError {
    /// The sender bytes are not a valid Ed25519 public key.
    InvalidPublicKey,
    /// The signature does not verify under the sender's key.
    InvalidSignature,
}

/// Whether 32 bytes decode to a valid Ed25519 public key; a function of the
/// bytes alone.
pub uninterp spec fn ed25519_valid_pubkey(pk: Seq<u8>) -> bool;

/// Whether strict Ed25519 verification accepts a signature on a message under
/// a public key; a function of the three byte strings alone.
pub uninterp spec fn ed25519_verifies(pk: Seq<u8>, msg: Seq<u8>, sig: Seq<u8>) -> bool;

/// The Ed25519 signature that a secret key assigns to a message; Ed25519
/// signing is deterministic, so this is a function of the bytes alone.
pub uninterp spec fn ed25519_sign_of(secret: Seq<u8>, msg: Seq<u8>) -> Seq<u8>;

/// The public key derived from 32 secret-key bytes.
pub uninterp spec fn ed25519_pubkey_of(secret: Seq<u8>) -> Seq<u8>;

/// What an Ed25519 strict check returns, for every combination of key
/// validity and signature validity.
pub open spec fn spec_ed25519_result(pk: Seq<u8>, msg: Seq<u8>, sig: Seq<u8>) -> Result<
    (),
    SignatureError,
> {
    if !ed25519_valid_pubkey(pk) {
        Err(SignatureError::InvalidPublicKey)
    } else if ed25519_verifies(pk, msg, sig) {
        Ok(())
    } else {
        Err(SignatureError::InvalidSignature)
    }
}

/// Relies on ed25519_dalek::VerifyingKey::from_bytes and verify_strict: the
/// key parses iff the bytes are a valid public key, and strict verification
/// accepts or rejects as a function of key, message, and signature bytes.
#[verifier::external_body]
fn ed25519_verify_strict(pk: &[u8; 32], msg: &[u8; 32], sig: &[u8; 64]) -> (r: Result<
    (),
    SignatureError,
>)
    ensures
        r == spec_ed25519_result(pk@, msg@, sig@),
        (r matches Ok(_)) == (ed25519_valid_pubkey(pk@) && ed25519_verifies(pk@, msg@, sig@)),
{
    match ed25519_dalek::VerifyingKey::from_bytes(pk) {
        Err(_) => Err(SignatureError::InvalidPublicKey),
        Ok(vk) => {
            let s = ed25519_dalek::Signature::from_bytes(sig);
            match vk.verify_strict(msg, &s) {
                Ok(()) => Ok(()),
                Err(_) => Err(SignatureError::InvalidSignature),
            }
        },
    }
}

/// Holds of the signature that Ed25519 signing produces: it is the
/// deterministic signature for the secret and message, the derived public key
/// is valid, and strict verification accepts it under that key.
pub open spec fn ed25519_signature_checks(secret: Seq<u8>, msg: Seq<u8>, sig: Seq<u8>) -> bool {
    &&& sig == ed25519_sign_of(secret, msg)
    &&& ed25519_valid_pubkey(ed25519_pubkey_of(secret))
    &&& ed25519_verifies(ed25519_pubkey_of(secret), msg, sig)
}

/// Relies on ed25519_dalek::SigningKey::sign: Ed25519 signing is
/// deterministic, and the signature it produces is accepted by strict
/// verification under the public key derived from the same secret bytes.
#[verifier::external_body]
fn ed25519_sign(secret: &[u8; 32], msg: &[u8; 32]) -> (r: [u8; 64])
    ensures
        r@ == ed25519_sign_of(secret@, msg@),
        ed25519_signature_checks(secret@, msg@, r@),
{
    let key = ed25519_dalek::SigningKey::from_bytes(secret);
    key.sign(msg).to_bytes()
}

/// Relies on ed25519_dalek::SigningKey::verifying_key: the public key is a
/// function of the secret bytes, and its encoding always parses back.
#[verifier::external_body]
pub fn ed25519_public_key(secret: &[u8; 32]) -> (r: [u8; 32])
    ensures
        r@ == ed25519_pubkey_of(secret@),
        ed25519_valid_pubkey(r@),
{
    let key = ed25519_dalek::SigningKey::from_bytes(secret);
    key.verifying_key().to_bytes()
}

/// What verifying a transaction signature returns, for every combination of
/// sender key validity and signature validity.
pub open spec fn spec_verify_tx(tx: Transaction, sig: Seq<u8>, sender: Seq<u8>) -> Result<
    (),
    SignatureError,
> {
    spec_ed25519_result(sender, spec_tx_id(tx), sig)
}

/// Sign a transaction's canonical digest with an Ed25519 secret key.
pub fn sign_transaction(tx: &Transaction, secret: &[u8; 32]) -> (r: Signature)
    ensures
        r.0@ == ed25519_sign_of(secret@, spec_tx_id(*tx)),
        ed25519_pubkey_of(secret@) == tx.sender.0@ ==> spec_verify_tx(*tx, r.0@, tx.sender.0@)
            == Ok::<(), SignatureError>(()),
{
    let enc = encode_transaction(tx);
    let msg = hash_bytes(enc.as_slice());
    Signature(ed25519_sign(secret, &msg.0))
}

/// Verify a transaction signature; `sender` must be the signer's 32-byte
/// public key. Returns `Ok` exactly when the key is valid and strict
/// verification accepts the signature on the transaction digest.
pub fn verify_signature(tx: &Transaction, sig: &Signature, sender: &AccountId) -> (r: Result<
    (),
    SignatureError,
>)
    ensures
        r == spec_verify_tx(*tx, sig.0@, sender.0@),
{
    let enc = encode_transaction(tx);
    let msg = hash_bytes(enc.as_slice());
    ed25519_verify_strict(&sender.0, &msg.0, &sig.0)
}

/// A transaction together with its Ed25519 signature.
#[derive(Clone, Debug, PartialEq, Eq)]
pub struct SignedTransaction {
    pub tx: Transaction,
    pub signature: Signature,
}

impl SignedTransaction {
    /// Sign a transaction. When the transaction's sender is the public key of
    /// the given secret, the result verifies.
    pub fn new(tx: Transaction, secret: &[u8; 32]) -> (r: Self)
        ensures
            r.tx == tx,
            r.signature.0@ == ed25519_sign_of(secret@, spec_tx_id(tx)),
            ed25519_pubkey_of(secret@) == tx.sender.0@ ==> spec_verify_tx(
                tx,
                r.signature.0@,
                tx.sender.0@,
            ) == Ok::<(), SignatureError>(()),
    {
        let signature = sign_transaction(&tx, secret);
        SignedTransaction { tx, signature }
    }

    /// Pair a transaction with an existing raw signature.
    pub fn from_parts(tx: Transaction, signature: Signature) -> (r: Self)
        ensures
            r.tx == tx,
            r.signature == signature,
    {
        SignedTransaction { tx, signature }
    }

    /// Verify the signature against the sender named in the transaction.
    pub fn verify(&self) -> (r: Result<(), SignatureError>)
        ensures
            r == spec_verify_tx(self.tx, self.signature.0@, self.tx.sender.0@),
    {
        verify_signature(&self.tx, &self.signature, &self.tx.sender)
    }
}


/// Sign a 32-byte message digest with an Ed25519 secret key; the signature
/// verifies under the key's public counterpart.
pub(crate) fn sign_message(secret: &[u8; 32], msg: &[u8; 32]) -> (r: Signature)
    ensures
        r.0@ == ed25519_sign_of(secret@, msg@),
        ed25519_signature_checks(secret@, msg@, r.0@),
{
    Signature(ed25519_sign(secret, msg))
}

/// Verify an Ed25519 signature on a 32-byte message digest.
pub(crate) fn verify_message(pk: &[u8; 32], msg: &[u8; 32], sig: &[u8; 64]) -> (r: Result<
    (),
    SignatureError,
>)
    ensures
        r == spec_ed25519_result(pk@, msg@, sig@),
{
    ed25519_verify_strict(pk, msg, sig)
}

} // verus!
