//! Intents: declarative goals users sign for solvers to fulfil, and the
//! pool that collects them.

use vstd::prelude::*;

use crate::codec::{push_bytes, push_u128, push_u64, spec_enc_bytes, spec_enc_u128, spec_enc_u64};
use crate::hash::push_bytes32;
use crate::hash::{blake3_of, hash_bytes, Digest};
use crate::signature::{spec_ed25519_result, Signature, SignatureError};
use crate::types::AccountId;

verus! {

/// What the user wants to achieve.
#[derive(Clone, Debug, PartialEq, Eq)]
pub enum IntentKind {
    /// Swap one asset for another, with an optional minimum out.
    Swap { from_asset: AccountId, to_asset: AccountId, amount: u128, min_out: Option<u128> },
    /// Transfer an amount to a recipient.
    Transfer { to: AccountId, amount: u128 },
    /// An opaque goal for solver interpretation.
    Custom(Vec<u8>),
}

/// An unsigned intent.
#[derive(Clone, Debug, PartialEq, Eq)]
pub struct Intent {
    pub signer: AccountId,
    pub kind: IntentKind,
    pub nonce: u64,
    pub deadline_block: u64,
}

/// The canonical bytes of an intent kind: a tag byte, then the fields.
pub open spec fn spec_enc_kind(k: IntentKind) -> Seq<u8> {
    match k {
        IntentKind::Swap { from_asset, to_asset, amount, min_out } => seq![0u8] + from_asset.0@
            + to_asset.0@ + spec_enc_u128(amount) + (match min_out {
            Some(m) => seq![1u8] + spec_enc_u128(m),
            None => seq![0u8],
        }),
        IntentKind::Transfer { to, amount } => seq![1u8] + to.0@ + spec_enc_u128(amount),
        IntentKind::Custom(b) => seq![2u8] + spec_enc_bytes(b@),
    }
}

/// The canonical bytes of an intent.
pub open spec fn spec_enc_intent(i: Intent) -> Seq<u8> {
    i.signer.0@ + spec_enc_kind(i.kind) + spec_enc_u64(i.nonce) + spec_enc_u64(i.deadline_block)
}

/// The intent identifier: the digest of the canonical bytes.
pub open spec fn spec_intent_id(i: Intent) -> Seq<u8> {
    blake3_of(spec_enc_intent(i))
}

/// Append the canonical bytes of an intent kind.
fn push_kind(buf: &mut Vec<u8>, k: &IntentKind)
    ensures
        final(buf)@ == old(buf)@ + spec_enc_kind(*k),
{
    let ghost pre = buf@;
    match k {
        IntentKind::Swap { from_asset, to_asset, amount, min_out } => {
            buf.push(0u8);
            push_bytes32(buf, &from_asset.0);
            push_bytes32(buf, &to_asset.0);
            push_u128(buf, *amount);
            match min_out {
                Some(m) => {
                    buf.push(1u8);
                    push_u128(buf, *m);
                },
                None => {
                    buf.push(0u8);
                },
            }
        },
        IntentKind::Transfer { to, amount } => {
            buf.push(1u8);
            push_bytes32(buf, &to.0);
            push_u128(buf, *amount);
        },
        IntentKind::Custom(b) => {
            buf.push(2u8);
            push_bytes(buf, b);
        },
    }
    proof {
        assert(buf@ =~= pre + spec_enc_kind(*k));
    }
}

impl Intent {
    /// The deterministic intent identifier.
    pub fn id(&self) -> (r: Digest)
        ensures
            r.0@ == spec_intent_id(*self),
    {
        let mut buf: Vec<u8> = Vec::new();
        push_bytes32(&mut buf, &self.signer.0);
        push_kind(&mut buf, &self.kind);
        push_u64(&mut buf, self.nonce);
        push_u64(&mut buf, self.deadline_block);
        proof {
            assert(buf@ =~= spec_enc_intent(*self));
        }
        hash_bytes(buf.as_slice())
    }
}

/// An intent its signer attested to.
#[derive(Clone, Debug)]
pub struct SignedIntent {
    pub intent: Intent,
    pub signature: Signature,
}

impl SignedIntent {
    /// Sign an intent's identifier. When the signer is the key's public
    /// counterpart, the result verifies.
    pub fn new(intent: Intent, secret: &[u8; 32]) -> (r: Self)
        ensures
            r.intent == intent,
            crate::signature::ed25519_pubkey_of(secret@) == intent.signer.0@ ==> spec_ed25519_result(
                intent.signer.0@,
                spec_intent_id(intent),
                r.signature.0@,
            ) == Ok::<(), SignatureError>(()),
    {
        let msg = intent.id();
        let signature = crate::signature::sign_message(secret, &msg.0);
        SignedIntent { intent, signature }
    }

    /// Verify the signature over the intent's identifier against the signer.
    pub fn verify(&self) -> (r: Result<(), SignatureError>)
        ensures
            r == spec_ed25519_result(
                self.intent.signer.0@,
                spec_intent_id(self.intent),
                self.signature.0@,
            ),
    {
        let msg = self.intent.id();
        crate::signature::verify_message(&self.intent.signer.0, &msg.0, &self.signature.0)
    }
}

/// Why an intent was refused.
#[derive(Clone, Copy, Debug, PartialEq, Eq, Structural)]
pub enum IntentPoolError {
    /// The signature does not verify.
    InvalidSignature,
}

/// The in-memory intent pool, one entry per intent identifier.
pub struct IntentPool {
    intents: Vec<SignedIntent>,
}

impl IntentPool {
    /// The pooled intents, in submission order.
    pub closed spec fn spec_intents(&self) -> Seq<SignedIntent> {
        self.intents@
    }

    /// One entry per intent identifier.
    pub closed spec fn wf(&self) -> bool {
        forall|i: int, j: int|
            0 <= i < j < self.intents@.len() ==> spec_intent_id(
                (#[trigger] self.intents@[i]).intent,
            ) != spec_intent_id((#[trigger] self.intents@[j]).intent)
    }

    pub fn new() -> (r: Self)
        ensures
            r.wf(),
            r.spec_intents().len() == 0,
    {
        IntentPool { intents: Vec::new() }
    }

    /// Submit a signed intent: verify it, then store it under its
    /// identifier, replacing any prior entry with the same identifier.
    pub fn submit(&mut self, signed: SignedIntent) -> (r: Result<Digest, IntentPoolError>)
        requires
            old(self).wf(),
        ensures
            final(self).wf(),
            !(spec_ed25519_result(
                signed.intent.signer.0@,
                spec_intent_id(signed.intent),
                signed.signature.0@,
            ) matches Ok(_)) ==> (r == Err::<Digest, IntentPoolError>(
                IntentPoolError::InvalidSignature,
            ) && final(self).spec_intents() == old(self).spec_intents()),
            (spec_ed25519_result(
                signed.intent.signer.0@,
                spec_intent_id(signed.intent),
                signed.signature.0@,
            ) matches Ok(_)) ==> (r matches Ok(h) && h.0@ == spec_intent_id(signed.intent)
                && exists|i: int|
                0 <= i < final(self).spec_intents().len() && spec_intent_id(
                    (#[trigger] final(self).spec_intents()[i]).intent,
                ) == spec_intent_id(signed.intent)),
    {
        match self.verify_entry(&signed) {
            Ok(()) => {},
            Err(e) => {
                return Err(e);
            },
        }
        let id = signed.intent.id();
        let mut i: usize = 0;
        let n = self.intents.len();
        while i < n
            invariant
                0 <= i <= n,
                *self == *old(self),
                old(self).wf(),
                n == self.intents@.len(),
                id.0@ == spec_intent_id(signed.intent),
                spec_ed25519_result(
                    signed.intent.signer.0@,
                    spec_intent_id(signed.intent),
                    signed.signature.0@,
                ) matches Ok(_),
                forall|j: int|
                    0 <= j < i ==> spec_intent_id((#[trigger] self.intents@[j]).intent)
                        != id.0@,
            decreases n - i,
        {
            let eid = self.intents[i].intent.id();
            if crate::hash::bytes32_eq(&eid.0, &id.0) {
                proof {
                    assert(spec_intent_id(self.intents@[i as int].intent) == id.0@);
                }
                self.intents.remove(i);
                self.intents.insert(i, signed);
                proof {
                    assert(self.intents@ =~= old(self).spec_intents().update(i as int, signed));
                    assert(spec_intent_id(self.spec_intents()[i as int].intent) == spec_intent_id(
                        signed.intent,
                    ));
                }
                return Ok(id);
            }
            i = i + 1;
        }
        self.intents.push(signed);
        proof {
            assert(spec_intent_id(
                self.spec_intents()[self.spec_intents().len() - 1].intent,
            ) == spec_intent_id(signed.intent));
        }
        Ok(id)
    }

    fn verify_entry(&self, signed: &SignedIntent) -> (r: Result<(), IntentPoolError>)
        ensures
            (r matches Ok(_)) == (spec_ed25519_result(
                signed.intent.signer.0@,
                spec_intent_id(signed.intent),
                signed.signature.0@,
            ) matches Ok(_)),
    {
        match signed.verify() {
            Ok(()) => Ok(()),
            Err(_) => Err(IntentPoolError::InvalidSignature),
        }
    }

    /// Number of pooled intents.
    pub fn len(&self) -> (r: usize)
        ensures
            r == self.spec_intents().len(),
    {
        self.intents.len()
    }

    /// Whether the pool is empty.
    pub fn is_empty(&self) -> (r: bool)
        ensures
            r == (self.spec_intents().len() == 0),
    {
        self.intents.len() == 0
    }
}

} // verus!
