//! Hashing, identifiers, signatures, and access lists.

use boing::hash::Digest;
use boing::signature::SignedTransaction;
use boing::types::{AccessList, AccountId, Transaction, TransactionPayload};
use ed25519_dalek::SigningKey;
use rand::rngs::OsRng;

fn transfer_tx(sender: AccountId, to: AccountId, nonce: u64, amount: u128) -> Transaction {
    Transaction {
        nonce,
        sender,
        payload: TransactionPayload::Transfer { to, amount },
        access_list: AccessList::new(vec![sender, to], vec![sender, to]),
    }
}

#[test]
fn test_hash_deterministic() {
    let h1 = boing::hash::hash_bytes(b"hello");
    let h2 = boing::hash::hash_bytes(b"hello");
    assert_eq!(h1.as_bytes(), h2.as_bytes());
}

#[test]
fn test_transaction_id_deterministic() {
    let id = AccountId::from_bytes([1u8; 32]);
    let tx = Transaction {
        nonce: 0,
        sender: id,
        payload: TransactionPayload::Transfer { to: id, amount: 100 },
        access_list: AccessList::new(vec![], vec![]),
    };
    assert_eq!(tx.id(), tx.id());
}

#[test]
fn test_signed_transaction_verify() {
    let key = SigningKey::generate(&mut OsRng);
    let sender = AccountId::from_bytes(key.verifying_key().to_bytes());
    let tx = Transaction {
        nonce: 0,
        sender,
        payload: TransactionPayload::Transfer {
            to: AccountId::from_bytes([2u8; 32]),
            amount: 50,
        },
        access_list: AccessList::new(vec![], vec![]),
    };
    let signed = SignedTransaction::new(tx, &key.to_bytes());
    assert!(signed.verify().is_ok());
}

#[test]
fn test_access_list_conflicts() {
    let a = AccountId::from_bytes([1u8; 32]);
    let b = AccountId::from_bytes([2u8; 32]);
    let c = AccountId::from_bytes([3u8; 32]);
    let al1 = AccessList::new(vec![a, b], vec![]);
    let al2 = AccessList::new(vec![c], vec![]);
    assert!(!al1.conflicts_with(&al2));
    let al3 = AccessList::new(vec![b, c], vec![]);
    assert!(al1.conflicts_with(&al3));
}

#[test]
fn tampered_signature_rejected() {
    let key = SigningKey::generate(&mut OsRng);
    let sender = AccountId::from_bytes(key.verifying_key().to_bytes());
    let tx = transfer_tx(sender, AccountId::from_bytes([9u8; 32]), 0, 7);
    let mut signed = SignedTransaction::new(tx, &key.to_bytes());
    signed.signature.0[0] ^= 1;
    assert!(signed.verify().is_err());
}

#[test]
fn tampered_field_rejected() {
    let key = SigningKey::generate(&mut OsRng);
    let sender = AccountId::from_bytes(key.verifying_key().to_bytes());
    let tx = transfer_tx(sender, AccountId::from_bytes([9u8; 32]), 0, 7);
    let mut signed = SignedTransaction::new(tx, &key.to_bytes());
    signed.tx.nonce = 1;
    assert!(signed.verify().is_err());
}

#[test]
fn tx_root_empty_is_zero() {
    let txs: Vec<Transaction> = vec![];
    assert_eq!(boing::codec::tx_root(&txs), Digest::zero());
}

#[test]
fn tx_root_matches_recomputation() {
    let a = AccountId::from_bytes([1u8; 32]);
    let b = AccountId::from_bytes([2u8; 32]);
    let txs = vec![transfer_tx(a, b, 0, 1), transfer_tx(b, a, 0, 2), transfer_tx(a, b, 1, 3)];
    let r1 = boing::codec::tx_root(&txs);
    let r2 = boing::codec::tx_root(&txs);
    assert_eq!(r1, r2);
    assert_ne!(r1, Digest::zero());
}

#[test]
fn hashing_is_not_identity() {
    let h = boing::hash::hash_bytes(&[0u8; 32]);
    assert_ne!(h.0, [0u8; 32]);
}

#[test]
fn display_for_signing_exact() {
    let a = AccountId::from_bytes([1u8; 32]);
    let b = AccountId::from_bytes([2u8; 32]);
    let tx = transfer_tx(a, b, 0, 100);
    assert_eq!(
        tx.display_for_signing(),
        "From: 0101010101010101 | Nonce: 0 | Transfer 100 to 0202020202020202"
    );
}

#[test]
fn display_bond_exact() {
    let a = AccountId::from_bytes([0xabu8; 32]);
    let tx = Transaction {
        nonce: 7,
        sender: a,
        payload: TransactionPayload::Bond { amount: 12 },
        access_list: AccessList::new(vec![a], vec![a]),
    };
    assert_eq!(
        tx.display_for_signing(),
        "From: abababababababab | Nonce: 7 | Bond 12 stake"
    );
}
