//! The authenticated state tree and the state store.

use boing::hash::Digest;
use boing::sparse_merkle::SparseMerkleTree;
use boing::store::StateStore;
use boing::types::{Account, AccountId, AccountState};

#[test]
fn test_empty_root() {
    let tree = SparseMerkleTree::new();
    assert_eq!(tree.root(), Digest::zero());
}

#[test]
fn test_insert_root_deterministic() {
    let mut tree = SparseMerkleTree::new();
    let id = AccountId::from_bytes([1u8; 32]);
    tree.insert(id, &AccountState { balance: 100, nonce: 0, stake: 0 });
    let r1 = tree.root();
    let r2 = tree.root();
    assert_eq!(r1, r2);
}

#[test]
fn test_insert_different_values_different_roots() {
    let mut t1 = SparseMerkleTree::new();
    let mut t2 = SparseMerkleTree::new();
    let id = AccountId::from_bytes([1u8; 32]);
    t1.insert(id, &AccountState { balance: 100, nonce: 0, stake: 0 });
    t2.insert(id, &AccountState { balance: 200, nonce: 0, stake: 0 });
    assert_ne!(t1.root(), t2.root());
}

#[test]
fn test_get() {
    let mut tree = SparseMerkleTree::new();
    let id = AccountId::from_bytes([1u8; 32]);
    tree.insert(id, &AccountState { balance: 42, nonce: 1, stake: 0 });
    assert!(tree.get(&id).is_some());
    assert!(tree.get(&AccountId::from_bytes([2u8; 32])).is_none());
}

#[test]
fn test_prove_and_verify() {
    let mut tree = SparseMerkleTree::new();
    let mut k1 = [0u8; 32];
    k1[0] = 0;
    let mut k2 = [0u8; 32];
    k2[0] = 128;
    let id1 = AccountId::from_bytes(k1);
    let id2 = AccountId::from_bytes(k2);
    tree.insert(id1, &AccountState { balance: 100, nonce: 0, stake: 0 });
    tree.insert(id2, &AccountState { balance: 200, nonce: 1, stake: 0 });
    assert!(tree.prove(&id1).unwrap().verify());
    assert!(tree.prove(&id2).unwrap().verify());
}

#[test]
fn test_delete() {
    let mut tree = SparseMerkleTree::new();
    let id = AccountId::from_bytes([1u8; 32]);
    tree.insert(id, &AccountState { balance: 100, nonce: 0, stake: 0 });
    let root_with = tree.root();
    tree.delete(&id);
    assert!(tree.get(&id).is_none());
    assert_eq!(tree.root(), Digest::zero());
    assert_ne!(root_with, Digest::zero());
}

#[test]
fn test_checkpoint_revert() {
    let mut state = StateStore::new();
    let a = AccountId::from_bytes([1u8; 32]);
    let b = AccountId::from_bytes([2u8; 32]);
    state.insert(Account { id: a, state: AccountState { balance: 100, nonce: 0, stake: 0 } });
    state.insert(Account { id: b, state: AccountState { balance: 50, nonce: 0, stake: 0 } });
    let cp = state.checkpoint();
    state.get_mut(&a).unwrap().balance = 90;
    state.insert(Account {
        id: AccountId::from_bytes([3u8; 32]),
        state: AccountState { balance: 10, nonce: 0, stake: 0 },
    });
    assert_eq!(state.get(&a).unwrap().balance, 90);
    state.revert(cp);
    assert_eq!(state.get(&a).unwrap().balance, 100);
    assert!(state.get(&AccountId::from_bytes([3u8; 32])).is_none());
}

#[test]
fn test_top_stakers() {
    let mut state = StateStore::new();
    let a = AccountId::from_bytes([1u8; 32]);
    let b = AccountId::from_bytes([2u8; 32]);
    let c = AccountId::from_bytes([3u8; 32]);
    state.insert(Account { id: a, state: AccountState { balance: 0, nonce: 0, stake: 100 } });
    state.insert(Account { id: b, state: AccountState { balance: 0, nonce: 0, stake: 500 } });
    state.insert(Account { id: c, state: AccountState { balance: 0, nonce: 0, stake: 200 } });
    let top = state.top_stakers(2);
    assert_eq!(top.len(), 2);
    assert_eq!(top[0], b);
    assert_eq!(top[1], c);
}

#[test]
fn test_prove_account() {
    let mut state = StateStore::new();
    let mut k1 = [0u8; 32];
    k1[0] = 1;
    let mut k128 = [0u8; 32];
    k128[0] = 128;
    state.insert(Account {
        id: AccountId::from_bytes(k1),
        state: AccountState { balance: 7, nonce: 0, stake: 0 },
    });
    state.insert(Account {
        id: AccountId::from_bytes(k128),
        state: AccountState { balance: 9, nonce: 0, stake: 0 },
    });
    let proof = state.prove_account(&AccountId::from_bytes(k128)).unwrap();
    assert!(proof.verify());
    assert_eq!(proof.root, state.state_root());
}

#[test]
fn prove_absent_account_yields_nothing() {
    let state = StateStore::new();
    assert!(state.prove_account(&AccountId::from_bytes([5u8; 32])).is_none());
}

#[test]
fn tampered_proof_fails() {
    let mut state = StateStore::new();
    let mut k1 = [0u8; 32];
    k1[0] = 1;
    let mut k128 = [0u8; 32];
    k128[0] = 128;
    state.insert(Account {
        id: AccountId::from_bytes(k1),
        state: AccountState { balance: 7, nonce: 0, stake: 0 },
    });
    state.insert(Account {
        id: AccountId::from_bytes(k128),
        state: AccountState { balance: 9, nonce: 0, stake: 0 },
    });
    let mut proof = state.prove_account(&AccountId::from_bytes(k1)).unwrap();
    assert!(proof.verify());
    proof.value_hash.0[0] ^= 1;
    assert!(!proof.verify());
}

#[test]
fn state_root_deterministic_across_stores() {
    let mut s1 = StateStore::new();
    let mut s2 = StateStore::new();
    for i in 1..=4u8 {
        let id = AccountId::from_bytes([i; 32]);
        let st = AccountState { balance: i as u128 * 10, nonce: 0, stake: 0 };
        s1.insert(Account { id, state: st });
    }
    // insert in another order
    for i in (1..=4u8).rev() {
        let id = AccountId::from_bytes([i; 32]);
        let st = AccountState { balance: i as u128 * 10, nonce: 0, stake: 0 };
        s2.insert(Account { id, state: st });
    }
    assert_eq!(s1.state_root(), s2.state_root());
}

#[test]
fn persistence_export_import_roundtrip() {
    let mut state = StateStore::new();
    let a = AccountId::from_bytes([1u8; 32]);
    state.insert(Account { id: a, state: AccountState { balance: 11, nonce: 2, stake: 3 } });
    state.set_contract_code(a, vec![0x00, 0x01]);
    state.merge_contract_storage(a, [7u8; 32], [9u8; 32]);
    let (accounts, code, storage) = state.export_for_persistence();
    let restored = StateStore::load_from_persistence(accounts, code, storage);
    assert_eq!(restored.get(&a).unwrap().balance, 11);
    assert_eq!(restored.get_contract_code(&a).unwrap(), &vec![0x00, 0x01]);
    assert_eq!(restored.state_root(), state.state_root());
}
