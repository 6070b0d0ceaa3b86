//! The BFT round driver: commits, equivocation, rotation.

use boing::chain::ChainState;
use boing::consensus::{ConsensusEngine, ConsensusError};
use boing::hash::Digest;
use boing::types::{AccountId, Block, BlockHeader};

fn mk_block(height: u64, proposer: AccountId, parent: Digest) -> Block {
    Block {
        header: BlockHeader {
            parent_hash: parent,
            height,
            timestamp: 0,
            proposer,
            tx_root: Digest::zero(),
            state_root: Digest::zero(),
        },
        transactions: vec![],
    }
}

#[test]
fn test_propose_and_commit_single_validator() {
    let v = AccountId::from_bytes([1u8; 32]);
    let mut engine = ConsensusEngine::single_validator(v);
    let block = mk_block(0, v, Digest::zero());
    let h = engine.propose_and_commit(block.clone()).unwrap();
    assert_eq!(h, block.hash());
}

#[test]
fn test_equivocation_detected() {
    let v1 = AccountId::from_bytes([1u8; 32]);
    let v2 = AccountId::from_bytes([2u8; 32]);
    let v3 = AccountId::from_bytes([3u8; 32]);
    let v4 = AccountId::from_bytes([4u8; 32]);
    let mut engine = ConsensusEngine::new(vec![v1, v2, v3, v4]);
    let block_a = mk_block(0, v1, Digest::zero());
    let block_b = mk_block(0, v1, Digest([1u8; 32]));
    engine.propose(block_a.clone()).unwrap();
    let hash_a = block_a.hash();
    engine.vote(hash_a, v1).unwrap();
    let result = engine.vote(block_b.hash(), v1);
    assert!(matches!(result, Err(ConsensusError::Equivocation { .. })));
}

#[test]
fn test_leader_rotation() {
    let v1 = AccountId::from_bytes([1u8; 32]);
    let v2 = AccountId::from_bytes([2u8; 32]);
    let v3 = AccountId::from_bytes([3u8; 32]);
    let engine = ConsensusEngine::new(vec![v1, v2, v3]);
    assert_eq!(engine.leader(0), v1);
    assert_eq!(engine.leader(1), v2);
    assert_eq!(engine.leader(2), v3);
    assert_eq!(engine.leader(3), v1);
}

#[test]
fn test_only_leader_can_propose() {
    let v1 = AccountId::from_bytes([1u8; 32]);
    let v2 = AccountId::from_bytes([2u8; 32]);
    let mut engine = ConsensusEngine::new(vec![v1, v2]);
    let block = mk_block(0, v2, Digest::zero());
    let result = engine.propose(block);
    assert!(matches!(result, Err(ConsensusError::InvalidBlock)));
}

#[test]
fn test_propose_then_vote_commits() {
    let v1 = AccountId::from_bytes([1u8; 32]);
    let v2 = AccountId::from_bytes([2u8; 32]);
    let v3 = AccountId::from_bytes([3u8; 32]);
    let v4 = AccountId::from_bytes([4u8; 32]);
    let mut engine = ConsensusEngine::new(vec![v1, v2, v3, v4]);
    let block = mk_block(0, v1, Digest::zero());
    engine.propose(block.clone()).unwrap();
    let block_hash = block.hash();
    assert!(engine.vote(block_hash, v1).unwrap().is_none());
    assert!(engine.vote(block_hash, v2).unwrap().is_none());
    let committed = engine.vote(block_hash, v3).unwrap();
    assert_eq!(committed, Some(block_hash));
}

#[test]
fn test_simulate_4_nodes_1_byzantine() {
    let v1 = AccountId::from_bytes([1u8; 32]);
    let v2 = AccountId::from_bytes([2u8; 32]);
    let v3 = AccountId::from_bytes([3u8; 32]);
    let v4 = AccountId::from_bytes([4u8; 32]);
    let mut engine = ConsensusEngine::new(vec![v1, v2, v3, v4]);
    let block = mk_block(0, v1, Digest::zero());
    engine.propose(block.clone()).unwrap();
    let block_hash = block.hash();
    assert!(engine.vote(block_hash, v1).unwrap().is_none());
    assert!(engine.vote(block_hash, v2).unwrap().is_none());
    let committed = engine.vote(block_hash, v3).unwrap();
    assert_eq!(committed, Some(block_hash), "3 honest nodes should commit despite 1 Byzantine");
}

#[test]
fn vote_without_pending_block_rejected() {
    let v1 = AccountId::from_bytes([1u8; 32]);
    let mut engine = ConsensusEngine::single_validator(v1);
    assert!(matches!(
        engine.vote(Digest::zero(), v1),
        Err(ConsensusError::InvalidBlock)
    ));
}

#[test]
fn genesis_chain_starts_at_zero() {
    let chain = ChainState::new(AccountId::from_bytes([1u8; 32]));
    assert_eq!(chain.height(), 0);
}
