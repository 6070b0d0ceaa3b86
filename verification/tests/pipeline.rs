//! The mempool and the block production and import pipeline.

use boing::block_producer::BlockProducer;
use boing::block_validation::{chains_to, import_block, validate_and_execute_block,
    BlockValidationError};
use boing::chain::ChainState;
use boing::consensus::ConsensusEngine;
use boing::executor::BlockExecutor;
use boing::hash::Digest;
use boing::mempool::Mempool;
use boing::signature::SignedTransaction;
use boing::store::StateStore;
use boing::types::{AccessList, Account, AccountId, AccountState, Block, BlockHeader, Transaction,
    TransactionPayload};
use ed25519_dalek::SigningKey;
use rand::rngs::OsRng;

fn mk_transfer(from: AccountId, to: AccountId, nonce: u64, amount: u128) -> Transaction {
    Transaction {
        nonce,
        sender: from,
        payload: TransactionPayload::Transfer { to, amount },
        access_list: AccessList::new(vec![from, to], vec![from, to]),
    }
}

#[test]
fn test_chains_to() {
    let genesis = ChainState::genesis(AccountId::from_bytes([1u8; 32]));
    let chain = ChainState::from_genesis(genesis.clone());
    let block = Block {
        header: BlockHeader {
            parent_hash: genesis.hash(),
            height: 1,
            timestamp: 1,
            proposer: AccountId::from_bytes([1u8; 32]),
            tx_root: Digest::zero(),
            state_root: Digest::zero(),
        },
        transactions: vec![],
    };
    assert!(chains_to(&block, chain.latest_hash(), chain.height()));
    assert!(!chains_to(&block, chain.latest_hash(), chain.height() + 1));
}

fn executed_block(parent: &StateStore, proposer: AccountId, txs: Vec<Transaction>, parent_hash: Digest) -> Block {
    let exec = BlockExecutor::new();
    let mut state = parent.snapshot();
    exec.execute_block(&txs, &mut state).unwrap();
    boing::block_validation::credit_reward(&mut state, &proposer, 1);
    let state_root = state.state_root();
    Block {
        header: BlockHeader {
            parent_hash,
            height: 1,
            timestamp: 1,
            proposer,
            tx_root: boing::codec::tx_root(&txs),
            state_root,
        },
        transactions: txs,
    }
}

#[test]
fn test_validate_and_execute_block() {
    let proposer = AccountId::from_bytes([1u8; 32]);
    let to = AccountId::from_bytes([2u8; 32]);
    let mut parent = StateStore::new();
    parent.insert(Account { id: proposer, state: AccountState { balance: 1000, nonce: 0, stake: 0 } });
    parent.insert(Account { id: to, state: AccountState { balance: 0, nonce: 0, stake: 0 } });
    let txs = vec![mk_transfer(proposer, to, 0, 100)];
    let block = executed_block(&parent, proposer, txs, Digest::zero());
    let reward = boing::tokenomics::block_emission_validators(1);
    let exec = BlockExecutor::new();
    let result = validate_and_execute_block(&block, &parent, &vec![proposer], &exec);
    assert!(result.is_ok());
    let new_state = result.unwrap();
    assert_eq!(new_state.get(&proposer).unwrap().balance, 1000 - 100 + reward);
    assert_eq!(new_state.get(&to).unwrap().balance, 100);
}

#[test]
fn test_import_block() {
    let proposer = AccountId::from_bytes([1u8; 32]);
    let genesis = ChainState::genesis(proposer);
    let chain = ChainState::from_genesis(genesis.clone());
    let mut consensus = ConsensusEngine::single_validator(proposer);
    let _ = consensus.propose_and_commit(genesis.clone());
    let mut parent = StateStore::new();
    parent.insert(Account {
        id: proposer,
        state: AccountState { balance: 1_000_000, nonce: 0, stake: 0 },
    });
    let to = AccountId::from_bytes([2u8; 32]);
    parent.insert(Account { id: to, state: AccountState { balance: 0, nonce: 0, stake: 0 } });
    let txs = vec![mk_transfer(proposer, to, 0, 50)];
    let block = executed_block(&parent, proposer, txs, genesis.hash());
    let exec = BlockExecutor::new();
    let result = import_block(&block, chain.latest_hash(), chain.height(), &parent, &consensus, &exec);
    assert!(result.is_ok());
}

#[test]
fn import_rejects_bad_state_root() {
    let proposer = AccountId::from_bytes([1u8; 32]);
    let genesis = ChainState::genesis(proposer);
    let chain = ChainState::from_genesis(genesis.clone());
    let consensus = ConsensusEngine::single_validator(proposer);
    let mut parent = StateStore::new();
    parent.insert(Account {
        id: proposer,
        state: AccountState { balance: 1_000_000, nonce: 0, stake: 0 },
    });
    let to = AccountId::from_bytes([2u8; 32]);
    parent.insert(Account { id: to, state: AccountState { balance: 0, nonce: 0, stake: 0 } });
    let txs = vec![mk_transfer(proposer, to, 0, 50)];
    let mut block = executed_block(&parent, proposer, txs, genesis.hash());
    block.header.state_root.0[0] ^= 1;
    let exec = BlockExecutor::new();
    let result = import_block(&block, chain.latest_hash(), chain.height(), &parent, &consensus, &exec);
    assert!(matches!(result, Err(BlockValidationError::InvalidStateRoot { .. })));
}

#[test]
fn single_validator_produces_block_with_transfer() {
    let key = SigningKey::generate(&mut OsRng);
    let proposer = AccountId::from_bytes(key.verifying_key().to_bytes());
    let to = AccountId::from_bytes([2u8; 32]);
    let mut chain = ChainState::new(proposer);
    let mut consensus = ConsensusEngine::single_validator(proposer);
    consensus.sync_round(1);
    let mut state = StateStore::new();
    state.insert(Account {
        id: proposer,
        state: AccountState { balance: 1_000_000, nonce: 0, stake: 0 },
    });
    let mut mempool = Mempool::new();
    let tx = mk_transfer(proposer, to, 0, 100);
    let signed = SignedTransaction::new(tx, &key.to_bytes());
    mempool.insert(signed).unwrap();
    assert_eq!(mempool.len(), 1);
    let producer = BlockProducer::new(proposer).with_max_txs(100);
    let exec = BlockExecutor::new();
    let hash = producer
        .produce_block(&mut chain, &mut mempool, &mut state, &exec, &mut consensus, 1234)
        .expect("should produce block");
    assert_ne!(hash, Digest::zero());
    assert_eq!(chain.height(), 1);
    let reward = boing::tokenomics::block_emission_validators(1);
    assert_eq!(state.get(&proposer).unwrap().balance, 1_000_000 - 100 + reward);
    assert_eq!(state.get(&to).unwrap().balance, 100);
    assert_eq!(mempool.len(), 0);
}

#[test]
fn mempool_rejects_duplicates_and_orders_drain() {
    let key = SigningKey::generate(&mut OsRng);
    let sender = AccountId::from_bytes(key.verifying_key().to_bytes());
    let to = AccountId::from_bytes([2u8; 32]);
    let mut mempool = Mempool::new();
    let s0 = SignedTransaction::new(mk_transfer(sender, to, 0, 1), &key.to_bytes());
    let s1 = SignedTransaction::new(mk_transfer(sender, to, 1, 2), &key.to_bytes());
    mempool.insert(s1.clone()).unwrap();
    mempool.insert(s0.clone()).unwrap();
    assert!(matches!(
        mempool.insert(s0.clone()),
        Err(boing::mempool::MempoolError::Duplicate)
    ));
    assert_eq!(mempool.len(), 2);
    let drained = mempool.drain_for_block(10);
    assert_eq!(drained.len(), 2);
    assert_eq!(drained[0].tx.nonce, 0);
    assert_eq!(drained[1].tx.nonce, 1);
    assert_eq!(mempool.len(), 0);
    // A full round trip restores the contents.
    mempool.reinsert(drained);
    assert_eq!(mempool.len(), 2);
}

#[test]
fn mempool_rejects_bad_signature() {
    let key = SigningKey::generate(&mut OsRng);
    let sender = AccountId::from_bytes(key.verifying_key().to_bytes());
    let to = AccountId::from_bytes([2u8; 32]);
    let mut signed = SignedTransaction::new(mk_transfer(sender, to, 0, 1), &key.to_bytes());
    signed.signature.0[3] ^= 0xff;
    let mut mempool = Mempool::new();
    assert!(matches!(
        mempool.insert(signed),
        Err(boing::mempool::MempoolError::InvalidSignature)
    ));
}

#[test]
fn chain_append_rejects_unchained_block() {
    let proposer = AccountId::from_bytes([1u8; 32]);
    let mut chain = ChainState::new(proposer);
    let block = Block {
        header: BlockHeader {
            parent_hash: Digest([9u8; 32]),
            height: 1,
            timestamp: 0,
            proposer,
            tx_root: Digest::zero(),
            state_root: Digest::zero(),
        },
        transactions: vec![],
    };
    assert!(matches!(chain.append(block), Err(boing::chain::ChainError::BlockNotChained)));
}

#[test]
fn produced_block_imports_on_second_node() {
    let key = SigningKey::generate(&mut OsRng);
    let proposer = AccountId::from_bytes(key.verifying_key().to_bytes());
    let to = AccountId::from_bytes([2u8; 32]);
    let mut chain = ChainState::new(proposer);
    let mut consensus = ConsensusEngine::single_validator(proposer);
    consensus.sync_round(1);
    let mut state = StateStore::new();
    state.insert(Account {
        id: proposer,
        state: AccountState { balance: 1_000_000, nonce: 0, stake: 0 },
    });
    // The second node shares the same genesis and parent state.
    let chain2 = ChainState::new(proposer);
    let state2 = state.snapshot();
    let consensus2 = ConsensusEngine::single_validator(proposer);
    let mut mempool = Mempool::new();
    mempool
        .insert(SignedTransaction::new(mk_transfer(proposer, to, 0, 42), &key.to_bytes()))
        .unwrap();
    let producer = BlockProducer::new(proposer);
    let exec = BlockExecutor::new();
    producer
        .produce_block(&mut chain, &mut mempool, &mut state, &exec, &mut consensus, 7)
        .unwrap();
    let block = chain.get_block_by_height(1).unwrap().clone();
    let imported = import_block(
        &block,
        chain2.latest_hash(),
        chain2.height(),
        &state2,
        &consensus2,
        &exec,
    )
    .unwrap();
    assert_eq!(imported.state_root(), state.state_root());
}
