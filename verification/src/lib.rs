//! Core of a proof-of-stake blockchain node: primitives, authenticated state,
//! a deterministic execution engine, a BFT round driver, a mempool, and the
//! block production and import pipeline.

pub mod accounts;
pub mod bytecode;
pub mod automation;
pub mod block_producer;
pub mod block_validation;
pub mod chain;
pub mod codec;
pub mod consensus;
pub mod dapp;
pub mod display;
pub mod executor;
pub mod faucet;
pub mod gas;
pub mod governance;
pub mod hash;
pub mod hd;
pub mod intent;
pub mod interpreter;
pub mod mempool;
pub mod order;
pub mod p2p;
pub mod paymaster;
pub mod parallel;
pub mod qa;
pub mod randomness;
pub mod recovery;
pub mod scheduler;
pub mod security;
pub mod signature;
pub mod slashing;
pub mod sparse_merkle;
pub mod store;
pub mod tokenomics;
pub mod types;
pub mod vm;

pub use gas::GasConfig;
pub use types::{AccessList, Account, AccountId, AccountState, Block, BlockHeader, Transaction,
    TransactionPayload};
