//! Block import: chain-link check, proposer check, transaction-root check,
//! re-execution on a snapshot, reward credit, and the state-root equality
//! check.

use vstd::prelude::*;

use crate::codec::{spec_tx_root, tx_root};
use crate::consensus::ConsensusEngine;
use crate::executor::{BlockExecutor, BlockExecState, BlockOutcome, ExecutionError};
use crate::hash::{bytes32_eq, Digest};
use crate::sparse_merkle::spec_smt_root;
use crate::store::{root_map_of, StateStore};
use crate::tokenomics::{block_emission_validators, spec_block_emission_validators};
use crate::types::{Account, AccountId, AccountState, Block};
use crate::vm::{sat_add_u128, spec_sat_add_u128};

verus! {

/// Why an imported block was rejected.
#[derive(Clone, Debug, PartialEq, Eq)]
pub enum BlockValidationError {
    /// The block's parent or height does not extend our tip.
    DoesNotChain,
    /// The header's transaction root does not match the transactions.
    InvalidTxRoot,
    /// The proposer is not in the validator set.
    InvalidProposer,
    /// Re-execution of the transactions failed.
    ExecutionFailed(ExecutionError),
    /// The recomputed state root does not match the header's.
    InvalidStateRoot { expected: Digest, computed: Digest },
    /// The validator set is empty.
    NoValidators,
}

/// The account map with the block reward credited to the proposer, the
/// account created if absent.
pub open spec fn spec_credit_reward(acc: Map<AccountId, AccountState>, proposer: AccountId, height: u64) -> Map<AccountId, AccountState> {
    let reward = spec_block_emission_validators(height);
    if reward == 0 {
        acc
    } else if acc.contains_key(proposer) {
        acc.insert(
            proposer,
            AccountState {
                balance: spec_sat_add_u128(acc[proposer].balance, reward as u128),
                nonce: acc[proposer].nonce,
                stake: acc[proposer].stake,
            },
        )
    } else {
        acc.insert(proposer, AccountState { balance: reward as u128, nonce: 0, stake: 0 })
    }
}

/// Credit the block reward for a height to the proposer.
pub fn credit_reward(state: &mut StateStore, proposer: &AccountId, height: u64)
    requires
        old(state).wf(),
    ensures
        final(state).wf(),
        final(state).accounts() == spec_credit_reward(old(state).accounts(), *proposer, height),
        final(state).code() == old(state).code(),
        final(state).storage() == old(state).storage(),
{
    let reward = block_emission_validators(height);
    if reward > 0 {
        match state.get(proposer) {
            Some(st) => {
                let st = *st;
                let credited = AccountState {
                    balance: sat_add_u128(st.balance, reward),
                    nonce: st.nonce,
                    stake: st.stake,
                };
                state.insert(Account { id: *proposer, state: credited });
            },
            None => {
                state.insert(
                    Account {
                        id: *proposer,
                        state: AccountState { balance: reward, nonce: 0, stake: 0 },
                    },
                );
            },
        }
    }
}

/// Whether a block extends a tip: its parent hash is the tip's hash and its
/// height is one above.
pub fn chains_to(block: &Block, our_latest_hash: Digest, our_height: u64) -> (r: bool)
    ensures
        r == (block.header.parent_hash.0@ == our_latest_hash.0@ && block.header.height
            == our_height + 1),
{
    bytes32_eq(&block.header.parent_hash.0, &our_latest_hash.0) && our_height < u64::MAX
        && block.header.height == our_height + 1
}

/// What validating and executing a block against a parent state yields:
/// the post state on success, or the reason it was rejected, checked in
/// order: transaction root, proposer membership, execution, state root.
pub open spec fn spec_validate_outcome(block: Block, parent_acc: Map<AccountId, AccountState>, parent_code: Map<AccountId, Seq<u8>>, parent_sto: Map<(AccountId, Seq<u8>), Seq<u8>>, validators: Seq<AccountId>) -> Result<BlockExecState, BlockValidationError> {
    if block.header.tx_root.0@ != spec_tx_root(block.transactions@) {
        Err(BlockValidationError::InvalidTxRoot)
    } else if !validators.contains(block.header.proposer) {
        Err(BlockValidationError::InvalidProposer)
    } else {
        match crate::executor::spec_execute_block(
            block.transactions@,
            parent_acc,
            parent_code,
            parent_sto,
        ) {
            BlockOutcome::Failed(e, _) => Err(BlockValidationError::ExecutionFailed(e)),
            BlockOutcome::Done(st) => {
                let rewarded = spec_credit_reward(
                    st.acc,
                    block.header.proposer,
                    block.header.height,
                );
                if block.header.state_root.0@ != spec_smt_root(root_map_of(rewarded)) {
                    Err(
                        BlockValidationError::InvalidStateRoot {
                            expected: block.header.state_root,
                            computed: arbitrary(),
                        },
                    )
                } else {
                    Ok(BlockExecState { acc: rewarded, code: st.code, sto: st.sto, gas: st.gas })
                }
            },
        }
    }
}

/// The state root an import recomputes for a block: the root over the
/// block's transactions executed on the parent state, with the proposer's
/// reward credited (meaningful only when execution completes).
pub open spec fn spec_recomputed_root(block: Block, parent_acc: Map<AccountId, AccountState>, parent_code: Map<AccountId, Seq<u8>>, parent_sto: Map<(AccountId, Seq<u8>), Seq<u8>>) -> Seq<u8> {
    match crate::executor::spec_execute_block(
        block.transactions@,
        parent_acc,
        parent_code,
        parent_sto,
    ) {
        BlockOutcome::Done(st) => spec_smt_root(
            root_map_of(spec_credit_reward(st.acc, block.header.proposer, block.header.height)),
        ),
        BlockOutcome::Failed(_, _) => arbitrary(),
    }
}

/// Validate a block and execute it on a snapshot of the parent state:
/// transaction root, proposer membership, execution, reward credit, and the
/// state-root equality check. On success the snapshot is returned; the
/// parent state is never modified.
pub fn validate_and_execute_block(block: &Block, parent_state: &StateStore, validator_set: &Vec<AccountId>, executor: &BlockExecutor) -> (r: Result<StateStore, BlockValidationError>)
    requires
        parent_state.wf(),
    ensures
        ({
            let outcome = spec_validate_outcome(
                *block,
                parent_state.accounts(),
                parent_state.code(),
                parent_state.storage(),
                validator_set@,
            );
            match r {
                Ok(st) => {
                    &&& outcome matches Ok(q)
                    &&& st.wf()
                    &&& st.accounts() == q.acc
                    &&& st.code() == q.code
                    &&& st.storage() == q.sto
                },
                Err(e) => {
                    &&& outcome matches Err(e2)
                    &&& (e matches BlockValidationError::InvalidStateRoot { expected, computed }
                        ==> (e2 matches BlockValidationError::InvalidStateRoot { expected: ex2, .. }
                        && expected == ex2))
                    &&& !(e matches BlockValidationError::InvalidStateRoot { .. }) ==> e == e2
                },
            }
        }),
        match r {
            Err(BlockValidationError::InvalidStateRoot { computed, .. }) => computed.0@
                == spec_recomputed_root(
                *block,
                parent_state.accounts(),
                parent_state.code(),
                parent_state.storage(),
            ),
            _ => true,
        },
{
    let computed_tx_root = tx_root(&block.transactions);
    if !bytes32_eq(&computed_tx_root.0, &block.header.tx_root.0) {
        return Err(BlockValidationError::InvalidTxRoot);
    }
    if !crate::types::contains_id(validator_set, &block.header.proposer) {
        return Err(BlockValidationError::InvalidProposer);
    }
    let mut state = parent_state.snapshot();
    match executor.execute_block(&block.transactions, &mut state) {
        Ok(_) => {},
        Err(e) => {
            return Err(BlockValidationError::ExecutionFailed(e));
        },
    }
    credit_reward(&mut state, &block.header.proposer, block.header.height);
    let computed_root = state.state_root();
    if !bytes32_eq(&block.header.state_root.0, &computed_root.0) {
        return Err(
            BlockValidationError::InvalidStateRoot {
                expected: block.header.state_root,
                computed: computed_root,
            },
        );
    }
    Ok(state)
}

/// Full import: check the chain link and a nonempty validator set, then
/// validate and execute against the parent state. Nothing is modified; on
/// success the new state is returned for the caller to adopt.
pub fn import_block(block: &Block, our_latest_hash: Digest, our_height: u64, parent_state: &StateStore, consensus: &ConsensusEngine, executor: &BlockExecutor) -> (r: Result<
    StateStore,
    BlockValidationError,
>)
    requires
        parent_state.wf(),
    ensures
        !(block.header.parent_hash.0@ == our_latest_hash.0@ && block.header.height == our_height
            + 1) ==> r == Err::<StateStore, BlockValidationError>(
            BlockValidationError::DoesNotChain,
        ),
        (block.header.parent_hash.0@ == our_latest_hash.0@ && block.header.height == our_height
            + 1 && consensus.model().validators.len() == 0) ==> r == Err::<
            StateStore,
            BlockValidationError,
        >(BlockValidationError::NoValidators),
        (block.header.parent_hash.0@ == our_latest_hash.0@ && block.header.height == our_height
            + 1 && consensus.model().validators.len() > 0) ==> ({
            let outcome = spec_validate_outcome(
                *block,
                parent_state.accounts(),
                parent_state.code(),
                parent_state.storage(),
                consensus.model().validators,
            );
            match r {
                Ok(st) => {
                    &&& outcome matches Ok(q)
                    &&& st.wf()
                    &&& st.accounts() == q.acc
                    &&& st.code() == q.code
                    &&& st.storage() == q.sto
                },
                Err(e) => {
                    &&& outcome matches Err(e2)
                    &&& (e matches BlockValidationError::InvalidStateRoot { expected, computed }
                        ==> (e2 matches BlockValidationError::InvalidStateRoot { expected: ex2, .. }
                        && expected == ex2))
                    &&& !(e matches BlockValidationError::InvalidStateRoot { .. }) ==> e == e2
                },
            }
        }),
        match r {
            Err(BlockValidationError::InvalidStateRoot { computed, .. }) => computed.0@
                == spec_recomputed_root(
                *block,
                parent_state.accounts(),
                parent_state.code(),
                parent_state.storage(),
            ),
            _ => true,
        },
{
    if !chains_to(block, our_latest_hash, our_height) {
        return Err(BlockValidationError::DoesNotChain);
    }
    let validator_set = consensus.validators();
    if validator_set.len() == 0 {
        return Err(BlockValidationError::NoValidators);
    }
    validate_and_execute_block(block, parent_state, validator_set, executor)
}

} // verus!
