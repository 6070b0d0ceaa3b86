//! Block production: drain the mempool, execute on a checkpoint, credit the
//! reward, seal the roots into a header, commit through consensus, and
//! append to the chain; any failure reverts the state and reinserts the
//! drained transactions.

use vstd::prelude::*;

use crate::block_validation::{credit_reward, spec_credit_reward};
use crate::chain::ChainState;
use crate::codec::{spec_block_hash, spec_tx_root, tx_root};
use crate::consensus::{spec_leader, ConsensusEngine};
use crate::executor::{BlockExecutor, BlockOutcome};
use crate::hash::Digest;
use crate::mempool::{spec_drain, spec_reinsert, Mempool};
use crate::sparse_merkle::spec_smt_root;
use crate::store::{root_map_of, StateStore};
use crate::types::{AccountId, Block, BlockHeader, Transaction};

verus! {

/// Drains the mempool, executes, seals and commits blocks.
pub struct BlockProducer {
    proposer: AccountId,
    max_txs_per_block: usize,
}

/// The plain transactions of a list of signed ones.
pub open spec fn txs_of(signed: Seq<crate::signature::SignedTransaction>) -> Seq<Transaction> {
    Seq::new(signed.len(), |i: int| signed[i].tx)
}

impl BlockProducer {
    /// The account this producer proposes as.
    pub closed spec fn spec_proposer(&self) -> AccountId {
        self.proposer
    }

    /// The block size cap.
    pub closed spec fn spec_max_txs(&self) -> usize {
        self.max_txs_per_block
    }

    /// A producer for a proposer account, with the default block size cap.
    pub fn new(proposer: AccountId) -> (r: Self)
        ensures
            r.spec_proposer() == proposer,
            r.spec_max_txs() == 1000,
    {
        BlockProducer { proposer, max_txs_per_block: 1000 }
    }

    /// The producer with another block size cap.
    pub fn with_max_txs(self, max: usize) -> (r: Self)
        ensures
            r.spec_proposer() == self.spec_proposer(),
            r.spec_max_txs() == max,
    {
        BlockProducer { proposer: self.proposer, max_txs_per_block: max }
    }

    /// Produce and commit one block at the next height, when this producer
    /// is that round's leader and the mempool is not empty. On any failure
    /// after draining, the state is reverted and the drained transactions
    /// are reinserted.
    pub fn produce_block(&self, chain: &mut ChainState, mempool: &mut Mempool, state: &mut StateStore, executor: &BlockExecutor, consensus: &mut ConsensusEngine, now_secs: u64) -> (r: Option<Digest>)
        requires
            old(chain).wf(),
            old(mempool).wf(),
            old(state).wf(),
            old(consensus).wf(),
            old(consensus).model().round < u64::MAX,
            old(chain)@.len() < u64::MAX,
        ensures
            final(chain).wf(),
            final(mempool).wf(),
            final(state).wf(),
            final(consensus).wf(),
            // Not the leader for the next height: nothing happens.
            spec_leader(old(consensus).model().validators, (old(chain)@.len()) as u64)
                != self.spec_proposer() ==> ({
                &&& r matches None
                &&& final(chain)@ == old(chain)@
                &&& final(mempool)@ == old(mempool)@
                &&& final(state).accounts() == old(state).accounts()
            }),
            // On success: the drained transactions became a block at the next
            // height, sealed with the transaction root and the state root of
            // the executed-and-rewarded state, committed and appended.
            r matches Some(h) ==> ({
                let drained = spec_drain(old(mempool)@, self.spec_max_txs() as int).0;
                let txs = txs_of(drained);
                let height = old(chain)@.len() as u64;
                &&& drained.len() > 0
                &&& final(mempool)@ == spec_drain(old(mempool)@, self.spec_max_txs() as int).1
                &&& crate::executor::spec_execute_block(
                    txs,
                    old(state).accounts(),
                    old(state).code(),
                    old(state).storage(),
                ) matches BlockOutcome::Done(st) && final(state).accounts() == spec_credit_reward(
                    st.acc,
                    self.spec_proposer(),
                    height,
                ) && final(state).code() == st.code && final(state).storage() == st.sto
                &&& final(chain)@.len() == old(chain)@.len() + 1
                &&& final(chain)@[old(chain)@.len() as int].header.height == height
                &&& final(chain)@[old(chain)@.len() as int].header.timestamp == now_secs
                &&& final(chain)@[old(chain)@.len() as int].header.proposer
                    == self.spec_proposer()
                &&& final(chain)@[old(chain)@.len() as int].header.parent_hash.0@
                    == spec_block_hash(old(chain)@[old(chain)@.len() - 1].header)
                &&& final(chain)@[old(chain)@.len() as int].header.tx_root.0@ == spec_tx_root(txs)
                &&& final(chain)@[old(chain)@.len() as int].header.state_root.0@ == spec_smt_root(
                    root_map_of(final(state).accounts()),
                )
                &&& final(chain)@[old(chain)@.len() as int].transactions@ == txs
                &&& h.0@ == spec_block_hash(final(chain)@[old(chain)@.len() as int].header)
                &&& final(consensus).model().round == old(consensus).model().round + 1
            }),
            // Success is owed: when this producer leads the next height, the
            // round counter sits at that height, the validator set is
            // duplicate-free, the drain yields work, and execution
            // completes, a block is committed.
            ({
                &&& spec_leader(old(consensus).model().validators, (old(chain)@.len()) as u64)
                    == self.spec_proposer()
                &&& old(consensus).model().round == old(chain)@.len() as u64
                &&& old(consensus).model().validators.no_duplicates()
                &&& spec_drain(old(mempool)@, self.spec_max_txs() as int).0.len() > 0
                &&& crate::executor::spec_execute_block(
                    txs_of(spec_drain(old(mempool)@, self.spec_max_txs() as int).0),
                    old(state).accounts(),
                    old(state).code(),
                    old(state).storage(),
                ) matches BlockOutcome::Done(_)
            }) ==> (r matches Some(_)),
            // On any failure after draining, the state is back to the old
            // one and the drained transactions were reinserted.
            (r matches None && spec_leader(
                old(consensus).model().validators,
                (old(chain)@.len()) as u64,
            ) == self.spec_proposer()) ==> ({
                &&& final(state).accounts() == old(state).accounts()
                &&& final(state).code() == old(state).code()
                &&& final(state).storage() == old(state).storage()
                &&& final(chain)@ == old(chain)@
                &&& final(mempool)@ == spec_reinsert(
                    spec_drain(old(mempool)@, self.spec_max_txs() as int).1,
                    spec_drain(old(mempool)@, self.spec_max_txs() as int).0,
                )
            }),
    {
        let next_height = chain.height() + 1;
        let leader = consensus.leader(next_height);
        if !crate::types::id_eq(&leader, &self.proposer) {
            return None;
        }
        let drained = mempool.drain_for_block(self.max_txs_per_block);
        let ghost drained0 = drained@;
        if drained.len() == 0 {
            proof {
                assert(spec_reinsert(mempool@, drained@) == mempool@);
            }
            return None;
        }
        // Split the drained entries into transactions and signatures, by
        // move, so they can be recombined exactly on failure.
        let mut rest = drained;
        let mut txs: Vec<Transaction> = Vec::new();
        let mut sigs: Vec<crate::signature::Signature> = Vec::new();
        while rest.len() > 0
            invariant
                txs@.len() == sigs@.len(),
                txs@.len() + rest@.len() == drained0.len(),
                forall|j: int|
                    0 <= j < txs@.len() ==> #[trigger] txs@[j] == drained0[j].tx && sigs@[j]
                        == drained0[j].signature,
                forall|j: int|
                    0 <= j < rest@.len() ==> #[trigger] rest@[j] == drained0[txs@.len() + j],
            decreases rest@.len(),
        {
            let s = rest.remove(0);
            txs.push(s.tx);
            sigs.push(s.signature);
        }
        proof {
            assert(txs@ =~= txs_of(drained0));
        }
        let parent_hash = chain.parent_hash();
        let checkpoint = state.checkpoint();
        match executor.execute_block(&txs, state) {
            Ok(_) => {},
            Err(_) => {
                state.revert(checkpoint);
                let rebuilt = recombine(txs, sigs);
                proof {
                    assert(rebuilt@ =~= drained0);
                }
                mempool.reinsert(rebuilt);
                return None;
            },
        }
        credit_reward(state, &self.proposer, next_height);
        let state_root = state.state_root();
        let txr = tx_root(&txs);
        let header = BlockHeader {
            parent_hash,
            height: next_height,
            timestamp: now_secs,
            proposer: self.proposer,
            tx_root: txr,
            state_root,
        };
        let block = Block { header, transactions: txs };
        // The engine only reads the header of the pending block, so it is
        // proposed over a transaction-free body carrying the same header.
        let shell = Block { header, transactions: Vec::new() };
        let ghost shellv = shell;
        match consensus.propose_and_commit(shell) {
            Ok(hash) => {
                match chain.append(block) {
                    Ok(_) => Some(hash),
                    Err(_) => {
                        proof {
                            assert(false);
                        }
                        None
                    },
                }
            },
            Err(_) => {
                proof {
                    // Under the success-owed hypotheses the proposal cannot
                    // fail, and with a duplicate-free validator set the
                    // local voting always reaches quorum; this arm is then
                    // unreachable.
                    let m = old(consensus).model();
                    if m.round == old(chain)@.len() as u64 && spec_leader(
                        m.validators,
                        (old(chain)@.len()) as u64,
                    ) == self.spec_proposer() && m.validators.no_duplicates() {
                        old(consensus).lemma_wf_nonempty();
                        let idx = m.round as int % m.validators.len() as int;
                        assert(m.validators.contains(m.validators[idx]));
                        assert(crate::consensus::spec_propose(m, shellv).1 matches Ok(_));
                        assert(false);
                    }
                }
                state.revert(checkpoint);
                let rebuilt = recombine(block.transactions, sigs);
                proof {
                    assert(rebuilt@ =~= drained0);
                }
                mempool.reinsert(rebuilt);
                None
            },
        }
    }
}

/// Recombine transactions and their signatures into signed transactions.
fn recombine(txs: Vec<Transaction>, sigs: Vec<crate::signature::Signature>) -> (r: Vec<
    crate::signature::SignedTransaction,
>)
    requires
        txs@.len() == sigs@.len(),
    ensures
        r@.len() == txs@.len(),
        forall|j: int|
            0 <= j < r@.len() ==> (#[trigger] r@[j]).tx == txs@[j] && r@[j].signature == sigs@[j],
{
    let ghost txs0 = txs@;
    let mut txs = txs;
    let mut out: Vec<crate::signature::SignedTransaction> = Vec::new();
    let mut k: usize = 0;
    while txs.len() > 0
        invariant
            out@.len() + txs@.len() == txs0.len(),
            out@.len() <= sigs@.len(),
            txs0.len() == sigs@.len(),
            forall|j: int|
                0 <= j < out@.len() ==> (#[trigger] out@[j]).tx == txs0[j] && out@[j].signature
                    == sigs@[j],
            forall|j: int| 0 <= j < txs@.len() ==> #[trigger] txs@[j] == txs0[out@.len() + j],
        decreases txs@.len(),
    {
        let idx = out.len();
        let t = txs.remove(0);
        out.push(crate::signature::SignedTransaction { tx: t, signature: sigs[idx] });
    }
    out
}

} // verus!
