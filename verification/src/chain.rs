//! The chain index: the committed blocks in height order, with the genesis
//! at height zero, each block chained to its parent by hash.

use vstd::prelude::*;

use crate::codec::spec_block_hash;
use crate::hash::{bytes32_eq, Digest};
use crate::types::{AccountId, Block, BlockHeader};

verus! {

/// Why an append was refused.
#[derive(Clone, Copy, Debug, PartialEq, Eq, Structural)]
pub enum ChainError {
    /// The block's parent hash is not the current tip's hash.
    BlockNotChained,
    /// The block's height is not one above the tip.
    InvalidHeight,
}

/// The chain: committed blocks, height `i` at position `i`, with their
/// hashes.
pub struct ChainState {
    blocks: Vec<Block>,
    hashes: Vec<Digest>,
}

impl ChainState {
    /// The committed blocks, in height order.
    pub closed spec fn view(&self) -> Seq<Block> {
        self.blocks@
    }

    /// Well-formed: nonempty, heights consecutive from zero, stored hashes
    /// correct, and every block chained to its predecessor.
    pub closed spec fn wf(&self) -> bool {
        &&& self.blocks@.len() >= 1
        &&& self.hashes@.len() == self.blocks@.len()
        &&& forall|i: int|
            0 <= i < self.blocks@.len() ==> (#[trigger] self.blocks@[i]).header.height == i
        &&& forall|i: int|
            0 <= i < self.blocks@.len() ==> (#[trigger] self.hashes@[i]).0@ == spec_block_hash(
                self.blocks@[i].header,
            )
        &&& forall|i: int|
            1 <= i < self.blocks@.len() ==> (#[trigger] self.blocks@[i]).header.parent_hash.0@
                == spec_block_hash(self.blocks@[i - 1].header)
    }

    /// The genesis block for a proposer: height zero, zero hashes, no
    /// transactions.
    pub fn genesis(proposer: AccountId) -> (r: Block)
        ensures
            r.header.height == 0,
            r.header.proposer == proposer,
            r.header.parent_hash.0@ == crate::hash::zero_hash_bytes(),
            r.header.timestamp == 0,
            r.header.tx_root.0@ == crate::hash::zero_hash_bytes(),
            r.header.state_root.0@ == crate::hash::zero_hash_bytes(),
            r.transactions@.len() == 0,
    {
        Block {
            header: BlockHeader {
                parent_hash: Digest::zero(),
                height: 0,
                timestamp: 0,
                proposer,
                tx_root: Digest::zero(),
                state_root: Digest::zero(),
            },
            transactions: Vec::new(),
        }
    }

    /// A chain holding only the genesis block for a proposer.
    pub fn new(genesis_proposer: AccountId) -> (r: Self)
        ensures
            r.wf(),
            r@.len() == 1,
            r@[0].header.height == 0,
            r@[0].header.proposer == genesis_proposer,
            r@[0].header.parent_hash.0@ == crate::hash::zero_hash_bytes(),
            r@[0].header.tx_root.0@ == crate::hash::zero_hash_bytes(),
            r@[0].header.state_root.0@ == crate::hash::zero_hash_bytes(),
            r@[0].transactions@.len() == 0,
    {
        let g = ChainState::genesis(genesis_proposer);
        ChainState::from_genesis(g)
    }

    /// A chain from an explicit genesis block of height zero.
    pub fn from_genesis(genesis: Block) -> (r: Self)
        requires
            genesis.header.height == 0,
        ensures
            r.wf(),
            r@.len() == 1,
            r@[0] == genesis,
    {
        let h = genesis.hash();
        let mut blocks: Vec<Block> = Vec::new();
        let mut hashes: Vec<Digest> = Vec::new();
        blocks.push(genesis);
        hashes.push(h);
        ChainState { blocks, hashes }
    }

    /// The tip's height.
    pub fn height(&self) -> (r: u64)
        requires
            self.wf(),
        ensures
            r == self@.len() - 1,
            r == self@[self@.len() - 1].header.height,
    {
        let n = self.blocks.len();
        self.blocks[n - 1].header.height
    }

    /// The tip's hash.
    pub fn latest_hash(&self) -> (r: Digest)
        requires
            self.wf(),
        ensures
            r.0@ == spec_block_hash(self@[self@.len() - 1].header),
    {
        let n = self.hashes.len();
        self.hashes[n - 1]
    }

    /// The tip's hash, as the parent for the next block.
    pub fn parent_hash(&self) -> (r: Digest)
        requires
            self.wf(),
        ensures
            r.0@ == spec_block_hash(self@[self@.len() - 1].header),
    {
        self.latest_hash()
    }

    /// Append a committed block: it must carry the tip's hash as its parent
    /// and sit one above the tip.
    pub fn append(&mut self, block: Block) -> (r: Result<(), ChainError>)
        requires
            old(self).wf(),
        ensures
            final(self).wf(),
            ({
                let tip = old(self)@[old(self)@.len() - 1];
                if block.header.parent_hash.0@ != spec_block_hash(tip.header) {
                    r == Err::<(), ChainError>(ChainError::BlockNotChained) && final(self)@ == old(
                        self,
                    )@
                } else if block.header.height != old(self)@.len() {
                    r == Err::<(), ChainError>(ChainError::InvalidHeight) && final(self)@ == old(
                        self,
                    )@
                } else {
                    r == Ok::<(), ChainError>(()) && final(self)@ == old(self)@.push(block)
                }
            }),
    {
        let n = self.blocks.len();
        let tip_hash = self.hashes[n - 1];
        if !bytes32_eq(&block.header.parent_hash.0, &tip_hash.0) {
            return Err(ChainError::BlockNotChained);
        }
        if block.header.height != (n as u64) {
            return Err(ChainError::InvalidHeight);
        }
        let h = block.hash();
        self.blocks.push(block);
        self.hashes.push(h);
        Ok(())
    }

    /// The block at a height, if committed.
    pub fn get_block_by_height(&self, height: u64) -> (r: Option<&Block>)
        requires
            self.wf(),
        ensures
            match r {
                Some(b) => height < self@.len() && *b == self@[height as int],
                None => height >= self@.len(),
            },
    {
        if height < self.blocks.len() as u64 {
            Some(&self.blocks[height as usize])
        } else {
            None
        }
    }

    /// The first committed block carrying a hash, if any.
    pub fn get_block_by_hash(&self, hash: &Digest) -> (r: Option<&Block>)
        requires
            self.wf(),
        ensures
            match r {
                Some(b) => exists|i: int|
                    0 <= i < self@.len() && *b == self@[i] && spec_block_hash(
                        (#[trigger] self@[i]).header,
                    ) == hash.0@,
                None => forall|i: int|
                    0 <= i < self@.len() ==> spec_block_hash((#[trigger] self@[i]).header)
                        != hash.0@,
            },
    {
        let mut i: usize = 0;
        let n = self.hashes.len();
        while i < n
            invariant
                0 <= i <= n,
                self.wf(),
                n == self@.len(),
                forall|j: int|
                    0 <= j < i ==> spec_block_hash((#[trigger] self@[j]).header) != hash.0@,
            decreases n - i,
        {
            if bytes32_eq(&self.hashes[i].0, &hash.0) {
                return Some(&self.blocks[i]);
            }
            i = i + 1;
        }
        None
    }
}

} // verus!
