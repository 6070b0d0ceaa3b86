//! Core data structures: account identifiers and states, access lists,
//! transactions, blocks, and the transaction Merkle root.

use vstd::prelude::*;

use crate::hash::{bytes32_eq, Digest};

verus! {

/// Account identifier: 32 bytes, semantically an Ed25519 public key.
#[derive(Clone, Copy, Eq, Hash, Debug)]
pub struct AccountId(pub [u8; 32]);

impl PartialEq for AccountId {
    fn eq(&self, o: &AccountId) -> (r: bool) {
        bytes32_eq(&self.0, &o.0)
    }
}

impl vstd::std_specs::cmp::PartialEqSpecImpl for AccountId {
    open spec fn obeys_eq_spec() -> bool {
        true
    }

    open spec fn eq_spec(&self, o: &AccountId) -> bool {
        self.0@ == o.0@
    }
}

/// Two account identifiers with the same bytes are the same value.
pub proof fn lemma_id_bytes_eq(a: AccountId, b: AccountId)
    requires
        a.0@ == b.0@,
    ensures
        a == b,
{
    assert(a.0 == b.0);
}

/// Equality test on account identifiers, byte for byte.
pub fn id_eq(a: &AccountId, b: &AccountId) -> (r: bool)
    ensures
        r == (*a == *b),
{
    let r = bytes32_eq(&a.0, &b.0);
    proof {
        if a.0@ == b.0@ {
            lemma_id_bytes_eq(*a, *b);
        }
    }
    r
}

impl AccountId {
    /// Wrap 32 raw bytes.
    pub fn from_bytes(bytes: [u8; 32]) -> (r: Self)
        ensures
            r.0 == bytes,
    {
        AccountId(bytes)
    }

    /// Read an identifier from a 32-byte slice; any other length is rejected.
    pub fn from_slice(bytes: &[u8]) -> (r: Option<Self>)
        ensures
            match r {
                Some(id) => bytes@.len() == 32 && id.0@ == bytes@,
                None => bytes@.len() != 32,
            },
    {
        match Digest::from_slice(bytes) {
            Some(h) => Some(AccountId(h.0)),
            None => None,
        }
    }
}

/// Account state: spendable balance, next expected nonce, and bonded stake.
#[derive(Clone, Copy, Debug, PartialEq, Eq, Structural)]
pub struct AccountState {
    pub balance: u128,
    pub nonce: u64,
    /// Staked balance, bonded for validation.
    pub stake: u128,
}

impl Default for AccountState {
    /// A fresh account: everything zero.
    fn default() -> (r: Self)
        ensures
            r == (AccountState { balance: 0, nonce: 0, stake: 0 }),
    {
        AccountState { balance: 0, nonce: 0, stake: 0 }
    }
}

/// Full account: identifier plus state.
#[derive(Clone, Copy, Debug, PartialEq, Eq)]
pub struct Account {
    pub id: AccountId,
    pub state: AccountState,
}

/// Access list: the accounts a transaction declares it reads and writes.
/// Two transactions whose lists are disjoint may execute in parallel.
#[derive(Clone, Debug, PartialEq, Eq)]
pub struct AccessList {
    pub read: Vec<AccountId>,
    pub write: Vec<AccountId>,
}

impl AccessList {
    /// True when this list names `id`, in its read set or its write set.
    pub open spec fn spec_touches(self, id: AccountId) -> bool {
        self.read@.contains(id) || self.write@.contains(id)
    }

    /// True when the two lists share an account: the scheduling conflict test.
    /// Reads count as conflicts too.
    pub open spec fn spec_conflicts(self, other: AccessList) -> bool {
        exists|id: AccountId| self.spec_touches(id) && other.spec_touches(id)
    }

    pub fn new(read: Vec<AccountId>, write: Vec<AccountId>) -> (r: Self)
        ensures
            r.read == read,
            r.write == write,
    {
        AccessList { read, write }
    }

    /// All accounts touched: the read set followed by the write set.
    pub fn all(&self) -> (r: Vec<AccountId>)
        ensures
            r@ == self.read@ + self.write@,
            forall|id: AccountId| self.spec_touches(id) <==> r@.contains(id),
    {
        let mut out: Vec<AccountId> = Vec::new();
        let mut i: usize = 0;
        while i < self.read.len()
            invariant
                0 <= i <= self.read@.len(),
                out@ == self.read@.take(i as int),
            decreases self.read@.len() - i,
        {
            out.push(self.read[i]);
            proof {
                assert(self.read@.take(i as int).push(self.read@[i as int]) =~= self.read@.take(
                    i as int + 1,
                ));
            }
            i = i + 1;
        }
        proof {
            assert(self.read@.take(self.read@.len() as int) =~= self.read@);
        }
        let mut j: usize = 0;
        while j < self.write.len()
            invariant
                0 <= j <= self.write@.len(),
                out@ == self.read@ + self.write@.take(j as int),
            decreases self.write@.len() - j,
        {
            out.push(self.write[j]);
            proof {
                assert((self.read@ + self.write@.take(j as int)).push(self.write@[j as int])
                    =~= self.read@ + self.write@.take(j as int + 1));
            }
            j = j + 1;
        }
        proof {
            assert(self.read@ + self.write@.take(self.write@.len() as int) =~= self.read@
                + self.write@);
            assert forall|id: AccountId| self.spec_touches(id) <==> (self.read@
                + self.write@).contains(id) by {
            if self.read@.contains(id) {
                let k = choose|k: int| 0 <= k < self.read@.len() && self.read@[k] == id;
                assert((self.read@ + self.write@)[k] == id);
            }
            if self.write@.contains(id) {
                let k = choose|k: int| 0 <= k < self.write@.len() && self.write@[k] == id;
                assert((self.read@ + self.write@)[self.read@.len() + k] == id);
            }
            if (self.read@ + self.write@).contains(id) {
                let k = choose|k: int|
                    0 <= k < (self.read@ + self.write@).len() && (self.read@ + self.write@)[k]
                        == id;
                if k < self.read@.len() {
                    assert(self.read@[k] == id);
                } else {
                    assert(self.write@[k - self.read@.len()] == id);
                }
            }
            }
        }
        out
    }

    /// True when this access list overlaps the other: they share at least one
    /// account, counting reads and writes alike.
    pub fn conflicts_with(&self, other: &AccessList) -> (r: bool)
        ensures
            r == self.spec_conflicts(*other),
    {
        let mine = self.all();
        let theirs = other.all();
        let mut i: usize = 0;
        while i < mine.len()
            invariant
                0 <= i <= mine@.len(),
                forall|id: AccountId|
                    self.spec_touches(id) <==> mine@.contains(id),
                forall|id: AccountId|
                    other.spec_touches(id) <==> theirs@.contains(id),
                forall|k: int| 0 <= k < i ==> !theirs@.contains(mine@[k]),
            decreases mine@.len() - i,
        {
            if contains_id(&theirs, &mine[i]) {
                proof {
                    assert(mine@.contains(mine@[i as int]));
                    assert(self.spec_touches(mine@[i as int]) && other.spec_touches(
                        mine@[i as int],
                    ));
                }
                return true;
            }
            i = i + 1;
        }
        proof {
            if self.spec_conflicts(*other) {
                let id = choose|id: AccountId|
                    self.spec_touches(id) && other.spec_touches(id);
                let k = choose|k: int| 0 <= k < mine@.len() && mine@[k] == id;
                assert(!theirs@.contains(mine@[k]));
            }
        }
        false
    }
}

/// Membership test for an account identifier in a vector.
pub fn contains_id(v: &Vec<AccountId>, id: &AccountId) -> (r: bool)
    ensures
        r == v@.contains(*id),
{
    let mut i: usize = 0;
    while i < v.len()
        invariant
            0 <= i <= v@.len(),
            forall|j: int| 0 <= j < i ==> v@[j] != *id,
        decreases v@.len() - i,
    {
        if id_eq(&v[i], id) {
            return true;
        }
        i = i + 1;
    }
    false
}

/// What a transaction does, by kind.
#[derive(Clone, Debug, PartialEq, Eq)]
pub enum TransactionPayload {
    /// Move `amount` to `to`, creating the account if absent.
    Transfer { to: AccountId, amount: u128 },
    /// Run the bytecode stored at `contract` with the given calldata.
    ContractCall { contract: AccountId, calldata: Vec<u8> },
    /// Store new bytecode under a derived contract address.
    ContractDeploy { bytecode: Vec<u8> },
    /// Move `amount` from balance to stake.
    Bond { amount: u128 },
    /// Move `amount` from stake back to balance.
    Unbond { amount: u128 },
}

/// The unit of execution: sender, nonce, payload, and declared access list.
#[derive(Clone, Debug, PartialEq, Eq)]
pub struct Transaction {
    pub nonce: u64,
    pub sender: AccountId,
    pub payload: TransactionPayload,
    pub access_list: AccessList,
}

/// Block header. Transactions contribute only through `tx_root`.
#[derive(Clone, Copy, Debug, PartialEq, Eq)]
pub struct BlockHeader {
    pub parent_hash: Digest,
    pub height: u64,
    pub timestamp: u64,
    pub proposer: AccountId,
    pub tx_root: Digest,
    pub state_root: Digest,
}

/// Block: header plus the ordered transactions it commits.
#[derive(Clone, Debug, PartialEq, Eq)]
pub struct Block {
    pub header: BlockHeader,
    pub transactions: Vec<Transaction>,
}


} // verus!
