//! The state store: the account map, contract code, and contract storage,
//! with checkpoints and deep snapshots. Each component is modelled as a
//! finite map.

use vstd::prelude::*;

use crate::accounts::{table_map, AccountTable};
use crate::hash::bytes32_eq;
use crate::types::{id_eq, Account, AccountId, AccountState};

verus! {

/// Contract code entries: identifier and bytecode.
pub struct CodeEntry {
    pub id: AccountId,
    pub code: Vec<u8>,
}

/// No two code entries share an identifier.
pub open spec fn code_ids_distinct(s: Seq<CodeEntry>) -> bool {
    forall|i: int, j: int| 0 <= i < j < s.len() ==> s[i].id != s[j].id
}

/// The code map an entry sequence denotes.
pub open spec fn code_map(s: Seq<CodeEntry>) -> Map<AccountId, Seq<u8>>
    decreases s.len(),
{
    if s.len() == 0 {
        Map::empty()
    } else {
        code_map(s.drop_last()).insert(s.last().id, s.last().code@)
    }
}

proof fn lemma_code_contains(s: Seq<CodeEntry>, id: AccountId)
    ensures
        code_map(s).contains_key(id) <==> exists|i: int| 0 <= i < s.len() && s[i].id == id,
    decreases s.len(),
{
    if s.len() > 0 {
        lemma_code_contains(s.drop_last(), id);
        if id == s.last().id {
            assert(s[s.len() - 1].id == id);
        } else {
            if exists|i: int| 0 <= i < s.drop_last().len() && s.drop_last()[i].id == id {
                let i = choose|i: int| 0 <= i < s.drop_last().len() && s.drop_last()[i].id == id;
                assert(s[i].id == id);
            }
            if exists|i: int| 0 <= i < s.len() && s[i].id == id {
                let i = choose|i: int| 0 <= i < s.len() && s[i].id == id;
                assert(i < s.len() - 1);
                assert(s.drop_last()[i].id == id);
            }
        }
    }
}

proof fn lemma_code_at(s: Seq<CodeEntry>, i: int)
    requires
        code_ids_distinct(s),
        0 <= i < s.len(),
    ensures
        code_map(s).contains_key(s[i].id),
        code_map(s)[s[i].id] == s[i].code@,
    decreases s.len(),
{
    if i < s.len() - 1 {
        assert(code_ids_distinct(s.drop_last())) by {
            assert(forall|a: int, b: int|
                0 <= a < b < s.drop_last().len() ==> s.drop_last()[a] == s[a] && s.drop_last()[b]
                    == s[b]);
        }
        assert(s.drop_last()[i] == s[i]);
        lemma_code_at(s.drop_last(), i);
        assert(s[i].id != s.last().id);
    }
}

proof fn lemma_code_update(s: Seq<CodeEntry>, i: int, a: CodeEntry)
    requires
        code_ids_distinct(s),
        0 <= i < s.len(),
        a.id == s[i].id,
    ensures
        code_ids_distinct(s.update(i, a)),
        code_map(s.update(i, a)) == code_map(s).insert(a.id, a.code@),
    decreases s.len(),
{
    assert(code_ids_distinct(s.update(i, a))) by {
        assert(forall|p: int, q: int|
            0 <= p < q < s.len() ==> s.update(i, a)[p].id == (if p == i {
                a.id
            } else {
                s[p].id
            }) && s.update(i, a)[q].id == (if q == i {
                a.id
            } else {
                s[q].id
            }));
    }
    if i == s.len() - 1 {
        assert(s.update(i, a).drop_last() =~= s.drop_last());
        assert(s.update(i, a).last() == a);
        assert(code_map(s.drop_last()).insert(s.last().id, s.last().code@).insert(a.id, a.code@)
            =~= code_map(s.drop_last()).insert(a.id, a.code@));
    } else {
        assert(code_ids_distinct(s.drop_last())) by {
            assert(forall|p: int, q: int|
                0 <= p < q < s.drop_last().len() ==> s.drop_last()[p] == s[p] && s.drop_last()[q]
                    == s[q]);
        }
        assert(s.drop_last()[i] == s[i]);
        lemma_code_update(s.drop_last(), i, a);
        assert(s.update(i, a).drop_last() =~= s.drop_last().update(i, a));
        assert(s.update(i, a).last() == s.last());
        assert(s.last().id != a.id);
        assert(code_map(s.drop_last()).insert(a.id, a.code@).insert(s.last().id, s.last().code@)
            =~= code_map(s.drop_last()).insert(s.last().id, s.last().code@).insert(
            a.id,
            a.code@,
        ));
    }
}

/// Contract storage entries: contract, 32-byte key, 32-byte value.
pub struct StorageEntry {
    pub contract: AccountId,
    pub key: [u8; 32],
    pub value: [u8; 32],
}

/// The (contract, key) pair a storage entry is stored under.
pub open spec fn storage_key(e: StorageEntry) -> (AccountId, Seq<u8>) {
    (e.contract, e.key@)
}

/// No two storage entries share a (contract, key) pair.
pub open spec fn storage_keys_distinct(s: Seq<StorageEntry>) -> bool {
    forall|i: int, j: int| 0 <= i < j < s.len() ==> storage_key(s[i]) != storage_key(s[j])
}

/// The storage map an entry sequence denotes.
pub open spec fn storage_map(s: Seq<StorageEntry>) -> Map<(AccountId, Seq<u8>), Seq<u8>>
    decreases s.len(),
{
    if s.len() == 0 {
        Map::empty()
    } else {
        storage_map(s.drop_last()).insert(storage_key(s.last()), s.last().value@)
    }
}

proof fn lemma_storage_contains(s: Seq<StorageEntry>, k: (AccountId, Seq<u8>))
    ensures
        storage_map(s).contains_key(k) <==> exists|i: int|
            0 <= i < s.len() && storage_key(s[i]) == k,
    decreases s.len(),
{
    if s.len() > 0 {
        lemma_storage_contains(s.drop_last(), k);
        if k == storage_key(s.last()) {
            assert(storage_key(s[s.len() - 1]) == k);
        } else {
            if exists|i: int| 0 <= i < s.drop_last().len() && storage_key(s.drop_last()[i]) == k {
                let i = choose|i: int|
                    0 <= i < s.drop_last().len() && storage_key(s.drop_last()[i]) == k;
                assert(storage_key(s[i]) == k);
            }
            if exists|i: int| 0 <= i < s.len() && storage_key(s[i]) == k {
                let i = choose|i: int| 0 <= i < s.len() && storage_key(s[i]) == k;
                assert(i < s.len() - 1);
                assert(storage_key(s.drop_last()[i]) == k);
            }
        }
    }
}

proof fn lemma_storage_at(s: Seq<StorageEntry>, i: int)
    requires
        storage_keys_distinct(s),
        0 <= i < s.len(),
    ensures
        storage_map(s).contains_key(storage_key(s[i])),
        storage_map(s)[storage_key(s[i])] == s[i].value@,
    decreases s.len(),
{
    if i < s.len() - 1 {
        assert(storage_keys_distinct(s.drop_last())) by {
            assert(forall|a: int, b: int|
                0 <= a < b < s.drop_last().len() ==> s.drop_last()[a] == s[a] && s.drop_last()[b]
                    == s[b]);
        }
        assert(s.drop_last()[i] == s[i]);
        lemma_storage_at(s.drop_last(), i);
        assert(storage_key(s[i]) != storage_key(s.last()));
    }
}

proof fn lemma_storage_update(s: Seq<StorageEntry>, i: int, a: StorageEntry)
    requires
        storage_keys_distinct(s),
        0 <= i < s.len(),
        storage_key(a) == storage_key(s[i]),
    ensures
        storage_keys_distinct(s.update(i, a)),
        storage_map(s.update(i, a)) == storage_map(s).insert(storage_key(a), a.value@),
    decreases s.len(),
{
    assert(storage_keys_distinct(s.update(i, a))) by {
        assert(forall|p: int, q: int|
            0 <= p < q < s.len() ==> storage_key(s.update(i, a)[p]) == (if p == i {
                storage_key(a)
            } else {
                storage_key(s[p])
            }) && storage_key(s.update(i, a)[q]) == (if q == i {
                storage_key(a)
            } else {
                storage_key(s[q])
            }));
    }
    if i == s.len() - 1 {
        assert(s.update(i, a).drop_last() =~= s.drop_last());
        assert(s.update(i, a).last() == a);
        assert(storage_map(s.drop_last()).insert(storage_key(s.last()), s.last().value@).insert(
            storage_key(a),
            a.value@,
        ) =~= storage_map(s.drop_last()).insert(storage_key(a), a.value@));
    } else {
        assert(storage_keys_distinct(s.drop_last())) by {
            assert(forall|p: int, q: int|
                0 <= p < q < s.drop_last().len() ==> s.drop_last()[p] == s[p] && s.drop_last()[q]
                    == s[q]);
        }
        assert(s.drop_last()[i] == s[i]);
        lemma_storage_update(s.drop_last(), i, a);
        assert(s.update(i, a).drop_last() =~= s.drop_last().update(i, a));
        assert(s.update(i, a).last() == s.last());
        assert(storage_key(s.last()) != storage_key(a));
        assert(storage_map(s.drop_last()).insert(storage_key(a), a.value@).insert(
            storage_key(s.last()),
            s.last().value@,
        ) =~= storage_map(s.drop_last()).insert(storage_key(s.last()), s.last().value@).insert(
            storage_key(a),
            a.value@,
        ));
    }
}

/// Checkpoint: a full logical copy of the state, used to revert a failed
/// production attempt.
pub struct StateCheckpoint {
    accounts: AccountTable,
    contract_code: Vec<CodeEntry>,
    contract_storage: Vec<StorageEntry>,
}

impl StateCheckpoint {
    /// The account map captured by this checkpoint.
    pub closed spec fn accounts(&self) -> Map<AccountId, AccountState> {
        self.accounts@
    }

    /// The code map captured by this checkpoint.
    pub closed spec fn code(&self) -> Map<AccountId, Seq<u8>> {
        code_map(self.contract_code@)
    }

    /// The storage map captured by this checkpoint.
    pub closed spec fn storage(&self) -> Map<(AccountId, Seq<u8>), Seq<u8>> {
        storage_map(self.contract_storage@)
    }

    /// Well-formed: each component has distinct keys.
    pub closed spec fn wf(&self) -> bool {
        self.accounts.wf() && code_ids_distinct(self.contract_code@) && storage_keys_distinct(
            self.contract_storage@,
        )
    }
}

/// The state store: accounts, contract code, and contract storage.
pub struct StateStore {
    accounts: AccountTable,
    contract_code: Vec<CodeEntry>,
    contract_storage: Vec<StorageEntry>,
}

impl StateStore {
    /// The account map.
    pub closed spec fn accounts(&self) -> Map<AccountId, AccountState> {
        self.accounts@
    }

    /// The account table's entry sequence, in insertion order.
    pub closed spec fn account_entries(&self) -> Seq<Account> {
        self.accounts.spec_entries()
    }

    /// The contract code map.
    pub closed spec fn code(&self) -> Map<AccountId, Seq<u8>> {
        code_map(self.contract_code@)
    }

    /// The contract storage map.
    pub closed spec fn storage(&self) -> Map<(AccountId, Seq<u8>), Seq<u8>> {
        storage_map(self.contract_storage@)
    }

    /// Well-formed: each component has distinct keys.
    pub closed spec fn wf(&self) -> bool {
        self.accounts.wf() && code_ids_distinct(self.contract_code@) && storage_keys_distinct(
            self.contract_storage@,
        )
    }

    /// An empty store.
    pub fn new() -> (r: Self)
        ensures
            r.wf(),
            r.accounts() == Map::<AccountId, AccountState>::empty(),
            r.code() == Map::<AccountId, Seq<u8>>::empty(),
            r.storage() == Map::<(AccountId, Seq<u8>), Seq<u8>>::empty(),
    {
        StateStore {
            accounts: AccountTable::new(),
            contract_code: Vec::new(),
            contract_storage: Vec::new(),
        }
    }

    /// Read-only account lookup.
    pub fn get(&self, id: &AccountId) -> (r: Option<&AccountState>)
        requires
            self.wf(),
        ensures
            match r {
                Some(st) => self.accounts().contains_key(*id) && *st == self.accounts()[*id],
                None => !self.accounts().contains_key(*id),
            },
    {
        self.accounts.get(id)
    }

    /// Mutable handle for an existing account; does not create.
    pub fn get_mut(&mut self, id: &AccountId) -> (r: Option<&mut AccountState>)
        requires
            old(self).wf(),
        ensures
            match r {
                Some(p) => {
                    &&& old(self).accounts().contains_key(*id)
                    &&& *p == old(self).accounts()[*id]
                    &&& final(self).wf()
                    &&& final(self).accounts() == old(self).accounts().insert(*id, *final(p))
                    &&& final(self).code() == old(self).code()
                    &&& final(self).storage() == old(self).storage()
                },
                None => !old(self).accounts().contains_key(*id) && *final(self) == *old(self),
            },
    {
        self.accounts.get_mut(id)
    }

    /// Upsert an account.
    pub fn insert(&mut self, account: Account)
        requires
            old(self).wf(),
        ensures
            final(self).wf(),
            final(self).accounts() == old(self).accounts().insert(account.id, account.state),
            final(self).code() == old(self).code(),
            final(self).storage() == old(self).storage(),
    {
        self.accounts.set(account.id, account.state);
    }

    /// Write-through merge of one account from a parallel execution view.
    pub fn merge_account(&mut self, id: AccountId, state: AccountState)
        requires
            old(self).wf(),
        ensures
            final(self).wf(),
            final(self).accounts() == old(self).accounts().insert(id, state),
            final(self).code() == old(self).code(),
            final(self).storage() == old(self).storage(),
    {
        self.accounts.set(id, state);
    }

    /// Store bytecode under a contract account.
    pub fn set_contract_code(&mut self, account: AccountId, bytecode: Vec<u8>)
        requires
            old(self).wf(),
        ensures
            final(self).wf(),
            final(self).accounts() == old(self).accounts(),
            final(self).code() == old(self).code().insert(account, bytecode@),
            final(self).storage() == old(self).storage(),
    {
        let mut i: usize = 0;
        while i < self.contract_code.len()
            invariant
                self.wf(),
                *self == *old(self),
                0 <= i <= self.contract_code@.len(),
                forall|j: int| 0 <= j < i ==> self.contract_code@[j].id != account,
            decreases self.contract_code@.len() - i,
        {
            if id_eq(&self.contract_code[i].id, &account) {
                proof {
                    lemma_code_update(
                        self.contract_code@,
                        i as int,
                        CodeEntry { id: account, code: bytecode },
                    );
                }
                self.contract_code[i] = CodeEntry { id: account, code: bytecode };
                return ;
            }
            i = i + 1;
        }
        proof {
            let s = self.contract_code@;
            let e = CodeEntry { id: account, code: bytecode };
            assert(s.push(e).drop_last() =~= s);
            assert(forall|p: int, q: int|
                0 <= p < q < s.push(e).len() ==> s.push(e)[p].id == (if p < s.len() {
                    s[p].id
                } else {
                    e.id
                }) && s.push(e)[q].id == (if q < s.len() {
                    s[q].id
                } else {
                    e.id
                }));
        }
        self.contract_code.push(CodeEntry { id: account, code: bytecode });
    }

    /// Read contract bytecode.
    pub fn get_contract_code(&self, account: &AccountId) -> (r: Option<&Vec<u8>>)
        requires
            self.wf(),
        ensures
            match r {
                Some(code) => self.code().contains_key(*account) && code@ == self.code()[*account],
                None => !self.code().contains_key(*account),
            },
    {
        proof {
            lemma_code_contains(self.contract_code@, *account);
        }
        let mut i: usize = 0;
        while i < self.contract_code.len()
            invariant
                self.wf(),
                0 <= i <= self.contract_code@.len(),
                forall|j: int| 0 <= j < i ==> self.contract_code@[j].id != *account,
            decreases self.contract_code@.len() - i,
        {
            if id_eq(&self.contract_code[i].id, account) {
                proof {
                    lemma_code_at(self.contract_code@, i as int);
                }
                return Some(&self.contract_code[i].code);
            }
            i = i + 1;
        }
        None
    }

    /// Write-through merge of one contract storage cell.
    pub fn merge_contract_storage(&mut self, contract: AccountId, key: [u8; 32], value: [u8; 32])
        requires
            old(self).wf(),
        ensures
            final(self).wf(),
            final(self).accounts() == old(self).accounts(),
            final(self).code() == old(self).code(),
            final(self).storage() == old(self).storage().insert((contract, key@), value@),
    {
        let mut i: usize = 0;
        while i < self.contract_storage.len()
            invariant
                self.wf(),
                *self == *old(self),
                0 <= i <= self.contract_storage@.len(),
                forall|j: int|
                    0 <= j < i ==> storage_key(self.contract_storage@[j]) != (contract, key@),
            decreases self.contract_storage@.len() - i,
        {
            let e = &self.contract_storage[i];
            if id_eq(&e.contract, &contract) && bytes32_eq(&e.key, &key) {
                proof {
                    lemma_storage_update(
                        self.contract_storage@,
                        i as int,
                        StorageEntry { contract, key, value },
                    );
                }
                self.contract_storage[i] = StorageEntry { contract, key, value };
                return ;
            }
            i = i + 1;
        }
        proof {
            let s = self.contract_storage@;
            let e = StorageEntry { contract, key, value };
            assert(s.push(e).drop_last() =~= s);
            assert(forall|p: int, q: int|
                0 <= p < q < s.push(e).len() ==> storage_key(s.push(e)[p]) == (if p < s.len() {
                    storage_key(s[p])
                } else {
                    storage_key(e)
                }) && storage_key(s.push(e)[q]) == (if q < s.len() {
                    storage_key(s[q])
                } else {
                    storage_key(e)
                }));
        }
        self.contract_storage.push(StorageEntry { contract, key, value });
    }

    /// Read one contract storage cell; absent cells read as zero.
    pub fn storage_get(&self, contract: &AccountId, key: &[u8; 32]) -> (r: [u8; 32])
        requires
            self.wf(),
        ensures
            self.storage().contains_key((*contract, key@)) ==> r@ == self.storage()[(*contract, key@)],
            !self.storage().contains_key((*contract, key@)) ==> r@ == crate::hash::zero_hash_bytes(),
    {
        proof {
            lemma_storage_contains(self.contract_storage@, (*contract, key@));
        }
        let mut i: usize = 0;
        while i < self.contract_storage.len()
            invariant
                self.wf(),
                0 <= i <= self.contract_storage@.len(),
                forall|j: int|
                    0 <= j < i ==> storage_key(self.contract_storage@[j]) != (*contract, key@),
            decreases self.contract_storage@.len() - i,
        {
            let e = &self.contract_storage[i];
            if id_eq(&e.contract, contract) && bytes32_eq(&e.key, key) {
                proof {
                    lemma_storage_at(self.contract_storage@, i as int);
                }
                return self.contract_storage[i].value;
            }
            i = i + 1;
        }
        [0u8; 32]
    }

    /// An independent deep copy: same accounts, code, and storage.
    pub fn snapshot(&self) -> (r: StateStore)
        requires
            self.wf(),
        ensures
            r.wf(),
            r.accounts() == self.accounts(),
            r.account_entries() == self.account_entries(),
            r.code() == self.code(),
            r.storage() == self.storage(),
    {
        StateStore {
            accounts: self.accounts.duplicate(),
            contract_code: self.dup_code(),
            contract_storage: self.dup_storage(),
        }
    }

    fn dup_code(&self) -> (r: Vec<CodeEntry>)
        ensures
            r@.len() == self.contract_code@.len(),
            forall|i: int|
                0 <= i < r@.len() ==> r@[i].id == self.contract_code@[i].id && r@[i].code@
                    == self.contract_code@[i].code@,
            code_map(r@) == code_map(self.contract_code@),
            code_ids_distinct(self.contract_code@) ==> code_ids_distinct(r@),
    {
        let mut out: Vec<CodeEntry> = Vec::new();
        let mut i: usize = 0;
        while i < self.contract_code.len()
            invariant
                0 <= i <= self.contract_code@.len(),
                out@.len() == i,
                forall|j: int|
                    0 <= j < i ==> out@[j].id == self.contract_code@[j].id && out@[j].code@
                        == self.contract_code@[j].code@,
            decreases self.contract_code@.len() - i,
        {
            let e = &self.contract_code[i];
            out.push(CodeEntry { id: e.id, code: e.code.clone() });
            i = i + 1;
        }
        proof {
            lemma_code_map_pointwise(out@, self.contract_code@);
        }
        out
    }

    fn dup_storage(&self) -> (r: Vec<StorageEntry>)
        ensures
            r@ == self.contract_storage@,
    {
        let mut out: Vec<StorageEntry> = Vec::new();
        let mut i: usize = 0;
        while i < self.contract_storage.len()
            invariant
                0 <= i <= self.contract_storage@.len(),
                out@ == self.contract_storage@.take(i as int),
            decreases self.contract_storage@.len() - i,
        {
            let e = &self.contract_storage[i];
            out.push(StorageEntry { contract: e.contract, key: e.key, value: e.value });
            proof {
                assert(self.contract_storage@[i as int] == (StorageEntry {
                    contract: self.contract_storage@[i as int].contract,
                    key: self.contract_storage@[i as int].key,
                    value: self.contract_storage@[i as int].value,
                }));
                assert(self.contract_storage@.take(i as int).push(
                    self.contract_storage@[i as int],
                ) =~= self.contract_storage@.take(i as int + 1));
            }
            i = i + 1;
        }
        proof {
            assert(self.contract_storage@.take(self.contract_storage@.len() as int)
                =~= self.contract_storage@);
        }
        out
    }

    /// Capture a checkpoint of the whole logical state.
    pub fn checkpoint(&self) -> (r: StateCheckpoint)
        requires
            self.wf(),
        ensures
            r.wf(),
            r.accounts() == self.accounts(),
            r.code() == self.code(),
            r.storage() == self.storage(),
    {
        StateCheckpoint {
            accounts: self.accounts.duplicate(),
            contract_code: self.dup_code(),
            contract_storage: self.dup_storage(),
        }
    }

    /// Restore the state captured by a checkpoint, discarding every change
    /// made since.
    pub fn revert(&mut self, cp: StateCheckpoint)
        requires
            cp.wf(),
        ensures
            final(self).wf(),
            final(self).accounts() == cp.accounts(),
            final(self).code() == cp.code(),
            final(self).storage() == cp.storage(),
    {
        self.accounts = cp.accounts;
        self.contract_code = cp.contract_code;
        self.contract_storage = cp.contract_storage;
    }
}

/// Two code entry sequences equal pointwise (id and code bytes) denote the
/// same map.
proof fn lemma_code_map_pointwise(a: Seq<CodeEntry>, b: Seq<CodeEntry>)
    requires
        a.len() == b.len(),
        forall|i: int| 0 <= i < a.len() ==> a[i].id == b[i].id && a[i].code@ == b[i].code@,
    ensures
        code_map(a) == code_map(b),
    decreases a.len(),
{
    if a.len() > 0 {
        assert(forall|i: int|
            0 <= i < a.drop_last().len() ==> a.drop_last()[i] == a[i] && b.drop_last()[i] == b[i]);
        lemma_code_map_pointwise(a.drop_last(), b.drop_last());
        assert(a.last().id == b.last().id && a.last().code@ == b.last().code@);
    }
}


/// The byte-keyed map the authenticated tree is built over: each account's
/// identifier bytes mapped to the hash of its state.
pub open spec fn root_map_of(m: Map<AccountId, AccountState>) -> Map<Seq<u8>, Seq<u8>> {
    Map::new(
        |k: Seq<u8>| exists|id: AccountId| #[trigger] m.contains_key(id) && id.0@ == k,
        |k: Seq<u8>|
            crate::sparse_merkle::spec_account_hash(
                m[choose|id: AccountId| #[trigger] m.contains_key(id) && id.0@ == k],
            ),
    )
}

/// Inserting an account inserts its pair in the tree map.
proof fn lemma_root_map_insert(m: Map<AccountId, AccountState>, id: AccountId, st: AccountState)
    ensures
        root_map_of(m.insert(id, st)) == root_map_of(m).insert(
            id.0@,
            crate::sparse_merkle::spec_account_hash(st),
        ),
{
    let m2 = m.insert(id, st);
    assert(root_map_of(m2) =~= root_map_of(m).insert(
        id.0@,
        crate::sparse_merkle::spec_account_hash(st),
    )) by {
        assert forall|k: Seq<u8>|
            root_map_of(m2).contains_key(k) <==> #[trigger] root_map_of(m).insert(
                id.0@,
                crate::sparse_merkle::spec_account_hash(st),
            ).contains_key(k) by {
            if k == id.0@ {
                assert(m2.contains_key(id) && id.0@ == k);
            } else {
                if exists|i2: AccountId| #[trigger] m2.contains_key(i2) && i2.0@ == k {
                    let i2 = choose|i2: AccountId| #[trigger] m2.contains_key(i2) && i2.0@ == k;
                    assert(i2 != id) by {
                        if i2 == id {
                            assert(k == id.0@);
                        }
                    }
                    assert(m.contains_key(i2));
                }
                if exists|i2: AccountId| #[trigger] m.contains_key(i2) && i2.0@ == k {
                    let i2 = choose|i2: AccountId| #[trigger] m.contains_key(i2) && i2.0@ == k;
                    assert(i2 != id) by {
                        if i2 == id {
                            assert(k == id.0@);
                        }
                    }
                    assert(m2.contains_key(i2));
                }
            }
        }
        assert forall|k: Seq<u8>| #[trigger] root_map_of(m2).contains_key(k) implies root_map_of(
            m2,
        )[k] == root_map_of(m).insert(
            id.0@,
            crate::sparse_merkle::spec_account_hash(st),
        )[k] by {
            let w2 = choose|i2: AccountId| #[trigger] m2.contains_key(i2) && i2.0@ == k;
            if k == id.0@ {
                assert(w2 == id) by {
                    if w2 != id {
                        crate::types::lemma_id_bytes_eq(w2, id);
                    }
                }
            } else {
                assert(w2 != id) by {
                    if w2 == id {
                        assert(k == id.0@);
                    }
                }
                let w1 = choose|i2: AccountId| #[trigger] m.contains_key(i2) && i2.0@ == k;
                assert(w1 == w2) by {
                    if w1 != w2 {
                        crate::types::lemma_id_bytes_eq(w1, w2);
                    }
                }
            }
        }
    }
}

impl StateStore {
    /// The authenticated tree over the current accounts.
    fn build_tree(&self) -> (r: crate::sparse_merkle::SparseMerkleTree)
        requires
            self.wf(),
        ensures
            r.wf(),
            r@ == root_map_of(self.accounts()),
    {
        let entries = self.accounts.export();
        let mut tree = crate::sparse_merkle::SparseMerkleTree::new();
        proof {
            assert(entries@.take(0) =~= Seq::<Account>::empty());
            assert(root_map_of(table_map(entries@.take(0))) =~= Map::<Seq<u8>, Seq<u8>>::empty())
                by {
                assert forall|k: Seq<u8>|
                    !root_map_of(table_map(entries@.take(0))).contains_key(k) by {
                    if exists|id: AccountId|
                        #[trigger] table_map(entries@.take(0)).contains_key(id) && id.0@ == k {
                        let id = choose|id: AccountId|
                            #[trigger] table_map(entries@.take(0)).contains_key(id) && id.0@ == k;
                        assert(false);
                    }
                }
            }
        }
        let mut i: usize = 0;
        while i < entries.len()
            invariant
                0 <= i <= entries@.len(),
                tree.wf(),
                tree@ == root_map_of(table_map(entries@.take(i as int))),
                table_map(entries@) == self.accounts(),
            decreases entries@.len() - i,
        {
            let a = entries[i];
            tree.insert(a.id, &a.state);
            proof {
                assert(entries@.take(i as int + 1).drop_last() =~= entries@.take(i as int));
                assert(entries@.take(i as int + 1).last() == entries@[i as int]);
                lemma_root_map_insert(table_map(entries@.take(i as int)), a.id, a.state);
            }
            i = i + 1;
        }
        proof {
            assert(entries@.take(entries@.len() as int) =~= entries@);
        }
        tree
    }

    /// The state root: the root of the authenticated tree rebuilt from the
    /// current account map. A pure function of the account map, so equal
    /// maps give equal roots.
    pub fn state_root(&self) -> (r: crate::hash::Digest)
        requires
            self.wf(),
        ensures
            r.0@ == crate::sparse_merkle::spec_smt_root(root_map_of(self.accounts())),
    {
        let tree = self.build_tree();
        tree.root()
    }

    /// An inclusion proof for an account against the current state root, or
    /// nothing when the account is absent. The account identifiers must
    /// differ pairwise in their first eight bytes: the tree indexes leaves
    /// by that prefix (its depth covers sixty-four bits), so two keys
    /// sharing a prefix would contend for one leaf. Honestly generated
    /// identifiers (Ed25519 public keys) collide there with vanishing
    /// probability, but a prefix collision can be minted deliberately in
    /// roughly two to the thirty-second key generations; a deeper tree
    /// would be the remedy if that were a concern.
    pub fn prove_account(&self, id: &AccountId) -> (r: Option<crate::sparse_merkle::MerkleProof>)
        requires
            self.wf(),
            forall|a: AccountId, b: AccountId|
                #[trigger] self.accounts().contains_key(a) && #[trigger] self.accounts().contains_key(b) && a != b ==> a.0@.take(8) != b.0@.take(8),
        ensures
            match r {
                Some(p) => {
                    &&& self.accounts().contains_key(*id)
                    &&& p.key == id.0
                    &&& p.value_hash.0@ == crate::sparse_merkle::spec_account_hash(
                        self.accounts()[*id],
                    )
                    &&& p.root.0@ == crate::sparse_merkle::spec_smt_root(
                        root_map_of(self.accounts()),
                    )
                    &&& crate::sparse_merkle::spec_fold_proof(
                        crate::hash::blake3_of(p.key@ + p.value_hash.0@),
                        p.siblings@,
                    ) == p.root.0@
                },
                None => !self.accounts().contains_key(*id),
            },
    {
        let tree = self.build_tree();
        proof {
            assert forall|k1: Seq<u8>, k2: Seq<u8>|
                #[trigger] tree@.contains_key(k1) && #[trigger] tree@.contains_key(k2) && k1 != k2
                    implies k1.take(8) != k2.take(8) by {
                let a = choose|a: AccountId|
                    #[trigger] self.accounts().contains_key(a) && a.0@ == k1;
                let b = choose|b: AccountId|
                    #[trigger] self.accounts().contains_key(b) && b.0@ == k2;
                assert(a != b);
            }
            if self.accounts().contains_key(*id) {
                assert(tree@.contains_key(id.0@));
            }
            if tree@.contains_key(id.0@) {
                let a = choose|a: AccountId|
                    #[trigger] self.accounts().contains_key(a) && a.0@ == id.0@;
                crate::types::lemma_id_bytes_eq(a, *id);
                // The tree's value for this key is the hash of this very
                // account's state.
                assert(tree@[id.0@] == crate::sparse_merkle::spec_account_hash(
                    self.accounts()[*id],
                ));
            }
        }
        tree.prove(id)
    }

    /// The accounts, code, and storage as plain vectors, for an external
    /// persistence collaborator.
    pub fn export_for_persistence(&self) -> (r: (Vec<(AccountId, AccountState)>, Vec<(AccountId, Vec<u8>)>, Vec<((AccountId, [u8; 32]), [u8; 32])>))
        requires
            self.wf(),
        ensures
            r.0@.len() == self.account_entries().len(),
            forall|i: int|
                0 <= i < r.0@.len() ==> (#[trigger] r.0@[i]).0 == self.account_entries()[i].id
                    && r.0@[i].1 == self.account_entries()[i].state,
            table_map(seq_accounts(r.0@)) == self.accounts(),
            code_map_of_pairs(r.1@) == self.code(),
            storage_map_of_triples(r.2@) == self.storage(),
    {
        let accounts = self.accounts.export();
        let mut apairs: Vec<(AccountId, AccountState)> = Vec::new();
        let mut i: usize = 0;
        while i < accounts.len()
            invariant
                0 <= i <= accounts@.len(),
                apairs@.len() == i,
                forall|j: int|
                    0 <= j < i ==> (#[trigger] apairs@[j]).0 == accounts@[j].id && apairs@[j].1
                        == accounts@[j].state,
            decreases accounts@.len() - i,
        {
            let a = accounts[i];
            apairs.push((a.id, a.state));
            i = i + 1;
        }
        let code = self.dup_code();
        let mut cpairs: Vec<(AccountId, Vec<u8>)> = Vec::new();
        let mut j: usize = 0;
        while j < code.len()
            invariant
                0 <= j <= code@.len(),
                cpairs@.len() == j,
                forall|q: int|
                    0 <= q < j ==> (#[trigger] cpairs@[q]).0 == code@[q].id && cpairs@[q].1@
                        == code@[q].code@,
            decreases code@.len() - j,
        {
            let e = &code[j];
            let mut c: Vec<u8> = Vec::new();
            crate::codec::push_slice(&mut c, e.code.as_slice());
            proof {
                assert(c@ =~= code@[j as int].code@);
            }
            cpairs.push((e.id, c));
            j = j + 1;
        }
        let sto = self.dup_storage();
        let mut spairs: Vec<((AccountId, [u8; 32]), [u8; 32])> = Vec::new();
        let mut k: usize = 0;
        while k < sto.len()
            invariant
                0 <= k <= sto@.len(),
                spairs@.len() == k,
                forall|q: int|
                    0 <= q < k ==> (#[trigger] spairs@[q]).0.0 == sto@[q].contract && spairs@[q].0.1
                        == sto@[q].key && spairs@[q].1 == sto@[q].value,
            decreases sto@.len() - k,
        {
            let e = &sto[k];
            spairs.push(((e.contract, e.key), e.value));
            k = k + 1;
        }
        proof {
            lemma_seq_accounts_map(apairs@, accounts@);
            lemma_code_pairs_map(cpairs@, code@);
            lemma_storage_triples_map(spairs@, sto@);
        }
        (apairs, cpairs, spairs)
    }

    /// Rebuild a store from persisted accounts, code, and storage.
    pub fn load_from_persistence(
        accounts: Vec<(AccountId, AccountState)>,
        contract_code: Vec<(AccountId, Vec<u8>)>,
        contract_storage: Vec<((AccountId, [u8; 32]), [u8; 32])>,
    ) -> (r: StateStore)
        ensures
            r.wf(),
            r.accounts() == table_map(seq_accounts(accounts@)),
            r.code() == code_map_of_pairs(contract_code@),
            r.storage() == storage_map_of_triples(contract_storage@),
    {
        let mut state = StateStore::new();
        proof {
            assert(seq_accounts(accounts@.take(0)) =~= Seq::<Account>::empty());
            assert(table_map(seq_accounts(accounts@.take(0))) =~= Map::<
                AccountId,
                AccountState,
            >::empty());
        }
        let mut i: usize = 0;
        while i < accounts.len()
            invariant
                0 <= i <= accounts@.len(),
                state.wf(),
                state.accounts() == table_map(seq_accounts(accounts@.take(i as int))),
                state.code() == Map::<AccountId, Seq<u8>>::empty(),
                state.storage() == Map::<(AccountId, Seq<u8>), Seq<u8>>::empty(),
            decreases accounts@.len() - i,
        {
            let (id, st) = accounts[i];
            state.insert(Account { id, state: st });
            proof {
                assert(seq_accounts(accounts@.take(i as int + 1)).drop_last() =~= seq_accounts(
                    accounts@.take(i as int),
                ));
                assert(seq_accounts(accounts@.take(i as int + 1)).last() == (Account {
                    id: accounts@[i as int].0,
                    state: accounts@[i as int].1,
                }));
            }
            i = i + 1;
        }
        proof {
            assert(accounts@.take(accounts@.len() as int) =~= accounts@);
        }
        let mut code = contract_code;
        proof {
            assert(code_map_of_pairs(code@.take(0)) =~= Map::<AccountId, Seq<u8>>::empty());
        }
        let mut j: usize = 0;
        while j < code.len()
            invariant
                0 <= j <= code@.len(),
                state.wf(),
                state.accounts() == table_map(seq_accounts(accounts@)),
                state.code() == code_map_of_pairs(code@.take(j as int)),
                state.storage() == Map::<(AccountId, Seq<u8>), Seq<u8>>::empty(),
            decreases code@.len() - j,
        {
            let id = code[j].0;
            let mut c: Vec<u8> = Vec::new();
            crate::codec::push_slice(&mut c, code[j].1.as_slice());
            proof {
                assert(c@ =~= code@[j as int].1@);
                assert(code_map_of_pairs(code@.take(j as int + 1)).remove(code@[j as int].0)
                    =~= code_map_of_pairs(code@.take(j as int + 1)).remove(code@[j as int].0));
                assert(code@.take(j as int + 1).drop_last() =~= code@.take(j as int));
                assert(code@.take(j as int + 1).last() == code@[j as int]);
            }
            state.set_contract_code(id, c);
            j = j + 1;
        }
        proof {
            assert(code@.take(code@.len() as int) =~= code@);
        }
        let mut k: usize = 0;
        while k < contract_storage.len()
            invariant
                0 <= k <= contract_storage@.len(),
                state.wf(),
                state.accounts() == table_map(seq_accounts(accounts@)),
                state.code() == code_map_of_pairs(code@),
                state.storage() == storage_map_of_triples(contract_storage@.take(k as int)),
            decreases contract_storage@.len() - k,
        {
            let ((contract, key), value) = contract_storage[k];
            proof {
                assert(contract_storage@.take(k as int + 1).drop_last() =~= contract_storage@.take(
                    k as int,
                ));
                assert(contract_storage@.take(k as int + 1).last() == contract_storage@[k as int]);
            }
            state.merge_contract_storage(contract, key, value);
            k = k + 1;
        }
        proof {
            assert(contract_storage@.take(contract_storage@.len() as int) =~= contract_storage@);
            assert(storage_map_of_triples(contract_storage@.take(0)) =~= Map::<
                (AccountId, Seq<u8>),
                Seq<u8>,
            >::empty());
        }
        state
    }
}

/// Account records of identifier/state pairs.
pub open spec fn seq_accounts(s: Seq<(AccountId, AccountState)>) -> Seq<Account> {
    Seq::new(s.len(), |i: int| Account { id: s[i].0, state: s[i].1 })
}

/// The code map a pair list denotes, later entries winning.
pub open spec fn code_map_of_pairs(s: Seq<(AccountId, Vec<u8>)>) -> Map<AccountId, Seq<u8>>
    decreases s.len(),
{
    if s.len() == 0 {
        Map::empty()
    } else {
        code_map_of_pairs(s.drop_last()).insert(s.last().0, s.last().1@)
    }
}

/// The storage map a triple list denotes, later entries winning.
pub open spec fn storage_map_of_triples(s: Seq<((AccountId, [u8; 32]), [u8; 32])>) -> Map<(AccountId, Seq<u8>), Seq<u8>>
    decreases s.len(),
{
    if s.len() == 0 {
        Map::empty()
    } else {
        storage_map_of_triples(s.drop_last()).insert(
            (s.last().0.0, s.last().0.1@),
            s.last().1@,
        )
    }
}

proof fn lemma_seq_accounts_map(p: Seq<(AccountId, AccountState)>, a: Seq<Account>)
    requires
        p.len() == a.len(),
        forall|i: int| 0 <= i < p.len() ==> (#[trigger] p[i]).0 == a[i].id && p[i].1 == a[i].state,
    ensures
        table_map(seq_accounts(p)) == table_map(a),
{
    assert(seq_accounts(p) =~= a);
}

proof fn lemma_code_pairs_map(p: Seq<(AccountId, Vec<u8>)>, c: Seq<CodeEntry>)
    requires
        p.len() == c.len(),
        forall|i: int| 0 <= i < p.len() ==> (#[trigger] p[i]).0 == c[i].id && p[i].1@ == c[i].code@,
    ensures
        code_map_of_pairs(p) == code_map(c),
    decreases p.len(),
{
    if p.len() > 0 {
        assert(forall|i: int|
            0 <= i < p.drop_last().len() ==> #[trigger] p.drop_last()[i] == p[i] && c.drop_last()[i]
                == c[i]);
        lemma_code_pairs_map(p.drop_last(), c.drop_last());
    }
}

proof fn lemma_storage_triples_map(p: Seq<((AccountId, [u8; 32]), [u8; 32])>, c: Seq<StorageEntry>)
    requires
        p.len() == c.len(),
        forall|i: int|
            0 <= i < p.len() ==> (#[trigger] p[i]).0.0 == c[i].contract && p[i].0.1 == c[i].key
                && p[i].1 == c[i].value,
    ensures
        storage_map_of_triples(p) == storage_map(c),
    decreases p.len(),
{
    if p.len() > 0 {
        assert(forall|i: int|
            0 <= i < p.drop_last().len() ==> #[trigger] p.drop_last()[i] == p[i] && c.drop_last()[i]
                == c[i]);
        lemma_storage_triples_map(p.drop_last(), c.drop_last());
    }
}


impl StateStore {
    /// The top `n` accounts by stake, highest first (the earliest account
    /// wins a tie): every omitted account's stake is at most every listed
    /// one's.
    pub fn top_stakers(&self, n: usize) -> (r: Vec<AccountId>)
        requires
            self.wf(),
        ensures
            r@.len() == vstd::math::min(n as int, self.account_entries().len() as int),
            forall|i: int, j: int| 0 <= i < j < r@.len() ==> r@[i] != r@[j],
            forall|i: int|
                0 <= i < r@.len() ==> self.accounts().contains_key(#[trigger] r@[i]),
            forall|i: int, j: int|
                0 <= i < j < r@.len() ==> self.accounts()[#[trigger] r@[i]].stake
                    >= self.accounts()[#[trigger] r@[j]].stake,
            r@.len() > 0 ==> (forall|id: AccountId|
                #[trigger] self.accounts().contains_key(id) && !r@.contains(id)
                    ==> self.accounts()[id].stake <= self.accounts()[r@[r@.len() - 1]].stake),
    {
        let mut pool = self.accounts.export();
        proof {
            self.accounts.lemma_entries_denote();
            assert forall|q: int|
                0 <= q < pool@.len() implies self.accounts().contains_key(
                (#[trigger] pool@[q]).id,
            ) && self.accounts()[pool@[q].id] == pool@[q].state by {
                crate::accounts::lemma_table_at(pool@, q);
            }
            assert forall|id: AccountId| #[trigger] self.accounts().contains_key(id) implies exists|q: int|
                0 <= q < pool@.len() && (#[trigger] pool@[q]).id == id by {
                crate::accounts::lemma_table_contains(pool@, id);
            }
        }
        let mut out: Vec<AccountId> = Vec::new();
        let ghost total = pool@.len() as int;
        while out.len() < n && pool.len() > 0
            invariant
                self.wf(),
                out@.len() <= n,
                total == self.account_entries().len(),
                out@.len() + pool@.len() == total,
                forall|q: int|
                    0 <= q < pool@.len() ==> self.accounts().contains_key(
                        (#[trigger] pool@[q]).id,
                    ) && self.accounts()[pool@[q].id] == pool@[q].state,
                forall|i: int, j: int| 0 <= i < j < out@.len() ==> out@[i] != out@[j],
                forall|i: int|
                    0 <= i < out@.len() ==> self.accounts().contains_key(#[trigger] out@[i]),
                forall|i: int, j: int|
                    0 <= i < j < out@.len() ==> self.accounts()[#[trigger] out@[i]].stake
                        >= self.accounts()[#[trigger] out@[j]].stake,
                forall|i: int, q: int|
                    0 <= i < out@.len() && 0 <= q < pool@.len() ==> self.accounts()[
                    #[trigger] out@[i]].stake >= (#[trigger] pool@[q]).state.stake,
                forall|i: int, q: int|
                    0 <= i < out@.len() && 0 <= q < pool@.len() ==> #[trigger] out@[i] != (
                    #[trigger] pool@[q]).id,
                crate::accounts::ids_distinct(pool@),
                forall|id: AccountId|
                    #[trigger] self.accounts().contains_key(id) ==> (out@.contains(id) || exists|q: int|
                        0 <= q < pool@.len() && (#[trigger] pool@[q]).id == id),
            decreases pool@.len(),
        {
            let mut best: usize = 0;
            let mut j: usize = 1;
            let m = pool.len();
            while j < m
                invariant
                    0 <= best < j <= m,
                    m == pool@.len(),
                    m > 0,
                    forall|q: int|
                        0 <= q < j ==> (#[trigger] pool@[q]).state.stake
                            <= pool@[best as int].state.stake,
                decreases m - j,
            {
                if pool[j].state.stake > pool[best].state.stake {
                    best = j;
                }
                j = j + 1;
            }
            let ghost ppre = pool@;
            let picked = pool.remove(best);
            let ghost opre = out@;
            out.push(picked.id);
            proof {
                assert(forall|q: int|
                    0 <= q < pool@.len() ==> #[trigger] pool@[q] == (if q < best {
                        ppre[q]
                    } else {
                        ppre[q + 1]
                    }));
                assert(forall|q: int|
                    0 <= q < pool@.len() ==> picked.id != (#[trigger] pool@[q]).id);
                // Coverage: everything that was reachable through the pool
                // stays reachable through the pool or the picked entry.
                assert forall|id: AccountId| #[trigger] self.accounts().contains_key(id) implies (
                out@.contains(id) || exists|q: int|
                    0 <= q < pool@.len() && (#[trigger] pool@[q]).id == id) by {
                    if opre.contains(id) {
                        let w = choose|w: int| 0 <= w < opre.len() && opre[w] == id;
                        assert(out@[w] == id);
                        assert(out@.contains(id));
                    } else if exists|q: int| 0 <= q < ppre.len() && (#[trigger] ppre[q]).id == id {
                        let q0 = choose|q: int|
                            0 <= q < ppre.len() && (#[trigger] ppre[q]).id == id;
                        if q0 == best {
                            assert(out@[out@.len() - 1] == id);
                            assert(out@.contains(id));
                        } else if q0 < best {
                            assert(pool@[q0].id == id);
                        } else {
                            assert(pool@[q0 - 1].id == id);
                        }
                    }
                }
            }
        }
        proof {
            if out@.len() < n {
                assert(pool@.len() == 0);
            }
            if out@.len() > 0 {
                assert forall|id: AccountId|
                    #[trigger] self.accounts().contains_key(id) && !out@.contains(id)
                        implies self.accounts()[id].stake <= self.accounts()[out@[out@.len()
                    - 1]].stake by {
                    let q = choose|q: int|
                        0 <= q < pool@.len() && (#[trigger] pool@[q]).id == id;
                    assert(self.accounts()[out@[out@.len() - 1]].stake >= pool@[q].state.stake);
                }
            }
        }
        out
    }
}

} // verus!

