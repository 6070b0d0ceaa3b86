//! Association table from account identifier to account state, the
//! representation behind the state store and the parallel execution views.
//! Its mathematical model is a finite map.

use vstd::prelude::*;

use crate::types::{id_eq, Account, AccountId, AccountState};

verus! {

/// No two entries share an identifier.
pub open spec fn ids_distinct(s: Seq<Account>) -> bool {
    forall|i: int, j: int| 0 <= i < j < s.len() ==> s[i].id != s[j].id
}

/// The map an entry sequence denotes: later entries win.
pub open spec fn table_map(s: Seq<Account>) -> Map<AccountId, AccountState>
    decreases s.len(),
{
    if s.len() == 0 {
        Map::empty()
    } else {
        table_map(s.drop_last()).insert(s.last().id, s.last().state)
    }
}

/// A key is in the map exactly when some entry carries it.
pub proof fn lemma_table_contains(s: Seq<Account>, id: AccountId)
    ensures
        table_map(s).contains_key(id) <==> exists|i: int| 0 <= i < s.len() && s[i].id == id,
    decreases s.len(),
{
    if s.len() > 0 {
        lemma_table_contains(s.drop_last(), id);
        if id == s.last().id {
            assert(s[s.len() - 1].id == id);
        } else {
            if exists|i: int| 0 <= i < s.drop_last().len() && s.drop_last()[i].id == id {
                let i = choose|i: int| 0 <= i < s.drop_last().len() && s.drop_last()[i].id == id;
                assert(s[i].id == id);
            }
            if exists|i: int| 0 <= i < s.len() && s[i].id == id {
                let i = choose|i: int| 0 <= i < s.len() && s[i].id == id;
                assert(i < s.len() - 1);
                assert(s.drop_last()[i].id == id);
            }
        }
    }
}

/// With distinct identifiers, each entry is what the map holds for its key.
pub proof fn lemma_table_at(s: Seq<Account>, i: int)
    requires
        ids_distinct(s),
        0 <= i < s.len(),
    ensures
        table_map(s).contains_key(s[i].id),
        table_map(s)[s[i].id] == s[i].state,
    decreases s.len(),
{
    if i == s.len() - 1 {
    } else {
        assert(ids_distinct(s.drop_last())) by {
            assert(forall|a: int, b: int|
                0 <= a < b < s.drop_last().len() ==> s.drop_last()[a] == s[a] && s.drop_last()[b]
                    == s[b]);
        }
        assert(s.drop_last()[i] == s[i]);
        lemma_table_at(s.drop_last(), i);
        assert(s[i].id != s.last().id);
    }
}

/// Updating the entry that carries a key updates the map at that key.
pub proof fn lemma_table_update(s: Seq<Account>, i: int, a: Account)
    requires
        ids_distinct(s),
        0 <= i < s.len(),
        a.id == s[i].id,
    ensures
        ids_distinct(s.update(i, a)),
        table_map(s.update(i, a)) == table_map(s).insert(a.id, a.state),
    decreases s.len(),
{
    assert(ids_distinct(s.update(i, a))) by {
        assert(forall|p: int, q: int|
            0 <= p < q < s.len() ==> s.update(i, a)[p].id == (if p == i {
                a.id
            } else {
                s[p].id
            }) && s.update(i, a)[q].id == (if q == i {
                a.id
            } else {
                s[q].id
            }));
    }
    if i == s.len() - 1 {
        assert(s.update(i, a).drop_last() =~= s.drop_last());
        assert(s.update(i, a).last() == a);
        assert(table_map(s.update(i, a)) == table_map(s.drop_last()).insert(a.id, a.state));
        assert(table_map(s.drop_last()).insert(s.last().id, s.last().state).insert(a.id, a.state)
            =~= table_map(s.drop_last()).insert(a.id, a.state));
    } else {
        assert(ids_distinct(s.drop_last())) by {
            assert(forall|p: int, q: int|
                0 <= p < q < s.drop_last().len() ==> s.drop_last()[p] == s[p] && s.drop_last()[q]
                    == s[q]);
        }
        assert(s.drop_last()[i] == s[i]);
        lemma_table_update(s.drop_last(), i, a);
        assert(s.update(i, a).drop_last() =~= s.drop_last().update(i, a));
        assert(s.update(i, a).last() == s.last());
        assert(table_map(s.update(i, a)) == table_map(s.drop_last()).insert(a.id, a.state).insert(
            s.last().id,
            s.last().state,
        ));
        assert(s.last().id != a.id);
        assert(table_map(s.drop_last()).insert(a.id, a.state).insert(s.last().id, s.last().state)
            =~= table_map(s.drop_last()).insert(s.last().id, s.last().state).insert(
            a.id,
            a.state,
        ));
    }
}

/// Account table: a vector of accounts with pairwise-distinct identifiers,
/// read as a finite map.
pub struct AccountTable {
    entries: Vec<Account>,
}

impl AccountTable {
    /// The map this table denotes.
    pub closed spec fn view(&self) -> Map<AccountId, AccountState> {
        table_map(self.entries@)
    }

    /// Well-formed: identifiers are pairwise distinct.
    pub closed spec fn wf(&self) -> bool {
        ids_distinct(self.entries@)
    }

    /// The entry sequence (for tree building and export).
    pub closed spec fn spec_entries(&self) -> Seq<Account> {
        self.entries@
    }

    /// The entry sequence denotes the map, with distinct identifiers.
    pub proof fn lemma_entries_denote(&self)
        requires
            self.wf(),
        ensures
            ids_distinct(self.spec_entries()),
            table_map(self.spec_entries()) == self@,
    {
    }

    /// An empty table.
    pub fn new() -> (r: Self)
        ensures
            r.wf(),
            r@ == Map::<AccountId, AccountState>::empty(),
    {
        AccountTable { entries: Vec::new() }
    }

    /// Index of the entry carrying `id`, if any.
    fn find(&self, id: &AccountId) -> (r: Option<usize>)
        ensures
            match r {
                Some(i) => i < self.entries@.len() && self.entries@[i as int].id == *id,
                None => forall|j: int| 0 <= j < self.entries@.len() ==> self.entries@[j].id != *id,
            },
    {
        let mut i: usize = 0;
        while i < self.entries.len()
            invariant
                0 <= i <= self.entries@.len(),
                forall|j: int| 0 <= j < i ==> self.entries@[j].id != *id,
            decreases self.entries@.len() - i,
        {
            if id_eq(&self.entries[i].id, id) {
                return Some(i);
            }
            i = i + 1;
        }
        None
    }

    /// Number of accounts.
    pub fn len(&self) -> (r: usize)
        requires
            self.wf(),
        ensures
            r == self.spec_entries().len(),
    {
        self.entries.len()
    }

    /// Read-only lookup.
    pub fn get(&self, id: &AccountId) -> (r: Option<&AccountState>)
        requires
            self.wf(),
        ensures
            match r {
                Some(st) => self@.contains_key(*id) && *st == self@[*id],
                None => !self@.contains_key(*id),
            },
    {
        proof {
            lemma_table_contains(self.entries@, *id);
        }
        match self.find(id) {
            Some(i) => {
                proof {
                    lemma_table_at(self.entries@, i as int);
                }
                Some(&self.entries[i].state)
            },
            None => None,
        }
    }

    /// Mutable handle for an existing account; does not create.
    pub fn get_mut(&mut self, id: &AccountId) -> (r: Option<&mut AccountState>)
        requires
            old(self).wf(),
        ensures
            match r {
                Some(p) => {
                    &&& old(self)@.contains_key(*id)
                    &&& *p == old(self)@[*id]
                    &&& final(self).wf()
                    &&& final(self)@ == old(self)@.insert(*id, *final(p))
                },
                None => !old(self)@.contains_key(*id) && *final(self) == *old(self),
            },
    {
        proof {
            lemma_table_contains(self.entries@, *id);
        }
        match self.find(id) {
            Some(i) => {
                proof {
                    lemma_table_at(self.entries@, i as int);
                    lemma_table_update(
                        self.entries@,
                        i as int,
                        Account { id: *id, state: arbitrary() },
                    );
                }
                let ghost pre = self.entries@;
                let entry = &mut self.entries[i];
                let ghost eid = entry.id;
                let p = &mut entry.state;
                proof {
                    let fin = Account { id: eid, state: *final(p) };
                    lemma_table_update(pre, i as int, fin);
                }
                Some(p)
            },
            None => None,
        }
    }

    /// Upsert: write `st` under `id`, creating the entry if absent.
    pub fn set(&mut self, id: AccountId, st: AccountState)
        requires
            old(self).wf(),
        ensures
            final(self).wf(),
            final(self)@ == old(self)@.insert(id, st),
            final(self).spec_entries().len() <= old(self).spec_entries().len() + 1,
    {
        match self.find(&id) {
            Some(i) => {
                proof {
                    lemma_table_update(self.entries@, i as int, Account { id, state: st });
                }
                self.entries[i] = Account { id, state: st };
            },
            None => {
                proof {
                    let s = self.entries@;
                    let a = Account { id, state: st };
                    assert(s.push(a).drop_last() =~= s);
                    assert(forall|p: int, q: int|
                        0 <= p < q < s.push(a).len() ==> s.push(a)[p].id == (if p < s.len() {
                            s[p].id
                        } else {
                            a.id
                        }) && s.push(a)[q].id == (if q < s.len() {
                            s[q].id
                        } else {
                            a.id
                        }));
                }
                self.entries.push(Account { id, state: st });
            },
        }
    }

    /// A deep copy with the same contents.
    pub fn duplicate(&self) -> (r: Self)
        requires
            self.wf(),
        ensures
            r.wf(),
            r@ == self@,
            r.spec_entries() == self.spec_entries(),
    {
        let mut out: Vec<Account> = Vec::new();
        let mut i: usize = 0;
        while i < self.entries.len()
            invariant
                0 <= i <= self.entries@.len(),
                out@ == self.entries@.take(i as int),
            decreases self.entries@.len() - i,
        {
            out.push(self.entries[i]);
            proof {
                assert(self.entries@.take(i as int).push(self.entries@[i as int])
                    =~= self.entries@.take(i as int + 1));
            }
            i = i + 1;
        }
        proof {
            assert(self.entries@.take(self.entries@.len() as int) =~= self.entries@);
        }
        AccountTable { entries: out }
    }

    /// The accounts as a vector, in table order.
    pub fn export(&self) -> (r: Vec<Account>)
        requires
            self.wf(),
        ensures
            r@ == self.spec_entries(),
            ids_distinct(r@),
            table_map(r@) == self@,
    {
        let c = self.duplicate();
        c.entries
    }
}

} // verus!
