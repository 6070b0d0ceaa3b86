//! Isolated state views for the parallel execution path: each transfer in a
//! qualifying batch runs against its own view, populated from the accounts
//! its access list names, and the views are merged back afterwards.

use vstd::prelude::*;

use crate::accounts::AccountTable;
use crate::store::StateStore;
use crate::types::{Account, AccountId, AccountState};

verus! {

/// Isolated account view for one transaction of a parallel batch.
pub struct ExecutionView {
    accounts: AccountTable,
}

impl ExecutionView {
    /// The account map this view holds.
    pub closed spec fn view(&self) -> Map<AccountId, AccountState> {
        self.accounts@
    }

    /// Well-formed view.
    pub closed spec fn wf(&self) -> bool {
        self.accounts.wf()
    }

    /// The identifiers this view holds, in table order.
    pub closed spec fn spec_ids(&self) -> Seq<AccountId> {
        Seq::new(self.accounts.spec_entries().len(), |i: int| self.accounts.spec_entries()[i].id)
    }

    /// An empty view.
    pub fn new() -> (r: Self)
        ensures
            r.wf(),
            r@ == Map::<AccountId, AccountState>::empty(),
    {
        ExecutionView { accounts: AccountTable::new() }
    }

    /// Wrap a snapshot table as a view.
    pub fn from_snapshot(snapshot: AccountTable) -> (r: Self)
        requires
            snapshot.wf(),
        ensures
            r.wf(),
            r@ == snapshot@,
    {
        ExecutionView { accounts: snapshot }
    }

    /// Read an account from the view.
    pub fn get(&self, id: &AccountId) -> (r: Option<AccountState>)
        requires
            self.wf(),
        ensures
            match r {
                Some(st) => self@.contains_key(*id) && st == self@[*id],
                None => !self@.contains_key(*id),
            },
    {
        match self.accounts.get(id) {
            Some(st) => Some(*st),
            None => None,
        }
    }

    /// Mutable handle for an account already in the view.
    pub fn get_mut(&mut self, id: &AccountId) -> (r: Option<&mut AccountState>)
        requires
            old(self).wf(),
        ensures
            match r {
                Some(p) => {
                    &&& old(self)@.contains_key(*id)
                    &&& *p == old(self)@[*id]
                    &&& final(self).wf()
                    &&& final(self)@ == old(self)@.insert(*id, *final(p))
                },
                None => !old(self)@.contains_key(*id) && *final(self) == *old(self),
            },
    {
        self.accounts.get_mut(id)
    }

    /// Upsert an account into the view.
    pub fn insert(&mut self, account: Account)
        requires
            old(self).wf(),
        ensures
            final(self).wf(),
            final(self)@ == old(self)@.insert(account.id, account.state),
    {
        self.accounts.set(account.id, account.state);
    }

    /// The identifiers present in this view (the accounts it would write on
    /// merge), in table order.
    pub fn account_ids(&self) -> (r: Vec<AccountId>)
        requires
            self.wf(),
        ensures
            r@ == self.spec_ids(),
            forall|id: AccountId| r@.contains(id) <==> self@.contains_key(id),
            forall|p: int, q: int| 0 <= p < q < r@.len() ==> r@[p] != r@[q],
    {
        let entries = self.accounts.export();
        let mut out: Vec<AccountId> = Vec::new();
        let mut i: usize = 0;
        while i < entries.len()
            invariant
                0 <= i <= entries@.len(),
                out@.len() == i,
                forall|j: int| 0 <= j < i ==> out@[j] == entries@[j].id,
            decreases entries@.len() - i,
        {
            out.push(entries[i].id);
            i = i + 1;
        }
        proof {
            assert(out@ =~= self.spec_ids());
            self.accounts.lemma_entries_denote();
            assert(forall|p: int, q: int|
                0 <= p < q < out@.len() ==> out@[p] == self.accounts.spec_entries()[p].id && out@[q]
                    == self.accounts.spec_entries()[q].id);
            assert forall|id: AccountId| out@.contains(id) <==> self@.contains_key(id) by {
                crate::accounts::lemma_table_contains(self.accounts.spec_entries(), id);
                if out@.contains(id) {
                    let j = choose|j: int| 0 <= j < out@.len() && out@[j] == id;
                    assert(self.accounts.spec_entries()[j].id == id);
                }
                if self@.contains_key(id) {
                    let j = choose|j: int|
                        0 <= j < self.accounts.spec_entries().len()
                            && self.accounts.spec_entries()[j].id == id;
                    assert(out@[j] == id);
                }
            }
        }
        out
    }

    /// Merge every account of this view into the main store, in table order.
    pub fn merge_into(&self, state: &mut StateStore)
        requires
            self.wf(),
            old(state).wf(),
        ensures
            final(state).wf(),
            final(state).accounts() == old(state).accounts().union_prefer_right(self@),
            final(state).code() == old(state).code(),
            final(state).storage() == old(state).storage(),
    {
        let entries = self.accounts.export();
        let ghost m0 = state.accounts();
        proof {
            assert(entries@.take(0) =~= Seq::<Account>::empty());
            assert(m0.union_prefer_right(crate::accounts::table_map(entries@.take(0))) =~= m0);
        }
        let mut i: usize = 0;
        while i < entries.len()
            invariant
                0 <= i <= entries@.len(),
                entries@ == self.accounts.spec_entries(),
                crate::accounts::ids_distinct(entries@),
                crate::accounts::table_map(entries@) == self@,
                state.wf(),
                state.code() == old(state).code(),
                state.storage() == old(state).storage(),
                state.accounts() == m0.union_prefer_right(
                    crate::accounts::table_map(entries@.take(i as int)),
                ),
            decreases entries@.len() - i,
        {
            let a = entries[i];
            state.merge_account(a.id, a.state);
            proof {
                assert(entries@.take(i as int + 1).drop_last() =~= entries@.take(i as int));
                assert(entries@.take(i as int + 1).last() == entries@[i as int]);
                assert(crate::accounts::table_map(entries@.take(i as int + 1))
                    == crate::accounts::table_map(entries@.take(i as int)).insert(
                    a.id,
                    a.state,
                ));
                assert(m0.union_prefer_right(
                    crate::accounts::table_map(entries@.take(i as int)),
                ).insert(a.id, a.state) =~= m0.union_prefer_right(
                    crate::accounts::table_map(entries@.take(i as int + 1)),
                ));
            }
            i = i + 1;
        }
        proof {
            assert(entries@.take(entries@.len() as int) =~= entries@);
        }
    }
}

} // verus!
