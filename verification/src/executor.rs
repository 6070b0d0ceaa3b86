//! Block execution: schedule into batches, run transfer-only batches on
//! isolated per-transaction views with a disjointness check before merging,
//! run everything else sequentially, and account the total gas.

use vstd::prelude::*;

use crate::accounts::AccountTable;
use crate::parallel::ExecutionView;
use crate::scheduler::{batches_view, spec_schedule, TransactionScheduler};
use crate::store::StateStore;
use crate::types::{AccountId, AccountState, Transaction, TransactionPayload};
use crate::vm::{spec_execute_transfer_tx, spec_execute_tx, spec_sat_add_u64, sat_add_u64, Vm,
    VmError, GAS_PER_TRANSFER};

verus! {

/// Why a block failed to execute.
#[derive(Clone, Copy, Debug, PartialEq, Eq, Structural)]
pub enum ExecutionError {
    /// A transaction failed.
    Vm(VmError),
    /// Two parallel views wrote the same account: the defensive guard that a
    /// correct scheduler never triggers.
    ConflictDetected,
}

/// The state a block execution threads along: the three store maps and the
/// accumulated gas.
#[verifier::ext_equal]
pub ghost struct BlockExecState {
    pub acc: Map<AccountId, AccountState>,
    pub code: Map<AccountId, Seq<u8>>,
    pub sto: Map<(AccountId, Seq<u8>), Seq<u8>>,
    pub gas: u64,
}

/// How a block execution ends. On failure the paired state is what had been
/// applied when the failure struck; the caller reverts it.
#[verifier::ext_equal]
pub ghost enum BlockOutcome {
    Done(BlockExecState),
    Failed(ExecutionError, BlockExecState),
}

/// The restriction of the account map to the accounts an access list names.
pub open spec fn spec_view_of(acc: Map<AccountId, AccountState>, al: crate::types::AccessList) -> Map<AccountId, AccountState> {
    acc.restrict(Set::new(|id: AccountId| al.spec_touches(id)))
}

/// Whether every member of a batch is a transfer.
pub open spec fn spec_all_transfers(txs: Seq<Transaction>, batch: Seq<usize>) -> bool {
    forall|k: int|
        0 <= k < batch.len() ==> txs[#[trigger] batch[k] as int].payload matches TransactionPayload::Transfer { .. }
}

/// The per-transaction results of a transfer batch, each against its own
/// view of the batch-entry account map.
pub open spec fn spec_par_results(txs: Seq<Transaction>, batch: Seq<usize>, acc: Map<AccountId, AccountState>) -> Seq<Result<Map<AccountId, AccountState>, VmError>> {
    Seq::new(batch.len(), |k: int|
        spec_execute_transfer_tx(
            spec_view_of(acc, txs[batch[k] as int].access_list),
            txs[batch[k] as int],
        ))
}

/// The first error in a result sequence, if any.
pub open spec fn spec_first_err(rs: Seq<Result<Map<AccountId, AccountState>, VmError>>) -> Option<VmError>
    decreases rs.len(),
{
    if rs.len() == 0 {
        None
    } else {
        match rs[0] {
            Err(e) => Some(e),
            Ok(_) => spec_first_err(rs.drop_first()),
        }
    }
}

/// The map of an Ok result (immaterial on an error).
pub open spec fn ok_map(r: Result<Map<AccountId, AccountState>, VmError>) -> Map<AccountId, AccountState> {
    match r {
        Ok(m) => m,
        Err(_) => Map::empty(),
    }
}

/// Whether two view domains overlap anywhere.
pub open spec fn spec_doms_overlap(vs: Seq<Map<AccountId, AccountState>>) -> bool {
    exists|p: int, q: int, id: AccountId|
        0 <= p < q < vs.len() && vs[p].contains_key(id) && vs[q].contains_key(id)
}

/// Views merged into the account map, in batch order, later views winning.
pub open spec fn spec_merge_views(acc: Map<AccountId, AccountState>, vs: Seq<Map<AccountId, AccountState>>) -> Map<AccountId, AccountState>
    decreases vs.len(),
{
    if vs.len() == 0 {
        acc
    } else {
        spec_merge_views(acc.union_prefer_right(vs[0]), vs.drop_first())
    }
}

/// The transfer gas charged `cnt` times, saturating.
pub open spec fn spec_gas_fold(g: u64, cnt: int) -> u64
    decreases cnt,
{
    if cnt <= 0 {
        g
    } else {
        spec_sat_add_u64(spec_gas_fold(g, cnt - 1), GAS_PER_TRANSFER)
    }
}

/// One batch executed sequentially from its `k`-th member on.
pub open spec fn spec_apply_seq(txs: Seq<Transaction>, batch: Seq<usize>, st: BlockExecState, k: int) -> BlockOutcome
    decreases batch.len() - k,
{
    if k < 0 || k >= batch.len() {
        BlockOutcome::Done(st)
    } else {
        match spec_execute_tx(st.acc, st.code, st.sto, txs[batch[k] as int]) {
            Ok(q) => spec_apply_seq(
                txs,
                batch,
                BlockExecState {
                    acc: q.0,
                    code: q.1,
                    sto: q.2,
                    gas: spec_sat_add_u64(st.gas, q.3),
                },
                k + 1,
            ),
            Err(e) => BlockOutcome::Failed(ExecutionError::Vm(e), st),
        }
    }
}

/// One batch: the parallel path for transfer-only batches of more than one
/// transaction, the sequential path otherwise.
pub open spec fn spec_apply_batch(txs: Seq<Transaction>, batch: Seq<usize>, st: BlockExecState) -> BlockOutcome {
    if batch.len() > 1 && spec_all_transfers(txs, batch) {
        let rs = spec_par_results(txs, batch, st.acc);
        match spec_first_err(rs) {
            Some(e) => BlockOutcome::Failed(ExecutionError::Vm(e), st),
            None => {
                let vs = Seq::new(rs.len(), |k: int| ok_map(rs[k]));
                if spec_doms_overlap(vs) {
                    BlockOutcome::Failed(ExecutionError::ConflictDetected, st)
                } else {
                    BlockOutcome::Done(BlockExecState {
                        acc: spec_merge_views(st.acc, vs),
                        code: st.code,
                        sto: st.sto,
                        gas: spec_gas_fold(st.gas, batch.len() as int),
                    })
                }
            },
        }
    } else {
        spec_apply_seq(txs, batch, st, 0)
    }
}

/// All batches from the `b`-th on, in order.
pub open spec fn spec_apply_batches(txs: Seq<Transaction>, batches: Seq<Seq<usize>>, st: BlockExecState, b: int) -> BlockOutcome
    decreases batches.len() - b,
{
    if b < 0 || b >= batches.len() {
        BlockOutcome::Done(st)
    } else {
        match spec_apply_batch(txs, batches[b], st) {
            BlockOutcome::Done(st2) => spec_apply_batches(txs, batches, st2, b + 1),
            BlockOutcome::Failed(e, st2) => BlockOutcome::Failed(e, st2),
        }
    }
}

/// What executing a block does: schedule, then apply every batch in order,
/// starting from zero gas.
pub open spec fn spec_execute_block(txs: Seq<Transaction>, acc: Map<AccountId, AccountState>, code: Map<AccountId, Seq<u8>>, sto: Map<(AccountId, Seq<u8>), Seq<u8>>) -> BlockOutcome {
    spec_apply_batches(
        txs,
        spec_schedule(txs),
        BlockExecState { acc, code, sto, gas: 0 },
        0,
    )
}

/// Every index a batch filled by the greedy scan holds is a valid index.
proof fn lemma_fill_bounds(txs: Seq<Transaction>, assigned: Seq<bool>, batch: Seq<usize>, j: int)
    requires
        forall|q: int| 0 <= q < batch.len() ==> batch[q] < txs.len(),
    ensures
        forall|q: int|
            0 <= q < crate::scheduler::spec_fill_batch(txs, assigned, batch, j).0.len()
                ==> crate::scheduler::spec_fill_batch(txs, assigned, batch, j).0[q] < txs.len(),
    decreases txs.len() - j,
{
    if j < 0 || j >= txs.len() {
        assert(crate::scheduler::spec_fill_batch(txs, assigned, batch, j).0 == batch);
    } else if !assigned[j] && !crate::scheduler::spec_batch_conflicts(txs, batch, j) {
        assert(forall|q: int|
            0 <= q < batch.push(j as usize).len() ==> #[trigger] batch.push(j as usize)[q]
                < txs.len());
        lemma_fill_bounds(txs, assigned.update(j, true), batch.push(j as usize), j + 1);
        assert(crate::scheduler::spec_fill_batch(txs, assigned, batch, j)
            == crate::scheduler::spec_fill_batch(
            txs,
            assigned.update(j, true),
            batch.push(j as usize),
            j + 1,
        ));
    } else {
        lemma_fill_bounds(txs, assigned, batch, j + 1);
        assert(crate::scheduler::spec_fill_batch(txs, assigned, batch, j)
            == crate::scheduler::spec_fill_batch(txs, assigned, batch, j + 1));
    }
}

/// Every index the schedule holds is a valid index.
proof fn lemma_schedule_bounds(txs: Seq<Transaction>, assigned: Seq<bool>, i: int)
    ensures
        forall|b: int, q: int|
            0 <= b < crate::scheduler::spec_schedule_from(txs, assigned, i).len() && 0 <= q
                < crate::scheduler::spec_schedule_from(txs, assigned, i)[b].len()
                ==> #[trigger] crate::scheduler::spec_schedule_from(txs, assigned, i)[b][q]
                < txs.len(),
    decreases txs.len() - i,
{
    if i < 0 || i >= txs.len() {
        assert(crate::scheduler::spec_schedule_from(txs, assigned, i).len() == 0);
    } else if assigned[i] {
        lemma_schedule_bounds(txs, assigned, i + 1);
        assert(crate::scheduler::spec_schedule_from(txs, assigned, i)
            == crate::scheduler::spec_schedule_from(txs, assigned, i + 1));
    } else {
        let filled = crate::scheduler::spec_fill_batch(
            txs,
            assigned.update(i, true),
            seq![i as usize],
            i + 1,
        );
        lemma_fill_bounds(txs, assigned.update(i, true), seq![i as usize], i + 1);
        lemma_schedule_bounds(txs, filled.1, i + 1);
        let sch = crate::scheduler::spec_schedule_from(txs, assigned, i);
        assert(sch == seq![filled.0] + crate::scheduler::spec_schedule_from(txs, filled.1, i + 1));
        assert(forall|b: int, q: int|
            0 <= b < sch.len() && 0 <= q < sch[b].len() ==> #[trigger] sch[b][q] < txs.len())
            by {
            assert(sch[0] == filled.0);
            assert(forall|b: int|
                1 <= b < sch.len() ==> sch[b] == crate::scheduler::spec_schedule_from(
                    txs,
                    filled.1,
                    i + 1,
                )[b - 1]);
        }
    }
}

/// A result sequence with no errors has no first error.
proof fn lemma_first_err_none(rs: Seq<Result<Map<AccountId, AccountState>, VmError>>)
    requires
        forall|k: int| 0 <= k < rs.len() ==> (#[trigger] rs[k]) matches Ok(_),
    ensures
        spec_first_err(rs) matches None,
    decreases rs.len(),
{
    if rs.len() > 0 {
        assert(rs[0] matches Ok(_));
        assert(forall|k: int|
            0 <= k < rs.drop_first().len() ==> #[trigger] rs.drop_first()[k] == rs[k + 1]);
        lemma_first_err_none(rs.drop_first());
    }
}

/// With every result before `k` fine and the `k`-th failing, the first error
/// is the `k`-th.
proof fn lemma_first_err_at(rs: Seq<Result<Map<AccountId, AccountState>, VmError>>, k: int, e: VmError)
    requires
        0 <= k < rs.len(),
        forall|q: int| 0 <= q < k ==> (#[trigger] rs[q]) matches Ok(_),
        rs[k] == Err::<Map<AccountId, AccountState>, VmError>(e),
    ensures
        spec_first_err(rs) == Some(e),
    decreases k,
{
    if k == 0 {
    } else {
        assert(rs[0] matches Ok(_));
        assert(forall|q: int|
            0 <= q < rs.drop_first().len() ==> #[trigger] rs.drop_first()[q] == rs[q + 1]);
        lemma_first_err_at(rs.drop_first(), k - 1, e);
    }
}

/// Merging one more view is one more overriding union.
proof fn lemma_merge_push(acc: Map<AccountId, AccountState>, vs: Seq<Map<AccountId, AccountState>>, v: Map<AccountId, AccountState>)
    ensures
        spec_merge_views(acc, vs.push(v)) == spec_merge_views(acc, vs).union_prefer_right(v),
    decreases vs.len(),
{
    if vs.len() == 0 {
        assert(vs.push(v)[0] == v);
        assert(vs.push(v).drop_first() =~= Seq::<Map<AccountId, AccountState>>::empty());
        assert(spec_merge_views(acc.union_prefer_right(v), vs.push(v).drop_first())
            == acc.union_prefer_right(v));
    } else {
        assert(vs.push(v)[0] == vs[0]);
        assert(vs.push(v).drop_first() =~= vs.drop_first().push(v));
        lemma_merge_push(acc.union_prefer_right(vs[0]), vs.drop_first(), v);
    }
}

/// Executes a block of transactions: batches run in scheduler order, and a
/// transfer-only batch of more than one transaction takes the isolated-view
/// path with a write-disjointness check before the merge.
pub struct BlockExecutor {
    vm: Vm,
    scheduler: TransactionScheduler,
}

impl BlockExecutor {
    pub fn new() -> (r: Self)
        ensures
            true,
    {
        BlockExecutor { vm: Vm::new(), scheduler: TransactionScheduler::new() }
    }

    /// Build the isolated view for one transfer: the accounts its access
    /// list names, read from the main store.
    fn build_view(&self, tx: &Transaction, state: &StateStore) -> (r: ExecutionView)
        requires
            state.wf(),
        ensures
            r.wf(),
            r@ == spec_view_of(state.accounts(), tx.access_list),
    {
        let ids = tx.access_list.all();
        let mut tbl = AccountTable::new();
        let mut p: usize = 0;
        while p < ids.len()
            invariant
                0 <= p <= ids@.len(),
                state.wf(),
                tbl.wf(),
                forall|id: AccountId|
                    tbl@.contains_key(id) <==> (ids@.take(p as int).contains(id)
                        && state.accounts().contains_key(id)),
                forall|id: AccountId| tbl@.contains_key(id) ==> tbl@[id] == state.accounts()[id],
            decreases ids@.len() - p,
        {
            let id = ids[p];
            match state.get(&id) {
                Some(st) => {
                    tbl.set(id, *st);
                },
                None => {},
            }
            proof {
                assert(ids@.take(p as int).push(ids@[p as int]) =~= ids@.take(p as int + 1));
                assert forall|id2: AccountId|
                    ids@.take(p as int + 1).contains(id2) <==> (ids@.take(p as int).contains(id2)
                        || id2 == ids@[p as int]) by {
                    if ids@.take(p as int + 1).contains(id2) {
                        let w = choose|w: int|
                            0 <= w < ids@.take(p as int + 1).len() && #[trigger] ids@.take(
                                p as int + 1,
                            )[w] == id2;
                        if w < p {
                            assert(ids@.take(p as int)[w] == id2);
                        }
                    }
                    if ids@.take(p as int).contains(id2) {
                        let w = choose|w: int|
                            0 <= w < ids@.take(p as int).len() && #[trigger] ids@.take(
                                p as int,
                            )[w] == id2;
                        assert(ids@.take(p as int + 1)[w] == id2);
                    }
                    if id2 == ids@[p as int] {
                        assert(ids@.take(p as int + 1)[p as int] == id2);
                    }
                }
            }
            p = p + 1;
        }
        proof {
            assert(ids@.take(ids@.len() as int) =~= ids@);
            assert(tbl@ =~= spec_view_of(state.accounts(), tx.access_list));
        }
        ExecutionView::from_snapshot(tbl)
    }

    /// Run one transfer-only batch on isolated views, check that no two
    /// views wrote the same account, and merge them back in batch order.
    fn run_parallel_batch(&self, txs: &Vec<Transaction>, batch: &Vec<usize>, state: &mut StateStore, gas_in: u64) -> (r: Result<u64, ExecutionError>)
        requires
            old(state).wf(),
            batch@.len() > 1,
            forall|q: int| 0 <= q < batch@.len() ==> batch@[q] < txs@.len(),
            spec_all_transfers(txs@, batch@),
        ensures
            final(state).wf(),
            ({
                let entry = BlockExecState {
                    acc: old(state).accounts(),
                    code: old(state).code(),
                    sto: old(state).storage(),
                    gas: gas_in,
                };
                match spec_apply_batch(txs@, batch@, entry) {
                    BlockOutcome::Done(st2) => {
                        &&& r matches Ok(g) && g == st2.gas
                        &&& final(state).accounts() == st2.acc
                        &&& final(state).code() == st2.code
                        &&& final(state).storage() == st2.sto
                    },
                    BlockOutcome::Failed(e, st2) => {
                        &&& r matches Err(e2) && e2 == e
                        &&& final(state).accounts() == st2.acc
                        &&& final(state).code() == st2.code
                        &&& final(state).storage() == st2.sto
                    },
                }
            }),
    {
        let ghost entry = BlockExecState {
            acc: state.accounts(),
            code: state.code(),
            sto: state.storage(),
            gas: gas_in,
        };
        let ghost rs = spec_par_results(txs@, batch@, entry.acc);
        let batch_len = batch.len();
        let mut views: Vec<ExecutionView> = Vec::new();
        let mut k: usize = 0;
        while k < batch_len
            invariant
                0 <= k <= batch_len,
                batch_len == batch@.len(),
                batch@.len() > 1,
                forall|q: int| 0 <= q < batch@.len() ==> batch@[q] < txs@.len(),
                spec_all_transfers(txs@, batch@),
                state.wf(),
                state.accounts() == entry.acc,
                state.code() == entry.code,
                state.storage() == entry.sto,
                entry == (BlockExecState {
                    acc: old(state).accounts(),
                    code: old(state).code(),
                    sto: old(state).storage(),
                    gas: gas_in,
                }),
                rs == spec_par_results(txs@, batch@, entry.acc),
                views@.len() == k,
                forall|q: int| 0 <= q < k ==> (#[trigger] rs[q]) matches Ok(_),
                forall|q: int| 0 <= q < k ==> (#[trigger] views@[q]).wf(),
                forall|q: int| 0 <= q < k ==> (#[trigger] views@[q])@ == ok_map(rs[q]),
            decreases batch_len - k,
        {
            let idx = batch[k];
            let mut view = self.build_view(&txs[idx], state);
            match self.vm.execute_transfer(&txs[idx], &mut view) {
                Ok(_) => {
                    proof {
                        assert(rs[k as int] == spec_execute_transfer_tx(
                            spec_view_of(entry.acc, txs@[batch@[k as int] as int].access_list),
                            txs@[batch@[k as int] as int],
                        ));
                    }
                    views.push(view);
                },
                Err(e) => {
                    proof {
                        assert(rs[k as int] == Err::<Map<AccountId, AccountState>, VmError>(e));
                        lemma_first_err_at(rs, k as int, e);
                        assert(spec_apply_batch(txs@, batch@, entry) == BlockOutcome::Failed(
                            ExecutionError::Vm(e),
                            entry,
                        ));
                    }
                    return Err(ExecutionError::Vm(e));
                },
            }
            k = k + 1;
        }
        let ghost vs = Seq::new(rs.len(), |q: int| ok_map(rs[q]));
        proof {
            lemma_first_err_none(rs);
            assert(forall|q: int| 0 <= q < vs.len() ==> vs[q] == (#[trigger] views@[q])@);
        }
        // Write-disjointness across the views.
        let mut seen: Vec<AccountId> = Vec::new();
        let mut p: usize = 0;
        while p < views.len()
            invariant
                0 <= p <= views@.len(),
                views@.len() == batch_len,
                batch_len == batch@.len(),
                batch@.len() > 1,
                forall|q: int| 0 <= q < batch@.len() ==> batch@[q] < txs@.len(),
                spec_all_transfers(txs@, batch@),
                state.wf(),
                state.accounts() == entry.acc,
                state.code() == entry.code,
                state.storage() == entry.sto,
                entry == (BlockExecState {
                    acc: old(state).accounts(),
                    code: old(state).code(),
                    sto: old(state).storage(),
                    gas: gas_in,
                }),
                rs == spec_par_results(txs@, batch@, entry.acc),
                spec_first_err(rs) matches None,
                vs == Seq::new(rs.len(), |q: int| ok_map(rs[q])),
                forall|q: int| 0 <= q < views@.len() ==> (#[trigger] views@[q]).wf(),
                forall|q: int| 0 <= q < views@.len() ==> (#[trigger] views@[q])@ == vs[q],
                forall|id: AccountId|
                    seen@.contains(id) <==> exists|q: int|
                        0 <= q < p && (#[trigger] vs[q]).contains_key(id),
                forall|q1: int, q2: int, id: AccountId|
                    0 <= q1 < q2 < p && #[trigger] vs[q1].contains_key(id)
                        ==> !#[trigger] vs[q2].contains_key(id),
            decreases views@.len() - p,
        {
            let ids = views[p].account_ids();
            let mut t: usize = 0;
            while t < ids.len()
                invariant
                    0 <= t <= ids@.len(),
                    p < views@.len(),
                    views@.len() == batch_len,
                    batch_len == batch@.len(),
                    batch@.len() > 1,
                    forall|q: int| 0 <= q < batch@.len() ==> batch@[q] < txs@.len(),
                    spec_all_transfers(txs@, batch@),
                    state.wf(),
                    state.accounts() == entry.acc,
                    state.code() == entry.code,
                    state.storage() == entry.sto,
                    entry == (BlockExecState {
                        acc: old(state).accounts(),
                        code: old(state).code(),
                        sto: old(state).storage(),
                        gas: gas_in,
                    }),
                    rs == spec_par_results(txs@, batch@, entry.acc),
                    spec_first_err(rs) matches None,
                    vs == Seq::new(rs.len(), |q: int| ok_map(rs[q])),
                    forall|q: int| 0 <= q < views@.len() ==> (#[trigger] views@[q]).wf(),
                    forall|q: int| 0 <= q < views@.len() ==> (#[trigger] views@[q])@ == vs[q],
                    forall|id: AccountId|
                        ids@.contains(id) <==> vs[p as int].contains_key(id),
                    forall|id: AccountId|
                        seen@.contains(id) <==> exists|q: int|
                            0 <= q < p && (#[trigger] vs[q]).contains_key(id),
                    forall|w: int| 0 <= w < t ==> !seen@.contains(ids@[w]),
                decreases ids@.len() - t,
            {
                if crate::types::contains_id(&seen, &ids[t]) {
                    proof {
                        assert(ids@.contains(ids@[t as int]));
                        assert(vs[p as int].contains_key(ids@[t as int]));
                        let q = choose|q: int|
                            0 <= q < p && (#[trigger] vs[q]).contains_key(ids@[t as int]);
                        assert(spec_doms_overlap(vs));
                        assert(spec_apply_batch(txs@, batch@, entry) == BlockOutcome::Failed(
                            ExecutionError::ConflictDetected,
                            entry,
                        ));
                    }
                    return Err(ExecutionError::ConflictDetected);
                }
                t = t + 1;
            }
            proof {
                assert forall|q1: int, id: AccountId|
                    0 <= q1 < p && #[trigger] vs[q1].contains_key(id) implies !vs[p as int].contains_key(id) by {
                    if vs[p as int].contains_key(id) {
                        assert(ids@.contains(id));
                        let w = choose|w: int| 0 <= w < ids@.len() && ids@[w] == id;
                        assert(!seen@.contains(ids@[w]));
                        assert(seen@.contains(id));
                    }
                }
            }
            let mut t2: usize = 0;
            while t2 < ids.len()
                invariant
                    0 <= t2 <= ids@.len(),
                    p < views@.len(),
                    views@.len() == batch_len,
                    forall|id: AccountId|
                        ids@.contains(id) <==> vs[p as int].contains_key(id),
                    forall|id: AccountId|
                        seen@.contains(id) <==> (exists|q: int|
                            0 <= q < p && (#[trigger] vs[q]).contains_key(id)) || ids@.take(
                            t2 as int,
                        ).contains(id),
                decreases ids@.len() - t2,
            {
                let ghost seen_pre = seen@;
                seen.push(ids[t2]);
                proof {
                    assert(seen@ == seen_pre.push(ids@[t2 as int]));
                    assert(ids@.take(t2 as int).push(ids@[t2 as int]) =~= ids@.take(t2 as int + 1));
                    assert forall|id: AccountId|
                        seen@.contains(id) <==> (exists|q: int|
                            0 <= q < p && (#[trigger] vs[q]).contains_key(id)) || ids@.take(
                            t2 as int + 1,
                        ).contains(id) by {
                        if seen@.contains(id) {
                            let w = choose|w: int| 0 <= w < seen@.len() && seen@[w] == id;
                            if w < seen_pre.len() {
                                assert(seen_pre[w] == id);
                                assert(seen_pre.contains(id));
                                if ids@.take(t2 as int).contains(id) {
                                    let w2 = choose|w2: int|
                                        0 <= w2 < t2 && #[trigger] ids@.take(t2 as int)[w2] == id;
                                    assert(ids@.take(t2 as int + 1)[w2] == id);
                                    assert(ids@.take(t2 as int + 1).contains(id));
                                }
                            } else {
                                assert(id == ids@[t2 as int]);
                                assert(ids@.take(t2 as int + 1)[t2 as int] == id);
                                assert(ids@.take(t2 as int + 1).contains(id));
                            }
                        }
                        if (exists|q: int| 0 <= q < p && (#[trigger] vs[q]).contains_key(id)) {
                            assert(seen_pre.contains(id));
                            let w = choose|w: int|
                                0 <= w < seen_pre.len() && seen_pre[w] == id;
                            assert(seen@[w] == id);
                            assert(seen@.contains(id));
                        }
                        if ids@.take(t2 as int + 1).contains(id) {
                            let w = choose|w: int|
                                0 <= w < t2 + 1 && #[trigger] ids@.take(t2 as int + 1)[w] == id;
                            if w < t2 {
                                assert(ids@.take(t2 as int)[w] == id);
                                assert(seen_pre.contains(id));
                                let w3 = choose|w3: int|
                                    0 <= w3 < seen_pre.len() && seen_pre[w3] == id;
                                assert(seen@[w3] == id);
                            } else {
                                assert(seen@[seen@.len() - 1] == id);
                            }
                            assert(seen@.contains(id));
                        }
                    }
                }
                t2 = t2 + 1;
            }
            proof {
                assert(ids@.take(ids@.len() as int) =~= ids@);
                assert forall|id: AccountId|
                    seen@.contains(id) <==> exists|q: int|
                        0 <= q < p + 1 && (#[trigger] vs[q]).contains_key(id) by {
                    if seen@.contains(id) {
                        if ids@.contains(id) {
                            assert(vs[p as int].contains_key(id));
                        }
                    }
                    if exists|q: int| 0 <= q < p + 1 && (#[trigger] vs[q]).contains_key(id) {
                        let q = choose|q: int|
                            0 <= q < p + 1 && (#[trigger] vs[q]).contains_key(id);
                        if q == p {
                            assert(ids@.contains(id));
                        }
                    }
                }
            }
            p = p + 1;
        }
        proof {
            assert(!spec_doms_overlap(vs)) by {
                if spec_doms_overlap(vs) {
                    let (p0, q0, id0) = choose|p0: int, q0: int, id0: AccountId|
                        0 <= p0 < q0 < vs.len() && vs[p0].contains_key(id0)
                            && vs[q0].contains_key(id0);
                    assert(false);
                }
            }
        }
        // Merge, in batch order.
        let ghost acc0 = state.accounts();
        let mut total = gas_in;
        let mut m: usize = 0;
        proof {
            assert(vs.take(0) =~= Seq::<Map<AccountId, AccountState>>::empty());
        }
        while m < views.len()
            invariant
                0 <= m <= views@.len(),
                views@.len() == batch_len,
                batch_len == batch@.len(),
                batch@.len() > 1,
                spec_all_transfers(txs@, batch@),
                vs.len() == batch_len,
                state.wf(),
                acc0 == entry.acc,
                entry == (BlockExecState {
                    acc: old(state).accounts(),
                    code: old(state).code(),
                    sto: old(state).storage(),
                    gas: gas_in,
                }),
                rs == spec_par_results(txs@, batch@, entry.acc),
                spec_first_err(rs) matches None,
                !spec_doms_overlap(vs),
                vs == Seq::new(rs.len(), |q: int| ok_map(rs[q])),
                forall|q: int| 0 <= q < views@.len() ==> (#[trigger] views@[q]).wf(),
                forall|q: int| 0 <= q < views@.len() ==> (#[trigger] views@[q])@ == vs[q],
                state.code() == entry.code,
                state.storage() == entry.sto,
                state.accounts() == spec_merge_views(acc0, vs.take(m as int)),
                total == spec_gas_fold(entry.gas, m as int),
            decreases views@.len() - m,
        {
            views[m].merge_into(state);
            total = sat_add_u64(total, GAS_PER_TRANSFER);
            proof {
                assert(vs.take(m as int).push(vs[m as int]) =~= vs.take(m as int + 1));
                lemma_merge_push(acc0, vs.take(m as int), vs[m as int]);
            }
            m = m + 1;
        }
        proof {
            assert(vs.take(vs.len() as int) =~= vs);
            assert(spec_apply_batch(txs@, batch@, entry) == BlockOutcome::Done(BlockExecState {
                acc: spec_merge_views(entry.acc, vs),
                code: entry.code,
                sto: entry.sto,
                gas: spec_gas_fold(entry.gas, batch@.len() as int),
            }));
        }
        Ok(total)
    }

    /// Run one batch sequentially against the main store, in batch order.
    fn run_sequential_batch(&self, txs: &Vec<Transaction>, batch: &Vec<usize>, state: &mut StateStore, gas_in: u64) -> (r: Result<u64, ExecutionError>)
        requires
            old(state).wf(),
            forall|q: int| 0 <= q < batch@.len() ==> batch@[q] < txs@.len(),
        ensures
            final(state).wf(),
            ({
                let entry = BlockExecState {
                    acc: old(state).accounts(),
                    code: old(state).code(),
                    sto: old(state).storage(),
                    gas: gas_in,
                };
                match spec_apply_seq(txs@, batch@, entry, 0) {
                    BlockOutcome::Done(st2) => {
                        &&& r matches Ok(g) && g == st2.gas
                        &&& final(state).accounts() == st2.acc
                        &&& final(state).code() == st2.code
                        &&& final(state).storage() == st2.sto
                    },
                    BlockOutcome::Failed(e, st2) => {
                        &&& r matches Err(e2) && e2 == e
                        &&& final(state).accounts() == st2.acc
                        &&& final(state).code() == st2.code
                        &&& final(state).storage() == st2.sto
                    },
                }
            }),
    {
        let ghost entry = BlockExecState {
            acc: state.accounts(),
            code: state.code(),
            sto: state.storage(),
            gas: gas_in,
        };
        let batch_len = batch.len();
        let mut total = gas_in;
        let mut k: usize = 0;
        while k < batch_len
            invariant
                0 <= k <= batch_len,
                batch_len == batch@.len(),
                forall|q: int| 0 <= q < batch@.len() ==> batch@[q] < txs@.len(),
                state.wf(),
                entry == (BlockExecState {
                    acc: old(state).accounts(),
                    code: old(state).code(),
                    sto: old(state).storage(),
                    gas: gas_in,
                }),
                spec_apply_seq(
                    txs@,
                    batch@,
                    BlockExecState {
                        acc: state.accounts(),
                        code: state.code(),
                        sto: state.storage(),
                        gas: total,
                    },
                    k as int,
                ) == spec_apply_seq(txs@, batch@, entry, 0),
            decreases batch_len - k,
        {
            let idx = batch[k];
            match self.vm.execute(&txs[idx], state) {
                Ok(g) => {
                    total = sat_add_u64(total, g);
                },
                Err(e) => {
                    return Err(ExecutionError::Vm(e));
                },
            }
            k = k + 1;
        }
        Ok(total)
    }

    /// Execute all transactions; returns the saturating total gas. On an
    /// error the state keeps the batches already applied, and the caller is
    /// expected to revert to its own checkpoint.
    pub fn execute_block(&self, txs: &Vec<Transaction>, state: &mut StateStore) -> (r: Result<
        u64,
        ExecutionError,
    >)
        requires
            old(state).wf(),
        ensures
            final(state).wf(),
            match spec_execute_block(
                txs@,
                old(state).accounts(),
                old(state).code(),
                old(state).storage(),
            ) {
                BlockOutcome::Done(st) => {
                    &&& r matches Ok(g) && g == st.gas
                    &&& final(state).accounts() == st.acc
                    &&& final(state).code() == st.code
                    &&& final(state).storage() == st.sto
                },
                BlockOutcome::Failed(e, st) => {
                    &&& r matches Err(e2) && e2 == e
                    &&& final(state).accounts() == st.acc
                    &&& final(state).code() == st.code
                    &&& final(state).storage() == st.sto
                },
            },
    {
        let n = txs.len();
        let batches = self.scheduler.schedule(txs);
        proof {
            lemma_schedule_bounds(txs@, Seq::new(txs@.len(), |i: int| false), 0);
        }
        let ghost sched = spec_schedule(txs@);
        let ghost full = spec_execute_block(
            txs@,
            state.accounts(),
            state.code(),
            state.storage(),
        );
        let mut total_gas: u64 = 0;
        let mut b: usize = 0;
        while b < batches.len()
            invariant
                0 <= b <= batches@.len(),
                n == txs@.len(),
                batches_view(batches@) == sched,
                sched == spec_schedule(txs@),
                forall|bb: int, q: int|
                    0 <= bb < sched.len() && 0 <= q < sched[bb].len() ==> #[trigger] sched[bb][q]
                        < n,
                state.wf(),
                full == spec_execute_block(
                    txs@,
                    old(state).accounts(),
                    old(state).code(),
                    old(state).storage(),
                ),
                spec_apply_batches(
                    txs@,
                    sched,
                    BlockExecState {
                        acc: state.accounts(),
                        code: state.code(),
                        sto: state.storage(),
                        gas: total_gas,
                    },
                    b as int,
                ) == full,
            decreases batches@.len() - b,
        {
            let batch_len = batches[b].len();
            let ghost bt = sched[b as int];
            let ghost st_entry = BlockExecState {
                acc: state.accounts(),
                code: state.code(),
                sto: state.storage(),
                gas: total_gas,
            };
            proof {
                assert(bt == batches@[b as int]@);
            }
            let mut all_transfer = true;
            let mut k: usize = 0;
            while k < batch_len
                invariant
                    0 <= k <= batch_len,
                    b < batches@.len(),
                    batch_len == batches@[b as int]@.len(),
                    bt == batches@[b as int]@,
                    n == txs@.len(),
                    forall|q: int| 0 <= q < bt.len() ==> bt[q] < n,
                    all_transfer == (forall|q: int|
                        0 <= q < k
                            ==> txs@[#[trigger] bt[q] as int].payload matches TransactionPayload::Transfer { .. }),
                decreases batch_len - k,
            {
                let idx = batches[b][k];
                match &txs[idx].payload {
                    TransactionPayload::Transfer { .. } => {},
                    _ => {
                        all_transfer = false;
                    },
                }
                k = k + 1;
            }
            proof {
                assert(all_transfer == spec_all_transfers(txs@, bt));
            }
            let step = if all_transfer && batch_len > 1 {
                self.run_parallel_batch(txs, &batches[b], state, total_gas)
            } else {
                self.run_sequential_batch(txs, &batches[b], state, total_gas)
            };
            match step {
                Ok(g) => {
                    proof {
                        assert(spec_apply_batch(txs@, bt, st_entry) matches BlockOutcome::Done(
                            st2,
                        ) && st2.acc == state.accounts() && st2.code == state.code() && st2.sto
                            == state.storage() && st2.gas == g);
                    }
                    total_gas = g;
                },
                Err(e) => {
                    proof {
                        assert(spec_apply_batch(txs@, bt, st_entry) matches BlockOutcome::Failed(
                            e2,
                            st2,
                        ) && e2 == e && st2.acc == state.accounts() && st2.code == state.code()
                            && st2.sto == state.storage());
                    }
                    return Err(e);
                },
            }
            b = b + 1;
        }
        Ok(total_gas)
    }
}

impl Default for BlockExecutor {
    fn default() -> (r: Self) {
        BlockExecutor { vm: Vm::new(), scheduler: TransactionScheduler::new() }
    }
}


/// Presence and value agreement of two account maps at one account.
pub open spec fn agree_at(m1: Map<AccountId, AccountState>, m2: Map<AccountId, AccountState>, id: AccountId) -> bool {
    m1.contains_key(id) == m2.contains_key(id) && (m1.contains_key(id) ==> m1[id] == m2[id])
}

/// A transfer reads only the sender and the recipient: on maps that agree
/// there, it fails alike or succeeds alike, changing only those two
/// accounts, identically.
proof fn lemma_transfer_local(m1: Map<AccountId, AccountState>, m2: Map<AccountId, AccountState>, tx: Transaction)
    requires
        tx.payload matches TransactionPayload::Transfer { .. },
        agree_at(m1, m2, tx.sender),
        tx.payload matches TransactionPayload::Transfer { to, .. } ==> agree_at(m1, m2, to),
    ensures
        ({
            let r1 = spec_execute_transfer_tx(m1, tx);
            let r2 = spec_execute_transfer_tx(m2, tx);
            match (r1, r2) {
                (Ok(p1), Ok(p2)) => {
                    &&& agree_at(p1, p2, tx.sender)
                    &&& (tx.payload matches TransactionPayload::Transfer { to, .. } ==> agree_at(
                        p1,
                        p2,
                        to,
                    ))
                    &&& forall|id: AccountId|
                        id != tx.sender && !(tx.payload matches TransactionPayload::Transfer {
                            to,
                            ..
                        } && to == id) ==> #[trigger] agree_at(p1, m1, id) && agree_at(p2, m2, id)
                },
                (Err(e1), Err(e2)) => e1 == e2,
                _ => false,
            }
        }),
{
}

/// The hypotheses of the parallel path: every member is a transfer whose
/// access list names its own sender and recipient, and the lists are
/// pairwise disjoint.
pub open spec fn batch_independent(txs: Seq<Transaction>, batch: Seq<usize>) -> bool {
    &&& forall|k: int| 0 <= k < batch.len() ==> #[trigger] batch[k] < txs.len()
    &&& spec_all_transfers(txs, batch)
    &&& forall|k: int|
        0 <= k < batch.len() ==> txs[#[trigger] batch[k] as int].access_list.spec_touches(
            txs[batch[k] as int].sender,
        )
    &&& forall|k: int|
        0 <= k < batch.len() ==> (txs[#[trigger] batch[k] as int].payload
            matches TransactionPayload::Transfer { to, .. } ==> txs[batch[k] as int].access_list.spec_touches(to))
    &&& forall|k1: int, k2: int|
        0 <= k1 < k2 < batch.len() ==> !txs[#[trigger] batch[k1] as int].access_list.spec_conflicts(
            txs[#[trigger] batch[k2] as int].access_list,
        )
}

/// Looking up a merged map with pairwise-disjoint view domains: a view that
/// holds the account decides it; otherwise the base map does.
proof fn lemma_merge_lookup(acc: Map<AccountId, AccountState>, vs: Seq<Map<AccountId, AccountState>>, id: AccountId)
    requires
        forall|p: int, q: int|
            0 <= p < q < vs.len() ==> !(exists|x: AccountId|
                (#[trigger] vs[p]).contains_key(x) && (#[trigger] vs[q]).contains_key(x)),
    ensures
        (exists|j: int| 0 <= j < vs.len() && (#[trigger] vs[j]).contains_key(id)) ==> ({
            let j = choose|j: int| 0 <= j < vs.len() && (#[trigger] vs[j]).contains_key(id);
            spec_merge_views(acc, vs).contains_key(id) && spec_merge_views(acc, vs)[id] == vs[j][id]
        }),
        (forall|j: int| 0 <= j < vs.len() ==> !(#[trigger] vs[j]).contains_key(id)) ==> agree_at(
            spec_merge_views(acc, vs),
            acc,
            id,
        ),
    decreases vs.len(),
{
    if vs.len() > 0 {
        let tail = vs.drop_first();
        assert(forall|i: int| 0 <= i < tail.len() ==> #[trigger] tail[i] == vs[i + 1]);
        lemma_merge_lookup(acc.union_prefer_right(vs[0]), tail, id);
        if exists|j: int| 0 <= j < vs.len() && (#[trigger] vs[j]).contains_key(id) {
            let j = choose|j: int| 0 <= j < vs.len() && (#[trigger] vs[j]).contains_key(id);
            if j == 0 {
                assert(forall|jj: int|
                    0 <= jj < tail.len() ==> !(#[trigger] tail[jj]).contains_key(id)) by {
                    assert forall|jj: int|
                        0 <= jj < tail.len() implies !(#[trigger] tail[jj]).contains_key(id) by {
                        if tail[jj].contains_key(id) {
                            assert(vs[jj + 1].contains_key(id) && vs[0].contains_key(id));
                        }
                    }
                }
                assert(acc.union_prefer_right(vs[0]).contains_key(id));
                assert(acc.union_prefer_right(vs[0])[id] == vs[0][id]);
            } else {
                assert(tail[j - 1].contains_key(id));
                assert(exists|jj: int| 0 <= jj < tail.len() && (#[trigger] tail[jj]).contains_key(id));
                let jt = choose|jj: int|
                    0 <= jj < tail.len() && (#[trigger] tail[jj]).contains_key(id);
                assert(vs[jt + 1].contains_key(id));
                assert(jt + 1 == j) by {
                    if jt + 1 != j {
                        assert(vs[jt + 1].contains_key(id) && vs[j].contains_key(id));
                    }
                }
            }
        } else {
            assert(forall|jj: int| 0 <= jj < tail.len() ==> !(#[trigger] tail[jj]).contains_key(id));
            assert(!vs[0].contains_key(id));
            assert(agree_at(acc.union_prefer_right(vs[0]), acc, id));
        }
    }
}

/// Parallel execution of an independent transfer batch agrees with running
/// it sequentially: when the isolated-view path completes, the merged state
/// and the gas are exactly what in-order sequential execution yields.
pub proof fn lemma_parallel_matches_sequential(txs: Seq<Transaction>, batch: Seq<usize>, st: BlockExecState)
    requires
        batch.len() > 1,
        batch_independent(txs, batch),
        spec_apply_batch(txs, batch, st) matches BlockOutcome::Done(_),
    ensures
        spec_apply_batch(txs, batch, st) == spec_apply_seq(txs, batch, st, 0),
{
    let rs = spec_par_results(txs, batch, st.acc);
    let vs = Seq::new(rs.len(), |k: int| ok_map(rs[k]));
    lemma_first_err_all_ok(rs);
    assert(!spec_doms_overlap(vs));
    lemma_par_seq_suffix(txs, batch, st, 0);
    assert(vs.take(0) =~= Seq::<Map<AccountId, AccountState>>::empty());
    assert(spec_merge_views(st.acc, vs.take(0)) == st.acc);
    assert(spec_gas_fold(st.gas, 0) == st.gas);
    let st0 = BlockExecState {
        acc: spec_merge_views(st.acc, vs.take(0)),
        code: st.code,
        sto: st.sto,
        gas: spec_gas_fold(st.gas, 0),
    };
    assert(st0 =~= st);
}

/// A result list with no first error is all successes.
proof fn lemma_first_err_all_ok(rs: Seq<Result<Map<AccountId, AccountState>, VmError>>)
    requires
        spec_first_err(rs) matches None,
    ensures
        forall|k: int| 0 <= k < rs.len() ==> (#[trigger] rs[k]) matches Ok(_),
    decreases rs.len(),
{
    if rs.len() > 0 {
        assert(rs[0] matches Ok(_));
        assert(spec_first_err(rs.drop_first()) matches None);
        lemma_first_err_all_ok(rs.drop_first());
        assert forall|k: int| 0 <= k < rs.len() implies (#[trigger] rs[k]) matches Ok(_) by {
            if k > 0 {
                assert(rs.drop_first()[k - 1] == rs[k]);
                assert(rs.drop_first()[k - 1] matches Ok(_));
            }
        }
    }
}

/// The inductive step: from position `k`, sequential execution on the
/// partially merged state lands on the fully merged state.
proof fn lemma_par_seq_suffix(txs: Seq<Transaction>, batch: Seq<usize>, st: BlockExecState, k: int)
    requires
        batch_independent(txs, batch),
        0 <= k <= batch.len(),
        spec_first_err(spec_par_results(txs, batch, st.acc)) matches None,
        !spec_doms_overlap(
            Seq::new(batch.len() as nat, |q: int| ok_map(spec_par_results(txs, batch, st.acc)[q])),
        ),
    ensures
        ({
            let rs = spec_par_results(txs, batch, st.acc);
            let vs = Seq::new(batch.len() as nat, |q: int| ok_map(rs[q]));
            spec_apply_seq(
                txs,
                batch,
                BlockExecState {
                    acc: spec_merge_views(st.acc, vs.take(k)),
                    code: st.code,
                    sto: st.sto,
                    gas: spec_gas_fold(st.gas, k),
                },
                k,
            ) == BlockOutcome::Done(
                BlockExecState {
                    acc: spec_merge_views(st.acc, vs),
                    code: st.code,
                    sto: st.sto,
                    gas: spec_gas_fold(st.gas, batch.len() as int),
                },
            )
        }),
    decreases batch.len() - k,
{
    let rs = spec_par_results(txs, batch, st.acc);
    let vs = Seq::new(batch.len() as nat, |q: int| ok_map(rs[q]));
    lemma_first_err_all_ok(rs);
    assert(forall|p: int, q: int|
        0 <= p < q < vs.len() ==> !(exists|x: AccountId|
            (#[trigger] vs[p]).contains_key(x) && (#[trigger] vs[q]).contains_key(x))) by {
        assert forall|p: int, q: int|
            0 <= p < q < vs.len() implies !(exists|x: AccountId|
            (#[trigger] vs[p]).contains_key(x) && (#[trigger] vs[q]).contains_key(x)) by {
            if exists|x: AccountId| vs[p].contains_key(x) && (#[trigger] vs[q]).contains_key(x) {
                let x = choose|x: AccountId|
                    vs[p].contains_key(x) && (#[trigger] vs[q]).contains_key(x);
                assert(spec_doms_overlap(vs));
            }
        }
    }
    if k == batch.len() {
        assert(vs.take(k) =~= vs);
    } else {
        let tx = txs[batch[k] as int];
        let to = match tx.payload {
            TransactionPayload::Transfer { to, .. } => to,
            _ => arbitrary(),
        };
        let view_pre = spec_view_of(st.acc, tx.access_list);
        let mk = spec_merge_views(st.acc, vs.take(k));
        // Earlier views hold only accounts their own access lists touch,
        // which are disjoint from this transaction's, so the partial merge
        // agrees with the entry state on everything this transfer reads.
        assert forall|id: AccountId|
            tx.access_list.spec_touches(id) implies agree_at(mk, st.acc, id) by {
            lemma_merge_lookup(st.acc, vs.take(k), id);
            assert(forall|j: int|
                0 <= j < vs.take(k).len() ==> !(#[trigger] vs.take(k)[j]).contains_key(id)) by {
                assert forall|j: int|
                    0 <= j < vs.take(k).len() implies !(#[trigger] vs.take(k)[j]).contains_key(
                    id,
                ) by {
                    if vs.take(k)[j].contains_key(id) {
                        assert(vs[j].contains_key(id));
                        lemma_view_contains(txs, batch, st, j, id);
                        assert(txs[batch[j] as int].access_list.spec_conflicts(tx.access_list));
                    }
                }
            }
        }
        assert(agree_at(mk, view_pre, tx.sender)) by {
            assert(agree_at(mk, st.acc, tx.sender));
        }
        assert(agree_at(mk, view_pre, to)) by {
            assert(agree_at(mk, st.acc, to));
        }
        lemma_transfer_local(mk, view_pre, tx);
        assert(rs[k] == spec_execute_transfer_tx(view_pre, tx));
        assert(rs[k] matches Ok(_));
        let pk = match spec_execute_transfer_tx(mk, tx) {
            Ok(p) => p,
            Err(_) => arbitrary(),
        };
        assert(spec_execute_tx(mk, st.code, st.sto, tx) matches Ok(q) && q.0 == pk && q.1
            == st.code && q.2 == st.sto && q.3 == GAS_PER_TRANSFER) by {
            assert(spec_execute_transfer_tx(mk, tx) matches Ok(_));
        }
        // The post state of the sequential step is the next partial merge.
        assert(pk =~= spec_merge_views(st.acc, vs.take(k + 1))) by {
            assert(vs.take(k).push(vs[k]) =~= vs.take(k + 1));
            lemma_merge_push(st.acc, vs.take(k), vs[k]);
            let mk1 = spec_merge_views(st.acc, vs.take(k)).union_prefer_right(vs[k]);
            assert forall|id: AccountId|
                (pk.contains_key(id) == mk1.contains_key(id)) && (pk.contains_key(id)
                    ==> pk[id] == mk1[id]) by {
                if id == tx.sender || id == to {
                    assert(agree_at(pk, vs[k], id));
                    assert(vs[k].contains_key(id));
                } else {
                    assert(agree_at(pk, mk, id));
                    if vs[k].contains_key(id) {
                        lemma_view_frame(txs, batch, st, k, id);
                        assert(agree_at(mk, st.acc, id)) by {
                            lemma_view_contains(txs, batch, st, k, id);
                            lemma_merge_lookup(st.acc, vs.take(k), id);
                            assert(forall|j: int|
                                0 <= j < vs.take(k).len() ==> !(
                                #[trigger] vs.take(k)[j]).contains_key(id)) by {
                                assert forall|j: int|
                                    0 <= j < vs.take(k).len() implies !(
                                #[trigger] vs.take(k)[j]).contains_key(id) by {
                                    if vs.take(k)[j].contains_key(id) {
                                        assert(vs[j].contains_key(id) && vs[k].contains_key(id));
                                        assert(spec_doms_overlap(vs));
                                    }
                                }
                            }
                        }
                    }
                }
            }
        }
        assert(spec_gas_fold(spec_sat_add_u64(spec_gas_fold(st.gas, k), GAS_PER_TRANSFER), 0)
            == spec_sat_add_u64(spec_gas_fold(st.gas, k), GAS_PER_TRANSFER));
        assert(spec_sat_add_u64(spec_gas_fold(st.gas, k), GAS_PER_TRANSFER) == spec_gas_fold(
            st.gas,
            k + 1,
        ));
        lemma_par_seq_suffix(txs, batch, st, k + 1);
        assert(BlockExecState {
            acc: pk,
            code: st.code,
            sto: st.sto,
            gas: spec_sat_add_u64(spec_gas_fold(st.gas, k), GAS_PER_TRANSFER),
        } =~= BlockExecState {
            acc: spec_merge_views(st.acc, vs.take(k + 1)),
            code: st.code,
            sto: st.sto,
            gas: spec_gas_fold(st.gas, k + 1),
        });
    }
}

/// What a view after a successful transfer holds: the accounts its access
/// list names, its sender and its recipient; all within its access list.
proof fn lemma_view_contains(txs: Seq<Transaction>, batch: Seq<usize>, st: BlockExecState, j: int, id: AccountId)
    requires
        batch_independent(txs, batch),
        0 <= j < batch.len(),
        spec_par_results(txs, batch, st.acc)[j] matches Ok(_),
        ok_map(spec_par_results(txs, batch, st.acc)[j]).contains_key(id),
    ensures
        txs[batch[j] as int].access_list.spec_touches(id),
{
    let tx = txs[batch[j] as int];
    let view_pre = spec_view_of(st.acc, tx.access_list);
    lemma_transfer_local(view_pre, view_pre, tx);
}

/// Accounts a view holds beyond the transfer's sender and recipient keep
/// their entry-state value.
proof fn lemma_view_frame(txs: Seq<Transaction>, batch: Seq<usize>, st: BlockExecState, j: int, id: AccountId)
    requires
        batch_independent(txs, batch),
        0 <= j < batch.len(),
        spec_par_results(txs, batch, st.acc)[j] matches Ok(_),
        ok_map(spec_par_results(txs, batch, st.acc)[j]).contains_key(id),
        id != txs[batch[j] as int].sender,
        !(txs[batch[j] as int].payload matches TransactionPayload::Transfer { to, .. } && to
            == id),
    ensures
        agree_at(ok_map(spec_par_results(txs, batch, st.acc)[j]), st.acc, id),
{
    let tx = txs[batch[j] as int];
    let view_pre = spec_view_of(st.acc, tx.access_list);
    lemma_transfer_local(view_pre, view_pre, tx);
    assert(agree_at(ok_map(spec_par_results(txs, batch, st.acc)[j]), view_pre, id));
}


/// Whether an account list names every party of every transfer in a batch.
pub open spec fn ids_cover_batch(txs: Seq<Transaction>, batch: Seq<usize>, ids: Seq<AccountId>) -> bool {
    &&& forall|q: int|
        0 <= q < batch.len() ==> ids.contains(txs[#[trigger] batch[q] as int].sender)
    &&& forall|q: int|
        0 <= q < batch.len() ==> (txs[#[trigger] batch[q] as int].payload
            matches TransactionPayload::Transfer { to, .. } ==> ids.contains(to))
}

/// Sequential execution of a transfer batch conserves the listed balance
/// sum, provided the sum fits the balance type.
proof fn lemma_seq_conserves(txs: Seq<Transaction>, batch: Seq<usize>, st: BlockExecState, k: int, ids: Seq<AccountId>)
    requires
        0 <= k <= batch.len(),
        forall|q: int| 0 <= q < batch.len() ==> #[trigger] batch[q] < txs.len(),
        spec_all_transfers(txs, batch),
        ids_cover_batch(txs, batch, ids),
        forall|i: int, j: int| 0 <= i < j < ids.len() ==> ids[i] != ids[j],
        crate::vm::spec_balance_sum(ids, st.acc) <= u128::MAX,
        spec_apply_seq(txs, batch, st, k) matches BlockOutcome::Done(_),
    ensures
        spec_apply_seq(txs, batch, st, k) matches BlockOutcome::Done(d)
            && crate::vm::spec_balance_sum(ids, d.acc) == crate::vm::spec_balance_sum(ids, st.acc),
    decreases batch.len() - k,
{
    if k < batch.len() {
        let tx = txs[batch[k] as int];
        let (to, amount) = match tx.payload {
            TransactionPayload::Transfer { to, amount } => (to, amount),
            _ => arbitrary(),
        };
        assert(spec_execute_tx(st.acc, st.code, st.sto, tx) matches Ok(_)) by {
            if spec_execute_tx(st.acc, st.code, st.sto, tx) matches Err(_) {
                assert(spec_apply_seq(txs, batch, st, k) matches BlockOutcome::Failed(_, _));
            }
        }
        let q = match spec_execute_tx(st.acc, st.code, st.sto, tx) {
            Ok(q) => q,
            Err(_) => arbitrary(),
        };
        assert(crate::vm::spec_transfer(st.acc, tx.sender, tx.nonce, to, amount) matches Ok(a) && a == q.0
            && q.1 == st.code && q.2 == st.sto);
        // The credit cannot saturate: both parties' balances fit under the
        // listed sum, which fits the balance type.
        if st.acc.contains_key(to) && tx.sender != to {
            crate::vm::lemma_two_members_le_sum(ids, st.acc, tx.sender, to);
        }
        crate::vm::lemma_transfer_conserves(st.acc, tx.sender, tx.nonce, to, amount, ids);
        let st2 = BlockExecState {
            acc: q.0,
            code: q.1,
            sto: q.2,
            gas: spec_sat_add_u64(st.gas, q.3),
        };
        lemma_seq_conserves(txs, batch, st2, k + 1, ids);
    }
}

/// One batch — parallel or sequential — conserves the listed balance sum.
proof fn lemma_batch_conserves(txs: Seq<Transaction>, batch: Seq<usize>, st: BlockExecState, ids: Seq<AccountId>)
    requires
        forall|q: int| 0 <= q < batch.len() ==> #[trigger] batch[q] < txs.len(),
        spec_all_transfers(txs, batch),
        // Access lists name their own parties: the scheduler's trust input.
        forall|q: int|
            0 <= q < batch.len() ==> txs[#[trigger] batch[q] as int].access_list.spec_touches(
                txs[batch[q] as int].sender,
            ),
        forall|q: int|
            0 <= q < batch.len() ==> (txs[#[trigger] batch[q] as int].payload
                matches TransactionPayload::Transfer { to, .. } ==> txs[batch[q] as int].access_list.spec_touches(to)),
        crate::scheduler::batch_disjoint(txs, batch),
        ids_cover_batch(txs, batch, ids),
        forall|i: int, j: int| 0 <= i < j < ids.len() ==> ids[i] != ids[j],
        crate::vm::spec_balance_sum(ids, st.acc) <= u128::MAX,
        spec_apply_batch(txs, batch, st) matches BlockOutcome::Done(_),
    ensures
        spec_apply_batch(txs, batch, st) matches BlockOutcome::Done(d)
            && crate::vm::spec_balance_sum(ids, d.acc) == crate::vm::spec_balance_sum(ids, st.acc),
{
    if batch.len() > 1 && spec_all_transfers(txs, batch) {
        assert(batch_independent(txs, batch));
        lemma_parallel_matches_sequential(txs, batch, st);
        lemma_seq_conserves(txs, batch, st, 0, ids);
    } else {
        lemma_seq_conserves(txs, batch, st, 0, ids);
    }
}

/// The batch fold conserves the listed balance sum.
proof fn lemma_batches_conserve(txs: Seq<Transaction>, batches: Seq<Seq<usize>>, st: BlockExecState, b: int, ids: Seq<AccountId>)
    requires
        0 <= b <= batches.len(),
        forall|bb: int, q: int|
            0 <= bb < batches.len() && 0 <= q < batches[bb].len()
                ==> #[trigger] batches[bb][q] < txs.len(),
        forall|bb: int|
            0 <= bb < batches.len() ==> crate::scheduler::batch_disjoint(
                txs,
                #[trigger] batches[bb],
            ),
        forall|k: int|
            0 <= k < txs.len() ==> (#[trigger] txs[k]).payload
                matches TransactionPayload::Transfer { .. },
        forall|k: int|
            0 <= k < txs.len() ==> (#[trigger] txs[k]).access_list.spec_touches(txs[k].sender),
        forall|k: int|
            0 <= k < txs.len() ==> ((#[trigger] txs[k]).payload
                matches TransactionPayload::Transfer { to, .. } ==> txs[k].access_list.spec_touches(to)),
        forall|k: int| 0 <= k < txs.len() ==> ids.contains((#[trigger] txs[k]).sender),
        forall|k: int|
            0 <= k < txs.len() ==> ((#[trigger] txs[k]).payload
                matches TransactionPayload::Transfer { to, .. } ==> ids.contains(to)),
        forall|i: int, j: int| 0 <= i < j < ids.len() ==> ids[i] != ids[j],
        crate::vm::spec_balance_sum(ids, st.acc) <= u128::MAX,
        spec_apply_batches(txs, batches, st, b) matches BlockOutcome::Done(_),
    ensures
        spec_apply_batches(txs, batches, st, b) matches BlockOutcome::Done(d)
            && crate::vm::spec_balance_sum(ids, d.acc) == crate::vm::spec_balance_sum(ids, st.acc),
    decreases batches.len() - b,
{
    if b < batches.len() {
        let batch = batches[b];
        assert(spec_apply_batch(txs, batch, st) matches BlockOutcome::Done(_)) by {
            if spec_apply_batch(txs, batch, st) matches BlockOutcome::Failed(_, _) {
                assert(spec_apply_batches(txs, batches, st, b)
                    matches BlockOutcome::Failed(_, _));
            }
        }
        assert(spec_all_transfers(txs, batch));
        assert(ids_cover_batch(txs, batch, ids));
        lemma_batch_conserves(txs, batch, st, ids);
        let st2 = match spec_apply_batch(txs, batch, st) {
            BlockOutcome::Done(d) => d,
            BlockOutcome::Failed(_, _) => arbitrary(),
        };
        lemma_batches_conserve(txs, batches, st2, b + 1, ids);
    }
}

/// Balance conservation across a whole block: an all-transfer block whose
/// access lists name their own parties and that executes to completion
/// moves balance without creating or destroying any, on the parallel and
/// the sequential path alike. The account list must cover every party, and
/// its total must fit the balance type (which rules the saturating credit
/// out).
pub proof fn lemma_execute_block_conserves(txs: Seq<Transaction>, acc: Map<AccountId, AccountState>, code: Map<AccountId, Seq<u8>>, sto: Map<(AccountId, Seq<u8>), Seq<u8>>, ids: Seq<AccountId>)
    requires
        txs.len() <= usize::MAX,
        forall|k: int|
            0 <= k < txs.len() ==> (#[trigger] txs[k]).payload
                matches TransactionPayload::Transfer { .. },
        forall|k: int|
            0 <= k < txs.len() ==> (#[trigger] txs[k]).access_list.spec_touches(txs[k].sender),
        forall|k: int|
            0 <= k < txs.len() ==> ((#[trigger] txs[k]).payload
                matches TransactionPayload::Transfer { to, .. } ==> txs[k].access_list.spec_touches(to)),
        forall|k: int| 0 <= k < txs.len() ==> ids.contains((#[trigger] txs[k]).sender),
        forall|k: int|
            0 <= k < txs.len() ==> ((#[trigger] txs[k]).payload
                matches TransactionPayload::Transfer { to, .. } ==> ids.contains(to)),
        forall|i: int, j: int| 0 <= i < j < ids.len() ==> ids[i] != ids[j],
        crate::vm::spec_balance_sum(ids, acc) <= u128::MAX,
        spec_execute_block(txs, acc, code, sto) matches BlockOutcome::Done(_),
    ensures
        spec_execute_block(txs, acc, code, sto) matches BlockOutcome::Done(st)
            && crate::vm::spec_balance_sum(ids, st.acc) == crate::vm::spec_balance_sum(ids, acc),
{
    let a0 = Seq::new(txs.len(), |i: int| false);
    lemma_schedule_bounds(txs, a0, 0);
    crate::scheduler::lemma_schedule_disjoint(txs, a0, 0);
    lemma_batches_conserve(
        txs,
        spec_schedule(txs),
        BlockExecState { acc, code, sto, gas: 0 },
        0,
        ids,
    );
}

} // verus!
