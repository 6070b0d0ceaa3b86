//! Access-list scheduler: a first-fit greedy pass that partitions a block's
//! transactions into batches whose members have pairwise-disjoint access
//! lists. The partition is a pure function of the input sequence.

use vstd::prelude::*;

use crate::types::Transaction;

verus! {

/// Whether transaction `j` conflicts with any member of `batch`.
pub open spec fn spec_batch_conflicts(txs: Seq<Transaction>, batch: Seq<usize>, j: int) -> bool {
    exists|k: int|
        0 <= k < batch.len() && txs[batch[k] as int].access_list.spec_conflicts(
            txs[j].access_list,
        )
}

/// The forward scan that fills one batch: from index `j` on, every
/// unassigned transaction disjoint from the whole batch joins it.
pub open spec fn spec_fill_batch(txs: Seq<Transaction>, assigned: Seq<bool>, batch: Seq<usize>, j: int) -> (Seq<usize>, Seq<bool>)
    decreases txs.len() - j,
{
    if j < 0 || j >= txs.len() {
        (batch, assigned)
    } else if !assigned[j] && !spec_batch_conflicts(txs, batch, j) {
        spec_fill_batch(txs, assigned.update(j, true), batch.push(j as usize), j + 1)
    } else {
        spec_fill_batch(txs, assigned, batch, j + 1)
    }
}

/// The outer pass: open a batch at each still-unassigned index, in order.
pub open spec fn spec_schedule_from(txs: Seq<Transaction>, assigned: Seq<bool>, i: int) -> Seq<Seq<usize>>
    decreases txs.len() - i,
{
    if i < 0 || i >= txs.len() {
        Seq::empty()
    } else if assigned[i] {
        spec_schedule_from(txs, assigned, i + 1)
    } else {
        let filled = spec_fill_batch(txs, assigned.update(i, true), seq![i as usize], i + 1);
        seq![filled.0] + spec_schedule_from(txs, filled.1, i + 1)
    }
}

/// The batches the greedy first-fit pass assigns to a transaction sequence.
pub open spec fn spec_schedule(txs: Seq<Transaction>) -> Seq<Seq<usize>> {
    spec_schedule_from(txs, Seq::new(txs.len(), |i: int| false), 0)
}

/// The index sequences of a vector of batches.
pub open spec fn batches_view(v: Seq<Vec<usize>>) -> Seq<Seq<usize>> {
    Seq::new(v.len(), |i: int| v[i]@)
}

/// Groups transactions into batches by declared access lists.
pub struct TransactionScheduler {}

impl TransactionScheduler {
    pub fn new() -> (r: Self)
        ensures
            true,
    {
        TransactionScheduler {  }
    }

    /// Partition the transactions into the greedy first-fit batches: for each
    /// unassigned index in order, open a batch, then adopt every later
    /// unassigned transaction whose access list is disjoint from the whole
    /// batch. Batches preserve input order across batches.
    pub fn schedule(&self, txs: &Vec<Transaction>) -> (r: Vec<Vec<usize>>)
        ensures
            batches_view(r@) == spec_schedule(txs@),
    {
        let n = txs.len();
        let mut batches: Vec<Vec<usize>> = Vec::new();
        let mut assigned: Vec<bool> = Vec::new();
        let mut t: usize = 0;
        while t < n
            invariant
                0 <= t <= n,
                n == txs@.len(),
                assigned@.len() == t,
                forall|k: int| 0 <= k < t ==> assigned@[k] == false,
            decreases n - t,
        {
            assigned.push(false);
            t = t + 1;
        }
        proof {
            assert(assigned@ =~= Seq::new(txs@.len(), |i: int| false));
        }
        let ghost full = spec_schedule(txs@);
        let mut i: usize = 0;
        while i < n
            invariant
                0 <= i <= n,
                n == txs@.len(),
                assigned@.len() == n,
                full == spec_schedule(txs@),
                batches_view(batches@) + spec_schedule_from(txs@, assigned@, i as int) == full,
            decreases n - i,
        {
            if !assigned[i] {
                let ghost a_pre = assigned@;
                let mut batch: Vec<usize> = Vec::new();
                batch.push(i);
                assigned[i] = true;
                let ghost a0 = assigned@;
                let ghost b0 = batch@;
                proof {
                    assert(a0 == a_pre.update(i as int, true));
                    assert(b0 =~= seq![i as usize]);
                }
                let mut j: usize = i + 1;
                while j < n
                    invariant
                        i < n,
                        i + 1 <= j <= n,
                        n == txs@.len(),
                        assigned@.len() == n,
                        forall|q: int| 0 <= q < batch@.len() ==> batch@[q] < n,
                        spec_fill_batch(txs@, assigned@, batch@, j as int) == spec_fill_batch(
                            txs@,
                            a0,
                            b0,
                            i as int + 1,
                        ),
                    decreases n - j,
                {
                    if !assigned[j] {
                        let mut conflicts = false;
                        let mut k: usize = 0;
                        while k < batch.len()
                            invariant
                                0 <= k <= batch@.len(),
                                n == txs@.len(),
                                forall|q: int| 0 <= q < batch@.len() ==> batch@[q] < n,
                                j < n,
                                conflicts == exists|q: int|
                                    0 <= q < k && txs@[batch@[q] as int].access_list.spec_conflicts(
                                        txs@[j as int].access_list,
                                    ),
                            decreases batch@.len() - k,
                        {
                            let idx = batch[k];
                            if txs[idx].access_list.conflicts_with(&txs[j].access_list) {
                                proof {
                                    assert(txs@[batch@[k as int] as int].access_list.spec_conflicts(
                                        txs@[j as int].access_list,
                                    ));
                                }
                                conflicts = true;
                            }
                            k = k + 1;
                        }
                        proof {
                            assert(conflicts == spec_batch_conflicts(txs@, batch@, j as int));
                        }
                        if !conflicts {
                            batch.push(j);
                            assigned[j] = true;
                        }
                    }
                    j = j + 1;
                }
                proof {
                    assert(spec_fill_batch(txs@, assigned@, batch@, n as int) == (
                        batch@,
                        assigned@,
                    ));
                    assert(spec_schedule_from(txs@, a_pre, i as int) == seq![batch@]
                        + spec_schedule_from(txs@, assigned@, i as int + 1));
                }
                batches.push(batch);
                proof {
                    assert(batches_view(batches@) =~= batches_view(batches@.drop_last()) + seq![
                        batches@.last()@,
                    ]);
                    assert(batches_view(batches@.drop_last()) + (seq![batches@.last()@]
                        + spec_schedule_from(txs@, assigned@, i as int + 1)) =~= batches_view(
                        batches@,
                    ) + spec_schedule_from(txs@, assigned@, i as int + 1));
                }
            }
            i = i + 1;
        }
        proof {
            assert(spec_schedule_from(txs@, assigned@, n as int) == Seq::<Seq<usize>>::empty());
            assert(batches_view(batches@) + Seq::<Seq<usize>>::empty() =~= batches_view(
                batches@,
            ));
        }
        batches
    }
}

impl Default for TransactionScheduler {
    fn default() -> (r: Self) {
        TransactionScheduler {  }
    }
}


/// A filled batch that has adopted every index below `j` of a pairwise
/// disjoint input keeps adopting: it ends holding every index, in order.
proof fn lemma_fill_all(txs: Seq<Transaction>, assigned: Seq<bool>, batch: Seq<usize>, j: int)
    requires
        0 <= j <= txs.len(),
        assigned.len() == txs.len(),
        batch.len() == j,
        forall|q: int| 0 <= q < j ==> #[trigger] batch[q] == q as usize,
        forall|k: int| 0 <= k < txs.len() ==> #[trigger] assigned[k] == (k < j),
        forall|i: int, j2: int|
            0 <= i < j2 < txs.len() ==> !(#[trigger] txs[i]).access_list.spec_conflicts(
                (#[trigger] txs[j2]).access_list,
            ),
    ensures
        spec_fill_batch(txs, assigned, batch, j).0.len() == txs.len(),
        forall|q: int|
            0 <= q < txs.len() ==> #[trigger] spec_fill_batch(txs, assigned, batch, j).0[q]
                == q as usize,
        forall|k: int|
            0 <= k < txs.len() ==> #[trigger] spec_fill_batch(txs, assigned, batch, j).1[k]
                == true,
        spec_fill_batch(txs, assigned, batch, j).1.len() == txs.len(),
    decreases txs.len() - j,
{
    if j < txs.len() {
        assert(!assigned[j]);
        assert(!spec_batch_conflicts(txs, batch, j)) by {
            if spec_batch_conflicts(txs, batch, j) {
                let k = choose|k: int|
                    0 <= k < batch.len() && txs[#[trigger] batch[k] as int].access_list.spec_conflicts(
                        txs[j].access_list,
                    );
                assert(batch[k] == k as usize);
            }
        }
        let a2 = assigned.update(j, true);
        let b2 = batch.push(j as usize);
        assert(forall|q: int| 0 <= q < j + 1 ==> #[trigger] b2[q] == q as usize);
        assert(forall|k: int| 0 <= k < txs.len() ==> #[trigger] a2[k] == (k < j + 1));
        lemma_fill_all(txs, a2, b2, j + 1);
    }
}

/// Once everything is assigned, no further batch opens.
proof fn lemma_schedule_from_done(txs: Seq<Transaction>, assigned: Seq<bool>, i: int)
    requires
        assigned.len() == txs.len(),
        forall|k: int| 0 <= k < txs.len() ==> #[trigger] assigned[k] == true,
    ensures
        spec_schedule_from(txs, assigned, i).len() == 0,
    decreases txs.len() - i,
{
    if 0 <= i < txs.len() {
        lemma_schedule_from_done(txs, assigned, i + 1);
    }
}

/// Pairwise-disjoint transactions all land in one batch, in input order:
/// the schedule is a single batch holding every index.
pub proof fn lemma_disjoint_single_batch(txs: Seq<Transaction>)
    requires
        txs.len() > 0,
        forall|i: int, j: int|
            0 <= i < j < txs.len() ==> !(#[trigger] txs[i]).access_list.spec_conflicts(
                (#[trigger] txs[j]).access_list,
            ),
    ensures
        spec_schedule(txs).len() == 1,
        spec_schedule(txs)[0].len() == txs.len(),
        forall|k: int| 0 <= k < txs.len() ==> #[trigger] spec_schedule(txs)[0][k] == k as usize,
{
    let a0 = Seq::new(txs.len(), |i: int| false);
    assert(!a0[0]);
    let a1 = a0.update(0, true);
    let b1 = seq![0usize];
    assert(forall|q: int| 0 <= q < 1 ==> #[trigger] b1[q] == q as usize);
    assert(forall|k: int| 0 <= k < txs.len() ==> #[trigger] a1[k] == (k < 1));
    lemma_fill_all(txs, a1, b1, 1);
    let filled = spec_fill_batch(txs, a1, b1, 1);
    lemma_schedule_from_done(txs, filled.1, 1);
    assert(spec_schedule_from(txs, a0, 0) == seq![filled.0] + spec_schedule_from(
        txs,
        filled.1,
        1,
    ));
    assert(spec_schedule(txs) =~= seq![filled.0]);
}


/// Members of one batch never conflict: each one was admitted only after a
/// disjointness check against the whole batch.
pub open spec fn batch_disjoint(txs: Seq<Transaction>, batch: Seq<usize>) -> bool {
    forall|p: int, q: int|
        0 <= p < q < batch.len() ==> !txs[#[trigger] batch[p] as int].access_list.spec_conflicts(
            txs[#[trigger] batch[q] as int].access_list,
        )
}

/// The greedy fill keeps its batch pairwise disjoint.
proof fn lemma_fill_disjoint(txs: Seq<Transaction>, assigned: Seq<bool>, batch: Seq<usize>, j: int)
    requires
        txs.len() <= usize::MAX,
        batch_disjoint(txs, batch),
    ensures
        batch_disjoint(txs, spec_fill_batch(txs, assigned, batch, j).0),
    decreases txs.len() - j,
{
    if j < 0 || j >= txs.len() {
    } else if !assigned[j] && !spec_batch_conflicts(txs, batch, j) {
        let b2 = batch.push(j as usize);
        assert(batch_disjoint(txs, b2)) by {
            assert forall|p: int, q: int|
                0 <= p < q < b2.len() implies !txs[#[trigger] b2[p] as int].access_list.spec_conflicts(
                txs[#[trigger] b2[q] as int].access_list,
            ) by {
                if txs[b2[p] as int].access_list.spec_conflicts(txs[b2[q] as int].access_list) {
                    assert(b2[p] == batch[p]);
                    if q < batch.len() {
                        assert(b2[q] == batch[q]);
                        assert(txs[batch[p] as int].access_list.spec_conflicts(
                            txs[batch[q] as int].access_list,
                        ));
                        assert(false);
                    } else {
                        assert(b2[q] == j as usize);
                        assert((j as usize) as int == j);
                        assert(txs[batch[p] as int].access_list.spec_conflicts(
                            txs[j].access_list,
                        ));
                        assert(spec_batch_conflicts(txs, batch, j));
                        assert(false);
                    }
                }
            }
        }
        lemma_fill_disjoint(txs, assigned.update(j, true), b2, j + 1);
    } else {
        lemma_fill_disjoint(txs, assigned, batch, j + 1);
    }
}

/// Every batch the scheduler emits holds pairwise disjoint members.
pub proof fn lemma_schedule_disjoint(txs: Seq<Transaction>, assigned: Seq<bool>, i: int)
    requires
        txs.len() <= usize::MAX,
    ensures
        forall|b: int|
            0 <= b < spec_schedule_from(txs, assigned, i).len() ==> batch_disjoint(
                txs,
                #[trigger] spec_schedule_from(txs, assigned, i)[b],
            ),
    decreases txs.len() - i,
{
    if i < 0 || i >= txs.len() {
        assert(spec_schedule_from(txs, assigned, i).len() == 0);
    } else if assigned[i] {
        lemma_schedule_disjoint(txs, assigned, i + 1);
        assert(spec_schedule_from(txs, assigned, i) == spec_schedule_from(txs, assigned, i + 1));
    } else {
        let filled = spec_fill_batch(txs, assigned.update(i, true), seq![i as usize], i + 1);
        assert(batch_disjoint(txs, seq![i as usize]));
        lemma_fill_disjoint(txs, assigned.update(i, true), seq![i as usize], i + 1);
        lemma_schedule_disjoint(txs, filled.1, i + 1);
        let sch = spec_schedule_from(txs, assigned, i);
        assert(sch == seq![filled.0] + spec_schedule_from(txs, filled.1, i + 1));
        assert forall|b: int| 0 <= b < sch.len() implies batch_disjoint(
            txs,
            #[trigger] sch[b],
        ) by {
            if b == 0 {
                assert(sch[0] == filled.0);
            } else {
                assert(sch[b] == spec_schedule_from(txs, filled.1, i + 1)[b - 1]);
            }
        }
    }
}

} // verus!
