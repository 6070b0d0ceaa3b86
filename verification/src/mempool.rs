//! The mempool: pending signed transactions, deduplicated by transaction
//! identifier, drained for a block in `(nonce ascending, sender bytes
//! ascending)` order. Inserts verify the signature, and contract deployments
//! pass the automated quality rules first.

use vstd::prelude::*;

use crate::codec::spec_tx_id;
use crate::order::{lemma_lex_asym, lemma_lex_trans, lemma_lex_trichotomy, lex_lt};
use crate::qa::{check_contract_deploy, spec_qa_allows, QaReject, QaResult,
    DEFAULT_MAX_BYTECODE_SIZE};
use crate::signature::{spec_verify_tx, SignedTransaction};
use crate::types::{lemma_id_bytes_eq, TransactionPayload};

verus! {

/// Why an insert was refused.
#[derive(Clone, Debug, PartialEq, Eq)]
pub enum MempoolError {
    /// The transaction identifier is already present.
    Duplicate,
    /// The signature does not verify.
    InvalidSignature,
    /// The automated deployment rules rejected the bytecode.
    QaRejected(QaReject),
    /// Automation could not firmly decide; the deployment is not accepted.
    QaPendingPool,
}

/// The drain order: nonce ascending, then sender bytes ascending.
pub open spec fn key_lt(a: SignedTransaction, b: SignedTransaction) -> bool {
    a.tx.nonce < b.tx.nonce || (a.tx.nonce == b.tx.nonce && lex_lt(a.tx.sender.0@, b.tx.sender.0@))
}

/// The drain order is transitive.
pub proof fn lemma_key_trans(a: SignedTransaction, b: SignedTransaction, c: SignedTransaction)
    requires
        key_lt(a, b),
        key_lt(b, c),
    ensures
        key_lt(a, c),
{
    if a.tx.nonce == b.tx.nonce && b.tx.nonce == c.tx.nonce {
        lemma_lex_trans(a.tx.sender.0@, b.tx.sender.0@, c.tx.sender.0@);
    }
}

/// Entries with different (sender, nonce) slots compare one way or the
/// other.
pub proof fn lemma_key_trichotomy(a: SignedTransaction, b: SignedTransaction)
    requires
        !(a.tx.sender == b.tx.sender && a.tx.nonce == b.tx.nonce),
    ensures
        key_lt(a, b) || key_lt(b, a),
{
    if a.tx.nonce == b.tx.nonce {
        lemma_lex_trichotomy(a.tx.sender.0@, b.tx.sender.0@);
        if !lex_lt(a.tx.sender.0@, b.tx.sender.0@) && !lex_lt(b.tx.sender.0@, a.tx.sender.0@) {
            lemma_id_bytes_eq(a.tx.sender, b.tx.sender);
        }
    }
}

/// The order is asymmetric.
pub proof fn lemma_key_asym(a: SignedTransaction, b: SignedTransaction)
    requires
        key_lt(a, b),
    ensures
        !key_lt(b, a),
{
    if a.tx.nonce == b.tx.nonce {
        lemma_lex_asym(a.tx.sender.0@, b.tx.sender.0@);
    }
}

/// Two entries occupy different slots and carry different identifiers.
pub open spec fn entries_compatible(a: SignedTransaction, b: SignedTransaction) -> bool {
    &&& !(a.tx.sender == b.tx.sender && a.tx.nonce == b.tx.nonce)
    &&& spec_tx_id(a.tx) != spec_tx_id(b.tx)
}

/// Whether a payload passes the automated deployment rules (anything but a
/// deployment passes trivially).
pub open spec fn payload_qa_ok(p: TransactionPayload) -> bool {
    match p {
        TransactionPayload::ContractDeploy { bytecode } => spec_qa_allows(
            bytecode@,
            DEFAULT_MAX_BYTECODE_SIZE as int,
        ),
        _ => true,
    }
}

/// A well-formed entry list: pairwise compatible entries, each carrying a
/// verifying signature, and deployments that pass the automated rules.
pub open spec fn mp_wf(s: Seq<SignedTransaction>) -> bool {
    &&& forall|i: int, j: int|
        0 <= i < j < s.len() ==> entries_compatible(#[trigger] s[i], #[trigger] s[j])
    &&& forall|i: int| 0 <= i < s.len() ==> payload_qa_ok((#[trigger] s[i]).tx.payload)
    &&& forall|i: int|
        0 <= i < s.len() ==> (#[trigger] spec_verify_tx(
            s[i].tx,
            s[i].signature.0@,
            s[i].tx.sender.0@,
        )) matches Ok(_)
}

/// Whether a transaction identifier is already present.
pub open spec fn mp_has_id(s: Seq<SignedTransaction>, idd: Seq<u8>) -> bool {
    exists|i: int| 0 <= i < s.len() && spec_tx_id(#[trigger] s[i].tx) == idd
}

/// The slot an entry with this sender and nonce occupies, if any.
pub open spec fn slot_of(s: Seq<SignedTransaction>, sender: crate::types::AccountId, nonce: u64) -> Option<int> {
    if exists|i: int|
        0 <= i < s.len() && (#[trigger] s[i]).tx.sender == sender && s[i].tx.nonce == nonce {
        Some(
            choose|i: int|
                0 <= i < s.len() && (#[trigger] s[i]).tx.sender == sender && s[i].tx.nonce
                    == nonce,
        )
    } else {
        None
    }
}

/// Whether the mempool accepts a signed transaction: the signature verifies,
/// a deployment passes the automated rules, and the identifier is new.
pub open spec fn spec_mp_accepts(s: Seq<SignedTransaction>, signed: SignedTransaction) -> bool {
    &&& spec_verify_tx(signed.tx, signed.signature.0@, signed.tx.sender.0@) matches Ok(_)
    &&& payload_qa_ok(signed.tx.payload)
    &&& !mp_has_id(s, spec_tx_id(signed.tx))
}

/// The entry list after an insert: an accepted transaction replaces the
/// entry in its (sender, nonce) slot, or is appended; a refused one changes
/// nothing.
pub open spec fn spec_insert(s: Seq<SignedTransaction>, signed: SignedTransaction) -> Seq<SignedTransaction> {
    if spec_mp_accepts(s, signed) {
        match slot_of(s, signed.tx.sender, signed.tx.nonce) {
            Some(i) => s.update(i, signed),
            None => s.push(signed),
        }
    } else {
        s
    }
}

/// The index of the least entry under the drain order.
pub open spec fn min_index(s: Seq<SignedTransaction>) -> int {
    choose|i: int| is_min_at(s, i)
}

/// Whether position `i` holds the strictly least entry.
pub open spec fn is_min_at(s: Seq<SignedTransaction>, i: int) -> bool {
    0 <= i < s.len() && forall|j: int| 0 <= j < s.len() && j != i ==> key_lt(s[i], #[trigger] s[j])
}

/// The least position is unique.
pub proof fn lemma_min_unique(s: Seq<SignedTransaction>, i: int, j: int)
    requires
        is_min_at(s, i),
        is_min_at(s, j),
    ensures
        i == j,
{
    if i != j {
        lemma_key_asym(s[i], s[j]);
    }
}

/// What draining up to `max` entries yields: repeatedly take the least
/// entry under the drain order.
pub open spec fn spec_drain(s: Seq<SignedTransaction>, max: int) -> (Seq<SignedTransaction>, Seq<SignedTransaction>)
    decreases s.len(),
{
    if max <= 0 || s.len() == 0 {
        (Seq::empty(), s)
    } else {
        let i = min_index(s);
        if !is_min_at(s, i) {
            (Seq::empty(), s)
        } else {
            let rec = spec_drain(s.remove(i), max - 1);
            (seq![s[i]] + rec.0, rec.1)
        }
    }
}

/// The mempool.
pub struct Mempool {
    entries: Vec<SignedTransaction>,
}

impl Mempool {
    /// The pending entries, in insertion order.
    pub closed spec fn view(&self) -> Seq<SignedTransaction> {
        self.entries@
    }

    /// Well-formed pool.
    pub closed spec fn wf(&self) -> bool {
        mp_wf(self.entries@)
    }

    /// An empty pool.
    pub fn new() -> (r: Self)
        ensures
            r.wf(),
            r@ == Seq::<SignedTransaction>::empty(),
    {
        Mempool { entries: Vec::new() }
    }

    /// Number of pending transactions.
    pub fn len(&self) -> (r: usize)
        ensures
            r == self@.len(),
    {
        self.entries.len()
    }

    /// Whether the pool is empty.
    pub fn is_empty(&self) -> (r: bool)
        ensures
            r == (self@.len() == 0),
    {
        self.entries.len() == 0
    }

    /// Insert a signed transaction: verify its signature, run the automated
    /// deployment rules on deployments, refuse duplicates by identifier, and
    /// otherwise place it under its (sender, nonce) slot, replacing any
    /// prior entry there.
    pub fn insert(&mut self, signed: SignedTransaction) -> (r: Result<(), MempoolError>)
        requires
            old(self).wf(),
        ensures
            final(self).wf(),
            final(self)@ == spec_insert(old(self)@, signed),
            r matches Ok(_) <==> spec_mp_accepts(old(self)@, signed),
            !(spec_verify_tx(signed.tx, signed.signature.0@, signed.tx.sender.0@) matches Ok(_))
                ==> r == Err::<(), MempoolError>(MempoolError::InvalidSignature),
            ((spec_verify_tx(signed.tx, signed.signature.0@, signed.tx.sender.0@) matches Ok(_))
                && match signed.tx.payload {
                TransactionPayload::ContractDeploy { bytecode } => spec_qa_allows(
                    bytecode@,
                    DEFAULT_MAX_BYTECODE_SIZE as int,
                ),
                _ => true,
            } && mp_has_id(old(self)@, spec_tx_id(signed.tx))) ==> r == Err::<(), MempoolError>(
                MempoolError::Duplicate,
            ),
            ((spec_verify_tx(signed.tx, signed.signature.0@, signed.tx.sender.0@) matches Ok(_))
                && (signed.tx.payload matches TransactionPayload::ContractDeploy { bytecode }
                && bytecode@.len() == 0)) ==> (r matches Err(e)
                && e matches MempoolError::QaRejected(rej) && rej.rule_id.0@
                == "MALFORMED_BYTECODE"@),
            ((spec_verify_tx(signed.tx, signed.signature.0@, signed.tx.sender.0@) matches Ok(_))
                && (signed.tx.payload matches TransactionPayload::ContractDeploy { bytecode }
                && bytecode@.len() > DEFAULT_MAX_BYTECODE_SIZE)) ==> (r matches Err(e)
                && e matches MempoolError::QaRejected(rej) && rej.rule_id.0@
                == "MAX_BYTECODE_SIZE"@),
    {
        match signed.verify() {
            Ok(_) => {},
            Err(_) => {
                return Err(MempoolError::InvalidSignature);
            },
        }
        match &signed.tx.payload {
            TransactionPayload::ContractDeploy { bytecode } => {
                match check_contract_deploy(bytecode.as_slice(), DEFAULT_MAX_BYTECODE_SIZE) {
                    QaResult::Allow => {},
                    QaResult::Reject(rej) => {
                        return Err(MempoolError::QaRejected(rej));
                    },
                    QaResult::Unsure => {
                        return Err(MempoolError::QaPendingPool);
                    },
                }
            },
            _ => {},
        }
        let new_id = signed.tx.id();
        let n = self.entries.len();
        let mut i: usize = 0;
        while i < n
            invariant
                0 <= i <= n,
                *self == *old(self),
                old(self).wf(),
                spec_verify_tx(signed.tx, signed.signature.0@, signed.tx.sender.0@) matches Ok(
                    _,
                ),
                match signed.tx.payload {
                    TransactionPayload::ContractDeploy { bytecode } => spec_qa_allows(
                        bytecode@,
                        DEFAULT_MAX_BYTECODE_SIZE as int,
                    ),
                    _ => true,
                },
                n == self.entries@.len(),
                new_id.0@ == spec_tx_id(signed.tx),
                forall|j: int| 0 <= j < i ==> spec_tx_id(self.entries@[j].tx) != new_id.0@,
            decreases n - i,
        {
            let eid = self.entries[i].tx.id();
            if crate::hash::bytes32_eq(&eid.0, &new_id.0) {
                proof {
                    assert(spec_tx_id(self.entries@[i as int].tx) == new_id.0@);
                }
                return Err(MempoolError::Duplicate);
            }
            i = i + 1;
        }
        let mut s: usize = 0;
        while s < n
            invariant
                0 <= s <= n,
                old(self).wf(),
                *self == *old(self),
                n == self.entries@.len(),
                new_id.0@ == spec_tx_id(signed.tx),
                spec_mp_accepts(old(self)@, signed),
                forall|j: int|
                    0 <= j < s ==> !((#[trigger] self.entries@[j]).tx.sender == signed.tx.sender
                        && self.entries@[j].tx.nonce == signed.tx.nonce),
            decreases n - s,
        {
            let e = &self.entries[s];
            if crate::types::id_eq(&e.tx.sender, &signed.tx.sender) && e.tx.nonce
                == signed.tx.nonce {
                proof {
                    let w = s as int;
                    assert(self.entries@[w].tx.sender == signed.tx.sender && self.entries@[w
                    ].tx.nonce == signed.tx.nonce);
                    let c = slot_of(old(self)@, signed.tx.sender, signed.tx.nonce);
                    assert(c matches Some(ci) && (0 <= ci < n
                        && old(self)@[ci].tx.sender == signed.tx.sender && old(self)@[ci].tx.nonce
                        == signed.tx.nonce));
                    let ci = c.unwrap();
                    if ci != w {
                        assert(entries_compatible(old(self)@[ci], old(self)@[w]) || entries_compatible(old(self)@[w], old(self)@[ci]));
                        assert(false);
                    }
                }
                self.entries[s] = signed;
                proof {
                    lemma_insert_wf_update(old(self)@, s as int, signed);
                }
                return Ok(());
            }
            s = s + 1;
        }
        proof {
            assert(slot_of(old(self)@, signed.tx.sender, signed.tx.nonce) matches None) by {
                if exists|i2: int|
                    0 <= i2 < old(self)@.len() && (#[trigger] old(self)@[i2]).tx.sender
                        == signed.tx.sender && old(self)@[i2].tx.nonce == signed.tx.nonce {
                    let i2 = choose|i2: int|
                        0 <= i2 < old(self)@.len() && (#[trigger] old(self)@[i2]).tx.sender
                            == signed.tx.sender && old(self)@[i2].tx.nonce == signed.tx.nonce;
                    assert(false);
                }
            }
            let s2 = old(self)@.push(signed);
            assert(forall|a: int, b: int|
                0 <= a < b < s2.len() ==> entries_compatible(#[trigger] s2[a], #[trigger] s2[b]))
                by {
                assert(forall|a: int|
                    0 <= a < old(self)@.len() ==> s2[a] == old(self)@[a]);
                assert(s2[s2.len() - 1] == signed);
                assert(forall|a: int|
                    0 <= a < old(self)@.len() ==> spec_tx_id(#[trigger] old(self)@[a].tx)
                        != spec_tx_id(signed.tx));
            }
        }
        self.entries.push(signed);
        Ok(())
    }

    /// Remove and return up to `max` entries, least first under the drain
    /// order: nonce ascending, then sender bytes ascending.
    /// Remove and return the least entry under the drain order.
    fn take_min(&mut self) -> (r: SignedTransaction)
        requires
            old(self).wf(),
            old(self)@.len() > 0,
        ensures
            final(self).wf(),
            is_min_at(old(self)@, min_index(old(self)@)),
            r == old(self)@[min_index(old(self)@)],
            final(self)@ == old(self)@.remove(min_index(old(self)@)),
            forall|q: int| 0 <= q < final(self)@.len() ==> key_lt(r, #[trigger] final(self)@[q]),
    {
        let n = self.entries.len();
        let mut best: usize = 0;
        let mut j: usize = 1;
        while j < n
            invariant
                mp_wf(self.entries@),
                *self == *old(self),
                n == self.entries@.len(),
                n > 0,
                0 <= best < j <= n,
                forall|q: int|
                    0 <= q < j && q != best ==> key_lt(
                        self.entries@[best as int],
                        #[trigger] self.entries@[q],
                    ),
            decreases n - j,
        {
            let a = &self.entries[j];
            let b = &self.entries[best];
            let less = a.tx.nonce < b.tx.nonce || (a.tx.nonce == b.tx.nonce
                && crate::order::bytes32_lt(&a.tx.sender.0, &b.tx.sender.0));
            proof {
                assert(entries_compatible(
                    self.entries@[best as int],
                    self.entries@[j as int],
                ));
                lemma_key_trichotomy(self.entries@[j as int], self.entries@[best as int]);
                if less {
                    assert forall|q: int| 0 <= q < j && q != j as int implies key_lt(
                        self.entries@[j as int],
                        #[trigger] self.entries@[q],
                    ) by {
                        if q != best {
                            lemma_key_trans(
                                self.entries@[j as int],
                                self.entries@[best as int],
                                self.entries@[q],
                            );
                        }
                    }
                }
            }
            if less {
                best = j;
            }
            j = j + 1;
        }
        proof {
            assert(is_min_at(self.entries@, best as int));
            lemma_min_unique(self.entries@, best as int, min_index(self.entries@));
            lemma_remove_keeps(self.entries@, best as int);
        }
        self.entries.remove(best)
    }

    #[verifier::rlimit(100)]
    pub fn drain_for_block(&mut self, max: usize) -> (r: Vec<SignedTransaction>)
        requires
            old(self).wf(),
        ensures
            final(self).wf(),
            (r@, final(self)@) == spec_drain(old(self)@, max as int),
            r@.len() + final(self)@.len() == old(self)@.len(),
            r@.len() == vstd::math::min(max as int, old(self)@.len() as int),
            forall|i: int, j: int| 0 <= i < j < r@.len() ==> key_lt(#[trigger] r@[i], #[trigger] r@[j]),
            forall|i: int, j: int|
                0 <= i < r@.len() && 0 <= j < final(self)@.len() ==> key_lt(
                    #[trigger] r@[i],
                    #[trigger] final(self)@[j],
                ),
            mp_wf(final(self)@ + r@),
    {
        let mut out: Vec<SignedTransaction> = Vec::new();
        let ghost s0 = self.entries@;
        proof {
            assert(mp_wf(self.entries@ + out@)) by {
                assert(self.entries@ + out@ =~= self.entries@);
            }
            assert(out@ + spec_drain(self.entries@, max as int).0 =~= spec_drain(
                self.entries@,
                max as int,
            ).0);
        }
        while out.len() < max && self.entries.len() > 0
            invariant
                old(self).wf(),
                out@.len() <= max,
                mp_wf(self.entries@),
                mp_wf(out@),
                mp_wf(self.entries@ + out@),
                out@.len() + self.entries@.len() == s0.len(),
                s0 == old(self)@,
                forall|i: int, j: int|
                    0 <= i < j < out@.len() ==> key_lt(#[trigger] out@[i], #[trigger] out@[j]),
                forall|i: int, j: int|
                    0 <= i < out@.len() && 0 <= j < self.entries@.len() ==> key_lt(
                        #[trigger] out@[i],
                        #[trigger] self.entries@[j],
                    ),
                spec_drain(s0, max as int) == ({
                    let rec = spec_drain(self.entries@, max - out@.len());
                    (out@ + rec.0, rec.1)
                }),
            decreases self.entries@.len(),
        {
            let ghost cur = self.entries@;
            let ghost out_pre = out@;
            let picked = self.take_min();
            out.push(picked);
            proof {
                let b = min_index(cur);
                assert(self.entries@ == cur.remove(b));
                assert(picked == cur[b]);
                assert(out@ == out_pre.push(picked));
                assert(out@.drop_last() =~= out_pre);
                // The drain equation unfolds one step.
                assert(spec_drain(cur, max - out_pre.len()) == ({
                    let rec = spec_drain(cur.remove(b), max - out_pre.len() - 1);
                    (seq![cur[b]] + rec.0, rec.1)
                }));
                assert(out_pre + spec_drain(cur, max - out_pre.len()).0 =~= out@ + spec_drain(
                    self.entries@,
                    max - out@.len(),
                ).0);
                // Well-formedness of the combined arrangement is preserved:
                // the new arrangement holds the same entries.
                lemma_wf_perm_move(cur, out_pre, b);
            }
        }
        proof {
            if out@.len() < max {
                assert(self.entries@.len() == 0);
                assert(spec_drain(self.entries@, max - out@.len()).0 =~= Seq::<
                    SignedTransaction,
                >::empty());
                assert(out@ + Seq::<SignedTransaction>::empty() =~= out@);
            } else {
                assert(spec_drain(self.entries@, max - out@.len()).0 =~= Seq::<
                    SignedTransaction,
                >::empty());
                assert(out@ + Seq::<SignedTransaction>::empty() =~= out@);
            }
        }
        out
    }

    /// Re-run insert on each entry, skipping errors: best-effort restoration
    /// after a failed production attempt.
    pub fn reinsert(&mut self, signed_txs: Vec<SignedTransaction>)
        requires
            old(self).wf(),
        ensures
            final(self).wf(),
            final(self)@ == spec_reinsert(old(self)@, signed_txs@),
    {
        let mut txs = signed_txs;
        while txs.len() > 0
            invariant
                self.wf(),
                spec_reinsert(self@, txs@) == spec_reinsert(old(self)@, signed_txs@),
            decreases txs@.len(),
        {
            let ghost tpre = txs@;
            let signed = txs.remove(0);
            proof {
                assert(txs@ =~= tpre.drop_first());
                assert(signed == tpre[0]);
            }
            let ghost pre = self@;
            let _ = self.insert(signed);
            proof {
                assert(self@ == spec_insert(pre, signed));
            }
        }
        proof {
            assert(spec_reinsert(self@, txs@) == self@);
        }
    }
}

/// Insert folded over a list of transactions, skipping refusals.
pub open spec fn spec_reinsert(s: Seq<SignedTransaction>, txs: Seq<SignedTransaction>) -> Seq<SignedTransaction>
    decreases txs.len(),
{
    if txs.len() == 0 {
        s
    } else {
        spec_reinsert(spec_insert(s, txs[0]), txs.drop_first())
    }
}

/// Replacing the entry in its own slot keeps the list well formed.
proof fn lemma_insert_wf_update(s: Seq<SignedTransaction>, i: int, signed: SignedTransaction)
    requires
        mp_wf(s),
        0 <= i < s.len(),
        s[i].tx.sender == signed.tx.sender,
        s[i].tx.nonce == signed.tx.nonce,
        spec_verify_tx(signed.tx, signed.signature.0@, signed.tx.sender.0@) matches Ok(_),
        payload_qa_ok(signed.tx.payload),
        !mp_has_id(s, spec_tx_id(signed.tx)),
    ensures
        mp_wf(s.update(i, signed)),
{
    let s2 = s.update(i, signed);
    assert(forall|a: int| 0 <= a < s.len() && a != i ==> s2[a] == s[a]);
    assert(forall|a: int|
        0 <= a < s.len() ==> spec_tx_id(#[trigger] s[a].tx) != spec_tx_id(signed.tx));
    assert(forall|a: int, b: int|
        0 <= a < b < s2.len() ==> entries_compatible(#[trigger] s2[a], #[trigger] s2[b]));
}

/// Removing an entry keeps pairwise facts.
proof fn lemma_remove_keeps(s: Seq<SignedTransaction>, i: int)
    requires
        mp_wf(s),
        0 <= i < s.len(),
    ensures
        mp_wf(s.remove(i)),
{
    let s2 = s.remove(i);
    assert(forall|a: int|
        0 <= a < s2.len() ==> s2[a] == (if a < i {
            s[a]
        } else {
            s[a + 1]
        }));
    assert(forall|a: int, b: int|
        0 <= a < b < s2.len() ==> entries_compatible(#[trigger] s2[a], #[trigger] s2[b]));
}

/// Moving the minimum from the pending list to the drained list keeps the
/// combined arrangement well formed.
proof fn lemma_wf_perm_move(cur: Seq<SignedTransaction>, out_pre: Seq<SignedTransaction>, b: int)
    requires
        0 <= b < cur.len(),
        mp_wf(cur + out_pre),
    ensures
        mp_wf(cur.remove(b) + (out_pre.push(cur[b]))),
        mp_wf(cur.remove(b)),
        mp_wf(out_pre.push(cur[b])),
{
    let before = cur + out_pre;
    let after = cur.remove(b) + out_pre.push(cur[b]);
    assert(forall|a: int|
        0 <= a < after.len() ==> after[a] == (if a < b {
            before[a]
        } else if a < cur.len() - 1 {
            before[a + 1]
        } else if a < after.len() - 1 {
            before[a + 1]
        } else {
            before[b]
        }));
    assert(forall|x: int, y: int|
        0 <= x < y < after.len() ==> entries_compatible(#[trigger] after[x], #[trigger] after[y]))
        by {
        assert(forall|x: int, y: int|
            0 <= x < y < before.len() ==> entries_compatible(
                #[trigger] before[x],
                #[trigger] before[y],
            ));
        assert(forall|x: int, y: int|
            0 <= y < x < before.len() ==> entries_compatible(
                #[trigger] before[y],
                #[trigger] before[x],
            ));
    }
    assert(forall|a: int|
        0 <= a < after.len() ==> (#[trigger] spec_verify_tx(
            after[a].tx,
            after[a].signature.0@,
            after[a].tx.sender.0@,
        )) matches Ok(_));
    let left = cur.remove(b);
    let right = out_pre.push(cur[b]);
    assert(forall|a: int| 0 <= a < left.len() ==> left[a] == after[a]);
    assert(forall|a: int| 0 <= a < right.len() ==> right[a] == after[left.len() + a]);
    assert(forall|x: int, y: int|
        0 <= x < y < left.len() ==> entries_compatible(#[trigger] left[x], #[trigger] left[y]));
    assert(forall|x: int, y: int|
        0 <= x < y < right.len() ==> entries_compatible(#[trigger] right[x], #[trigger] right[y]));
    assert(forall|a: int|
        0 <= a < left.len() ==> (#[trigger] spec_verify_tx(
            left[a].tx,
            left[a].signature.0@,
            left[a].tx.sender.0@,
        )) matches Ok(_));
    assert(forall|a: int|
        0 <= a < right.len() ==> (#[trigger] spec_verify_tx(
            right[a].tx,
            right[a].signature.0@,
            right[a].tx.sender.0@,
        )) matches Ok(_));
    assert(forall|a: int| 0 <= a < after.len() ==> payload_qa_ok((#[trigger] after[a]).tx.payload));
    assert(forall|a: int| 0 <= a < left.len() ==> payload_qa_ok((#[trigger] left[a]).tx.payload));
    assert(forall|a: int|
        0 <= a < right.len() ==> payload_qa_ok((#[trigger] right[a]).tx.payload));
}


/// Draining and reinserting with nothing in between restores the pool
/// exactly: the remaining entries followed by the drained ones, every one
/// re-accepted.
pub proof fn lemma_drain_reinsert_restores(rest: Seq<SignedTransaction>, drained: Seq<SignedTransaction>)
    requires
        mp_wf(rest + drained),
    ensures
        spec_reinsert(rest, drained) == rest + drained,
    decreases drained.len(),
{
    let whole = rest + drained;
    if drained.len() == 0 {
        assert(rest + drained =~= rest);
    } else {
        let d0 = drained[0];
        assert(whole[rest.len() as int] == d0);
        // The head is accepted: it verifies, its deployment rules pass, and
        // its identifier is absent from the rest.
        assert(spec_verify_tx(d0.tx, d0.signature.0@, d0.tx.sender.0@) matches Ok(_));
        assert(payload_qa_ok(d0.tx.payload));
        assert(!mp_has_id(rest, spec_tx_id(d0.tx))) by {
            if mp_has_id(rest, spec_tx_id(d0.tx)) {
                let i = choose|i: int|
                    0 <= i < rest.len() && spec_tx_id(#[trigger] rest[i].tx) == spec_tx_id(d0.tx);
                assert(whole[i] == rest[i]);
                assert(entries_compatible(whole[i], whole[rest.len() as int]));
            }
        }
        assert(slot_of(rest, d0.tx.sender, d0.tx.nonce) matches None) by {
            if exists|i: int|
                0 <= i < rest.len() && (#[trigger] rest[i]).tx.sender == d0.tx.sender
                    && rest[i].tx.nonce == d0.tx.nonce {
                let i = choose|i: int|
                    0 <= i < rest.len() && (#[trigger] rest[i]).tx.sender == d0.tx.sender
                        && rest[i].tx.nonce == d0.tx.nonce;
                assert(whole[i] == rest[i]);
                assert(entries_compatible(whole[i], whole[rest.len() as int]));
            }
        }
        assert(spec_insert(rest, d0) == rest.push(d0));
        assert(rest.push(d0) + drained.drop_first() =~= whole);
        lemma_drain_reinsert_restores(rest.push(d0), drained.drop_first());
        assert(spec_reinsert(rest, drained) == spec_reinsert(rest.push(d0), drained.drop_first()));
    }
}


/// Draining only rearranges: the remaining entries followed by the drained
/// ones hold exactly the pre-drain pool's entries. With the restoration
/// lemma above, a drain followed by a reinsert keeps the pool's contents.
pub proof fn lemma_drain_permutes(s: Seq<SignedTransaction>, max: int)
    ensures
        (spec_drain(s, max).1 + spec_drain(s, max).0).to_multiset() == s.to_multiset(),
    decreases s.len(),
{
    broadcast use vstd::seq_lib::group_to_multiset_ensures;
    broadcast use vstd::multiset::group_multiset_axioms;

    if max <= 0 || s.len() == 0 {
        assert(spec_drain(s, max).1 + spec_drain(s, max).0 =~= s);
    } else {
        let i = min_index(s);
        if !is_min_at(s, i) {
            assert(spec_drain(s, max).1 + spec_drain(s, max).0 =~= s);
        } else {
            let rec = spec_drain(s.remove(i), max - 1);
            lemma_drain_permutes(s.remove(i), max - 1);
            vstd::seq_lib::lemma_multiset_commutative(rec.1, seq![s[i]] + rec.0);
            vstd::seq_lib::lemma_multiset_commutative(seq![s[i]], rec.0);
            vstd::seq_lib::lemma_multiset_commutative(rec.1, rec.0);
            assert(Seq::<SignedTransaction>::empty().push(s[i]) =~= seq![s[i]]);
            assert(seq![s[i]].to_multiset() =~= vstd::multiset::Multiset::<SignedTransaction>::empty().insert(
                s[i],
            ));
            assert(s.remove(i).to_multiset() =~= s.to_multiset().remove(s[i]));
            assert(s.contains(s[i]));
            assert(s.to_multiset().count(s[i]) > 0);
            let single = seq![s[i]];
            assert((rec.1 + (single + rec.0)).to_multiset() == rec.1.to_multiset().add(
                (single + rec.0).to_multiset(),
            ));
            assert((single + rec.0).to_multiset() == single.to_multiset().add(
                rec.0.to_multiset(),
            ));
            assert((rec.1 + rec.0).to_multiset() == rec.1.to_multiset().add(
                rec.0.to_multiset(),
            ));
            assert(rec.1.to_multiset().add(rec.0.to_multiset()) == s.to_multiset().remove(s[i]));
            assert forall|x: SignedTransaction|
                (rec.1 + (single + rec.0)).to_multiset().count(x) == s.to_multiset().count(
                    x,
                ) by {
                assert((rec.1 + (single + rec.0)).to_multiset().count(x)
                    == rec.1.to_multiset().count(x) + single.to_multiset().count(x)
                    + rec.0.to_multiset().count(x));
                assert(rec.1.to_multiset().count(x) + rec.0.to_multiset().count(x)
                    == s.to_multiset().remove(s[i]).count(x));
                if x == s[i] {
                    assert(single.to_multiset().count(x) == 1);
                    assert(s.to_multiset().remove(s[i]).count(x) == s.to_multiset().count(x)
                        - 1);
                } else {
                    assert(single.to_multiset().count(x) == 0);
                    assert(s.to_multiset().remove(s[i]).count(x) == s.to_multiset().count(x));
                }
            }
            assert((rec.1 + (single + rec.0)).to_multiset() =~= s.to_multiset());
        }
    }
}

} // verus!
