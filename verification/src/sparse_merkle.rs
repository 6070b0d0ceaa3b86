//! The sparse binary Merkle tree over 32-byte keys, bit-addressed from the
//! most significant bit, to depth 64. Leaves hash key and value together,
//! interior nodes hash their children, and a missing child contributes the
//! zero hash. Inclusion proofs list sibling hashes from leaf toward root.

use vstd::prelude::*;

use crate::hash::{blake3_of, bytes32_eq, hash_bytes, hash_pair, push_bytes32, zero_hash_bytes,
    Digest};
use crate::order::{lemma_lex_asym, lemma_lex_irrefl, lemma_lex_trichotomy, lex_lt};

verus! {

/// A leaf entry: key and value hash.
#[derive(Clone, Copy, Debug)]
pub struct TreeEntry {
    pub key: [u8; 32],
    pub vh: [u8; 32],
}

/// The bit of a key at `depth`, most significant bit first.
pub open spec fn spec_path_bit(key: Seq<u8>, depth: int) -> u8 {
    if 0 <= depth / 8 < 32 {
        ((key[depth / 8] >> ((7 - (depth % 8)) as u8)) & 1) as u8
    } else {
        0
    }
}

/// The bit of a key at `depth`.
pub fn path_bit(key: &[u8; 32], depth: usize) -> (r: u8)
    requires
        depth < 64,
    ensures
        r == spec_path_bit(key@, depth as int),
{
    let byte_idx = depth / 8;
    let bit_idx = 7 - (depth % 8);
    (key[byte_idx] >> (bit_idx as u8)) & 1
}

/// The hash of a leaf: the key concatenated with the value hash.
pub open spec fn spec_leaf_hash(e: TreeEntry) -> Seq<u8> {
    blake3_of(e.key@ + e.vh@)
}

/// Keys strictly ascending.
pub open spec fn entries_sorted(s: Seq<TreeEntry>) -> bool {
    forall|i: int, j: int| 0 <= i < j < s.len() ==> lex_lt((#[trigger] s[i]).key@, (#[trigger] s[j]).key@)
}

/// The hash of the subtree holding `s` at `depth`: empty gives the zero
/// hash; a single entry, or the depth limit, gives a leaf of the first
/// entry; otherwise the children split by the path bit.
pub open spec fn spec_subtree(s: Seq<TreeEntry>, depth: int) -> Seq<u8>
    decreases 64 - depth,
{
    if s.len() == 0 {
        zero_hash_bytes()
    } else if s.len() == 1 || depth >= 64 {
        spec_leaf_hash(s[0])
    } else {
        let left = s.filter(|e: TreeEntry| spec_path_bit(e.key@, depth) == 0);
        let right = s.filter(|e: TreeEntry| spec_path_bit(e.key@, depth) != 0);
        blake3_of(spec_subtree(left, depth + 1) + spec_subtree(right, depth + 1))
    }
}

/// Whether a sorted entry list carries exactly the pairs of a byte-keyed
/// map.
pub open spec fn entries_match(s: Seq<TreeEntry>, bm: Map<Seq<u8>, Seq<u8>>) -> bool {
    &&& forall|i: int|
        0 <= i < s.len() ==> bm.contains_key((#[trigger] s[i]).key@) && s[i].vh@ == bm[s[i].key@]
    &&& forall|k: Seq<u8>|
        #[trigger] bm.contains_key(k) ==> exists|i: int| 0 <= i < s.len() && (#[trigger] s[i]).key@ == k
    &&& entries_sorted(s)
}

/// The sorted entry list of a byte-keyed map.
pub open spec fn canonical_entries(bm: Map<Seq<u8>, Seq<u8>>) -> Seq<TreeEntry> {
    choose|s: Seq<TreeEntry>| entries_match(s, bm)
}

/// The root of the tree holding a byte-keyed map.
pub open spec fn spec_smt_root(bm: Map<Seq<u8>, Seq<u8>>) -> Seq<u8> {
    spec_subtree(canonical_entries(bm), 0)
}

/// Only one sorted entry list matches a map.
pub proof fn lemma_match_unique(s1: Seq<TreeEntry>, s2: Seq<TreeEntry>, bm: Map<Seq<u8>, Seq<u8>>)
    requires
        entries_match(s1, bm),
        entries_match(s2, bm),
    ensures
        s1 == s2,
    decreases s1.len(),
{
    if s1.len() == 0 {
        if s2.len() > 0 {
            assert(bm.contains_key(s2[0].key@));
        }
        assert(s1 =~= s2);
    } else if s2.len() == 0 {
        assert(bm.contains_key(s1[0].key@));
        assert(s1 =~= s2);
    } else {
        // The heads carry the same (least) key.
        assert(bm.contains_key(s1[0].key@));
        assert(bm.contains_key(s2[0].key@));
        let k1 = choose|i: int| 0 <= i < s2.len() && (#[trigger] s2[i]).key@ == s1[0].key@;
        let k2 = choose|i: int| 0 <= i < s1.len() && (#[trigger] s1[i]).key@ == s2[0].key@;
        assert(s2[k1].key@ == s1[0].key@);
        assert(s1[k2].key@ == s2[0].key@);
        if k1 > 0 && k2 > 0 {
            assert(lex_lt(s2[0].key@, s2[k1].key@));
            assert(lex_lt(s1[0].key@, s1[k2].key@));
            lemma_lex_asym(s2[0].key@, s2[k1].key@);
            assert(false);
        }
        if k1 > 0 && k2 == 0 {
            assert(lex_lt(s2[0].key@, s2[k1].key@));
            assert(s1[0].key@ == s2[0].key@);
            lemma_lex_irrefl(s2[0].key@);
            assert(false);
        }
        if k1 == 0 && k2 > 0 {
            assert(lex_lt(s1[0].key@, s1[k2].key@));
            assert(s1[0].key@ == s2[0].key@);
            lemma_lex_irrefl(s1[0].key@);
            assert(false);
        }
        assert(s1[0].key@ == s2[0].key@);
        assert(s1[0].vh@ == bm[s1[0].key@] && s2[0].vh@ == bm[s1[0].key@]);
        assert(s1[0] == s2[0]) by {
            let a1 = s1[0].key;
            let a2 = s2[0].key;
            assert(a1 == a2);
            let b1 = s1[0].vh;
            let b2 = s2[0].vh;
            assert(b1 == b2);
        }
        // The tails match the map without the head key.
        let bm2 = bm.remove(s1[0].key@);
        let t1 = s1.drop_first();
        let t2 = s2.drop_first();
        assert(forall|i: int| 0 <= i < t1.len() ==> #[trigger] t1[i] == s1[i + 1]);
        assert(forall|i: int| 0 <= i < t2.len() ==> #[trigger] t2[i] == s2[i + 1]);
        assert(entries_match(t1, bm2)) by {
            lemma_tail_match(s1, bm);
        }
        assert(entries_match(t2, bm2)) by {
            lemma_tail_match(s2, bm);
        }
        lemma_match_unique(t1, t2, bm2);
        assert(s1.len() == s2.len());
        assert forall|i: int| 0 <= i < s1.len() implies s1[i] == s2[i] by {
            if i > 0 {
                assert(t1[i - 1] == s1[i]);
                assert(t2[i - 1] == s2[i]);
                assert(t1[i - 1] == t2[i - 1]);
            }
        }
        assert(s1 =~= s2);
    }
}

/// The tail of a matching list matches the map without the head key.
proof fn lemma_tail_match(s: Seq<TreeEntry>, bm: Map<Seq<u8>, Seq<u8>>)
    requires
        entries_match(s, bm),
        s.len() > 0,
    ensures
        entries_match(s.drop_first(), bm.remove(s[0].key@)),
{
    let t = s.drop_first();
    let bm2 = bm.remove(s[0].key@);
    assert(forall|i: int| 0 <= i < t.len() ==> #[trigger] t[i] == s[i + 1]);
    assert(forall|i: int|
        0 <= i < t.len() ==> bm2.contains_key((#[trigger] t[i]).key@) && t[i].vh@ == bm2[t[i].key@])
        by {
        assert forall|i: int| 0 <= i < t.len() implies bm2.contains_key((#[trigger] t[i]).key@)
            && t[i].vh@ == bm2[t[i].key@] by {
            assert(t[i] == s[i + 1]);
            assert(lex_lt(s[0].key@, s[i + 1].key@));
            lemma_lex_irrefl(s[0].key@);
            assert(s[i + 1].key@ != s[0].key@);
        }
    }
    assert forall|k: Seq<u8>| #[trigger] bm2.contains_key(k) implies exists|i: int|
        0 <= i < t.len() && (#[trigger] t[i]).key@ == k by {
        assert(bm.contains_key(k));
        let i = choose|i: int| 0 <= i < s.len() && (#[trigger] s[i]).key@ == k;
        assert(k != s[0].key@);
        assert(i > 0);
        assert(t[i - 1].key@ == k);
    }
    assert(entries_sorted(t));
}

/// Inserting at the probe position keeps the list sorted and adds exactly
/// the new entry.
proof fn lemma_sorted_insert(opre: Seq<TreeEntry>, e: TreeEntry, p: int)
    requires
        entries_sorted(opre),
        0 <= p <= opre.len(),
        forall|q: int| 0 <= q < p ==> lex_lt((#[trigger] opre[q]).key@, e.key@),
        forall|q: int| p <= q < opre.len() ==> lex_lt(e.key@, (#[trigger] opre[q]).key@),
    ensures
        entries_sorted(opre.insert(p, e)),
        forall|x: TreeEntry| #[trigger] opre.insert(p, e).contains(x) <==> (opre.contains(x) || x == e),
{
    let o2 = opre.insert(p, e);
    assert(forall|i: int| 0 <= i < p ==> #[trigger] o2[i] == opre[i]);
    assert(o2[p] == e);
    assert(forall|i: int| p < i < o2.len() ==> #[trigger] o2[i] == opre[i - 1]);
    assert(entries_sorted(o2));
    assert forall|x: TreeEntry| #[trigger] o2.contains(x) <==> (opre.contains(x) || x == e) by {
        if o2.contains(x) {
            let i = choose|i: int| 0 <= i < o2.len() && o2[i] == x;
            if i < p {
                assert(opre[i] == x);
            } else if i > p {
                assert(opre[i - 1] == x);
            }
        }
        if opre.contains(x) {
            let i = choose|i: int| 0 <= i < opre.len() && opre[i] == x;
            if i < p {
                assert(o2[i] == x);
            } else {
                assert(o2[i + 1] == x);
            }
        }
        if x == e {
            assert(o2[p] == x);
        }
    }
}

/// Insertion sort of tree entries by key; the keys must be pairwise
/// distinct, and the result holds exactly the input entries.
pub fn sort_entries(v: Vec<TreeEntry>) -> (r: Vec<TreeEntry>)
    requires
        forall|i: int, j: int|
            0 <= i < j < v@.len() ==> (#[trigger] v@[i]).key@ != (#[trigger] v@[j]).key@,
    ensures
        entries_sorted(r@),
        r@.len() == v@.len(),
        forall|x: TreeEntry| #[trigger] r@.contains(x) <==> v@.take(v@.len() as int).contains(x),
    {
    let mut out: Vec<TreeEntry> = Vec::new();
    proof {
        assert(forall|x: TreeEntry| !out@.contains(x));
    }
    let mut t: usize = 0;
    while t < v.len()
        invariant
            0 <= t <= v@.len(),
            forall|i: int, j: int|
                0 <= i < j < v@.len() ==> (#[trigger] v@[i]).key@ != (#[trigger] v@[j]).key@,
            out@.len() == t,
            entries_sorted(out@),
            forall|x: TreeEntry| #[trigger] out@.contains(x) <==> v@.take(t as int).contains(x),
        decreases v@.len() - t,
    {
        let e = v[t];
        let mut p: usize = 0;
        while p < out.len()
            invariant
                0 <= p <= out@.len(),
                forall|q: int| 0 <= q < p ==> lex_lt((#[trigger] out@[q]).key@, e.key@),
            ensures
                0 <= p <= out@.len(),
                forall|q: int| 0 <= q < p ==> lex_lt((#[trigger] out@[q]).key@, e.key@),
                p < out@.len() ==> !lex_lt(out@[p as int].key@, e.key@),
            decreases out@.len() - p,
        {
            if crate::order::bytes32_lt(&out[p].key, &e.key) {
                p = p + 1;
            } else {
                break ;
            }
        }
        proof {
            assert forall|q: int| p <= q < out@.len() implies lex_lt(
                e.key@,
                (#[trigger] out@[q]).key@,
            ) by {
                assert(out@.contains(out@[q]));
                assert(v@.take(t as int).contains(out@[q]));
                let j = choose|j: int|
                    0 <= j < t && #[trigger] v@.take(t as int)[j] == out@[q];
                assert(v@[j] == out@[q]);
                assert(v@[j].key@ != v@[t as int].key@);
                lemma_lex_trichotomy(e.key@, out@[q].key@);
                if lex_lt(out@[q].key@, e.key@) {
                    if q > p {
                        crate::order::lemma_lex_trans(out@[p as int].key@, out@[q].key@, e.key@);
                    }
                    assert(false);
                }
            }
            lemma_sorted_insert(out@, e, p as int);
        }
        let ghost opre = out@;
        out.insert(p, e);
        proof {
            assert(out@ == opre.insert(p as int, e));
            assert(v@.take(t as int + 1).drop_last() =~= v@.take(t as int));
            assert(v@.take(t as int + 1).last() == v@[t as int]);
            assert forall|x: TreeEntry| #[trigger] out@.contains(x) <==> v@.take(
                t as int + 1,
            ).contains(x) by {
                if out@.contains(x) {
                    if opre.contains(x) {
                        let j = choose|j: int|
                            0 <= j < t && #[trigger] v@.take(t as int)[j] == x;
                        assert(v@.take(t as int + 1)[j] == x);
                    } else {
                        assert(v@.take(t as int + 1)[t as int] == x);
                    }
                }
                if v@.take(t as int + 1).contains(x) {
                    let j = choose|j: int|
                        0 <= j <= t && #[trigger] v@.take(t as int + 1)[j] == x;
                    if j < t {
                        assert(v@.take(t as int)[j] == x);
                        assert(opre.contains(x));
                    } else {
                        assert(x == e);
                    }
                }
            }
        }
        t = t + 1;
    }
    out
}

/// The hash of the subtree holding these entries at this depth.
pub fn subtree_hash(entries: &Vec<TreeEntry>, depth: usize) -> (r: Digest)
    requires
        depth <= 64,
    ensures
        r.0@ == spec_subtree(entries@, depth as int),
    decreases 64 - depth,
{
    if entries.len() == 0 {
        return Digest::zero();
    }
    if entries.len() == 1 || depth >= 64 {
        let e = &entries[0];
        let mut buf: Vec<u8> = Vec::new();
        push_bytes32(&mut buf, &e.key);
        push_bytes32(&mut buf, &e.vh);
        proof {
            assert(buf@ =~= entries@[0].key@ + entries@[0].vh@);
        }
        return hash_bytes(buf.as_slice());
    }
    let mut left: Vec<TreeEntry> = Vec::new();
    let mut right: Vec<TreeEntry> = Vec::new();
    let ghost lpred = |e: TreeEntry| spec_path_bit(e.key@, depth as int) == 0;
    let ghost rpred = |e: TreeEntry| spec_path_bit(e.key@, depth as int) != 0;
    proof {
        reveal(Seq::filter);
        assert(entries@.take(0) =~= Seq::<TreeEntry>::empty());
    }
    let mut i: usize = 0;
    while i < entries.len()
        invariant
            0 <= i <= entries@.len(),
            depth < 64,
            left@ == entries@.take(i as int).filter(lpred),
            right@ == entries@.take(i as int).filter(rpred),
            lpred == (|e: TreeEntry| spec_path_bit(e.key@, depth as int) == 0),
            rpred == (|e: TreeEntry| spec_path_bit(e.key@, depth as int) != 0),
        decreases entries@.len() - i,
    {
        let e = entries[i];
        let b = path_bit(&e.key, depth);
        proof {
            reveal(Seq::filter);
            assert(entries@.take(i as int + 1).drop_last() =~= entries@.take(i as int));
            assert(entries@.take(i as int + 1).last() == entries@[i as int]);
        }
        if b == 0 {
            left.push(e);
        } else {
            right.push(e);
        }
        i = i + 1;
    }
    proof {
        reveal(Seq::filter);
        assert(entries@.take(entries@.len() as int) =~= entries@);
    }
    let lh = subtree_hash(&left, depth + 1);
    let rh = subtree_hash(&right, depth + 1);
    hash_pair(&lh, &rh)
}


/// One step of an inclusion proof: the sibling hash, and which side we came
/// from (0: we were left; 1: we were right).
#[derive(Clone, Copy, Debug, PartialEq, Eq)]
pub struct ProofStep {
    pub sibling_hash: Digest,
    pub path_bit: u8,
}

/// An inclusion proof: key, value hash, sibling steps from leaf toward
/// root, and the root it verifies against.
#[derive(Clone, Debug)]
pub struct MerkleProof {
    pub key: [u8; 32],
    pub value_hash: Digest,
    pub siblings: Vec<ProofStep>,
    pub root: Digest,
}

/// One proof step applied to a running hash.
pub open spec fn spec_apply_step(h: Seq<u8>, st: ProofStep) -> Seq<u8> {
    if st.path_bit == 0 {
        blake3_of(h + st.sibling_hash.0@)
    } else {
        blake3_of(st.sibling_hash.0@ + h)
    }
}

/// The hash an inclusion proof folds to, from the leaf hash through the
/// steps in order.
pub open spec fn spec_fold_proof(h: Seq<u8>, steps: Seq<ProofStep>) -> Seq<u8>
    decreases steps.len(),
{
    if steps.len() == 0 {
        h
    } else {
        spec_fold_proof(spec_apply_step(h, steps[0]), steps.drop_first())
    }
}

/// Appending a step applies it after the rest.
proof fn lemma_fold_push(h: Seq<u8>, steps: Seq<ProofStep>, x: ProofStep)
    ensures
        spec_fold_proof(h, steps.push(x)) == spec_apply_step(spec_fold_proof(h, steps), x),
    decreases steps.len(),
{
    if steps.len() == 0 {
        assert(steps.push(x)[0] == x);
        assert(steps.push(x).drop_first() =~= Seq::<ProofStep>::empty());
        assert(spec_fold_proof(spec_apply_step(h, x), Seq::<ProofStep>::empty())
            == spec_apply_step(h, x));
    } else {
        assert(steps.push(x)[0] == steps[0]);
        assert(steps.push(x).drop_first() =~= steps.drop_first().push(x));
        lemma_fold_push(spec_apply_step(h, steps[0]), steps.drop_first(), x);
    }
}

impl MerkleProof {
    /// Recompute the root from the leaf through the sibling steps; true
    /// exactly when it matches the stored root.
    pub fn verify(&self) -> (r: bool)
        ensures
            r == (spec_fold_proof(blake3_of(self.key@ + self.value_hash.0@), self.siblings@)
                == self.root.0@),
    {
        let mut buf: Vec<u8> = Vec::new();
        push_bytes32(&mut buf, &self.key);
        push_bytes32(&mut buf, &self.value_hash.0);
        proof {
            assert(buf@ =~= self.key@ + self.value_hash.0@);
        }
        let mut cur = hash_bytes(buf.as_slice());
        let ghost h0 = cur.0@;
        proof {
            assert(self.siblings@.skip(0) =~= self.siblings@);
        }
        let mut i: usize = 0;
        while i < self.siblings.len()
            invariant
                0 <= i <= self.siblings@.len(),
                spec_fold_proof(h0, self.siblings@) == spec_fold_proof(
                    cur.0@,
                    self.siblings@.skip(i as int),
                ),
            decreases self.siblings@.len() - i,
        {
            let step = &self.siblings[i];
            proof {
                assert(self.siblings@.skip(i as int)[0] == self.siblings@[i as int]);
                assert(self.siblings@.skip(i as int).drop_first() =~= self.siblings@.skip(
                    i as int + 1,
                ));
            }
            let mut buf2: Vec<u8> = Vec::new();
            if step.path_bit == 0 {
                push_bytes32(&mut buf2, &cur.0);
                push_bytes32(&mut buf2, &step.sibling_hash.0);
                proof {
                    assert(buf2@ =~= cur.0@ + self.siblings@[i as int].sibling_hash.0@);
                }
            } else {
                push_bytes32(&mut buf2, &step.sibling_hash.0);
                push_bytes32(&mut buf2, &cur.0);
                proof {
                    assert(buf2@ =~= self.siblings@[i as int].sibling_hash.0@ + cur.0@);
                }
            }
            cur = hash_bytes(buf2.as_slice());
            i = i + 1;
        }
        proof {
            assert(self.siblings@.skip(self.siblings@.len() as int) =~= Seq::<ProofStep>::empty());
        }
        let r = bytes32_eq(&cur.0, &self.root.0);
        r
    }
}

/// Pairwise distinct 64-bit key prefixes: no two entries share their first
/// eight key bytes.
pub open spec fn prefix_distinct(s: Seq<TreeEntry>) -> bool {
    forall|i: int, j: int|
        0 <= i < j < s.len() ==> (#[trigger] s[i]).key@.take(8) != (#[trigger] s[j]).key@.take(8)
}

/// Filtering keeps containment and pairwise prefix distinctness.
proof fn lemma_filter_pairwise(s: Seq<TreeEntry>, pred: spec_fn(TreeEntry) -> bool)
    requires
        prefix_distinct(s),
    ensures
        prefix_distinct(s.filter(pred)),
        forall|x: TreeEntry| #[trigger] s.filter(pred).contains(x) ==> s.contains(x),
    decreases s.len(),
{
    reveal(Seq::filter);
    if s.len() > 0 {
        let d = s.drop_last();
        assert(prefix_distinct(d)) by {
            assert(forall|i: int| 0 <= i < d.len() ==> #[trigger] d[i] == s[i]);
        }
        lemma_filter_pairwise(d, pred);
        let f = s.filter(pred);
        let fd = d.filter(pred);
        assert forall|x: TreeEntry| #[trigger] f.contains(x) implies s.contains(x) by {
            if pred(s.last()) {
                assert(f == fd.push(s.last()));
                let i = choose|i: int| 0 <= i < f.len() && f[i] == x;
                if i < fd.len() {
                    assert(fd.contains(x));
                    let j = choose|j: int| 0 <= j < d.len() && d[j] == x;
                    assert(s[j] == x);
                } else {
                    assert(x == s.last());
                    assert(s[s.len() - 1] == x);
                }
            } else {
                assert(f == fd);
                assert(fd.contains(x));
                let j = choose|j: int| 0 <= j < d.len() && d[j] == x;
                assert(s[j] == x);
            }
        }
        assert(prefix_distinct(f)) by {
            if pred(s.last()) {
                assert(f == fd.push(s.last()));
                assert(forall|i: int| 0 <= i < fd.len() ==> #[trigger] f[i] == fd[i]);
                assert(f[f.len() - 1] == s.last());
                assert forall|i: int, j: int|
                    0 <= i < j < f.len() implies (#[trigger] f[i]).key@.take(8) != (
                #[trigger] f[j]).key@.take(8) by {
                    if j == f.len() - 1 {
                        assert(fd.contains(fd[i]));
                        let w = choose|w: int| 0 <= w < d.len() && d[w] == fd[i];
                        assert(s[w] == f[i]);
                        assert(s[w].key@.take(8) != s[s.len() - 1].key@.take(8));
                    }
                }
            } else {
                assert(f == fd);
            }
        }
    }
}

/// A masked bit is zero or one.
proof fn lemma_bit_is_binary(x: u8, k: u8)
    ensures
        ((x >> k) & 1) == 0 || ((x >> k) & 1) == 1,
{
    assert(((x >> k) & 1) == 0 || ((x >> k) & 1) == 1) by (bit_vector);
}

/// Two bytes with the same eight bits are the same byte.
proof fn lemma_byte_from_bits(x: u8, y: u8)
    requires
        forall|k: u8| k < 8 ==> ((x >> k) & 1) == ((#[trigger] (y >> k)) & 1),
    ensures
        x == y,
{
    assert((x >> 0u8) & 1 == (y >> 0u8) & 1);
    assert((x >> 1u8) & 1 == (y >> 1u8) & 1);
    assert((x >> 2u8) & 1 == (y >> 2u8) & 1);
    assert((x >> 3u8) & 1 == (y >> 3u8) & 1);
    assert((x >> 4u8) & 1 == (y >> 4u8) & 1);
    assert((x >> 5u8) & 1 == (y >> 5u8) & 1);
    assert((x >> 6u8) & 1 == (y >> 6u8) & 1);
    assert((x >> 7u8) & 1 == (y >> 7u8) & 1);
    assert(((x >> 0u8) & 1 == (y >> 0u8) & 1 && (x >> 1u8) & 1 == (y >> 1u8) & 1 && (x >> 2u8) & 1
        == (y >> 2u8) & 1 && (x >> 3u8) & 1 == (y >> 3u8) & 1 && (x >> 4u8) & 1 == (y >> 4u8) & 1
        && (x >> 5u8) & 1 == (y >> 5u8) & 1 && (x >> 6u8) & 1 == (y >> 6u8) & 1 && (x >> 7u8) & 1
        == (y >> 7u8) & 1) ==> x == y) by (bit_vector);
}

/// Two keys that agree on every path bit below 64 share their first eight
/// bytes.
proof fn lemma_prefix_from_bits(a: Seq<u8>, b: Seq<u8>)
    requires
        a.len() == 32,
        b.len() == 32,
        forall|d: int| 0 <= d < 64 ==> spec_path_bit(a, d) == spec_path_bit(b, d),
    ensures
        a.take(8) == b.take(8),
{
    assert forall|byte: int| 0 <= byte < 8 implies a[byte] == b[byte] by {
        assert forall|k: u8| k < 8 implies ((a[byte] >> k) & 1) == ((#[trigger] (b[byte] >> k))
            & 1) by {
            let d = byte * 8 + (7 - k);
            assert(0 <= d < 64);
            assert(d / 8 == byte && d % 8 == 7 - k) by (nonlinear_arith)
                requires
                    0 <= byte < 8,
                    k < 8,
                    d == byte * 8 + (7 - k),
            ;
            assert(spec_path_bit(a, d) == ((a[byte] >> ((7 - (d % 8)) as u8)) & 1));
            assert(spec_path_bit(b, d) == ((b[byte] >> ((7 - (d % 8)) as u8)) & 1));
            assert((7 - (d % 8)) as u8 == k);
        }
        lemma_byte_from_bits(a[byte], b[byte]);
    }
    assert(a.take(8) =~= b.take(8));
}

/// Split entries by the path bit at `depth`.
fn partition_entries(entries: &Vec<TreeEntry>, depth: usize) -> (r: (Vec<TreeEntry>, Vec<
    TreeEntry,
>))
    requires
        depth < 64,
    ensures
        r.0@ == entries@.filter(|e: TreeEntry| spec_path_bit(e.key@, depth as int) == 0),
        r.1@ == entries@.filter(|e: TreeEntry| spec_path_bit(e.key@, depth as int) != 0),
{
    let mut left: Vec<TreeEntry> = Vec::new();
    let mut right: Vec<TreeEntry> = Vec::new();
    let ghost lpred = |e: TreeEntry| spec_path_bit(e.key@, depth as int) == 0;
    let ghost rpred = |e: TreeEntry| spec_path_bit(e.key@, depth as int) != 0;
    proof {
        reveal(Seq::filter);
        assert(entries@.take(0) =~= Seq::<TreeEntry>::empty());
    }
    let mut i: usize = 0;
    while i < entries.len()
        invariant
            0 <= i <= entries@.len(),
            depth < 64,
            left@ == entries@.take(i as int).filter(lpred),
            right@ == entries@.take(i as int).filter(rpred),
            lpred == (|e: TreeEntry| spec_path_bit(e.key@, depth as int) == 0),
            rpred == (|e: TreeEntry| spec_path_bit(e.key@, depth as int) != 0),
        decreases entries@.len() - i,
    {
        let e = entries[i];
        let b = path_bit(&e.key, depth);
        proof {
            reveal(Seq::filter);
            assert(entries@.take(i as int + 1).drop_last() =~= entries@.take(i as int));
            assert(entries@.take(i as int + 1).last() == entries@[i as int]);
        }
        if b == 0 {
            left.push(e);
        } else {
            right.push(e);
        }
        i = i + 1;
    }
    proof {
        assert(entries@.take(entries@.len() as int) =~= entries@);
    }
    (left, right)
}

/// The position of the entry carrying `key`.
pub open spec fn entry_of(s: Seq<TreeEntry>, key: Seq<u8>) -> int {
    choose|i: int| 0 <= i < s.len() && (#[trigger] s[i]).key@ == key
}

/// Collect the sibling steps for `key`, leaf first. The entries must all
/// sit in `key`'s subtree, hold the key, and have pairwise-distinct 64-bit
/// prefixes.
fn collect_path(entries: &Vec<TreeEntry>, key: &[u8; 32], depth: usize) -> (r: Vec<ProofStep>)
    requires
        depth <= 64,
        prefix_distinct(entries@),
        exists|i: int| 0 <= i < entries@.len() && (#[trigger] entries@[i]).key@ == key@,
        forall|i: int, d: int|
            0 <= i < entries@.len() && 0 <= d < depth ==> #[trigger] spec_path_bit(
                entries@[i].key@,
                d,
            ) == spec_path_bit(key@, d),
    ensures
        spec_fold_proof(spec_leaf_hash(entries@[entry_of(entries@, key@)]), r@) == spec_subtree(
            entries@,
            depth as int,
        ),
    decreases 64 - depth,
{
    let ghost eidx = entry_of(entries@, key@);
    proof {
        assert(0 <= eidx < entries@.len() && entries@[eidx].key@ == key@);
    }
    if entries.len() == 1 {
        proof {
            assert(eidx == 0);
        }
        return Vec::new();
    }
    if depth >= 64 {
        proof {
            let other: int = if eidx == 0 {
                1
            } else {
                0
            };
            lemma_prefix_from_bits(entries@[eidx].key@, entries@[other].key@);
            assert(false);
        }
        return Vec::new();
    }
    let (left, right) = partition_entries(entries, depth);
    let ghost lpred = |e: TreeEntry| spec_path_bit(e.key@, depth as int) == 0;
    let ghost rpred = |e: TreeEntry| spec_path_bit(e.key@, depth as int) != 0;
    proof {
        lemma_filter_pairwise(entries@, lpred);
        lemma_filter_pairwise(entries@, rpred);
        if spec_path_bit(key@, depth as int) == 0 {
            entries@.lemma_filter_contains(lpred, eidx);
        } else {
            entries@.lemma_filter_contains(rpred, eidx);
        }
    }
    let bit = path_bit(key, depth);
    let (own, sib) = if bit == 0 {
        (left, right)
    } else {
        (right, left)
    };
    proof {
        // The key's entry is on its own side, and every entry of that side
        // agrees with the key on bits up to depth + 1.
        let e = entries@[eidx];
        assert(own@.contains(e));
        let w = choose|w: int| 0 <= w < own@.len() && own@[w] == e;
        assert(own@[w].key@ == key@);
        assert forall|i: int, d: int|
            0 <= i < own@.len() && 0 <= d < depth + 1 implies #[trigger] spec_path_bit(
            own@[i].key@,
            d,
        ) == spec_path_bit(key@, d) by {
            if bit == 0 {
                entries@.lemma_filter_pred(lpred, i);
                assert(lpred(own@[i]));
            } else {
                entries@.lemma_filter_pred(rpred, i);
                assert(rpred(own@[i]));
                lemma_bit_is_binary(own@[i].key@[depth as int / 8], (7 - (depth as int % 8)) as u8);
                lemma_bit_is_binary(key@[depth as int / 8], (7 - (depth as int % 8)) as u8);
            }
            assert(spec_path_bit(own@[i].key@, depth as int) == spec_path_bit(
                key@,
                depth as int,
            ));
            assert(own@.contains(own@[i]));
            assert(entries@.contains(own@[i]));
            let q = choose|q: int| 0 <= q < entries@.len() && entries@[q] == own@[i];
            if d < depth {
                assert(spec_path_bit(entries@[q].key@, d) == spec_path_bit(key@, d));
                assert(spec_path_bit(own@[i].key@, d) == spec_path_bit(entries@[q].key@, d));
            }
        }
    }
    let sib_hash = subtree_hash(&sib, depth + 1);
    let mut steps = collect_path(&own, key, depth + 1);
    proof {
        // The unique entry carrying the key is the same on the own side.
        let w = choose|w: int| 0 <= w < own@.len() && (#[trigger] own@[w]).key@ == key@;
        let w2 = entry_of(own@, key@);
        if w2 != w {
            assert(own@[w2].key@ == key@ && own@[w].key@ == key@);
            assert(own@[w2].key@.take(8) == own@[w].key@.take(8));
            assert(false);
        }
        assert(own@[entry_of(own@, key@)] == entries@[eidx]) by {
            let wx = entry_of(own@, key@);
            assert(own@.contains(entries@[eidx]));
            let wy = choose|wy: int| 0 <= wy < own@.len() && own@[wy] == entries@[eidx];
            if wx != wy {
                assert(own@[wx].key@.take(8) == own@[wy].key@.take(8));
                assert(false);
            }
        }
    }
    let step = ProofStep { sibling_hash: sib_hash, path_bit: bit };
    let ghost steps_pre = steps@;
    steps.push(step);
    proof {
        lemma_fold_push(spec_leaf_hash(entries@[eidx]), steps_pre, step);
        assert(spec_subtree(entries@, depth as int) == blake3_of(
            spec_subtree(entries@.filter(lpred), depth as int + 1) + spec_subtree(
                entries@.filter(rpred),
                depth as int + 1,
            ),
        ));
    }
    steps
}


/// The value hash of an account state: the little-endian encodings of
/// balance, nonce, and stake, concatenated and hashed.
pub open spec fn spec_account_hash(st: crate::types::AccountState) -> Seq<u8> {
    blake3_of(
        crate::codec::spec_enc_u128(st.balance) + crate::codec::spec_enc_u64(st.nonce)
            + crate::codec::spec_enc_u128(st.stake),
    )
}

/// Hash an account state for the tree.
pub fn account_hash(st: &crate::types::AccountState) -> (r: Digest)
    ensures
        r.0@ == spec_account_hash(*st),
{
    let mut buf: Vec<u8> = Vec::new();
    crate::codec::push_u128(&mut buf, st.balance);
    crate::codec::push_u64(&mut buf, st.nonce);
    crate::codec::push_u128(&mut buf, st.stake);
    proof {
        assert(buf@ =~= crate::codec::spec_enc_u128(st.balance) + crate::codec::spec_enc_u64(
            st.nonce,
        ) + crate::codec::spec_enc_u128(st.stake));
    }
    hash_bytes(buf.as_slice())
}

/// No two leaves share a key.
pub open spec fn leaves_distinct(s: Seq<TreeEntry>) -> bool {
    forall|i: int, j: int|
        0 <= i < j < s.len() ==> (#[trigger] s[i]).key@ != (#[trigger] s[j]).key@
}

/// The byte-keyed map a leaf list denotes.
pub open spec fn leaves_map(s: Seq<TreeEntry>) -> Map<Seq<u8>, Seq<u8>>
    decreases s.len(),
{
    if s.len() == 0 {
        Map::empty()
    } else {
        leaves_map(s.drop_last()).insert(s.last().key@, s.last().vh@)
    }
}

/// A key is in the map exactly when a leaf carries it.
pub proof fn lemma_leaves_contains(s: Seq<TreeEntry>, k: Seq<u8>)
    ensures
        leaves_map(s).contains_key(k) <==> exists|i: int|
            0 <= i < s.len() && (#[trigger] s[i]).key@ == k,
    decreases s.len(),
{
    if s.len() > 0 {
        lemma_leaves_contains(s.drop_last(), k);
        if k == s.last().key@ {
            assert(s[s.len() - 1].key@ == k);
        } else {
            if exists|i: int| 0 <= i < s.drop_last().len() && (#[trigger] s.drop_last()[i]).key@
                == k {
                let i = choose|i: int|
                    0 <= i < s.drop_last().len() && (#[trigger] s.drop_last()[i]).key@ == k;
                assert(s[i].key@ == k);
            }
            if exists|i: int| 0 <= i < s.len() && (#[trigger] s[i]).key@ == k {
                let i = choose|i: int| 0 <= i < s.len() && (#[trigger] s[i]).key@ == k;
                assert(i < s.len() - 1);
                assert(s.drop_last()[i].key@ == k);
            }
        }
    }
}

/// With distinct keys, each leaf is what the map holds for its key.
pub proof fn lemma_leaves_at(s: Seq<TreeEntry>, i: int)
    requires
        leaves_distinct(s),
        0 <= i < s.len(),
    ensures
        leaves_map(s).contains_key(s[i].key@),
        leaves_map(s)[s[i].key@] == s[i].vh@,
    decreases s.len(),
{
    if i < s.len() - 1 {
        assert(leaves_distinct(s.drop_last())) by {
            assert(forall|a: int|
                0 <= a < s.drop_last().len() ==> #[trigger] s.drop_last()[a] == s[a]);
        }
        assert(s.drop_last()[i] == s[i]);
        lemma_leaves_at(s.drop_last(), i);
        assert(s[i].key@ != s.last().key@);
    }
}

proof fn lemma_leaves_update(s: Seq<TreeEntry>, i: int, e: TreeEntry)
    requires
        leaves_distinct(s),
        0 <= i < s.len(),
        e.key@ == s[i].key@,
    ensures
        leaves_distinct(s.update(i, e)),
        leaves_map(s.update(i, e)) == leaves_map(s).insert(e.key@, e.vh@),
    decreases s.len(),
{
    assert(leaves_distinct(s.update(i, e))) by {
        assert(forall|p: int|
            0 <= p < s.len() ==> (#[trigger] s.update(i, e)[p]).key@ == (if p == i {
                e.key@
            } else {
                s[p].key@
            }));
    }
    if i == s.len() - 1 {
        assert(s.update(i, e).drop_last() =~= s.drop_last());
        assert(s.update(i, e).last() == e);
        assert(leaves_map(s.drop_last()).insert(s.last().key@, s.last().vh@).insert(e.key@, e.vh@)
            =~= leaves_map(s.drop_last()).insert(e.key@, e.vh@));
    } else {
        assert(leaves_distinct(s.drop_last())) by {
            assert(forall|a: int|
                0 <= a < s.drop_last().len() ==> #[trigger] s.drop_last()[a] == s[a]);
        }
        assert(s.drop_last()[i] == s[i]);
        lemma_leaves_update(s.drop_last(), i, e);
        assert(s.update(i, e).drop_last() =~= s.drop_last().update(i, e));
        assert(s.update(i, e).last() == s.last());
        assert(s.last().key@ != e.key@);
        assert(leaves_map(s.drop_last()).insert(e.key@, e.vh@).insert(s.last().key@, s.last().vh@)
            =~= leaves_map(s.drop_last()).insert(s.last().key@, s.last().vh@).insert(
            e.key@,
            e.vh@,
        ));
    }
}

proof fn lemma_leaves_remove(s: Seq<TreeEntry>, i: int)
    requires
        leaves_distinct(s),
        0 <= i < s.len(),
    ensures
        leaves_distinct(s.remove(i)),
        leaves_map(s.remove(i)) == leaves_map(s).remove(s[i].key@),
{
    let s2 = s.remove(i);
    assert(forall|a: int|
        0 <= a < s2.len() ==> #[trigger] s2[a] == (if a < i {
            s[a]
        } else {
            s[a + 1]
        }));
    assert(leaves_distinct(s2));
    assert(leaves_map(s2) =~= leaves_map(s).remove(s[i].key@)) by {
        assert forall|k: Seq<u8>|
            leaves_map(s2).contains_key(k) <==> #[trigger] leaves_map(s).remove(
                s[i].key@,
            ).contains_key(k) by {
            lemma_leaves_contains(s2, k);
            lemma_leaves_contains(s, k);
            if exists|a: int| 0 <= a < s2.len() && (#[trigger] s2[a]).key@ == k {
                let a = choose|a: int| 0 <= a < s2.len() && (#[trigger] s2[a]).key@ == k;
                if a < i {
                    assert(s[a].key@ == k);
                } else {
                    assert(s[a + 1].key@ == k);
                }
            }
            if leaves_map(s).remove(s[i].key@).contains_key(k) {
                let a = choose|a: int| 0 <= a < s.len() && (#[trigger] s[a]).key@ == k;
                if a < i {
                    assert(s2[a].key@ == k);
                } else {
                    assert(s2[a - 1].key@ == k);
                }
            }
        }
        assert forall|k: Seq<u8>| #[trigger] leaves_map(s2).contains_key(k) implies leaves_map(
            s2,
        )[k] == leaves_map(s).remove(s[i].key@)[k] by {
            lemma_leaves_contains(s2, k);
            let a = choose|a: int| 0 <= a < s2.len() && (#[trigger] s2[a]).key@ == k;
            lemma_leaves_at(s2, a);
            if a < i {
                lemma_leaves_at(s, a);
            } else {
                lemma_leaves_at(s, a + 1);
            }
        }
    }
}

/// The sparse Merkle tree: a leaf per key, read as a map from key bytes to
/// value hash.
pub struct SparseMerkleTree {
    leaves: Vec<TreeEntry>,
}

impl SparseMerkleTree {
    /// The map this tree holds.
    pub closed spec fn view(&self) -> Map<Seq<u8>, Seq<u8>> {
        leaves_map(self.leaves@)
    }

    /// Well-formed: one leaf per key.
    pub closed spec fn wf(&self) -> bool {
        leaves_distinct(self.leaves@)
    }

    /// An empty tree.
    pub fn new() -> (r: Self)
        ensures
            r.wf(),
            r@ == Map::<Seq<u8>, Seq<u8>>::empty(),
    {
        SparseMerkleTree { leaves: Vec::new() }
    }

    /// Upsert the leaf for an account: the value hash of its state.
    pub fn insert(&mut self, key: crate::types::AccountId, value: &crate::types::AccountState)
        requires
            old(self).wf(),
        ensures
            final(self).wf(),
            final(self)@ == old(self)@.insert(key.0@, spec_account_hash(*value)),
    {
        let vh = account_hash(value);
        let e = TreeEntry { key: key.0, vh: vh.0 };
        let n = self.leaves.len();
        let mut i: usize = 0;
        while i < n
            invariant
                0 <= i <= n,
                *self == *old(self),
                old(self).wf(),
                n == self.leaves@.len(),
                e.key@ == key.0@ && e.vh@ == spec_account_hash(*value),
                forall|j: int| 0 <= j < i ==> (#[trigger] self.leaves@[j]).key@ != key.0@,
            decreases n - i,
        {
            if bytes32_eq(&self.leaves[i].key, &key.0) {
                proof {
                    lemma_leaves_update(self.leaves@, i as int, e);
                }
                self.leaves[i] = e;
                return ;
            }
            i = i + 1;
        }
        proof {
            let s = self.leaves@;
            assert(s.push(e).drop_last() =~= s);
            assert(forall|p: int|
                0 <= p < s.push(e).len() ==> (#[trigger] s.push(e)[p]).key@ == (if p < s.len() {
                    s[p].key@
                } else {
                    e.key@
                }));
        }
        self.leaves.push(e);
    }

    /// Read the value hash stored for a key.
    pub fn get(&self, key: &crate::types::AccountId) -> (r: Option<&[u8; 32]>)
        requires
            self.wf(),
        ensures
            match r {
                Some(vh) => self@.contains_key(key.0@) && vh@ == self@[key.0@],
                None => !self@.contains_key(key.0@),
            },
    {
        proof {
            lemma_leaves_contains(self.leaves@, key.0@);
        }
        let n = self.leaves.len();
        let mut i: usize = 0;
        while i < n
            invariant
                0 <= i <= n,
                self.wf(),
                n == self.leaves@.len(),
                forall|j: int| 0 <= j < i ==> (#[trigger] self.leaves@[j]).key@ != key.0@,
            decreases n - i,
        {
            if bytes32_eq(&self.leaves[i].key, &key.0) {
                proof {
                    lemma_leaves_at(self.leaves@, i as int);
                }
                return Some(&self.leaves[i].vh);
            }
            i = i + 1;
        }
        None
    }

    /// Delete a key's leaf, if present.
    pub fn delete(&mut self, key: &crate::types::AccountId)
        requires
            old(self).wf(),
        ensures
            final(self).wf(),
            final(self)@ == old(self)@.remove(key.0@),
    {
        let n = self.leaves.len();
        let mut i: usize = 0;
        while i < n
            invariant
                0 <= i <= n,
                *self == *old(self),
                old(self).wf(),
                n == self.leaves@.len(),
                forall|j: int| 0 <= j < i ==> (#[trigger] self.leaves@[j]).key@ != key.0@,
            decreases n - i,
        {
            if bytes32_eq(&self.leaves[i].key, &key.0) {
                proof {
                    lemma_leaves_remove(self.leaves@, i as int);
                }
                self.leaves.remove(i);
                return ;
            }
            i = i + 1;
        }
        proof {
            lemma_leaves_contains(self.leaves@, key.0@);
            assert(self@.remove(key.0@) =~= self@);
        }
    }

    /// The canonical entry list of this tree: its leaves sorted by key.
    fn canonical(&self) -> (r: Vec<TreeEntry>)
        requires
            self.wf(),
        ensures
            entries_match(r@, self@),
            r@ == canonical_entries(self@),
    {
        let ghost s = self.leaves@;
        let sorted = sort_entries(self.leaves.clone());
        proof {
            assert(self.leaves@.take(self.leaves@.len() as int) =~= self.leaves@);
            assert(entries_match(sorted@, self@)) by {
                assert forall|i: int|
                    0 <= i < sorted@.len() implies self@.contains_key(
                    (#[trigger] sorted@[i]).key@,
                ) && sorted@[i].vh@ == self@[sorted@[i].key@] by {
                    assert(sorted@.contains(sorted@[i]));
                    assert(s.contains(sorted@[i]));
                    let j = choose|j: int| 0 <= j < s.len() && s[j] == sorted@[i];
                    lemma_leaves_at(s, j);
                }
                assert forall|k: Seq<u8>| #[trigger] self@.contains_key(k) implies exists|i: int|
                    0 <= i < sorted@.len() && (#[trigger] sorted@[i]).key@ == k by {
                    lemma_leaves_contains(s, k);
                    let j = choose|j: int| 0 <= j < s.len() && (#[trigger] s[j]).key@ == k;
                    assert(s.contains(s[j]));
                    assert(sorted@.contains(s[j]));
                    let i = choose|i: int| 0 <= i < sorted@.len() && sorted@[i] == s[j];
                    assert(sorted@[i].key@ == k);
                }
            }
            lemma_match_unique(sorted@, canonical_entries(self@), self@);
        }
        sorted
    }

    /// The root of the tree over the current leaves; deterministic: a pure
    /// function of the map this tree holds.
    pub fn root(&self) -> (r: Digest)
        requires
            self.wf(),
        ensures
            r.0@ == spec_smt_root(self@),
    {
        let sorted = self.canonical();
        subtree_hash(&sorted, 0)
    }

    /// An inclusion proof for a key, or nothing when the key is absent. The
    /// proof verifies against this tree's root. The keys must differ
    /// pairwise in their first eight bytes.
    pub fn prove(&self, key: &crate::types::AccountId) -> (r: Option<MerkleProof>)
        requires
            self.wf(),
            forall|k1: Seq<u8>, k2: Seq<u8>|
                #[trigger] self@.contains_key(k1) && #[trigger] self@.contains_key(k2) && k1 != k2
                    ==> k1.take(8) != k2.take(8),
        ensures
            match r {
                Some(p) => {
                    &&& self@.contains_key(key.0@)
                    &&& p.key == key.0
                    &&& p.value_hash.0@ == self@[key.0@]
                    &&& p.root.0@ == spec_smt_root(self@)
                    &&& spec_fold_proof(blake3_of(p.key@ + p.value_hash.0@), p.siblings@)
                        == p.root.0@
                },
                None => !self@.contains_key(key.0@),
            },
    {
        let vh = match self.get(key) {
            Some(v) => Digest(*v),
            None => {
                return None;
            },
        };
        let sorted = self.canonical();
        let root = subtree_hash(&sorted, 0);
        proof {
            assert(prefix_distinct(sorted@)) by {
                assert forall|i: int, j: int|
                    0 <= i < j < sorted@.len() implies (#[trigger] sorted@[i]).key@.take(8) != (
                #[trigger] sorted@[j]).key@.take(8) by {
                    assert(self@.contains_key(sorted@[i].key@));
                    assert(self@.contains_key(sorted@[j].key@));
                    lemma_lex_irrefl(sorted@[i].key@);
                }
            }
            lemma_leaves_contains(self.leaves@, key.0@);
            let i = choose|i: int|
                0 <= i < sorted@.len() && (#[trigger] sorted@[i]).key@ == key.0@;
            assert(sorted@[i].key@ == key.0@);
        }
        let steps = collect_path(&sorted, &key.0, 0);
        proof {
            let ei = entry_of(sorted@, key.0@);
            assert(sorted@[ei].key@ == key.0@);
            assert(sorted@[ei].vh@ == self@[key.0@]);
            let k1 = sorted@[ei].key;
            let k2 = key.0;
            assert(k1@ == k2@);
            assert(k1 == k2);
            let v1 = sorted@[ei].vh;
            let v2 = vh.0;
            assert(v1@ == v2@);
            assert(v1 == v2);
            assert(spec_leaf_hash(sorted@[ei]) == blake3_of(key.0@ + vh.0@));
        }
        Some(MerkleProof { key: key.0, value_hash: vh, siblings: steps, root })
    }
}

} // verus!
