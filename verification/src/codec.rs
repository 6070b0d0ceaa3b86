//! Canonical byte encoding of transactions and headers, the values the
//! protocol hashes: integers little-endian, byte strings length-prefixed.
//! The whole system agrees on this one encoding.

use vstd::prelude::*;

use crate::hash::{blake3_of, hash_bytes, push_bytes32, zero_hash_bytes, Digest};
use crate::types::{AccessList, AccountId, BlockHeader, Transaction, TransactionPayload};

verus! {

/// Little-endian bytes of a 64-bit integer.
pub open spec fn spec_enc_u64(n: u64) -> Seq<u8> {
    seq![
        (n & 0xff) as u8,
        ((n >> 8) & 0xff) as u8,
        ((n >> 16) & 0xff) as u8,
        ((n >> 24) & 0xff) as u8,
        ((n >> 32) & 0xff) as u8,
        ((n >> 40) & 0xff) as u8,
        ((n >> 48) & 0xff) as u8,
        ((n >> 56) & 0xff) as u8,
    ]
}

/// Little-endian bytes of a 128-bit integer.
pub open spec fn spec_enc_u128(n: u128) -> Seq<u8> {
    spec_enc_u64((n & 0xffff_ffff_ffff_ffff) as u64) + spec_enc_u64(
        ((n >> 64) & 0xffff_ffff_ffff_ffff) as u64,
    )
}

/// A byte string, prefixed with its length.
pub open spec fn spec_enc_bytes(b: Seq<u8>) -> Seq<u8> {
    spec_enc_u64(b.len() as u64) + b
}

/// The raw bytes of a list of account identifiers, concatenated.
pub open spec fn spec_cat_ids(ids: Seq<AccountId>) -> Seq<u8>
    decreases ids.len(),
{
    if ids.len() == 0 {
        Seq::empty()
    } else {
        ids[0].0@ + spec_cat_ids(ids.drop_first())
    }
}

/// A list of account identifiers, prefixed with its length.
pub open spec fn spec_enc_id_list(ids: Seq<AccountId>) -> Seq<u8> {
    spec_enc_u64(ids.len() as u64) + spec_cat_ids(ids)
}

/// An access list: read set, then write set.
pub open spec fn spec_enc_access_list(al: AccessList) -> Seq<u8> {
    spec_enc_id_list(al.read@) + spec_enc_id_list(al.write@)
}

/// A payload: a tag byte, then the fields in order.
pub open spec fn spec_enc_payload(p: TransactionPayload) -> Seq<u8> {
    match p {
        TransactionPayload::Transfer { to, amount } => seq![0u8] + to.0@ + spec_enc_u128(amount),
        TransactionPayload::ContractCall { contract, calldata } => seq![1u8] + contract.0@
            + spec_enc_bytes(calldata@),
        TransactionPayload::ContractDeploy { bytecode } => seq![2u8] + spec_enc_bytes(bytecode@),
        TransactionPayload::Bond { amount } => seq![3u8] + spec_enc_u128(amount),
        TransactionPayload::Unbond { amount } => seq![4u8] + spec_enc_u128(amount),
    }
}

/// A whole transaction: nonce, sender, payload, access list. These are also
/// the bytes whose digest is signed.
pub open spec fn spec_enc_tx(tx: Transaction) -> Seq<u8> {
    spec_enc_u64(tx.nonce) + tx.sender.0@ + spec_enc_payload(tx.payload) + spec_enc_access_list(
        tx.access_list,
    )
}

/// A block header, field by field.
pub open spec fn spec_enc_header(h: BlockHeader) -> Seq<u8> {
    h.parent_hash.0@ + spec_enc_u64(h.height) + spec_enc_u64(h.timestamp) + h.proposer.0@
        + h.tx_root.0@ + h.state_root.0@
}

/// The deterministic transaction identifier: BLAKE3 of the canonical bytes.
pub open spec fn spec_tx_id(tx: Transaction) -> Seq<u8> {
    blake3_of(spec_enc_tx(tx))
}

/// The block hash: BLAKE3 of the encoded header.
pub open spec fn spec_block_hash(h: BlockHeader) -> Seq<u8> {
    blake3_of(spec_enc_header(h))
}

/// Append the little-endian bytes of a 64-bit integer.
pub fn push_u64(buf: &mut Vec<u8>, n: u64)
    ensures
        final(buf)@ == old(buf)@ + spec_enc_u64(n),
{
    let ghost pre = buf@;
    buf.push((n & 0xff) as u8);
    buf.push(((n >> 8) & 0xff) as u8);
    buf.push(((n >> 16) & 0xff) as u8);
    buf.push(((n >> 24) & 0xff) as u8);
    buf.push(((n >> 32) & 0xff) as u8);
    buf.push(((n >> 40) & 0xff) as u8);
    buf.push(((n >> 48) & 0xff) as u8);
    buf.push(((n >> 56) & 0xff) as u8);
    proof {
        assert(buf@ =~= pre + spec_enc_u64(n));
    }
}

/// Append the little-endian bytes of a 128-bit integer.
pub fn push_u128(buf: &mut Vec<u8>, n: u128)
    ensures
        final(buf)@ == old(buf)@ + spec_enc_u128(n),
{
    let ghost pre = buf@;
    push_u64(buf, (n & 0xffff_ffff_ffff_ffff) as u64);
    push_u64(buf, ((n >> 64) & 0xffff_ffff_ffff_ffff) as u64);
    proof {
        assert(buf@ =~= pre + spec_enc_u128(n));
    }
}

/// Append a byte slice.
pub fn push_slice(buf: &mut Vec<u8>, s: &[u8])
    ensures
        final(buf)@ == old(buf)@ + s@,
{
    let ghost pre = buf@;
    let mut i: usize = 0;
    while i < s.len()
        invariant
            0 <= i <= s@.len(),
            buf@ == pre + s@.take(i as int),
        decreases s@.len() - i,
    {
        buf.push(s[i]);
        proof {
            assert(pre + s@.take(i as int) + seq![s@[i as int]] =~= pre + s@.take(i as int + 1));
        }
        i = i + 1;
    }
    proof {
        assert(s@.take(s@.len() as int) =~= s@);
    }
}

/// Append a length-prefixed byte string.
pub fn push_bytes(buf: &mut Vec<u8>, s: &Vec<u8>)
    ensures
        final(buf)@ == old(buf)@ + spec_enc_bytes(s@),
{
    let ghost pre = buf@;
    push_u64(buf, s.len() as u64);
    push_slice(buf, s.as_slice());
    proof {
        assert(buf@ =~= pre + spec_enc_bytes(s@));
    }
}

/// Concatenation over a list grows one identifier at a time.
proof fn lemma_cat_ids_push(ids: Seq<AccountId>, x: AccountId)
    ensures
        spec_cat_ids(ids.push(x)) == spec_cat_ids(ids) + x.0@,
    decreases ids.len(),
{
    if ids.len() == 0 {
        let s = ids.push(x);
        assert(s[0] == x);
        assert(s.drop_first() =~= Seq::<AccountId>::empty());
        assert(spec_cat_ids(s.drop_first()) == Seq::<u8>::empty());
        assert(spec_cat_ids(s) == x.0@ + Seq::<u8>::empty());
        assert(spec_cat_ids(ids) == Seq::<u8>::empty());
        assert(x.0@ + Seq::<u8>::empty() =~= Seq::<u8>::empty() + x.0@);
    } else {
        assert(ids.push(x).drop_first() =~= ids.drop_first().push(x));
        lemma_cat_ids_push(ids.drop_first(), x);
        assert(spec_cat_ids(ids.push(x)) == ids[0].0@ + (spec_cat_ids(ids.drop_first()) + x.0@));
        assert(ids[0].0@ + (spec_cat_ids(ids.drop_first()) + x.0@) =~= (ids[0].0@ + spec_cat_ids(
            ids.drop_first(),
        )) + x.0@);
    }
}

/// Append a length-prefixed list of account identifiers.
pub fn push_id_list(buf: &mut Vec<u8>, ids: &Vec<AccountId>)
    ensures
        final(buf)@ == old(buf)@ + spec_enc_id_list(ids@),
{
    let ghost pre = buf@;
    push_u64(buf, ids.len() as u64);
    let mut i: usize = 0;
    while i < ids.len()
        invariant
            0 <= i <= ids@.len(),
            buf@ == pre + spec_enc_u64(ids@.len() as u64) + spec_cat_ids(ids@.take(i as int)),
        decreases ids@.len() - i,
    {
        push_bytes32(buf, &ids[i].0);
        proof {
            assert(ids@.take(i as int).push(ids@[i as int]) =~= ids@.take(i as int + 1));
            lemma_cat_ids_push(ids@.take(i as int), ids@[i as int]);
            assert(pre + spec_enc_u64(ids@.len() as u64) + spec_cat_ids(ids@.take(i as int))
                + ids@[i as int].0@ =~= pre + spec_enc_u64(ids@.len() as u64) + spec_cat_ids(
                ids@.take(i as int + 1),
            ));
        }
        i = i + 1;
    }
    proof {
        assert(ids@.take(ids@.len() as int) =~= ids@);
        assert(buf@ =~= pre + spec_enc_id_list(ids@));
    }
}

/// Append the canonical bytes of an access list.
pub fn push_access_list(buf: &mut Vec<u8>, al: &AccessList)
    ensures
        final(buf)@ == old(buf)@ + spec_enc_access_list(*al),
{
    let ghost pre = buf@;
    push_id_list(buf, &al.read);
    push_id_list(buf, &al.write);
    proof {
        assert(buf@ =~= pre + spec_enc_access_list(*al));
    }
}

/// Append the canonical bytes of a payload.
pub fn push_payload(buf: &mut Vec<u8>, p: &TransactionPayload)
    ensures
        final(buf)@ == old(buf)@ + spec_enc_payload(*p),
{
    let ghost pre = buf@;
    match p {
        TransactionPayload::Transfer { to, amount } => {
            buf.push(0u8);
            push_bytes32(buf, &to.0);
            push_u128(buf, *amount);
        },
        TransactionPayload::ContractCall { contract, calldata } => {
            buf.push(1u8);
            push_bytes32(buf, &contract.0);
            push_bytes(buf, calldata);
        },
        TransactionPayload::ContractDeploy { bytecode } => {
            buf.push(2u8);
            push_bytes(buf, bytecode);
        },
        TransactionPayload::Bond { amount } => {
            buf.push(3u8);
            push_u128(buf, *amount);
        },
        TransactionPayload::Unbond { amount } => {
            buf.push(4u8);
            push_u128(buf, *amount);
        },
    }
    proof {
        assert(buf@ =~= pre + spec_enc_payload(*p));
    }
}

/// Canonical bytes of a whole transaction.
pub fn encode_transaction(tx: &Transaction) -> (r: Vec<u8>)
    ensures
        r@ == spec_enc_tx(*tx),
{
    let mut buf: Vec<u8> = Vec::new();
    push_u64(&mut buf, tx.nonce);
    push_bytes32(&mut buf, &tx.sender.0);
    push_payload(&mut buf, &tx.payload);
    push_access_list(&mut buf, &tx.access_list);
    proof {
        assert(buf@ =~= spec_enc_tx(*tx));
    }
    buf
}

/// Canonical bytes of a block header.
pub fn encode_header(h: &BlockHeader) -> (r: Vec<u8>)
    ensures
        r@ == spec_enc_header(*h),
{
    let mut buf: Vec<u8> = Vec::new();
    push_bytes32(&mut buf, &h.parent_hash.0);
    push_u64(&mut buf, h.height);
    push_u64(&mut buf, h.timestamp);
    push_bytes32(&mut buf, &h.proposer.0);
    push_bytes32(&mut buf, &h.tx_root.0);
    push_bytes32(&mut buf, &h.state_root.0);
    proof {
        assert(buf@ =~= spec_enc_header(*h));
    }
    buf
}

/// One level of the pairwise Merkle tree: adjacent digests are hashed
/// together; a lone last digest is paired with itself.
pub open spec fn spec_merkle_level(h: Seq<Seq<u8>>) -> Seq<Seq<u8>> {
    Seq::new(((h.len() + 1) / 2) as nat, |i: int|
        if 2 * i + 1 < h.len() {
            blake3_of(h[2 * i] + h[2 * i + 1])
        } else {
            blake3_of(h[2 * i] + h[2 * i])
        })
}

/// Root of the pairwise binary Merkle tree over a sequence of digests.
/// An empty sequence has the zero hash as its root.
pub open spec fn spec_merkle_root(h: Seq<Seq<u8>>) -> Seq<u8>
    decreases h.len(),
{
    if h.len() == 0 {
        zero_hash_bytes()
    } else if h.len() == 1 {
        h[0]
    } else {
        spec_merkle_root(spec_merkle_level(h))
    }
}

/// The digests of a sequence of transactions, in order.
pub open spec fn spec_tx_ids(txs: Seq<Transaction>) -> Seq<Seq<u8>> {
    Seq::new(txs.len(), |i: int| spec_tx_id(txs[i]))
}

/// The transaction root of a block: the Merkle root of the transaction
/// identifiers; the zero hash for an empty block.
pub open spec fn spec_tx_root(txs: Seq<Transaction>) -> Seq<u8> {
    spec_merkle_root(spec_tx_ids(txs))
}

/// Digest views of a vector of digests.
pub open spec fn digests_view(v: Seq<Digest>) -> Seq<Seq<u8>> {
    Seq::new(v.len(), |i: int| v[i].0@)
}

/// Merkle root of a vector of digests.
pub fn merkle_root(hashes: &Vec<Digest>) -> (r: Digest)
    ensures
        r.0@ == spec_merkle_root(digests_view(hashes@)),
{
    if hashes.len() == 0 {
        proof {
            assert(digests_view(hashes@).len() == 0);
        }
        return Digest::zero();
    }
    let mut cur: Vec<Digest> = hashes.clone();
    proof {
        assert(cur@ == hashes@);
    }
    while cur.len() > 1
        invariant
            cur@.len() >= 1,
            spec_merkle_root(digests_view(cur@)) == spec_merkle_root(digests_view(hashes@)),
        decreases cur@.len(),
    {
        let mut next: Vec<Digest> = Vec::new();
        let ghost lv = spec_merkle_level(digests_view(cur@));
        let mut i: usize = 0;
        while i + 1 < cur.len()
            invariant
                cur@.len() >= 2,
                i % 2 == 0,
                0 <= i <= cur@.len(),
                lv == spec_merkle_level(digests_view(cur@)),
                next@.len() == i / 2,
                forall|j: int| 0 <= j < next@.len() ==> next@[j].0@ == lv[j],
            decreases cur@.len() - i,
        {
            let h = crate::hash::hash_pair(&cur[i], &cur[i + 1]);
            next.push(h);
            i = i + 2;
        }
        if i < cur.len() {
            let h = crate::hash::hash_pair(&cur[i], &cur[i]);
            next.push(h);
            proof {
                assert(next@.len() == (cur@.len() + 1) / 2);
            }
        }
        proof {
            assert(next@.len() == lv.len());
            assert(digests_view(next@) =~= lv);
        }
        cur = next;
    }
    proof {
        assert(digests_view(cur@).len() == 1);
        assert(spec_merkle_root(digests_view(cur@)) == digests_view(cur@)[0]);
    }
    cur[0]
}

/// Merkle root of the identifiers of a list of transactions; the zero hash
/// when the list is empty. A pure function of the transaction sequence.
pub fn tx_root(txs: &Vec<Transaction>) -> (r: Digest)
    ensures
        r.0@ == spec_tx_root(txs@),
{
    if txs.len() == 0 {
        proof {
            assert(spec_tx_ids(txs@).len() == 0);
        }
        return Digest::zero();
    }
    let mut leaves: Vec<Digest> = Vec::new();
    let mut i: usize = 0;
    while i < txs.len()
        invariant
            0 <= i <= txs@.len(),
            leaves@.len() == i,
            forall|j: int| 0 <= j < i ==> leaves@[j].0@ == spec_tx_id(txs@[j]),
        decreases txs@.len() - i,
    {
        let id = txs[i].id();
        leaves.push(id);
        i = i + 1;
    }
    proof {
        assert(digests_view(leaves@) =~= spec_tx_ids(txs@));
    }
    merkle_root(&leaves)
}

impl Transaction {
    /// The deterministic transaction identifier: BLAKE3 of the canonical
    /// encoding of the whole record.
    pub fn id(&self) -> (r: Digest)
        ensures
            r.0@ == spec_tx_id(*self),
    {
        let enc = encode_transaction(self);
        hash_bytes(enc.as_slice())
    }
}

impl crate::types::Block {
    /// The block hash: BLAKE3 of the encoded header. Transactions contribute
    /// only through the header's transaction root.
    pub fn hash(&self) -> (r: Digest)
        ensures
            r.0@ == spec_block_hash(self.header),
    {
        let enc = encode_header(&self.header);
        hash_bytes(enc.as_slice())
    }
}

} // verus!
