//! Hashing primitives: 32-byte digests computed with BLAKE3, and lowercase
//! hex rendering of byte strings.

use vstd::prelude::*;

verus! {

/// 32-byte hash value: a BLAKE3 digest.
#[derive(Clone, Copy, Eq, Hash, Debug)]
pub struct Digest(pub [u8; 32]);

/// Byte-for-byte equality of two 32-byte arrays.
pub fn bytes32_eq(a: &[u8; 32], b: &[u8; 32]) -> (r: bool)
    ensures
        r == (a@ == b@),
{
    let mut i: usize = 0;
    while i < 32
        invariant
            0 <= i <= 32,
            forall|j: int| 0 <= j < i ==> a@[j] == b@[j],
        decreases 32 - i,
    {
        if a[i] != b[i] {
            return false;
        }
        i = i + 1;
    }
    proof {
        assert(a@ =~= b@);
    }
    true
}

impl PartialEq for Digest {
    fn eq(&self, o: &Digest) -> (r: bool) {
        bytes32_eq(&self.0, &o.0)
    }
}

impl vstd::std_specs::cmp::PartialEqSpecImpl for Digest {
    open spec fn obeys_eq_spec() -> bool {
        true
    }

    open spec fn eq_spec(&self, o: &Digest) -> bool {
        self.0@ == o.0@
    }
}

/// The 32-byte all-zero sequence: the value of the sentinel zero hash.
pub open spec fn zero_hash_bytes() -> Seq<u8> {
    Seq::new(32, |i: int| 0u8)
}

impl Digest {
    /// The sentinel zero hash: "no parent", and the root of an empty tree.
    pub fn zero() -> (r: Digest)
        ensures
            r.0@ == zero_hash_bytes(),
    {
        let r = Digest([0u8; 32]);
        proof {
            assert(r.0@ =~= zero_hash_bytes());
        }
        r
    }

    /// True when every byte is zero.
    pub open spec fn spec_is_zero(self) -> bool {
        self.0@ == zero_hash_bytes()
    }

    /// Read a hash from a 32-byte slice; any other length is rejected.
    pub fn from_slice(bytes: &[u8]) -> (r: Option<Self>)
        ensures
            match r {
                Some(h) => bytes@.len() == 32 && h.0@ == bytes@,
                None => bytes@.len() != 32,
            },
    {
        if bytes.len() != 32 {
            return None;
        }
        let mut arr = [0u8; 32];
        let mut i: usize = 0;
        while i < 32
            invariant
                0 <= i <= 32,
                bytes@.len() == 32,
                arr@.len() == 32,
                forall|j: int| 0 <= j < i ==> arr@[j] == bytes@[j],
            decreases 32 - i,
        {
            arr[i] = bytes[i];
            i = i + 1;
        }
        proof {
            assert(arr@ =~= bytes@);
        }
        Some(Digest(arr))
    }

    /// The raw bytes of the hash.
    pub fn as_bytes(&self) -> (r: &[u8; 32])
        ensures
            r@ == self.0@,
    {
        &self.0
    }
}

/// The digest that BLAKE3 assigns to a byte string; a function of the input
/// bytes alone.
pub uninterp spec fn blake3_of(input: Seq<u8>) -> Seq<u8>;

/// Relies on blake3::hash: returns the 32-byte BLAKE3 digest of the input,
/// which depends on the input bytes alone.
#[verifier::external_body]
fn blake3_digest(input: &[u8]) -> (r: [u8; 32])
    ensures
        r@ == blake3_of(input@),
{
    *blake3::hash(input).as_bytes()
}

/// BLAKE3 digest of a byte string, as a [`Digest`].
pub fn hash_bytes(input: &[u8]) -> (r: Digest)
    ensures
        r.0@ == blake3_of(input@),
{
    Digest(blake3_digest(input))
}

/// Digest of the concatenation of two hashes: the interior node hash of the
/// Merkle trees used throughout.
pub fn hash_pair(a: &Digest, b: &Digest) -> (r: Digest)
    ensures
        r.0@ == blake3_of(a.0@ + b.0@),
{
    let mut buf: Vec<u8> = Vec::new();
    push_bytes32(&mut buf, &a.0);
    push_bytes32(&mut buf, &b.0);
    proof {
        assert(buf@ =~= a.0@ + b.0@);
    }
    hash_bytes(buf.as_slice())
}

/// Append the 32 bytes of an array to a buffer.
pub fn push_bytes32(buf: &mut Vec<u8>, bytes: &[u8; 32])
    ensures
        final(buf)@ == old(buf)@ + bytes@,
{
    let ghost pre = buf@;
    let mut i: usize = 0;
    while i < 32
        invariant
            0 <= i <= 32,
            buf@ == pre + bytes@.take(i as int),
        decreases 32 - i,
    {
        buf.push(bytes[i]);
        proof {
            assert(pre + bytes@.take(i as int) + seq![bytes@[i as int]] =~= pre + bytes@.take(
                i as int + 1,
            ));
        }
        i = i + 1;
    }
    proof {
        assert(bytes@.take(32) =~= bytes@);
    }
}

} // verus!
