//! Leaf and node hashing with SHA-256.

use sha2::{Digest, Sha256};
use vstd::prelude::*;

verus! {

/// A digest: the 32 bytes that SHA-256 gives.
pub type Hash32Bytes = [u8; 32];

/// The SHA-256 digest of a byte string, as `sha2::Sha256` computes it.
pub uninterp spec fn sha256(data: Seq<u8>) -> [u8; 32];

/// Calls `<sha2::Sha256 as sha2::Digest>::digest`, which feeds `data` to a
/// fresh hasher and finalizes it. The contract only gives the result its
/// name: nothing about the digest's bytes is claimed.
#[verifier::external_body]
fn sha256_digest(data: &[u8]) -> (out: Hash32Bytes)
    ensures
        out == sha256(data@),
{
    Sha256::digest(data).into()
}

/// The digest of a leaf: SHA-256 of its content.
pub open spec fn leaf_digest(content: Seq<u8>) -> Hash32Bytes {
    sha256(content)
}

/// The digest of an inner node: SHA-256 of the left child's 32 bytes
/// followed by the right child's.
pub open spec fn node_digest(left: Hash32Bytes, right: Hash32Bytes) -> Hash32Bytes {
    sha256(left@ + right@)
}

/// The digest that fills level 0 up to a power of two: 32 zero bytes.
pub open spec fn zero_digest() -> Hash32Bytes {
    vstd::array::spec_array_fill_for_copy_type::<u8, 32>(0u8)
}

/// Hashes the content of a leaf.
pub fn hash_leaf(content: &[u8]) -> (digest: Hash32Bytes)
    ensures
        digest == leaf_digest(content@),
{
    sha256_digest(content)
}

/// Hashes two children into their parent. The order matters: `hash1` is the
/// left child, `hash2` the right one.
pub fn combine_hashes(hash1: &Hash32Bytes, hash2: &Hash32Bytes) -> (parent: Hash32Bytes)
    ensures
        parent == node_digest(*hash1, *hash2),
{
    let mut buffer: Vec<u8> = Vec::with_capacity(64);
    buffer.extend_from_slice(hash1.as_slice());
    buffer.extend_from_slice(hash2.as_slice());
    assert(buffer@ =~= hash1@ + hash2@);
    sha256_digest(buffer.as_slice())
}

/// The padding digest.
pub fn zero_hash() -> (zero: Hash32Bytes)
    ensures
        zero == zero_digest(),
{
    [0u8; 32]
}

/// Whether two digests hold the same bytes.
pub fn same_digest(a: &Hash32Bytes, b: &Hash32Bytes) -> (same: bool)
    ensures
        same == (*a == *b),
{
    let mut i: usize = 0;
    while i < 32
        invariant
            i <= 32,
            forall|j: int| 0 <= j < i ==> a[j] == b[j],
        decreases 32 - i,
    {
        if a[i] != b[i] {
            return false;
        }
        i += 1;
    }
    assert(*a =~= *b);
    true
}

} // verus!
