//! Checking an authentication path against a root.

use crate::engine::tree_height;
use crate::hasher::{combine_hashes, hash_leaf, same_digest, Hash32Bytes};
use crate::tree::{accepts, climb, verifies};
use vstd::prelude::*;

verus! {

/// Decides whether `proof` shows that `leaf_digest` is the digest of leaf
/// `leaf_index` of the tree of `total_leaves` leaves whose root is
/// `claimed_root`.
///
/// The answer is `true` exactly where the index is in range, the proof has
/// one entry per level of such a tree, and the walk from the digest, which
/// joins each entry on the side that the position's parity gives, ends in
/// `claimed_root`.
pub fn verify_digest(
    leaf_digest: &Hash32Bytes,
    leaf_index: usize,
    total_leaves: usize,
    proof: &[Hash32Bytes],
    claimed_root: &Hash32Bytes,
) -> (accepted: bool)
    ensures
        accepted == accepts(
            *leaf_digest,
            leaf_index as nat,
            total_leaves as nat,
            proof@,
            *claimed_root,
        ),
{
    if leaf_index >= total_leaves {
        return false;
    }
    if proof.len() != tree_height(total_leaves) {
        return false;
    }
    let mut current: Hash32Bytes = *leaf_digest;
    let mut position: usize = leaf_index;
    let mut level: usize = 0;
    assert(proof@.skip(0) =~= proof@);
    while level < proof.len()
        invariant
            level <= proof.len(),
            climb(current, position as nat, proof@.skip(level as int)) == climb(
                *leaf_digest,
                leaf_index as nat,
                proof@,
            ),
        decreases proof.len() - level,
    {
        let sibling: Hash32Bytes = proof[level];
        assert(proof@.skip(level as int).drop_first() =~= proof@.skip(level + 1));
        current = if position % 2 == 0 {
            combine_hashes(&current, &sibling)
        } else {
            combine_hashes(&sibling, &current)
        };
        position = position / 2;
        level += 1;
    }
    same_digest(&current, claimed_root)
}

/// Decides whether `proof` shows that `leaf_value` is leaf `leaf_index` of
/// the tree of `total_leaves` leaves whose root is `claimed_root`: whether it
/// is accepted for the digest of `leaf_value`.
///
/// A proof that does not match is no error: the answer is `false`.
pub fn verify(
    leaf_value: &[u8],
    leaf_index: usize,
    total_leaves: usize,
    proof: &[Hash32Bytes],
    claimed_root: &Hash32Bytes,
) -> (accepted: bool)
    ensures
        accepted == verifies(
            leaf_value@,
            leaf_index as nat,
            total_leaves as nat,
            proof@,
            *claimed_root,
        ),
{
    let digest = hash_leaf(leaf_value);
    verify_digest(&digest, leaf_index, total_leaves, proof, claimed_root)
}

} // verus!
