//! The tree as mathematics: its height and padding, its levels, the root, the
//! authentication path of a leaf, and the walk that checks such a path.
//!
//! The tree is never built as a value. Level 0 is the list of leaf digests,
//! filled up to a power of two with zero digests; each further level holds the
//! digests of the pairs of the level below, until one digest is left.

use crate::hasher::{leaf_digest, node_digest, zero_digest, Hash32Bytes};
use vstd::arithmetic::div_mod::lemma_div_denominator;
use vstd::arithmetic::power2::{lemma2_to64, lemma_pow2_pos, lemma_pow2_unfold, pow2};
use vstd::prelude::*;

verus! {

/// The height of a tree of `n` leaves: the least `h` with `n <= 2^h`.
/// A tree of one leaf has height 0.
pub open spec fn height(n: nat) -> nat
    decreases n,
{
    if n <= 1 {
        0
    } else {
        height((n + 1) / 2) + 1
    }
}

/// The width of level 0 after padding: 2 to the tree's height.
pub open spec fn padded_width(n: nat) -> nat {
    pow2(height(n))
}

/// A level whose first entries are `nodes` and whose other entries, up to the
/// padded width, all are `pad`.
pub open spec fn padded(nodes: Seq<Hash32Bytes>, pad: Hash32Bytes) -> Seq<Hash32Bytes> {
    Seq::new(
        padded_width(nodes.len()),
        |i: int|
            if i < nodes.len() {
                nodes[i]
            } else {
                pad
            },
    )
}

/// Level 0 of the tree over `digests`: the digests, then zero digests.
pub open spec fn padded_level(digests: Seq<Hash32Bytes>) -> Seq<Hash32Bytes> {
    padded(digests, zero_digest())
}

/// The level above `level`: entry `i` is the digest of the pair `2i`, `2i + 1`.
pub open spec fn parent_level(level: Seq<Hash32Bytes>) -> Seq<Hash32Bytes> {
    Seq::new(level.len() / 2, |i: int| node_digest(level[2 * i], level[2 * i + 1]))
}

/// The level `k` steps above `level`.
pub open spec fn level_at(level: Seq<Hash32Bytes>, k: nat) -> Seq<Hash32Bytes>
    decreases k,
{
    if k == 0 {
        level
    } else {
        level_at(parent_level(level), (k - 1) as nat)
    }
}

/// The single digest at the top of the levels above `level`.
pub open spec fn root_of(level: Seq<Hash32Bytes>) -> Hash32Bytes
    decreases level.len(),
{
    if level.len() <= 1 {
        level[0]
    } else {
        root_of(parent_level(level))
    }
}

/// The other child of the parent of `position`.
pub open spec fn sibling_position(position: nat) -> nat {
    if position % 2 == 0 {
        position + 1
    } else {
        (position - 1) as nat
    }
}

/// The siblings met on the way up from `position` in `level`, lowest first.
pub open spec fn path_from(level: Seq<Hash32Bytes>, position: nat) -> Seq<Hash32Bytes>
    decreases level.len(),
{
    if level.len() <= 1 {
        Seq::empty()
    } else {
        seq![level[sibling_position(position) as int]] + path_from(
            parent_level(level),
            position / 2,
        )
    }
}

/// The root of the tree over the leaf digests `digests`.
pub open spec fn merkle_root(digests: Seq<Hash32Bytes>) -> Hash32Bytes {
    root_of(padded_level(digests))
}

/// The authentication path of leaf `index`: one sibling digest per level,
/// from level 0 up to the level below the root. An entry is the sibling's
/// digest itself, not the parent that it forms with the node on the path:
/// whoever checks the path forms the parents.
pub open spec fn merkle_proof(digests: Seq<Hash32Bytes>, index: nat) -> Seq<Hash32Bytes> {
    path_from(padded_level(digests), index)
}

/// The digests of a list of leaf contents.
pub open spec fn leaf_digests(leaves: Seq<Seq<u8>>) -> Seq<Hash32Bytes> {
    Seq::new(leaves.len(), |i: int| leaf_digest(leaves[i]))
}

/// The parent of the node `current` at `position` and its `sibling`: the
/// child at the even position is the left one.
pub open spec fn climb_step(current: Hash32Bytes, position: nat, sibling: Hash32Bytes)
    -> Hash32Bytes {
    if position % 2 == 0 {
        node_digest(current, sibling)
    } else {
        node_digest(sibling, current)
    }
}

/// The digest reached from `current` at `position` by joining it with the
/// entries of `path` in turn.
pub open spec fn climb(current: Hash32Bytes, position: nat, path: Seq<Hash32Bytes>) -> Hash32Bytes
    decreases path.len(),
{
    if path.len() == 0 {
        current
    } else {
        climb(climb_step(current, position, path[0]), position / 2, path.drop_first())
    }
}

/// Whether `proof` shows that `digest` is the digest of leaf `leaf_index` of a
/// tree of `total_leaves` leaves with root `root`: the index is in range, the
/// proof has one entry per level, and the walk from `digest` ends in `root`.
pub open spec fn accepts(
    digest: Hash32Bytes,
    leaf_index: nat,
    total_leaves: nat,
    proof: Seq<Hash32Bytes>,
    root: Hash32Bytes,
) -> bool {
    &&& leaf_index < total_leaves
    &&& proof.len() == height(total_leaves)
    &&& climb(digest, leaf_index, proof) == root
}

/// Whether `proof` shows that `leaf_value` is leaf `leaf_index` of a tree of
/// `total_leaves` leaves with root `root`: whether it is accepted for the
/// digest of `leaf_value`.
pub open spec fn verifies(
    leaf_value: Seq<u8>,
    leaf_index: nat,
    total_leaves: nat,
    proof: Seq<Hash32Bytes>,
    root: Hash32Bytes,
) -> bool {
    accepts(leaf_digest(leaf_value), leaf_index, total_leaves, proof, root)
}

/// The real part of the level above a level with real part `nodes` and
/// padding `pad`: a last entry without a right neighbour is paired with `pad`.
pub open spec fn halved(nodes: Seq<Hash32Bytes>, pad: Hash32Bytes) -> Seq<Hash32Bytes> {
    Seq::new(
        (nodes.len() + 1) / 2,
        |i: int|
            node_digest(
                nodes[2 * i],
                if 2 * i + 1 < nodes.len() {
                    nodes[2 * i + 1]
                } else {
                    pad
                },
            ),
    )
}

/// The sibling's position is the position with its lowest bit flipped.
pub proof fn lemma_sibling_position_is_xor(position: u64)
    ensures
        sibling_position(position as nat) == position ^ 1,
{
    assert(position ^ 1 == if position % 2 == 0 {
        position + 1
    } else {
        position - 1
    }) by (bit_vector);
}

/// With two leaves or more, the padded width is twice that of half as many.
pub proof fn lemma_padded_width_halves(n: nat)
    requires
        n >= 2,
    ensures
        height(n) == height((n + 1) / 2) + 1,
        padded_width(n) == 2 * padded_width((n + 1) / 2),
{
    lemma_pow2_unfold(height(n));
}

/// The padded width is the least power of two that holds all leaves: it
/// holds them, and half of it holds fewer than `n`.
pub proof fn lemma_padded_width_bounds(n: nat)
    ensures
        padded_width(n) >= 1,
        n <= padded_width(n),
        n >= 2 ==> padded_width(n) <= 2 * (n - 1),
    decreases n,
{
    lemma_pow2_pos(height(n));
    lemma2_to64();
    if n >= 2 {
        lemma_padded_width_halves(n);
        lemma_padded_width_bounds((n + 1) / 2);
    }
}

/// The level above a padded level is the padded level over the halved real
/// part, with the digest of two paddings as its padding.
pub proof fn lemma_parent_of_padded(nodes: Seq<Hash32Bytes>, pad: Hash32Bytes)
    requires
        nodes.len() >= 2,
    ensures
        parent_level(padded(nodes, pad)) == padded(halved(nodes, pad), node_digest(pad, pad)),
{
    lemma_padded_width_halves(nodes.len());
    lemma_padded_width_bounds(nodes.len());
}

/// In a level of `2^h` digests, the path from a position has `h` entries, and
/// the walk along it from the digest at that position ends in the root.
pub proof fn lemma_climb_path(level: Seq<Hash32Bytes>, h: nat, position: nat)
    requires
        level.len() == pow2(h),
        position < level.len(),
    ensures
        path_from(level, position).len() == h,
        climb(level[position as int], position, path_from(level, position)) == root_of(level),
    decreases h,
{
    lemma2_to64();
    if h > 0 {
        lemma_pow2_unfold(h);
        lemma_pow2_pos((h - 1) as nat);
        let above = parent_level(level);
        assert(path_from(level, position).drop_first() =~= path_from(above, position / 2));
        lemma_climb_path(above, (h - 1) as nat, position / 2);
    }
}

/// Above a level of `2^h` digests, level `k` has `2^(h - k)` digests, entry
/// `k` of the path from a position is the sibling of the position's ancestor
/// at that level, and the root is the one digest of level `h`.
pub proof fn lemma_path_entry(level: Seq<Hash32Bytes>, h: nat, position: nat, k: nat)
    requires
        level.len() == pow2(h),
        position < level.len(),
        k <= h,
    ensures
        level_at(level, k).len() == pow2((h - k) as nat),
        position / pow2(k) < pow2((h - k) as nat),
        k < h ==> path_from(level, position)[k as int] == level_at(level, k)[sibling_position(
            position / pow2(k),
        ) as int],
        k == h ==> root_of(level) == level_at(level, k)[0],
    decreases k,
{
    lemma2_to64();
    lemma_pow2_pos(h);
    lemma_climb_path(level, h, position);
    if k > 0 {
        lemma_pow2_unfold(h);
        lemma_pow2_unfold(k);
        lemma_pow2_pos((k - 1) as nat);
        lemma_path_entry(parent_level(level), (h - 1) as nat, position / 2, (k - 1) as nat);
        lemma_div_denominator(position as int, 2, pow2((k - 1) as nat) as int);
    }
}

} // verus!
