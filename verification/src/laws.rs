//! What holds of every tree, proof and check.
//!
//! SHA-256 maps long inputs to 32 bytes, so two inputs with one digest exist,
//! though none is known. The laws on rejected proofs therefore leave out the
//! walks that meet such a pair: there, and only there, a changed proof can
//! still end in the same root.

use crate::hasher::{leaf_digest, node_digest, sha256, zero_digest, Hash32Bytes};
use crate::tree::{
    climb, climb_step, height, leaf_digests, lemma_climb_path, lemma_padded_width_bounds,
    lemma_path_entry, level_at, merkle_proof, merkle_root, padded_level, padded_width,
    sibling_position, verifies,
};
use vstd::arithmetic::power2::{lemma2_to64, lemma_pow2_unfold, pow2};
use vstd::prelude::*;

verus! {

/// The 64 bytes that a step of the walk hashes: the node's digest and its
/// sibling's, the one at the even position first.
pub open spec fn step_input(current: Hash32Bytes, position: nat, sibling: Hash32Bytes) -> Seq<u8> {
    if position % 2 == 0 {
        current@ + sibling@
    } else {
        sibling@ + current@
    }
}

/// Two different inputs with the same SHA-256 digest.
pub open spec fn collision(x: Seq<u8>, y: Seq<u8>) -> bool {
    x != y && sha256(x) == sha256(y)
}

/// Whether, at some level, the walk from `a` at `position_a` along `path_a`
/// and the walk from `b` at `position_b` along `path_b` hash two different
/// inputs to the same digest.
pub open spec fn walks_collide(
    a: Hash32Bytes,
    position_a: nat,
    path_a: Seq<Hash32Bytes>,
    b: Hash32Bytes,
    position_b: nat,
    path_b: Seq<Hash32Bytes>,
) -> bool
    decreases path_a.len(),
{
    path_a.len() > 0 && path_b.len() > 0 && (collision(
        step_input(a, position_a, path_a[0]),
        step_input(b, position_b, path_b[0]),
    ) || walks_collide(
        climb_step(a, position_a, path_a[0]),
        position_a / 2,
        path_a.drop_first(),
        climb_step(b, position_b, path_b[0]),
        position_b / 2,
        path_b.drop_first(),
    ))
}

/// Whether, at some level of the walk from `current` at `index` along `path`,
/// `index` and `other` lie on opposite sides and the node on the walk differs
/// from its sibling. Where no level does so, the walk from `other` hashes the
/// same inputs throughout.
pub open spec fn told_apart(current: Hash32Bytes, index: nat, other: nat, path: Seq<Hash32Bytes>)
    -> bool
    decreases path.len(),
{
    path.len() > 0 && ((index % 2 != other % 2 && current != path[0]) || told_apart(
        climb_step(current, index, path[0]),
        index / 2,
        other / 2,
        path.drop_first(),
    ))
}

/// Whether every node on the walk from `current` at `index` along `path`
/// differs from its sibling.
pub open spec fn siblings_differ(current: Hash32Bytes, index: nat, path: Seq<Hash32Bytes>) -> bool
    decreases path.len(),
{
    path.len() == 0 || (current != path[0] && siblings_differ(
        climb_step(current, index, path[0]),
        index / 2,
        path.drop_first(),
    ))
}

/// Two digests are equal exactly where their bytes are.
proof fn lemma_digest_bytes(a: Hash32Bytes, b: Hash32Bytes)
    ensures
        a@.len() == 32,
        (a@ == b@) == (a == b),
{
    if a@ == b@ {
        assert(a =~= b);
    }
}

/// Two pairs of digests give the same 64 bytes exactly where they are the
/// same pair.
proof fn lemma_pair_bytes(a: Hash32Bytes, b: Hash32Bytes, c: Hash32Bytes, d: Hash32Bytes)
    ensures
        (a@ + b@ == c@ + d@) == (a == c && b == d),
{
    lemma_digest_bytes(a, c);
    lemma_digest_bytes(b, d);
    if a@ + b@ == c@ + d@ {
        assert((a@ + b@).subrange(0, 32) =~= a@);
        assert((c@ + d@).subrange(0, 32) =~= c@);
        assert((a@ + b@).subrange(32, 64) =~= b@);
        assert((c@ + d@).subrange(32, 64) =~= d@);
    }
}

/// The order of the children matters: two different digests joined in one
/// order and in the other give different parents, unless the two inputs are
/// a collision.
pub proof fn lemma_order_matters(x: Hash32Bytes, y: Hash32Bytes)
    requires
        x != y,
        !collision(x@ + y@, y@ + x@),
    ensures
        node_digest(x, y) != node_digest(y, x),
{
    lemma_pair_bytes(x, y, y, x);
}

/// Two walks along one path that start from different digests end in
/// different digests, whatever their positions, unless they meet a collision.
pub proof fn lemma_walks_stay_apart(
    a: Hash32Bytes,
    position_a: nat,
    b: Hash32Bytes,
    position_b: nat,
    path: Seq<Hash32Bytes>,
)
    requires
        a != b,
        !walks_collide(a, position_a, path, b, position_b, path),
    ensures
        climb(a, position_a, path) != climb(b, position_b, path),
    decreases path.len(),
{
    if path.len() > 0 {
        let s = path[0];
        lemma_pair_bytes(a, s, b, s);
        lemma_pair_bytes(s, a, s, b);
        lemma_pair_bytes(a, s, s, b);
        lemma_pair_bytes(s, a, b, s);
        lemma_walks_stay_apart(
            climb_step(a, position_a, s),
            position_a / 2,
            climb_step(b, position_b, s),
            position_b / 2,
            path.drop_first(),
        );
    }
}

/// Two walks from one position that differ in their start or anywhere in
/// their paths end in different digests, unless they meet a collision.
pub proof fn lemma_walks_differ(
    a: Hash32Bytes,
    path_a: Seq<Hash32Bytes>,
    b: Hash32Bytes,
    path_b: Seq<Hash32Bytes>,
    position: nat,
)
    requires
        path_a.len() == path_b.len(),
        a != b || path_a != path_b,
        !walks_collide(a, position, path_a, b, position, path_b),
    ensures
        climb(a, position, path_a) != climb(b, position, path_b),
    decreases path_a.len(),
{
    if path_a.len() == 0 {
        assert(path_a =~= path_b);
    } else {
        let next_a = climb_step(a, position, path_a[0]);
        let next_b = climb_step(b, position, path_b[0]);
        lemma_pair_bytes(a, path_a[0], b, path_b[0]);
        lemma_pair_bytes(path_a[0], a, path_b[0], b);
        if path_a[0] == path_b[0] && path_a.drop_first() == path_b.drop_first() {
            assert(path_a =~= seq![path_a[0]] + path_a.drop_first());
            assert(path_b =~= seq![path_b[0]] + path_b.drop_first());
        }
        lemma_walks_differ(next_a, path_a.drop_first(), next_b, path_b.drop_first(), position / 2);
    }
}

/// Two walks from one digest along one path, at positions that some level
/// tells apart, end in different digests, unless they meet a collision.
pub proof fn lemma_positions_differ(
    current: Hash32Bytes,
    index: nat,
    other: nat,
    path: Seq<Hash32Bytes>,
)
    requires
        told_apart(current, index, other, path),
        !walks_collide(current, index, path, current, other, path),
    ensures
        climb(current, index, path) != climb(current, other, path),
    decreases path.len(),
{
    let s = path[0];
    let next = climb_step(current, index, s);
    let other_next = climb_step(current, other, s);
    lemma_pair_bytes(current, s, s, current);
    if index % 2 != other % 2 && current != s {
        lemma_walks_stay_apart(next, index / 2, other_next, other / 2, path.drop_first());
    } else {
        lemma_positions_differ(next, index / 2, other / 2, path.drop_first());
    }
}

/// Where every node on the walk differs from its sibling, some level tells
/// the walk's position apart from any other position of the tree.
pub proof fn lemma_other_position_told_apart(
    current: Hash32Bytes,
    index: nat,
    other: nat,
    path: Seq<Hash32Bytes>,
)
    requires
        index != other,
        index < pow2(path.len()),
        other < pow2(path.len()),
        siblings_differ(current, index, path),
    ensures
        told_apart(current, index, other, path),
    decreases path.len(),
{
    lemma2_to64();
    if path.len() > 0 && index % 2 == other % 2 {
        lemma_pow2_unfold(path.len());
        lemma_other_position_told_apart(
            climb_step(current, index, path[0]),
            index / 2,
            other / 2,
            path.drop_first(),
        );
    }
}

/// The proof built for a leaf has one entry per level, and the walk along it
/// from the leaf's digest ends in the root of the tree.
pub proof fn lemma_proof_reaches_root(digests: Seq<Hash32Bytes>, index: nat)
    requires
        index < digests.len(),
    ensures
        merkle_proof(digests, index).len() == height(digests.len()),
        climb(digests[index as int], index, merkle_proof(digests, index)) == merkle_root(digests),
{
    lemma_padded_width_bounds(digests.len());
    lemma_climb_path(padded_level(digests), height(digests.len()), index);
}

/// Level 0 of a tree holds a power of two of digests, each level holds half
/// as many as the level below it, and the top level holds one, the root.
pub proof fn lemma_level_widths(digests: Seq<Hash32Bytes>, k: nat)
    requires
        k <= height(digests.len()),
    ensures
        padded_level(digests).len() == pow2(height(digests.len())),
        level_at(padded_level(digests), k).len() == pow2((height(digests.len()) - k) as nat),
        k < height(digests.len()) ==> level_at(padded_level(digests), k).len() == 2 * level_at(
            padded_level(digests),
            k + 1,
        ).len(),
        level_at(padded_level(digests), height(digests.len())).len() == 1,
{
    let h = height(digests.len());
    lemma2_to64();
    lemma_padded_width_bounds(digests.len());
    lemma_path_entry(padded_level(digests), h, 0, k);
    lemma_path_entry(padded_level(digests), h, 0, h);
    if k < h {
        lemma_path_entry(padded_level(digests), h, 0, k + 1);
        lemma_pow2_unfold((h - k) as nat);
    }
}

/// Entry `k` of the proof for a leaf is the digest, at level `k` of the
/// tree, of the sibling of the leaf's ancestor there, which stands at the
/// leaf's index divided by `2^k`; the root is the one digest of the top level.
pub proof fn lemma_proof_entries(digests: Seq<Hash32Bytes>, index: nat, k: nat)
    requires
        index < digests.len(),
        k < height(digests.len()),
    ensures
        merkle_proof(digests, index)[k as int] == level_at(
            padded_level(digests),
            k,
        )[sibling_position(index / pow2(k)) as int],
        merkle_root(digests) == level_at(padded_level(digests), height(digests.len()))[0],
{
    lemma_padded_width_bounds(digests.len());
    lemma_path_entry(padded_level(digests), height(digests.len()), index, k);
    lemma_path_entry(padded_level(digests), height(digests.len()), index, height(digests.len()));
}

/// Every leaf of every tree is accepted with the proof built for it: for a
/// list of leaves that is not empty and the position of one of them, the
/// check of that leaf's content at that position, with the proof and the
/// root built from the list, succeeds.
pub proof fn lemma_built_proof_verifies(leaves: Seq<Seq<u8>>, index: nat)
    requires
        index < leaves.len(),
    ensures
        verifies(
            leaves[index as int],
            index,
            leaves.len(),
            merkle_proof(leaf_digests(leaves), index),
            merkle_root(leaf_digests(leaves)),
        ),
{
    lemma_proof_reaches_root(leaf_digests(leaves), index);
}

/// A proof in which one entry was replaced by another digest is rejected
/// where the proof itself was accepted, unless the two walks meet a collision.
pub proof fn lemma_tampered_proof_rejected(
    leaf_value: Seq<u8>,
    leaf_index: nat,
    total_leaves: nat,
    proof: Seq<Hash32Bytes>,
    root: Hash32Bytes,
    level: int,
    forged: Hash32Bytes,
)
    requires
        verifies(leaf_value, leaf_index, total_leaves, proof, root),
        0 <= level < proof.len(),
        forged != proof[level],
        !walks_collide(
            leaf_digest(leaf_value),
            leaf_index,
            proof,
            leaf_digest(leaf_value),
            leaf_index,
            proof.update(level, forged),
        ),
    ensures
        !verifies(leaf_value, leaf_index, total_leaves, proof.update(level, forged), root),
{
    lemma_walks_differ(
        leaf_digest(leaf_value),
        proof,
        leaf_digest(leaf_value),
        proof.update(level, forged),
        leaf_index,
    );
}

/// The digest `digest` with bit `bit` flipped; the bits are counted from the
/// lowest bit of the first byte.
pub open spec fn flipped(digest: Hash32Bytes, bit: nat) -> Hash32Bytes
    recommends
        bit < 256,
{
    vstd::array::spec_array_update(
        digest,
        (bit / 8) as int,
        digest[(bit / 8) as int] ^ (1u8 << ((bit % 8) as u8)),
    )
}

/// A digest with one bit flipped is another digest.
pub proof fn lemma_flipped_differs(digest: Hash32Bytes, bit: nat)
    requires
        bit < 256,
    ensures
        flipped(digest, bit) != digest,
{
    let byte = digest[(bit / 8) as int];
    let shift = (bit % 8) as u8;
    assert(byte ^ (1u8 << shift) != byte) by (bit_vector)
        requires
            shift < 8,
    ;
    assert(flipped(digest, bit)@[(bit / 8) as int] != digest@[(bit / 8) as int]);
}

/// A proof in which a single bit of one entry was flipped is rejected where
/// the proof itself was accepted, unless the two walks meet a collision.
pub proof fn lemma_flipped_bit_rejected(
    leaf_value: Seq<u8>,
    leaf_index: nat,
    total_leaves: nat,
    proof: Seq<Hash32Bytes>,
    root: Hash32Bytes,
    level: int,
    bit: nat,
)
    requires
        verifies(leaf_value, leaf_index, total_leaves, proof, root),
        0 <= level < proof.len(),
        bit < 256,
        !walks_collide(
            leaf_digest(leaf_value),
            leaf_index,
            proof,
            leaf_digest(leaf_value),
            leaf_index,
            proof.update(level, flipped(proof[level], bit)),
        ),
    ensures
        !verifies(
            leaf_value,
            leaf_index,
            total_leaves,
            proof.update(level, flipped(proof[level], bit)),
            root,
        ),
{
    lemma_flipped_differs(proof[level], bit);
    lemma_tampered_proof_rejected(
        leaf_value,
        leaf_index,
        total_leaves,
        proof,
        root,
        level,
        flipped(proof[level], bit),
    );
}

/// A proof accepted for a leaf at one position is rejected for the same leaf
/// at any other position that some level of the walk tells apart from it,
/// unless the two walks meet a collision.
pub proof fn lemma_wrong_index_rejected(
    leaf_value: Seq<u8>,
    leaf_index: nat,
    other_index: nat,
    total_leaves: nat,
    proof: Seq<Hash32Bytes>,
    root: Hash32Bytes,
)
    requires
        verifies(leaf_value, leaf_index, total_leaves, proof, root),
        other_index < total_leaves,
        other_index != leaf_index,
        told_apart(leaf_digest(leaf_value), leaf_index, other_index, proof),
        !walks_collide(
            leaf_digest(leaf_value),
            leaf_index,
            proof,
            leaf_digest(leaf_value),
            other_index,
            proof,
        ),
    ensures
        !verifies(leaf_value, other_index, total_leaves, proof, root),
{
    lemma_positions_differ(leaf_digest(leaf_value), leaf_index, other_index, proof);
}

/// A tree of one leaf has height 0, its proof is empty, its root is the
/// leaf's digest, and the check compares the leaf's digest with the root.
pub proof fn lemma_single_leaf(leaf_value: Seq<u8>, proof: Seq<Hash32Bytes>, root: Hash32Bytes)
    ensures
        height(1) == 0,
        padded_width(1) == 1,
        merkle_proof(seq![leaf_digest(leaf_value)], 0) == Seq::<Hash32Bytes>::empty(),
        merkle_root(seq![leaf_digest(leaf_value)]) == leaf_digest(leaf_value),
        verifies(leaf_value, 0, 1, proof, root) == (proof.len() == 0 && leaf_digest(leaf_value)
            == root),
{
    lemma2_to64();
}

/// Level 0 holds the leaf digests in their order, and after them only the
/// zero digest, whose 32 bytes all are 0.
pub proof fn lemma_padding_is_zero(digests: Seq<Hash32Bytes>, i: int)
    requires
        0 <= i < padded_width(digests.len()),
    ensures
        padded_level(digests).len() == padded_width(digests.len()),
        i < digests.len() ==> padded_level(digests)[i] == digests[i],
        i >= digests.len() ==> padded_level(digests)[i] == zero_digest(),
        zero_digest()@ == Seq::new(32, |j: int| 0u8),
{
}

} // verus!
