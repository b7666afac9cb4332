//! The proof engine: from the digests of the leaves to the root and to the
//! authentication path of one leaf.
//!
//! The engine keeps one level at a time, and of it only the part that real
//! leaves reach: the padding to its right is one digest repeated, which is
//! kept once. A call hashes about as many pairs as there are leaves.

use crate::hasher::{combine_hashes, zero_digest, zero_hash, Hash32Bytes};
use crate::tree::{
    halved, height, lemma_climb_path, lemma_padded_width_bounds, lemma_padded_width_halves,
    lemma_parent_of_padded, merkle_proof, merkle_root, padded, padded_level, padded_width,
    parent_level, path_from, root_of,
};
use vstd::arithmetic::power2::lemma2_to64;
use vstd::prelude::*;

verus! {

/// Why no proof or root was produced.
#[derive(Debug, Clone, Copy, PartialEq, Eq, Structural)]
pub enum ProofError {
    /// There is no leaf at all.
    EmptyLeafSet,
    /// The tree has `leaves` leaves, and `index` is not the position of one.
    IndexOutOfRange { index: usize, leaves: usize },
}

/// The error that a request for leaf `index` of `leaves` leaves meets, if any.
pub open spec fn rejection(leaves: usize, index: usize) -> Option<ProofError> {
    if leaves == 0 {
        Some(ProofError::EmptyLeafSet)
    } else if index >= leaves {
        Some(ProofError::IndexOutOfRange { index, leaves })
    } else {
        None
    }
}

/// The height of a tree of `n` leaves.
pub fn tree_height(n: usize) -> (h: usize)
    ensures
        h == height(n as nat),
{
    let mut width: usize = n;
    let mut h: usize = 0;
    while width > 1
        invariant
            h + width <= n,
            height(n as nat) == h + height(width as nat),
        decreases width,
    {
        width = width / 2 + width % 2;
        h += 1;
    }
    h
}

/// The width of level 0 of a tree of `n` leaves, or `None` where that power
/// of two is more than a `usize` holds.
pub fn padded_size(n: usize) -> (size: Option<usize>)
    ensures
        match size {
            Some(width) => width == padded_width(n as nat),
            None => padded_width(n as nat) > usize::MAX,
        },
{
    let mut rest: usize = n;
    let mut width: usize = 1;
    proof {
        lemma2_to64();
    }
    while rest > 1
        invariant
            width >= 1,
            padded_width(n as nat) == width * padded_width(rest as nat),
        decreases rest,
    {
        let half: usize = rest / 2 + rest % 2;
        proof {
            lemma_padded_width_halves(rest as nat);
            lemma_padded_width_bounds(half as nat);
            let above = padded_width(half as nat);
            assert(width * (2 * above) == (2 * width) * above) by (nonlinear_arith);
            assert((2 * width) * above >= 2 * width) by (nonlinear_arith)
                requires
                    above >= 1,
                    width >= 1,
            ;
        }
        match width.checked_mul(2) {
            Some(doubled) => {
                width = doubled;
            },
            None => {
                return None;
            },
        }
        rest = half;
    }
    assert(width * 1 == width);
    Some(width)
}

/// The real part of the level above `state`, whose padding is `pad`.
fn next_level(state: &[Hash32Bytes], pad: &Hash32Bytes) -> (next: Vec<Hash32Bytes>)
    ensures
        next@ == halved(state@, *pad),
{
    let len: usize = state.len();
    let count: usize = len / 2 + len % 2;
    let mut next: Vec<Hash32Bytes> = Vec::with_capacity(count);
    let mut i: usize = 0;
    while i < count
        invariant
            len == state.len(),
            count == (len + 1) / 2,
            i <= count,
            next.len() == i,
            forall|j: int| 0 <= j < i ==> next[j] == halved(state@, *pad)[j],
        decreases count - i,
    {
        let left: Hash32Bytes = state[2 * i];
        let right: Hash32Bytes = if 2 * i + 1 < len {
            state[2 * i + 1]
        } else {
            *pad
        };
        next.push(combine_hashes(&left, &right));
        i += 1;
    }
    next
}

/// A copy of a list of digests.
fn copy_digests(digests: &[Hash32Bytes]) -> (copy: Vec<Hash32Bytes>)
    ensures
        copy@ == digests@,
{
    let mut copy: Vec<Hash32Bytes> = Vec::with_capacity(digests.len());
    let mut i: usize = 0;
    while i < digests.len()
        invariant
            i <= digests.len(),
            copy@ == digests@.take(i as int),
        decreases digests.len() - i,
    {
        copy.push(digests[i]);
        i += 1;
    }
    copy
}

/// Level 0 of the tree over the leaf digests `digests`, written out in
/// full: the digests, then zero digests up to the padded width. `None` where
/// that width is more than a `usize` holds.
pub fn leaf_level(digests: &[Hash32Bytes]) -> (level: Option<Vec<Hash32Bytes>>)
    ensures
        match level {
            Some(level) => level@ == padded_level(digests@),
            None => padded_width(digests.len() as nat) > usize::MAX,
        },
{
    let width: usize = match padded_size(digests.len()) {
        Some(width) => width,
        None => {
            return None;
        },
    };
    proof {
        lemma_padded_width_bounds(digests@.len());
    }
    let mut level: Vec<Hash32Bytes> = copy_digests(digests);
    while level.len() < width
        invariant
            digests.len() <= level.len() <= width,
            forall|i: int|
                0 <= i < level.len() ==> level[i] == if i < digests.len() {
                    digests[i]
                } else {
                    zero_digest()
                },
        decreases width - level.len(),
    {
        level.push(zero_hash());
    }
    assert(level@ =~= padded_level(digests@));
    Some(level)
}

/// The root of the tree over the leaf digests `digests`.
///
/// Fails with `EmptyLeafSet` exactly where there is no leaf.
pub fn compute_root(digests: &[Hash32Bytes]) -> (result: Result<Hash32Bytes, ProofError>)
    ensures
        digests.len() == 0 ==> result == Err::<Hash32Bytes, ProofError>(ProofError::EmptyLeafSet),
        digests.len() > 0 ==> result == Ok::<Hash32Bytes, ProofError>(merkle_root(digests@)),
{
    if digests.len() == 0 {
        return Err(ProofError::EmptyLeafSet);
    }
    let mut state: Vec<Hash32Bytes> = copy_digests(digests);
    let mut pad: Hash32Bytes = zero_hash();
    while state.len() > 1
        invariant
            state.len() >= 1,
            root_of(padded(state@, pad)) == merkle_root(digests@),
        decreases state.len(),
    {
        proof {
            lemma_parent_of_padded(state@, pad);
            lemma_padded_width_halves(state@.len());
            lemma_padded_width_bounds((state@.len() + 1) / 2);
        }
        state = next_level(state.as_slice(), &pad);
        pad = combine_hashes(&pad, &pad);
    }
    proof {
        lemma2_to64();
    }
    Ok(state[0])
}

/// The authentication path of leaf `leaf_index` in the tree over the leaf
/// digests `digests`: the sibling digest at each level, lowest level first,
/// one for each level below the root.
///
/// Fails with `EmptyLeafSet` where there is no leaf, and with
/// `IndexOutOfRange` where there are leaves and `leaf_index` is none of them.
pub fn build_proof(digests: &[Hash32Bytes], leaf_index: usize) -> (result: Result<
    Vec<Hash32Bytes>,
    ProofError,
>)
    ensures
        match rejection(digests.len(), leaf_index) {
            Some(error) => result == Err::<Vec<Hash32Bytes>, ProofError>(error),
            None => {
                &&& result is Ok
                &&& result->Ok_0@ == merkle_proof(digests@, leaf_index as nat)
                &&& result->Ok_0@.len() == height(digests.len() as nat)
            },
        },
{
    if digests.len() == 0 {
        return Err(ProofError::EmptyLeafSet);
    }
    if leaf_index >= digests.len() {
        return Err(ProofError::IndexOutOfRange { index: leaf_index, leaves: digests.len() });
    }
    let mut state: Vec<Hash32Bytes> = copy_digests(digests);
    let mut pad: Hash32Bytes = zero_hash();
    let mut position: usize = leaf_index;
    let mut hashes: Vec<Hash32Bytes> = Vec::new();
    while state.len() > 1
        invariant
            position < state.len(),
            hashes@ + path_from(padded(state@, pad), position as nat) == merkle_proof(
                digests@,
                leaf_index as nat,
            ),
        decreases state.len(),
    {
        let sibling_position: usize = if position % 2 == 0 {
            position + 1
        } else {
            position - 1
        };
        let sibling: Hash32Bytes = if sibling_position < state.len() {
            state[sibling_position]
        } else {
            pad
        };
        proof {
            lemma_parent_of_padded(state@, pad);
            lemma_padded_width_halves(state@.len());
            lemma_padded_width_bounds(state@.len());
            lemma_padded_width_bounds((state@.len() + 1) / 2);
            assert(padded(state@, pad)[sibling_position as int] == sibling);
        }
        hashes.push(sibling);
        state = next_level(state.as_slice(), &pad);
        pad = combine_hashes(&pad, &pad);
        position = position / 2;
    }
    proof {
        lemma2_to64();
        lemma_padded_width_bounds(digests@.len());
        lemma_climb_path(padded_level(digests@), height(digests@.len()), leaf_index as nat);
    }
    Ok(hashes)
}

} // verus!
