//! A static binary Merkle tree over an ordered list of leaves: leaf and node
//! hashing, the authentication path of one leaf, and the check of such a path
//! against a root.
//!
//! - `hasher`: SHA-256 of a leaf and of a pair of digests.
//! - `tree`: the tree as mathematics, which all contracts speak of.
//! - `engine`: the root and the authentication path from the leaf digests.
//! - `inclusion`: the check of a path against a root.
//! - `laws`: what holds of every tree, path and check.
//! - `decimal`, `encoding`: numbers and digests as text.
//! - `prover`: numbered leaves and the proof for one of them.

pub mod hasher;
pub mod tree;
pub mod engine;
pub mod inclusion;
pub mod laws;
pub mod decimal;
pub mod encoding;
pub mod prover;
