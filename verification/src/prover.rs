//! The prover: a list of numbered leaves, and the proof for one of them.

use crate::decimal::{decimal, decimal_digits};
use crate::encoding::{base64_text, encode_hash};
use crate::engine::{build_proof, rejection, ProofError};
use crate::hasher::{hash_leaf, Hash32Bytes};
use crate::laws::lemma_built_proof_verifies;
use crate::tree::{height, leaf_digests, merkle_proof, merkle_root, verifies};
use vstd::prelude::*;
use vstd::string::*;

verus! {

/// A proof as it is handed on: the position and the content of the leaf, and
/// the sibling digests from the leaf's level upward.
#[derive(Debug, Clone, PartialEq, Eq)]
pub struct MerkleProof {
    pub leaf_position: usize,
    pub leaf_value: String,
    pub proof_hash_values: Vec<Hash32Bytes>,
}

impl MerkleProof {
    /// The digests of the proof in base64, in their order, as they are
    /// written where the proof is stored.
    pub fn proof_hash_values_base64(&self) -> (texts: Vec<String>)
        ensures
            texts.len() == self.proof_hash_values.len(),
            forall|i: int|
                0 <= i < texts.len() ==> (#[trigger] texts[i])@ == base64_text(
                    self.proof_hash_values[i]@,
                ),
    {
        let mut texts: Vec<String> = Vec::with_capacity(self.proof_hash_values.len());
        let mut i: usize = 0;
        while i < self.proof_hash_values.len()
            invariant
                i <= self.proof_hash_values.len(),
                texts.len() == i,
                forall|j: int|
                    0 <= j < i ==> (#[trigger] texts[j])@ == base64_text(
                        self.proof_hash_values[j]@,
                    ),
            decreases self.proof_hash_values.len() - i,
        {
            texts.push(encode_hash(self.proof_hash_values[i]));
            i += 1;
        }
        texts
    }
}

/// The content of the generated leaf number `i`: the words `data item` and
/// the number.
pub open spec fn leaf_text(i: nat) -> Seq<char> {
    "data item "@ + decimal_digits(i)
}

/// The bytes of each leaf: its text in UTF-8.
pub open spec fn leaf_contents(leaves: Seq<String>) -> Seq<Seq<u8>> {
    Seq::new(leaves.len(), |i: int| vstd::utf8::encode_utf8(leaves[i]@))
}

/// The bytes of the first `count` generated leaves.
pub open spec fn generated_contents(count: nat) -> Seq<Seq<u8>> {
    Seq::new(count, |i: int| vstd::utf8::encode_utf8(leaf_text(i as nat)))
}

/// The name under which the proof for leaf `leaf_position` of `num_leaves`
/// generated leaves is stored.
pub open spec fn file_name_text(num_leaves: nat, leaf_position: nat) -> Seq<char> {
    "proof_gen_"@ + decimal_digits(num_leaves) + "_"@ + decimal_digits(leaf_position) + ".yaml"@
}

/// Generates `num_leaves` leaves, numbered from 0.
pub fn gen_leaves_for_merkle_tree(num_leaves: usize) -> (leaves: Vec<String>)
    ensures
        leaves.len() == num_leaves,
        forall|i: int| 0 <= i < num_leaves ==> (#[trigger] leaves[i])@ == leaf_text(i as nat),
        leaf_contents(leaves@) == generated_contents(num_leaves as nat),
{
    let mut leaves: Vec<String> = Vec::with_capacity(num_leaves);
    let mut i: usize = 0;
    while i < num_leaves
        invariant
            i <= num_leaves,
            leaves.len() == i,
            forall|j: int| 0 <= j < i ==> (#[trigger] leaves[j])@ == leaf_text(j as nat),
        decreases num_leaves - i,
    {
        let number = decimal(i);
        let leaf = String::from_str("data item ").concat(number.as_str());
        leaves.push(leaf);
        i += 1;
    }
    leaves
}

/// Hashes every leaf.
pub fn hash_leaves(leaves: &[String]) -> (digests: Vec<Hash32Bytes>)
    ensures
        digests@ == leaf_digests(leaf_contents(leaves@)),
{
    let mut digests: Vec<Hash32Bytes> = Vec::with_capacity(leaves.len());
    let mut i: usize = 0;
    while i < leaves.len()
        invariant
            i <= leaves.len(),
            digests.len() == i,
            forall|j: int|
                0 <= j < i ==> digests[j] == leaf_digests(leaf_contents(leaves@))[j],
        decreases leaves.len() - i,
    {
        digests.push(hash_leaf(leaves[i].as_str().as_bytes()));
        i += 1;
    }
    digests
}

/// The authentication path of leaf `leaf_pos` in the tree over `leaves`: the
/// sibling digest at each level, lowest level first.
///
/// Fails with `EmptyLeafSet` where there is no leaf, and with
/// `IndexOutOfRange` where there are leaves and `leaf_pos` is none of them.
pub fn gen_merkle_proof(leaves: Vec<String>, leaf_pos: usize) -> (result: Result<
    Vec<Hash32Bytes>,
    ProofError,
>)
    ensures
        match rejection(leaves.len(), leaf_pos) {
            Some(error) => result == Err::<Vec<Hash32Bytes>, ProofError>(error),
            None => {
                &&& result is Ok
                &&& result->Ok_0@ == merkle_proof(
                    leaf_digests(leaf_contents(leaves@)),
                    leaf_pos as nat,
                )
                &&& result->Ok_0@.len() == height(leaves.len() as nat)
            },
        },
{
    if leaves.len() == 0 {
        return Err(ProofError::EmptyLeafSet);
    }
    if leaf_pos >= leaves.len() {
        return Err(ProofError::IndexOutOfRange { index: leaf_pos, leaves: leaves.len() });
    }
    let digests = hash_leaves(leaves.as_slice());
    build_proof(digests.as_slice(), leaf_pos)
}

/// The name of the file that holds the proof for leaf `leaf_position` of
/// `num_leaves` generated leaves.
pub fn proof_file_name(num_leaves: usize, leaf_position: usize) -> (name: String)
    ensures
        name@ == file_name_text(num_leaves as nat, leaf_position as nat),
{
    let leaves = decimal(num_leaves);
    let position = decimal(leaf_position);
    String::from_str("proof_gen_").concat(leaves.as_str()).concat("_").concat(
        position.as_str(),
    ).concat(".yaml")
}

/// Generates `num_leaves` leaves and builds the proof for the one at
/// `leaf_position`. The proof is one that the check accepts, for that leaf
/// and position, against the root of the tree over the generated leaves.
///
/// Fails with `EmptyLeafSet` where `num_leaves` is 0, and with
/// `IndexOutOfRange` where it is not and `leaf_position` is no position of
/// a leaf.
pub fn run(leaf_position: usize, num_leaves: usize) -> (result: Result<MerkleProof, ProofError>)
    ensures
        match rejection(num_leaves, leaf_position) {
            Some(error) => result == Err::<MerkleProof, ProofError>(error),
            None => result is Ok && ({
                let proof = result->Ok_0;
                &&& proof.leaf_position == leaf_position
                &&& proof.leaf_value@ == leaf_text(leaf_position as nat)
                &&& proof.proof_hash_values@ == merkle_proof(
                    leaf_digests(generated_contents(num_leaves as nat)),
                    leaf_position as nat,
                )
                &&& verifies(
                    vstd::utf8::encode_utf8(proof.leaf_value@),
                    leaf_position as nat,
                    num_leaves as nat,
                    proof.proof_hash_values@,
                    merkle_root(leaf_digests(generated_contents(num_leaves as nat))),
                )
            }),
        },
{
    if num_leaves == 0 {
        return Err(ProofError::EmptyLeafSet);
    }
    if leaf_position >= num_leaves {
        return Err(ProofError::IndexOutOfRange { index: leaf_position, leaves: num_leaves });
    }
    let leaves = gen_leaves_for_merkle_tree(num_leaves);
    let leaf_value = leaves[leaf_position].clone();
    proof {
        lemma_built_proof_verifies(generated_contents(num_leaves as nat), leaf_position as nat);
    }
    match gen_merkle_proof(leaves, leaf_position) {
        Ok(proof_hash_values) => Ok(MerkleProof { leaf_position, leaf_value, proof_hash_values }),
        Err(error) => Err(error),
    }
}

} // verus!
