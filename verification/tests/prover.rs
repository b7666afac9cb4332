use merkle::decimal::decimal;
use merkle::engine::{compute_root, tree_height, ProofError};
use merkle::hasher::{combine_hashes, hash_leaf, Hash32Bytes};
use merkle::inclusion::verify;
use merkle::prover::{
    gen_leaves_for_merkle_tree, gen_merkle_proof, hash_leaves, proof_file_name, run, MerkleProof,
};

fn letters() -> Vec<String> {
    vec!["a".to_string(), "b".to_string(), "c".to_string(), "d".to_string()]
}

#[test]
fn decimal_writes_numbers_without_leading_zeros() {
    assert_eq!(decimal(0), "0");
    assert_eq!(decimal(7), "7");
    assert_eq!(decimal(9), "9");
    assert_eq!(decimal(10), "10");
    assert_eq!(decimal(42), "42");
    assert_eq!(decimal(100), "100");
    assert_eq!(decimal(1234567890), "1234567890");
    assert_eq!(decimal(usize::MAX), usize::MAX.to_string());
}

#[test]
fn generated_leaves_are_numbered_from_zero() {
    assert_eq!(gen_leaves_for_merkle_tree(0), Vec::<String>::new());
    assert_eq!(gen_leaves_for_merkle_tree(1), vec!["data item 0".to_string()]);
    let leaves = gen_leaves_for_merkle_tree(12);
    assert_eq!(leaves.len(), 12);
    assert_eq!(leaves[0], "data item 0");
    assert_eq!(leaves[9], "data item 9");
    assert_eq!(leaves[10], "data item 10");
    assert_eq!(leaves[11], "data item 11");
    for (i, leaf) in leaves.iter().enumerate() {
        assert_eq!(*leaf, format!("data item {}", i));
    }
}

#[test]
fn proof_file_name_holds_both_numbers() {
    assert_eq!(proof_file_name(4, 1), "proof_gen_4_1.yaml");
    assert_eq!(proof_file_name(1000, 0), "proof_gen_1000_0.yaml");
    assert_eq!(proof_file_name(16, 15), format!("proof_gen_{}_{}.yaml", 16, 15));
}

#[test]
fn hash_leaves_hashes_the_bytes_of_each_text() {
    let leaves = vec!["a".to_string(), "".to_string(), "data item 3".to_string(), "é".to_string()];
    let digests = hash_leaves(&leaves);
    assert_eq!(digests.len(), 4);
    assert_eq!(digests[0], hash_leaf(b"a"));
    assert_eq!(digests[1], hash_leaf(b""));
    assert_eq!(digests[2], hash_leaf(b"data item 3"));
    assert_eq!(digests[3], hash_leaf(&[0xc3, 0xa9]));
    assert_eq!(hash_leaves(&[]), Vec::<Hash32Bytes>::new());
}

#[test]
fn four_letters_proof_for_b() {
    let ha = hash_leaf(b"a");
    let hb = hash_leaf(b"b");
    let hc = hash_leaf(b"c");
    let hd = hash_leaf(b"d");
    let ab = combine_hashes(&ha, &hb);
    let cd = combine_hashes(&hc, &hd);
    let root = combine_hashes(&ab, &cd);
    assert_eq!(tree_height(4), 2);
    assert_eq!(compute_root(&hash_leaves(&letters())), Ok(root));

    let proof = gen_merkle_proof(letters(), 1).unwrap();
    assert_eq!(proof, vec![ha, cd]);
    assert_eq!(combine_hashes(&proof[0], &hb), ab);
    assert_eq!(combine_hashes(&ab, &proof[1]), root);

    assert!(verify("b".as_bytes(), 1, 4, &proof, &root));
    let mut wrong_root = root;
    wrong_root[5] ^= 0x10;
    assert!(!verify("b".as_bytes(), 1, 4, &proof, &wrong_root));
    assert!(!verify("b".as_bytes(), 1, 4, &proof, &ab));
}

#[test]
fn four_letters_every_proof() {
    let ha = hash_leaf(b"a");
    let hb = hash_leaf(b"b");
    let hc = hash_leaf(b"c");
    let hd = hash_leaf(b"d");
    let ab = combine_hashes(&ha, &hb);
    let cd = combine_hashes(&hc, &hd);
    assert_eq!(gen_merkle_proof(letters(), 0), Ok(vec![hb, cd]));
    assert_eq!(gen_merkle_proof(letters(), 1), Ok(vec![ha, cd]));
    assert_eq!(gen_merkle_proof(letters(), 2), Ok(vec![hd, ab]));
    assert_eq!(gen_merkle_proof(letters(), 3), Ok(vec![hc, ab]));
}

#[test]
fn gen_merkle_proof_is_accepted_for_every_leaf() {
    for n in 1usize..=17 {
        let leaves = gen_leaves_for_merkle_tree(n);
        let root = compute_root(&hash_leaves(&leaves)).unwrap();
        for index in 0..n {
            let proof = gen_merkle_proof(leaves.clone(), index).unwrap();
            assert!(verify(leaves[index].as_bytes(), index, n, &proof, &root));
        }
    }
}

#[test]
fn gen_merkle_proof_rejects_no_leaves() {
    assert_eq!(gen_merkle_proof(Vec::new(), 0), Err(ProofError::EmptyLeafSet));
}

#[test]
fn gen_merkle_proof_rejects_an_index_out_of_range() {
    assert_eq!(
        gen_merkle_proof(letters(), 4),
        Err(ProofError::IndexOutOfRange { index: 4, leaves: 4 })
    );
    assert_eq!(
        gen_merkle_proof(letters(), 100),
        Err(ProofError::IndexOutOfRange { index: 100, leaves: 4 })
    );
}

#[test]
fn run_builds_the_proof_of_a_generated_leaf() {
    let proof = run(1, 4).unwrap();
    assert_eq!(proof.leaf_position, 1);
    assert_eq!(proof.leaf_value, "data item 1");
    let leaves = gen_leaves_for_merkle_tree(4);
    assert_eq!(proof.proof_hash_values, gen_merkle_proof(leaves.clone(), 1).unwrap());
    let d = hash_leaves(&leaves);
    assert_eq!(
        proof.proof_hash_values,
        vec![d[0], combine_hashes(&d[2], &d[3])]
    );
    let root = compute_root(&d).unwrap();
    assert!(verify(
        proof.leaf_value.as_bytes(),
        proof.leaf_position,
        4,
        &proof.proof_hash_values,
        &root
    ));
}

#[test]
fn run_with_one_leaf_gives_an_empty_proof() {
    assert_eq!(
        run(0, 1),
        Ok(MerkleProof {
            leaf_position: 0,
            leaf_value: "data item 0".to_string(),
            proof_hash_values: vec![],
        })
    );
}

#[test]
fn run_gives_one_digest_per_level() {
    for (n, h) in [(2usize, 1usize), (3, 2), (5, 3), (8, 3), (9, 4), (100, 7)] {
        let proof = run(n - 1, n).unwrap();
        assert_eq!(proof.proof_hash_values.len(), h);
        assert_eq!(proof.leaf_value, format!("data item {}", n - 1));
    }
}

#[test]
fn run_rejects_no_leaves() {
    assert_eq!(run(0, 0), Err(ProofError::EmptyLeafSet));
    assert_eq!(run(3, 0), Err(ProofError::EmptyLeafSet));
}

#[test]
fn run_rejects_a_position_out_of_range() {
    assert_eq!(run(4, 4), Err(ProofError::IndexOutOfRange { index: 4, leaves: 4 }));
    assert_eq!(run(9, 2), Err(ProofError::IndexOutOfRange { index: 9, leaves: 2 }));
}
