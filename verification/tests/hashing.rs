use merkle::hasher::{combine_hashes, hash_leaf, same_digest, zero_hash, Hash32Bytes};
use sha2::{Digest, Sha256};

fn from_hex(text: &str) -> Hash32Bytes {
    let bytes = hex::decode(text).unwrap();
    let mut digest = [0u8; 32];
    digest.copy_from_slice(&bytes);
    digest
}

#[test]
fn hash_leaf_of_abc_is_the_known_digest() {
    assert_eq!(
        hash_leaf(b"abc"),
        from_hex("ba7816bf8f01cfea414140de5dae2223b00361a396177a9cb410ff61f20015ad")
    );
}

#[test]
fn hash_leaf_of_nothing_is_the_known_digest() {
    assert_eq!(
        hash_leaf(b""),
        from_hex("e3b0c44298fc1c149afbf4c8996fb92427ae41e4649b934ca495991b7852b855")
    );
}

#[test]
fn hash_leaf_of_single_letters() {
    assert_eq!(
        hash_leaf("a".as_bytes()),
        from_hex("ca978112ca1bbdcafac231b39a23dc4da786eff8147c4e72b9807785afee48bb")
    );
    assert_eq!(
        hash_leaf("b".as_bytes()),
        from_hex("3e23e8160039594a33894f6564e1b1348bbd7a0088d42c4acb73eeaed59c009d")
    );
}

#[test]
fn hash_leaf_takes_long_content() {
    let content = vec![0x5au8; 100_000];
    let expected: Hash32Bytes = Sha256::digest(&content).into();
    assert_eq!(hash_leaf(&content), expected);
}

#[test]
fn hash_leaf_is_a_pure_function() {
    assert_eq!(hash_leaf(b"data item 7"), hash_leaf(b"data item 7"));
    assert_ne!(hash_leaf(b"data item 7"), hash_leaf(b"data item 8"));
}

#[test]
fn zero_hash_is_32_zero_bytes() {
    assert_eq!(zero_hash(), [0u8; 32]);
}

#[test]
fn combine_of_two_zero_digests_is_the_known_digest() {
    assert_eq!(
        combine_hashes(&zero_hash(), &zero_hash()),
        from_hex("f5a5fd42d16a20302798ef6ed309979b43003d2320d9f0e8ea9831a92759fb4b")
    );
}

#[test]
fn combine_hashes_the_left_bytes_then_the_right_bytes() {
    let left = hash_leaf(b"a");
    let right = hash_leaf(b"b");
    let mut both = Vec::new();
    both.extend_from_slice(&left);
    both.extend_from_slice(&right);
    let expected: Hash32Bytes = Sha256::digest(&both).into();
    assert_eq!(combine_hashes(&left, &right), expected);
    assert_eq!(combine_hashes(&left, &right), hash_leaf(&both));
}

#[test]
fn combine_is_order_sensitive() {
    let x = hash_leaf(b"a");
    let y = hash_leaf(b"b");
    assert_ne!(x, y);
    let xy = combine_hashes(&x, &y);
    let yx = combine_hashes(&y, &x);
    assert_ne!(xy, yx);
    assert!(xy.iter().zip(yx.iter()).any(|(p, q)| p != q));
}

#[test]
fn combine_differs_from_either_child() {
    let x = hash_leaf(b"a");
    let y = hash_leaf(b"b");
    let parent = combine_hashes(&x, &y);
    assert_ne!(parent, x);
    assert_ne!(parent, y);
}

#[test]
fn same_digest_compares_all_bytes() {
    let x = hash_leaf(b"a");
    let mut y = x;
    assert!(same_digest(&x, &y));
    y[31] ^= 1;
    assert!(!same_digest(&x, &y));
    y[31] ^= 1;
    y[0] ^= 0x80;
    assert!(!same_digest(&x, &y));
    assert!(same_digest(&zero_hash(), &[0u8; 32]));
}
