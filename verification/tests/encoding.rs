use base64::engine::general_purpose::STANDARD;
use base64::Engine;
use merkle::encoding::{encode_base64, encode_hash, hexs};
use merkle::hasher::{hash_leaf, zero_hash};
use merkle::prover::{run, MerkleProof};

#[test]
fn hexs_gives_the_first_four_digits() {
    assert_eq!(hexs(hash_leaf(b"abc")), "ba78");
    assert_eq!(hexs(hash_leaf(b"")), "e3b0");
    assert_eq!(hexs(zero_hash()), "0000");
}

#[test]
fn hexs_writes_the_high_half_first_in_lower_case() {
    let mut digest = [0u8; 32];
    digest[0] = 0x0f;
    digest[1] = 0xa0;
    digest[2] = 0xff;
    assert_eq!(hexs(digest), "0fa0");
    digest[0] = 0xcd;
    digest[1] = 0x9e;
    assert_eq!(hexs(digest), "cd9e");
}

#[test]
fn hexs_is_the_start_of_the_full_hexadecimal_text() {
    for i in 0..50u32 {
        let digest = hash_leaf(&i.to_be_bytes());
        let full = hex::encode(digest);
        assert_eq!(hexs(digest), full[..4]);
    }
}

#[test]
fn base64_of_the_standard_examples() {
    assert_eq!(encode_base64(b""), "");
    assert_eq!(encode_base64(b"f"), "Zg==");
    assert_eq!(encode_base64(b"fo"), "Zm8=");
    assert_eq!(encode_base64(b"foo"), "Zm9v");
    assert_eq!(encode_base64(b"foob"), "Zm9vYg==");
    assert_eq!(encode_base64(b"fooba"), "Zm9vYmE=");
    assert_eq!(encode_base64(b"foobar"), "Zm9vYmFy");
}

#[test]
fn base64_uses_the_last_two_digits_of_the_alphabet() {
    assert_eq!(encode_base64(&[0xfb, 0xff]), "+/8=");
    assert_eq!(encode_base64(&[0xff, 0xff, 0xff]), "////");
    assert_eq!(encode_base64(&[0x00, 0x00, 0x00]), "AAAA");
    assert_eq!(encode_base64(&[0xff]), "/w==");
}

#[test]
fn base64_agrees_with_the_base64_crate() {
    let mut state: u32 = 0x1234_5678;
    for len in 0..200usize {
        let mut data = Vec::with_capacity(len);
        for _ in 0..len {
            state = state.wrapping_mul(1_664_525).wrapping_add(1_013_904_223);
            data.push((state >> 24) as u8);
        }
        assert_eq!(encode_base64(&data), STANDARD.encode(&data), "length {}", len);
    }
}

#[test]
fn encode_hash_of_the_zero_digest() {
    let text = encode_hash(zero_hash());
    assert_eq!(text, format!("{}=", "A".repeat(43)));
    assert_eq!(text.len(), 44);
}

#[test]
fn encode_hash_of_a_known_digest() {
    assert_eq!(
        encode_hash(hash_leaf(b"abc")),
        "ungWv48Bz+pBQUDeXa4iI7ADYaOWF3qctBD/YfIAFa0="
    );
    let digest = hash_leaf(b"data item 1");
    assert_eq!(encode_hash(digest), STANDARD.encode(digest));
}

#[test]
fn encode_hash_can_be_decoded_to_the_same_bytes() {
    for i in 0..100u32 {
        let digest = hash_leaf(&i.to_le_bytes());
        let text = encode_hash(digest);
        assert_eq!(text.len(), 44);
        assert_eq!(STANDARD.decode(&text).unwrap(), digest.to_vec());
    }
}

#[test]
fn different_digests_have_different_texts() {
    let a = hash_leaf(b"a");
    let mut b = a;
    b[31] ^= 1;
    assert_ne!(encode_hash(a), encode_hash(b));
    b[31] ^= 1;
    b[0] ^= 0x80;
    assert_ne!(encode_hash(a), encode_hash(b));
}

#[test]
fn a_proof_gives_its_digests_in_base64() {
    let proof = run(5, 11).unwrap();
    let texts = proof.proof_hash_values_base64();
    assert_eq!(texts.len(), 4);
    for (text, digest) in texts.iter().zip(proof.proof_hash_values.iter()) {
        assert_eq!(*text, STANDARD.encode(digest));
        assert_eq!(*text, encode_hash(*digest));
    }
}

#[test]
fn an_empty_proof_has_no_texts() {
    let proof = MerkleProof {
        leaf_position: 0,
        leaf_value: "data item 0".to_string(),
        proof_hash_values: vec![],
    };
    assert_eq!(proof.proof_hash_values_base64(), Vec::<String>::new());
}
