use install_core::hash::{
    chunk_hash_of, chunk_is_intact, digest_matches, hash_bytes, hex_of, verify_chunk,
};

const EMPTY: &str = "e3b0c44298fc1c149afbf4c8996fb92427ae41e4649b934ca495991b7852b855";
const ABC: &str = "ba7816bf8f01cfea414140de5dae2223b00361a396177a9cb410ff61f20015ad";

#[test]
fn hashes_known_inputs() {
    assert_eq!(hash_bytes(b""), EMPTY);
    assert_eq!(hash_bytes(b"abc"), ABC);
}

#[test]
fn hash_is_lowercase_hex_of_64_characters() {
    let hex = hash_bytes(b"some chunk");
    assert_eq!(hex.len(), 64);
    assert!(hex.chars().all(|c| c.is_ascii_digit() || ('a'..='f').contains(&c)));
}

#[test]
fn writes_bytes_in_lowercase_hex() {
    assert_eq!(hex_of(&[]), "");
    assert_eq!(hex_of(&[0x00, 0x0f, 0xa0, 0xff]), "000fa0ff");
    assert_eq!(hex_of(&[0xAB, 0xCD, 0xEF]), "abcdef");
}

#[test]
fn compares_a_digest_with_a_hash_in_hex() {
    assert!(digest_matches(&[0xab, 0x01], &"ab01".to_string()));
    assert!(!digest_matches(&[0xab, 0x01], &"AB01".to_string()));
    assert!(!digest_matches(&[0xab, 0x01], &"ab".to_string()));
    assert!(!digest_matches(b"ab01", &"ab01".to_string()));
}

#[test]
fn verifies_a_chunk_against_its_hash() {
    assert!(verify_chunk(b"abc", &ABC.to_string()));
    assert!(!verify_chunk(b"abd", &ABC.to_string()));
    assert!(!verify_chunk(b"abc", &ABC.to_uppercase()));
    assert!(!verify_chunk(b"abc", &"abc".to_string()));
}

#[test]
fn finds_the_hash_in_a_chunk_identifier() {
    assert_eq!(chunk_hash_of(&format!("file_0_{}", ABC)), ABC);
    assert_eq!(chunk_hash_of(&ABC.to_string()), ABC);
    assert_eq!(chunk_hash_of(&"pfx_".to_string()), "");
}

#[test]
fn judges_a_downloaded_chunk_by_its_identifier() {
    assert!(chunk_is_intact(b"abc", &format!("pfx_3_{}", ABC)));
    assert!(chunk_is_intact(b"abc", &ABC.to_string()));
    assert!(!chunk_is_intact(b"abd", &format!("pfx_3_{}", ABC)));
    assert!(!chunk_is_intact(b"abc", &format!("{}_3", ABC)));
    assert!(chunk_is_intact(b"", &format!("x_{}", EMPTY)));
}
