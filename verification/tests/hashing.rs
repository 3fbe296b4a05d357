//! Tests that the digest wrapper really digests: its result must agree with
//! an independent SHA-256 computation and must depend on the input.

use sha2::Digest;
use xact::hashing::{sha256_digest, sha256_hex_frame};

fn independent_hex(data: &[u8]) -> Vec<u8> {
    hex::encode(sha2::Sha256::digest(data)).into_bytes()
}

#[test]
fn digest_is_32_bytes_and_not_the_input() {
    let d = sha256_digest(b"ermahgerd");
    assert_eq!(d.len(), 32);
    assert_ne!(d, b"ermahgerd".to_vec());
}

#[test]
fn hex_frame_matches_independent_computation() {
    for data in [&b""[..], b"ermahgerd", b"\x00\x01\x02", &[0x2a; 1000]] {
        let frame = sha256_hex_frame(data);
        assert_eq!(frame.len(), 64);
        assert_eq!(frame, independent_hex(data));
    }
}

#[test]
fn different_inputs_different_digests() {
    assert_ne!(sha256_hex_frame(b"ermahgerd"), sha256_hex_frame(b"ermahgere"));
}
