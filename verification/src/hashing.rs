//! The integrity digest over blob contents.
//!
//! The digest itself comes from the `sha2` crate; this module names its
//! result so that contracts elsewhere can speak about it exactly.

use vstd::prelude::*;
use sha2::Digest;

use crate::codec::{hex_of, to_hex, lemma_hex_of_len};

verus! {

/// The SHA-256 digest of a byte string.
pub uninterp spec fn sha256_of(data: Seq<u8>) -> Seq<u8>;

/// Relies on `sha2::Sha256` through the `Digest` trait: the digest is a
/// function of the input bytes alone, and is always 32 bytes long.
#[verifier::external_body]
pub fn sha256_digest(bytes: &[u8]) -> (r: Vec<u8>)
    ensures
        r@ == sha256_of(bytes@),
        r@.len() == 32,
{
    sha2::Sha256::digest(bytes).to_vec()
}

/// The lowercase hex spelling of the SHA-256 digest of `data`: what travels
/// in the final frame of a transfer.
pub open spec fn sha256_hex(data: Seq<u8>) -> Seq<u8> {
    hex_of(sha256_of(data))
}

/// Computes the lowercase hex spelling of the SHA-256 digest of `bytes`.
pub fn sha256_hex_frame(bytes: &[u8]) -> (r: Vec<u8>)
    ensures
        r@ == sha256_hex(bytes@),
        r@.len() == 64,
{
    let digest = sha256_digest(bytes);
    proof {
        lemma_hex_of_len(digest@);
    }
    to_hex(digest.as_slice())
}

} // verus!
