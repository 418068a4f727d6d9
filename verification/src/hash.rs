//! Content hashes.

use sha2::Digest;
use vstd::prelude::*;

use crate::bytes;

verus! {

/// The SHA-256 digest of `data`, as `sha2` computes it.
pub uninterp spec fn sha256_digest(data: Seq<u8>) -> Seq<u8>;

/// `sha2::Sha256::digest` of the bytes: 32 bytes that depend on them alone.
#[verifier::external_body]
fn digest(data: &[u8]) -> (r: Vec<u8>)
    ensures
        r@ == sha256_digest(data@),
        r@.len() == 32,
{
    sha2::Sha256::digest(data).to_vec()
}

/// `hex::encode` writes each byte as two small hexadecimal digits, in order.
#[verifier::external_body]
fn hex_text(data: &[u8]) -> (r: String)
    ensures
        r@ == bytes::hex_of(data@),
{
    hex::encode(data)
}

/// SHA-256 of the bytes of a file, in hexadecimal.
pub fn file_sha256(data: &[u8]) -> (r: String)
    ensures
        r@ == bytes::hex_of(sha256_digest(data@)),
        r@.len() == 64,
{
    let d = digest(data);
    proof {
        bytes::lemma_hex_len(d@);
    }
    hex_text(d.as_slice())
}

} // verus!
