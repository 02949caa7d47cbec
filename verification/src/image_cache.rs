//! Keys under which downloaded images are cached.
use vstd::prelude::*;
use crate::text::{hex_lower, to_hex_lower, lemma_hex_lower_len};
use sha2::Digest;

verus! {

/// The SHA-256 digest of the bytes, as the `sha2` crate computes it.
pub uninterp spec fn spec_sha256(data: Seq<u8>) -> Seq<u8>;

/// `sha2::Sha256::digest`. Claimed: the result is the named digest, 32 bytes long.
#[verifier::external_body]
fn sha256(data: &[u8]) -> (r: Vec<u8>)
    ensures
        r@ == spec_sha256(data@),
        r@.len() == 32,
{
    sha2::Sha256::digest(data).to_vec()
}

/// The cache key of an image URL: the lowercase hex SHA-256 of its UTF-8 bytes.
pub open spec fn spec_url_key(url: Seq<char>) -> Seq<char> {
    hex_lower(spec_sha256(vstd::utf8::encode_utf8(url)))
}

pub fn url_to_key(url: &str) -> (k: String)
    ensures
        k@ == spec_url_key(url@),
        k@.len() == 64,
{
    let digest = sha256(url.as_bytes());
    proof {
        lemma_hex_lower_len(digest@);
    }
    to_hex_lower(&digest)
}

} // verus!
