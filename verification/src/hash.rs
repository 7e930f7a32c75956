//! SHA-256 of byte buffers, its lowercase hex form, and the comparison of a
//! chunk's content with the hash that its identifier carries.

use crate::text::{last_token, last_token_of};
use sha2::Digest;
use sha2::Sha256;
use vstd::prelude::*;

verus! {

/// The SHA-256 digest of `data`, as the `sha2` crate computes it.
pub uninterp spec fn sha256_digest(data: Seq<u8>) -> Seq<u8>;

/// The character that stands for a value below sixteen in lowercase hex.
pub open spec fn hex_digit(n: int) -> char {
    seq!['0', '1', '2', '3', '4', '5', '6', '7', '8', '9', 'a', 'b', 'c', 'd', 'e', 'f'][n]
}

/// The lowercase hex form of `bytes`: two characters for each byte, the
/// high half first.
pub open spec fn hex_lower(bytes: Seq<u8>) -> Seq<char> {
    Seq::new(
        2 * bytes.len(),
        |i: int|
            if i % 2 == 0 {
                hex_digit(bytes[i / 2] as int / 16)
            } else {
                hex_digit(bytes[i / 2] as int % 16)
            },
    )
}

/// The separator between the tokens of a chunk identifier.
pub open spec fn token_separator() -> char {
    '_'
}

/// The hash that a chunk identifier carries: its last token.
pub open spec fn chunk_hash(chunk_sha: Seq<char>) -> Seq<char> {
    last_token(chunk_sha, token_separator())
}

/// Whether `bytes` is the content that the chunk identifier announces.
pub open spec fn intact(bytes: Seq<u8>, chunk_sha: Seq<char>) -> bool {
    hex_lower(sha256_digest(bytes)) == chunk_hash(chunk_sha)
}

/// Hashes a buffer.
///
/// Trusted: feeds the buffer to `sha2::Sha256` (`new`, `update`, `finalize`)
/// and copies the digest out. The contract names the digest; beyond that it
/// claims only its length, which the crate fixes at 32 bytes.
#[verifier::external_body]
fn sha256(data: &[u8]) -> (digest: Vec<u8>)
    ensures
        digest@ == sha256_digest(data@),
        digest@.len() == 32,
{
    let mut hasher = Sha256::new();
    hasher.update(data);
    hasher.finalize().to_vec()
}

/// Writes bytes in lowercase hex.
///
/// Trusted: wraps `base16ct::lower::encode_string`, which writes each byte
/// as two characters of `0-9a-f`, high half first, and panics on inputs
/// longer than half the address space.
#[verifier::external_body]
fn encode_hex(bytes: &[u8]) -> (hex: String)
    requires
        bytes.len() <= usize::MAX / 2,
    ensures
        hex@ == hex_lower(bytes@),
{
    base16ct::lower::encode_string(bytes)
}

/// The lowercase hex form of a digest, or of any other short byte string.
pub fn hex_of(bytes: &[u8]) -> (hex: String)
    requires
        bytes.len() <= usize::MAX / 2,
    ensures
        hex@ == hex_lower(bytes@),
{
    encode_hex(bytes)
}

/// Whether a digest, written in lowercase hex, is exactly `sha`.
pub fn digest_matches(digest: &[u8], sha: &String) -> (r: bool)
    requires
        digest.len() <= usize::MAX / 2,
    ensures
        r == (hex_lower(digest@) == sha@),
{
    encode_hex(digest) == *sha
}

/// The SHA-256 of `buf` in lowercase hex.
pub fn hash_bytes(buf: &[u8]) -> (hex: String)
    ensures
        hex@ == hex_lower(sha256_digest(buf@)),
        hex@.len() == 64,
{
    let digest = sha256(buf);
    encode_hex(digest.as_slice())
}

/// Whether the SHA-256 of `chunk`, in lowercase hex, is exactly `sha`.
pub fn verify_chunk(chunk: &[u8], sha: &String) -> (r: bool)
    ensures
        r == (hex_lower(sha256_digest(chunk@)) == sha@),
{
    hash_bytes(chunk) == *sha
}

/// The hash that a chunk identifier carries: what follows its last `_`,
/// or the whole identifier where it holds none.
pub fn chunk_hash_of(chunk_sha: &String) -> (r: String)
    ensures
        r@ == chunk_hash(chunk_sha@),
{
    last_token_of(chunk_sha.as_str(), '_')
}

/// Whether a downloaded chunk has the content that its identifier
/// announces.
pub fn chunk_is_intact(bytes: &[u8], chunk_sha: &String) -> (r: bool)
    ensures
        r == intact(bytes@, chunk_sha@),
{
    let expected = chunk_hash_of(chunk_sha);
    verify_chunk(bytes, &expected)
}

} // verus!
