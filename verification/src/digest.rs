//! The content hash of a query text: the SHA-256 digest of its UTF-8 bytes,
//! written as lower case hexadecimal digits.

use vstd::prelude::*;
use vstd::string::*;
use vstd::utf8::encode_utf8;

verus! {

/// The SHA-256 digest of a byte string, as `sha2` computes it.
pub uninterp spec fn sha256(data: Seq<u8>) -> Seq<u8>;

/// The hexadecimal digit for a value below 16.
pub open spec fn hex_digit(value: int) -> char {
    seq!['0', '1', '2', '3', '4', '5', '6', '7', '8', '9', 'a', 'b', 'c', 'd', 'e', 'f'][value]
}

/// A byte string in lower case hexadecimal: two digits for each byte, the
/// high half first.
pub open spec fn hex_of(data: Seq<u8>) -> Seq<char> {
    Seq::new(
        2 * data.len(),
        |i: int|
            if i % 2 == 0 {
                hex_digit(data[i / 2] as int / 16)
            } else {
                hex_digit(data[i / 2] as int % 16)
            },
    )
}

/// The content hash of a text.
pub open spec fn content_hash(text: Seq<char>) -> Seq<char> {
    hex_of(sha256(encode_utf8(text)))
}

/// `Sha256::digest` of `sha2`. Trusted: the digest depends on the data
/// alone, and it has the 32 bytes that the type of the hasher fixes.
#[verifier::external_body]
fn sha256_digest(data: &[u8]) -> (r: Vec<u8>)
    ensures
        r@ == sha256(data@),
        r@.len() == 32,
{
    <sha2::Sha256 as sha2::Digest>::digest(data).to_vec()
}

/// `hex::encode`. Trusted: each byte gives two digits out of
/// `0123456789abcdef`, the high four bits first.
#[verifier::external_body]
fn hex_encode(data: &[u8]) -> (r: String)
    ensures
        r@ == hex_of(data@),
{
    hex::encode(data)
}

/// Computes the content hash of a query text: 64 hexadecimal digits.
pub fn hash_string(query: &str) -> (r: String)
    ensures
        r@ == content_hash(query@),
        r@.len() == 64,
{
    let digest = sha256_digest(query.as_bytes());
    hex_encode(digest.as_slice())
}

} // verus!
