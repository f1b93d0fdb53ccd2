//! Content hashes: the SHA-256 digest of a record's canonical text, written as
//! 64 lowercase hexadecimal digits.

use vstd::prelude::*;
use vstd::utf8::encode_utf8;
use sha2::{Digest, Sha256};
use crate::chain::Chain;
use crate::hex::{hex_text, is_hex_digit, lemma_hex_text_shape};
use crate::json::Canonical;

verus! {

/// The number of characters of a content hash.
pub const DIGEST_LENGTH: u32 = 64;

/// The SHA-256 digest of a byte string.
pub uninterp spec fn sha256(data: Seq<u8>) -> [u8; 32];

/// `Sha256` of the `sha2` crate: a fresh hasher is fed the whole byte string
/// once and finished. The result is the 32-byte SHA-256 digest of the input.
#[verifier::external_body]
fn sha256_of(data: &[u8]) -> (digest: [u8; 32])
    ensures
        digest == sha256(data@),
{
    let mut hasher = Sha256::default();
    hasher.input(data);
    let result = hasher.result();
    let mut digest = [0u8; 32];
    digest.copy_from_slice(result.as_slice());
    digest
}

/// The content hash of a text: the SHA-256 digest of its UTF-8 bytes in
/// lowercase hexadecimal.
pub open spec fn digest_hex(text: Seq<char>) -> Seq<char> {
    hex_text(sha256(encode_utf8(text))@)
}

/// The sentinel digest: 64 characters `'0'`. It is the previous hash of the
/// first block and the root of an empty list of transactions.
pub open spec fn zero_hash() -> Seq<char> {
    Seq::new(64, |i: int| '0')
}

/// A content hash has 64 characters, each a lowercase hexadecimal digit.
pub proof fn lemma_digest_hex_shape(text: Seq<char>)
    ensures
        digest_hex(text).len() == DIGEST_LENGTH,
        forall|i: int| 0 <= i < DIGEST_LENGTH ==> is_hex_digit(#[trigger] digest_hex(text)[i]),
{
    lemma_hex_text_shape(sha256(encode_utf8(text))@);
}

/// The sentinel digest as a string.
pub fn zero_hash_text() -> (text: String)
    ensures
        text@ == zero_hash(),
{
    let zeros = "0000000000000000000000000000000000000000000000000000000000000000";
    proof {
        reveal_strlit("0000000000000000000000000000000000000000000000000000000000000000");
    }
    String::from_str(zeros)
}

impl Chain {
    /// The content hash of a record: the digest of its canonical text.
    pub fn hash<T: Canonical>(item: &T) -> (digest: String)
        ensures
            digest@ == digest_hex(item.canonical()),
            digest@.len() == DIGEST_LENGTH,
    {
        let input = item.to_canonical();
        let result = sha256_of(input.as_str().as_bytes());
        Chain::hex_to_string(&result)
    }
}

} // verus!
