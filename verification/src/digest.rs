//! The two hash functions of the ledger, and the proof-of-work test on a
//! hash's text.

use sha2::Digest;
use sha2::Sha256;
use sha3::Sha3_256;
use vstd::prelude::*;
use crate::text::hex_string;
use crate::text::hex_text;

verus! {

/// The SHA-256 digest of the UTF-8 bytes of a text.
pub uninterp spec fn sha256_digest(text: Seq<char>) -> Seq<u8>;

/// The SHA3-256 digest of the UTF-8 bytes of a text.
pub uninterp spec fn sha3_256_digest(text: Seq<char>) -> Seq<u8>;

/// Runs `sha2::Sha256` over the bytes of `text`: `new`, one `update`,
/// `finalize`. The digest depends on the text alone and has 32 bytes.
#[verifier::external_body]
fn sha256_bytes(text: &str) -> (out: Vec<u8>)
    ensures
        out@ == sha256_digest(text@),
        out@.len() == 32,
{
    let mut hasher = Sha256::new();
    hasher.update(text.as_bytes());
    hasher.finalize().to_vec()
}

/// Runs `sha3::Sha3_256` over the bytes of `text`: `new`, one `update`,
/// `finalize`. The digest depends on the text alone and has 32 bytes.
#[verifier::external_body]
fn sha3_256_bytes(text: &str) -> (out: Vec<u8>)
    ensures
        out@ == sha3_256_digest(text@),
        out@.len() == 32,
{
    let mut hasher = Sha3_256::new();
    hasher.update(text.as_bytes());
    hasher.finalize().to_vec()
}

/// The SHA-256 digest of a text, as 64 hexadecimal characters.
pub open spec fn sha256_hex(text: Seq<char>) -> Seq<char> {
    hex_text(sha256_digest(text))
}

/// The SHA3-256 digest of a text, as 64 hexadecimal characters.
pub open spec fn sha3_256_hex(text: Seq<char>) -> Seq<char> {
    hex_text(sha3_256_digest(text))
}

/// Whether the first `difficulty` characters of `hash` are all `'0'`. A hash
/// shorter than `difficulty` does not meet it.
pub open spec fn meets_difficulty(hash: Seq<char>, difficulty: nat) -> bool {
    &&& difficulty <= hash.len()
    &&& forall|i: int| 0 <= i < difficulty ==> hash[i] == '0'
}

/// SHA-256 of `text` in hexadecimal.
pub fn sha256_hex_string(text: &str) -> (hash: String)
    ensures
        hash@ == sha256_hex(text@),
        hash@.len() == 64,
{
    let bytes = sha256_bytes(text);
    hex_string(&bytes)
}

/// SHA3-256 of `text` in hexadecimal.
pub fn sha3_256_hex_string(text: &str) -> (hash: String)
    ensures
        hash@ == sha3_256_hex(text@),
        hash@.len() == 64,
{
    let bytes = sha3_256_bytes(text);
    hex_string(&bytes)
}

/// Tests the proof-of-work condition on a hash.
pub fn has_leading_zeros(hash: &str, difficulty: usize) -> (ok: bool)
    ensures
        ok == meets_difficulty(hash@, difficulty as nat),
{
    if difficulty > hash.unicode_len() {
        return false;
    }
    let mut i: usize = 0;
    while i < difficulty
        invariant
            i <= difficulty <= hash@.len(),
            forall|j: int| 0 <= j < i ==> hash@[j] == '0',
        decreases difficulty - i,
    {
        if hash.get_char(i) != '0' {
            return false;
        }
        i += 1;
    }
    true
}

} // verus!
