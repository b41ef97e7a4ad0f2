//! The content digest of a file: the SHA-256 of its bytes, in lower-case
//! hexadecimal digits.

use sha2::{Digest, Sha256};
use vstd::prelude::*;

verus! {

/// The SHA-256 hash of `data`.
pub uninterp spec fn sha256(data: Seq<u8>) -> Seq<u8>;

/// The lower-case hexadecimal digit for `n`, which is below 16.
pub open spec fn hex_digit(n: int) -> char {
    seq!['0', '1', '2', '3', '4', '5', '6', '7', '8', '9', 'a', 'b', 'c', 'd', 'e', 'f'][n]
}

/// `data` in hexadecimal: two lower-case digits for each byte, the high half
/// first.
pub open spec fn hex_lower(data: Seq<u8>) -> Seq<char>
    decreases data.len(),
{
    if data.len() == 0 {
        Seq::empty()
    } else {
        hex_lower(data.drop_last()) + seq![
            hex_digit(data.last() as int / 16),
            hex_digit(data.last() as int % 16),
        ]
    }
}

/// `sha2::Sha256::digest`: the SHA-256 hash of the bytes, which has 32
/// bytes. Nothing else is proved of the hash function; the result is the
/// named value `sha256` of the input.
#[verifier::external_body]
fn sha256_of(data: &[u8]) -> (out: Vec<u8>)
    ensures
        out@ == sha256(data@),
        out@.len() == 32,
{
    Sha256::digest(data).to_vec()
}

/// `hex::encode`: each byte as two lower-case hexadecimal digits, the high
/// half first, in the order of the bytes.
#[verifier::external_body]
fn hex_encode(data: &[u8]) -> (out: String)
    ensures
        out@ == hex_lower(data@),
{
    hex::encode(data)
}

/// The digest of a file that holds `data`.
pub open spec fn digest_of(data: Seq<u8>) -> Seq<char> {
    hex_lower(sha256(data))
}

/// Hexadecimal text has two digits for each byte.
pub proof fn lemma_hex_len(data: Seq<u8>)
    ensures
        hex_lower(data).len() == 2 * data.len(),
    decreases data.len(),
{
    if data.len() > 0 {
        lemma_hex_len(data.drop_last());
    }
}

/// The digest of a file that holds `data`: 64 hexadecimal digits.
pub fn digest_hex(data: &[u8]) -> (out: String)
    ensures
        out@ == digest_of(data@),
        out@.len() == 64,
{
    let hash = sha256_of(data);
    proof {
        lemma_hex_len(hash@);
    }
    hex_encode(hash.as_slice())
}

} // verus!
