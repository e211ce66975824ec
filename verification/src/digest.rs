//! Content hashes as the wire carries them: SHA-256, in lower-case hex.

use sha2::{Digest, Sha256};
use vstd::prelude::*;

verus! {

/// What `sha2::Sha256::digest` returns for `data`.
pub uninterp spec fn sha256(data: Seq<u8>) -> Seq<u8>;

/// The lower-case hexadecimal digit for `n`, `0 <= n < 16`.
pub open spec fn hex_digit(n: int) -> char {
    if n < 10 {
        (48 + n) as char
    } else {
        (87 + n) as char
    }
}

/// Two lower-case hexadecimal digits for every byte, the high half first.
pub open spec fn hex_text(data: Seq<u8>) -> Seq<char> {
    Seq::new(
        data.len() * 2,
        |i: int|
            if i % 2 == 0 {
                hex_digit(data[i / 2] as int / 16)
            } else {
                hex_digit(data[i / 2] as int % 16)
            },
    )
}

/// The hash of `data` in its wire form.
pub open spec fn content_hash(data: Seq<u8>) -> Seq<char> {
    hex_text(sha256(data))
}

/// `sha2::Sha256::digest`: the 32 bytes of the SHA-256 hash of `data`, a
/// function of `data` alone.
#[verifier::external_body]
fn sha256_digest(data: &[u8]) -> (r: Vec<u8>)
    ensures
        r@ == sha256(data@),
        r@.len() == 32,
{
    Sha256::digest(data).to_vec()
}

/// `hex::encode`: two lower-case digits for every byte, the high half first.
#[verifier::external_body]
fn hex_encode(data: &[u8]) -> (r: String)
    ensures
        r@ == hex_text(data@),
{
    hex::encode(data)
}

/// The SHA-256 hash of `data` as 64 lower-case hexadecimal digits.
pub fn sha256_hex(data: &[u8]) -> (r: String)
    ensures
        r@ == content_hash(data@),
        r@.len() == 64,
{
    let d = sha256_digest(data);
    hex_encode(d.as_slice())
}

/// A hash is written with two lower-case hexadecimal digits for each byte, the high
/// half first.
pub proof fn law_hash_is_written_in_hex(data: Seq<u8>, i: int)
    requires
        0 <= i < data.len(),
    ensures
        hex_text(data).len() == 2 * data.len(),
        hex_text(data)[2 * i] == "0123456789abcdef"@[data[i] as int / 16],
        hex_text(data)[2 * i + 1] == "0123456789abcdef"@[data[i] as int % 16],
{
    reveal_strlit("0123456789abcdef");
    lemma_hex_digit(data[i] as int / 16);
    lemma_hex_digit(data[i] as int % 16);
}

proof fn lemma_hex_digit(n: int)
    requires
        0 <= n < 16,
    ensures
        hex_digit(n) == "0123456789abcdef"@[n],
{
    reveal_strlit("0123456789abcdef");
    let d = hex_digit(n) as int;
    assert(n < 10 ==> d == 48 + n);
    assert(n >= 10 ==> d == 87 + n);
}

/// The hash of bytes is written as two hexadecimal digits a byte, the high one first.
pub proof fn law_hash_of_bytes_in_hex(data: &[u8], r: String, i: int)
    requires
        call_ensures(sha256_hex, (data,), r),
        0 <= i < 32,
    ensures
        r@.len() == 64,
        r@[2 * i] == "0123456789abcdef"@[sha256(data@)[i] as int / 16],
        r@[2 * i + 1] == "0123456789abcdef"@[sha256(data@)[i] as int % 16],
{
    assert(hex_text(sha256(data@)).len() == 2 * sha256(data@).len());
    law_hash_is_written_in_hex(sha256(data@), i);
}

} // verus!
