//! SHA-256 digests of cache entries, in lowercase hexadecimal.
use vstd::prelude::*;
use sha2::Digest;
use crate::text::{ascii_chars, ascii_string, is_ascii_bytes};

verus! {

/// The SHA-256 digest of `data`.
pub uninterp spec fn sha256(data: Seq<u8>) -> Seq<u8>;

/// Calls `sha2::Sha256::digest`: the contract names the digest and states its
/// length, 32 bytes (the output size of SHA-256).
#[verifier::external_body]
fn sha256_digest(data: &[u8]) -> (r: Vec<u8>)
    ensures
        r@ == sha256(data@),
        r@.len() == 32,
{
    sha2::Sha256::digest(data).to_vec()
}

/// The ASCII code of the lowercase hexadecimal digit for `n < 16`.
pub open spec fn hex_digit(n: u8) -> u8 {
    if n < 10 {
        (48 + n) as u8
    } else {
        (87 + n) as u8
    }
}

/// Lowercase hexadecimal text of `bytes`, two digits per byte, high half first
/// (what `hex::encode` gives).
pub open spec fn hex_lower(bytes: Seq<u8>) -> Seq<u8>
    decreases bytes.len(),
{
    if bytes.len() == 0 {
        Seq::empty()
    } else {
        hex_lower(bytes.drop_last()).push(hex_digit(bytes.last() / 16)).push(
            hex_digit(bytes.last() % 16),
        )
    }
}

proof fn lemma_hex_lower_ascii(bytes: Seq<u8>)
    ensures
        is_ascii_bytes(hex_lower(bytes)),
        hex_lower(bytes).len() == 2 * bytes.len(),
    decreases bytes.len(),
{
    if bytes.len() > 0 {
        lemma_hex_lower_ascii(bytes.drop_last());
    }
}

fn hex_digit_exec(n: u8) -> (r: u8)
    requires
        n < 16,
    ensures
        r == hex_digit(n),
{
    if n < 10 {
        48 + n
    } else {
        87 + n
    }
}

/// `hex::encode`, as bytes.
pub fn to_hex(bytes: &[u8]) -> (r: Vec<u8>)
    ensures
        r@ == hex_lower(bytes@),
{
    let mut out: Vec<u8> = Vec::new();
    let n = bytes.len();
    let mut i: usize = 0;
    while i < n
        invariant
            n == bytes@.len(),
            i <= n,
            out@ == hex_lower(bytes@.subrange(0, i as int)),
        decreases n - i,
    {
        let b = bytes[i];
        out.push(hex_digit_exec(b / 16));
        out.push(hex_digit_exec(b % 16));
        proof {
            let p = bytes@.subrange(0, i + 1);
            assert(p.drop_last() =~= bytes@.subrange(0, i as int));
            assert(p.last() == b);
        }
        i = i + 1;
    }
    assert(bytes@.subrange(0, n as int) =~= bytes@);
    out
}

/// The text of the SHA-256 digest of `data`: 64 lowercase hexadecimal digits.
pub open spec fn digest_text(data: Seq<u8>) -> Seq<char> {
    ascii_chars(hex_lower(sha256(data)))
}

/// The lowercase hexadecimal SHA-256 digest of `data`.
pub fn sha256_hex(data: &[u8]) -> (r: String)
    ensures
        r@ == digest_text(data@),
        r@.len() == 64,
{
    let d = sha256_digest(data);
    let h = to_hex(d.as_slice());
    proof {
        lemma_hex_lower_ascii(d@);
    }
    ascii_string(h.as_slice())
}

/// Whether `data` matches the `expected` digest text. `hash` names the entry
/// being checked.
pub fn integrity_ok(hash: &str, data: &[u8], expected: &str) -> (r: bool)
    ensures
        r == (digest_text(data@) == expected@),
{
    let actual = sha256_hex(data);
    actual == expected.to_string()
}

} // verus!
