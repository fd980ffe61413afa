//! Digests and encodings computed by outside crates: SHA-256 (`sha2`),
//! lower-case hexadecimal (`hex`) and standard Base64 (`base64`).
use crate::text::hex_byte;
use vstd::prelude::*;

verus! {

/// The SHA-256 digest of `bytes`, as `sha2::Sha256::digest` computes it.
pub uninterp spec fn sha256(bytes: Seq<u8>) -> Seq<u8>;

/// The character of the standard Base64 alphabet
/// (`A`-`Z`, `a`-`z`, `0`-`9`, `+`, `/`) for the six-bit value `v`.
pub open spec fn base64_char(v: int) -> char {
    if v < 26 {
        (65 + v) as char
    } else if v < 52 {
        (97 + v - 26) as char
    } else if v < 62 {
        (48 + v - 52) as char
    } else if v == 62 {
        '+'
    } else {
        '/'
    }
}

/// The standard, padded Base64 text of `bytes`: each group of three bytes
/// as four characters of six bits each, a last group of one or two bytes
/// padded with `=`.
pub open spec fn base64_standard(bytes: Seq<u8>) -> Seq<char>
    decreases bytes.len(),
{
    if bytes.len() == 0 {
        seq![]
    } else {
        let b0 = bytes[0] as int;
        let b1 = if bytes.len() > 1 { bytes[1] as int } else { 0 };
        let b2 = if bytes.len() > 2 { bytes[2] as int } else { 0 };
        let first = base64_char(b0 / 4);
        let second = base64_char((b0 % 4) * 16 + b1 / 16);
        let third = if bytes.len() > 1 { base64_char((b1 % 16) * 4 + b2 / 64) } else { '=' };
        let fourth = if bytes.len() > 2 { base64_char(b2 % 64) } else { '=' };
        seq![first, second, third, fourth] + if bytes.len() > 3 {
            base64_standard(bytes.skip(3))
        } else {
            seq![]
        }
    }
}

/// Lower-case hexadecimal text of `bytes`, two digits per byte.
pub open spec fn hex_text(bytes: Seq<u8>) -> Seq<char>
    decreases bytes.len(),
{
    if bytes.len() == 0 {
        Seq::empty()
    } else {
        hex_text(bytes.drop_last()) + hex_byte(bytes.last())
    }
}

/// `sha2::Sha256::digest`: the 32-byte digest of `bytes`. The digest is the
/// name `sha256`; its value is not stated here.
#[verifier::external_body]
fn sha256_digest(bytes: &[u8]) -> (d: [u8; 32])
    ensures
        d@ == sha256(bytes@),
{
    <sha2::Sha256 as sha2::Digest>::digest(bytes).into()
}

/// `hex::encode`: each byte as two lower-case hexadecimal digits, in order.
#[verifier::external_body]
fn hex_encode(bytes: &[u8]) -> (s: String)
    ensures
        s@ == hex_text(bytes@),
{
    hex::encode(bytes)
}

/// `Engine::encode` of `base64::engine::general_purpose::STANDARD` (the
/// standard alphabet, with padding): the text `base64_standard`, four
/// characters per started group of three bytes. It panics when the encoded
/// length overflows `usize`, which `requires` leaves out.
#[verifier::external_body]
pub(crate) fn base64_encode(bytes: &[u8]) -> (s: String)
    requires
        (bytes@.len() + 2) / 3 * 4 <= usize::MAX,
    ensures
        s@ == base64_standard(bytes@),
        s@.len() == (bytes@.len() + 2) / 3 * 4,
{
    base64::Engine::encode(&base64::engine::general_purpose::STANDARD, bytes)
}

/// The lower-case hexadecimal SHA-256 digest of `bytes`.
pub fn sha256_hex(bytes: &[u8]) -> (s: String)
    ensures
        s@ == hex_text(sha256(bytes@)),
{
    let d = sha256_digest(bytes);
    hex_encode(&d)
}

} // verus!
