//! Fingerprints of secrets (SHA-256, written in lower-case hexadecimal), and
//! reading bytes as UTF-8 text.
use crate::error::PassrsError;
use vstd::prelude::*;
use vstd::utf8::{encode_utf8, valid_utf8};

verus! {

/// The SHA-256 digest of `data` (what `ring::digest::digest` computes).
pub uninterp spec fn sha256_of(data: Seq<u8>) -> Seq<u8>;

/// Computes `ring::digest::digest(&ring::digest::SHA256, data)`. Trusted: the
/// digest is `sha256_of(data)` and has 32 bytes. `ring` panics on inputs of
/// 2^61 bytes or more, which `requires` leaves out.
#[verifier::external_body]
fn sha256(data: &[u8]) -> (r: Vec<u8>)
    requires
        data@.len() < 0x2000_0000_0000_0000,
    ensures
        r@ == sha256_of(data@),
        r@.len() == 32,
{
    ring::digest::digest(&ring::digest::SHA256, data).as_ref().to_vec()
}

/// The lower-case hexadecimal digit for `d < 16`.
pub open spec fn hex_digit(d: int) -> char {
    if d < 10 {
        ((48 + d) as u32) as char
    } else {
        ((87 + d) as u32) as char
    }
}

/// `bytes` in lower-case hexadecimal: two digits for each byte, the high half
/// first.
pub open spec fn hex_lower(bytes: Seq<u8>) -> Seq<char>
    decreases bytes.len(),
{
    if bytes.len() == 0 {
        Seq::empty()
    } else {
        hex_lower(bytes.drop_last()) + seq![
            hex_digit(bytes.last() as int / 16),
            hex_digit(bytes.last() as int % 16),
        ]
    }
}

/// Encodes `bytes` with `data_encoding::HEXLOWER`. Trusted: the encoding is
/// lower-case hexadecimal, two digits for each byte, the high half first.
#[verifier::external_body]
fn hex_encode(bytes: &[u8]) -> (r: String)
    ensures
        r@ == hex_lower(bytes@),
{
    data_encoding::HEXLOWER.encode(bytes)
}

/// The fingerprint of some contents: their SHA-256 digest in lower-case
/// hexadecimal.
pub open spec fn fingerprint(data: Seq<u8>) -> Seq<char> {
    hex_lower(sha256_of(data))
}

/// The fingerprint of `data`.
pub fn content_hash(data: &[u8]) -> (r: String)
    requires
        data@.len() < 0x2000_0000_0000_0000,
    ensures
        r@ == fingerprint(data@),
{
    let d = sha256(data);
    hex_encode(d.as_slice())
}

/// Where `std::str::from_utf8` stops on bytes that are not UTF-8: how many
/// bytes before it are valid, and how long the bad sequence is (`None` where
/// the bytes end in the middle of a character).
pub uninterp spec fn utf8_error_at(bytes: Seq<u8>) -> (usize, Option<u8>);

/// Reads `bytes` as text with `std::str::from_utf8`. Trusted: it succeeds
/// exactly on valid UTF-8, with the text that the bytes encode; otherwise it
/// reports `utf8_error_at(bytes)`.
#[verifier::external_body]
fn from_utf8(bytes: &[u8]) -> (r: Result<String, (usize, Option<u8>)>)
    ensures
        r is Ok <==> valid_utf8(bytes@),
        r matches Ok(s) ==> encode_utf8(s@) == bytes@,
        r matches Err(e) ==> e == utf8_error_at(bytes@),
{
    match std::str::from_utf8(bytes) {
        Ok(s) => Ok(s.to_owned()),
        Err(e) => Err((e.valid_up_to(), e.error_len().map(|n| n as u8))),
    }
}

/// The text that `bytes` encode, or the error that says where they stop
/// being UTF-8.
pub fn utf8_text(bytes: &[u8]) -> (r: Result<String, PassrsError>)
    ensures
        r is Ok <==> valid_utf8(bytes@),
        r matches Ok(s) ==> encode_utf8(s@) == bytes@,
        r is Err ==> r == Err::<String, PassrsError>(
            PassrsError::InvalidUtf8 { valid_up_to: utf8_error_at(bytes@).0, error_len: utf8_error_at(bytes@).1 },
        ),
{
    match from_utf8(bytes) {
        Ok(s) => Ok(s),
        Err((valid_up_to, error_len)) => Err(PassrsError::InvalidUtf8 { valid_up_to, error_len }),
    }
}

} // verus!
