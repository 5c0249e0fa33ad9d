//! Transcript digests and hexadecimal text.

use vstd::prelude::*;

verus! {

/// The 64-byte Blake2b digest of `data`.
pub uninterp spec fn blake2b_512_of(data: Seq<u8>) -> Seq<u8>;

/// Relies on `blake2::Blake2b512` through `digest::Digest::digest`: the
/// 64-byte Blake2b digest of `data`, which depends on the bytes alone.
#[verifier::external_body]
fn blake2b_512(data: &[u8]) -> (r: [u8; 64])
    ensures
        r@ == blake2b_512_of(data@),
{
    let digest = <blake2::Blake2b512 as blake2::Digest>::digest(data);
    let mut out = [0u8; 64];
    out.copy_from_slice(&digest);
    out
}

/// Blake2b-512 of `data`.
pub fn hash_bytes(data: &[u8]) -> (r: [u8; 64])
    ensures
        r@ == blake2b_512_of(data@),
{
    blake2b_512(data)
}

/// The lower-case hexadecimal digit of a nibble.
pub open spec fn hex_digit(n: u8) -> u8 {
    if n < 10 {
        (48 + n) as u8
    } else {
        (87 + n) as u8
    }
}

/// Lower-case hexadecimal text of `b`, two digits per byte, high nibble first.
pub open spec fn hex_text(b: Seq<u8>) -> Seq<u8>
    decreases b.len(),
{
    if b.len() == 0 {
        Seq::empty()
    } else {
        hex_text(b.drop_last()) + seq![hex_digit(b.last() / 16), hex_digit(b.last() % 16)]
    }
}

/// The value of a hexadecimal digit of either case.
pub open spec fn hex_value(c: u8) -> Option<u8> {
    if 48 <= c <= 57 {
        Some((c - 48) as u8)
    } else if 65 <= c <= 70 {
        Some((c - 55) as u8)
    } else if 97 <= c <= 102 {
        Some((c - 87) as u8)
    } else {
        None
    }
}

/// Whether `t` is hexadecimal text: an even number of digits of either case.
pub open spec fn is_hex_text(t: Seq<u8>) -> bool {
    &&& t.len() % 2 == 0
    &&& forall|i: int| 0 <= i < t.len() ==> (#[trigger] hex_value(t[i])) is Some
}

/// The bytes that hexadecimal text `t` stands for.
pub open spec fn hex_bytes(t: Seq<u8>) -> Seq<u8> {
    Seq::new(
        (t.len() / 2) as nat,
        |i: int| (hex_value(t[2 * i])->0 * 16 + hex_value(t[2 * i + 1])->0) as u8,
    )
}

/// Relies on `hex::encode`: lower-case digits, two per byte, high nibble first.
#[verifier::external_body]
fn hex_encode(data: &[u8]) -> (r: Vec<u8>)
    ensures
        r@ == hex_text(data@),
{
    hex::encode(data).into_bytes()
}

/// Relies on `hex::decode`: it fails on text of odd length or with a character
/// that is no hexadecimal digit, and otherwise returns the bytes, either case
/// being accepted.
#[verifier::external_body]
fn hex_decode(text: &[u8]) -> (r: Option<Vec<u8>>)
    ensures
        r is Some <==> is_hex_text(text@),
        r matches Some(v) ==> v@ == hex_bytes(text@),
{
    hex::decode(text).ok()
}

/// Lower-case hexadecimal text of `data`.
pub fn to_hex(data: &[u8]) -> (r: Vec<u8>)
    ensures
        r@ == hex_text(data@),
{
    hex_encode(data)
}

/// The bytes written as hexadecimal text in `text`, or `None` where it is not
/// such text.
pub fn from_hex(text: &[u8]) -> (r: Option<Vec<u8>>)
    ensures
        r is Some <==> is_hex_text(text@),
        r matches Some(v) ==> v@ == hex_bytes(text@),
{
    hex_decode(text)
}

} // verus!
