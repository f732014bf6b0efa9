//! Hex encoding and decoding, specified byte for byte.

use vstd::prelude::*;

verus! {

/// ASCII hex digit: `0-9`, `a-f` or `A-F`.
pub open spec fn is_hex_digit(b: u8) -> bool {
    (48 <= b <= 57) || (97 <= b <= 102) || (65 <= b <= 70)
}

/// Numeric value of an ASCII hex digit.
pub open spec fn hex_digit_val(b: u8) -> u8 {
    if 48 <= b <= 57 {
        (b - 48) as u8
    } else if 97 <= b <= 102 {
        (b - 87) as u8
    } else {
        (b - 55) as u8
    }
}

/// Lowercase ASCII digit for a value below 16.
pub open spec fn hex_char_of(n: u8) -> u8 {
    if n < 10 {
        (n + 48) as u8
    } else {
        (n + 87) as u8
    }
}

/// A well-formed hex string: even length, hex digits throughout.
pub open spec fn is_hex_str(s: Seq<u8>) -> bool {
    s.len() % 2 == 0 && forall|i: int| 0 <= i < s.len() ==> is_hex_digit(#[trigger] s[i])
}

/// The bytes a hex string denotes: one byte per digit pair, high digit first.
pub open spec fn hex_decoded(s: Seq<u8>) -> Seq<u8> {
    Seq::new(
        s.len() / 2,
        |i: int| (hex_digit_val(s[2 * i]) * 16 + hex_digit_val(s[2 * i + 1])) as u8,
    )
}

/// The lowercase hex spelling of a byte string: two digits per byte, high
/// digit first.
pub open spec fn hex_encoded(b: Seq<u8>) -> Seq<u8> {
    Seq::new(
        b.len() * 2,
        |i: int|
            if i % 2 == 0 {
                hex_char_of((b[i / 2] / 16) as u8)
            } else {
                hex_char_of((b[i / 2] % 16) as u8)
            },
    )
}

/// Relies on hex::decode: it succeeds exactly on even-length strings of
/// ASCII hex digits (upper or lower case), and yields one byte per digit
/// pair, high digit first.
#[verifier::external_body]
pub(crate) fn hex_decode(s: &[u8]) -> (r: Option<Vec<u8>>)
    ensures
        r is Some <==> is_hex_str(s@),
        r is Some ==> r.unwrap()@ == hex_decoded(s@),
{
    hex::decode(s).ok()
}

/// Relies on hex::encode: two lowercase digits per byte, high digit first.
#[verifier::external_body]
pub(crate) fn hex_encode(b: &Vec<u8>) -> (r: Vec<u8>)
    ensures
        r@ == hex_encoded(b@),
{
    hex::encode(b.as_slice()).into_bytes()
}

} // verus!
