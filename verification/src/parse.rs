//! Validation of hex-encoded JSON fields into fixed-width byte vectors,
//! and the decimal `count` field.

use vstd::prelude::*;
use crate::hexcodec::{hex_decode, is_hex_str, hex_decoded};
use crate::hashing::rev;

verus! {

/// Why a hex field was rejected.
#[derive(PartialEq, Eq, Structural, Debug, Clone, Copy)]
pub enum HexJsonError {
    Empty,
    InvalidHex,
    TooLong,
    TooShort,
}

/// `dec`, right-aligned into `width` bytes with zero padding on the left.
pub open spec fn right_aligned(dec: Seq<u8>, width: nat) -> Seq<u8> {
    Seq::new(
        width,
        |i: int|
            if i < width - dec.len() {
                0u8
            } else {
                dec[i - (width - dec.len())]
            },
    )
}

/// What parsing a hex field yields: the field must be a hex string (absent
/// or non-string values count as invalid hex), decode to at least one byte,
/// to no more than `width` bytes, and, unless short values are allowed, to
/// exactly `width` bytes. Short values are right-aligned into zeros.
pub open spec fn parse_hex_spec(value: Option<Seq<u8>>, width: nat, allow_short: bool) -> Result<
    Seq<u8>,
    HexJsonError,
> {
    if value is None || !is_hex_str(value.unwrap()) {
        Err(HexJsonError::InvalidHex)
    } else {
        let dec = hex_decoded(value.unwrap());
        if dec.len() == 0 {
            Err(HexJsonError::Empty)
        } else if !allow_short && dec.len() < width {
            Err(HexJsonError::TooShort)
        } else if dec.len() > width {
            Err(HexJsonError::TooLong)
        } else {
            Ok(right_aligned(dec, width))
        }
    }
}

/// The view of an optional byte slice.
pub open spec fn opt_view(value: Option<&[u8]>) -> Option<Seq<u8>> {
    match value {
        Some(s) => Some(s@),
        None => None,
    }
}

/// Decodes one hex field into exactly `width` bytes, right-aligning short
/// inputs when `allow_short` holds, as `parse_hex_spec` lays down.
pub fn parse_hex_json(value: Option<&[u8]>, width: usize, allow_short: bool) -> (r: Result<
    Vec<u8>,
    HexJsonError,
>)
    ensures
        (r is Ok) == (parse_hex_spec(opt_view(value), width as nat, allow_short) is Ok),
        r matches Ok(v) ==> parse_hex_spec(opt_view(value), width as nat, allow_short)
            == Ok::<Seq<u8>, HexJsonError>(v@) && v@.len() == width,
        r matches Err(e) ==> parse_hex_spec(opt_view(value), width as nat, allow_short)
            == Err::<Seq<u8>, HexJsonError>(e),
{
    let s = match value {
        Some(s) => s,
        None => {
            return Err(HexJsonError::InvalidHex);
        },
    };
    let bytes = match hex_decode(s) {
        Some(b) => b,
        None => {
            return Err(HexJsonError::InvalidHex);
        },
    };
    if bytes.len() == 0 {
        return Err(HexJsonError::Empty);
    }
    if !allow_short && bytes.len() < width {
        return Err(HexJsonError::TooShort);
    }
    if bytes.len() > width {
        return Err(HexJsonError::TooLong);
    }
    let pad = width - bytes.len();
    let mut out: Vec<u8> = Vec::new();
    let mut i: usize = 0;
    while i < pad
        invariant
            i <= pad,
            out@.len() == i,
            forall|j: int| 0 <= j < i ==> out@[j] == 0u8,
        decreases pad - i,
    {
        out.push(0u8);
        i += 1;
    }
    let mut j: usize = 0;
    while j < bytes.len()
        invariant
            j <= bytes@.len(),
            pad + bytes@.len() == width,
            out@.len() == pad + j,
            forall|k: int| 0 <= k < pad ==> out@[k] == 0u8,
            forall|k: int| pad <= k < out@.len() ==> out@[k] == bytes@[k - pad],
        decreases bytes@.len() - j,
    {
        out.push(bytes[j]);
        j += 1;
    }
    proof {
        assert(out@ =~= right_aligned(hex_decoded(s@), width as nat));
    }
    Ok(out)
}

/// The `hash` field: exactly 32 bytes of hex.
pub fn parse_hash_json(value: Option<&[u8]>) -> (r: Result<Vec<u8>, HexJsonError>)
    ensures
        (r is Ok) == (parse_hex_spec(opt_view(value), 32, false) is Ok),
        r matches Ok(v) ==> parse_hex_spec(opt_view(value), 32, false)
            == Ok::<Seq<u8>, HexJsonError>(v@) && v@.len() == 32,
        r matches Err(e) ==> parse_hex_spec(opt_view(value), 32, false)
            == Err::<Seq<u8>, HexJsonError>(e),
{
    parse_hex_json(value, 32, false)
}

/// The `threshold` field: exactly 32 bytes of hex.
pub fn parse_threshold_json(value: Option<&[u8]>) -> (r: Result<Vec<u8>, HexJsonError>)
    ensures
        (r is Ok) == (parse_hex_spec(opt_view(value), 32, false) is Ok),
        r matches Ok(v) ==> parse_hex_spec(opt_view(value), 32, false)
            == Ok::<Seq<u8>, HexJsonError>(v@) && v@.len() == 32,
        r matches Err(e) ==> parse_hex_spec(opt_view(value), 32, false)
            == Err::<Seq<u8>, HexJsonError>(e),
{
    parse_hex_json(value, 32, false)
}

/// The `work` field: up to 8 bytes of hex, right-aligned, then reversed
/// from the external byte order into the order the hash consumes.
pub fn parse_work_json(value: Option<&[u8]>) -> (r: Result<Vec<u8>, HexJsonError>)
    ensures
        (r is Ok) == (parse_hex_spec(opt_view(value), 8, true) is Ok),
        r matches Ok(v) ==> parse_hex_spec(opt_view(value), 8, true)
            == Ok::<Seq<u8>, HexJsonError>(rev(v@)) && v@.len() == 8,
        r matches Err(e) ==> parse_hex_spec(opt_view(value), 8, true)
            == Err::<Seq<u8>, HexJsonError>(e) && e != HexJsonError::TooShort,
{
    match parse_hex_json(value, 8, true) {
        Ok(out) => {
            let r = crate::hashing::reverse_bytes(&out);
            proof {
                crate::hashing::lemma_rev_rev(out@);
            }
            Ok(r)
        },
        Err(e) => Err(e),
    }
}

/// All bytes are ASCII decimal digits.
pub open spec fn all_digits(s: Seq<u8>) -> bool {
    forall|i: int| 0 <= i < s.len() ==> 48 <= #[trigger] s[i] <= 57
}

/// The number a digit string denotes.
pub open spec fn dec_val(s: Seq<u8>) -> nat
    decreases s.len(),
{
    if s.len() == 0 {
        0
    } else {
        (dec_val(s.drop_last()) * 10 + (s.last() - 48)) as nat
    }
}

/// A longer digit prefix never denotes a smaller number.
proof fn lemma_dec_val_prefix_le(s: Seq<u8>, j: int, k: int)
    requires
        all_digits(s),
        0 <= j <= k <= s.len(),
    ensures
        dec_val(s.take(j)) <= dec_val(s.take(k)),
    decreases k - j,
{
    if j < k {
        lemma_dec_val_prefix_le(s, j, k - 1);
        assert(s.take(k).drop_last() =~= s.take(k - 1));
        assert(dec_val(s.take(k)) == dec_val(s.take(k - 1)) * 10 + (s.take(k).last() - 48));
        assert(dec_val(s.take(k - 1)) * 10 >= dec_val(s.take(k - 1)));
    }
}

/// The `count` field given as a decimal string: accepted exactly when it is
/// a nonempty string of digits whose value is positive and fits in a `u64`.
pub fn parse_count(s: &[u8]) -> (r: Option<u64>)
    ensures
        r matches Some(v) ==> s@.len() > 0 && all_digits(s@) && dec_val(s@) == v && v >= 1,
        r is None ==> s@.len() == 0 || !all_digits(s@) || dec_val(s@) > u64::MAX || dec_val(s@)
            == 0,
{
    if s.len() == 0 {
        return None;
    }
    let mut acc: u64 = 0;
    let mut i: usize = 0;
    while i < s.len()
        invariant
            i <= s@.len(),
            acc == dec_val(s@.take(i as int)),
            forall|j: int| 0 <= j < i ==> 48 <= #[trigger] s@[j] <= 57,
        decreases s@.len() - i,
    {
        let b = s[i];
        if b < 48 || b > 57 {
            return None;
        }
        let d = b - 48;
        if acc > (u64::MAX - d as u64) / 10 {
            proof {
                assert(acc * 10 + d > u64::MAX) by (nonlinear_arith)
                    requires
                        acc > (u64::MAX - d as u64) / 10,
                        0 <= d <= 9,
                ;
                assert(s@.take(i + 1).drop_last() =~= s@.take(i as int));
                assert(dec_val(s@.take(i + 1)) == acc * 10 + d);
                if all_digits(s@) {
                    lemma_dec_val_prefix_le(s@, i + 1, s@.len() as int);
                    assert(s@.take(s@.len() as int) =~= s@);
                }
            }
            return None;
        }
        proof {
            assert(acc * 10 + d <= u64::MAX) by (nonlinear_arith)
                requires
                    acc <= (u64::MAX - d as u64) / 10,
                    0 <= d <= 9,
            ;
            assert(s@.take(i + 1).drop_last() =~= s@.take(i as int));
        }
        acc = acc * 10 + d as u64;
        i += 1;
    }
    proof {
        assert(s@.take(s@.len() as int) =~= s@);
    }
    if acc == 0 {
        return None;
    }
    Some(acc)
}

/// The `count` field given as a JSON number: accepted exactly when positive.
pub fn count_from_number(x: u64) -> (r: Option<u64>)
    ensures
        x > 0 ==> r == Some(x),
        x == 0 ==> r is None,
{
    if x > 0 {
        Some(x)
    } else {
        None
    }
}

} // verus!
