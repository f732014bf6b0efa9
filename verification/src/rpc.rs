//! Verified pieces of the request handlers: response fields for
//! generation, validation and status.

use vstd::prelude::*;
use crate::hashing::{meets, pow_digest, rev, reverse_bytes, work_valid, work_value};
use crate::hexcodec::{hex_encode, hex_encoded};

verus! {

/// The two fields of a successful `work_generate` response: the nonce in
/// external (reversed) byte order as hex, and the achieved digest as hex.
pub fn generate_response(root: &Vec<u8>, work: &Vec<u8>) -> (r: (Vec<u8>, Vec<u8>))
    requires
        root@.len() == 32,
        work@.len() == 8,
    ensures
        r.0@ == hex_encoded(rev(work@)),
        r.1@ == hex_encoded(pow_digest(work@, root@)),
{
    let reversed = reverse_bytes(work);
    let work_hex = hex_encode(&reversed);
    let digest = work_value(root, work);
    let digest_hex = hex_encode(&digest);
    (work_hex, digest_hex)
}

/// The two fields of a `work_validate` response, for a nonce already in
/// internal (hash-input) byte order: the verdict, and the achieved digest
/// as hex.
pub fn validate_response(root: &Vec<u8>, work: &Vec<u8>, threshold: &Vec<u8>) -> (r: (
    bool,
    Vec<u8>,
))
    requires
        root@.len() == 32,
        work@.len() == 8,
        threshold@.len() == 32,
    ensures
        r.0 == meets(root@, work@, threshold@),
        r.1@ == hex_encoded(pow_digest(work@, root@)),
{
    let (valid, digest) = work_valid(root, work, threshold);
    let digest_hex = hex_encode(&digest);
    (valid, digest_hex)
}

/// The `generating` field of a status response: `"1"` while a job is
/// active, `"0"` otherwise.
pub fn generating_flag(active: bool) -> (r: &'static str)
    ensures
        active ==> r@ == "1"@,
        !active ==> r@ == "0"@,
{
    if active {
        "1"
    } else {
        "0"
    }
}

} // verus!
