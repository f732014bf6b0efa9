//! Randomness, behind trusted wrappers. Nothing is promised of the values
//! drawn beyond their size or range.

use vstd::prelude::*;

verus! {

#[verifier::external_type_specification]
#[verifier::external_body]
pub struct ExThreadRng(rand::rngs::ThreadRng);

#[verifier::external_type_specification]
#[verifier::external_body]
pub struct ExXorShiftRng(rand_xorshift::XorShiftRng);

/// Relies on rand::thread_rng: a handle to the thread-local generator.
#[verifier::external_body]
pub(crate) fn thread_rng_handle() -> rand::rngs::ThreadRng {
    rand::thread_rng()
}

/// Relies on Rng::gen_range over `0..n`: a value below `n`. It panics only
/// on an empty range, which `n >= 1` rules out.
#[verifier::external_body]
pub(crate) fn gen_below(rng: &mut rand::rngs::ThreadRng, n: usize) -> (r: usize)
    requires
        n >= 1,
    ensures
        r < n,
{
    rand::Rng::gen_range(rng, 0..n)
}

/// Relies on XorShiftRng::from_rng: a fast generator seeded from the given
/// one. Seeding from the thread-local generator cannot fail, per rand's
/// documentation of ThreadRng's infallible fill.
#[verifier::external_body]
pub fn worker_rng(rng: &mut rand::rngs::ThreadRng) -> rand_xorshift::XorShiftRng {
    rand::SeedableRng::from_rng(rng).expect("Failed to create XorShiftRng")
}

/// Relies on Rng::gen for an 8-byte array: a fresh pseudo-random nonce.
#[verifier::external_body]
pub(crate) fn gen_nonce(rng: &mut rand_xorshift::XorShiftRng) -> (r: Vec<u8>)
    ensures
        r@.len() == 8,
{
    let a: [u8; 8] = rand::Rng::gen(rng);
    a.to_vec()
}

/// Relies on rand::random for a 32-byte array: a fresh random block root.
#[verifier::external_body]
pub(crate) fn random_root() -> (r: Vec<u8>)
    ensures
        r@.len() == 32,
{
    rand::random::<[u8; 32]>().to_vec()
}

/// A fresh thread-local generator handle for callers outside this crate.
pub fn new_thread_rng() -> rand::rngs::ThreadRng {
    thread_rng_handle()
}

} // verus!
