//! Proof-of-work generation library for a BLAKE2b-based block puzzle.
//!
//! Given a 32-byte block root and a 32-byte difficulty threshold, the goal is
//! an 8-byte nonce whose BLAKE2b digest of `nonce ++ root` compares
//! greater-or-equal to the threshold, most significant byte first. This crate
//! holds the hashing and comparison primitives, the hex and field parsing for
//! the JSON interface, the work-dispatch queue with per-request cancellation,
//! the nonce search loop, and the quarantine bookkeeping for unreliable
//! accelerator devices.

pub mod bench;
pub mod engine;
pub mod gpu_track;
pub mod hashing;
pub mod hexcodec;
pub mod hints;
pub mod parse;
pub mod rng;
pub mod rpc;
pub mod search;
