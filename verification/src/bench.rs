//! Verified pieces of the benchmark action.

use vstd::prelude::*;
use crate::rng::random_root;

verus! {

/// `count` fresh random 32-byte roots to benchmark against.
pub fn benchmark_roots(count: u64) -> (r: Vec<Vec<u8>>)
    requires
        count <= usize::MAX,
    ensures
        r@.len() == count,
        forall|i: int| 0 <= i < r@.len() ==> (#[trigger] r@[i])@.len() == 32,
{
    let mut roots: Vec<Vec<u8>> = Vec::new();
    let mut k: u64 = 0;
    while k < count
        invariant
            k <= count,
            count <= usize::MAX,
            roots@.len() == k,
            forall|i: int| 0 <= i < roots@.len() ==> (#[trigger] roots@[i])@.len() == 32,
        decreases count - k,
    {
        roots.push(random_root());
        k += 1;
    }
    roots
}

/// The reported per-sample average: total duration divided by the sample
/// count, rounded down.
pub fn benchmark_average(duration: u64, count: u64) -> (r: u64)
    requires
        count >= 1,
    ensures
        r == duration / count,
{
    duration / count
}

} // verus!
