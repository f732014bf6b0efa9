//! The nonce search loop a CPU worker runs between lock acquisitions.

use vstd::prelude::*;
use crate::hashing::{meets, work_valid};
use crate::rng::gen_nonce;

verus! {

/// How many nonces a worker tries before it checks the shared completion
/// flag again.
pub const SEARCH_ITERATIONS: u64 = 262144;

/// The number a byte string denotes read as a little-endian integer.
pub open spec fn le_val(s: Seq<u8>) -> nat
    decreases s.len(),
{
    if s.len() == 0 {
        0
    } else {
        (s[0] + 256 * le_val(s.skip(1))) as nat
    }
}

/// 256 to the power `n`.
pub open spec fn pow256(n: nat) -> nat
    decreases n,
{
    if n == 0 {
        1
    } else {
        256 * pow256((n - 1) as nat)
    }
}

proof fn lemma_le_val_bound(s: Seq<u8>)
    ensures
        le_val(s) < pow256(s.len()),
    decreases s.len(),
{
    if s.len() > 0 {
        lemma_le_val_bound(s.skip(1));
    }
}

proof fn lemma_le_val_all_max(s: Seq<u8>)
    requires
        forall|j: int| 0 <= j < s.len() ==> s[j] == 255,
    ensures
        le_val(s) == pow256(s.len()) - 1,
    decreases s.len(),
{
    if s.len() > 0 {
        assert forall|j: int| 0 <= j < s.skip(1).len() implies s.skip(1)[j] == 255 by {
            assert(s.skip(1)[j] == s[j + 1]);
        }
        lemma_le_val_all_max(s.skip(1));
    }
}

proof fn lemma_le_val_not_max(s: Seq<u8>, k: int)
    requires
        0 <= k < s.len(),
        s[k] != 255,
    ensures
        le_val(s) < pow256(s.len()) - 1,
    decreases k,
{
    lemma_le_val_bound(s.skip(1));
    if k == 0 {
        assert(s[0] < 255);
    } else {
        assert(s.skip(1)[k - 1] == s[k]);
        lemma_le_val_not_max(s.skip(1), k - 1);
    }
}

/// A carry that stopped at position `k` adds exactly one: bytes below `k`
/// rolled over from 255 to 0, byte `k` went up by one, the rest is
/// untouched.
proof fn lemma_carry(pre: Seq<u8>, post: Seq<u8>, k: int)
    requires
        pre.len() == post.len(),
        0 <= k < pre.len(),
        forall|j: int| 0 <= j < k ==> pre[j] == 255 && post[j] == 0,
        pre[k] < 255,
        post[k] == pre[k] + 1,
        forall|j: int| k < j < pre.len() ==> post[j] == pre[j],
    ensures
        le_val(post) == le_val(pre) + 1,
    decreases k,
{
    if k == 0 {
        assert(pre.skip(1) =~= post.skip(1));
    } else {
        assert forall|j: int| 0 <= j < k - 1 implies pre.skip(1)[j] == 255 && post.skip(1)[j]
            == 0 by {
            assert(pre.skip(1)[j] == pre[j + 1]);
            assert(post.skip(1)[j] == post[j + 1]);
        }
        assert(pre.skip(1)[k - 1] == pre[k]);
        assert(post.skip(1)[k - 1] == post[k]);
        assert forall|j: int| k - 1 < j < pre.skip(1).len() implies post.skip(1)[j] == pre.skip(
            1,
        )[j] by {
            assert(pre.skip(1)[j] == pre[j + 1]);
            assert(post.skip(1)[j] == post[j + 1]);
        }
        lemma_carry(pre.skip(1), post.skip(1), k - 1);
        assert(pre[0] == 255 && post[0] == 0);
    }
}

/// The successor of a nonce under the little-endian byte-carry increment:
/// plus one, wrapping to zero at the top.
pub open spec fn next_nonce(s: Seq<u8>) -> Seq<u8>
    decreases s.len(),
{
    if s.len() == 0 {
        s
    } else if s[0] != 255 {
        s.update(0, (s[0] + 1) as u8)
    } else {
        seq![0u8] + next_nonce(s.skip(1))
    }
}

/// The `k`-th successor of a nonce.
pub open spec fn nth_nonce(s: Seq<u8>, k: nat) -> Seq<u8>
    decreases k,
{
    if k == 0 {
        s
    } else {
        next_nonce(nth_nonce(s, (k - 1) as nat))
    }
}

proof fn lemma_next_nonce_form(pre: Seq<u8>, post: Seq<u8>, k: int)
    requires
        pre.len() == post.len(),
        0 <= k < pre.len(),
        forall|j: int| 0 <= j < k ==> pre[j] == 255 && post[j] == 0,
        pre[k] < 255,
        post[k] == pre[k] + 1,
        forall|j: int| k < j < pre.len() ==> post[j] == pre[j],
    ensures
        post == next_nonce(pre),
    decreases k,
{
    if k == 0 {
        assert(post =~= pre.update(0, (pre[0] + 1) as u8));
    } else {
        assert forall|j: int| 0 <= j < k - 1 implies pre.skip(1)[j] == 255 && post.skip(1)[j]
            == 0 by {
            assert(pre.skip(1)[j] == pre[j + 1]);
            assert(post.skip(1)[j] == post[j + 1]);
        }
        assert(pre.skip(1)[k - 1] == pre[k]);
        assert(post.skip(1)[k - 1] == post[k]);
        assert forall|j: int| k - 1 < j < pre.skip(1).len() implies post.skip(1)[j] == pre.skip(
            1,
        )[j] by {
            assert(pre.skip(1)[j] == pre[j + 1]);
            assert(post.skip(1)[j] == post[j + 1]);
        }
        lemma_next_nonce_form(pre.skip(1), post.skip(1), k - 1);
        assert(pre[0] == 255);
        assert(post =~= seq![0u8] + post.skip(1));
    }
}

proof fn lemma_next_nonce_all_max(pre: Seq<u8>, post: Seq<u8>)
    requires
        pre.len() == post.len(),
        forall|j: int| 0 <= j < pre.len() ==> pre[j] == 255,
        forall|j: int| 0 <= j < post.len() ==> post[j] == 0,
    ensures
        post == next_nonce(pre),
    decreases pre.len(),
{
    if pre.len() == 0 {
        assert(post =~= pre);
    } else {
        assert forall|j: int| 0 <= j < pre.skip(1).len() implies pre.skip(1)[j] == 255 by {
            assert(pre.skip(1)[j] == pre[j + 1]);
        }
        assert forall|j: int| 0 <= j < post.skip(1).len() implies post.skip(1)[j] == 0 by {
            assert(post.skip(1)[j] == post[j + 1]);
        }
        lemma_next_nonce_all_max(pre.skip(1), post.skip(1));
        assert(post =~= seq![0u8] + post.skip(1));
    }
}

/// Advance a nonce by one with the little-endian byte-carry increment:
/// it becomes its `next_nonce` successor — numerically, the nonce grows
/// by one, wrapping to zero at the top.
pub fn advance_nonce(out: &mut Vec<u8>)
    requires
        old(out)@.len() == 8,
    ensures
        final(out)@.len() == 8,
        final(out)@ == next_nonce(old(out)@),
        le_val(final(out)@) == if le_val(old(out)@) == pow256(8) - 1 {
            0nat
        } else {
            le_val(old(out)@) + 1
        },
{
    let mut i: usize = 0;
    while i < 8
        invariant
            out@.len() == 8,
            old(out)@.len() == 8,
            i <= 8,
            forall|j: int| 0 <= j < i ==> old(out)@[j] == 255 && out@[j] == 0,
            forall|j: int| i <= j < 8 ==> out@[j] == old(out)@[j],
        decreases 8 - i,
    {
        let b = out[i];
        if b != 255 {
            out[i] = b + 1;
            proof {
                lemma_carry(old(out)@, out@, i as int);
                lemma_le_val_not_max(old(out)@, i as int);
                lemma_next_nonce_form(old(out)@, out@, i as int);
            }
            return ;
        }
        out[i] = 0;
        i += 1;
    }
    proof {
        lemma_le_val_all_max(old(out)@);
        assert forall|j: int| 0 <= j < out@.len() implies out@[j] == 0 by {}
        lemma_le_val_all_zero(out@);
        lemma_next_nonce_all_max(old(out)@, out@);
    }
}

proof fn lemma_le_val_all_zero(s: Seq<u8>)
    requires
        forall|j: int| 0 <= j < s.len() ==> s[j] == 0,
    ensures
        le_val(s) == 0,
    decreases s.len(),
{
    if s.len() > 0 {
        assert forall|j: int| 0 <= j < s.skip(1).len() implies s.skip(1)[j] == 0 by {
            assert(s.skip(1)[j] == s[j + 1]);
        }
        lemma_le_val_all_zero(s.skip(1));
    }
}

/// One search round from a given starting nonce: test up to `iterations`
/// consecutive nonces (little-endian increment, wrapping) against the
/// threshold. The result is the first nonce in that window whose digest
/// meets the threshold; `None` means every nonce in the window fails.
pub fn search_round(
    start: Vec<u8>,
    root: &Vec<u8>,
    threshold: &Vec<u8>,
    iterations: u64,
) -> (r: Option<Vec<u8>>)
    requires
        start@.len() == 8,
        root@.len() == 32,
        threshold@.len() == 32,
    ensures
        r matches Some(w) ==> w@.len() == 8 && meets(root@, w@, threshold@) && (exists|k: nat|
            k < iterations && w@ == nth_nonce(start@, k) && (forall|j: nat|
                j < k ==> !meets(root@, #[trigger] nth_nonce(start@, j), threshold@))),
        r is None ==> forall|k: nat|
            k < iterations ==> !meets(root@, #[trigger] nth_nonce(start@, k), threshold@),
{
    let mut out = start;
    let mut k: u64 = 0;
    while k < iterations
        invariant
            out@.len() == 8,
            root@.len() == 32,
            threshold@.len() == 32,
            k <= iterations,
            out@ == nth_nonce(start@, k as nat),
            forall|j: nat| j < k ==> !meets(root@, #[trigger] nth_nonce(start@, j), threshold@),
        decreases iterations - k,
    {
        let (valid, _digest) = work_valid(root, &out, threshold);
        if valid {
            return Some(out);
        }
        advance_nonce(&mut out);
        proof {
            assert(nth_nonce(start@, (k + 1) as nat) == next_nonce(nth_nonce(start@, k as nat)));
        }
        k += 1;
    }
    None
}

/// One search round from a randomly drawn starting nonce, as a worker
/// runs it. Whatever start is drawn, a returned nonce is valid: its
/// digest meets the threshold. The exact window behaviour is stated by
/// `search_round`, which takes the start as an argument.
pub fn search_round_random(
    rng: &mut rand_xorshift::XorShiftRng,
    root: &Vec<u8>,
    threshold: &Vec<u8>,
    iterations: u64,
) -> (r: Option<Vec<u8>>)
    requires
        root@.len() == 32,
        threshold@.len() == 32,
    ensures
        r matches Some(w) ==> w@.len() == 8 && meets(root@, w@, threshold@),
{
    let start = gen_nonce(rng);
    search_round(start, root, threshold, iterations)
}

} // verus!
