//! The proof-of-work hash and the threshold comparison.

use vstd::prelude::*;

verus! {

/// The 32-byte BLAKE2b digest of `work ++ root`. The digest is a pure
/// function of its two arguments; it is named here and computed by the
/// blake2 crate in `work_value`.
pub uninterp spec fn pow_digest(work: Seq<u8>, root: Seq<u8>) -> Seq<u8>;

/// Lexicographic greater-or-equal on equal-length byte strings, most
/// significant byte first: the numeric order of the strings read as
/// big-endian integers. The empty string is greater-or-equal to itself.
pub open spec fn lex_ge(x: Seq<u8>, y: Seq<u8>) -> bool
    decreases x.len(),
{
    if x.len() == 0 {
        true
    } else if x[0] > y[0] {
        true
    } else if x[0] < y[0] {
        false
    } else {
        lex_ge(x.skip(1), y.skip(1))
    }
}

/// The nonce `work` solves the puzzle for `root` at `threshold`.
pub open spec fn meets(root: Seq<u8>, work: Seq<u8>, threshold: Seq<u8>) -> bool {
    lex_ge(pow_digest(work, root), threshold)
}

/// Byte reversal; the wire format carries nonces reversed relative to the
/// order they are hashed in.
pub open spec fn rev(s: Seq<u8>) -> Seq<u8> {
    Seq::new(s.len(), |i: int| s[s.len() - 1 - i])
}

/// Relies on blake2's `Blake2bVar` together with digest's `Update` and
/// `VariableOutput`: a 32-byte BLAKE2b digest over `work` followed by
/// `root`, a pure function of those bytes, named `pow_digest` above.
#[verifier::external_body]
pub fn work_value(root: &Vec<u8>, work: &Vec<u8>) -> (r: Vec<u8>)
    requires
        root@.len() == 32,
        work@.len() == 8,
    ensures
        r@ == pow_digest(work@, root@),
        r@.len() == 32,
{
    let mut buf = [0u8; 32];
    let mut hasher = <blake2::Blake2bVar as digest::VariableOutput>::new(buf.len())
        .expect("Unsupported hash length");
    digest::Update::update(&mut hasher, work.as_slice());
    digest::Update::update(&mut hasher, root.as_slice());
    digest::VariableOutput::finalize_variable(hasher, &mut buf).unwrap();
    buf.to_vec()
}

/// If the first `i` bytes agree, the comparison is decided by the tails.
pub proof fn lemma_lex_ge_skip(x: Seq<u8>, y: Seq<u8>, i: int)
    requires
        x.len() == y.len(),
        0 <= i <= x.len(),
        forall|j: int| 0 <= j < i ==> x[j] == y[j],
    ensures
        lex_ge(x, y) == lex_ge(x.skip(i), y.skip(i)),
    decreases i,
{
    if i > 0 {
        assert(x[0] == y[0]);
        assert forall|j: int| 0 <= j < i - 1 implies x.skip(1)[j] == y.skip(1)[j] by {
            assert(x.skip(1)[j] == x[j + 1]);
            assert(y.skip(1)[j] == y[j + 1]);
        }
        lemma_lex_ge_skip(x.skip(1), y.skip(1), i - 1);
        assert(x.skip(1).skip(i - 1) =~= x.skip(i));
        assert(y.skip(1).skip(i - 1) =~= y.skip(i));
    } else {
        assert(x.skip(0) =~= x);
        assert(y.skip(0) =~= y);
    }
}

/// Big-endian byte comparison: `x >= y` read as 256-bit integers, ties
/// counting as greater-or-equal.
pub fn quick_greater_or_equal(x: &Vec<u8>, y: &Vec<u8>) -> (r: bool)
    requires
        x@.len() == 32,
        y@.len() == 32,
    ensures
        r == lex_ge(x@, y@),
{
    let mut i: usize = 0;
    while i < 32
        invariant
            x@.len() == 32,
            y@.len() == 32,
            i <= 32,
            forall|j: int| 0 <= j < i ==> x@[j] == y@[j],
        decreases 32 - i,
    {
        if x[i] > y[i] {
            proof {
                lemma_lex_ge_skip(x@, y@, i as int);
                assert(x@.skip(i as int)[0] == x@[i as int]);
                assert(y@.skip(i as int)[0] == y@[i as int]);
            }
            return true;
        }
        if x[i] < y[i] {
            proof {
                lemma_lex_ge_skip(x@, y@, i as int);
                assert(x@.skip(i as int)[0] == x@[i as int]);
                assert(y@.skip(i as int)[0] == y@[i as int]);
            }
            return false;
        }
        i += 1;
    }
    proof {
        lemma_lex_ge_skip(x@, y@, 32);
    }
    true
}

/// The digest of `(root, work)` and whether it reaches `threshold`:
/// the result is valid exactly when the digest compares greater-or-equal
/// to the threshold, most significant byte first.
pub fn work_valid(root: &Vec<u8>, work: &Vec<u8>, threshold: &Vec<u8>) -> (r: (bool, Vec<u8>))
    requires
        root@.len() == 32,
        work@.len() == 8,
        threshold@.len() == 32,
    ensures
        r.0 == meets(root@, work@, threshold@),
        r.1@ == pow_digest(work@, root@),
        r.1@.len() == 32,
{
    let result_threshold = work_value(root, work);
    let ge = quick_greater_or_equal(&result_threshold, threshold);
    (ge, result_threshold)
}

/// Reverses a byte vector; used to move nonces between their hash-input
/// order and the byte-reversed order the wire carries.
pub fn reverse_bytes(v: &Vec<u8>) -> (r: Vec<u8>)
    ensures
        r@ == rev(v@),
{
    let mut r: Vec<u8> = Vec::new();
    let mut i: usize = v.len();
    while i > 0
        invariant
            i <= v@.len(),
            r@.len() == v@.len() - i,
            forall|j: int| 0 <= j < r@.len() ==> r@[j] == v@[v@.len() - 1 - j],
        decreases i,
    {
        i -= 1;
        r.push(v[i]);
    }
    proof {
        assert(r@ =~= rev(v@));
    }
    r
}

/// Reversal is an involution.
pub proof fn lemma_rev_rev(s: Seq<u8>)
    ensures
        rev(rev(s)) == s,
{
    assert(rev(rev(s)) =~= s);
}

/// Round trip: a nonce handed out in external (reversed) byte order and
/// resubmitted for validation is judged exactly as the internal nonce was,
/// and achieves the same digest.
pub proof fn lemma_external_round_trip(root: Seq<u8>, work: Seq<u8>, threshold: Seq<u8>)
    ensures
        meets(root, rev(rev(work)), threshold) == meets(root, work, threshold),
        pow_digest(rev(rev(work)), root) == pow_digest(work, root),
{
    lemma_rev_rev(work);
}

/// An all-zero threshold is met by every digest.
pub proof fn lemma_zero_threshold(x: Seq<u8>, y: Seq<u8>)
    requires
        x.len() == y.len(),
        forall|i: int| 0 <= i < y.len() ==> y[i] == 0,
    ensures
        lex_ge(x, y),
    decreases x.len(),
{
    if x.len() > 0 {
        if x[0] == y[0] {
            assert forall|i: int| 0 <= i < y.skip(1).len() implies y.skip(1)[i] == 0 by {
                assert(y.skip(1)[i] == y[i + 1]);
            }
            lemma_zero_threshold(x.skip(1), y.skip(1));
        }
    }
}

/// An all-0xFF threshold is met only by the all-0xFF digest.
pub proof fn lemma_max_threshold(x: Seq<u8>, y: Seq<u8>)
    requires
        x.len() == y.len(),
        forall|i: int| 0 <= i < y.len() ==> y[i] == 0xFF,
    ensures
        lex_ge(x, y) <==> x == y,
    decreases x.len(),
{
    if x.len() == 0 {
        assert(x =~= y);
    } else {
        assert(y[0] == 0xFF);
        if x[0] == y[0] {
            assert forall|i: int| 0 <= i < y.skip(1).len() implies y.skip(1)[i] == 0xFF by {
                assert(y.skip(1)[i] == y[i + 1]);
            }
            lemma_max_threshold(x.skip(1), y.skip(1));
            if lex_ge(x, y) {
                assert(x.skip(1) == y.skip(1));
                assert forall|i: int| 0 <= i < x.len() implies x[i] == y[i] by {
                    if i > 0 {
                        assert(x.skip(1)[i - 1] == x[i]);
                        assert(y.skip(1)[i - 1] == y[i]);
                    }
                }
                assert(x =~= y);
            }
            if x == y {
                assert(x.skip(1) =~= y.skip(1));
            }
        } else {
            assert(x[0] < y[0]);
            assert(!lex_ge(x, y));
            assert(x != y);
        }
    }
}

} // verus!
