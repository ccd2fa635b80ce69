//! The mathematical model shared by every counting kernel: how many positions
//! of a byte sequence hold a given byte, and the lemmas the kernel proofs use.

use vstd::prelude::*;

verus! {

/// Number of positions `i` with `s[i] == t`.
pub open spec fn count_matching(s: Seq<u8>, t: u8) -> nat
    decreases s.len(),
{
    if s.len() == 0 {
        0
    } else {
        (if s[0] == t {
            1nat
        } else {
            0nat
        }) + count_matching(s.skip(1), t)
    }
}

/// Counting distributes over concatenation.
pub proof fn lemma_count_concat(a: Seq<u8>, b: Seq<u8>, t: u8)
    ensures
        count_matching(a + b, t) == count_matching(a, t) + count_matching(b, t),
    decreases a.len(),
{
    if a.len() == 0 {
        assert(a + b =~= b);
    } else {
        assert((a + b).skip(1) =~= a.skip(1) + b);
        lemma_count_concat(a.skip(1), b, t);
    }
}

/// A sequence holds no more matches than elements.
pub proof fn lemma_count_le_len(s: Seq<u8>, t: u8)
    ensures
        count_matching(s, t) <= s.len(),
    decreases s.len(),
{
    if s.len() > 0 {
        lemma_count_le_len(s.skip(1), t);
    }
}

/// Extending a scanned prefix by one element adds one match exactly when that
/// element is the target: the form every forward loop invariant steps by.
pub proof fn lemma_count_take_step(s: Seq<u8>, t: u8, i: int)
    requires
        0 <= i < s.len(),
    ensures
        count_matching(s.take(i + 1), t) == count_matching(s.take(i), t) + (if s[i] == t {
            1nat
        } else {
            0nat
        }),
{
    let one = s.subrange(i, i + 1);
    assert(s.take(i + 1) =~= s.take(i) + one);
    lemma_count_concat(s.take(i), one, t);
    assert(one.skip(1) =~= Seq::<u8>::empty());
    assert(count_matching(Seq::<u8>::empty(), t) == 0);
    assert(one[0] == s[i]);
}

/// Unfolds a counted subrange at its front element.
pub proof fn lemma_count_sub_front(s: Seq<u8>, t: u8, lo: int, hi: int)
    requires
        0 <= lo < hi <= s.len(),
    ensures
        count_matching(s.subrange(lo, hi), t) == (if s[lo] == t {
            1nat
        } else {
            0nat
        }) + count_matching(s.subrange(lo + 1, hi), t),
{
    assert(s.subrange(lo, hi).skip(1) =~= s.subrange(lo + 1, hi));
}

/// Extends a counted subrange by one element at its back.
pub proof fn lemma_count_sub_step(s: Seq<u8>, t: u8, lo: int, j: int)
    requires
        0 <= lo <= j < s.len(),
    ensures
        count_matching(s.subrange(lo, j + 1), t) == count_matching(s.subrange(lo, j), t) + (
        if s[j] == t {
            1nat
        } else {
            0nat
        }),
{
    let one = s.subrange(j, j + 1);
    assert(s.subrange(lo, j + 1) =~= s.subrange(lo, j) + one);
    lemma_count_concat(s.subrange(lo, j), one, t);
    assert(one.skip(1) =~= Seq::<u8>::empty());
    assert(count_matching(Seq::<u8>::empty(), t) == 0);
    assert(one[0] == s[j]);
}

} // verus!
