//! The population-count primitive: the number of set bits in a 64-bit mask,
//! used by the mask-reducing nucleotide kernels, with its mathematical model.

use vstd::prelude::*;

use vstd::arithmetic::power2::lemma2_to64;
use vstd::arithmetic::power2::lemma2_to64_rest;
use vstd::arithmetic::power2::lemma_pow2_unfold;
use vstd::arithmetic::power2::pow2;

verus! {

/// Number of set bits in the binary representation of a non-negative integer.
pub open spec fn pop_spec(x: int) -> nat
    decreases x,
{
    if x <= 0 {
        0
    } else {
        (x % 2) as nat + pop_spec(x / 2)
    }
}

/// A value below `2^n` has at most `n` set bits.
pub proof fn lemma_pop_spec_bound(x: int, n: nat)
    requires
        0 <= x < pow2(n),
    ensures
        pop_spec(x) <= n,
    decreases n,
{
    if n == 0 {
        lemma2_to64();
    } else {
        lemma_pow2_unfold(n);
        lemma_pop_spec_bound(x / 2, (n - 1) as nat);
    }
}

/// Appending a low bit to a value adds that bit to its population count.
pub proof fn lemma_pop_spec_shift_in(m: int, b: int)
    requires
        0 <= m,
        0 <= b <= 1,
    ensures
        pop_spec(2 * m + b) == pop_spec(m) + b,
{
    assert((2 * m + b) % 2 == b);
    assert((2 * m + b) / 2 == m);
    if 2 * m + b > 0 {
        assert(pop_spec(2 * m + b) == b + pop_spec(m));
    }
}

/// Counts the set bits of `x`: the result is exactly the population count,
/// and never above 64.
pub fn popcnt_u64(x: u64) -> (res: u64)
    ensures
        res == pop_spec(x as int),
        res <= 64,
{
    proof {
        lemma2_to64();
        lemma2_to64_rest();
        lemma_pop_spec_bound(x as int, 64);
    }
    let mut v: u64 = x;
    let mut res: u64 = 0;
    while v > 0
        invariant
            res + pop_spec(v as int) == pop_spec(x as int),
            pop_spec(x as int) <= 64,
        decreases v,
    {
        res = res + v % 2;
        v = v / 2;
    }
    res
}

} // verus!
