//! Nucleotide occurrence counters: one pass over a byte buffer yields how
//! many bytes equal each of `'A'`, `'C'`, `'G'` and `'T'`. Five strategies —
//! a scalar reference, a naive branching byte-at-a-time scan, a
//! portable 64-byte-block vector scan with sentinel padding, a
//! mask-and-popcount block scan, and a fused block-plus-tail scan — are each
//! proved to return exactly the four per-letter occurrence counts.

use vstd::prelude::*;

use crate::counting::count_matching;
use crate::counting::lemma_count_concat;
use crate::counting::lemma_count_le_len;
use crate::counting::lemma_count_sub_step;
use crate::counting::lemma_count_take_step;
use crate::counting::lemma_count_sub_front;
use crate::utils::lemma_pop_spec_shift_in;
use crate::utils::pop_spec;
use crate::utils::popcnt_u64;
use vstd::arithmetic::power2::lemma2_to64;
use vstd::arithmetic::power2::lemma2_to64_rest;
use vstd::arithmetic::power2::lemma_pow2_strictly_increases;
use vstd::arithmetic::power2::lemma_pow2_unfold;
use vstd::arithmetic::power2::pow2;
use vstd::math::min;

verus! {

/// ASCII `'A'`.
pub const NUC_A: u8 = 65;

/// ASCII `'C'`.
pub const NUC_C: u8 = 67;

/// ASCII `'G'`.
pub const NUC_G: u8 = 71;

/// ASCII `'T'`.
pub const NUC_T: u8 = 84;

/// The four per-letter occurrence counts of a buffer; a pure value type with
/// structural equality.
#[derive(Debug, PartialEq, Eq, Structural)]
pub struct NucleotideCount {
    pub a: u64,
    pub c: u64,
    pub g: u64,
    pub t: u64,
}

impl Default for NucleotideCount {
    /// All four counts start at zero.
    fn default() -> (res: Self)
        ensures
            res.a == 0 && res.c == 0 && res.g == 0 && res.t == 0,
    {
        NucleotideCount { a: 0, c: 0, g: 0, t: 0 }
    }
}

/// `r` holds exactly the per-letter occurrence counts of `s`: the one
/// specification every strategy's postcondition pins its result to.
pub open spec fn counts_match(s: Seq<u8>, r: NucleotideCount) -> bool {
    &&& r.a == count_matching(s, NUC_A)
    &&& r.c == count_matching(s, NUC_C)
    &&& r.g == count_matching(s, NUC_G)
    &&& r.t == count_matching(s, NUC_T)
}

/// Reference strategy: one pass, one four-way dispatch per byte. The oracle
/// the other strategies agree with.
pub fn count_ref(src: &[u8]) -> (res: NucleotideCount)
    ensures
        counts_match(src@, res),
{
    let mut res = NucleotideCount::default();
    let mut i: usize = 0;
    while i < src.len()
        invariant
            i <= src@.len(),
            res.a == count_matching(src@.take(i as int), NUC_A),
            res.c == count_matching(src@.take(i as int), NUC_C),
            res.g == count_matching(src@.take(i as int), NUC_G),
            res.t == count_matching(src@.take(i as int), NUC_T),
        decreases src@.len() - i,
    {
        proof {
            lemma_count_take_step(src@, NUC_A, i as int);
            lemma_count_take_step(src@, NUC_C, i as int);
            lemma_count_take_step(src@, NUC_G, i as int);
            lemma_count_take_step(src@, NUC_T, i as int);
            lemma_count_le_len(src@.take(i + 1), NUC_A);
            lemma_count_le_len(src@.take(i + 1), NUC_C);
            lemma_count_le_len(src@.take(i + 1), NUC_G);
            lemma_count_le_len(src@.take(i + 1), NUC_T);
        }
        let byte = src[i];
        if byte == NUC_A {
            res.a = res.a + 1;
        } else if byte == NUC_C {
            res.c = res.c + 1;
        } else if byte == NUC_G {
            res.g = res.g + 1;
        } else if byte == NUC_T {
            res.t = res.t + 1;
        }
        i = i + 1;
    }
    proof {
        assert(src@.take(src@.len() as int) =~= src@);
    }
    res
}

/// Naive branching strategy: a byte-by-byte scan that runs four
/// compare-and-branch tests per byte into four separate accumulators. The
/// empty buffer is special-cased before the scan, mirroring an
/// instruction-level idiom whose loop bound is the address of the last
/// byte and so needs the buffer to be non-empty.
pub fn count_asm_naive(src: &[u8]) -> (res: NucleotideCount)
    ensures
        counts_match(src@, res),
{
    if src.len() == 0 {
        return NucleotideCount::default();
    }
    let mut a: u64 = 0;
    let mut c: u64 = 0;
    let mut g: u64 = 0;
    let mut t: u64 = 0;
    let mut i: usize = 0;
    while i < src.len()
        invariant
            i <= src@.len(),
            a == count_matching(src@.take(i as int), NUC_A),
            c == count_matching(src@.take(i as int), NUC_C),
            g == count_matching(src@.take(i as int), NUC_G),
            t == count_matching(src@.take(i as int), NUC_T),
        decreases src@.len() - i,
    {
        proof {
            lemma_count_take_step(src@, NUC_A, i as int);
            lemma_count_take_step(src@, NUC_C, i as int);
            lemma_count_take_step(src@, NUC_G, i as int);
            lemma_count_take_step(src@, NUC_T, i as int);
            lemma_count_le_len(src@.take(i + 1), NUC_A);
            lemma_count_le_len(src@.take(i + 1), NUC_C);
            lemma_count_le_len(src@.take(i + 1), NUC_G);
            lemma_count_le_len(src@.take(i + 1), NUC_T);
        }
        let cur = src[i];
        if cur == NUC_A {
            a = a + 1;
        }
        if cur == NUC_C {
            c = c + 1;
        }
        if cur == NUC_G {
            g = g + 1;
        }
        if cur == NUC_T {
            t = t + 1;
        }
        i = i + 1;
    }
    proof {
        assert(src@.take(src@.len() as int) =~= src@);
    }
    NucleotideCount { a, c, g, t }
}

/// One padded 64-byte block, counted lane by lane: lane `i` reads byte
/// `idx + i`, or the sentinel `0x00` for lanes past the end of the buffer.
/// The sentinel equals no target byte, so the result is exactly the count
/// over the in-range part of the block.
fn count_block_lanes(src: &[u8], idx: usize, t: u8) -> (res: u64)
    requires
        idx < src@.len(),
        t != 0,
    ensures
        res == count_matching(
            src@.subrange(idx as int, min(idx as int + 64, src@.len() as int)),
            t,
        ),
        res <= 64,
{
    let mut res: u64 = 0;
    let mut lane: usize = 0;
    while lane < 64
        invariant
            lane <= 64,
            idx < src@.len(),
            t != 0,
            res <= lane,
            res == count_matching(
                src@.subrange(idx as int, min(idx as int + lane as int, src@.len() as int)),
                t,
            ),
        decreases 64 - lane,
    {
        let rem = src.len() - idx;
        let sentinel: u8 = 0;
        let byte = if lane < rem {
            src[idx + lane]
        } else {
            sentinel
        };
        proof {
            if idx + lane < src@.len() {
                lemma_count_sub_step(src@, t, idx as int, idx as int + lane as int);
            }
        }
        if byte == t {
            res = res + 1;
        }
        lane = lane + 1;
    }
    res
}

/// Portable fixed-width vector strategy: the buffer is processed in 64-byte
/// blocks; a short final block is padded with the sentinel `0x00`, which can
/// match none of the four nucleotide bytes, so no separate tail loop is
/// needed.
pub fn count_std_simd(src: &[u8]) -> (res: NucleotideCount)
    ensures
        counts_match(src@, res),
{
    let mut res = NucleotideCount::default();
    let mut idx: usize = 0;
    while idx < src.len()
        invariant
            idx <= src@.len(),
            res.a == count_matching(src@.take(idx as int), NUC_A),
            res.c == count_matching(src@.take(idx as int), NUC_C),
            res.g == count_matching(src@.take(idx as int), NUC_G),
            res.t == count_matching(src@.take(idx as int), NUC_T),
        decreases src@.len() - idx,
    {
        let ca = count_block_lanes(src, idx, NUC_A);
        let cc = count_block_lanes(src, idx, NUC_C);
        let cg = count_block_lanes(src, idx, NUC_G);
        let ct = count_block_lanes(src, idx, NUC_T);
        let next = if src.len() - idx > 64 {
            idx + 64
        } else {
            src.len()
        };
        proof {
            let block = src@.subrange(idx as int, next as int);
            assert(src@.take(next as int) =~= src@.take(idx as int) + block);
            lemma_count_concat(src@.take(idx as int), block, NUC_A);
            lemma_count_concat(src@.take(idx as int), block, NUC_C);
            lemma_count_concat(src@.take(idx as int), block, NUC_G);
            lemma_count_concat(src@.take(idx as int), block, NUC_T);
            lemma_count_le_len(src@.take(next as int), NUC_A);
            lemma_count_le_len(src@.take(next as int), NUC_C);
            lemma_count_le_len(src@.take(next as int), NUC_G);
            lemma_count_le_len(src@.take(next as int), NUC_T);
        }
        res.a = res.a + ca;
        res.c = res.c + cc;
        res.g = res.g + cg;
        res.t = res.t + ct;
        idx = next;
    }
    proof {
        assert(src@.take(src@.len() as int) =~= src@);
    }
    res
}

/// One padded 64-byte block, compared lane by lane into a comparison mask:
/// bit `i` of the result is set exactly when lane `i` (byte `idx + i`, or
/// the sentinel `0x00` past the end of the buffer) equals `t`. The
/// population count of the mask is therefore the occurrence count over the
/// in-range part of the block. The mask is assembled from the highest lane
/// down, shifting one lane's bit in at a time.
fn eq_mask(src: &[u8], idx: usize, t: u8) -> (mask: u64)
    requires
        idx < src@.len(),
        t != 0,
    ensures
        pop_spec(mask as int) == count_matching(
            src@.subrange(idx as int, min(idx as int + 64, src@.len() as int)),
            t,
        ),
{
    let mut mask: u64 = 0;
    let mut j: usize = 0;
    proof {
        lemma2_to64();
    }
    while j < 64
        invariant
            j <= 64,
            idx < src@.len(),
            t != 0,
            mask < pow2(j as nat),
            pop_spec(mask as int) == count_matching(
                src@.subrange(
                    min(idx as int + 64 - j as int, src@.len() as int),
                    min(idx as int + 64, src@.len() as int),
                ),
                t,
            ),
        decreases 64 - j,
    {
        let lane = 63 - j;
        let rem = src.len() - idx;
        let b: u64 = if lane < rem {
            if src[idx + lane] == t {
                1
            } else {
                0
            }
        } else {
            0
        };
        proof {
            lemma2_to64();
            lemma2_to64_rest();
            lemma_pow2_unfold(j as nat + 1);
            if j as nat + 1 < 64 {
                lemma_pow2_strictly_increases(j as nat + 1, 64);
            }
            lemma_pop_spec_shift_in(mask as int, b as int);
            let lo = idx as int + lane as int;
            let hi = min(idx as int + 64, src@.len() as int);
            if lo < src@.len() {
                lemma_count_sub_front(src@, t, lo, hi);
            }
        }
        mask = mask * 2 + b;
        j = j + 1;
    }
    mask
}

/// Wide-intrinsic strategy: the same 64-byte blocking and sentinel padding
/// as the portable vector scan, but each block comparison yields a one-bit-
/// per-lane mask that is reduced with the population-count primitive.
pub fn count_simd_intrinsics(src: &[u8]) -> (res: NucleotideCount)
    ensures
        counts_match(src@, res),
{
    let mut res = NucleotideCount::default();
    let mut idx: usize = 0;
    while idx < src.len()
        invariant
            idx <= src@.len(),
            res.a == count_matching(src@.take(idx as int), NUC_A),
            res.c == count_matching(src@.take(idx as int), NUC_C),
            res.g == count_matching(src@.take(idx as int), NUC_G),
            res.t == count_matching(src@.take(idx as int), NUC_T),
        decreases src@.len() - idx,
    {
        let ma = eq_mask(src, idx, NUC_A);
        let mc = eq_mask(src, idx, NUC_C);
        let mg = eq_mask(src, idx, NUC_G);
        let mt = eq_mask(src, idx, NUC_T);
        let ca = popcnt_u64(ma);
        let cc = popcnt_u64(mc);
        let cg = popcnt_u64(mg);
        let ct = popcnt_u64(mt);
        let next = if src.len() - idx > 64 {
            idx + 64
        } else {
            src.len()
        };
        proof {
            let block = src@.subrange(idx as int, next as int);
            assert(src@.take(next as int) =~= src@.take(idx as int) + block);
            lemma_count_concat(src@.take(idx as int), block, NUC_A);
            lemma_count_concat(src@.take(idx as int), block, NUC_C);
            lemma_count_concat(src@.take(idx as int), block, NUC_G);
            lemma_count_concat(src@.take(idx as int), block, NUC_T);
            lemma_count_le_len(src@.take(next as int), NUC_A);
            lemma_count_le_len(src@.take(next as int), NUC_C);
            lemma_count_le_len(src@.take(next as int), NUC_G);
            lemma_count_le_len(src@.take(next as int), NUC_T);
        }
        res.a = res.a + ca;
        res.c = res.c + cc;
        res.g = res.g + cg;
        res.t = res.t + ct;
        idx = next;
    }
    proof {
        assert(src@.take(src@.len() as int) =~= src@);
    }
    res
}

/// Fused block-plus-tail strategy: as many full 64-byte blocks as fit are
/// reduced through comparison masks and the population-count primitive; the
/// remaining 0 to 63 tail bytes are then scanned byte by byte with the
/// four-way comparison of the naive strategy. No sentinel padding is used:
/// the tail is handled by exact-length scalar logic. A buffer shorter than
/// one block falls straight into the tail scan, and a buffer that is an
/// exact multiple of the block size leaves the tail scan no iterations.
pub fn count_simd_asm(src: &[u8]) -> (res: NucleotideCount)
    ensures
        counts_match(src@, res),
{
    let mut a: u64 = 0;
    let mut c: u64 = 0;
    let mut g: u64 = 0;
    let mut t: u64 = 0;
    let mut idx: usize = 0;
    while src.len() - idx >= 64
        invariant
            idx <= src@.len(),
            a == count_matching(src@.take(idx as int), NUC_A),
            c == count_matching(src@.take(idx as int), NUC_C),
            g == count_matching(src@.take(idx as int), NUC_G),
            t == count_matching(src@.take(idx as int), NUC_T),
        decreases src@.len() - idx,
    {
        let ma = eq_mask(src, idx, NUC_A);
        let mc = eq_mask(src, idx, NUC_C);
        let mg = eq_mask(src, idx, NUC_G);
        let mt = eq_mask(src, idx, NUC_T);
        let ca = popcnt_u64(ma);
        let cc = popcnt_u64(mc);
        let cg = popcnt_u64(mg);
        let ct = popcnt_u64(mt);
        let next = idx + 64;
        proof {
            let block = src@.subrange(idx as int, next as int);
            assert(src@.take(next as int) =~= src@.take(idx as int) + block);
            lemma_count_concat(src@.take(idx as int), block, NUC_A);
            lemma_count_concat(src@.take(idx as int), block, NUC_C);
            lemma_count_concat(src@.take(idx as int), block, NUC_G);
            lemma_count_concat(src@.take(idx as int), block, NUC_T);
            lemma_count_le_len(src@.take(next as int), NUC_A);
            lemma_count_le_len(src@.take(next as int), NUC_C);
            lemma_count_le_len(src@.take(next as int), NUC_G);
            lemma_count_le_len(src@.take(next as int), NUC_T);
        }
        a = a + ca;
        c = c + cc;
        g = g + cg;
        t = t + ct;
        idx = next;
    }
    while idx < src.len()
        invariant
            idx <= src@.len(),
            a == count_matching(src@.take(idx as int), NUC_A),
            c == count_matching(src@.take(idx as int), NUC_C),
            g == count_matching(src@.take(idx as int), NUC_G),
            t == count_matching(src@.take(idx as int), NUC_T),
        decreases src@.len() - idx,
    {
        proof {
            lemma_count_take_step(src@, NUC_A, idx as int);
            lemma_count_take_step(src@, NUC_C, idx as int);
            lemma_count_take_step(src@, NUC_G, idx as int);
            lemma_count_take_step(src@, NUC_T, idx as int);
            lemma_count_le_len(src@.take(idx + 1), NUC_A);
            lemma_count_le_len(src@.take(idx + 1), NUC_C);
            lemma_count_le_len(src@.take(idx + 1), NUC_G);
            lemma_count_le_len(src@.take(idx + 1), NUC_T);
        }
        let cur = src[idx];
        if cur == NUC_A {
            a = a + 1;
        }
        if cur == NUC_C {
            c = c + 1;
        }
        if cur == NUC_G {
            g = g + 1;
        }
        if cur == NUC_T {
            t = t + 1;
        }
        idx = idx + 1;
    }
    proof {
        assert(src@.take(src@.len() as int) =~= src@);
    }
    NucleotideCount { a, c, g, t }
}

/// `b` is one of the four nucleotide byte values.
pub open spec fn is_nucleotide(b: u8) -> bool {
    b == NUC_A || b == NUC_C || b == NUC_G || b == NUC_T
}

/// Number of positions of `s` holding any of the four nucleotide bytes.
pub open spec fn count_nucleotide_bytes(s: Seq<u8>) -> nat
    decreases s.len(),
{
    if s.len() == 0 {
        0
    } else {
        (if is_nucleotide(s[0]) {
            1nat
        } else {
            0nat
        }) + count_nucleotide_bytes(s.skip(1))
    }
}

/// The four per-letter counts partition the nucleotide bytes: no byte value
/// equals two different letters, and a byte matching none is counted by
/// no field.
proof fn lemma_nucleotide_decompose(s: Seq<u8>)
    ensures
        count_nucleotide_bytes(s) == count_matching(s, NUC_A) + count_matching(s, NUC_C)
            + count_matching(s, NUC_G) + count_matching(s, NUC_T),
    decreases s.len(),
{
    if s.len() > 0 {
        lemma_nucleotide_decompose(s.skip(1));
    }
}

/// The nucleotide bytes of a buffer are at most all of its bytes, with
/// equality exactly when every byte is a nucleotide.
proof fn lemma_nucleotide_bytes_le(s: Seq<u8>)
    ensures
        count_nucleotide_bytes(s) <= s.len(),
        count_nucleotide_bytes(s) == s.len() <==> (forall|i: int|
            0 <= i < s.len() ==> is_nucleotide(s[i])),
    decreases s.len(),
{
    if s.len() > 0 {
        lemma_nucleotide_bytes_le(s.skip(1));
        if count_nucleotide_bytes(s) == s.len() {
            assert forall|i: int| 0 <= i < s.len() implies is_nucleotide(s[i]) by {
                if i > 0 {
                    assert(s[i] == s.skip(1)[i - 1]);
                }
            }
        }
        if forall|i: int| 0 <= i < s.len() ==> is_nucleotide(s[i]) {
            assert forall|i: int| 0 <= i < s.skip(1).len() implies is_nucleotide(
                s.skip(1)[i],
            ) by {
                assert(s.skip(1)[i] == s[i + 1]);
            }
            assert(count_nucleotide_bytes(s.skip(1)) == s.skip(1).len());
        }
    }
}

/// Sum invariant: for any result holding the per-letter counts of `s`, the
/// four fields sum to the number of bytes of `s` that are nucleotides; that
/// sum never exceeds the buffer length, and reaches it exactly when every
/// byte is a nucleotide.
pub proof fn lemma_nucleotide_sum(s: Seq<u8>, r: NucleotideCount)
    requires
        counts_match(s, r),
    ensures
        r.a + r.c + r.g + r.t == count_nucleotide_bytes(s),
        count_nucleotide_bytes(s) <= s.len(),
        count_nucleotide_bytes(s) == s.len() <==> (forall|i: int|
            0 <= i < s.len() ==> is_nucleotide(s[i])),
{
    lemma_nucleotide_decompose(s);
    lemma_nucleotide_bytes_le(s);
}

/// Oracle equivalence: the per-letter counts of a buffer determine the
/// result record uniquely. Every strategy's postcondition pins its result
/// to `counts_match`, so any two strategies — or two calls of the same one —
/// return structurally equal records for the same buffer.
pub proof fn lemma_nucleotide_oracle(s: Seq<u8>, r1: NucleotideCount, r2: NucleotideCount)
    requires
        counts_match(s, r1),
        counts_match(s, r2),
    ensures
        r1 == r2,
{
}

} // verus!
