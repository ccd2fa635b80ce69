//! Target-byte occurrence counters: a reference scan and two
//! instruction-level counting idioms (a conditional-move one and a
//! branching one), each proved to return exactly the number of positions
//! holding the target byte.

use vstd::prelude::*;

use crate::counting::count_matching;
use crate::counting::lemma_count_take_step;

verus! {

/// Reference strategy: a straightforward linear scan.
pub fn count_bytes_ref(bytes: &[u8], tgt: u8) -> (res: usize)
    ensures
        res == count_matching(bytes@, tgt),
{
    let mut res: usize = 0;
    let mut i: usize = 0;
    while i < bytes.len()
        invariant
            i <= bytes@.len(),
            res == count_matching(bytes@.take(i as int), tgt),
        decreases bytes@.len() - i,
    {
        proof {
            lemma_count_take_step(bytes@, tgt, i as int);
            crate::counting::lemma_count_le_len(bytes@.take(i + 1), tgt);
        }
        if bytes[i] == tgt {
            res = res + 1;
        }
        i = i + 1;
    }
    proof {
        assert(bytes@.take(bytes@.len() as int) =~= bytes@);
    }
    res
}

/// Conditional-move strategy: the per-byte branch is replaced by computing a
/// 0-or-1 equality predicate and accumulating it unconditionally. The empty
/// buffer is special-cased before the scan, mirroring an instruction-level
/// idiom whose loop bound is the address of the last byte and so needs the
/// buffer to be non-empty.
pub fn count_bytes_x86(bytes: &[u8], tgt: u8) -> (res: usize)
    ensures
        res == count_matching(bytes@, tgt),
{
    if bytes.len() == 0 {
        return 0;
    }
    let mut res: usize = 0;
    let mut i: usize = 0;
    while i < bytes.len()
        invariant
            i <= bytes@.len(),
            res == count_matching(bytes@.take(i as int), tgt),
        decreases bytes@.len() - i,
    {
        proof {
            lemma_count_take_step(bytes@, tgt, i as int);
            crate::counting::lemma_count_le_len(bytes@.take(i + 1), tgt);
        }
        let eql: usize = if bytes[i] == tgt {
            1
        } else {
            0
        };
        res = res + eql;
        i = i + 1;
    }
    proof {
        assert(bytes@.take(bytes@.len() as int) =~= bytes@);
    }
    res
}

/// Branching strategy: a per-byte compare-and-branch that increments only on
/// a match. Same empty-buffer special case and loop-bound shape as the
/// conditional-move strategy.
pub fn count_bytes_x86_jne(bytes: &[u8], tgt: u8) -> (res: usize)
    ensures
        res == count_matching(bytes@, tgt),
{
    if bytes.len() == 0 {
        return 0;
    }
    let mut res: usize = 0;
    let mut i: usize = 0;
    while i < bytes.len()
        invariant
            i <= bytes@.len(),
            res == count_matching(bytes@.take(i as int), tgt),
        decreases bytes@.len() - i,
    {
        proof {
            lemma_count_take_step(bytes@, tgt, i as int);
            crate::counting::lemma_count_le_len(bytes@.take(i + 1), tgt);
        }
        if bytes[i] == tgt {
            res = res + 1;
        }
        i = i + 1;
    }
    proof {
        assert(bytes@.take(bytes@.len() as int) =~= bytes@);
    }
    res
}

/// Oracle equivalence: the occurrence count of a target byte in a buffer
/// determines a strategy's result uniquely. Every strategy's postcondition
/// pins its result to `count_matching`, so any two of them — or two calls
/// of the same one — return the same count for the same buffer and target.
pub proof fn lemma_byte_count_oracle(s: Seq<u8>, tgt: u8, r1: usize, r2: usize)
    requires
        r1 == count_matching(s, tgt),
        r2 == count_matching(s, tgt),
    ensures
        r1 == r2,
{
}

} // verus!
