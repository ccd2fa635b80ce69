use count_kernels::nucleotide::count_asm_naive;
use count_kernels::nucleotide::count_ref;
use count_kernels::nucleotide::count_simd_asm;
use count_kernels::nucleotide::count_simd_intrinsics;
use count_kernels::nucleotide::count_std_simd;
use count_kernels::nucleotide::NucleotideCount;

#[test]
fn count_simd_asm_empty() {
    assert_eq!(count_std_simd(b""), NucleotideCount::default());
}

#[test]
fn count_simd_asm_one() {
    assert_eq!(count_std_simd(b"A"), NucleotideCount { a: 1, ..NucleotideCount::default() });
}

#[test]
fn count_simd_asm_zero() {
    assert_eq!(count_std_simd(b"\0"), NucleotideCount { a: 0, ..NucleotideCount::default() });
}

#[test]
fn count_simd_asm_full_block() {
    assert_eq!(
        count_std_simd(&[b'A'; 64]),
        NucleotideCount { a: 64, ..NucleotideCount::default() }
    );
}

#[test]
fn count_simd_asm_full_block_plus_one() {
    assert_eq!(
        count_std_simd(&[b'A'; 65]),
        NucleotideCount { a: 65, ..NucleotideCount::default() }
    );
}

#[test]
fn count_nucleotides_std_simd_empty() {
    assert_eq!(count_std_simd(b""), NucleotideCount::default());
}

#[test]
fn count_nucleotides_std_simd_one() {
    assert_eq!(
        count_std_simd(&[b'A'; 64]),
        NucleotideCount { a: 64, ..NucleotideCount::default() },
    );
    assert_eq!(
        count_std_simd(&[b'C'; 64]),
        NucleotideCount { c: 64, ..NucleotideCount::default() },
    );
    assert_eq!(
        count_std_simd(&[b'G'; 64]),
        NucleotideCount { g: 64, ..NucleotideCount::default() },
    );
    assert_eq!(
        count_std_simd(&[b'T'; 64]),
        NucleotideCount { t: 64, ..NucleotideCount::default() },
    );
}

#[test]
fn count_nucleotides_std_simd_one_each() {
    assert_eq!(count_std_simd(b"ACGT"), NucleotideCount { a: 1, c: 1, g: 1, t: 1 },);
}

fn sample_buffers() -> Vec<Vec<u8>> {
    vec![
        Vec::new(),
        b"A".to_vec(),
        b"\0".to_vec(),
        b"ACGT".to_vec(),
        b"ACGTACGTACxyzACG\0TTT".to_vec(),
        vec![b'A'; 64],
        vec![b'T'; 65],
        vec![b'G'; 63],
        vec![b'C'; 128],
        (0..=255u8).collect(),
        (0..=255u8).cycle().take(777).collect(),
    ]
}

#[test]
fn nucleotide_strategies_agree() {
    for buf in sample_buffers() {
        let reference = count_ref(&buf);
        assert_eq!(count_asm_naive(&buf), reference);
        assert_eq!(count_std_simd(&buf), reference);
        assert_eq!(count_simd_intrinsics(&buf), reference);
        assert_eq!(count_simd_asm(&buf), reference);
    }
}

#[test]
fn nucleotide_sum_matches_nucleotide_bytes() {
    for buf in sample_buffers() {
        let expected: u64 = buf
            .iter()
            .filter(|b| matches!(**b, b'A' | b'C' | b'G' | b'T'))
            .count() as u64;
        let res = count_ref(&buf);
        assert_eq!(res.a + res.c + res.g + res.t, expected);
        assert!(res.a + res.c + res.g + res.t <= buf.len() as u64);
    }
}

#[test]
fn nucleotide_exact_counts_on_mixed_buffer() {
    let buf = b"AAGCTTTCGAxxAC\0GT";
    let expected = NucleotideCount { a: 4, c: 3, g: 3, t: 4 };
    assert_eq!(count_ref(buf), expected);
    assert_eq!(count_asm_naive(buf), expected);
    assert_eq!(count_std_simd(buf), expected);
    assert_eq!(count_simd_intrinsics(buf), expected);
    assert_eq!(count_simd_asm(buf), expected);
}

#[test]
fn nucleotide_block_boundaries() {
    for len in [0usize, 1, 63, 64, 65, 127, 128, 129] {
        let buf = vec![b'G'; len];
        let expected = NucleotideCount { g: len as u64, ..NucleotideCount::default() };
        assert_eq!(count_ref(&buf), expected);
        assert_eq!(count_asm_naive(&buf), expected);
        assert_eq!(count_std_simd(&buf), expected);
        assert_eq!(count_simd_intrinsics(&buf), expected);
        assert_eq!(count_simd_asm(&buf), expected);
    }
}

#[test]
fn nucleotide_repeated_calls_agree() {
    let buf: Vec<u8> = (0..=255u8).cycle().take(300).collect();
    assert_eq!(count_ref(&buf), count_ref(&buf));
    assert_eq!(count_asm_naive(&buf), count_asm_naive(&buf));
    assert_eq!(count_std_simd(&buf), count_std_simd(&buf));
    assert_eq!(count_simd_intrinsics(&buf), count_simd_intrinsics(&buf));
    assert_eq!(count_simd_asm(&buf), count_simd_asm(&buf));
}

#[test]
fn nucleotide_default_is_zero() {
    let d = NucleotideCount::default();
    assert_eq!(d, NucleotideCount { a: 0, c: 0, g: 0, t: 0 });
}
