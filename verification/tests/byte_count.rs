use count_kernels::byte_count::count_bytes_ref;
use count_kernels::byte_count::count_bytes_x86;
use count_kernels::byte_count::count_bytes_x86_jne;

#[test]
fn count_bytes_x86_empty() {
    assert_eq!(count_bytes_x86(&[], 0), 0,);
}

#[test]
fn count_bytes_one() {
    assert_eq!(count_bytes_x86(&[1], 0), 0,);
}

#[test]
fn count_bytes_one_eq() {
    assert_eq!(count_bytes_x86(&[2], 0), 0,);
}

#[test]
fn long_case_no_error() {
    let mut buf = [0; 2048];
    rand::fill(&mut buf);
    count_bytes_x86(&buf, 128);
}

#[test]
fn byte_strategies_agree_on_mixed_content() {
    let buf: Vec<u8> = (0..=255u8).cycle().take(517).collect();
    for tgt in [0u8, 1, 65, 128, 200, 255] {
        let reference = count_bytes_ref(&buf, tgt);
        assert_eq!(count_bytes_x86(&buf, tgt), reference);
        assert_eq!(count_bytes_x86_jne(&buf, tgt), reference);
    }
}

#[test]
fn byte_strategies_agree_when_target_absent() {
    let buf = [7u8; 100];
    assert_eq!(count_bytes_ref(&buf, 9), 0);
    assert_eq!(count_bytes_x86(&buf, 9), 0);
    assert_eq!(count_bytes_x86_jne(&buf, 9), 0);
}

#[test]
fn byte_strategies_agree_when_every_byte_matches() {
    let buf = [42u8; 129];
    assert_eq!(count_bytes_ref(&buf, 42), 129);
    assert_eq!(count_bytes_x86(&buf, 42), 129);
    assert_eq!(count_bytes_x86_jne(&buf, 42), 129);
}

#[test]
fn byte_count_empty_is_zero_for_any_target() {
    for tgt in [0u8, 1, 127, 128, 255] {
        assert_eq!(count_bytes_ref(&[], tgt), 0);
        assert_eq!(count_bytes_x86(&[], tgt), 0);
        assert_eq!(count_bytes_x86_jne(&[], tgt), 0);
    }
}

#[test]
fn byte_count_exact_value() {
    let buf = [3u8, 0, 3, 3, 1, 3, 0];
    assert_eq!(count_bytes_ref(&buf, 3), 4);
    assert_eq!(count_bytes_x86(&buf, 3), 4);
    assert_eq!(count_bytes_x86_jne(&buf, 3), 4);
}

#[test]
fn byte_count_repeated_calls_agree() {
    let buf: Vec<u8> = (0..200u8).map(|x| x.wrapping_mul(31)).collect();
    assert_eq!(count_bytes_x86(&buf, 62), count_bytes_x86(&buf, 62));
    assert_eq!(count_bytes_x86_jne(&buf, 62), count_bytes_x86_jne(&buf, 62));
    assert_eq!(count_bytes_ref(&buf, 62), count_bytes_ref(&buf, 62));
}
