use count_kernels::utils::popcnt_u64;

#[test]
fn popcnt_zero() {
    assert_eq!(popcnt_u64(0), 0);
}

#[test]
fn popcnt_all_bits() {
    assert_eq!(popcnt_u64(u64::MAX), 64);
}

#[test]
fn popcnt_exact_values() {
    assert_eq!(popcnt_u64(0b1011), 3);
    assert_eq!(popcnt_u64(1), 1);
    assert_eq!(popcnt_u64(1 << 63), 1);
    assert_eq!(popcnt_u64(0x8000_0000_0000_0001), 2);
}
