use behavior_tree::scalar::{from_count, isqrt, to_count, to_index, HALF, SCALE};

#[test]
fn one_whole_is_a_thousand_units() {
    assert_eq!(SCALE, 1000);
    assert_eq!(HALF, 500);
}

#[test]
fn count_is_the_whole_part() {
    assert_eq!(to_count(0), 0);
    assert_eq!(to_count(999), 0);
    assert_eq!(to_count(1000), 1);
    assert_eq!(to_count(2999), 2);
    assert_eq!(to_count(3000), 3);
    assert_eq!(to_count(-1), 0);
    assert_eq!(to_count(-5000), 0);
    assert_eq!(to_count(i64::MIN), 0);
    assert_eq!(to_count(i64::MAX) as u64, std::cmp::min((i64::MAX / 1000) as u64, usize::MAX as u64));
}

#[test]
fn index_is_the_whole_part_within_32_bits() {
    assert_eq!(to_index(0), 0);
    assert_eq!(to_index(7000), 7);
    assert_eq!(to_index(7999), 7);
    assert_eq!(to_index(-7000), 0);
    assert_eq!(to_index(4_294_967_295_000), u32::MAX);
    assert_eq!(to_index(4_294_967_294_999), u32::MAX - 1);
    assert_eq!(to_index(4_294_967_296_000), u32::MAX);
    assert_eq!(to_index(i64::MAX), u32::MAX);
}

#[test]
fn count_is_written_in_wholes() {
    assert_eq!(from_count(0), 0);
    assert_eq!(from_count(1), 1000);
    assert_eq!(from_count(2), 2000);
    assert_eq!(from_count(12345), 12_345_000);
    assert_eq!(to_count(from_count(41)), 41);
}

#[test]
fn count_beyond_all_quantities_is_the_largest() {
    assert_eq!(from_count(usize::MAX), i64::MAX);
    assert_eq!(from_count((i64::MAX / 1000) as usize), i64::MAX / 1000 * 1000);
    assert_eq!(from_count((i64::MAX / 1000) as usize + 1), i64::MAX);
}

#[test]
fn root_is_rounded_down() {
    assert_eq!(isqrt(0), 0);
    assert_eq!(isqrt(1), 1);
    assert_eq!(isqrt(2), 1);
    assert_eq!(isqrt(3), 1);
    assert_eq!(isqrt(4), 2);
    assert_eq!(isqrt(24), 4);
    assert_eq!(isqrt(25), 5);
    assert_eq!(isqrt(26), 5);
    assert_eq!(isqrt(25_000_000), 5000);
    assert_eq!(isqrt(1_000_000_000_000), 1_000_000);
    assert_eq!(isqrt(999_999_999_999), 999_999);
}

#[test]
fn root_of_the_largest_number() {
    assert_eq!(isqrt(u128::MAX), u64::MAX);
    assert_eq!(isqrt((u64::MAX as u128) * (u64::MAX as u128)), u64::MAX);
    assert_eq!(isqrt((u64::MAX as u128) * (u64::MAX as u128) - 1), u64::MAX - 1);
    assert_eq!(isqrt(1u128 << 126), 1u64 << 63);
}
