//! Rates as exact fractions.

use netpeek::rate::Rate;

fn rate(bytes: u128, nanos: u64) -> Rate {
    Rate { bytes, nanos }
}

#[test]
fn per_second_rounds_down_and_saturates() {
    assert_eq!(rate(10, 3_000_000_000).per_second(), 3);
    assert_eq!(rate(1, 1).per_second(), 1_000_000_000);
    assert_eq!(rate(5, 0).per_second(), 0);
    assert_eq!(rate(u64::MAX as u128, 1_000_000_000).per_second(), u64::MAX);
    assert_eq!(rate(u64::MAX as u128 + 1, 1_000_000_000).per_second(), u64::MAX);
    assert_eq!(rate(u128::MAX, 1).per_second(), u64::MAX);
}

#[test]
fn rounded_goes_to_the_even_neighbour() {
    assert_eq!(rate(1, 2_000_000_000).rounded(), 0); // 0.5
    assert_eq!(rate(3, 2_000_000_000).rounded(), 2); // 1.5
    assert_eq!(rate(5, 2_000_000_000).rounded(), 2); // 2.5
    assert_eq!(rate(7, 4_000_000_000).rounded(), 2); // 1.75
    assert_eq!(rate(5, 4_000_000_000).rounded(), 1); // 1.25
    assert_eq!(rate(9, 0).rounded(), 0);
    assert_eq!(rate(u128::MAX, 1).rounded(), u128::MAX);
    assert_eq!(rate(u128::MAX, 1_000_000_000).rounded(), u128::MAX);
    assert_eq!(rate(u128::MAX - 1, 1_000_000_000).rounded(), u128::MAX - 1);
}

#[test]
fn idle_is_below_one_byte_per_second() {
    assert!(rate(0, 5).is_idle());
    assert!(rate(5, 0).is_idle());
    assert!(rate(1, 1_000_000_001).is_idle());
    assert!(!rate(1, 1_000_000_000).is_idle());
}

#[test]
fn comparison_is_exact() {
    assert!(rate(1, 3).is_below(&rate(1, 2)));
    assert!(!rate(2, 6).is_below(&rate(1, 3)));
    assert!(!rate(1, 3).is_below(&rate(2, 6)));
    assert!(rate(7, 0).is_below(&rate(1, u64::MAX)));
    assert!(rate(u128::MAX - 1, u64::MAX).is_below(&rate(u128::MAX, u64::MAX)));
    assert!(rate(u128::MAX, u64::MAX).is_below(&rate(u128::MAX, u64::MAX - 1)));
    assert!(!rate(u128::MAX, 1).is_below(&rate(u128::MAX, 2)));
}
