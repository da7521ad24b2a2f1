use handmade::math::{rounded_quotient, wrap_u32, V2, UNITS_PER_METER};

#[test]
fn rounded_quotient_rounds_to_the_nearest() {
    assert_eq!(rounded_quotient(0, 10), 0);
    assert_eq!(rounded_quotient(4, 10), 0);
    assert_eq!(rounded_quotient(6, 10), 1);
    assert_eq!(rounded_quotient(14, 10), 1);
    assert_eq!(rounded_quotient(16, 10), 2);
    assert_eq!(rounded_quotient(-4, 10), 0);
    assert_eq!(rounded_quotient(-6, 10), -1);
    assert_eq!(rounded_quotient(-16, 10), -2);
    assert_eq!(rounded_quotient(100, 1), 100);
    assert_eq!(rounded_quotient(-100, 1), -100);
}

#[test]
fn rounded_quotient_rounds_a_half_away_from_zero() {
    assert_eq!(rounded_quotient(5, 10), 1);
    assert_eq!(rounded_quotient(-5, 10), -1);
    assert_eq!(rounded_quotient(15, 10), 2);
    assert_eq!(rounded_quotient(-15, 10), -2);
    assert_eq!(rounded_quotient(7, 2), 4);
    assert_eq!(rounded_quotient(-7, 2), -4);
    assert_eq!(rounded_quotient(700_000, 1_400_000), 1);
    assert_eq!(rounded_quotient(-700_000, 1_400_000), -1);
    assert_eq!(rounded_quotient(699_999, 1_400_000), 0);
    assert_eq!(rounded_quotient(-699_999, 1_400_000), 0);
}

#[test]
fn rounded_quotient_takes_offsets_wider_than_64_bits() {
    let n: i128 = (i64::MAX as i128) * 2;
    assert_eq!(rounded_quotient(n, 2), i64::MAX as i128);
    assert_eq!(rounded_quotient(-n, 2), -(i64::MAX as i128));
    assert_eq!(rounded_quotient(n + 1, 2), i64::MAX as i128 + 1);
}

#[test]
fn wrap_u32_wraps_both_ways() {
    assert_eq!(wrap_u32(0), 0);
    assert_eq!(wrap_u32(5), 5);
    assert_eq!(wrap_u32(u32::MAX as i128), u32::MAX);
    assert_eq!(wrap_u32(u32::MAX as i128 + 1), 0);
    assert_eq!(wrap_u32(u32::MAX as i128 + 18), 17);
    assert_eq!(wrap_u32(-1), u32::MAX);
    assert_eq!(wrap_u32(-17), u32::MAX - 16);
    assert_eq!(wrap_u32(-(1i128 << 32)), 0);
    assert_eq!(wrap_u32(-(1i128 << 32) - 1), u32::MAX);
    assert_eq!(wrap_u32(3 * (1i128 << 32) + 9), 9);
}

#[test]
fn vector_constructors() {
    assert_eq!(V2::new(3, -4), V2 { x: 3, y: -4 });
    assert_eq!(V2::zero(), V2 { x: 0, y: 0 });
    assert_eq!(V2::default(), V2::zero());
    assert_eq!(UNITS_PER_METER, 1_000_000);
}

#[test]
fn vector_sum_difference_and_negation() {
    let a = V2::new(10, -20);
    let b = V2::new(-3, 5);
    assert_eq!(a + b, V2::new(7, -15));
    assert_eq!(a - b, V2::new(13, -25));
    assert_eq!(-a, V2::new(-10, 20));
    assert_eq!(a + V2::zero(), a);
    assert_eq!(a - a, V2::zero());
}

#[test]
fn vector_products() {
    let a = V2::new(10, -20);
    let b = V2::new(-3, 5);
    assert_eq!(a * 3, V2::new(30, -60));
    assert_eq!(3 * a, V2::new(30, -60));
    assert_eq!(a * 0, V2::zero());
    assert_eq!(a * b, -30 - 100);
    assert_eq!(a * V2::new(1, 0), 10);
    assert_eq!(a * V2::new(0, -1), 20);
}
