use payments_engine::amount::{Amount, MAX_MANTISSA, MAX_SCALE};

fn dec(mantissa: i128, scale: u32) -> Amount {
    Amount::new(mantissa, scale).unwrap()
}

fn parts(amount: Amount) -> (i128, u32) {
    (amount.mantissa(), amount.scale())
}

#[test]
fn new_keeps_mantissa_and_scale() {
    let a = dec(-12345678, 7);
    assert_eq!(a.mantissa(), -12345678);
    assert_eq!(a.scale(), 7);
}

#[test]
fn new_accepts_the_limits() {
    assert!(Amount::new(MAX_MANTISSA, MAX_SCALE).is_some());
    assert!(Amount::new(-MAX_MANTISSA, 0).is_some());
}

#[test]
fn new_refuses_what_is_out_of_range() {
    assert!(Amount::new(MAX_MANTISSA + 1, 0).is_none());
    assert!(Amount::new(-MAX_MANTISSA - 1, 0).is_none());
    assert!(Amount::new(1, MAX_SCALE + 1).is_none());
    assert!(Amount::new(i128::MAX, 0).is_none());
    assert!(Amount::new(i128::MIN, 0).is_none());
    assert!(Amount::new(0, u32::MAX).is_none());
}

#[test]
fn zero_is_zero() {
    assert_eq!(parts(Amount::zero()), (0, 0));
}

#[test]
fn equality_is_by_value() {
    assert_eq!(dec(50, 1), dec(5, 0));
    assert_eq!(dec(5, 0), dec(50000, 4));
    assert_eq!(dec(0, 0), dec(0, 28));
    assert_eq!(dec(-120, 2), dec(-12, 1));
    assert_ne!(dec(50, 1), dec(51, 1));
    assert_ne!(dec(5, 0), dec(5, 1));
    assert_ne!(dec(5, 0), dec(-5, 0));
    assert_eq!(dec(MAX_MANTISSA, 0), dec(MAX_MANTISSA, 0));
    assert_ne!(dec(MAX_MANTISSA, 0), dec(MAX_MANTISSA, 28));
}

#[test]
fn sums_to_compares_across_scales() {
    assert!(dec(15, 1).sums_to(dec(225, 2), dec(375, 2)));
    assert!(dec(15, 1).sums_to(dec(225, 2), dec(3750, 3)));
    assert!(!dec(15, 1).sums_to(dec(225, 2), dec(376, 2)));
    assert!(dec(5, 0).sums_to(dec(-5, 0), dec(0, 9)));
    assert!(dec(-7, 1).sums_to(dec(2, 1), dec(-5, 1)));
    assert!(!dec(-7, 1).sums_to(dec(2, 1), dec(5, 1)));
}

#[test]
fn sums_to_is_exact_at_the_limits() {
    let max = dec(MAX_MANTISSA, 0);
    let tiny = dec(1, 28);
    assert!(!max.sums_to(tiny, max));
    assert!(max.sums_to(dec(0, 28), max));
    assert!(max.sums_to(dec(-MAX_MANTISSA, 0), dec(0, 0)));
    assert!(dec(MAX_MANTISSA, 28).sums_to(dec(-1, 28), dec(MAX_MANTISSA - 1, 28)));
    assert!(!dec(MAX_MANTISSA, 28).sums_to(dec(-1, 28), dec(MAX_MANTISSA, 28)));
    assert!(dec(7, 0).sums_to(dec(10000000000000000000000000000, 28), dec(8, 0)));
}

#[test]
fn checked_add_adds() {
    assert_eq!(parts(dec(15, 1).checked_add(dec(225, 2)).unwrap()), (375, 2));
    assert_eq!(dec(15, 1).checked_add(dec(-15, 1)).unwrap(), dec(0, 0));
    assert_eq!(dec(1, 4).checked_add(dec(2, 4)).unwrap(), dec(3, 4));
}

#[test]
fn checked_add_refuses_an_overflow() {
    let max = dec(MAX_MANTISSA, 0);
    assert!(max.checked_add(dec(1, 0)).is_none());
    assert!(max.checked_add(max).is_none());
}

#[test]
fn checked_add_refuses_a_rounded_sum() {
    let max = dec(MAX_MANTISSA, 0);
    assert!(max.checked_add(dec(1, 1)).is_none());
    assert!(dec(MAX_MANTISSA - 1, 0).checked_add(dec(1, 28)).is_none());
}

#[test]
fn checked_sub_subtracts() {
    assert_eq!(parts(dec(50, 1).checked_sub(dec(30, 1)).unwrap()), (20, 1));
    assert_eq!(dec(375, 2).checked_sub(dec(15, 1)).unwrap(), dec(225, 2));
    assert_eq!(dec(1, 0).checked_sub(dec(3, 0)).unwrap(), dec(-2, 0));
}

#[test]
fn checked_sub_refuses_an_overflow_and_a_rounded_difference() {
    let max = dec(MAX_MANTISSA, 0);
    assert!(dec(-MAX_MANTISSA, 0).checked_sub(dec(1, 0)).is_none());
    assert!(max.checked_sub(dec(-1, 1)).is_none());
}

#[test]
fn accept_sum_keeps_only_the_exact_sum() {
    let a = dec(15, 1);
    let b = dec(225, 2);
    assert_eq!(Amount::accept_sum(a, b, Some((375, 2))), Some(dec(375, 2)));
    assert_eq!(parts(Amount::accept_sum(a, b, Some((3750, 3))).unwrap()), (3750, 3));
    assert_eq!(Amount::accept_sum(a, b, Some((376, 2))), None);
    assert_eq!(Amount::accept_sum(a, b, Some((15, 1))), None);
    assert_eq!(Amount::accept_sum(a, b, None), None);
    assert_eq!(Amount::accept_sum(a, b, Some((375, 29))), None);
    assert_eq!(Amount::accept_sum(a, b, Some((MAX_MANTISSA + 1, 0))), None);
}

#[test]
fn accept_difference_keeps_only_the_exact_difference() {
    let a = dec(50, 1);
    let b = dec(30, 1);
    assert_eq!(Amount::accept_difference(a, b, Some((2, 0))), Some(dec(20, 1)));
    assert_eq!(Amount::accept_difference(a, b, Some((80, 1))), None);
    assert_eq!(Amount::accept_difference(a, b, Some((50, 1))), None);
    assert_eq!(Amount::accept_difference(a, b, None), None);
    assert_eq!(Amount::accept_difference(a, b, Some((2, 40))), None);
}

#[test]
fn greater_than_orders_by_value() {
    assert!(dec(50, 1).greater_than(dec(30, 1)));
    assert!(!dec(30, 1).greater_than(dec(50, 1)));
    assert!(!dec(50, 1).greater_than(dec(5, 0)));
    assert!(dec(501, 2).greater_than(dec(5, 0)));
    assert!(dec(1, 28).greater_than(dec(0, 0)));
    assert!(dec(0, 0).greater_than(dec(-1, 28)));
    assert!(!dec(-5, 0).greater_than(dec(-49, 1)));
    assert!(dec(-49, 1).greater_than(dec(-5, 0)));
    assert!(dec(MAX_MANTISSA, 0).greater_than(dec(MAX_MANTISSA, 1)));
}

#[test]
fn round_to_leaves_short_fractions_alone() {
    assert_eq!(parts(dec(50, 1).round_to(4)), (50, 1));
    assert_eq!(parts(dec(12345, 4).round_to(4)), (12345, 4));
    assert_eq!(parts(dec(7, 0).round_to(4)), (7, 0));
}

#[test]
fn round_to_rounds_to_nearest() {
    assert_eq!(parts(dec(123456, 5).round_to(4)), (12346, 4));
    assert_eq!(parts(dec(123454, 5).round_to(4)), (12345, 4));
    assert_eq!(parts(dec(31415926535, 10).round_to(4)), (31416, 4));
    assert_eq!(parts(dec(-123456, 5).round_to(4)), (-12346, 4));
    assert_eq!(parts(dec(-123454, 5).round_to(4)), (-12345, 4));
}

#[test]
fn round_to_sends_a_tie_to_the_even_digit() {
    assert_eq!(parts(dec(200005, 5).round_to(4)), (20000, 4));
    assert_eq!(parts(dec(200015, 5).round_to(4)), (20002, 4));
    assert_eq!(parts(dec(200025, 5).round_to(4)), (20002, 4));
    assert_eq!(parts(dec(-200015, 5).round_to(4)), (-20002, 4));
    assert_eq!(parts(dec(-200025, 5).round_to(4)), (-20002, 4));
    assert_eq!(parts(dec(65, 1).round_to(0)), (6, 0));
    assert_eq!(parts(dec(75, 1).round_to(0)), (8, 0));
    assert_eq!(parts(dec(2000250, 6).round_to(4)), (20002, 4));
    assert_eq!(parts(dec(2000251, 6).round_to(4)), (20003, 4));
}

#[test]
fn round_to_handles_small_and_large_values() {
    assert_eq!(parts(dec(4, 5).round_to(4)), (0, 4));
    assert_eq!(parts(dec(-4, 5).round_to(4)), (0, 4));
    assert_eq!(parts(dec(5, 5).round_to(4)), (0, 4));
    assert_eq!(parts(dec(6, 5).round_to(4)), (1, 4));
    assert_eq!(parts(dec(0, 9).round_to(4)), (0, 4));
    assert_eq!(
        parts(dec(MAX_MANTISSA, 28).round_to(4)),
        (79228, 4)
    );
}

#[test]
fn parse_reads_decimals() {
    assert_eq!(parts(Amount::parse("1.50").unwrap()), (150, 2));
    assert_eq!(parts(Amount::parse("5.0").unwrap()), (50, 1));
    assert_eq!(parts(Amount::parse("-0.0001").unwrap()), (-1, 4));
    assert_eq!(parts(Amount::parse("42").unwrap()), (42, 0));
}

#[test]
fn parse_refuses_what_is_no_decimal() {
    assert!(Amount::parse("").is_none());
    assert!(Amount::parse("abc").is_none());
    assert!(Amount::parse("1.2.3").is_none());
}
