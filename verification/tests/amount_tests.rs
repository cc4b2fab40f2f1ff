use payments_engine::account::Account;
use payments_engine::amount::{Amount, MAX_MANTISSA};

fn amt(mantissa: i128, scale: u32) -> Amount {
    Amount::new(mantissa, scale).unwrap()
}

#[test]
fn addition_is_exact_at_the_larger_scale() {
    // 1.5 + 2.25 == 3.75
    let sum = amt(15, 1).checked_add(&amt(225, 2)).unwrap();
    assert_eq!(sum, amt(375, 2));
}

#[test]
fn subtraction_is_exact() {
    // 10 - 0.0001 == 9.9999
    let diff = amt(10, 0).checked_sub(&amt(1, 4)).unwrap();
    assert_eq!(diff, amt(99999, 4));
}

#[test]
fn addition_reports_overflow_instead_of_rounding() {
    let max = amt(MAX_MANTISSA, 0);
    assert_eq!(max.checked_add(&amt(1, 0)), None);
    assert_eq!(max.checked_add(&amt(1, 28)), None);
}

#[test]
fn equality_compares_values_not_representations() {
    // 1.0 == 1.00, at different scales
    assert_eq!(amt(10, 1), amt(100, 2));
    assert_ne!(amt(10, 1), amt(101, 2));
}

#[test]
fn lt_compares_values_across_scales() {
    assert!(amt(9999, 4).lt(&amt(1, 0)));
    assert!(!amt(1, 0).lt(&amt(10000, 4)));
    assert!(amt(-1, 0).lt(&amt(0, 0)));
}

#[test]
fn rescaling_rounds_ties_away_from_zero() {
    // 1.00005 -> 1.0001 at four places
    assert_eq!(amt(100005, 5).rescale_down(4), amt(10001, 4));
    // 1.00004 -> 1.0000
    assert_eq!(amt(100004, 5).rescale_down(4), amt(10000, 4));
    // -1.00005 -> -1.0001
    assert_eq!(amt(-100005, 5).rescale_down(4), amt(-10001, 4));
}

#[test]
fn display_precision_caps_at_four_digits_and_keeps_lower_scales() {
    let mut account = Account::seeded(1, amt(100005, 5), amt(10, 1), false);
    account.to_max_display_precision();
    assert_eq!(account.available.mantissa, 10001);
    assert_eq!(account.available.scale, 4);
    assert_eq!(account.held.mantissa, 10);
    assert_eq!(account.held.scale, 1);
}

#[test]
fn new_rejects_out_of_range_representations() {
    assert!(Amount::new(1, 29).is_none());
    assert!(Amount::new(MAX_MANTISSA + 1, 0).is_none());
    assert!(Amount::new(-(MAX_MANTISSA + 1), 0).is_none());
    assert!(Amount::new(MAX_MANTISSA, 28).is_some());
}
