use beatstar::numstuff::{checked_log, log10};

#[test]
fn checked_log_of_small_numbers() {
    assert_eq!(checked_log(5, 5), Some(1));
    assert_eq!(checked_log(1, 2), Some(0));
    assert_eq!(checked_log(8, 2), Some(3));
    assert_eq!(checked_log(9, 2), Some(3));
    assert_eq!(checked_log(999, 10), Some(2));
    assert_eq!(checked_log(1000, 10), Some(3));
}

#[test]
fn checked_log_is_undefined_outside_its_domain() {
    assert_eq!(checked_log(0, 10), None);
    assert_eq!(checked_log(-7, 10), None);
    assert_eq!(checked_log(7, 1), None);
    assert_eq!(checked_log(7, 0), None);
    assert_eq!(checked_log(7, -3), None);
}

#[test]
fn log10_counts_decimal_digits() {
    assert_eq!(log10(1), 0);
    assert_eq!(log10(9), 0);
    assert_eq!(log10(10), 1);
    assert_eq!(log10(99), 1);
    assert_eq!(log10(100), 2);
    assert_eq!(log10(i64::MAX), 18);
}

#[test]
fn log10_of_a_number_without_logarithm_is_zero() {
    assert_eq!(log10(0), 0);
    assert_eq!(log10(-1), 0);
    assert_eq!(log10(i64::MIN), 0);
}
