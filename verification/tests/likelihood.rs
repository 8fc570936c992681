use punkt::math::{col_log_likelihood, dunning_log_likelihood, ln_micro};
use punkt::trainer::penalty_micro;

#[test]
fn dunning_is_deterministic_and_reproducible() {
    let a = dunning_log_likelihood(10, 100, 10, 1000);
    let b = dunning_log_likelihood(10, 100, 10, 1000);
    assert_eq!(a, b);
    // ~45.8508 in micro-units
    assert_eq!(a, 45_850_700);
}

#[test]
fn dunning_boundary_count_a_equals_count_ab() {
    // the (count_a - count_ab) coefficient vanishes; no logarithm of zero
    let s = dunning_log_likelihood(5, 3, 5, 10);
    assert_eq!(s, 11_939_230);
}

#[test]
fn dunning_degenerate_period_probability_is_defined() {
    // count_b == n makes the null-hypothesis probability exactly one
    let s = dunning_log_likelihood(10, 1000, 10, 1000);
    assert_eq!(s, -200_980);
}

#[test]
fn col_zero_probability_terms_contribute_zero() {
    // count_b == n: every marginal probability argument is exactly one
    assert_eq!(col_log_likelihood(5, 10, 5, 10), 0);
    assert_eq!(col_log_likelihood(10, 10, 10, 10), 0);
}

#[test]
fn col_regular_value() {
    assert_eq!(col_log_likelihood(3, 4, 2, 20), 3_881_874);
}

#[test]
fn ln_micro_exact_values() {
    // ln(1/2) and ln(1/100) in micro-units
    assert_eq!(ln_micro(1, 2), -693_147);
    assert_eq!(ln_micro(1, 100), -4_605_168);
    assert_eq!(ln_micro(7, 7), 0);
}

#[test]
fn penalty_shrinks_exponentially() {
    assert_eq!(penalty_micro(0), 1_000_000);
    assert_eq!(penalty_micro(1), 367_879);
    assert_eq!(penalty_micro(2), 135_334);
    assert_eq!(penalty_micro(3), 49_786);
    assert_eq!(penalty_micro(4), 18_315);
}
