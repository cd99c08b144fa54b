//! Statistics on fixed-point samples: one tick is a millionth of a unit.

use histogram_core::ratio::Ratio;
use histogram_core::stats::{data_min_max, iqr, mean, quantile, std_dev};
use histogram_core::{MAX_ABS, SCALE};

fn ticks(units: i64) -> i64 {
    units * SCALE
}

#[test]
fn mean_of_small_set_is_exact_ratio() {
    let data = vec![ticks(1), ticks(2), ticks(3)];
    let m = mean(&data);
    assert_eq!(m.num, ticks(6));
    assert_eq!(m.den, 3);
}

#[test]
fn mean_of_empty_set_is_zero() {
    let data: Vec<i64> = vec![];
    let m = mean(&data);
    assert_eq!(m.num, 0);
    assert_eq!(m.den, 1);
}

#[test]
fn std_dev_of_one_through_four() {
    // Sample variance of 1,2,3,4 units is 5/3 square units; its square
    // root in whole ticks is 1_290_994 (about 1.29 units).
    let data = vec![ticks(1), ticks(2), ticks(3), ticks(4)];
    assert_eq!(std_dev(&data), 1_290_994);
}

#[test]
fn std_dev_needs_two_samples() {
    assert_eq!(std_dev(&vec![]), 0);
    assert_eq!(std_dev(&vec![ticks(7)]), 0);
}

#[test]
fn std_dev_of_constant_data_is_zero() {
    let data = vec![ticks(5), ticks(5), ticks(5)];
    assert_eq!(std_dev(&data), 0);
}

#[test]
fn quantile_interpolates_linearly() {
    // The median of 1,2,3,4 sits halfway between the middle samples: 2.5.
    let sorted = vec![ticks(1), ticks(2), ticks(3), ticks(4)];
    let q = quantile(&sorted, Ratio { num: 1, den: 2 });
    assert_eq!(q, Some(Ratio { num: ticks(5), den: 2 }));
}

#[test]
fn quantile_endpoints_are_the_extremes() {
    let sorted = vec![ticks(1), ticks(2), ticks(3), ticks(4)];
    let lo = quantile(&sorted, Ratio { num: 0, den: 1 });
    let hi = quantile(&sorted, Ratio { num: 1, den: 1 });
    assert_eq!(lo, Some(Ratio { num: ticks(1), den: 1 }));
    assert_eq!(hi, Some(Ratio { num: ticks(4), den: 1 }));
}

#[test]
fn quantile_of_empty_input_is_none() {
    let sorted: Vec<i64> = vec![];
    assert_eq!(quantile(&sorted, Ratio { num: 1, den: 2 }), None);
}

#[test]
fn quantile_whole_position_names_the_sample() {
    let sorted = vec![ticks(10), ticks(20), ticks(30)];
    let q = quantile(&sorted, Ratio { num: 1, den: 2 });
    assert_eq!(q, Some(Ratio { num: ticks(20), den: 1 }));
}

#[test]
fn iqr_of_one_through_four() {
    // Q3 = 3.25, Q1 = 1.75, so the interquartile range is exactly 1.5.
    let data = vec![ticks(1), ticks(2), ticks(3), ticks(4)];
    let r = iqr(&data);
    assert_eq!(r.num, 24_000_000);
    assert_eq!(r.den, 16);
    assert!(r.same_value(&Ratio { num: 3 * SCALE, den: 2 }));
}

#[test]
fn iqr_sorts_its_own_copy() {
    let shuffled = vec![ticks(4), ticks(1), ticks(3), ticks(2)];
    let sorted = vec![ticks(1), ticks(2), ticks(3), ticks(4)];
    assert_eq!(iqr(&shuffled), iqr(&sorted));
}

#[test]
fn iqr_of_empty_input_is_zero() {
    let r = iqr(&vec![]);
    assert_eq!(r, Ratio { num: 0, den: 1 });
}

#[test]
fn min_max_of_spread_data() {
    let data = vec![ticks(1), ticks(3), ticks(2)];
    assert_eq!(data_min_max(&data), (ticks(1), ticks(3)));
}

#[test]
fn min_max_widens_a_single_point() {
    let data = vec![ticks(5)];
    assert_eq!(data_min_max(&data), (ticks(4), ticks(6)));
}

#[test]
fn min_max_widens_constant_data() {
    let data = vec![ticks(2), ticks(2), ticks(2)];
    assert_eq!(data_min_max(&data), (ticks(1), ticks(3)));
}

#[test]
fn min_max_of_empty_data_is_the_inverted_sentinel_pair() {
    let data: Vec<i64> = vec![];
    assert_eq!(data_min_max(&data), (MAX_ABS, -MAX_ABS));
}

#[test]
fn ratio_same_value_cross_multiplies() {
    let half = Ratio { num: 1, den: 2 };
    let two_quarters = Ratio { num: 2, den: 4 };
    let third = Ratio { num: 1, den: 3 };
    assert!(half.same_value(&two_quarters));
    assert!(!half.same_value(&third));
}
