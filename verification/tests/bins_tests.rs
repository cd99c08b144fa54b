//! Bin-count heuristics on fixed-point samples.

use histogram_core::bins::{bins_auto, bins_fd, bins_scott, bins_sqrt, bins_sturges};
use histogram_core::SCALE;

fn ticks(units: i64) -> i64 {
    units * SCALE
}

#[test]
fn sturges_matches_hand_computed_values() {
    assert_eq!(bins_sturges(0), 1);
    assert_eq!(bins_sturges(1), 1);
    assert_eq!(bins_sturges(2), 2);
    assert_eq!(bins_sturges(3), 3);
    assert_eq!(bins_sturges(8), 4);
    assert_eq!(bins_sturges(10), 5);
    assert_eq!(bins_sturges(1000), 11);
    assert_eq!(bins_sturges(100_000), 18);
}

#[test]
fn sqrt_rule_matches_hand_computed_values() {
    assert_eq!(bins_sqrt(0), 1);
    assert_eq!(bins_sqrt(1), 1);
    assert_eq!(bins_sqrt(10), 4);
    assert_eq!(bins_sqrt(16), 4);
    assert_eq!(bins_sqrt(17), 5);
    assert_eq!(bins_sqrt(100), 10);
}

#[test]
fn scott_on_one_through_four() {
    // std_dev = 1_290_994 ticks, width = 7 * sd / 2 = 4_518_479 ticks,
    // range = 3 units: a single bin covers it.
    let data = vec![ticks(1), ticks(2), ticks(3), ticks(4)];
    assert_eq!(bins_scott(&data), 1);
}

#[test]
fn fd_on_one_through_four() {
    // IQR = 1.5 units, width = 2 * IQR / cbrt(4) = 3 units = the range.
    let data = vec![ticks(1), ticks(2), ticks(3), ticks(4)];
    assert_eq!(bins_fd(&data), 1);
}

#[test]
fn heuristics_tolerate_empty_and_constant_data() {
    let empty: Vec<i64> = vec![];
    assert_eq!(bins_scott(&empty), 1);
    assert_eq!(bins_fd(&empty), 1);
    assert_eq!(bins_auto(&empty), 1);
    let constant = vec![ticks(3), ticks(3), ticks(3)];
    assert!(bins_scott(&constant) >= 1);
    assert!(bins_fd(&constant) >= 1);
    assert!(bins_auto(&constant) >= 1);
}

#[test]
fn auto_takes_the_larger_rule() {
    // For 1,2,2,3,3,3,4,4,4,4: Sturges gives 5, Freedman-Diaconis 2.
    let data: Vec<i64> = [1, 2, 2, 3, 3, 3, 4, 4, 4, 4].iter().map(|&u| ticks(u)).collect();
    assert_eq!(bins_sturges(data.len()), 5);
    assert_eq!(bins_fd(&data), 2);
    assert_eq!(bins_auto(&data), 5);
}

#[test]
fn auto_is_at_least_sturges() {
    let data: Vec<i64> = (0..100).map(|u| ticks(u)).collect();
    assert!(bins_auto(&data) >= bins_sturges(data.len()) as u64);
    assert!(bins_auto(&data) >= 1);
}

#[test]
fn auto_on_a_single_point_is_positive() {
    let data = vec![ticks(5)];
    assert!(bins_auto(&data) >= 1);
}
