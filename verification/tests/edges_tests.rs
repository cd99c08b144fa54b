//! Edge generation.

use histogram_core::edges::{edges_by_step, edges_from_bins, linspace};
use histogram_core::SCALE;

fn ticks(units: i64) -> i64 {
    units * SCALE
}

#[test]
fn edges_cover_the_range_evenly() {
    let e = edges_from_bins(0, ticks(10), 5);
    assert_eq!(e, vec![0, ticks(2), ticks(4), ticks(6), ticks(8), ticks(10)]);
}

#[test]
fn edges_have_bins_plus_one_entries_and_exact_endpoints() {
    let e = edges_from_bins(ticks(-3), ticks(7), 7);
    assert_eq!(e.len(), 8);
    assert_eq!(e[0], ticks(-3));
    assert_eq!(e[7], ticks(7));
    for w in e.windows(2) {
        assert!(w[0] <= w[1]);
    }
}

#[test]
fn edges_from_uneven_division_still_hit_both_endpoints() {
    let e = edges_from_bins(0, 10, 3);
    assert_eq!(e, vec![0, 3, 6, 10]);
}

#[test]
fn single_bin_has_two_edges() {
    let e = edges_from_bins(ticks(4), ticks(6), 1);
    assert_eq!(e, vec![ticks(4), ticks(6)]);
}

#[test]
fn linspace_of_one_point_is_the_start() {
    assert_eq!(linspace(ticks(2), ticks(9), 1), vec![ticks(2)]);
    assert_eq!(linspace(ticks(2), ticks(9), 0), Vec::<i64>::new());
}

#[test]
fn stepping_lays_out_whole_widths() {
    let e = edges_by_step(0, 10, 3);
    assert_eq!(e, vec![0, 3, 6, 9]);
}

#[test]
fn stepping_lands_exactly_on_the_upper_bound() {
    let e = edges_by_step(0, ticks(3), ticks(1));
    assert_eq!(e, vec![0, ticks(1), ticks(2), ticks(3)]);
}

#[test]
fn stepping_falls_back_to_one_bin_when_the_range_is_too_narrow() {
    assert_eq!(edges_by_step(0, 1, 5), vec![0, 5]);
    assert_eq!(edges_by_step(0, -5, 2), vec![0, 2]);
}
