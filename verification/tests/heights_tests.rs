//! Height normalization.

use histogram_core::heights::{normalized_heights, Normalization};
use histogram_core::ratio::Ratio;
use histogram_core::SCALE;

fn ticks(units: i64) -> i64 {
    units * SCALE
}

#[test]
fn count_mode_heights_are_the_counts() {
    let counts = vec![1usize, 2, 3, 4];
    let edges: Vec<i64> = [1, 2, 3, 4, 5].iter().map(|&u| ticks(u)).collect();
    let h = normalized_heights(&counts, &edges, Normalization::Count);
    assert_eq!(
        h,
        vec![
            Ratio { num: 1, den: 1 },
            Ratio { num: 2, den: 1 },
            Ratio { num: 3, den: 1 },
            Ratio { num: 4, den: 1 },
        ]
    );
    // The round trip back to counts is exact.
    for (height, count) in h.iter().zip(counts.iter()) {
        assert_eq!(height.num as usize, *count);
    }
}

#[test]
fn probability_mode_heights_are_tenths() {
    let counts = vec![1usize, 2, 3, 4];
    let edges: Vec<i64> = [1, 2, 3, 4, 5].iter().map(|&u| ticks(u)).collect();
    let h = normalized_heights(&counts, &edges, Normalization::Probability);
    assert_eq!(
        h,
        vec![
            Ratio { num: 1, den: 10 },
            Ratio { num: 2, den: 10 },
            Ratio { num: 3, den: 10 },
            Ratio { num: 4, den: 10 },
        ]
    );
}

#[test]
fn probability_heights_sum_to_one_when_nothing_is_dropped() {
    let counts = vec![1usize, 2, 3, 4];
    let edges: Vec<i64> = [1, 2, 3, 4, 5].iter().map(|&u| ticks(u)).collect();
    let h = normalized_heights(&counts, &edges, Normalization::Probability);
    let num_sum: i64 = h.iter().map(|r| r.num).sum();
    assert!(h.iter().all(|r| r.den == 10));
    assert_eq!(num_sum, 10);
}

#[test]
fn count_density_divides_by_the_bin_width() {
    let counts = vec![2usize];
    let edges = vec![0, ticks(4)];
    let h = normalized_heights(&counts, &edges, Normalization::CountDensity);
    assert_eq!(h, vec![Ratio { num: 2, den: ticks(4) }]);
}

#[test]
fn pdf_divides_by_total_and_width() {
    let counts = vec![1usize, 3];
    let edges = vec![0, ticks(1), ticks(2)];
    let h = normalized_heights(&counts, &edges, Normalization::Pdf);
    assert_eq!(
        h,
        vec![Ratio { num: 1, den: 4 * ticks(1) }, Ratio { num: 3, den: 4 * ticks(1) }]
    );
}

#[test]
fn zero_width_bins_divide_by_one_tick() {
    let counts = vec![5usize];
    let edges = vec![ticks(2), ticks(2)];
    let h = normalized_heights(&counts, &edges, Normalization::CountDensity);
    assert_eq!(h, vec![Ratio { num: 5, den: 1 }]);
}

#[test]
fn empty_histogram_divides_by_one() {
    let counts = vec![0usize, 0];
    let edges = vec![0, ticks(1), ticks(2)];
    let h = normalized_heights(&counts, &edges, Normalization::Probability);
    assert_eq!(h, vec![Ratio { num: 0, den: 1 }, Ratio { num: 0, den: 1 }]);
}
