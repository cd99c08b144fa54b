//! The whole histogram pipeline, end to end.

use histogram_core::bins::bins_auto;
use histogram_core::heights::Normalization;
use histogram_core::histogram::histogram;
use histogram_core::ratio::Ratio;
use histogram_core::SCALE;

fn ticks(units: i64) -> i64 {
    units * SCALE
}

#[test]
fn pipeline_on_the_reference_scenario() {
    let data: Vec<i64> = [1, 2, 2, 3, 3, 3, 4, 4, 4, 4].iter().map(|&u| ticks(u)).collect();
    let (edges, counts, heights) = histogram(&data, 4, Normalization::Count);
    assert_eq!(edges, vec![ticks(1), 1_750_000, 2_500_000, 3_250_000, ticks(4)]);
    assert_eq!(counts, vec![1, 2, 3, 4]);
    assert_eq!(
        heights,
        vec![
            Ratio { num: 1, den: 1 },
            Ratio { num: 2, den: 1 },
            Ratio { num: 3, den: 1 },
            Ratio { num: 4, den: 1 },
        ]
    );
}

#[test]
fn pipeline_counts_every_sample() {
    let data: Vec<i64> = (0..50).map(|u| ticks(u % 7)).collect();
    let bins = bins_auto(&data);
    assert!(bins >= 1);
    let (edges, counts, heights) = histogram(&data, bins as usize, Normalization::Probability);
    assert_eq!(edges.len(), bins as usize + 1);
    assert_eq!(counts.len(), bins as usize);
    assert_eq!(heights.len(), bins as usize);
    let total: usize = counts.iter().sum();
    assert_eq!(total, data.len());
    let num_sum: i64 = heights.iter().map(|r| r.num).sum();
    assert_eq!(num_sum, data.len() as i64);
    assert!(heights.iter().all(|r| r.den == data.len() as i64));
}

#[test]
fn single_point_runs_without_dividing_by_zero() {
    // A single sample widens its range to two units around it; every
    // stage downstream keeps working.
    let data = vec![ticks(5)];
    assert!(bins_auto(&data) >= 1);
    let (edges, counts, heights) = histogram(&data, 4, Normalization::Pdf);
    assert_eq!(edges[0], ticks(4));
    assert_eq!(*edges.last().unwrap(), ticks(6));
    let total: usize = counts.iter().sum();
    assert_eq!(total, 1);
    assert!(heights.iter().all(|r| r.den >= 1));
}

#[test]
fn constant_data_runs_without_dividing_by_zero() {
    let data = vec![ticks(2); 8];
    let (edges, counts, _heights) = histogram(&data, 3, Normalization::CountDensity);
    assert_eq!(edges[0], ticks(1));
    assert_eq!(*edges.last().unwrap(), ticks(3));
    let total: usize = counts.iter().sum();
    assert_eq!(total, 8);
}
