//! Sample-to-bin counting.

use histogram_core::counts::{counts_from_edges, find_bin};
use histogram_core::SCALE;

fn ticks(units: i64) -> i64 {
    units * SCALE
}

#[test]
fn counts_the_reference_scenario() {
    // 1,2,2,3,3,3,4,4,4,4 against edges 1,2,3,4,5: the maximum lands in
    // the last, closed bin, so the counts climb one to four.
    let data: Vec<i64> = [1, 2, 2, 3, 3, 3, 4, 4, 4, 4].iter().map(|&u| ticks(u)).collect();
    let edges: Vec<i64> = [1, 2, 3, 4, 5].iter().map(|&u| ticks(u)).collect();
    assert_eq!(counts_from_edges(&data, &edges), vec![1, 2, 3, 4]);
}

#[test]
fn last_bin_is_closed_on_the_right() {
    let data = vec![ticks(2)];
    let edges = vec![ticks(1), ticks(2)];
    assert_eq!(counts_from_edges(&data, &edges), vec![1]);
}

#[test]
fn inner_boundaries_belong_to_the_bin_on_their_right() {
    let edges = vec![0, ticks(1), ticks(2)];
    assert_eq!(find_bin(&edges, ticks(1)), Some(1));
    assert_eq!(find_bin(&edges, 0), Some(0));
    assert_eq!(find_bin(&edges, ticks(2)), Some(1));
}

#[test]
fn out_of_range_samples_are_dropped_silently() {
    let data = vec![0, ticks(10)];
    let edges = vec![ticks(1), ticks(2)];
    assert_eq!(counts_from_edges(&data, &edges), vec![0]);
    assert_eq!(find_bin(&edges, 0), None);
    assert_eq!(find_bin(&edges, ticks(10)), None);
}

#[test]
fn counts_sum_to_the_samples_inside_the_range() {
    let data: Vec<i64> = [1, 2, 2, 3, 3, 3, 4, 4, 4, 4].iter().map(|&u| ticks(u)).collect();
    let edges: Vec<i64> = [1, 2, 3, 4, 5].iter().map(|&u| ticks(u)).collect();
    let counts = counts_from_edges(&data, &edges);
    let total: usize = counts.iter().sum();
    assert_eq!(total, data.len());
    let narrow = vec![ticks(2), ticks(3)];
    let partial = counts_from_edges(&data, &narrow);
    let total: usize = partial.iter().sum();
    assert!(total <= data.len());
    // The single bin is also the last one, closed on the right, so the
    // three 3-valued samples are counted along with the two 2s.
    assert_eq!(partial, vec![5]);
}

#[test]
fn counting_twice_gives_identical_counts() {
    let data: Vec<i64> = [5, 1, 4, 1, 3].iter().map(|&u| ticks(u)).collect();
    let edges: Vec<i64> = [1, 3, 5].iter().map(|&u| ticks(u)).collect();
    let first = counts_from_edges(&data, &edges);
    let second = counts_from_edges(&data, &edges);
    assert_eq!(first, second);
}

#[test]
fn empty_edges_give_no_bins() {
    let data = vec![ticks(1)];
    let edges: Vec<i64> = vec![];
    assert_eq!(counts_from_edges(&data, &edges), Vec::<usize>::new());
    let one_edge = vec![ticks(1)];
    assert_eq!(counts_from_edges(&data, &one_edge), Vec::<usize>::new());
}

#[test]
fn empty_data_gives_zero_counts() {
    let data: Vec<i64> = vec![];
    let edges = vec![0, ticks(1), ticks(2)];
    assert_eq!(counts_from_edges(&data, &edges), vec![0, 0]);
}
