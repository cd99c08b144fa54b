//! The full histogram pipeline: data range, evenly spaced edges, bin
//! counts, and normalized heights in one call.

use vstd::prelude::*;
use crate::counts::{counts_from_edges, counts_spec, matches_counts, non_decreasing};
use crate::edges::{edges_from_bins, lerp_at};
use crate::heights::{height_den, normalized_heights, Normalization};
use crate::ratio::Ratio;
use crate::stats::{data_min_max, range_hi, range_lo};
use crate::sums::{count_sum, lemma_count_sum_eq_int_sum};
use crate::{valid_data, MAX_BINS};

verus! {

/// Computes a histogram of the samples: the edges of `bins` evenly
/// spaced bins spanning the (degenerate-safe) data range, the per-bin
/// counts, and the heights under the chosen normalization.  Every sample
/// lies inside the range, so the counts account for all of them.
pub fn histogram(data: &Vec<i64>, bins: usize, norm: Normalization) -> (r: (
    Vec<i64>,
    Vec<usize>,
    Vec<Ratio>,
))
    requires
        valid_data(data@),
        data@.len() > 0,
        1 <= bins <= MAX_BINS,
    ensures
        r.0@.len() == bins + 1,
        r.0@[0] as int == range_lo(data@),
        r.0@[bins as int] as int == range_hi(data@),
        forall|i: int| 0 <= i <= bins ==> r.0@[i] as int == lerp_at(
            range_lo(data@),
            range_hi(data@),
            bins + 1,
            i,
        ),
        non_decreasing(r.0@),
        matches_counts(data@, r.0@, r.1@),
        r.1@.len() == bins,
        count_sum(r.1@) == data@.len(),
        r.2@.len() == bins,
        forall|i: int| 0 <= i < bins ==> (#[trigger] r.2@[i]).num == r.1@[i],
        forall|i: int| 0 <= i < bins ==> (#[trigger] r.2@[i]).den == height_den(
            r.1@,
            r.0@,
            norm,
            i,
        ),
{
    let (mn, mx) = data_min_max(data);
    let edges = edges_from_bins(mn, mx, bins);
    proof {
        assert forall|i: int| 0 <= i < edges@.len() - 1 implies #[trigger] edges@[i] <= edges@[i
            + 1] by {
            assert(edges@[i] <= edges@[i + 1]);
        }
        assert forall|j: int| 0 <= j < data@.len() implies edges@[0] <= #[trigger] data@[j]
            <= edges@[edges@.len() - 1] by {
            crate::stats::lemma_min_max_bounds(data@, j);
        }
    }
    let counts = counts_from_edges(data, &edges);
    proof {
        crate::counts::lemma_counts_sum_exact(data@, edges@);
        lemma_count_sum_eq_int_sum(counts@, counts_spec(data@, edges@));
    }
    let heights = normalized_heights(&counts, &edges, norm);
    (edges, counts, heights)
}

} // verus!
