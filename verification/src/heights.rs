//! Height normalization: raw counts, count density, probability, and
//! probability density, as exact ratios.

use vstd::prelude::*;
use crate::arith::lemma_mul_le_mul;
use crate::ratio::Ratio;
use crate::sums::{count_sum, lemma_count_le_sum, lemma_count_sum_push, lemma_count_sum_take_le};
use crate::{MAX_EDGE, MAX_LEN};

verus! {

/// How bar heights are derived from bin counts.
#[derive(Clone, Copy, PartialEq, Eq, Structural, Debug)]
pub enum Normalization {
    /// The raw count.
    Count,
    /// Count divided by bin width.
    CountDensity,
    /// Count divided by the total count.
    Probability,
    /// Count divided by total count times bin width: bar areas sum to one.
    Pdf,
}

/// Width of bin `i` in ticks, floored at one tick so no height divides
/// by zero.
pub open spec fn width_spec(edges: Seq<i64>, i: int) -> int
    recommends
        0 <= i < edges.len() - 1,
{
    let d = edges[i + 1] - edges[i];
    let a = if d < 0 {
        -d
    } else {
        d
    };
    if a < 1 {
        1
    } else {
        a
    }
}

/// The total count, floored at one so the empty histogram divides by one
/// rather than by zero.
pub open spec fn total_spec(counts: Seq<usize>) -> int {
    let s = count_sum(counts);
    if s < 1 {
        1
    } else {
        s
    }
}

/// Denominator of the height of bin `i` under each normalization mode.
pub open spec fn height_den(
    counts: Seq<usize>,
    edges: Seq<i64>,
    norm: Normalization,
    i: int,
) -> int
    recommends
        counts.len() == edges.len() - 1,
        0 <= i < counts.len(),
{
    match norm {
        Normalization::Count => 1,
        Normalization::CountDensity => width_spec(edges, i),
        Normalization::Probability => total_spec(counts),
        Normalization::Pdf => total_spec(counts) * width_spec(edges, i),
    }
}

/// Sum of the numerators of a height sequence.
pub open spec fn height_num_sum(hs: Seq<Ratio>) -> int
    decreases hs.len(),
{
    if hs.len() == 0 {
        0
    } else {
        height_num_sum(hs.drop_last()) + hs.last().num
    }
}

/// Turns bin counts into bar heights: each height is the exact ratio the
/// normalization mode prescribes, with the bin's count as numerator.
/// Under `Count` the height *is* the count, so counts are recoverable
/// from the heights without loss.
pub fn normalized_heights(counts: &Vec<usize>, edges: &Vec<i64>, norm: Normalization) -> (r: Vec<
    Ratio,
>)
    requires
        edges@.len() == counts@.len() + 1,
        count_sum(counts@) <= MAX_LEN,
        forall|i: int| 0 <= i < edges@.len() ==> -MAX_EDGE <= #[trigger] edges@[i] <= MAX_EDGE,
    ensures
        r@.len() == counts@.len(),
        forall|i: int| 0 <= i < r@.len() ==> (#[trigger] r@[i]).num == counts@[i],
        forall|i: int| 0 <= i < r@.len() ==> (#[trigger] r@[i]).den == height_den(
            counts@,
            edges@,
            norm,
            i,
        ),
        forall|i: int| 0 <= i < r@.len() ==> (#[trigger] r@[i]).wf(),
{
    let mut total: usize = 0;
    let mut k: usize = 0;
    while k < counts.len()
        invariant
            count_sum(counts@) <= MAX_LEN,
            k <= counts@.len(),
            total == count_sum(counts@.take(k as int)),
        decreases counts@.len() - k,
    {
        proof {
            assert(counts@.take(k as int + 1) =~= counts@.take(k as int).push(counts@[k as int]));
            lemma_count_sum_push(counts@.take(k as int), counts@[k as int]);
            lemma_count_sum_take_le(counts@, k as int + 1);
        }
        total = total + counts[k];
        k += 1;
    }
    proof {
        assert(counts@.take(counts@.len() as int) =~= counts@);
    }
    let n: i64 = if total < 1 {
        1
    } else {
        total as i64
    };
    let mut r: Vec<Ratio> = Vec::new();
    let mut i: usize = 0;
    while i < counts.len()
        invariant
            edges@.len() == counts@.len() + 1,
            count_sum(counts@) <= MAX_LEN,
            forall|j: int| 0 <= j < edges@.len() ==> -MAX_EDGE <= #[trigger] edges@[j] <= MAX_EDGE,
            1 <= n <= MAX_LEN,
            n == total_spec(counts@),
            i <= counts@.len(),
            r@.len() == i,
            forall|j: int| 0 <= j < i ==> (#[trigger] r@[j]).num == counts@[j],
            forall|j: int| 0 <= j < i ==> (#[trigger] r@[j]).den == height_den(
                counts@,
                edges@,
                norm,
                j,
            ),
            forall|j: int| 0 <= j < i ==> (#[trigger] r@[j]).wf(),
        decreases counts@.len() - i,
    {
        proof {
            lemma_count_le_sum(counts@, i as int);
        }
        let c: i64 = counts[i] as i64;
        let d: i64 = edges[i + 1] - edges[i];
        let a: i64 = if d < 0 {
            -d
        } else {
            d
        };
        let w: i64 = if a < 1 {
            1
        } else {
            a
        };
        let h: Ratio = match norm {
            Normalization::Count => Ratio { num: c, den: 1 },
            Normalization::CountDensity => Ratio { num: c, den: w },
            Normalization::Probability => Ratio { num: c, den: n },
            Normalization::Pdf => {
                proof {
                    lemma_mul_le_mul(n as int, w as int, MAX_LEN as int, 2 * MAX_EDGE as int);
                    lemma_mul_le_mul(1, 1, n as int, w as int);
                }
                Ratio { num: c, den: n * w }
            },
        };
        r.push(h);
        i += 1;
    }
    r
}

/// Numerator sums agree when heights carry the counts as numerators.
proof fn lemma_height_num_sum_matches(hs: Seq<Ratio>, counts: Seq<usize>)
    requires
        hs.len() == counts.len(),
        forall|i: int| 0 <= i < hs.len() ==> (#[trigger] hs[i]).num == counts[i],
    ensures
        height_num_sum(hs) == count_sum(counts),
    decreases hs.len(),
{
    if hs.len() > 0 {
        lemma_height_num_sum_matches(hs.drop_last(), counts.drop_last());
    }
}

/// A density-normalized bar covers the same area as the probability of
/// its bin: for Pdf-mode heights, `h_i * w_i` equals `c_i / N` as an
/// exact fraction (stated here by cross-multiplication).  Together with
/// [`lemma_probability_heights_sum_to_one`], the bar areas of a Pdf
/// histogram sum to exactly one when at least one sample was counted.
pub proof fn lemma_pdf_bar_area(counts: Seq<usize>, edges: Seq<i64>, heights: Seq<Ratio>, i: int)
    requires
        heights.len() == counts.len(),
        counts.len() == edges.len() - 1,
        0 <= i < heights.len(),
        heights[i].num == counts[i],
        heights[i].den == total_spec(counts) * width_spec(edges, i),
    ensures
        (heights[i].num * width_spec(edges, i)) * total_spec(counts) == counts[i] * heights[i].den,
{
    assert((heights[i].num * width_spec(edges, i)) * total_spec(counts) == counts[i] * (total_spec(
        counts,
    ) * width_spec(edges, i))) by (nonlinear_arith)
        requires heights[i].num == counts[i],
    ;
}

/// Probability-normalized heights sum to exactly one: every height has
/// the total count `N` as its denominator, and the numerators sum to
/// `N`, so as exact fractions over the common denominator `N` the
/// heights add up to `N / N == 1`.  This holds whenever at least one
/// sample was counted, which is in particular the case when no sample
/// fell outside the edge range of a non-empty sample set.
pub proof fn lemma_probability_heights_sum_to_one(counts: Seq<usize>, heights: Seq<Ratio>)
    requires
        heights.len() == counts.len(),
        forall|i: int| 0 <= i < heights.len() ==> (#[trigger] heights[i]).num == counts[i],
        forall|i: int| 0 <= i < heights.len() ==> (#[trigger] heights[i]).den == total_spec(counts),
        count_sum(counts) >= 1,
    ensures
        forall|i: int| 0 <= i < heights.len() ==> (#[trigger] heights[i]).den == count_sum(counts),
        height_num_sum(heights) == count_sum(counts),
{
    lemma_height_num_sum_matches(heights, counts);
}

} // verus!
