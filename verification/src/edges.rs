//! Bin-edge generation: evenly spaced edges over a range, and edges laid
//! out by stepping a fixed width.

use vstd::prelude::*;
use vstd::arithmetic::div_mod::{
    lemma_div_is_ordered, lemma_div_multiples_vanish, lemma_div_pos_is_pos,
    lemma_fundamental_div_mod_converse_div,
};
use crate::arith::lemma_mul_le_mul;
use crate::{MAX_BINS, MAX_EDGE};

verus! {

/// The `i`-th of `n` evenly spaced values from `start` to `end`: linear
/// interpolation, rounded down to whole ticks.
pub open spec fn lerp_at(start: int, end: int, n: int, i: int) -> int
    recommends
        start <= end,
        2 <= n,
        0 <= i < n,
{
    start + ((end - start) * i) / (n - 1)
}

/// How many edges stepping by `width` from `lo` lie at or below `hi`.
pub open spec fn step_count(lo: int, hi: int, width: int) -> int
    recommends
        1 <= width,
{
    if lo > hi {
        0
    } else {
        (hi - lo) / width + 1
    }
}

/// `n` evenly spaced values from `start` to `end` inclusive, computed by
/// interpolation rather than repeated addition, so the first and last
/// values land exactly on the endpoints.
pub fn linspace(start: i64, end: i64, n: usize) -> (r: Vec<i64>)
    requires
        start <= end,
        -MAX_EDGE <= start,
        end <= MAX_EDGE,
        n <= MAX_BINS + 1,
    ensures
        r@.len() == n,
        n == 1 ==> r@[0] == start,
        n >= 2 ==> r@[0] == start && r@[n - 1] == end,
        n >= 2 ==> forall|i: int| 0 <= i < n ==> r@[i] as int == lerp_at(
            start as int,
            end as int,
            n as int,
            i,
        ),
        forall|i: int| 0 <= i < n ==> start <= #[trigger] r@[i] <= end,
        forall|i: int| 0 <= i < n - 1 ==> #[trigger] r@[i] <= r@[i + 1],
{
    let mut r: Vec<i64> = Vec::new();
    if n == 0 {
        return r;
    }
    if n == 1 {
        r.push(start);
        return r;
    }
    let d: u64 = (end - start) as u64;
    let m: u64 = (n - 1) as u64;
    let mut i: usize = 0;
    while i < n
        invariant
            2 <= n <= MAX_BINS + 1,
            start <= end,
            -MAX_EDGE <= start,
            end <= MAX_EDGE,
            d == end - start,
            m == n - 1,
            i <= n,
            r@.len() == i,
            forall|j: int| 0 <= j < i ==> r@[j] as int == lerp_at(start as int, end as int, n as int, j),
            forall|j: int| 0 <= j < i ==> start <= #[trigger] r@[j] <= end,
        decreases n - i,
    {
        proof {
            lemma_mul_le_mul(d as int, i as int, 2 * MAX_EDGE as int, MAX_BINS as int);
            lemma_div_pos_is_pos(d as int * i as int, m as int);
            lemma_mul_le_mul(d as int, i as int, d as int, m as int);
            lemma_div_is_ordered(d as int * i as int, d as int * m as int, m as int);
            lemma_div_multiples_vanish(d as int, m as int);
            assert(d as int * m as int == m as int * d as int) by (nonlinear_arith);
        }
        let off: u64 = (d * (i as u64)) / m;
        r.push(start + (off as i64));
        i += 1;
    }
    proof {
        assert(r@[0] == start) by {
            assert((d as int * 0) / (m as int) == 0) by (nonlinear_arith)
                requires m as int >= 1;
        }
        assert(r@[n - 1] == end) by {
            lemma_div_multiples_vanish(d as int, m as int);
            assert(d as int * m as int == m as int * d as int) by (nonlinear_arith);
        }
        assert forall|i: int| 0 <= i < n - 1 implies #[trigger] r@[i] <= r@[i + 1] by {
            lemma_mul_le_mul(d as int, i, d as int, i + 1);
            lemma_div_is_ordered(d as int * i, d as int * (i + 1), m as int);
        }
    }
    r
}

/// Evenly spaced bin edges: `bins + 1` values from `minv` to `maxv`.
pub fn edges_from_bins(minv: i64, maxv: i64, bins: usize) -> (r: Vec<i64>)
    requires
        minv <= maxv,
        -MAX_EDGE <= minv,
        maxv <= MAX_EDGE,
        bins <= MAX_BINS,
    ensures
        r@.len() == bins + 1,
        r@[0] == minv,
        bins >= 1 ==> r@[bins as int] == maxv,
        bins >= 1 ==> forall|i: int| 0 <= i <= bins ==> r@[i] as int == lerp_at(
            minv as int,
            maxv as int,
            bins + 1,
            i,
        ),
        forall|i: int| 0 <= i <= bins ==> minv <= #[trigger] r@[i] <= maxv,
        forall|i: int| 0 <= i < bins ==> #[trigger] r@[i] <= r@[i + 1],
{
    linspace(minv, maxv, bins + 1)
}

/// Bin edges laid out by stepping `width` ticks from `lo`, keeping every
/// edge at or below `hi`; integer steps need no round-off tolerance.  If
/// that yields fewer than two edges, one more step is appended so the
/// result always delimits at least one bin.
pub fn edges_by_step(lo: i64, hi: i64, width: i64) -> (r: Vec<i64>)
    requires
        1 <= width <= MAX_EDGE,
        -MAX_EDGE <= lo <= MAX_EDGE,
        -MAX_EDGE <= hi <= MAX_EDGE,
    ensures
        r@.len() >= 2,
        r@.len() == if step_count(lo as int, hi as int, width as int) >= 2 {
            step_count(lo as int, hi as int, width as int)
        } else {
            2
        },
        forall|i: int| 0 <= i < r@.len() ==> r@[i] as int == lo + i * width,
        forall|i: int| 0 <= i < r@.len() - 1 ==> #[trigger] r@[i] < r@[i + 1],
{
    let mut r: Vec<i64> = Vec::new();
    let mut v: i64 = lo;
    proof {
        assert(r@.len() * width == 0) by (nonlinear_arith)
            requires r@.len() == 0;
    }
    while v <= hi
        invariant
            1 <= width <= MAX_EDGE,
            -MAX_EDGE <= lo <= MAX_EDGE,
            -MAX_EDGE <= hi <= MAX_EDGE,
            v == lo + r@.len() * width,
            forall|i: int| 0 <= i < r@.len() ==> r@[i] as int == lo + i * width,
            r@.len() > 0 ==> lo <= hi && r@[r@.len() - 1] <= hi,
        decreases hi + width - v,
    {
        proof {
            assert((r@.len() + 1) * width == r@.len() * width + width) by (nonlinear_arith);
        }
        r.push(v);
        v = v + width;
    }
    proof {
        if lo <= hi {
            let len = r@.len() as int;
            assert(len >= 1);
            assert(len * width == (len - 1) * width + width) by (nonlinear_arith);
            lemma_fundamental_div_mod_converse_div(
                hi as int - lo as int,
                width as int,
                len - 1,
                hi as int - lo as int - (len - 1) * width,
            );
            assert(step_count(lo as int, hi as int, width as int) == len);
        }
    }
    if r.len() == 0 {
        r.push(lo);
    }
    if r.len() == 1 {
        proof {
            assert(1 * width == width) by (nonlinear_arith);
        }
        r.push(lo + width);
    }
    proof {
        assert forall|i: int| 0 <= i < r@.len() - 1 implies #[trigger] r@[i] < r@[i + 1] by {
            assert((i + 1) * width == i * width + width) by (nonlinear_arith);
        }
    }
    r
}

} // verus!
