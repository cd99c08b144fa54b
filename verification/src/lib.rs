//! Histogram computation engine over fixed-point samples.
//!
//! Sample values and bin edges are fixed-point numbers: an `i64` counts
//! ticks, and `SCALE` ticks stand for one unit.  Quantities that are not
//! whole numbers of ticks (means, quantiles, normalized bar heights) are
//! exact rationals, carried as a [`ratio::Ratio`] numerator/denominator
//! pair.  Every function states exactly what it computes, so the usual
//! floating-point caveats are replaced by precise integer arithmetic.

use vstd::prelude::*;

pub mod arith;
pub mod ratio;
pub mod sums;
pub mod roots;
pub mod sort;
pub mod stats;
pub mod bins;
pub mod edges;
pub mod counts;
pub mod heights;
pub mod histogram;

verus! {

/// Number of ticks in one unit: samples are fixed-point values at this scale.
pub const SCALE: i64 = 1_000_000;

/// Largest magnitude, in ticks, that a sample value may have.
pub const MAX_ABS: i64 = 1_000_000_000_000;

/// Largest magnitude, in ticks, that a bin edge may have; leaves room for
/// the one-unit widening applied to a degenerate (constant-data) range.
pub const MAX_EDGE: i64 = 1_000_001_000_000;

/// Largest number of samples the statistics functions accept.
pub const MAX_LEN: usize = 100_000;

/// Largest bin count the edge generator accepts.
pub const MAX_BINS: usize = 1_000_000;

/// A sample set the library can do arithmetic on without overflow:
/// bounded length, every value within `MAX_ABS` ticks of zero.
pub open spec fn valid_data(s: Seq<i64>) -> bool {
    &&& s.len() <= MAX_LEN
    &&& forall|i: int| 0 <= i < s.len() ==> -MAX_ABS <= #[trigger] s[i] <= MAX_ABS
}

} // verus!
