//! Mean, sample standard deviation, quantiles, interquartile range, and
//! the min/max scan with degenerate-range widening.

use vstd::prelude::*;
use vstd::arithmetic::div_mod::{
    lemma_div_is_ordered, lemma_div_multiples_vanish, lemma_div_pos_is_pos,
    lemma_fundamental_div_mod,
};
use crate::arith::{lemma_mul_abs_bound, lemma_mul_le_mul};
use crate::ratio::Ratio;
use crate::roots::{isqrt, sqrt_floor};
use crate::sort::{sort_samples, sorted_of};
use crate::sums::{
    lemma_seq_sum_bounds, lemma_seq_sum_push, lemma_variance_num_nonneg, seq_sq_sum, seq_sum,
};
use crate::{valid_data, MAX_ABS, MAX_EDGE, MAX_LEN, SCALE};

verus! {

/// Largest quantile denominator the statistics functions accept.
pub const MAX_QUANTILE_DEN: i64 = 1_000_000;

/// Denominator of the mean: the sample count, floored at one so that the
/// mean of an empty sample set is the exact ratio `0 / 1`.
pub open spec fn mean_den(s: Seq<i64>) -> int {
    if s.len() == 0 {
        1
    } else {
        s.len() as int
    }
}

/// Smallest sample of a non-empty sequence.
pub open spec fn seq_min(s: Seq<i64>) -> int
    recommends
        s.len() > 0,
    decreases s.len(),
{
    if s.len() <= 1 {
        s[0] as int
    } else if s.last() as int <= seq_min(s.drop_last()) {
        s.last() as int
    } else {
        seq_min(s.drop_last())
    }
}

/// Largest sample of a non-empty sequence.
pub open spec fn seq_max(s: Seq<i64>) -> int
    recommends
        s.len() > 0,
    decreases s.len(),
{
    if s.len() <= 1 {
        s[0] as int
    } else if s.last() as int >= seq_max(s.drop_last()) {
        s.last() as int
    } else {
        seq_max(s.drop_last())
    }
}

/// Lower end of the data range: the minimum, pushed one unit further out
/// when the data has zero spread, so the range is never empty.
pub open spec fn range_lo(s: Seq<i64>) -> int
    recommends
        s.len() > 0,
{
    if seq_min(s) == seq_max(s) {
        seq_min(s) - SCALE
    } else {
        seq_min(s)
    }
}

/// Upper end of the data range, widened like [`range_lo`].
pub open spec fn range_hi(s: Seq<i64>) -> int
    recommends
        s.len() > 0,
{
    if seq_min(s) == seq_max(s) {
        seq_max(s) + SCALE
    } else {
        seq_max(s)
    }
}

/// The linear-interpolation quantile of a sorted sequence, at the fraction
/// `qn / qd`, as an exact (numerator, denominator) pair.  The position is
/// `(len - 1) * qn / qd`; a whole position names the sample itself, and a
/// fractional one interpolates between the two neighbouring samples.
pub open spec fn quantile_nd(s: Seq<i64>, qn: int, qd: int) -> (int, int)
    recommends
        s.len() > 0,
        0 <= qn <= qd,
        1 <= qd,
{
    let pos = (s.len() - 1) * qn;
    let f = pos / qd;
    let rem = pos % qd;
    if rem == 0 {
        (s[f] as int, 1)
    } else {
        (s[f] * qd + rem * (s[f + 1] - s[f]), qd)
    }
}

/// Numerator of the interquartile range: the cross-multiplied difference
/// of the three-quarter and one-quarter quantiles of the sorted samples.
pub open spec fn iqr_num(s: Seq<i64>) -> int
    recommends
        s.len() > 0,
{
    let q3 = quantile_nd(sorted_of(s), 3, 4);
    let q1 = quantile_nd(sorted_of(s), 1, 4);
    q3.0 * q1.1 - q1.0 * q3.1
}

/// Denominator of the interquartile range.
pub open spec fn iqr_den(s: Seq<i64>) -> int
    recommends
        s.len() > 0,
{
    let q3 = quantile_nd(sorted_of(s), 3, 4);
    let q1 = quantile_nd(sorted_of(s), 1, 4);
    q3.1 * q1.1
}

/// Numerator of the sample variance over the squared scale.
pub open spec fn var_num(s: Seq<i64>) -> int {
    s.len() * seq_sq_sum(s) - seq_sum(s) * seq_sum(s)
}

/// Denominator `n * (n - 1)` of the sample variance.
pub open spec fn var_den(s: Seq<i64>) -> int {
    s.len() * (s.len() - 1)
}

/// The sample standard deviation in ticks: zero for fewer than two
/// samples, else the integer square root of the variance.
pub open spec fn std_dev_spec(s: Seq<i64>) -> int {
    if s.len() < 2 {
        0
    } else {
        sqrt_floor(var_num(s) / var_den(s))
    }
}

/// Arithmetic mean as the exact ratio `sum / max(len, 1)`; the mean of an
/// empty sample set is zero.
pub fn mean(x: &Vec<i64>) -> (r: Ratio)
    requires
        valid_data(x@),
    ensures
        r.num == seq_sum(x@),
        r.den == mean_den(x@),
        r.wf(),
{
    let mut sum: i64 = 0;
    let mut i: usize = 0;
    while i < x.len()
        invariant
            valid_data(x@),
            i <= x@.len(),
            sum == seq_sum(x@.take(i as int)),
            -(i as int) * MAX_ABS <= sum <= (i as int) * MAX_ABS,
        decreases x@.len() - i,
    {
        proof {
            assert(x@.take(i as int + 1) =~= x@.take(i as int).push(x@[i as int]));
            lemma_seq_sum_push(x@.take(i as int), x@[i as int]);
            lemma_seq_sum_bounds(x@.take(i as int + 1), MAX_ABS as int);
            lemma_mul_le_mul(i as int + 1, MAX_ABS as int, MAX_LEN as int, MAX_ABS as int);
        }
        sum = sum + x[i];
        i += 1;
    }
    proof {
        assert(x@.take(x@.len() as int) =~= x@);
    }
    let den: i64 = if x.len() == 0 {
        1
    } else {
        x.len() as i64
    };
    Ratio { num: sum, den }
}

/// Sample standard deviation, rounded down to whole ticks; zero when
/// fewer than two samples leave the divisor `n - 1` without meaning.
pub fn std_dev(x: &Vec<i64>) -> (r: i64)
    requires
        valid_data(x@),
    ensures
        r as int == std_dev_spec(x@),
        0 <= r <= 2 * MAX_ABS,
{
    if x.len() < 2 {
        return 0;
    }
    let m = mean(x);
    let sum: i64 = m.num;
    let n: usize = x.len();
    let mut sq: i128 = 0;
    let mut i: usize = 0;
    while i < x.len()
        invariant
            valid_data(x@),
            i <= x@.len(),
            sq == seq_sq_sum(x@.take(i as int)),
            0 <= sq <= (i as int) * (MAX_ABS as int * MAX_ABS as int),
        decreases x@.len() - i,
    {
        proof {
            assert(x@.take(i as int + 1) =~= x@.take(i as int).push(x@[i as int]));
            lemma_seq_sum_push(x@.take(i as int), x@[i as int]);
            lemma_seq_sum_bounds(x@.take(i as int + 1), MAX_ABS as int);
            lemma_mul_le_mul(
                i as int + 1,
                MAX_ABS as int * MAX_ABS as int,
                MAX_LEN as int,
                MAX_ABS as int * MAX_ABS as int,
            );
            lemma_mul_abs_bound(x@[i as int] as int, x@[i as int] as int, MAX_ABS as int, MAX_ABS as int);
        }
        let v: i128 = x[i] as i128;
        sq = sq + v * v;
        i += 1;
    }
    proof {
        assert(x@.take(x@.len() as int) =~= x@);
        lemma_seq_sum_bounds(x@, MAX_ABS as int);
        assert(sq as int <= MAX_LEN as int * (MAX_ABS as int * MAX_ABS as int)) by (nonlinear_arith)
            requires
                sq as int <= (x@.len() as int) * (MAX_ABS as int * MAX_ABS as int),
                x@.len() as int <= MAX_LEN as int,
                MAX_ABS as int * MAX_ABS as int >= 0,
        ;
        assert(-(MAX_LEN as int * MAX_ABS as int) <= sum as int <= MAX_LEN as int * MAX_ABS as int)
            by (nonlinear_arith)
            requires
                -((x@.len() as int) * MAX_ABS as int) <= sum as int <= (x@.len() as int) * MAX_ABS as int,
                x@.len() as int <= MAX_LEN as int,
                MAX_ABS as int >= 0,
        ;
        lemma_mul_le_mul(n as int, sq as int, MAX_LEN as int, MAX_LEN as int * (MAX_ABS as int * MAX_ABS as int));
        lemma_mul_abs_bound(sum as int, sum as int, MAX_LEN as int * MAX_ABS as int, MAX_LEN as int * MAX_ABS as int);
        lemma_variance_num_nonneg(x@);
    }
    proof {
        lemma_mul_le_mul(n as int, n as int - 1, MAX_LEN as int, MAX_LEN as int);
    }
    let vnum: i128 = (n as i128) * sq - (sum as i128) * (sum as i128);
    let vden: i128 = (n as i128) * ((n - 1) as i128);
    proof {
        assert(vden as int == var_den(x@));
        assert(vnum as int == var_num(x@));
        assert(vden > 0) by (nonlinear_arith)
            requires vden as int == (n as int) * (n as int - 1), n >= 2;
        lemma_div_pos_is_pos(vnum as int, vden as int);
        lemma_div_is_ordered(vnum as int, 0x1000_0000_0000_0000_0000_0000_0000_0000 - 1, vden as int);
        lemma_div_is_ordered(0, vnum as int, vden as int);
    }
    let q: u128 = (vnum as u128) / (vden as u128);
    let root: u64 = isqrt(q);
    proof {
        let b = MAX_ABS as int;
        let nn = x@.len() as int;
        assert(seq_sq_sum(x@) <= nn * (b * b)) by {
            lemma_seq_sum_bounds(x@, b);
        }
        assert(seq_sum(x@) * seq_sum(x@) >= 0) by (nonlinear_arith);
        assert(var_num(x@) <= var_den(x@) * (2 * (b * b))) by (nonlinear_arith)
            requires
                var_num(x@) == nn * seq_sq_sum(x@) - seq_sum(x@) * seq_sum(x@),
                var_den(x@) == nn * (nn - 1),
                seq_sq_sum(x@) <= nn * (b * b),
                seq_sum(x@) * seq_sum(x@) >= 0,
                nn >= 2,
                b >= 1,
        ;
        lemma_div_is_ordered(var_num(x@), var_den(x@) * (2 * (b * b)), var_den(x@));
        assert((var_den(x@) * (2 * (b * b))) / var_den(x@) == 2 * (b * b)) by {
            lemma_div_multiples_vanish(2 * (b * b), var_den(x@));
        }
        assert(root as int <= 2 * b) by (nonlinear_arith)
            requires
                root as int >= 0,
                (root as int) * (root as int) <= 2 * (b * b),
                b >= 1,
        ;
    }
    root as i64
}

/// The linear-interpolation quantile of pre-sorted samples at the
/// fraction `q.num / q.den`; `None` exactly on empty input, standing in
/// for the not-a-number the formula has no value for there.  The caller
/// sorts; this function does not.
pub fn quantile(sorted: &Vec<i64>, q: Ratio) -> (r: Option<Ratio>)
    requires
        valid_data(sorted@),
        0 <= q.num <= q.den,
        1 <= q.den <= MAX_QUANTILE_DEN,
    ensures
        r is Some <==> sorted@.len() > 0,
        r matches Some(t) ==> {
            &&& t.num == quantile_nd(sorted@, q.num as int, q.den as int).0
            &&& t.den == quantile_nd(sorted@, q.num as int, q.den as int).1
            &&& 1 <= t.den <= q.den
            &&& -3 * MAX_ABS * q.den <= t.num <= 3 * MAX_ABS * q.den
        },
{
    let n = sorted.len();
    if n == 0 {
        return None;
    }
    proof {
        lemma_mul_le_mul(n as int - 1, q.num as int, MAX_LEN as int, MAX_QUANTILE_DEN as int);
        lemma_mul_le_mul(n as int - 1, q.num as int, n as int - 1, q.den as int);
    }
    let pn: u64 = ((n - 1) as u64) * (q.num as u64);
    let qd: u64 = q.den as u64;
    proof {
        lemma_div_is_ordered(pn as int, (n as int - 1) * q.den as int, q.den as int);
        assert(((q.den as int) * (n as int - 1)) / q.den as int == n as int - 1) by {
            lemma_div_multiples_vanish(n as int - 1, q.den as int);
        }
        assert((n as int - 1) * q.den as int == (q.den as int) * (n as int - 1)) by (nonlinear_arith);
        lemma_div_pos_is_pos(pn as int, qd as int);
    }
    let f: usize = (pn / qd) as usize;
    let rem: u64 = pn % qd;
    if rem == 0 {
        proof {
            assert((-3 * MAX_ABS as int) * (q.den as int) <= sorted@[f as int] as int <= (3
                * MAX_ABS as int) * (q.den as int)) by (nonlinear_arith)
                requires
                    -(MAX_ABS as int) <= sorted@[f as int] as int <= MAX_ABS as int,
                    1 <= q.den as int,
                    MAX_ABS as int >= 1,
            ;
        }
        Some(Ratio { num: sorted[f], den: 1 })
    } else {
        proof {
            lemma_fundamental_div_mod(pn as int, qd as int);
            if f as int == n as int - 1 {
                assert((qd as int) * ((n as int - 1) * q.num as int / qd as int) > (n as int - 1)
                    * q.den as int - qd as int) by (nonlinear_arith)
                    requires
                        (n as int - 1) * q.num as int == (qd as int) * ((n as int - 1) * q.num as int
                            / qd as int) + ((n as int - 1) * q.num as int % qd as int),
                        0 < ((n as int - 1) * (q.num as int)) % (qd as int) < (qd as int),
                        (n as int - 1) * q.num as int <= (n as int - 1) * q.den as int,
                        (n as int - 1) * q.num as int / qd as int == n as int - 1,
                        qd == q.den,
                ;
                assert((qd as int) * (n as int - 1) == (n as int - 1) * q.den as int)
                    by (nonlinear_arith)
                    requires qd == q.den;
                assert(false);
            }
            lemma_mul_abs_bound(sorted@[f as int] as int, q.den as int, MAX_ABS as int, MAX_QUANTILE_DEN as int);
            lemma_mul_abs_bound(
                rem as int,
                sorted@[f as int + 1] - sorted@[f as int],
                MAX_QUANTILE_DEN as int,
                2 * MAX_ABS as int,
            );
            lemma_mul_abs_bound(sorted@[f as int] as int, q.den as int, MAX_ABS as int, q.den as int);
            lemma_mul_abs_bound(
                rem as int,
                sorted@[f as int + 1] - sorted@[f as int],
                q.den as int,
                2 * MAX_ABS as int,
            );
            assert((-3 * MAX_ABS as int) * (q.den as int) <= (sorted@[f as int] * q.den) + (rem
                * (sorted@[f as int + 1] - sorted@[f as int])) <= (3 * MAX_ABS as int) * (
            q.den as int)) by (nonlinear_arith)
                requires
                    -((MAX_ABS as int) * (q.den as int)) <= sorted@[f as int] * q.den <= (
                    MAX_ABS as int) * (q.den as int),
                    -((q.den as int) * (2 * MAX_ABS as int)) <= rem * (sorted@[f as int + 1]
                        - sorted@[f as int]) <= (q.den as int) * (2 * MAX_ABS as int),
                    MAX_ABS as int >= 1,
                    q.den as int >= 1,
            ;
        }
        let num: i64 = sorted[f] * q.den + (rem as i64) * (sorted[f + 1] - sorted[f]);
        Some(Ratio { num, den: q.den })
    }
}

/// Interquartile range of the samples, as the exact difference of the
/// three-quarter and one-quarter quantiles of a sorted copy; the zero
/// ratio on empty input, where the quantiles have no value.
pub fn iqr(x: &Vec<i64>) -> (r: Ratio)
    requires
        valid_data(x@),
    ensures
        x@.len() == 0 ==> r == (Ratio { num: 0, den: 1 }),
        x@.len() > 0 ==> {
            &&& r.num == iqr_num(x@)
            &&& r.den == iqr_den(x@)
            &&& -96 * MAX_ABS <= r.num <= 96 * MAX_ABS
            &&& 1 <= r.den <= 16
        },
        r.wf(),
{
    let sorted = sort_samples(x);
    proof {
        assert forall|k: int| 0 <= k < sorted@.len() implies -MAX_ABS <= #[trigger] sorted@[k]
            <= MAX_ABS by {
            assert(x@.contains(sorted@[k]));
            let m = choose|m: int| 0 <= m < x@.len() && x@[m] == sorted@[k];
            assert(-MAX_ABS <= x@[m] <= MAX_ABS);
        }
    }
    let q3 = quantile(&sorted, Ratio { num: 3, den: 4 });
    let q1 = quantile(&sorted, Ratio { num: 1, den: 4 });
    match (q3, q1) {
        (Some(a), Some(b)) => {
            proof {
                lemma_mul_abs_bound(a.num as int, b.den as int, 12 * MAX_ABS as int, 4);
                lemma_mul_abs_bound(b.num as int, a.den as int, 12 * MAX_ABS as int, 4);
                lemma_mul_le_mul(a.den as int, b.den as int, 4, 4);
                lemma_mul_le_mul(1, 1, a.den as int, b.den as int);
            }
            Ratio { num: a.num * b.den - b.num * a.den, den: a.den * b.den }
        },
        _ => Ratio { num: 0, den: 1 },
    }
}

/// Every sample lies between the minimum and the maximum, and so within
/// the (possibly widened) data range.
pub proof fn lemma_min_max_bounds(s: Seq<i64>, j: int)
    requires
        0 <= j < s.len(),
    ensures
        seq_min(s) <= s[j] <= seq_max(s),
        range_lo(s) <= s[j] <= range_hi(s),
    decreases s.len(),
{
    if s.len() > 1 && j < s.len() - 1 {
        lemma_min_max_bounds(s.drop_last(), j);
    }
}

/// Minimum and maximum of the samples.  Constant data is widened by one
/// unit on each side so the range is never empty; the empty sample set
/// gets an inverted sentinel pair, the fixed-point stand-in for the
/// infinities a fold over nothing would leave behind.
pub fn data_min_max(x: &Vec<i64>) -> (r: (i64, i64))
    requires
        valid_data(x@),
    ensures
        x@.len() == 0 ==> r.0 == MAX_ABS && r.1 == -MAX_ABS,
        x@.len() > 0 ==> {
            &&& r.0 as int == range_lo(x@)
            &&& r.1 as int == range_hi(x@)
            &&& r.0 < r.1
            &&& -MAX_EDGE <= r.0
            &&& r.1 <= MAX_EDGE
        },
{
    if x.len() == 0 {
        return (MAX_ABS, -MAX_ABS);
    }
    let mut mn: i64 = x[0];
    let mut mx: i64 = x[0];
    let mut i: usize = 1;
    while i < x.len()
        invariant
            valid_data(x@),
            1 <= i <= x@.len(),
            mn as int == seq_min(x@.take(i as int)),
            mx as int == seq_max(x@.take(i as int)),
            -MAX_ABS <= mn <= mx <= MAX_ABS,
        decreases x@.len() - i,
    {
        proof {
            let t = x@.take(i as int + 1);
            assert(t.drop_last() =~= x@.take(i as int));
            assert(t.last() == x@[i as int]);
        }
        let v = x[i];
        if v < mn {
            mn = v;
        }
        if v > mx {
            mx = v;
        }
        i += 1;
    }
    proof {
        assert(x@.take(x@.len() as int) =~= x@);
    }
    if mn == mx {
        (mn - SCALE, mx + SCALE)
    } else {
        (mn, mx)
    }
}

} // verus!
