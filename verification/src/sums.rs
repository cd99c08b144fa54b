//! Sums over sequences, and the facts about them the statistics need.

use vstd::prelude::*;

verus! {

/// Sum of a sequence of samples.
pub open spec fn seq_sum(s: Seq<i64>) -> int
    decreases s.len(),
{
    if s.len() == 0 {
        0
    } else {
        seq_sum(s.drop_last()) + s.last()
    }
}

/// Sum of the squares of a sequence of samples.
pub open spec fn seq_sq_sum(s: Seq<i64>) -> int
    decreases s.len(),
{
    if s.len() == 0 {
        0
    } else {
        seq_sq_sum(s.drop_last()) + s.last() * s.last()
    }
}

/// Sum of a sequence of bin counts.
pub open spec fn count_sum(s: Seq<usize>) -> int
    decreases s.len(),
{
    if s.len() == 0 {
        0
    } else {
        count_sum(s.drop_last()) + s.last()
    }
}

/// Sum of a sequence of integers.
pub open spec fn int_sum(s: Seq<int>) -> int
    decreases s.len(),
{
    if s.len() == 0 {
        0
    } else {
        int_sum(s.drop_last()) + s.last()
    }
}

pub proof fn lemma_seq_sum_push(s: Seq<i64>, v: i64)
    ensures
        seq_sum(s.push(v)) == seq_sum(s) + v,
        seq_sq_sum(s.push(v)) == seq_sq_sum(s) + v * v,
{
    assert(s.push(v).drop_last() =~= s);
}

pub proof fn lemma_count_sum_push(s: Seq<usize>, v: usize)
    ensures
        count_sum(s.push(v)) == count_sum(s) + v,
{
    assert(s.push(v).drop_last() =~= s);
}

/// A sum of samples lies within `len * bound` of zero, and a sum of their
/// squares below `len * bound * bound`, when every sample is within `bound`.
pub proof fn lemma_seq_sum_bounds(s: Seq<i64>, bound: int)
    requires
        0 <= bound,
        forall|i: int| 0 <= i < s.len() ==> -bound <= #[trigger] s[i] <= bound,
    ensures
        -(s.len() * bound) <= seq_sum(s) <= s.len() * bound,
        0 <= seq_sq_sum(s) <= s.len() * (bound * bound),
    decreases s.len(),
{
    if s.len() > 0 {
        let t = s.drop_last();
        lemma_seq_sum_bounds(t, bound);
        crate::arith::lemma_mul_abs_bound(s.last() as int, s.last() as int, bound, bound);
        assert(s.last() * s.last() >= 0) by (nonlinear_arith);
        assert(t.len() * bound + bound == s.len() * bound) by (nonlinear_arith)
            requires t.len() + 1 == s.len();
        assert(t.len() * (bound * bound) + bound * bound == s.len() * (bound * bound))
            by (nonlinear_arith)
            requires t.len() + 1 == s.len();
    }
}

/// A sum of counts is nonnegative.
pub proof fn lemma_count_sum_nonneg(s: Seq<usize>)
    ensures
        count_sum(s) >= 0,
    decreases s.len(),
{
    if s.len() > 0 {
        lemma_count_sum_nonneg(s.drop_last());
    }
}

/// A prefix of the counts sums to no more than the whole.
pub proof fn lemma_count_sum_take_le(s: Seq<usize>, k: int)
    requires
        0 <= k <= s.len(),
    ensures
        count_sum(s.take(k)) <= count_sum(s),
    decreases s.len(),
{
    if k < s.len() {
        assert(s.take(k) =~= s.drop_last().take(k));
        lemma_count_sum_take_le(s.drop_last(), k);
    } else {
        assert(s.take(k) =~= s);
    }
}

/// A count sum agrees with the integer sum of the same values.
pub proof fn lemma_count_sum_eq_int_sum(c: Seq<usize>, s: Seq<int>)
    requires
        c.len() == s.len(),
        forall|i: int| 0 <= i < c.len() ==> #[trigger] c[i] as int == s[i],
    ensures
        count_sum(c) == int_sum(s),
    decreases c.len(),
{
    if c.len() > 0 {
        lemma_count_sum_eq_int_sum(c.drop_last(), s.drop_last());
    }
}

/// Each count is at most the sum of all of them.
pub proof fn lemma_count_le_sum(s: Seq<usize>, i: int)
    requires
        0 <= i < s.len(),
    ensures
        s[i] <= count_sum(s),
    decreases s.len(),
{
    if i == s.len() - 1 {
        lemma_count_sum_nonneg(s.drop_last());
    } else {
        lemma_count_le_sum(s.drop_last(), i);
    }
}

/// The sum of squared deviations of the samples from an arbitrary point,
/// expanded into the three plain sums it is built from.  Being a sum of
/// squares, it is also nonnegative.
proof fn lemma_sq_dev_expansion(s: Seq<i64>, y: int)
    ensures
        seq_sq_sum(s) + s.len() * (y * y) - 2 * seq_sum(s) * y >= 0,
    decreases s.len(),
{
    if s.len() == 0 {
        assert(s.len() * (y * y) == 0) by (nonlinear_arith)
            requires s.len() == 0;
        assert(2 * seq_sum(s) * y == 0) by (nonlinear_arith)
            requires seq_sum(s) == 0;
    } else {
        let t = s.drop_last();
        let l = s.last() as int;
        lemma_sq_dev_expansion(t, y);
        assert(seq_sq_sum(s) + s.len() * (y * y) - 2 * seq_sum(s) * y == (seq_sq_sum(t) + t.len()
            * (y * y) - 2 * seq_sum(t) * y) + (l - y) * (l - y)) by (nonlinear_arith)
            requires
                seq_sq_sum(s) == seq_sq_sum(t) + l * l,
                seq_sum(s) == seq_sum(t) + l,
                s.len() == t.len() + 1,
        ;
        assert((l - y) * (l - y) >= 0) by (nonlinear_arith);
    }
}

/// The numerator of the sample variance, `n * sum(x^2) - sum(x)^2`,
/// is never negative.
pub proof fn lemma_variance_num_nonneg(s: Seq<i64>)
    ensures
        s.len() * seq_sq_sum(s) - seq_sum(s) * seq_sum(s) >= 0,
    decreases s.len(),
{
    if s.len() == 0 {
        assert(s.len() * seq_sq_sum(s) == 0) by (nonlinear_arith)
            requires seq_sq_sum(s) == 0;
        assert(seq_sum(s) * seq_sum(s) == 0) by (nonlinear_arith)
            requires seq_sum(s) == 0;
    } else {
        let t = s.drop_last();
        let l = s.last() as int;
        lemma_variance_num_nonneg(t);
        lemma_sq_dev_expansion(t, l);
        assert(s.len() * seq_sq_sum(s) - seq_sum(s) * seq_sum(s) == (t.len() * seq_sq_sum(t)
            - seq_sum(t) * seq_sum(t)) + (seq_sq_sum(t) + t.len() * (l * l) - 2 * seq_sum(t) * l))
            by (nonlinear_arith)
            requires
                seq_sq_sum(s) == seq_sq_sum(t) + l * l,
                seq_sum(s) == seq_sum(t) + l,
                s.len() == t.len() + 1,
        ;
    }
}

} // verus!
