//! Small arithmetic lemmas shared across the library.

use vstd::prelude::*;

verus! {

/// A product of values from two symmetric intervals lies in the product interval.
pub proof fn lemma_mul_abs_bound(a: int, b: int, bound_a: int, bound_b: int)
    by (nonlinear_arith)
    requires
        -bound_a <= a <= bound_a,
        -bound_b <= b <= bound_b,
    ensures
        -(bound_a * bound_b) <= a * b <= bound_a * bound_b,
{
}

/// Multiplication respects `<=` on both nonnegative factors.
pub proof fn lemma_mul_le_mul(a: int, b: int, c: int, d: int)
    by (nonlinear_arith)
    requires
        0 <= a <= c,
        0 <= b <= d,
    ensures
        a * b <= c * d,
{
}

} // verus!
