//! Exact rational values.
//!
//! A [`Ratio`] is a plain numerator/denominator pair.  The library never
//! reduces fractions: a value produced by one of the statistics or
//! normalization functions carries exactly the numerator and denominator
//! its contract states, so callers can reason about both fields.

use vstd::prelude::*;

verus! {

/// An exact rational number `num / den`; well-formed when `den >= 1`.
#[derive(Clone, Copy, PartialEq, Eq, Structural, Debug)]
pub struct Ratio {
    pub num: i64,
    pub den: i64,
}

impl Ratio {
    /// A well-formed ratio has a positive denominator.
    pub open spec fn wf(self) -> bool {
        self.den >= 1
    }

    /// The ratio `n / 1`.
    pub fn whole(n: i64) -> (r: Ratio)
        ensures
            r.num == n,
            r.den == 1,
            r.wf(),
    {
        Ratio { num: n, den: 1 }
    }

    /// Two ratios stand for the same rational number when they agree
    /// after cross-multiplication.
    pub open spec fn equiv(self, other: Ratio) -> bool {
        self.num * other.den == other.num * self.den
    }

    /// Decides [`Ratio::equiv`].
    pub fn same_value(&self, other: &Ratio) -> (r: bool)
        ensures
            r == self.equiv(*other),
    {
        let a: i128 = self.num as i128;
        let b: i128 = other.den as i128;
        let c: i128 = other.num as i128;
        let d: i128 = self.den as i128;
        proof {
            crate::arith::lemma_mul_abs_bound(a as int, b as int, 0x8000_0000_0000_0000, 0x8000_0000_0000_0000);
            crate::arith::lemma_mul_abs_bound(c as int, d as int, 0x8000_0000_0000_0000, 0x8000_0000_0000_0000);
        }
        a * b == c * d
    }
}

} // verus!
