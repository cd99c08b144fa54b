//! Integer square and cube roots, used by the bin-count heuristics.

use vstd::prelude::*;

verus! {

/// `r` is the floor of the square root of `v`.
pub open spec fn is_sqrt_floor(r: int, v: int) -> bool {
    &&& 0 <= r
    &&& r * r <= v
    &&& v < (r + 1) * (r + 1)
}

/// The floor of the square root of a nonnegative `v`.
pub open spec fn sqrt_floor(v: int) -> int
    recommends
        0 <= v,
{
    choose|r: int| is_sqrt_floor(r, v)
}

/// `c` is the floor of the cube root of `v`.
pub open spec fn is_cbrt_floor(c: int, v: int) -> bool {
    &&& 0 <= c
    &&& c * c * c <= v
    &&& v < (c + 1) * (c + 1) * (c + 1)
}

/// The floor of the cube root of a nonnegative `v`.
pub open spec fn cbrt_floor(v: int) -> int
    recommends
        0 <= v,
{
    choose|c: int| is_cbrt_floor(c, v)
}

/// Only one integer is the floor of the square root of `v`.
pub proof fn lemma_sqrt_floor_unique(r1: int, r2: int, v: int)
    by (nonlinear_arith)
    requires
        is_sqrt_floor(r1, v),
        is_sqrt_floor(r2, v),
    ensures
        r1 == r2,
{
}

/// Only one integer is the floor of the cube root of `v`.
pub proof fn lemma_cbrt_floor_unique(c1: int, c2: int, v: int)
    by (nonlinear_arith)
    requires
        is_cbrt_floor(c1, v),
        is_cbrt_floor(c2, v),
    ensures
        c1 == c2,
{
}

/// Every nonnegative `v` has a square-root floor, so `sqrt_floor(v)` is it.
pub proof fn lemma_sqrt_floor_exists(v: int)
    requires
        0 <= v,
    ensures
        is_sqrt_floor(sqrt_floor(v), v),
    decreases v,
{
    if v == 0 {
        assert(is_sqrt_floor(0, 0)) by (nonlinear_arith);
    } else {
        lemma_sqrt_floor_exists(v - 1);
        let r = sqrt_floor(v - 1);
        if v < (r + 1) * (r + 1) {
            assert(is_sqrt_floor(r, v));
        } else {
            assert(is_sqrt_floor(r + 1, v)) by (nonlinear_arith)
                requires
                    is_sqrt_floor(r, v - 1),
                    v >= (r + 1) * (r + 1),
            ;
        }
    }
}

/// Every nonnegative `v` has a cube-root floor, so `cbrt_floor(v)` is it.
pub proof fn lemma_cbrt_floor_exists(v: int)
    requires
        0 <= v,
    ensures
        is_cbrt_floor(cbrt_floor(v), v),
    decreases v,
{
    if v == 0 {
        assert(is_cbrt_floor(0, 0)) by (nonlinear_arith);
    } else {
        lemma_cbrt_floor_exists(v - 1);
        let c = cbrt_floor(v - 1);
        if v < (c + 1) * (c + 1) * (c + 1) {
            assert(is_cbrt_floor(c, v));
        } else {
            assert(is_cbrt_floor(c + 1, v)) by (nonlinear_arith)
                requires
                    is_cbrt_floor(c, v - 1),
                    v >= (c + 1) * (c + 1) * (c + 1),
            ;
        }
    }
}

/// Floor of the square root, by bisection.
pub fn isqrt(v: u128) -> (r: u64)
    requires
        v < 0x1000_0000_0000_0000_0000_0000_0000_0000,
    ensures
        r as int == sqrt_floor(v as int),
        is_sqrt_floor(r as int, v as int),
{
    let mut lo: u128 = 0;
    let mut hi: u128 = 0x8000_0000_0000_0000;
    proof {
        assert(hi * hi == 0x4000_0000_0000_0000_0000_0000_0000_0000);
    }
    while lo + 1 < hi
        invariant
            lo < hi,
            hi <= 0x8000_0000_0000_0000,
            lo * lo <= v as int,
            (v as int) < hi * hi,
        decreases hi - lo,
    {
        let mid: u128 = lo + (hi - lo) / 2;
        proof {
            crate::arith::lemma_mul_le_mul(mid as int, mid as int, 0x8000_0000_0000_0000, 0x8000_0000_0000_0000);
        }
        if mid * mid <= v {
            lo = mid;
        } else {
            hi = mid;
        }
    }
    proof {
        assert(is_sqrt_floor(lo as int, v as int));
        lemma_sqrt_floor_exists(v as int);
        lemma_sqrt_floor_unique(lo as int, sqrt_floor(v as int), v as int);
    }
    lo as u64
}

/// Floor of the cube root, by bisection; enough range for any sample count.
pub fn icbrt(v: u64) -> (r: u64)
    requires
        v < 0x1_0000_0000_0000,
    ensures
        r as int == cbrt_floor(v as int),
        is_cbrt_floor(r as int, v as int),
{
    let mut lo: u64 = 0;
    let mut hi: u64 = 0x1_0000;
    proof {
        assert(hi * hi * hi == 0x1_0000_0000_0000);
    }
    while lo + 1 < hi
        invariant
            lo < hi,
            hi <= 0x1_0000,
            lo * lo * lo <= v as int,
            (v as int) < hi * hi * hi,
        decreases hi - lo,
    {
        let mid: u64 = lo + (hi - lo) / 2;
        proof {
            crate::arith::lemma_mul_le_mul(mid as int, mid as int, 0x1_0000, 0x1_0000);
            crate::arith::lemma_mul_le_mul(mid * mid, mid as int, 0x1_0000_0000, 0x1_0000);
        }
        if mid * mid * mid <= v {
            lo = mid;
        } else {
            hi = mid;
        }
    }
    proof {
        assert(is_cbrt_floor(lo as int, v as int));
        lemma_cbrt_floor_exists(v as int);
        lemma_cbrt_floor_unique(lo as int, cbrt_floor(v as int), v as int);
    }
    lo as u64
}

} // verus!
