//! Bin-count heuristics: Sturges, square-root, Scott, Freedman-Diaconis,
//! and the automatic rule combining Sturges with Freedman-Diaconis.
//!
//! Each heuristic returns a positive bin count for any sample set,
//! including empty or constant data.  Where the textbook formulas take
//! real logarithms and roots, these work on the fixed-point scale with
//! integer floors and ceilings, and their contracts state that integer
//! formula exactly.

use vstd::prelude::*;
use vstd::arithmetic::power2::{lemma2_to64, lemma_pow2_strictly_increases, lemma_pow2_unfold, pow2};
use vstd::arithmetic::div_mod::{lemma_div_is_ordered, lemma_div_multiples_vanish, lemma_div_pos_is_pos};
use crate::arith::lemma_mul_le_mul;
use crate::ratio::Ratio;
use crate::roots::{cbrt_floor, icbrt, is_cbrt_floor, isqrt, sqrt_floor};
use crate::stats::{data_min_max, iqr, iqr_den, iqr_num, range_hi, range_lo, std_dev, std_dev_spec};
use crate::{valid_data, MAX_ABS, MAX_LEN};

verus! {

/// Ceiling of the division `a / b`.
pub open spec fn ceil_div(a: int, b: int) -> int
    recommends
        0 <= a,
        1 <= b,
{
    (a + b - 1) / b
}

/// Number of binary doublings needed to reach `m`: the ceiling of the
/// base-two logarithm.
pub open spec fn clog2(m: nat) -> nat
    decreases m,
{
    if m <= 1 {
        0
    } else {
        (1 + clog2(((m + 1) / 2) as nat)) as nat
    }
}

/// `clog2` is what its name says: `pow2(clog2(m))` reaches `m`, and one
/// doubling fewer falls short.
pub proof fn lemma_clog2_is_ceil_log2(m: nat)
    requires
        m >= 1,
    ensures
        pow2(clog2(m)) >= m,
        m >= 2 ==> pow2((clog2(m) - 1) as nat) < m,
    decreases m,
{
    lemma2_to64();
    if m >= 2 {
        let h = ((m + 1) / 2) as nat;
        lemma_clog2_is_ceil_log2(h);
        lemma_pow2_unfold(clog2(m));
        assert(pow2(clog2(m)) == 2 * pow2(clog2(h)));
        if h >= 2 {
            lemma_pow2_unfold(clog2(h));
            assert(pow2(clog2(h)) == 2 * pow2((clog2(h) - 1) as nat));
        }
    }
}

/// Sturges' rule: one more than the ceiling of the base-two logarithm of
/// the sample count, floored at one sample.
pub open spec fn sturges_spec(n: int) -> int {
    clog2((if n >= 1 {
        n
    } else {
        1
    }) as nat) + 1int
}

/// Square-root rule: the ceiling of the square root of the sample count,
/// floored at one sample.
pub open spec fn sqrt_rule_spec(n: int) -> int {
    let m = if n >= 1 {
        n
    } else {
        1
    };
    let s = sqrt_floor(m);
    if s * s == m {
        s
    } else {
        s + 1
    }
}

/// The count `max(len, 2)` the width rules divide their cube root by.
pub open spec fn spread_n(s: Seq<i64>) -> int {
    if s.len() < 2 {
        2
    } else {
        s.len() as int
    }
}

/// Scott's rule on the fixed-point scale: bin width
/// `3.5 * std_dev / cbrt(n)` rounded down and floored at one tick, then
/// the ceiling of the data range over that width, floored at one bin.
pub open spec fn scott_spec(s: Seq<i64>) -> int
    recommends
        s.len() > 0,
{
    let sd0 = std_dev_spec(s);
    let sd = if sd0 < 1 {
        1
    } else {
        sd0
    };
    let c = cbrt_floor(spread_n(s));
    let bw0 = (7 * sd) / (2 * c);
    let bw = if bw0 < 1 {
        1
    } else {
        bw0
    };
    let k = ceil_div(range_hi(s) - range_lo(s), bw);
    if k < 1 {
        1
    } else {
        k
    }
}

/// The Freedman-Diaconis rule on the fixed-point scale: bin width
/// `2 * IQR / cbrt(n)` rounded down and floored at one tick, then the
/// ceiling of the data range over that width, floored at one bin.  A
/// negative interquartile ratio is clamped to zero before use, so the
/// width floor of one tick takes over, as it does for zero spread.
pub open spec fn fd_spec(s: Seq<i64>) -> int
    recommends
        s.len() > 0,
{
    let inum0 = iqr_num(s);
    let inum = if inum0 < 0 {
        0
    } else {
        inum0
    };
    let c = cbrt_floor(spread_n(s));
    let bw0 = (2 * inum) / (iqr_den(s) * c);
    let bw = if bw0 < 1 {
        1
    } else {
        bw0
    };
    let k = ceil_div(range_hi(s) - range_lo(s), bw);
    if k < 1 {
        1
    } else {
        k
    }
}

/// The automatic rule: the larger of Sturges and Freedman-Diaconis,
/// floored at one bin.
pub open spec fn auto_spec(s: Seq<i64>) -> int
    recommends
        s.len() > 0,
{
    let k1 = sturges_spec(s.len() as int);
    let k2 = fd_spec(s);
    let m = if k1 >= k2 {
        k1
    } else {
        k2
    };
    if m < 1 {
        1
    } else {
        m
    }
}

/// Sturges' rule: `ceil(log2(n) + 1)` bins, at least one.
pub fn bins_sturges(n: usize) -> (r: usize)
    requires
        n <= MAX_LEN,
    ensures
        r as int == sturges_spec(n as int),
        r >= 1,
{
    let m: usize = if n == 0 {
        1
    } else {
        n
    };
    proof {
        lemma2_to64();
    }
    let mut k: usize = 0;
    let mut p: usize = 1;
    while p < m
        invariant
            m <= MAX_LEN,
            1 <= p,
            p == pow2(k as nat),
            k == 0 || pow2((k - 1) as nat) < m,
            p < 2 * m,
            k <= 17,
        decreases 2 * m - p,
    {
        proof {
            lemma2_to64();
            if k >= 17 {
                assert(pow2(17) == 0x20000);
                assert(false);
            }
            lemma_pow2_unfold((k + 1) as nat);
        }
        p = p * 2;
        k = k + 1;
    }
    proof {
        lemma_clog2_is_ceil_log2(m as nat);
        let kc = clog2(m as nat);
        if (k as nat) < kc {
            assert(pow2((kc - 1) as nat) < m);
            if (k as nat) < kc - 1 {
                lemma_pow2_strictly_increases(k as nat, (kc - 1) as nat);
            }
            assert(pow2(k as nat) < m);
            assert(false);
        }
        if (k as nat) > kc {
            assert(pow2((k - 1) as nat) < m);
            if kc < (k - 1) as nat {
                lemma_pow2_strictly_increases(kc, (k - 1) as nat);
            }
            assert(pow2(kc) < m);
            assert(false);
        }
    }
    k + 1
}

/// Square-root rule: `ceil(sqrt(n))` bins, at least one.
pub fn bins_sqrt(n: usize) -> (r: usize)
    requires
        n <= MAX_LEN,
    ensures
        r as int == sqrt_rule_spec(n as int),
        r >= 1,
{
    let m: usize = if n == 0 {
        1
    } else {
        n
    };
    let s: u64 = isqrt(m as u128);
    proof {
        assert(s as int * (s as int) <= m);
        assert(1 <= s as int <= m) by (nonlinear_arith)
            requires
                s as int * (s as int) <= m as int,
                (m as int) < (s as int + 1) * (s as int + 1),
                0 <= s as int,
                1 <= m as int,
        ;
    }
    if (s as usize) * (s as usize) == m {
        s as usize
    } else {
        (s as usize) + 1
    }
}

/// Bounds the cube root of a bounded sample count.
proof fn lemma_cbrt_small(c: int, n: int)
    by (nonlinear_arith)
    requires
        is_cbrt_floor(c, n),
        2 <= n <= MAX_LEN,
    ensures
        1 <= c <= 47,
{
}

/// Scott's rule: bin width `3.5 * std_dev / cbrt(n)`, guarded against a
/// vanishing width; one bin for empty data.
pub fn bins_scott(data: &Vec<i64>) -> (r: u64)
    requires
        valid_data(data@),
    ensures
        data@.len() == 0 ==> r as int == 1,
        data@.len() > 0 ==> r as int == scott_spec(data@),
        r >= 1,
{
    if data.len() == 0 {
        return 1;
    }
    let sd0: i64 = std_dev(data);
    let sd: u64 = if sd0 < 1 {
        1
    } else {
        sd0 as u64
    };
    let n2: u64 = if data.len() < 2 {
        2
    } else {
        data.len() as u64
    };
    let c: u64 = icbrt(n2);
    proof {
        lemma_cbrt_small(c as int, n2 as int);
        lemma_div_pos_is_pos(7 * sd as int, 2 * c as int);
    }
    let bw0: u64 = (7 * sd) / (2 * c);
    let bw: u64 = if bw0 < 1 {
        1
    } else {
        bw0
    };
    proof {
        lemma_div_is_ordered(7 * sd as int, 7 * (2 * MAX_ABS as int), 2 * c as int);
        lemma_div_is_ordered((7 * sd as int) / (2 * c as int), 7 * (2 * MAX_ABS as int), 2);
        assert((7 * (2 * MAX_ABS as int)) / (2 * (c as int)) <= 7 * (2 * MAX_ABS as int))
            by (nonlinear_arith)
            requires c as int >= 1, MAX_ABS as int >= 1,
        ;
    }
    let (mn, mx) = data_min_max(data);
    let range: u64 = (mx - mn) as u64;
    let kq: u64 = (range + bw - 1) / bw;
    proof {
        lemma_div_pos_is_pos(range as int + bw as int - 1, bw as int);
        assert(range as int + bw as int - 1 <= range as int * bw as int) by (nonlinear_arith)
            requires range as int >= 1, bw as int >= 1,
        ;
        lemma_div_is_ordered(range as int + bw as int - 1, range as int * bw as int, bw as int);
        assert((range as int * bw as int) / (bw as int) == range as int) by {
            lemma_div_multiples_vanish(range as int, bw as int);
            assert(range as int * bw as int == bw as int * range as int) by (nonlinear_arith);
        }
    }
    if kq < 1 {
        1
    } else {
        kq
    }
}

/// The Freedman-Diaconis rule: bin width `2 * IQR / cbrt(n)`, guarded
/// against a vanishing width; one bin for empty data.
pub fn bins_fd(data: &Vec<i64>) -> (r: u64)
    requires
        valid_data(data@),
    ensures
        data@.len() == 0 ==> r as int == 1,
        data@.len() > 0 ==> r as int == fd_spec(data@),
        r >= 1,
{
    if data.len() == 0 {
        return 1;
    }
    let iq: Ratio = iqr(data);
    let inum: u64 = if iq.num < 0 {
        0
    } else {
        iq.num as u64
    };
    let n2: u64 = if data.len() < 2 {
        2
    } else {
        data.len() as u64
    };
    let c: u64 = icbrt(n2);
    proof {
        lemma_cbrt_small(c as int, n2 as int);
        lemma_mul_le_mul(iq.den as int, c as int, 16, 47);
        lemma_mul_le_mul(1, 1, iq.den as int, c as int);
        lemma_div_pos_is_pos(2 * inum as int, iq.den as int * c as int);
    }
    let bw0: u64 = (2 * inum) / ((iq.den as u64) * c);
    let bw: u64 = if bw0 < 1 {
        1
    } else {
        bw0
    };
    proof {
        lemma_div_is_ordered(2 * inum as int, 2 * (96 * MAX_ABS as int), iq.den as int * c as int);
        assert((2 * (96 * MAX_ABS as int)) / (iq.den as int * c as int) <= 2 * (96
            * MAX_ABS as int)) by (nonlinear_arith)
            requires iq.den as int * c as int >= 1, MAX_ABS as int >= 1,
        ;
    }
    let (mn, mx) = data_min_max(data);
    let range: u64 = (mx - mn) as u64;
    let kq: u64 = (range + bw - 1) / bw;
    proof {
        lemma_div_pos_is_pos(range as int + bw as int - 1, bw as int);
        assert(range as int + bw as int - 1 <= range as int * bw as int) by (nonlinear_arith)
            requires range as int >= 1, bw as int >= 1,
        ;
        lemma_div_is_ordered(range as int + bw as int - 1, range as int * bw as int, bw as int);
        assert((range as int * bw as int) / (bw as int) == range as int) by {
            lemma_div_multiples_vanish(range as int, bw as int);
            assert(range as int * bw as int == bw as int * range as int) by (nonlinear_arith);
        }
    }
    if kq < 1 {
        1
    } else {
        kq
    }
}

/// The automatic rule: `max(sturges, freedman_diaconis)`, at least one
/// bin, and so never fewer bins than Sturges suggests.
pub fn bins_auto(data: &Vec<i64>) -> (r: u64)
    requires
        valid_data(data@),
    ensures
        data@.len() == 0 ==> r as int == 1,
        data@.len() > 0 ==> r as int == auto_spec(data@),
        r >= 1,
        r as int >= sturges_spec(data@.len() as int),
        data@.len() > 0 ==> r as int >= fd_spec(data@),
{
    let k1: u64 = bins_sturges(data.len()) as u64;
    if data.len() == 0 {
        return k1;
    }
    let k2: u64 = bins_fd(data);
    let m: u64 = if k1 >= k2 {
        k1
    } else {
        k2
    };
    if m < 1 {
        1
    } else {
        m
    }
}

} // verus!
