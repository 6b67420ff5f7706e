//! Integer helpers shared by the index and the flock: square bounds, a
//! floor square root, division that rounds toward zero, and the midpoint
//! of two coordinates.

use vstd::prelude::*;

verus! {

/// Squaring keeps a bound: `|a| <= b` gives `a * a <= b * b`.
pub proof fn lemma_square_bound(a: int, b: int)
    by (nonlinear_arith)
    requires
        -b <= a <= b,
    ensures
        0 <= a * a <= b * b,
{
}

/// Squaring is strictly monotone on nonnegative integers.
pub proof fn lemma_square_ordered(a: int, b: int)
    by (nonlinear_arith)
    requires
        0 <= a <= b,
    ensures
        a * a <= b * b,
{
}

/// A square below the square of a nonnegative bound pins the value
/// between the bound and its negation.
pub proof fn lemma_sq_le_abs(a: int, r: int)
    by (nonlinear_arith)
    requires
        r >= 0,
        a * a <= r * r,
    ensures
        -r <= a <= r,
{
}

/// `r` is the floor of the square root of `n`.
pub open spec fn is_sqrt_floor(n: int, r: int) -> bool {
    0 <= r && r * r <= n && n < (r + 1) * (r + 1)
}

/// The floor of the square root of a nonnegative integer.
pub open spec fn sqrt_floor(n: int) -> int {
    choose|r: int| is_sqrt_floor(n, r)
}

/// Any witness of `is_sqrt_floor` is the value of `sqrt_floor`.
pub proof fn lemma_sqrt_floor_unique(n: int, r: int)
    requires
        is_sqrt_floor(n, r),
    ensures
        sqrt_floor(n) == r,
{
    let w = sqrt_floor(n);
    assert(is_sqrt_floor(n, w));
    if w < r {
        lemma_square_ordered(w + 1, r);
        assert(false);
    }
    if r < w {
        lemma_square_ordered(r + 1, w);
        assert(false);
    }
}

/// Floor square root by bisection.
pub fn isqrt(n: u128) -> (r: u64)
    ensures
        is_sqrt_floor(n as int, r as int),
        r as int == sqrt_floor(n as int),
{
    let mut lo: u128 = 0;
    let mut hi: u128 = 0x1_0000_0000_0000_0000;
    assert((hi as int) * (hi as int) > n as int) by (nonlinear_arith)
        requires hi == 0x1_0000_0000_0000_0000u128 && n <= u128::MAX;
    while lo + 1 < hi
        invariant
            lo < hi <= 0x1_0000_0000_0000_0000u128,
            (lo as int) * (lo as int) <= n as int,
            (n as int) < (hi as int) * (hi as int),
        decreases hi - lo,
    {
        let mid: u128 = lo + (hi - lo) / 2;
        proof {
            lemma_square_bound(mid as int, 0xffff_ffff_ffff_ffffu64 as int);
        }
        if mid * mid <= n {
            lo = mid;
        } else {
            hi = mid;
        }
    }
    proof {
        lemma_sqrt_floor_unique(n as int, lo as int);
    }
    lo as u64
}

/// Quotient of `a` by positive `b`, rounded toward zero, as machine
/// division rounds.
pub open spec fn tdiv(a: int, b: int) -> int {
    if a >= 0 {
        a / b
    } else {
        -((-a) / b)
    }
}

/// Rounding toward zero never enlarges a bound on the dividend.
pub proof fn lemma_tdiv_bound(a: int, b: int, m: int)
    by (nonlinear_arith)
    requires
        b > 0,
        0 <= m,
        -m <= a <= m,
    ensures
        -m <= tdiv(a, b) <= m,
{
}

/// A dividend bounded by `b * m` divides by `b` into a quotient bounded
/// by `m`.
pub proof fn lemma_tdiv_ratio_bound(a: int, b: int, m: int)
    requires
        b > 0,
        0 <= m,
        -(b * m) <= a <= b * m,
    ensures
        -m <= tdiv(a, b) <= m,
{
    vstd::arithmetic::div_mod::lemma_div_multiples_vanish(m, b);
    if a >= 0 {
        vstd::arithmetic::div_mod::lemma_div_pos_is_pos(a, b);
        vstd::arithmetic::div_mod::lemma_div_is_ordered(a, b * m, b);
    } else {
        vstd::arithmetic::div_mod::lemma_div_pos_is_pos(-a, b);
        vstd::arithmetic::div_mod::lemma_div_is_ordered(-a, b * m, b);
    }
}

/// Truncating division on `i128`, avoiding the one overflowing dividend.
pub fn div_trunc(a: i128, b: i128) -> (q: i128)
    requires
        b > 0,
        a > i128::MIN,
    ensures
        q == tdiv(a as int, b as int),
{
    if a >= 0 {
        let q0: u128 = (a as u128) / (b as u128);
        assert(q0 <= a as u128) by (nonlinear_arith)
            requires q0 == (a as u128) / (b as u128) && b as u128 >= 1;
        q0 as i128
    } else {
        let m: u128 = (-a) as u128;
        let q0: u128 = m / (b as u128);
        assert(q0 <= m) by (nonlinear_arith)
            requires q0 == m / (b as u128) && b as u128 >= 1;
        -(q0 as i128)
    }
}

/// The midpoint of two coordinates, rounded down.
pub open spec fn mid_spec(a: int, b: int) -> int {
    (a + b) / 2
}

/// The midpoint lies within the pair that encloses it.
pub proof fn lemma_mid_between(a: int, b: int)
    by (nonlinear_arith)
    requires
        a <= b,
    ensures
        a <= mid_spec(a, b) <= b,
{
}

/// Midpoint of two coordinates without overflowing their sum.
pub fn mid64(a: i64, b: i64) -> (m: i64)
    requires
        a <= b,
    ensures
        m == mid_spec(a as int, b as int),
        a <= m <= b,
{
    proof {
        lemma_mid_between(a as int, b as int);
    }
    let s: i128 = a as i128 + b as i128;
    let m128: i128 = if s >= 0 {
        ((s as u128) / 2) as i128
    } else {
        let t: u128 = (-s) as u128;
        let q: u128 = t / 2;
        if t % 2 == 0 {
            -(q as i128)
        } else {
            -(q as i128) - 1
        }
    };
    m128 as i64
}

} // verus!
