//! Plane geometry over integer coordinates: the point/vector type and the
//! box and circle membership tests that the quadtree and the flock share.

use vstd::prelude::*;

verus! {

/// Largest coordinate magnitude the library accepts; keeps every squared
/// distance within `i128`.
pub const COORD_LIMIT: i64 = 1_000_000_000_000_000_000;

/// A 2-D point or vector with integer coordinates.
#[derive(Clone, Copy, PartialEq, Eq, Structural, Debug)]
pub struct Vec2 {
    pub x: i64,
    pub y: i64,
}

pub open spec fn coord_ok(c: int) -> bool {
    -COORD_LIMIT <= c <= COORD_LIMIT
}

pub open spec fn pt_ok(p: Vec2) -> bool {
    coord_ok(p.x as int) && coord_ok(p.y as int)
}

/// A box given by its bottom-left and top-right corners, in range and in
/// the right order.
pub open spec fn box_ok(bl: Vec2, tr: Vec2) -> bool {
    pt_ok(bl) && pt_ok(tr) && bl.x <= tr.x && bl.y <= tr.y
}

/// Membership in the closed axis-aligned box `[bl, tr]`.
pub open spec fn in_box(p: Vec2, bl: Vec2, tr: Vec2) -> bool {
    bl.x <= p.x <= tr.x && bl.y <= p.y <= tr.y
}

/// Squared Euclidean distance between two points.
pub open spec fn dist_sq(p: Vec2, c: Vec2) -> int {
    (p.x - c.x) * (p.x - c.x) + (p.y - c.y) * (p.y - c.y)
}

/// Membership in the closed disc of radius `r` around `c`. A negative
/// radius admits nothing.
pub open spec fn in_circle(p: Vec2, c: Vec2, r: int) -> bool {
    r >= 0 && dist_sq(p, c) <= r * r
}

/// Largest coordinate magnitude of a vector handed to the magnitude
/// operations; keeps every product with a target magnitude within `i128`.
pub const VEC_LIMIT: i64 = 1_000_000_000_000_000;

/// Largest target magnitude of the magnitude operations.
pub const MAG_LIMIT: i64 = 1_000_000_000;

/// The floor of a vector's Euclidean length.
pub open spec fn norm(x: int, y: int) -> int {
    crate::num::sqrt_floor(x * x + y * y)
}

/// A vector re-targeted to magnitude `m`: each coordinate multiplied by
/// `m` and divided, rounding toward zero, by the vector's length; the
/// zero vector stays zero.
pub open spec fn scale_to(x: int, y: int, m: int) -> (int, int) {
    if x == 0 && y == 0 {
        (0, 0)
    } else {
        (crate::num::tdiv(x * m, norm(x, y)), crate::num::tdiv(y * m, norm(x, y)))
    }
}

/// A vector clamped to magnitude `m`: re-targeted downward when its
/// length exceeds `m`, untouched otherwise.
pub open spec fn limit_to(x: int, y: int, m: int) -> (int, int) {
    if x * x + y * y > m * m {
        scale_to(x, y, m)
    } else {
        (x, y)
    }
}

impl Vec2 {
    pub fn new(x: i64, y: i64) -> (v: Vec2)
        ensures
            v.x == x && v.y == y,
    {
        Vec2 { x, y }
    }

    /// Re-targets the vector to magnitude `m`, leaving the zero vector
    /// alone; the result is bounded by `m` in each coordinate.
    pub fn with_magnitude(self, m: i64) -> (r: Vec2)
        requires
            -VEC_LIMIT <= self.x <= VEC_LIMIT,
            -VEC_LIMIT <= self.y <= VEC_LIMIT,
            0 <= m <= MAG_LIMIT,
        ensures
            (r.x as int, r.y as int) == scale_to(self.x as int, self.y as int, m as int),
            -m <= r.x <= m,
            -m <= r.y <= m,
    {
        if self.x == 0 && self.y == 0 {
            return Vec2 { x: 0, y: 0 };
        }
        proof {
            crate::num::lemma_square_bound(self.x as int, VEC_LIMIT as int);
            crate::num::lemma_square_bound(self.y as int, VEC_LIMIT as int);
            assert(self.x != 0 ==> self.x as int * self.x as int >= 1) by (nonlinear_arith);
            assert(self.y != 0 ==> self.y as int * self.y as int >= 1) by (nonlinear_arith);
        }
        let xx: i128 = self.x as i128 * self.x as i128;
        let yy: i128 = self.y as i128 * self.y as i128;
        let n: u128 = (xx + yy) as u128;
        let len: u64 = crate::num::isqrt(n);
        proof {
            let xi = self.x as int;
            let yi = self.y as int;
            let l = len as int;
            assert(xx == xi * xi && yy == yi * yi);
            assert(xx + yy >= 1);
            assert(n as int == xx + yy);
            assert((l + 1) * (l + 1) > n as int);
            assert(l >= 1) by {
                if l == 0 {
                    assert((l + 1) * (l + 1) == 1) by (nonlinear_arith)
                        requires l == 0;
                }
            }
            assert(-l <= xi <= l) by {
                if xi > l {
                    crate::num::lemma_square_ordered(l + 1, xi);
                }
                if xi < -l {
                    crate::num::lemma_square_ordered(l + 1, -xi);
                    assert((-xi) * (-xi) == xi * xi) by (nonlinear_arith);
                }
            }
            assert(-l <= yi <= l) by {
                if yi > l {
                    crate::num::lemma_square_ordered(l + 1, yi);
                }
                if yi < -l {
                    crate::num::lemma_square_ordered(l + 1, -yi);
                    assert((-yi) * (-yi) == yi * yi) by (nonlinear_arith);
                }
            }
            assert(-(l * m) <= xi * m <= l * m) by (nonlinear_arith)
                requires
                    -l <= xi <= l,
                    m >= 0,
            ;
            assert(-(l * m) <= yi * m <= l * m) by (nonlinear_arith)
                requires
                    -l <= yi <= l,
                    m >= 0,
            ;
            assert(-(VEC_LIMIT as int * MAG_LIMIT as int) <= xi * m <= VEC_LIMIT as int
                * MAG_LIMIT as int) by (nonlinear_arith)
                requires
                    -VEC_LIMIT <= xi <= VEC_LIMIT,
                    0 <= m <= MAG_LIMIT,
            ;
            assert(-(VEC_LIMIT as int * MAG_LIMIT as int) <= yi * m <= VEC_LIMIT as int
                * MAG_LIMIT as int) by (nonlinear_arith)
                requires
                    -VEC_LIMIT <= yi <= VEC_LIMIT,
                    0 <= m <= MAG_LIMIT,
            ;
            crate::num::lemma_tdiv_ratio_bound(xi * m, l, m as int);
            crate::num::lemma_tdiv_ratio_bound(yi * m, l, m as int);
        }
        let sx: i128 = crate::num::div_trunc(self.x as i128 * m as i128, len as i128);
        let sy: i128 = crate::num::div_trunc(self.y as i128 * m as i128, len as i128);
        Vec2 { x: sx as i64, y: sy as i64 }
    }

    /// Clamps the vector's magnitude to at most `m`, leaving shorter
    /// vectors untouched; either way the result is bounded by `m` in each
    /// coordinate.
    pub fn limit_magnitude(self, m: i64) -> (r: Vec2)
        requires
            -VEC_LIMIT <= self.x <= VEC_LIMIT,
            -VEC_LIMIT <= self.y <= VEC_LIMIT,
            0 <= m <= MAG_LIMIT,
        ensures
            (r.x as int, r.y as int) == limit_to(self.x as int, self.y as int, m as int),
            -m <= r.x <= m,
            -m <= r.y <= m,
    {
        proof {
            crate::num::lemma_square_bound(self.x as int, VEC_LIMIT as int);
            crate::num::lemma_square_bound(self.y as int, VEC_LIMIT as int);
            crate::num::lemma_square_bound(m as int, MAG_LIMIT as int);
        }
        let xx: i128 = self.x as i128 * self.x as i128;
        let yy: i128 = self.y as i128 * self.y as i128;
        let mm: i128 = m as i128 * m as i128;
        if xx + yy > mm {
            self.with_magnitude(m)
        } else {
            proof {
                let xi = self.x as int;
                let yi = self.y as int;
                assert(xx == xi * xi && yy == yi * yi && mm == m as int * m as int);
                assert(xi * xi <= m as int * m as int);
                assert(yi * yi <= m as int * m as int);
                crate::num::lemma_sq_le_abs(xi, m as int);
                crate::num::lemma_sq_le_abs(yi, m as int);
            }
            self
        }
    }
}

/// The exact squared-distance test that `points_in_circle` applies to each
/// stored element.
pub fn within_circle(p: Vec2, c: Vec2, r: i64) -> (b: bool)
    requires
        pt_ok(p),
        pt_ok(c),
        -COORD_LIMIT <= r <= COORD_LIMIT,
    ensures
        b == in_circle(p, c, r as int),
{
    if r < 0 {
        return false;
    }
    let dx: i128 = p.x as i128 - c.x as i128;
    let dy: i128 = p.y as i128 - c.y as i128;
    let rr: i128 = r as i128;
    proof {
        crate::num::lemma_square_bound(dx as int, 2 * COORD_LIMIT as int);
        crate::num::lemma_square_bound(dy as int, 2 * COORD_LIMIT as int);
        crate::num::lemma_square_bound(rr as int, COORD_LIMIT as int);
    }
    dx * dx + dy * dy <= rr * rr
}

} // verus!
