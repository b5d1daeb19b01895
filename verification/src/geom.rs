//! Plane geometry for the engine: positions and velocity vectors as
//! fixed-point pairs, with the vector operations the collision rule uses.
//!
//! The mathematical model of both a position and a vector is [`V2`], a pair
//! of unbounded integers; every executable operation's contract states its
//! result exactly over that model.

use vstd::prelude::*;
use crate::math::{div_trunc, isqrt64, isqrt_spec, lemma_tdiv_le, lemma_tdiv_neg_divisor, tdiv};
use crate::SCALE;

verus! {

/// Model of a position or vector: a pair of unbounded fixed-point integers.
pub ghost struct V2 {
    pub x: int,
    pub y: int,
}

/// Both coordinates lie within `[-b, b]`.
pub open spec fn in_range(v: V2, b: int) -> bool {
    &&& -b <= v.x <= b
    &&& -b <= v.y <= b
}

/// Componentwise sum.
pub open spec fn add_v(a: V2, b: V2) -> V2 {
    V2 { x: a.x + b.x, y: a.y + b.y }
}

/// Componentwise difference.
pub open spec fn sub_v(a: V2, b: V2) -> V2 {
    V2 { x: a.x - b.x, y: a.y - b.y }
}

/// Fixed-point dot product: the coordinate products are rescaled by one
/// factor of [`SCALE`], rounding toward zero.
pub open spec fn dot_v(a: V2, b: V2) -> int {
    tdiv(a.x * b.x + a.y * b.y, SCALE as int)
}

/// Fixed-point scaling of a vector by the fixed-point scalar `k`.
pub open spec fn scale_v(v: V2, k: int) -> V2 {
    V2 { x: tdiv(v.x * k, SCALE as int), y: tdiv(v.y * k, SCALE as int) }
}

/// Componentwise division by a plain (not fixed-point) quantity, rounding
/// toward zero.
pub open spec fn div_v(v: V2, k: int) -> V2 {
    V2 { x: tdiv(v.x, k), y: tdiv(v.y, k) }
}

/// Squared length, exact (not rescaled).
pub open spec fn len2_v(v: V2) -> int {
    v.x * v.x + v.y * v.y
}

/// Squared Euclidean distance between two positions.
pub open spec fn dist2(p: V2, q: V2) -> int {
    len2_v(sub_v(q, p))
}

/// Normalization to (fixed-point) unit length. The length is computed at
/// sub-fixed-point granularity — the square root of `len2 * SCALE^2` is the
/// length in units of `1 / SCALE` — so the relative rounding error is on the
/// order of `1 / SCALE` for every non-zero input, however short. A vector of
/// squared length zero is returned unchanged, the guard against dividing by
/// zero.
pub open spec fn norm_v(v: V2) -> V2 {
    if len2_v(v) == 0 {
        v
    } else {
        let l = isqrt_spec((len2_v(v) * SCALE * SCALE) as nat) as int;
        V2 { x: tdiv(v.x * SCALE * SCALE, l), y: tdiv(v.y * SCALE * SCALE, l) }
    }
}

/// A mutable position in the arena.
#[derive(Clone, Copy, PartialEq, Eq, Structural, Debug)]
pub struct Point2D {
    pub x: i64,
    pub y: i64,
}

/// A velocity vector; not unit length in general.
#[derive(Clone, Copy, PartialEq, Eq, Structural, Debug)]
pub struct Vector2D {
    pub x: i64,
    pub y: i64,
}

impl View for Point2D {
    type V = V2;

    open spec fn view(&self) -> V2 {
        V2 { x: self.x as int, y: self.y as int }
    }
}

impl View for Vector2D {
    type V = V2;

    open spec fn view(&self) -> V2 {
        V2 { x: self.x as int, y: self.y as int }
    }
}

impl Vector2D {
    /// Componentwise sum.
    pub fn add(&self, other: &Vector2D) -> (r: Vector2D)
        requires
            i64::MIN <= self@.x + other@.x <= i64::MAX,
            i64::MIN <= self@.y + other@.y <= i64::MAX,
        ensures
            r@ == add_v(self@, other@),
    {
        Vector2D { x: self.x + other.x, y: self.y + other.y }
    }

    /// Componentwise difference.
    pub fn subtract(&self, other: &Vector2D) -> (r: Vector2D)
        requires
            i64::MIN <= self@.x - other@.x <= i64::MAX,
            i64::MIN <= self@.y - other@.y <= i64::MAX,
        ensures
            r@ == sub_v(self@, other@),
    {
        Vector2D { x: self.x - other.x, y: self.y - other.y }
    }

    /// Fixed-point dot product of two raw direction vectors.
    pub fn dot(&self, other: &Vector2D) -> (r: i64)
        requires
            in_range(self@, 0x4000_0000),
            in_range(other@, 0x4000_0000),
        ensures
            r == dot_v(self@, other@),
    {
        proof {
            assert(-0x1000_0000_0000_0000int <= self@.x * other@.x <= 0x1000_0000_0000_0000int
                && -0x1000_0000_0000_0000int <= self@.y * other@.y <= 0x1000_0000_0000_0000int)
                by (nonlinear_arith)
                requires
                    in_range(self@, 0x4000_0000),
                    in_range(other@, 0x4000_0000),
            ;
        }
        let s: i64 = self.x * other.x + self.y * other.y;
        div_trunc(s, SCALE)
    }

    /// Componentwise fixed-point scaling by `k`.
    pub fn scale(&self, k: i64) -> (r: Vector2D)
        requires
            in_range(self@, 0x4000_0000),
            -0x4000_0000 <= k <= 0x4000_0000,
        ensures
            r@ == scale_v(self@, k as int),
    {
        proof {
            assert(-0x1000_0000_0000_0000int <= self@.x * k <= 0x1000_0000_0000_0000int
                && -0x1000_0000_0000_0000int <= self@.y * k <= 0x1000_0000_0000_0000int)
                by (nonlinear_arith)
                requires
                    in_range(self@, 0x4000_0000),
                    -0x4000_0000 <= k <= 0x4000_0000,
            ;
        }
        Vector2D { x: div_trunc(self.x * k, SCALE), y: div_trunc(self.y * k, SCALE) }
    }

    /// Componentwise division by any non-zero plain quantity, rounding toward
    /// zero.
    pub fn divide(&self, value: i64) -> (r: Vector2D)
        requires
            value != 0,
            value > i64::MIN,
            self@.x > i64::MIN,
            self@.y > i64::MIN,
        ensures
            r@ == div_v(self@, value as int),
    {
        if value >= 1 {
            Vector2D { x: div_trunc(self.x, value), y: div_trunc(self.y, value) }
        } else {
            let d: i64 = -value;
            proof {
                lemma_tdiv_neg_divisor(self@.x, value as int);
                lemma_tdiv_neg_divisor(self@.y, value as int);
                assert(d as int * (if self@.x >= 0 {
                    self@.x
                } else {
                    -self@.x
                }) >= (if self@.x >= 0 {
                    self@.x
                } else {
                    -self@.x
                }) && d as int * (if self@.y >= 0 {
                    self@.y
                } else {
                    -self@.y
                }) >= (if self@.y >= 0 {
                    self@.y
                } else {
                    -self@.y
                })) by (nonlinear_arith)
                    requires
                        d >= 1,
                ;
                lemma_tdiv_le(self@.x, d as int, if self@.x >= 0 {
                    self@.x
                } else {
                    -self@.x
                });
                lemma_tdiv_le(self@.y, d as int, if self@.y >= 0 {
                    self@.y
                } else {
                    -self@.y
                });
            }
            let qx = div_trunc(self.x, d);
            let qy = div_trunc(self.y, d);
            Vector2D { x: -qx, y: -qy }
        }
    }

    /// Exact squared length.
    pub fn length_sq(&self) -> (r: i64)
        requires
            in_range(self@, 0x4000_0000),
        ensures
            r == len2_v(self@),
            r >= 0,
    {
        proof {
            assert(0 <= self@.x * self@.x <= 0x1000_0000_0000_0000int
                && 0 <= self@.y * self@.y <= 0x1000_0000_0000_0000int) by (nonlinear_arith)
                requires
                    in_range(self@, 0x4000_0000),
            ;
        }
        self.x * self.x + self.y * self.y
    }

    /// Normalize to fixed-point unit length, with the zero-length guard: a
    /// vector of squared length zero comes back unchanged. The square root is
    /// taken at sub-fixed-point granularity, so every non-zero input, however
    /// short, comes out near unit length.
    pub fn normalize(&self) -> (r: Vector2D)
        requires
            in_range(self@, 16 * SCALE as int),
        ensures
            r@ == norm_v(self@),
            len2_v(self@) != 0 ==> in_range(r@, SCALE as int),
            len2_v(self@) == 0 ==> r@ == self@,
    {
        let n = self.length_sq();
        if n == 0 {
            Vector2D { x: self.x, y: self.y }
        } else {
            proof {
                assert(1 <= len2_v(self@) <= 0x2000_0000int) by (nonlinear_arith)
                    requires
                        in_range(self@, 16 * SCALE as int),
                        SCALE == 1024,
                        len2_v(self@) == self@.x * self@.x + self@.y * self@.y,
                        len2_v(self@) != 0,
                ;
            }
            let m: i64 = n * (SCALE * SCALE);
            let l = isqrt64(m);
            proof {
                assert(l >= SCALE) by (nonlinear_arith)
                    requires
                        m >= (SCALE as int) * (SCALE as int),
                        SCALE == 1024,
                        l >= 0,
                        m < (l + 1) * (l + 1),
                ;
                assert(-l <= self@.x * SCALE <= l && -l <= self@.y * SCALE <= l) by (
                nonlinear_arith)
                    requires
                        (self@.x * self@.x + self@.y * self@.y) * ((SCALE as int) * (
                        SCALE as int)) == m,
                        m < (l + 1) * (l + 1),
                        l >= 1,
                        SCALE == 1024,
                ;
                assert(-(l * (SCALE as int)) <= self@.x * SCALE * SCALE <= l * (SCALE as int) && -(
                l * (SCALE as int)) <= self@.y * SCALE * SCALE <= l * (SCALE as int)
                    && -0x1000_0000_0000_0000int <= self@.x * SCALE * SCALE
                    <= 0x1000_0000_0000_0000int && -0x1000_0000_0000_0000int <= self@.y * SCALE
                    * SCALE <= 0x1000_0000_0000_0000int) by (nonlinear_arith)
                    requires
                        -l <= self@.x * SCALE <= l,
                        -l <= self@.y * SCALE <= l,
                        in_range(self@, 16 * SCALE as int),
                        SCALE == 1024,
                        1 <= l,
                ;
                lemma_tdiv_le(self@.x * SCALE * SCALE, l as int, SCALE as int);
                lemma_tdiv_le(self@.y * SCALE * SCALE, l as int, SCALE as int);
            }
            Vector2D {
                x: div_trunc(self.x * (SCALE * SCALE), l),
                y: div_trunc(self.y * (SCALE * SCALE), l),
            }
        }
    }
}

/// Exact squared distance between two positions; collision detection
/// compares it against the squared sum of the radii.
pub fn distance_sq(p1: &Point2D, p2: &Point2D) -> (r: i64)
    requires
        in_range(p1@, crate::POS_SAFE as int),
        in_range(p2@, crate::POS_SAFE as int),
    ensures
        r == dist2(p1@, p2@),
        r >= 0,
{
    let dx: i64 = p2.x - p1.x;
    let dy: i64 = p2.y - p1.y;
    proof {
        assert(0 <= (dx as int) * (dx as int) <= 0x1000_0000_0000_0000int
            && 0 <= (dy as int) * (dy as int) <= 0x1000_0000_0000_0000int) by (nonlinear_arith)
            requires
                -0x4000_0000 <= dx <= 0x4000_0000,
                -0x4000_0000 <= dy <= 0x4000_0000,
        ;
    }
    dx * dx + dy * dy
}

} // verus!
