//! Plane vectors over fixed-point scalars.

use crate::fixed::{
    add_raw, cap, div_raw, half_raw, magnitude, mul_raw, sub_raw, Fixed, MAX_RAW,
};
use crate::wide::{add_wide, isqrt, isqrt_wide, mul_wide};
use vstd::prelude::*;

verus! {

/// The mathematical value of a vector: its two raw components.
pub struct V2 {
    pub x: int,
    pub y: int,
}

/// The zero vector.
pub open spec fn v2_zero() -> V2 {
    V2 { x: 0, y: 0 }
}

/// Component-wise saturating sum.
pub open spec fn v2_add(a: V2, b: V2) -> V2 {
    V2 { x: add_raw(a.x, b.x), y: add_raw(a.y, b.y) }
}

/// Component-wise saturating difference.
pub open spec fn v2_sub(a: V2, b: V2) -> V2 {
    V2 { x: sub_raw(a.x, b.x), y: sub_raw(a.y, b.y) }
}

/// The opposite vector.
pub open spec fn v2_neg(a: V2) -> V2 {
    V2 { x: -a.x, y: -a.y }
}

/// The vector times a scalar.
pub open spec fn v2_scale(a: V2, s: int) -> V2 {
    V2 { x: mul_raw(a.x, s), y: mul_raw(a.y, s) }
}

/// The vector divided by a scalar.
pub open spec fn v2_shrink(a: V2, s: int) -> V2 {
    V2 { x: div_raw(a.x, s), y: div_raw(a.y, s) }
}

/// Half of the vector.
pub open spec fn v2_half(a: V2) -> V2 {
    V2 { x: half_raw(a.x), y: half_raw(a.y) }
}

/// The scalar product.
pub open spec fn v2_dot(a: V2, b: V2) -> int {
    add_raw(mul_raw(a.x, b.x), mul_raw(a.y, b.y))
}

/// The Euclidean length: the rounded-down square root of the exact sum of
/// squares, saturated.
pub open spec fn v2_length(a: V2) -> int {
    cap(isqrt(a.x * a.x + a.y * a.y))
}

/// The vector divided by its length; the zero vector stays zero.
pub open spec fn v2_normalize(a: V2) -> V2 {
    v2_shrink(a, v2_length(a))
}

/// The vector turned by a quarter turn counter-clockwise.
pub open spec fn v2_perp(a: V2) -> V2 {
    V2 { x: -a.y, y: a.x }
}

/// A plane vector.
#[derive(Clone, Copy, Debug, PartialEq, Eq)]
pub struct Vec2 {
    pub x: Fixed,
    pub y: Fixed,
}

impl View for Vec2 {
    type V = V2;

    open spec fn view(&self) -> V2 {
        V2 { x: self.x@, y: self.y@ }
    }
}

proof fn lemma_square_bound(m: int)
    by (nonlinear_arith)
    requires
        0 <= m <= MAX_RAW,
    ensures
        0 <= m * m,
        m * m < 0x4000_0000_0000_0000_0000_0000_0000_0000_0000_0000_0000_0000_0000_0000_0000_0000int,
{
}

proof fn lemma_square_of_magnitude(a: int)
    by (nonlinear_arith)
    ensures
        magnitude(a) * magnitude(a) == a * a,
{
}

/// A vector is at least as long as either of its components.
pub proof fn lemma_length_dominates(a: V2)
    requires
        magnitude(a.x) <= MAX_RAW,
        magnitude(a.y) <= MAX_RAW,
    ensures
        v2_length(a) >= magnitude(a.x),
        v2_length(a) >= magnitude(a.y),
{
    let n = a.x * a.x + a.y * a.y;
    lemma_square_of_magnitude(a.x);
    lemma_square_of_magnitude(a.y);
    lemma_square_bound(magnitude(a.x));
    lemma_square_bound(magnitude(a.y));
    crate::wide::lemma_isqrt(n);
    let r = isqrt(n);
    let mx = magnitude(a.x);
    let my = magnitude(a.y);
    if r < mx {
        assert((r + 1) * (r + 1) <= mx * mx) by (nonlinear_arith)
            requires
                0 <= r + 1 <= mx,
        ;
    }
    if r < my {
        assert((r + 1) * (r + 1) <= my * my) by (nonlinear_arith)
            requires
                0 <= r + 1 <= my,
        ;
    }
}

impl Vec2 {
    /// The vector with the given components.
    pub fn new(x: Fixed, y: Fixed) -> (r: Vec2)
        ensures
            r@ == (V2 { x: x@, y: y@ }),
    {
        Vec2 { x, y }
    }

    /// The zero vector.
    pub fn zero() -> (r: Vec2)
        ensures
            r@ == v2_zero(),
    {
        Vec2 { x: Fixed::zero(), y: Fixed::zero() }
    }

    /// Component-wise saturating sum.
    pub fn add(self, other: Vec2) -> (r: Vec2)
        ensures
            r@ == v2_add(self@, other@),
    {
        Vec2 { x: self.x.add(other.x), y: self.y.add(other.y) }
    }

    /// Component-wise saturating difference.
    pub fn sub(self, other: Vec2) -> (r: Vec2)
        ensures
            r@ == v2_sub(self@, other@),
    {
        Vec2 { x: self.x.sub(other.x), y: self.y.sub(other.y) }
    }

    /// The opposite vector.
    pub fn neg(self) -> (r: Vec2)
        ensures
            r@ == v2_neg(self@),
    {
        Vec2 { x: self.x.neg(), y: self.y.neg() }
    }

    /// The vector times a scalar.
    pub fn scale(self, s: Fixed) -> (r: Vec2)
        ensures
            r@ == v2_scale(self@, s@),
    {
        Vec2 { x: self.x.mul(s), y: self.y.mul(s) }
    }

    /// The vector divided by a scalar.
    pub fn shrink(self, s: Fixed) -> (r: Vec2)
        ensures
            r@ == v2_shrink(self@, s@),
    {
        Vec2 { x: self.x.div(s), y: self.y.div(s) }
    }

    /// Half of the vector.
    pub fn half(self) -> (r: Vec2)
        ensures
            r@ == v2_half(self@),
    {
        Vec2 { x: self.x.half(), y: self.y.half() }
    }

    /// The scalar product.
    pub fn dot(self, other: Vec2) -> (r: Fixed)
        ensures
            r@ == v2_dot(self@, other@),
    {
        self.x.mul(other.x).add(self.y.mul(other.y))
    }

    /// The Euclidean length.
    pub fn length(self) -> (r: Fixed)
        ensures
            r@ == v2_length(self@),
    {
        let mx: u128 = self.x.abs().raw() as u128;
        let my: u128 = self.y.abs().raw() as u128;
        let (xh, xl) = mul_wide(mx, mx);
        let (yh, yl) = mul_wide(my, my);
        proof {
            lemma_square_bound(mx as int);
            lemma_square_bound(my as int);
            lemma_square_of_magnitude(self.x@);
            lemma_square_of_magnitude(self.y@);
        }
        let (sh, sl) = add_wide(xh, xl, yh, yl);
        let root = isqrt_wide(sh, sl);
        let capped: i128 = if root > MAX_RAW as u128 {
            MAX_RAW
        } else {
            root as i128
        };
        Fixed::from_raw(capped)
    }

    /// The vector divided by its length; the zero vector stays zero.
    pub fn normalize(self) -> (r: Vec2)
        ensures
            r@ == v2_normalize(self@),
    {
        let len = self.length();
        self.shrink(len)
    }

    /// The vector turned by a quarter turn counter-clockwise.
    pub fn perp(self) -> (r: Vec2)
        ensures
            r@ == v2_perp(self@),
    {
        Vec2 { x: self.y.neg(), y: self.x }
    }
}

} // verus!
