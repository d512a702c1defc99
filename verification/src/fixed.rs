//! Signed fixed-point scalars with 64 fractional bits.
//!
//! A scalar is an integer count of units of 2^-64. Every operation is exact up
//! to one stated rounding (towards zero) and saturates at the symmetric limits
//! `-MAX_RAW ..= MAX_RAW`, so that negation is always exact.

use crate::wide::{isqrt, isqrt_wide, lemma_isqrt, mul_wide, wide_val, LIMB};
use vstd::arithmetic::div_mod::lemma_fundamental_div_mod_converse;
use vstd::arithmetic::power2::{lemma2_to64, lemma2_to64_rest, lemma_pow2_unfold, pow2};
use vstd::prelude::*;

verus! {

/// The raw value of the scalar one.
pub const SCALE: i128 = 0x1_0000_0000_0000_0000;

/// The largest raw value; the smallest is its negation.
pub const MAX_RAW: i128 = 0x7fff_ffff_ffff_ffff_ffff_ffff_ffff_ffff;

/// Saturation of an integer to the symmetric raw range.
pub open spec fn clamp(x: int) -> int {
    if x > MAX_RAW {
        MAX_RAW as int
    } else if x < -MAX_RAW {
        -MAX_RAW
    } else {
        x
    }
}

/// Absolute value.
pub open spec fn magnitude(x: int) -> int {
    if x < 0 {
        -x
    } else {
        x
    }
}

/// A magnitude with a sign put back on.
pub open spec fn signed(negative: bool, m: int) -> int {
    if negative {
        -m
    } else {
        m
    }
}

/// Saturation of a magnitude.
pub open spec fn cap(m: int) -> int {
    if m > MAX_RAW {
        MAX_RAW as int
    } else {
        m
    }
}

/// Whether an integer is a raw value that a scalar can hold.
pub open spec fn in_range(x: int) -> bool {
    -MAX_RAW <= x <= MAX_RAW
}

/// Saturating sum.
pub open spec fn add_raw(a: int, b: int) -> int {
    clamp(a + b)
}

/// Saturating difference.
pub open spec fn sub_raw(a: int, b: int) -> int {
    clamp(a - b)
}

/// Product, rounded towards zero and saturated.
pub open spec fn mul_raw(a: int, b: int) -> int {
    signed((a < 0) != (b < 0), cap(magnitude(a) * magnitude(b) / (SCALE as int)))
}

/// Quotient, rounded towards zero and saturated. A nonzero value divided by
/// zero saturates with the sign of the dividend; zero divided by zero is zero.
pub open spec fn div_raw(a: int, b: int) -> int {
    if b == 0 {
        if a == 0 {
            0
        } else {
            signed(a < 0, MAX_RAW as int)
        }
    } else {
        signed((a < 0) != (b < 0), cap(magnitude(a) * SCALE / magnitude(b)))
    }
}

/// Square root, rounded down; zero for arguments that are not positive.
pub open spec fn sqrt_raw(a: int) -> int {
    if a <= 0 {
        0
    } else {
        isqrt(a * SCALE)
    }
}

/// Half, rounded towards zero.
pub open spec fn half_raw(a: int) -> int {
    signed(a < 0, magnitude(a) / 2)
}

/// A fixed-point scalar.
#[derive(Clone, Copy, Debug, PartialEq, Eq)]
pub struct Fixed {
    pub raw: i128,
}

impl View for Fixed {
    type V = int;

    /// The raw value that the scalar stands for.
    open spec fn view(&self) -> int {
        clamp(self.raw as int)
    }
}

proof fn lemma_scaled_quotient(hi: int, lo: int)
    requires
        0 <= hi,
        0 <= lo,
    ensures
        (hi * 0x1_0000_0000_0000_0000_0000_0000_0000_0000int + lo) / 0x1_0000_0000_0000_0000int
            == hi * 0x1_0000_0000_0000_0000int + lo / 0x1_0000_0000_0000_0000int,
{
    let q = hi * 0x1_0000_0000_0000_0000int + lo / 0x1_0000_0000_0000_0000int;
    let r = lo % 0x1_0000_0000_0000_0000int;
    lemma_fundamental_div_mod_converse(
        hi * 0x1_0000_0000_0000_0000_0000_0000_0000_0000int + lo,
        0x1_0000_0000_0000_0000int,
        q,
        r,
    );
}

proof fn lemma_magnitude_product(a: int, b: int)
    by (nonlinear_arith)
    requires
        0 <= a <= MAX_RAW,
        0 <= b <= MAX_RAW,
    ensures
        0 <= a * b,
        a * b < 0x4000_0000_0000_0000_0000_0000_0000_0000_0000_0000_0000_0000_0000_0000_0000_0000int,
{
}

proof fn lemma_double_step(q: int, d: int, rem: int, x: int)
    by (nonlinear_arith)
    requires
        q * d + rem == x,
    ensures
        (2 * q) * d + (rem + rem) == 2 * x,
        (2 * q + 1) * d + (rem + rem - d) == 2 * x,
{
}

proof fn lemma_quotient_below(q: int, d: int, rem: int, x: int, p: int)
    by (nonlinear_arith)
    requires
        q * d + rem == x * p,
        0 <= rem,
        0 <= x < d,
        0 < p,
        0 <= q,
    ensures
        q < p,
{
    if q >= p {
        assert(q * d >= p * d);
        assert(x * p < d * p);
    }
}

/// The rounded-down quotient of `x` times 2^64 by `d`, for `x` below `d`.
fn shift_divide(x: u128, d: u128) -> (q: u128)
    requires
        x < d,
    ensures
        q == (x * 0x1_0000_0000_0000_0000int) / (d as int),
        q < 0x1_0000_0000_0000_0000,
{
    let mut rem: u128 = x;
    let mut q: u128 = 0;
    let mut k: u32 = 0;
    proof {
        lemma2_to64();
    }
    while k < 64
        invariant
            k <= 64,
            x < d,
            rem < d,
            q * d + rem == x * pow2(k as nat),
            q < pow2(k as nat),
            pow2(k as nat) <= 0x1_0000_0000_0000_0000,
        decreases 64 - k,
    {
        proof {
            lemma_pow2_unfold((k + 1) as nat);
            lemma_double_step(q as int, d as int, rem as int, x * pow2(k as nat));
            if k < 63 {
                vstd::arithmetic::power2::lemma_pow2_strictly_increases((k + 1) as nat, 64);
            }
            lemma2_to64();
            lemma2_to64_rest();
        }
        if rem >= d - rem {
            rem = rem - (d - rem);
            q = 2 * q + 1;
        } else {
            rem = rem + rem;
            q = 2 * q;
        }
        k = k + 1;
        proof {
            assert(x * pow2(k as nat) == 2 * (x * pow2((k - 1) as nat))) by (nonlinear_arith)
                requires
                    pow2(k as nat) == 2 * pow2((k - 1) as nat),
            ;
            lemma_quotient_below(q as int, d as int, rem as int, x as int, pow2(k as nat) as int);
        }
    }
    proof {
        lemma2_to64_rest();
        lemma_fundamental_div_mod_converse(
            x * 0x1_0000_0000_0000_0000int,
            d as int,
            q as int,
            rem as int,
        );
    }
    q
}

impl Fixed {
    /// The scalar with the given raw value, saturated to the symmetric range.
    pub fn from_raw(raw: i128) -> (r: Fixed)
        ensures
            r@ == clamp(raw as int),
    {
        Fixed { raw }
    }

    /// The raw value.
    pub fn raw(self) -> (r: i128)
        ensures
            r == self@,
    {
        if self.raw == i128::MIN {
            -MAX_RAW
        } else {
            self.raw
        }
    }

    /// Zero.
    pub fn zero() -> (r: Fixed)
        ensures
            r@ == 0,
    {
        Fixed { raw: 0 }
    }

    /// One.
    pub fn one() -> (r: Fixed)
        ensures
            r@ == SCALE,
    {
        Fixed { raw: SCALE }
    }

    /// The scalar that equals a whole number.
    pub fn from_int(n: i64) -> (r: Fixed)
        ensures
            r@ == clamp(n * SCALE),
    {
        Fixed { raw: (n as i128) * SCALE }
    }

    /// The quotient of two whole numbers, rounded towards zero.
    pub fn from_ratio(n: i64, d: i64) -> (r: Fixed)
        ensures
            r@ == div_raw(clamp(n * SCALE), clamp(d * SCALE)),
    {
        Fixed::from_int(n).div(Fixed::from_int(d))
    }

    /// The largest whole number that is not above the scalar.
    pub fn floor(self) -> (r: i64)
        ensures
            r == self@ / (SCALE as int),
    {
        let v = self.raw();
        if v >= 0 {
            let q: i128 = v / SCALE;
            q as i64
        } else {
            let m: i128 = -v;
            let q: i128 = if m % SCALE == 0 {
                m / SCALE
            } else {
                m / SCALE + 1
            };
            proof {
                let qq = -(q as int);
                let rr = (v as int) - qq * SCALE;
                lemma_fundamental_div_mod_converse(v as int, SCALE as int, qq, rr);
            }
            (-q) as i64
        }
    }

    /// Sign and magnitude.
    fn parts(self) -> (r: (bool, u128))
        ensures
            r.0 == (self@ < 0),
            r.1 == magnitude(self@),
            r.1 <= MAX_RAW,
    {
        let v = self.raw();
        if v < 0 {
            (true, (-v) as u128)
        } else {
            (false, v as u128)
        }
    }

    /// The scalar with the given sign and the magnitude saturated.
    fn build(negative: bool, m: u128) -> (r: Fixed)
        ensures
            r@ == signed(negative, cap(m as int)),
    {
        let c: i128 = if m > MAX_RAW as u128 {
            MAX_RAW
        } else {
            m as i128
        };
        if negative {
            Fixed { raw: -c }
        } else {
            Fixed { raw: c }
        }
    }

    /// Negation, which is exact.
    pub fn neg(self) -> (r: Fixed)
        ensures
            r@ == -self@,
    {
        Fixed { raw: -self.raw() }
    }

    /// Absolute value.
    pub fn abs(self) -> (r: Fixed)
        ensures
            r@ == magnitude(self@),
    {
        let v = self.raw();
        if v < 0 {
            Fixed { raw: -v }
        } else {
            Fixed { raw: v }
        }
    }

    /// Saturating sum.
    pub fn add(self, other: Fixed) -> (r: Fixed)
        ensures
            r@ == add_raw(self@, other@),
    {
        let a = self.raw();
        let b = other.raw();
        match a.checked_add(b) {
            Some(s) => Fixed { raw: s },
            None => if a < 0 {
                Fixed { raw: -MAX_RAW }
            } else {
                Fixed { raw: MAX_RAW }
            },
        }
    }

    /// Saturating difference.
    pub fn sub(self, other: Fixed) -> (r: Fixed)
        ensures
            r@ == sub_raw(self@, other@),
    {
        self.add(other.neg())
    }

    /// Half, rounded towards zero.
    pub fn half(self) -> (r: Fixed)
        ensures
            r@ == half_raw(self@),
    {
        let (negative, m) = self.parts();
        Fixed::build(negative, m / 2)
    }

    /// Product, rounded towards zero and saturated.
    pub fn mul(self, other: Fixed) -> (r: Fixed)
        ensures
            r@ == mul_raw(self@, other@),
    {
        let (na, ma) = self.parts();
        let (nb, mb) = other.parts();
        let (hi, lo) = mul_wide(ma, mb);
        proof {
            lemma_magnitude_product(ma as int, mb as int);
            lemma_scaled_quotient(hi as int, lo as int);
        }
        let q: u128 = if hi >= 0x8000_0000_0000_0000 {
            u128::MAX
        } else {
            hi * LIMB + lo / LIMB
        };
        Fixed::build(na != nb, q)
    }

    /// Quotient, rounded towards zero and saturated.
    pub fn div(self, other: Fixed) -> (r: Fixed)
        ensures
            r@ == div_raw(self@, other@),
    {
        let (na, ma) = self.parts();
        let (nb, mb) = other.parts();
        if mb == 0 {
            if ma == 0 {
                return Fixed { raw: 0 };
            }
            return Fixed::build(na, u128::MAX);
        }
        let q1: u128 = ma / mb;
        let r1: u128 = ma % mb;
        let q0 = shift_divide(r1, mb);
        proof {
            let total = q1 * 0x1_0000_0000_0000_0000int + q0;
            let rest = (r1 * 0x1_0000_0000_0000_0000int) % (mb as int);
            assert(r1 * 0x1_0000_0000_0000_0000int == q0 * mb + rest) by {
                vstd::arithmetic::div_mod::lemma_fundamental_div_mod(
                    r1 * 0x1_0000_0000_0000_0000int,
                    mb as int,
                );
                assert(mb * q0 == q0 * mb) by (nonlinear_arith);
            }
            assert(0 <= rest < mb) by {
                vstd::arithmetic::div_mod::lemma_mod_bound(r1 * 0x1_0000_0000_0000_0000int, mb as int);
            }
            assert(ma == q1 * mb + r1) by {
                vstd::arithmetic::div_mod::lemma_fundamental_div_mod(ma as int, mb as int);
                assert(mb * q1 == q1 * mb) by (nonlinear_arith);
            }
            assert(ma * (SCALE as int) == total * mb + rest) by (nonlinear_arith)
                requires
                    ma == q1 * mb + r1,
                    r1 * 0x1_0000_0000_0000_0000int == q0 * mb + rest,
                    total == q1 * 0x1_0000_0000_0000_0000int + q0,
                    SCALE == 0x1_0000_0000_0000_0000int,
            ;
            lemma_fundamental_div_mod_converse(ma * (SCALE as int), mb as int, total, rest);
        }
        let q: u128 = if q1 >= 0x8000_0000_0000_0000 {
            u128::MAX
        } else {
            q1 * LIMB + q0
        };
        Fixed::build(na != nb, q)
    }

    /// Square root, rounded down; zero for arguments that are not positive.
    pub fn sqrt(self) -> (r: Fixed)
        ensures
            r@ == sqrt_raw(self@),
    {
        let v = self.raw();
        if v <= 0 {
            return Fixed { raw: 0 };
        }
        let a: u128 = v as u128;
        let hi: u128 = a / LIMB;
        let lo: u128 = (a % LIMB) * LIMB;
        let root = isqrt_wide(hi, lo);
        proof {
            let n = wide_val(hi, lo);
            assert(n == a * SCALE);
            lemma_isqrt(n);
            let bound = 0x1_0000_0000_0000_0000_0000_0000int;
            if root >= bound {
                assert(root * root >= bound * bound) by (nonlinear_arith)
                    requires
                        root >= bound,
                        bound >= 0,
                ;
                assert(bound * bound == 0x1_0000_0000_0000_0000_0000_0000_0000_0000_0000_0000_0000_0000int)
                    by (nonlinear_arith)
                    requires
                        bound == 0x1_0000_0000_0000_0000_0000_0000int,
                ;
            }
        }
        Fixed::build(false, root)
    }

    /// Whether the scalar is below another.
    pub fn lt(self, other: Fixed) -> (r: bool)
        ensures
            r == (self@ < other@),
    {
        self.raw() < other.raw()
    }

    /// Whether the scalar is not above another.
    pub fn le(self, other: Fixed) -> (r: bool)
        ensures
            r == (self@ <= other@),
    {
        self.raw() <= other.raw()
    }

    /// Whether the scalar is above another.
    pub fn gt(self, other: Fixed) -> (r: bool)
        ensures
            r == (self@ > other@),
    {
        self.raw() > other.raw()
    }

    /// Whether the scalar is not below another.
    pub fn ge(self, other: Fixed) -> (r: bool)
        ensures
            r == (self@ >= other@),
    {
        self.raw() >= other.raw()
    }

    /// Whether two scalars stand for the same value.
    pub fn same(self, other: Fixed) -> (r: bool)
        ensures
            r == (self@ == other@),
    {
        self.raw() == other.raw()
    }
}

} // verus!
