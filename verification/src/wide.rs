//! Unsigned 256-bit helpers built from two `u128` halves.

use vstd::prelude::*;

verus! {

/// Two to the power 64.
pub const LIMB: u128 = 0x1_0000_0000_0000_0000;

/// The integer that a pair of halves stands for.
pub open spec fn wide_val(hi: u128, lo: u128) -> int {
    hi * 0x1_0000_0000_0000_0000_0000_0000_0000_0000int + lo
}

proof fn lemma_limb_product(a: u128, b: u128)
    by (nonlinear_arith)
    requires
        a < 0x1_0000_0000_0000_0000,
        b < 0x1_0000_0000_0000_0000,
    ensures
        a * b <= 0xffff_ffff_ffff_fffe_0000_0000_0000_0001,
{
}

proof fn lemma_wide_product(
    a1: int, a0: int, b1: int, b0: int, p00: int, p01: int, p10: int, p11: int,
)
    by (nonlinear_arith)
    requires
        p00 == a0 * b0,
        p01 == a0 * b1,
        p10 == a1 * b0,
        p11 == a1 * b1,
    ensures
        (a1 * 0x1_0000_0000_0000_0000 + a0) * (b1 * 0x1_0000_0000_0000_0000 + b0)
            == p11 * 0x1_0000_0000_0000_0000_0000_0000_0000_0000int
               + (p01 + p10) * 0x1_0000_0000_0000_0000 + p00,
{
}

/// The full product of two 128-bit numbers.
pub fn mul_wide(a: u128, b: u128) -> (r: (u128, u128))
    ensures
        wide_val(r.0, r.1) == a * b,
{
    let a1: u128 = a / LIMB;
    let a0: u128 = a % LIMB;
    let b1: u128 = b / LIMB;
    let b0: u128 = b % LIMB;
    proof {
        lemma_limb_product(a0, b0);
        lemma_limb_product(a0, b1);
        lemma_limb_product(a1, b0);
        lemma_limb_product(a1, b1);
    }
    let p00: u128 = a0 * b0;
    let p01: u128 = a0 * b1;
    let p10: u128 = a1 * b0;
    let p11: u128 = a1 * b1;
    let mid: u128 = p00 / LIMB + p01 % LIMB + p10 % LIMB;
    let lo: u128 = (mid % LIMB) * LIMB + p00 % LIMB;
    let hi: u128 = p11 + p01 / LIMB + p10 / LIMB + mid / LIMB;
    proof {
        lemma_wide_product(a1 as int, a0 as int, b1 as int, b0 as int, p00 as int, p01 as int, p10 as int, p11 as int);
    }
    (hi, lo)
}


/// Holds when `r` is the square root of `n`, rounded down.
pub open spec fn is_isqrt(n: int, r: int) -> bool {
    0 <= r && r * r <= n < (r + 1) * (r + 1)
}

/// The square root of `n`, rounded down to an integer.
pub open spec fn isqrt(n: int) -> int {
    choose|r: int| is_isqrt(n, r)
}

proof fn lemma_square_step(r: int)
    by (nonlinear_arith)
    requires
        0 <= r,
    ensures
        (r + 1) * (r + 1) == r * r + 2 * r + 1,
        (r + 1) * (r + 1) > r * r,
{
}

proof fn lemma_square_monotone(a: int, b: int)
    by (nonlinear_arith)
    requires
        0 <= a <= b,
    ensures
        a * a <= b * b,
{
}

proof fn lemma_isqrt_witness(n: int) -> (r: int)
    requires
        0 <= n,
    ensures
        is_isqrt(n, r),
    decreases n,
{
    if n == 0 {
        assert(0int * 0int == 0 && (0int + 1) * (0int + 1) == 1) by (nonlinear_arith);
        0
    } else {
        let s = lemma_isqrt_witness(n - 1);
        lemma_square_step(s);
        lemma_square_step(s + 1);
        if (s + 1) * (s + 1) <= n {
            s + 1
        } else {
            s
        }
    }
}

/// Every natural number has exactly one rounded-down square root.
pub proof fn lemma_isqrt(n: int)
    requires
        0 <= n,
    ensures
        is_isqrt(n, isqrt(n)),
{
    let r = lemma_isqrt_witness(n);
    assert(is_isqrt(n, r));
}

/// A number that meets the defining bounds is the rounded-down square root.
pub proof fn lemma_isqrt_unique(n: int, r: int)
    requires
        is_isqrt(n, r),
    ensures
        isqrt(n) == r,
{
    lemma_isqrt(n);
    let s = isqrt(n);
    if s < r {
        lemma_square_monotone(s + 1, r);
    } else if r < s {
        lemma_square_monotone(r + 1, s);
    }
}

/// Whether the first pair of halves stands for a number no greater than the second.
pub fn le_wide(ah: u128, al: u128, bh: u128, bl: u128) -> (r: bool)
    ensures
        r == (wide_val(ah, al) <= wide_val(bh, bl)),
{
    ah < bh || (ah == bh && al <= bl)
}

/// The sum of two 256-bit numbers, for operands whose sum still fits.
pub fn add_wide(ah: u128, al: u128, bh: u128, bl: u128) -> (r: (u128, u128))
    requires
        wide_val(ah, al) + wide_val(bh, bl)
            < 0x1_0000_0000_0000_0000_0000_0000_0000_0000_0000_0000_0000_0000_0000_0000_0000_0000int,
    ensures
        wide_val(r.0, r.1) == wide_val(ah, al) + wide_val(bh, bl),
{
    if al <= u128::MAX - bl {
        (ah + bh, al + bl)
    } else {
        let lo: u128 = al - (u128::MAX - bl) - 1;
        (ah + bh + 1, lo)
    }
}

proof fn lemma_half_bit(k: u32)
    by (bit_vector)
    requires
        1 <= k < 128,
    ensures
        (1u128 << k) == 2 * (1u128 << ((k - 1) as u32)),
        (1u128 << ((k - 1) as u32)) >= 1,
        (1u128 << 0u32) == 1,
        (1u128 << 127u32) == 0x8000_0000_0000_0000_0000_0000_0000_0000u128,
        (1u128 << 64u32) == 0x1_0000_0000_0000_0000u128,
{
}

/// The rounded-down square root of a 256-bit number.
pub fn isqrt_wide(hi: u128, lo: u128) -> (r: u128)
    ensures
        r == isqrt(wide_val(hi, lo)),
{
    let ghost n = wide_val(hi, lo);
    let mut root: u128 = 0;
    // A number below 2^128 has a root below 2^64.
    let mut k: u32 = if hi == 0 {
        64
    } else {
        128
    };
    let ghost mut span: int = if hi == 0 {
        0x1_0000_0000_0000_0000int
    } else {
        0x1_0000_0000_0000_0000_0000_0000_0000_0000int
    };
    proof {
        lemma_half_bit(1);
        assert(0x1_0000_0000_0000_0000int * 0x1_0000_0000_0000_0000int
            == 0x1_0000_0000_0000_0000_0000_0000_0000_0000int) by (nonlinear_arith);
        let full = 0x1_0000_0000_0000_0000_0000_0000_0000_0000int;
        assert(full * full == 0x1_0000_0000_0000_0000_0000_0000_0000_0000_0000_0000_0000_0000_0000_0000_0000_0000int)
            by (nonlinear_arith)
            requires full == 0x1_0000_0000_0000_0000_0000_0000_0000_0000int;
        assert(0int * 0int == 0) by (nonlinear_arith);
    }
    while k > 0
        invariant
            n == wide_val(hi, lo),
            k <= 128,
            k == 128 ==> span == 0x1_0000_0000_0000_0000_0000_0000_0000_0000int,
            k < 128 ==> span == (1u128 << k),
            span >= 1,
            root + span <= 0x1_0000_0000_0000_0000_0000_0000_0000_0000int,
            root * root <= n < (root + span) * (root + span),
        decreases k,
    {
        let bit: u128 = 1u128 << (k - 1);
        proof {
            lemma_half_bit(if k == 128 { 127 } else { k });
            if k < 128 {
                lemma_half_bit(k);
            }
            assert(span == 2 * bit);
        }
        let trial: u128 = root + bit;
        let (th, tl) = mul_wide(trial, trial);
        if le_wide(th, tl, hi, lo) {
            root = trial;
        }
        proof {
            span = bit as int;
        }
        k = k - 1;
    }
    proof {
        lemma_half_bit(1);
        assert(span == 1);
        lemma_isqrt_unique(n, root as int);
    }
    root
}

} // verus!
