//! Angles: wrapping into one turn and the direction angle of a vector.

use crate::fixed::{magnitude, Fixed, MAX_RAW, SCALE};
use crate::vec2::{Vec2, V2};
use vstd::arithmetic::div_mod::{
    lemma_div_is_ordered, lemma_fundamental_div_mod, lemma_fundamental_div_mod_converse,
};
use vstd::arithmetic::power2::{lemma2_to64, lemma2_to64_rest, lemma_pow2_unfold, pow2};
use vstd::prelude::*;

verus! {

/// A half turn, as a raw value.
pub const PI_RAW: i128 = 0x3_243f_6a88_85a3_08d3;

/// A full turn: exactly twice the half turn.
pub const TWO_PI_RAW: i128 = 0x6_487e_d511_0b46_11a6;

/// A quarter turn.
pub const HALF_PI_RAW: i128 = 0x1_921f_b544_42d1_846a;

/// The number of rotations that the direction angle is built from.
pub const ROTATIONS: u32 = 62;

/// The angle in `(-pi, pi]` that differs from `t` by whole turns.
pub open spec fn wrap_raw(t: int) -> int {
    PI_RAW - ((PI_RAW - t) % (TWO_PI_RAW as int))
}

/// The arctangent of 2^-k as a raw value, where `p` is 2^k.
pub open spec fn atan_step(k: int, p: int) -> int {
    if k == 0 {
        0xc90f_daa2_2168_c235
    } else if k == 1 {
        0x76b1_9c15_86ed_3da3
    } else if k == 2 {
        0x3eb6_ebf2_5901_bac5
    } else if k == 3 {
        0x1fd5_ba9a_ac2f_6dc6
    } else if k == 4 {
        0x0ffa_addb_967e_f4e3
    } else if k == 5 {
        0x07ff_556e_ea5d_892a
    } else if k == 6 {
        0x03ff_eaab_776e_5357
    } else if k == 7 {
        0x01ff_fd55_5bbb_a973
    } else if k == 8 {
        0x00ff_ffaa_aadd_ddb9
    } else if k == 9 {
        0x007f_fff5_5556_eeef
    } else if k == 10 {
        0x003f_fffe_aaaa_b777
    } else if k == 11 {
        0x001f_ffff_d555_55bc
    } else if k == 12 {
        0x000f_ffff_faaa_aaae
    } else if k == 13 {
        0x0007_ffff_ff55_5555
    } else if k == 14 {
        0x0003_ffff_ffea_aaab
    } else if k == 15 {
        0x0001_ffff_fffd_5555
    } else if k == 16 {
        0x0000_ffff_ffff_aaab
    } else if k == 17 {
        0x0000_7fff_ffff_f555
    } else if k == 18 {
        0x0000_3fff_ffff_feab
    } else if k == 19 {
        0x0000_1fff_ffff_ffd5
    } else if k == 20 {
        0x0000_0fff_ffff_fffb
    } else if k == 21 {
        0x0000_07ff_ffff_ffff
    } else {
        (SCALE as int) / p
    }
}

/// The angle that is left after the rotations from number `k` on have turned
/// the vector `(x, y)` onto the positive x axis, added to `z`. Rotation `k`
/// turns by the arctangent of 2^-k, towards the axis; `p` is 2^k.
pub open spec fn cordic(x: int, y: int, z: int, k: int, p: int) -> int
    decreases ROTATIONS - k,
{
    if k >= ROTATIONS {
        z
    } else if y >= 0 {
        cordic(x + y / p, y - x / p, z + atan_step(k, p), k + 1, 2 * p)
    } else {
        cordic(x + (-y) / p, y + x / p, z - atan_step(k, p), k + 1, 2 * p)
    }
}

/// The angle of a vector in the open first quadrant, between one raw unit and
/// a quarter turn.
pub open spec fn quadrant_angle(x: int, y: int) -> int {
    let z = cordic(x / 8, y / 8, 0, 0, 1);
    if z < 1 {
        1
    } else if z > HALF_PI_RAW {
        HALF_PI_RAW as int
    } else {
        z
    }
}

/// The direction angle of a vector, in `(-pi, pi]`, counter-clockwise from the
/// positive x axis. The zero vector has angle zero.
pub open spec fn angle_raw(v: V2) -> int {
    if v.y == 0 {
        if v.x >= 0 {
            0
        } else {
            PI_RAW as int
        }
    } else {
        let a = if v.x == 0 {
            HALF_PI_RAW as int
        } else {
            quadrant_angle(magnitude(v.x), magnitude(v.y))
        };
        let b = if v.x < 0 {
            PI_RAW - a
        } else {
            a
        };
        if v.y < 0 {
            -b
        } else {
            b
        }
    }
}

/// The angle in `(-pi, pi]` that differs from the given one by whole turns.
pub fn clamp_angle(a: Fixed) -> (r: Fixed)
    ensures
        r@ == wrap_raw(a@),
        -PI_RAW < r@ <= PI_RAW,
{
    let t = a.raw();
    let s: i128 = if t >= 0 {
        t % TWO_PI_RAW
    } else {
        -((-t) % TWO_PI_RAW)
    };
    let w: i128 = if s > PI_RAW {
        s - TWO_PI_RAW
    } else if s <= -PI_RAW {
        s + TWO_PI_RAW
    } else {
        s
    };
    proof {
        let turns: int = if t >= 0 {
            (t as int) / (TWO_PI_RAW as int)
        } else {
            -((-(t as int)) / (TWO_PI_RAW as int))
        };
        lemma_fundamental_div_mod(magnitude(t as int), TWO_PI_RAW as int);
        assert(t == turns * TWO_PI_RAW + s);
        let shift: int = if s > PI_RAW {
            1
        } else if s <= -PI_RAW {
            -1
        } else {
            0
        };
        assert(w == s - shift * TWO_PI_RAW);
        lemma_fundamental_div_mod_converse(
            PI_RAW - t,
            TWO_PI_RAW as int,
            -turns - shift,
            PI_RAW - w,
        );
    }
    Fixed::from_raw(w)
}

/// The arctangent of 2^-k as a raw value, where `p` is 2^k.
fn atan_entry(k: u32, p: i128) -> (r: i128)
    requires
        p >= 1,
    ensures
        r == atan_step(k as int, p as int),
        0 <= r <= SCALE,
{
    if k == 0 {
        0xc90f_daa2_2168_c235
    } else if k == 1 {
        0x76b1_9c15_86ed_3da3
    } else if k == 2 {
        0x3eb6_ebf2_5901_bac5
    } else if k == 3 {
        0x1fd5_ba9a_ac2f_6dc6
    } else if k == 4 {
        0x0ffa_addb_967e_f4e3
    } else if k == 5 {
        0x07ff_556e_ea5d_892a
    } else if k == 6 {
        0x03ff_eaab_776e_5357
    } else if k == 7 {
        0x01ff_fd55_5bbb_a973
    } else if k == 8 {
        0x00ff_ffaa_aadd_ddb9
    } else if k == 9 {
        0x007f_fff5_5556_eeef
    } else if k == 10 {
        0x003f_fffe_aaaa_b777
    } else if k == 11 {
        0x001f_ffff_d555_55bc
    } else if k == 12 {
        0x000f_ffff_faaa_aaae
    } else if k == 13 {
        0x0007_ffff_ff55_5555
    } else if k == 14 {
        0x0003_ffff_ffea_aaab
    } else if k == 15 {
        0x0001_ffff_fffd_5555
    } else if k == 16 {
        0x0000_ffff_ffff_aaab
    } else if k == 17 {
        0x0000_7fff_ffff_f555
    } else if k == 18 {
        0x0000_3fff_ffff_feab
    } else if k == 19 {
        0x0000_1fff_ffff_ffd5
    } else if k == 20 {
        0x0000_0fff_ffff_fffb
    } else if k == 21 {
        0x0000_07ff_ffff_ffff
    } else {
        proof {
            lemma_div_is_ordered(0, 1, p as int);
            vstd::arithmetic::div_mod::lemma_div_is_ordered_by_denominator(SCALE as int, 1, p as int);
        }
        SCALE / p
    }
}

/// The bound that the rotated components keep: it starts at `b`, doubles,
/// grows by a half, and from then on stays below six times `b`.
spec fn growth_ok(m: int, k: int, p: int, b: int) -> bool {
    &&& k == 0 ==> m <= b
    &&& k == 1 ==> m <= 2 * b
    &&& k >= 2 ==> m * p <= 6 * b * (p - 2)
}

proof fn lemma_growth(m: int, k: int, p: int, b: int)
    by (nonlinear_arith)
    requires
        0 <= m,
        0 <= b,
        0 <= k,
        k == 0 ==> p == 1,
        k == 1 ==> p == 2,
        k >= 2 ==> p >= 4,
        growth_ok(m, k, p, b),
    ensures
        m <= 6 * b,
        m + m / p <= 6 * b,
        growth_ok(m + m / p, k + 1, 2 * p, b),
{
    let d = m / p;
    assert(d * p <= m) by {
        assert(m == p * (m / p) + m % p && 0 <= m % p) by {
            vstd::arithmetic::div_mod::lemma_fundamental_div_mod(m, p);
            vstd::arithmetic::div_mod::lemma_mod_bound(m, p);
        }
    }
    if k >= 2 {
        assert(m * p < 6 * b * p || m == 0);
        assert(m <= 6 * b);
        assert((m + d) * (2 * p) == 2 * (m * p) + 2 * (d * p));
        assert(6 * b * (2 * p - 2) == 2 * (6 * b * (p - 2)) + 12 * b);
        assert((m + d) * (2 * p) <= 6 * b * (2 * p - 2));
        assert((m + d) * (2 * p) <= (6 * b) * (2 * p));
        assert(m + d <= 6 * b);
    } else if k == 1 {
        assert(d * 2 <= m);
        assert((m + d) * 4 <= 12 * b);
    }
}

/// The angle of a vector in the open first quadrant.
fn quadrant(x: i128, y: i128) -> (r: i128)
    requires
        0 < x <= MAX_RAW,
        0 < y <= MAX_RAW,
    ensures
        r == quadrant_angle(x as int, y as int),
        1 <= r <= HALF_PI_RAW,
{
    let ghost b: int = 0x1000_0000_0000_0000_0000_0000_0000_0000int;
    let ghost x0: int = (x / 8) as int;
    let ghost y0: int = (y / 8) as int;
    let mut cx: i128 = x / 8;
    let mut cy: i128 = y / 8;
    let mut z: i128 = 0;
    let mut k: u32 = 0;
    let mut p: i128 = 1;
    let ghost mut m: int = b;
    proof {
        lemma2_to64();
    }
    while k < ROTATIONS
        invariant
            k <= ROTATIONS,
            p == pow2(k as nat),
            1 <= p <= 0x4000_0000_0000_0000,
            b == 0x1000_0000_0000_0000_0000_0000_0000_0000int,
            0 <= cx <= m,
            -m <= cy <= m,
            0 <= m,
            growth_ok(m, k as int, p as int, b),
            -(k * SCALE) <= z <= k * SCALE,
            cordic(x0, y0, 0, 0, 1) == cordic(cx as int, cy as int, z as int, k as int, p as int),
        decreases ROTATIONS - k,
    {
        proof {
            lemma2_to64();
            lemma2_to64_rest();
            lemma_pow2_unfold((k + 1) as nat);
            if k + 1 < 62 {
                vstd::arithmetic::power2::lemma_pow2_strictly_increases((k + 1) as nat, 62);
            }
            if k >= 2 {
                vstd::arithmetic::power2::lemma_pow2_strictly_increases(1, k as nat);
            }
            lemma_growth(m, k as int, p as int, b);
            lemma_div_is_ordered(cx as int, m, p as int);
            lemma_div_is_ordered(magnitude(cy as int), m, p as int);
            lemma_div_is_ordered(0, cx as int, p as int);
            lemma_div_is_ordered(0, magnitude(cy as int), p as int);
        }
        let step = atan_entry(k, p);
        let dy: i128 = cx / p;
        if cy >= 0 {
            let dx: i128 = cy / p;
            cx = cx + dx;
            cy = cy - dy;
            z = z + step;
        } else {
            let dx: i128 = (-cy) / p;
            cx = cx + dx;
            cy = cy + dy;
            z = z - step;
        }
        proof {
            m = m + m / (p as int);
        }
        p = 2 * p;
        k = k + 1;
    }
    if z < 1 {
        1
    } else if z > HALF_PI_RAW {
        HALF_PI_RAW
    } else {
        z
    }
}

/// The direction angle of a vector, in `(-pi, pi]`, counter-clockwise from the
/// positive x axis. It is built from a fixed number of rotations by the
/// arctangents of the powers of one half, and is exact on the axes.
pub fn angle_of(v: Vec2) -> (r: Fixed)
    ensures
        r@ == angle_raw(v@),
        -PI_RAW < r@ <= PI_RAW,
{
    let x = v.x.raw();
    let y = v.y.raw();
    if y == 0 {
        if x >= 0 {
            return Fixed::from_raw(0);
        }
        return Fixed::from_raw(PI_RAW);
    }
    let a: i128 = if x == 0 {
        HALF_PI_RAW
    } else {
        quadrant(v.x.abs().raw(), v.y.abs().raw())
    };
    let b: i128 = if x < 0 {
        PI_RAW - a
    } else {
        a
    };
    if y < 0 {
        Fixed::from_raw(-b)
    } else {
        Fixed::from_raw(b)
    }
}

} // verus!
