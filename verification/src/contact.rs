//! The contact force model: a penalty force with damping between any two
//! overlapping particles.

use crate::fixed::{add_raw, div_raw, mul_raw, sqrt_raw, sub_raw, Fixed};
use crate::particle::{Particle, ParticleState};
use crate::vec2::{
    lemma_length_dominates, v2_add, v2_dot, v2_length, v2_normalize, v2_scale, v2_sub, v2_zero,
    Vec2, V2,
};
use vstd::prelude::*;

verus! {

/// A particle is movable when its inverse mass is above this: 1e-6.
pub const MOVABLE_MIN_RAW: i128 = 0x10c6_f7a0_b5ee;

/// Two particles touch when they overlap by at least this: 1e-12.
pub const CONTACT_MIN_RAW: i128 = 0x119_7998;

/// The damping factor 1.4.
pub const DAMPING_RAW: i128 = 0x1_6666_6666_6666_6666;

/// Whether forces move the particle.
pub open spec fn movable(p: ParticleState) -> bool {
    p.inverse_mass > MOVABLE_MIN_RAW
}

/// How far the boundaries of two particles reach into each other; negative
/// when they are apart.
pub open spec fn overlap(pi: ParticleState, pj: ParticleState) -> int {
    sub_raw(add_raw(pi.radius, pj.radius), v2_length(v2_sub(pi.position, pj.position)))
}

/// The damping coefficient of a contact: 1.4 times the square root of the
/// stiffness over the sum of the inverse masses.
pub open spec fn damping(pi: ParticleState, pj: ParticleState, kn: int) -> int {
    mul_raw(DAMPING_RAW as int, sqrt_raw(div_raw(kn, add_raw(pi.inverse_mass, pj.inverse_mass))))
}

/// The force that particle `pj` exerts on particle `pi` by contact. It acts
/// along the unit vector `n` from `pj` to `pi` and is
/// `n * (kn * overlap + a * dot(velocity_j - velocity_i, n))`, or zero where
/// the two do not touch.
pub open spec fn contact_force(pi: ParticleState, pj: ParticleState, kn: int) -> V2 {
    let o = overlap(pi, pj);
    if o < CONTACT_MIN_RAW {
        v2_zero()
    } else {
        let n = v2_normalize(v2_sub(pi.position, pj.position));
        let a = damping(pi, pj, kn);
        let closing = v2_dot(v2_sub(pj.velocity, pi.velocity), n);
        v2_scale(n, add_raw(mul_raw(kn, o), mul_raw(a, closing)))
    }
}

/// The force accumulator of particle `i` after the contacts with the first
/// `n` particles have been added to it, in order, leaving out `i` itself.
pub open spec fn contact_acc(ps: Seq<ParticleState>, i: int, n: int, kn: int) -> V2
    decreases n,
{
    if n <= 0 {
        ps[i].force
    } else if n - 1 == i {
        contact_acc(ps, i, n - 1, kn)
    } else {
        v2_add(contact_acc(ps, i, n - 1, kn), contact_force(ps[i], ps[n - 1], kn))
    }
}

/// Whether forces move the particle.
pub fn is_movable(p: &Particle) -> (r: bool)
    ensures
        r == movable(p@),
{
    p.inverse_mass.gt(Fixed::from_raw(MOVABLE_MIN_RAW))
}

/// The force that particle `pj` exerts on particle `pi` by contact.
pub fn contact(pi: &Particle, pj: &Particle, kn: Fixed) -> (f: Vec2)
    ensures
        f@ == contact_force(pi@, pj@, kn@),
{
    let lij = pi.position.sub(pj.position);
    let reach = pi.radius.add(pj.radius);
    // Centres further apart along one axis than the radii reach cannot touch:
    // this spares the square root for most pairs.
    if lij.x.abs().gt(reach) || lij.y.abs().gt(reach) {
        proof {
            lemma_length_dominates(lij@);
        }
        return Vec2::zero();
    }
    let o = reach.sub(lij.length());
    if o.lt(Fixed::from_raw(CONTACT_MIN_RAW)) {
        return Vec2::zero();
    }
    let n = lij.normalize();
    let a = Fixed::from_raw(DAMPING_RAW).mul(kn.div(pi.inverse_mass.add(pj.inverse_mass)).sqrt());
    let closing = pj.velocity.sub(pi.velocity).dot(n);
    n.scale(kn.mul(o).add(a.mul(closing)))
}

} // verus!
