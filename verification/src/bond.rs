//! The bond force model: an elastic beam between two particles, with normal
//! and tangential force, a bending torque and an irreversible breaking test.

use crate::angle::{angle_of, angle_raw, clamp_angle, wrap_raw};
use crate::fixed::{add_raw, div_raw, half_raw, magnitude, mul_raw, sub_raw, Fixed, SCALE};
use crate::particle::{Bond, BondState, Material, MaterialState, Particle, ParticleState};
use crate::vec2::{
    v2_add, v2_length, v2_normalize, v2_perp, v2_scale, v2_sub, Vec2, V2,
};
use vstd::prelude::*;

verus! {

/// What an unbroken bond does to the particle that owns it in one sub-step.
pub struct BondLoad {
    /// The sum of the normal and the tangential force.
    pub force: V2,
    /// The bending torque.
    pub torque: int,
    /// Whether the bond fails in this sub-step; it then applies nothing.
    pub breaks: bool,
}

/// The signed stretch of a bond: its length now less its rest length.
pub open spec fn stretch(pi: ParticleState, pj: ParticleState, b: BondState) -> int {
    sub_raw(v2_length(v2_sub(pj.position, pi.position)), b.rest_length)
}

/// How far the axis of the bond has turned since the bond was formed.
pub open spec fn axis_rotation(pi: ParticleState, pj: ParticleState, b: BondState) -> int {
    sub_raw(
        angle_raw(b.initial_direction),
        angle_raw(v2_normalize(v2_sub(pj.position, pi.position))),
    )
}

/// The bending angle at an end of the bond whose particle has the given
/// orientation, measured against the axis of the bond.
pub open spec fn end_angle(rotation: int, orientation: int) -> int {
    wrap_raw(add_raw(rotation, orientation))
}

/// The normal force `n * kn * dl`.
pub open spec fn normal_force(pi: ParticleState, pj: ParticleState, b: BondState, m: MaterialState) -> V2 {
    v2_scale(v2_normalize(v2_sub(pj.position, pi.position)), mul_raw(m.kn, stretch(pi, pj, b)))
}

/// The tangential force `t * (-kn / 3 * radius^2 / |l|) * (ti + tj)`.
pub open spec fn tangent_force(pi: ParticleState, pj: ParticleState, b: BondState, m: MaterialState) -> V2 {
    let l = v2_sub(pj.position, pi.position);
    let q = axis_rotation(pi, pj, b);
    let coefficient = div_raw(
        mul_raw(div_raw(-m.kn, 3 * SCALE), mul_raw(m.radius, m.radius)),
        v2_length(l),
    );
    v2_scale(
        v2_perp(v2_normalize(l)),
        mul_raw(coefficient, add_raw(end_angle(q, pi.angle), end_angle(q, pj.angle))),
    )
}

/// The bending torque `kn / 6 * radius^2 * (tj - 3 * ti)`.
pub open spec fn bending_torque(pi: ParticleState, pj: ParticleState, b: BondState, m: MaterialState) -> int {
    let q = axis_rotation(pi, pj, b);
    mul_raw(
        mul_raw(div_raw(m.kn, 6 * SCALE), mul_raw(m.radius, m.radius)),
        sub_raw(end_angle(q, pj.angle), mul_raw(3 * SCALE, end_angle(q, pi.angle))),
    )
}

/// The normal stress that is held against the first threshold:
/// `|f_n| / (2 * radius) + |kn / 2 * (tj - ti)|`.
pub open spec fn normal_stress(pi: ParticleState, pj: ParticleState, b: BondState, m: MaterialState) -> int {
    let q = axis_rotation(pi, pj, b);
    add_raw(
        div_raw(v2_length(normal_force(pi, pj, b, m)), add_raw(m.radius, m.radius)),
        magnitude(mul_raw(half_raw(m.kn), sub_raw(end_angle(q, pj.angle), end_angle(q, pi.angle)))),
    )
}

/// The tangential stress that is held against the second threshold:
/// `|f_t| / (2 * radius)`.
pub open spec fn tangent_stress(pi: ParticleState, pj: ParticleState, b: BondState, m: MaterialState) -> int {
    div_raw(v2_length(tangent_force(pi, pj, b, m)), add_raw(m.radius, m.radius))
}

/// Whether the bond fails: under tension by too much normal stress, or in
/// any state by too much tangential stress.
pub open spec fn bond_breaks(pi: ParticleState, pj: ParticleState, b: BondState, m: MaterialState) -> bool {
    (stretch(pi, pj, b) > 0 && normal_stress(pi, pj, b, m) > b.max_normal_force)
        || tangent_stress(pi, pj, b, m) > b.max_tangent_force
}

/// What the bond `b` from `pi` to `pj` does to `pi`.
pub open spec fn bond_load(pi: ParticleState, pj: ParticleState, b: BondState, m: MaterialState) -> BondLoad {
    BondLoad {
        force: v2_add(normal_force(pi, pj, b, m), tangent_force(pi, pj, b, m)),
        torque: bending_torque(pi, pj, b, m),
        breaks: bond_breaks(pi, pj, b, m),
    }
}

/// The particle `p` after its bond number `k`, which ends at `pj`, has been
/// evaluated against the positions and angles of `pi` and `pj`. A broken bond
/// does nothing. A bond that fails is marked and does nothing. Any other adds
/// its force and torque to the accumulators.
pub open spec fn apply_bond(p: ParticleState, pi: ParticleState, pj: ParticleState, k: int, m: MaterialState) -> ParticleState {
    let b = p.bonds[k];
    if b.broken {
        p
    } else {
        let load = bond_load(pi, pj, b, m);
        if load.breaks {
            ParticleState { bonds: p.bonds.update(k, BondState { broken: true, ..b }), ..p }
        } else {
            ParticleState {
                force: v2_add(p.force, load.force),
                torque: add_raw(p.torque, load.torque),
                ..p
            }
        }
    }
}

/// The outcome of evaluating one unbroken bond.
#[derive(Clone, Copy, Debug, PartialEq, Eq)]
pub struct BondEffect {
    pub force: Vec2,
    pub torque: Fixed,
    pub breaks: bool,
}

impl View for BondEffect {
    type V = BondLoad;

    open spec fn view(&self) -> BondLoad {
        BondLoad { force: self.force@, torque: self.torque@, breaks: self.breaks }
    }
}

/// What the bond `b` from `pi` to `pj` does to `pi`: its force, its torque,
/// and whether it fails.
pub fn evaluate_bond(pi: &Particle, pj: &Particle, b: &Bond, m: &Material) -> (e: BondEffect)
    ensures
        e@ == bond_load(pi@, pj@, b@, m@),
{
    let l = pj.position.sub(pi.position);
    let len = l.length();
    let n = l.shrink(len);
    let t = n.perp();
    let dl = len.sub(b.rest_length);
    let q = angle_of(b.initial_direction).sub(angle_of(n));
    let ti = clamp_angle(q.add(pi.angle));
    let tj = clamp_angle(q.add(pj.angle));
    let r2 = m.radius.mul(m.radius);
    let f_n = n.scale(m.kn.mul(dl));
    let coefficient = m.kn.neg().div(Fixed::from_int(3)).mul(r2).div(len);
    let f_t = t.scale(coefficient.mul(ti.add(tj)));
    let torque = m.kn.div(Fixed::from_int(6)).mul(r2).mul(tj.sub(Fixed::from_int(3).mul(ti)));
    let two_r = m.radius.add(m.radius);
    let normal = f_n.length().div(two_r).add(m.kn.half().mul(tj.sub(ti)).abs());
    let tangent = f_t.length().div(two_r);
    let breaks = (dl.gt(Fixed::zero()) && normal.gt(b.max_normal_force)) || tangent.gt(
        b.max_tangent_force,
    );
    BondEffect { force: f_n.add(f_t), torque, breaks }
}

} // verus!
