//! The leapfrog integrator as a function on states: drift with the half-step
//! velocities, evaluate the forces at the new positions, then kick.

use crate::bond::apply_bond;
use crate::contact::{contact_acc, movable};
use crate::fixed::{add_raw, half_raw, mul_raw};
use crate::angle::wrap_raw;
use crate::particle::{MaterialState, ParticleState};
use crate::vec2::{v2_add, v2_half, v2_scale, v2_zero, V2};
use vstd::prelude::*;

verus! {

/// The mathematical value of a simulation.
pub struct SimState {
    pub particles: Seq<ParticleState>,
    pub material: MaterialState,
    /// The acceleration that every movable particle is given.
    pub gravity: V2,
    /// The length of one sub-step.
    pub dt: int,
}

/// The invariants of the entity store: every radius and every rest length is
/// positive, and every bond ends at another particle of the store.
pub open spec fn well_formed(ps: Seq<ParticleState>) -> bool {
    forall|i: int|
        0 <= i < ps.len() ==> {
            &&& (#[trigger] ps[i]).radius > 0
            &&& forall|k: int|
                0 <= k < ps[i].bonds.len() ==> {
                    &&& 0 <= (#[trigger] ps[i].bonds[k]).endpoint < ps.len()
                    &&& ps[i].bonds[k].endpoint != i
                    &&& ps[i].bonds[k].rest_length > 0
                }
        }
}

/// The first phase of a sub-step: the accumulators are cleared, the position
/// moves with the half-step velocity and the angle with the half-step angular
/// velocity, and the angle is wrapped.
pub open spec fn drift(p: ParticleState, dt: int) -> ParticleState {
    ParticleState {
        force: v2_zero(),
        torque: 0,
        position: v2_add(p.position, v2_scale(p.velocity_mid, dt)),
        angle: wrap_raw(add_raw(p.angle, mul_raw(p.angvel_mid, dt))),
        ..p
    }
}

/// All particles after the first phase.
pub open spec fn drift_all(ps: Seq<ParticleState>, dt: int) -> Seq<ParticleState> {
    Seq::new(ps.len(), |i: int| drift(ps[i], dt))
}

/// Particle `i` after the contacts with all others and the first `k` of its
/// bonds have been evaluated against the positions in `ps`.
pub open spec fn bond_acc(ps: Seq<ParticleState>, i: int, k: int, m: MaterialState) -> ParticleState
    decreases k,
{
    if k <= 0 {
        ParticleState { force: contact_acc(ps, i, ps.len() as int, m.kn), ..ps[i] }
    } else {
        let p = bond_acc(ps, i, k - 1, m);
        apply_bond(p, ps[i], ps[p.bonds[k - 1].endpoint], k - 1, m)
    }
}

/// The second phase of a sub-step for particle `i`. An immovable particle
/// owns no force evaluation: it is left as it is.
pub open spec fn forces_on(ps: Seq<ParticleState>, i: int, m: MaterialState) -> ParticleState {
    if movable(ps[i]) {
        bond_acc(ps, i, ps[i].bonds.len() as int, m)
    } else {
        ps[i]
    }
}

/// All particles after the second phase, each evaluated against the same
/// positions.
pub open spec fn forces_all(ps: Seq<ParticleState>, m: MaterialState) -> Seq<ParticleState> {
    Seq::new(ps.len(), |i: int| forces_on(ps, i, m))
}

/// The linear acceleration of a particle: its force times its inverse mass,
/// plus gravity where the particle is movable.
pub open spec fn acceleration(p: ParticleState, gravity: V2) -> V2 {
    v2_add(
        v2_scale(p.force, p.inverse_mass),
        if movable(p) {
            gravity
        } else {
            v2_zero()
        },
    )
}

/// The third phase of a sub-step: the reported velocities are the half-step
/// ones advanced by half a sub-step, and the half-step ones advance by a
/// whole sub-step.
pub open spec fn kick(p: ParticleState, gravity: V2, dt: int) -> ParticleState {
    let acc = acceleration(p, gravity);
    let spin = mul_raw(p.torque, p.inverse_moment);
    ParticleState {
        velocity: v2_add(p.velocity_mid, v2_scale(v2_half(acc), dt)),
        velocity_mid: v2_add(p.velocity_mid, v2_scale(acc, dt)),
        angvel: add_raw(p.angvel_mid, mul_raw(half_raw(spin), dt)),
        angvel_mid: add_raw(p.angvel_mid, mul_raw(spin, dt)),
        ..p
    }
}

/// All particles after the third phase.
pub open spec fn kick_all(ps: Seq<ParticleState>, gravity: V2, dt: int) -> Seq<ParticleState> {
    Seq::new(ps.len(), |i: int| kick(ps[i], gravity, dt))
}

/// One sub-step: every particle drifts, then every force is evaluated at the
/// new positions, then every particle is kicked.
pub open spec fn step(s: SimState) -> SimState {
    SimState {
        particles: kick_all(forces_all(drift_all(s.particles, s.dt), s.material), s.gravity, s.dt),
        ..s
    }
}

/// The state after `n` sub-steps.
pub open spec fn steps(s: SimState, n: nat) -> SimState
    decreases n,
{
    if n == 0 {
        s
    } else {
        step(steps(s, (n - 1) as nat))
    }
}

/// Whether two bonds differ at most in that the second is broken and the
/// first is not.
pub open spec fn bond_aged(before: crate::particle::BondState, after: crate::particle::BondState) -> bool {
    &&& after.endpoint == before.endpoint
    &&& after.rest_length == before.rest_length
    &&& after.initial_direction == before.initial_direction
    &&& after.max_normal_force == before.max_normal_force
    &&& after.max_tangent_force == before.max_tangent_force
    &&& before.broken ==> after.broken
}

/// Whether the second particle is the first with other accumulators and
/// with bonds that may have broken: nothing else differs.
pub open spec fn loaded(before: ParticleState, after: ParticleState) -> bool {
    &&& after.inverse_mass == before.inverse_mass
    &&& after.inverse_moment == before.inverse_moment
    &&& after.radius == before.radius
    &&& after.angle == before.angle
    &&& after.angvel == before.angvel
    &&& after.angvel_mid == before.angvel_mid
    &&& after.position == before.position
    &&& after.velocity == before.velocity
    &&& after.velocity_mid == before.velocity_mid
    &&& after.bonds.len() == before.bonds.len()
    &&& forall|k: int|
        0 <= k < before.bonds.len() ==> bond_aged(before.bonds[k], #[trigger] after.bonds[k])
}

/// The force phase changes nothing of a particle but its accumulators and
/// the broken flags of its bonds, and it never mends a bond.
pub proof fn lemma_bond_acc_loaded(ps: Seq<ParticleState>, i: int, k: int, m: MaterialState)
    requires
        0 <= i < ps.len(),
        k <= ps[i].bonds.len(),
    ensures
        loaded(ps[i], bond_acc(ps, i, k, m)),
        forall|q: int| k <= q < ps[i].bonds.len() ==> bond_acc(ps, i, k, m).bonds[q] == ps[i].bonds[q],
    decreases k,
{
    if k > 0 {
        lemma_bond_acc_loaded(ps, i, k - 1, m);
    }
}

/// The force phase changes nothing of a particle but its accumulators and
/// the broken flags of its bonds, and it never mends a bond.
pub proof fn lemma_forces_loaded(ps: Seq<ParticleState>, i: int, m: MaterialState)
    requires
        0 <= i < ps.len(),
    ensures
        loaded(ps[i], forces_on(ps, i, m)),
{
    lemma_bond_acc_loaded(ps, i, ps[i].bonds.len() as int, m);
}

} // verus!
