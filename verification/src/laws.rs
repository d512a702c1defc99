//! Laws of the model that hold of every state.

use crate::angle::{wrap_raw, PI_RAW, TWO_PI_RAW};
use crate::bond::{apply_bond, bond_load};
use crate::contact::{contact_acc, contact_force, movable, overlap, CONTACT_MIN_RAW};
use crate::fixed::{add_raw, div_raw, in_range, magnitude, mul_raw};
use crate::integrator::{
    bond_acc, bond_aged, drift_all, forces_all, kick_all, lemma_forces_loaded, loaded, step, steps,
    SimState,
};
use crate::particle::{MaterialState, ParticleState};
use crate::vec2::{v2_length, v2_neg, v2_normalize, v2_sub, v2_zero, V2};
use crate::wide::lemma_isqrt_unique;
use vstd::arithmetic::div_mod::{lemma_fundamental_div_mod_converse, lemma_small_mod};
use vstd::prelude::*;

verus! {

/// A wrapped angle lies in `(-pi, pi]`, differs from the angle by whole
/// turns, and wrapping it again changes nothing.
pub proof fn lemma_wrap_idempotent(t: int)
    ensures
        -PI_RAW < wrap_raw(t) <= PI_RAW,
        (t - wrap_raw(t)) % (TWO_PI_RAW as int) == 0,
        wrap_raw(wrap_raw(t)) == wrap_raw(t),
{
    let w = wrap_raw(t);
    let r = (PI_RAW - t) % (TWO_PI_RAW as int);
    vstd::arithmetic::div_mod::lemma_mod_bound(PI_RAW - t, TWO_PI_RAW as int);
    lemma_small_mod((PI_RAW - w) as nat, TWO_PI_RAW as nat);
    vstd::arithmetic::div_mod::lemma_fundamental_div_mod(PI_RAW - t, TWO_PI_RAW as int);
    let q = (PI_RAW - t) / (TWO_PI_RAW as int);
    assert(t - w == (-q) * TWO_PI_RAW) by (nonlinear_arith)
        requires
            PI_RAW - t == TWO_PI_RAW * q + r,
            w == PI_RAW - r,
    ;
    lemma_fundamental_div_mod_converse(t - w, TWO_PI_RAW as int, -q, 0);
}

/// An angle that lies in `(-pi, pi]` is its own wrapping.
pub proof fn lemma_wrap_fixed(t: int)
    requires
        -PI_RAW < t <= PI_RAW,
    ensures
        wrap_raw(t) == t,
{
    lemma_small_mod((PI_RAW - t) as nat, TWO_PI_RAW as nat);
}

/// A product is zero where a factor is zero.
pub proof fn lemma_mul_zero(a: int)
    ensures
        mul_raw(a, 0) == 0,
        mul_raw(0, a) == 0,
{
    assert(magnitude(a) * 0 == 0) by (nonlinear_arith);
    assert(0 * magnitude(a) == 0) by (nonlinear_arith);
}

/// A product changes its sign with either factor.
pub proof fn lemma_mul_odd(a: int, b: int)
    ensures
        mul_raw(-a, b) == -mul_raw(a, b),
        mul_raw(a, -b) == -mul_raw(a, b),
        mul_raw(-a, -b) == mul_raw(a, b),
{
    lemma_mul_zero(a);
    lemma_mul_zero(b);
    lemma_mul_zero(-a);
    lemma_mul_zero(-b);
}

/// A quotient changes its sign with the dividend.
pub proof fn lemma_div_odd(a: int, b: int)
    ensures
        div_raw(-a, b) == -div_raw(a, b),
{
    assert(0 * (crate::fixed::SCALE as int) == 0);
    if a == 0 && b != 0 {
        assert(0int / magnitude(b) == 0) by (nonlinear_arith)
            requires
                magnitude(b) > 0,
        ;
    }
}

/// A vector and its opposite have the same length.
pub proof fn lemma_length_even(a: V2)
    ensures
        v2_length(v2_neg(a)) == v2_length(a),
{
    assert((-a.x) * (-a.x) == a.x * a.x) by (nonlinear_arith);
    assert((-a.y) * (-a.y) == a.y * a.y) by (nonlinear_arith);
}

/// The zero vector has length zero.
pub proof fn lemma_length_zero()
    ensures
        v2_length(v2_zero()) == 0,
{
    assert(0int * 0int + 0int * 0int == 0) by (nonlinear_arith);
    assert(0int * 0int == 0 && (0int + 1) * (0int + 1) == 1) by (nonlinear_arith);
    lemma_isqrt_unique(0, 0);
}

/// Contact reciprocity: the force that `pj` exerts on `pi` by contact is the
/// opposite of the force that `pi` exerts on `pj`.
pub proof fn lemma_contact_reciprocal(pi: ParticleState, pj: ParticleState, kn: int)
    ensures
        contact_force(pi, pj, kn) == v2_neg(contact_force(pj, pi, kn)),
{
    let lij = v2_sub(pi.position, pj.position);
    let lji = v2_sub(pj.position, pi.position);
    assert(lij == v2_neg(lji));
    lemma_length_even(lji);
    assert(overlap(pi, pj) == overlap(pj, pi));
    let o = overlap(pi, pj);
    if o >= CONTACT_MIN_RAW {
        let len = v2_length(lij);
        let nij = v2_normalize(lij);
        let nji = v2_normalize(lji);
        lemma_div_odd(lji.x, len);
        lemma_div_odd(lji.y, len);
        assert(nij == v2_neg(nji));
        let vij = v2_sub(pj.velocity, pi.velocity);
        let vji = v2_sub(pi.velocity, pj.velocity);
        assert(vji == v2_neg(vij));
        lemma_mul_odd(vij.x, nij.x);
        lemma_mul_odd(vij.y, nij.y);
        let a = crate::contact::damping(pi, pj, kn);
        assert(a == crate::contact::damping(pj, pi, kn));
        let closing = crate::vec2::v2_dot(vij, nij);
        assert(closing == crate::vec2::v2_dot(vji, nji));
        let size = add_raw(mul_raw(kn, o), mul_raw(a, closing));
        lemma_mul_odd(nji.x, size);
        lemma_mul_odd(nji.y, size);
    }
}

/// A particle that forces do not move and that is at rest.
pub open spec fn anchored(p: ParticleState) -> bool {
    &&& !movable(p)
    &&& p.velocity == v2_zero()
    &&& p.velocity_mid == v2_zero()
    &&& p.angvel == 0
    &&& p.angvel_mid == 0
    &&& in_range(p.position.x)
    &&& in_range(p.position.y)
    &&& -PI_RAW < p.angle <= PI_RAW
}

/// A sub-step leaves an anchored particle where it is, whatever the other
/// particles do.
pub proof fn lemma_anchored_step(s: SimState, i: int)
    requires
        0 <= i < s.particles.len(),
        anchored(s.particles[i]),
    ensures
        anchored(step(s).particles[i]),
        step(s).particles[i].position == s.particles[i].position,
        step(s).particles[i].angle == s.particles[i].angle,
        step(s).particles[i].velocity == s.particles[i].velocity,
        step(s).particles[i].angvel == s.particles[i].angvel,
        step(s).particles.len() == s.particles.len(),
{
    let p = s.particles[i];
    let d = drift_all(s.particles, s.dt);
    let f = forces_all(d, s.material);
    lemma_mul_zero(s.dt);
    lemma_wrap_fixed(p.angle);
    assert(d[i].position == p.position);
    assert(d[i].angle == p.angle);
    assert(f[i] == d[i]);
    lemma_mul_zero(f[i].inverse_mass);
    lemma_mul_zero(f[i].inverse_moment);
    assert(crate::fixed::half_raw(0) == 0);
}

/// Immovable invariance: after any number of sub-steps, an anchored
/// particle has the position, velocity, angle and angular velocity that it
/// began with.
pub proof fn lemma_anchored_forever(s: SimState, n: nat, i: int)
    requires
        0 <= i < s.particles.len(),
        anchored(s.particles[i]),
    ensures
        steps(s, n).particles.len() == s.particles.len(),
        anchored(steps(s, n).particles[i]),
        steps(s, n).particles[i].position == s.particles[i].position,
        steps(s, n).particles[i].angle == s.particles[i].angle,
        steps(s, n).particles[i].velocity == s.particles[i].velocity,
        steps(s, n).particles[i].angvel == s.particles[i].angvel,
    decreases n,
{
    if n > 0 {
        lemma_anchored_forever(s, (n - 1) as nat, i);
        lemma_anchored_step(steps(s, (n - 1) as nat), i);
    }
}

/// A broken bond applies nothing, and a bond that is broken after it was
/// evaluated has applied nothing in that evaluation.
pub proof fn lemma_broken_bond_is_inert(p: ParticleState, pi: ParticleState, pj: ParticleState, k: int, m: MaterialState)
    requires
        0 <= k < p.bonds.len(),
    ensures
        p.bonds[k].broken ==> apply_bond(p, pi, pj, k, m) == p,
        apply_bond(p, pi, pj, k, m).bonds[k].broken ==> {
            &&& apply_bond(p, pi, pj, k, m).force == p.force
            &&& apply_bond(p, pi, pj, k, m).torque == p.torque
        },
{
}

/// A sub-step keeps every bond as it is but for the broken flag, which it
/// may set and never clears.
pub proof fn lemma_step_bonds(s: SimState, i: int)
    requires
        0 <= i < s.particles.len(),
    ensures
        step(s).particles.len() == s.particles.len(),
        step(s).particles[i].bonds.len() == s.particles[i].bonds.len(),
        forall|k: int|
            0 <= k < s.particles[i].bonds.len() ==> bond_aged(
                s.particles[i].bonds[k],
                #[trigger] step(s).particles[i].bonds[k],
            ),
{
    let d = drift_all(s.particles, s.dt);
    lemma_forces_loaded(d, i, s.material);
    let f = forces_all(d, s.material);
    assert(loaded(d[i], f[i]));
    assert forall|k: int| 0 <= k < s.particles[i].bonds.len() implies bond_aged(
        s.particles[i].bonds[k],
        #[trigger] step(s).particles[i].bonds[k],
    ) by {
        assert(bond_aged(d[i].bonds[k], f[i].bonds[k]));
    }
}

/// Bond monotonicity: a bond that is broken stays broken through any number
/// of sub-steps, and nothing else of a bond ever changes.
pub proof fn lemma_broken_forever(s: SimState, n: nat, i: int, k: int)
    requires
        0 <= i < s.particles.len(),
        0 <= k < s.particles[i].bonds.len(),
    ensures
        steps(s, n).particles.len() == s.particles.len(),
        steps(s, n).particles[i].bonds.len() == s.particles[i].bonds.len(),
        bond_aged(s.particles[i].bonds[k], steps(s, n).particles[i].bonds[k]),
    decreases n,
{
    if n > 0 {
        lemma_broken_forever(s, (n - 1) as nat, i, k);
        lemma_step_bonds(steps(s, (n - 1) as nat), i);
    }
}


/// A particle with both accumulators cleared.
pub open spec fn cleared(p: ParticleState) -> ParticleState {
    ParticleState { force: v2_zero(), torque: 0, ..p }
}

/// A particle that does not move or turn and has orientation zero.
pub open spec fn still(p: ParticleState) -> bool {
    &&& p.velocity == v2_zero()
    &&& p.velocity_mid == v2_zero()
    &&& p.angvel == 0
    &&& p.angvel_mid == 0
    &&& p.angle == 0
    &&& in_range(p.position.x)
    &&& in_range(p.position.y)
}

/// A bond whose ends are exactly its rest length apart, in the direction in
/// which it was formed, and whose tangential threshold is not negative.
pub open spec fn bond_relaxed(ps: Seq<ParticleState>, i: int, k: int) -> bool {
    let b = ps[i].bonds[k];
    let l = v2_sub(ps[b.endpoint].position, ps[i].position);
    &&& 0 <= b.endpoint < ps.len()
    &&& b.rest_length == v2_length(l)
    &&& b.initial_direction == v2_normalize(l)
    &&& b.max_tangent_force >= 0
}

/// A state of rest: no gravity, every particle still, every bond relaxed, and
/// no two particles in contact.
pub open spec fn at_rest(s: SimState) -> bool {
    &&& s.gravity == v2_zero()
    &&& forall|i: int| 0 <= i < s.particles.len() ==> still(#[trigger] s.particles[i])
    &&& forall|i: int, k: int|
        0 <= i < s.particles.len() && 0 <= k < s.particles[i].bonds.len() ==> #[trigger] bond_relaxed(
            s.particles,
            i,
            k,
        )
    &&& forall|i: int, j: int|
        0 <= i < s.particles.len() && 0 <= j < s.particles.len() && i != j ==> #[trigger] overlap(
            s.particles[i],
            s.particles[j],
        ) < CONTACT_MIN_RAW
}

/// All particles with their accumulators cleared.
pub open spec fn cleared_all(ps: Seq<ParticleState>) -> Seq<ParticleState> {
    Seq::new(ps.len(), |i: int| cleared(ps[i]))
}

proof fn lemma_no_contact(ps: Seq<ParticleState>, i: int, n: int, kn: int)
    requires
        0 <= i < ps.len(),
        0 <= n <= ps.len(),
        ps[i].force == v2_zero(),
        forall|a: int, b: int|
            0 <= a < ps.len() && 0 <= b < ps.len() && a != b ==> #[trigger] overlap(ps[a], ps[b])
                < CONTACT_MIN_RAW,
    ensures
        contact_acc(ps, i, n, kn) == v2_zero(),
    decreases n,
{
    if n > 0 {
        lemma_no_contact(ps, i, n - 1, kn);
        if n - 1 != i {
            assert(overlap(ps[i], ps[n - 1]) < CONTACT_MIN_RAW);
        }
    }
}

/// A relaxed bond between two still particles carries no load and holds.
pub proof fn lemma_relaxed_bond_load(ps: Seq<ParticleState>, i: int, k: int, m: MaterialState)
    requires
        0 <= i < ps.len(),
        0 <= k < ps[i].bonds.len(),
        bond_relaxed(ps, i, k),
        ps[i].angle == 0,
        ps[ps[i].bonds[k].endpoint].angle == 0,
    ensures
        bond_load(ps[i], ps[ps[i].bonds[k].endpoint], ps[i].bonds[k], m).force == v2_zero(),
        bond_load(ps[i], ps[ps[i].bonds[k].endpoint], ps[i].bonds[k], m).torque == 0,
        !bond_load(ps[i], ps[ps[i].bonds[k].endpoint], ps[i].bonds[k], m).breaks,
{
    let b = ps[i].bonds[k];
    let pi = ps[i];
    let pj = ps[b.endpoint];
    let l = v2_sub(pj.position, pi.position);
    let n = v2_normalize(l);
    assert(crate::bond::stretch(pi, pj, b) == 0);
    assert(crate::bond::axis_rotation(pi, pj, b) == 0);
    lemma_wrap_fixed(0);
    assert(crate::bond::end_angle(0, 0) == 0);
    lemma_mul_zero(m.kn);
    lemma_mul_zero(n.x);
    lemma_mul_zero(n.y);
    assert(crate::bond::normal_force(pi, pj, b, m) == v2_zero());
    let coefficient = div_raw(
        mul_raw(div_raw(-m.kn, 3 * crate::fixed::SCALE), mul_raw(m.radius, m.radius)),
        v2_length(l),
    );
    lemma_mul_zero(coefficient);
    let t = crate::vec2::v2_perp(n);
    lemma_mul_zero(t.x);
    lemma_mul_zero(t.y);
    assert(crate::bond::tangent_force(pi, pj, b, m) == v2_zero());
    lemma_mul_zero(3 * crate::fixed::SCALE);
    lemma_mul_zero(mul_raw(div_raw(m.kn, 6 * crate::fixed::SCALE), mul_raw(m.radius, m.radius)));
    assert(crate::bond::bending_torque(pi, pj, b, m) == 0);
    lemma_length_zero();
    let two_r = add_raw(m.radius, m.radius);
    assert(div_raw(0, two_r) == 0) by {
        if two_r != 0 {
            assert(0 * (crate::fixed::SCALE as int) == 0);
            assert(0int / magnitude(two_r) == 0) by (nonlinear_arith)
                requires
                    magnitude(two_r) > 0,
            ;
        }
    }
    assert(crate::bond::tangent_stress(pi, pj, b, m) == 0);
}

proof fn lemma_relaxed_bonds(ps: Seq<ParticleState>, i: int, k: int, m: MaterialState)
    requires
        0 <= i < ps.len(),
        0 <= k <= ps[i].bonds.len(),
        ps[i].force == v2_zero(),
        ps[i].torque == 0,
        forall|a: int| 0 <= a < ps.len() ==> (#[trigger] ps[a]).angle == 0,
        forall|q: int| 0 <= q < ps[i].bonds.len() ==> #[trigger] bond_relaxed(ps, i, q),
        forall|a: int, b: int|
            0 <= a < ps.len() && 0 <= b < ps.len() && a != b ==> #[trigger] overlap(ps[a], ps[b])
                < CONTACT_MIN_RAW,
    ensures
        bond_acc(ps, i, k, m) == ps[i],
    decreases k,
{
    if k <= 0 {
        lemma_no_contact(ps, i, ps.len() as int, m.kn);
    } else {
        lemma_relaxed_bonds(ps, i, k - 1, m);
        assert(bond_relaxed(ps, i, k - 1));
        lemma_relaxed_bond_load(ps, i, k - 1, m);
    }
}

/// Rest-state stability, one sub-step: a state of rest stays as it is, with
/// every force and torque zero and no bond broken.
pub proof fn lemma_rest_step(s: SimState)
    requires
        at_rest(s),
    ensures
        step(s) == (SimState { particles: cleared_all(s.particles), ..s }),
        at_rest(step(s)),
{
    let ps = s.particles;
    let d = drift_all(ps, s.dt);
    let c = cleared_all(ps);
    lemma_mul_zero(s.dt);
    lemma_wrap_fixed(0);
    assert forall|i: int| 0 <= i < ps.len() implies #[trigger] d[i] == cleared(ps[i]) by {
        assert(still(ps[i]));
    }
    assert(d =~= c);
    assert forall|i: int, j: int| 0 <= i < c.len() && 0 <= j < c.len() && i != j implies #[trigger] overlap(
        c[i],
        c[j],
    ) < CONTACT_MIN_RAW by {
        assert(overlap(ps[i], ps[j]) < CONTACT_MIN_RAW);
    }
    assert forall|i: int, k: int| 0 <= i < c.len() && 0 <= k < c[i].bonds.len() implies #[trigger] bond_relaxed(
        c,
        i,
        k,
    ) by {
        assert(bond_relaxed(ps, i, k));
    }
    assert forall|a: int| 0 <= a < c.len() implies (#[trigger] c[a]).angle == 0 by {
        assert(still(ps[a]));
    }
    let f = forces_all(c, s.material);
    assert forall|i: int| 0 <= i < c.len() implies #[trigger] f[i] == c[i] by {
        lemma_relaxed_bonds(c, i, c[i].bonds.len() as int, s.material);
    }
    assert(f =~= c);
    let r = kick_all(c, s.gravity, s.dt);
    assert forall|i: int| 0 <= i < c.len() implies #[trigger] r[i] == c[i] by {
        assert(still(ps[i]));
        lemma_mul_zero(c[i].inverse_mass);
        lemma_mul_zero(c[i].inverse_moment);
        assert(crate::fixed::half_raw(0) == 0);
    }
    assert(r =~= c);
    assert forall|i: int| 0 <= i < c.len() implies still(#[trigger] c[i]) by {
        assert(still(ps[i]));
    }
}

/// Rest-state stability: a state of rest stays as it is through any number
/// of sub-steps.
pub proof fn lemma_rest_forever(s: SimState, n: nat)
    requires
        at_rest(s),
        n >= 1,
    ensures
        steps(s, n) == (SimState { particles: cleared_all(s.particles), ..s }),
    decreases n,
{
    lemma_rest_step(s);
    if n > 1 {
        lemma_rest_forever(s, (n - 1) as nat);
        let t = steps(s, (n - 1) as nat);
        lemma_rest_step(t);
        assert(cleared_all(t.particles) =~= t.particles);
    } else {
        assert(steps(s, 0) == s);
    }
}

} // verus!
