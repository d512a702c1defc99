//! The simulation object: it owns the particles and advances them by whole
//! sub-steps.

use crate::bond::{bond_load, evaluate_bond};
use crate::contact::{contact, contact_acc, contact_force, is_movable, movable};
use crate::fixed::Fixed;
use crate::integrator::{
    bond_acc, drift, drift_all, forces_all, forces_on, kick, kick_all, lemma_bond_acc_loaded,
    lemma_forces_loaded, loaded, step, steps, well_formed, SimState,
};
use crate::particle::{
    bonds_view, particles_view, BondState, Material, MaterialState, Particle, ParticleState,
};
use crate::vec2::Vec2;
use vstd::prelude::*;

verus! {

/// A simulation: the particles with their bonds, the material, gravity and
/// the length of a sub-step.
pub struct Simulation {
    particles: Vec<Particle>,
    material: Material,
    gravity: Vec2,
    dt: Fixed,
}

impl View for Simulation {
    type V = SimState;

    closed spec fn view(&self) -> SimState {
        SimState {
            particles: particles_view(self.particles@),
            material: self.material@,
            gravity: self.gravity@,
            dt: self.dt@,
        }
    }
}

/// Whether two particles agree in all that a force evaluation reads of a
/// particle other than its accumulators and bonds.
pub open spec fn same_kinematics(a: ParticleState, b: ParticleState) -> bool {
    &&& a.inverse_mass == b.inverse_mass
    &&& a.radius == b.radius
    &&& a.angle == b.angle
    &&& a.position == b.position
    &&& a.velocity == b.velocity
}

/// Whether the bonds of one particle are in order in a store of `n`
/// particles where the particle has index `i`.
pub open spec fn bonds_in_order(p: ParticleState, i: int, n: int) -> bool {
    forall|k: int|
        0 <= k < p.bonds.len() ==> {
            &&& 0 <= (#[trigger] p.bonds[k]).endpoint < n
            &&& p.bonds[k].endpoint != i
            &&& p.bonds[k].rest_length > 0
        }
}

/// Whether the bonds of one particle are in order.
fn check_bonds(p: &Particle, i: usize, n: usize) -> (ok: bool)
    ensures
        ok == bonds_in_order(p@, i as int, n as int),
{
    let mut k: usize = 0;
    while k < p.bonds.len()
        invariant
            k <= p.bonds@.len(),
            forall|q: int|
                0 <= q < k ==> {
                    &&& 0 <= (#[trigger] p@.bonds[q]).endpoint < n
                    &&& p@.bonds[q].endpoint != i
                    &&& p@.bonds[q].rest_length > 0
                },
        decreases p.bonds@.len() - k,
    {
        let b = &p.bonds[k];
        let e = b.endpoint as usize;
        if e >= n || e == i || !b.rest_length.gt(Fixed::zero()) {
            assert(!(0 <= p@.bonds[k as int].endpoint < n && p@.bonds[k as int].endpoint != i
                && p@.bonds[k as int].rest_length > 0));
            return false;
        }
        k = k + 1;
    }
    true
}

/// Whether the store keeps its invariants.
fn check_store(ps: &Vec<Particle>) -> (ok: bool)
    ensures
        ok == well_formed(particles_view(ps@)),
{
    let n = ps.len();
    let mut i: usize = 0;
    while i < n
        invariant
            n == ps@.len(),
            i <= n,
            forall|j: int|
                0 <= j < i ==> {
                    &&& (#[trigger] particles_view(ps@)[j]).radius > 0
                    &&& bonds_in_order(particles_view(ps@)[j], j, n as int)
                },
        decreases n - i,
    {
        let p = &ps[i];
        if !p.radius.gt(Fixed::zero()) || !check_bonds(p, i, n) {
            assert(particles_view(ps@)[i as int] == p@);
            return false;
        }
        assert(particles_view(ps@)[i as int] == p@);
        i = i + 1;
    }
    true
}

/// The first phase of a sub-step, on every particle.
fn drift_phase(ps: &mut Vec<Particle>, dt: Fixed)
    ensures
        particles_view(final(ps)@) == drift_all(particles_view(old(ps)@), dt@),
{
    let n = ps.len();
    let mut i: usize = 0;
    while i < n
        invariant
            n == ps@.len(),
            n == old(ps)@.len(),
            i <= n,
            forall|j: int| 0 <= j < i ==> (#[trigger] ps@[j])@ == drift(old(ps)@[j]@, dt@),
            forall|j: int| i <= j < n ==> #[trigger] ps@[j] == old(ps)@[j],
        decreases n - i,
    {
        let shift = ps[i].velocity_mid.scale(dt);
        let turn = ps[i].angvel_mid.mul(dt);
        let position = ps[i].position.add(shift);
        let angle = crate::angle::clamp_angle(ps[i].angle.add(turn));
        ps[i].force = Vec2::zero();
        ps[i].torque = Fixed::zero();
        ps[i].position = position;
        ps[i].angle = angle;
        i = i + 1;
    }
    assert(particles_view(ps@) =~= drift_all(particles_view(old(ps)@), dt@));
}

/// The third phase of a sub-step, on every particle.
fn kick_phase(ps: &mut Vec<Particle>, gravity: Vec2, dt: Fixed)
    ensures
        particles_view(final(ps)@) == kick_all(particles_view(old(ps)@), gravity@, dt@),
{
    let n = ps.len();
    let mut i: usize = 0;
    while i < n
        invariant
            n == ps@.len(),
            n == old(ps)@.len(),
            i <= n,
            forall|j: int| 0 <= j < i ==> (#[trigger] ps@[j])@ == kick(old(ps)@[j]@, gravity@, dt@),
            forall|j: int| i <= j < n ==> #[trigger] ps@[j] == old(ps)@[j],
        decreases n - i,
    {
        let pull = if is_movable(&ps[i]) {
            gravity
        } else {
            Vec2::zero()
        };
        let acc = ps[i].force.scale(ps[i].inverse_mass).add(pull);
        let spin = ps[i].torque.mul(ps[i].inverse_moment);
        let velocity = ps[i].velocity_mid.add(acc.half().scale(dt));
        let velocity_mid = ps[i].velocity_mid.add(acc.scale(dt));
        let angvel = ps[i].angvel_mid.add(spin.half().mul(dt));
        let angvel_mid = ps[i].angvel_mid.add(spin.mul(dt));
        ps[i].velocity = velocity;
        ps[i].velocity_mid = velocity_mid;
        ps[i].angvel = angvel;
        ps[i].angvel_mid = angvel_mid;
        i = i + 1;
    }
    assert(particles_view(ps@) =~= kick_all(particles_view(old(ps)@), gravity@, dt@));
}

/// The contact force does not read the accumulators or the bonds.
proof fn lemma_contact_reads(a: ParticleState, a2: ParticleState, b: ParticleState, b2: ParticleState, kn: int)
    requires
        same_kinematics(a, a2),
        same_kinematics(b, b2),
    ensures
        contact_force(a, b, kn) == contact_force(a2, b2, kn),
{
}

/// The bond load does not read the accumulators or the bonds.
proof fn lemma_bond_reads(a: ParticleState, a2: ParticleState, b: ParticleState, b2: ParticleState, bond: BondState, m: MaterialState)
    requires
        same_kinematics(a, a2),
        same_kinematics(b, b2),
    ensures
        bond_load(a, b, bond, m) == bond_load(a2, b2, bond, m),
{
}

/// The second phase of a sub-step for particle `i`, where `d` holds the
/// particles as they were when the phase began.
fn load_particle(ps: &mut Vec<Particle>, i: usize, m: &Material, Ghost(d): Ghost<Seq<ParticleState>>)
    requires
        i < old(ps)@.len(),
        d.len() == old(ps)@.len(),
        well_formed(d),
        old(ps)@[i as int]@ == d[i as int],
        forall|j: int| 0 <= j < d.len() ==> same_kinematics((#[trigger] old(ps)@[j])@, d[j]),
    ensures
        final(ps)@.len() == old(ps)@.len(),
        final(ps)@[i as int]@ == forces_on(d, i as int, m@),
        forall|j: int| 0 <= j < d.len() && j != i ==> #[trigger] final(ps)@[j] == old(ps)@[j],
{
    if !is_movable(&ps[i]) {
        return;
    }
    let n = ps.len();
    let mut force = ps[i].force;
    let mut j: usize = 0;
    while j < n
        invariant
            n == ps@.len(),
            n == d.len(),
            i < n,
            j <= n,
            ps@[i as int]@ == d[i as int],
            forall|q: int| 0 <= q < d.len() ==> same_kinematics((#[trigger] ps@[q])@, d[q]),
            force@ == contact_acc(d, i as int, j as int, m@.kn),
        decreases n - j,
    {
        if j != i {
            proof {
                lemma_contact_reads(ps@[i as int]@, d[i as int], ps@[j as int]@, d[j as int], m@.kn);
            }
            force = force.add(contact(&ps[i], &ps[j], m.kn));
        }
        j = j + 1;
    }
    let mut torque = ps[i].torque;
    let count = ps[i].bonds.len();
    let mut k: usize = 0;
    proof {
        assert(bonds_view(ps@[i as int].bonds@) == d[i as int].bonds);
    }
    while k < count
        invariant
            n == ps@.len(),
            n == d.len(),
            n == old(ps)@.len(),
            i < n,
            k <= count,
            count == d[i as int].bonds.len(),
            count == ps@[i as int].bonds@.len(),
            well_formed(d),
            forall|q: int| 0 <= q < d.len() ==> same_kinematics((#[trigger] ps@[q])@, d[q]),
            forall|q: int| 0 <= q < d.len() && q != i ==> #[trigger] ps@[q] == old(ps)@[q],
            (ParticleState { force: force@, torque: torque@, ..ps@[i as int]@ }) == bond_acc(
                d,
                i as int,
                k as int,
                m@,
            ),
        decreases count - k,
    {
        proof {
            lemma_bond_acc_loaded(d, i as int, k as int, m@);
        }
        let ghost before = ParticleState { force: force@, torque: torque@, ..ps@[i as int]@ };
        let b = ps[i].bonds[k];
        assert(b@ == before.bonds[k as int]);
        assert(b@.endpoint == d[i as int].bonds[k as int].endpoint);
        if !b.broken {
            let e = b.endpoint as usize;
            proof {
                lemma_bond_reads(ps@[i as int]@, d[i as int], ps@[e as int]@, d[e as int], b@, m@);
            }
            let effect = evaluate_bond(&ps[i], &ps[e], &b, m);
            if effect.breaks {
                ps[i].bonds[k].broken = true;
                proof {
                    assert(bonds_view(ps@[i as int].bonds@) =~= before.bonds.update(
                        k as int,
                        BondState { broken: true, ..b@ },
                    ));
                }
            } else {
                force = force.add(effect.force);
                torque = torque.add(effect.torque);
            }
        }
        k = k + 1;
    }
    ps[i].force = force;
    ps[i].torque = torque;
}

/// The second phase of a sub-step, on every particle.
fn force_phase(ps: &mut Vec<Particle>, m: &Material)
    requires
        well_formed(particles_view(old(ps)@)),
    ensures
        particles_view(final(ps)@) == forces_all(particles_view(old(ps)@), m@),
{
    let n = ps.len();
    let ghost d = particles_view(ps@);
    let mut i: usize = 0;
    while i < n
        invariant
            n == ps@.len(),
            n == d.len(),
            i <= n,
            well_formed(d),
            forall|j: int| 0 <= j < i ==> (#[trigger] ps@[j])@ == forces_on(d, j, m@),
            forall|j: int| i <= j < n ==> (#[trigger] ps@[j])@ == d[j],
        decreases n - i,
    {
        proof {
            assert forall|j: int| 0 <= j < d.len() implies same_kinematics((#[trigger] ps@[j])@, d[j]) by {
                if j < i {
                    lemma_forces_loaded(d, j, m@);
                }
            }
        }
        load_particle(ps, i, m, Ghost(d));
        i = i + 1;
    }
    assert(particles_view(ps@) =~= forces_all(d, m@));
}

/// A sub-step keeps the invariants of the store.
pub proof fn lemma_step_well_formed(s: SimState)
    requires
        well_formed(s.particles),
    ensures
        well_formed(step(s).particles),
        step(s).particles.len() == s.particles.len(),
{
    let d = drift_all(s.particles, s.dt);
    let f = forces_all(d, s.material);
    assert forall|i: int| 0 <= i < d.len() implies loaded(d[i], #[trigger] f[i]) by {
        lemma_forces_loaded(d, i, s.material);
    }
    let r = step(s).particles;
    assert forall|i: int| 0 <= i < r.len() implies {
        &&& (#[trigger] r[i]).radius > 0
        &&& forall|k: int|
            0 <= k < r[i].bonds.len() ==> {
                &&& 0 <= (#[trigger] r[i].bonds[k]).endpoint < r.len()
                &&& r[i].bonds[k].endpoint != i
                &&& r[i].bonds[k].rest_length > 0
            }
    } by {
        assert(loaded(d[i], f[i]));
        assert(s.particles[i].radius > 0);
        assert forall|k: int| 0 <= k < r[i].bonds.len() implies {
            &&& 0 <= (#[trigger] r[i].bonds[k]).endpoint < r.len()
            &&& r[i].bonds[k].endpoint != i
            &&& r[i].bonds[k].rest_length > 0
        } by {
            assert(crate::integrator::bond_aged(d[i].bonds[k], f[i].bonds[k]));
            assert(0 <= s.particles[i].bonds[k].endpoint < s.particles.len());
        }
    }
}

impl Simulation {
    /// Whether the store keeps its invariants.
    pub open spec fn wf(&self) -> bool {
        well_formed(self@.particles)
    }

    /// A simulation of the given particles, or nothing where they break an
    /// invariant of the store: a radius or a rest length that is not
    /// positive, a bond that ends at its owner or outside the store.
    pub fn new(particles: Vec<Particle>, material: Material, gravity: Vec2, dt: Fixed) -> (r: Option<Simulation>)
        ensures
            r.is_some() == well_formed(particles_view(particles@)),
            r matches Some(s) ==> s.wf() && s@ == (SimState {
                particles: particles_view(particles@),
                material: material@,
                gravity: gravity@,
                dt: dt@,
            }),
    {
        if check_store(&particles) {
            Some(Simulation { particles, material, gravity, dt })
        } else {
            None
        }
    }

    /// The particles as they stand between two sub-steps.
    pub fn particles(&self) -> (r: &Vec<Particle>)
        ensures
            particles_view(r@) == self@.particles,
    {
        &self.particles
    }

    /// The material.
    pub fn material(&self) -> (r: Material)
        ensures
            r@ == self@.material,
    {
        self.material
    }

    /// The acceleration that every movable particle is given.
    pub fn gravity(&self) -> (r: Vec2)
        ensures
            r@ == self@.gravity,
    {
        self.gravity
    }

    /// The length of one sub-step.
    pub fn dt(&self) -> (r: Fixed)
        ensures
            r@ == self@.dt,
    {
        self.dt
    }

    /// Advances the simulation by one sub-step.
    pub fn step(&mut self)
        requires
            old(self).wf(),
        ensures
            final(self)@ == step(old(self)@),
            final(self).wf(),
    {
        proof {
            lemma_step_well_formed(self@);
        }
        drift_phase(&mut self.particles, self.dt);
        proof {
            assert(well_formed(particles_view(self.particles@))) by {
                let a = old(self)@.particles;
                let d = particles_view(self.particles@);
                assert forall|i: int| 0 <= i < d.len() implies {
                    &&& (#[trigger] d[i]).radius > 0
                    &&& forall|k: int|
                        0 <= k < d[i].bonds.len() ==> {
                            &&& 0 <= (#[trigger] d[i].bonds[k]).endpoint < d.len()
                            &&& d[i].bonds[k].endpoint != i
                            &&& d[i].bonds[k].rest_length > 0
                        }
                } by {
                    assert(a[i].radius > 0);
                    assert(d[i].bonds == a[i].bonds);
                }
            }
        }
        force_phase(&mut self.particles, &self.material);
        kick_phase(&mut self.particles, self.gravity, self.dt);
    }

    /// Advances the simulation by `n` sub-steps.
    pub fn advance(&mut self, n: usize)
        requires
            old(self).wf(),
        ensures
            final(self)@ == steps(old(self)@, n as nat),
            final(self).wf(),
    {
        let mut done: usize = 0;
        while done < n
            invariant
                done <= n,
                self.wf(),
                self@ == steps(old(self)@, done as nat),
            decreases n - done,
        {
            self.step();
            done = done + 1;
        }
    }
}

} // verus!
