//! The entity store: particles, the bonds they own, and the material.

use crate::fixed::Fixed;
use crate::vec2::{v2_zero, Vec2, V2};
use vstd::prelude::*;

verus! {

/// The mathematical value of a bond.
pub struct BondState {
    pub endpoint: int,
    pub broken: bool,
    pub rest_length: int,
    pub initial_direction: V2,
    pub max_normal_force: int,
    pub max_tangent_force: int,
}

/// A directed bond from the particle that owns it to another particle.
#[derive(Clone, Copy, Debug, PartialEq, Eq)]
pub struct Bond {
    /// Whether the bond has failed. A broken bond never heals.
    pub broken: bool,
    /// Index of the particle at the other end.
    pub endpoint: u32,
    /// Length at which the bond carries no normal force.
    pub rest_length: Fixed,
    /// Unit direction of the bond when it was formed.
    pub initial_direction: Vec2,
    /// Normal stress above which the bond breaks under tension.
    pub max_normal_force: Fixed,
    /// Tangential stress above which the bond breaks.
    pub max_tangent_force: Fixed,
}

impl View for Bond {
    type V = BondState;

    open spec fn view(&self) -> BondState {
        BondState {
            endpoint: self.endpoint as int,
            broken: self.broken,
            rest_length: self.rest_length@,
            initial_direction: self.initial_direction@,
            max_normal_force: self.max_normal_force@,
            max_tangent_force: self.max_tangent_force@,
        }
    }
}

impl Bond {
    /// An unbroken bond to particle `j` with rest length `l`, initial
    /// direction `d` and the breaking thresholds `tn` and `tt`.
    pub fn new(j: u32, l: Fixed, d: Vec2, tn: Fixed, tt: Fixed) -> (r: Bond)
        ensures
            r@ == (BondState {
                endpoint: j as int,
                broken: false,
                rest_length: l@,
                initial_direction: d@,
                max_normal_force: tn@,
                max_tangent_force: tt@,
            }),
    {
        Bond {
            endpoint: j,
            broken: false,
            rest_length: l,
            initial_direction: d,
            max_normal_force: tn,
            max_tangent_force: tt,
        }
    }
}

/// The mathematical value of a particle.
pub struct ParticleState {
    pub bonds: Seq<BondState>,
    pub inverse_mass: int,
    pub inverse_moment: int,
    pub radius: int,
    pub angle: int,
    pub angvel: int,
    pub angvel_mid: int,
    pub torque: int,
    pub position: V2,
    pub velocity: V2,
    pub velocity_mid: V2,
    pub force: V2,
}

/// A circular particle. A particle whose inverse mass is zero is immovable.
#[derive(Debug)]
pub struct Particle {
    /// The bonds that start at this particle.
    pub bonds: Vec<Bond>,
    pub inverse_mass: Fixed,
    pub inverse_moment: Fixed,
    pub radius: Fixed,
    /// Orientation, kept in `(-pi, pi]`.
    pub angle: Fixed,
    /// Angular velocity at the full step.
    pub angvel: Fixed,
    /// Angular velocity at the half step: the state of the integrator.
    pub angvel_mid: Fixed,
    /// Torque accumulator, cleared at the start of every sub-step.
    pub torque: Fixed,
    pub position: Vec2,
    /// Velocity at the full step.
    pub velocity: Vec2,
    /// Velocity at the half step: the state of the integrator.
    pub velocity_mid: Vec2,
    /// Force accumulator, cleared at the start of every sub-step.
    pub force: Vec2,
}

/// The values of a list of bonds.
pub open spec fn bonds_view(bonds: Seq<Bond>) -> Seq<BondState> {
    Seq::new(bonds.len(), |k: int| bonds[k]@)
}

impl View for Particle {
    type V = ParticleState;

    open spec fn view(&self) -> ParticleState {
        ParticleState {
            bonds: bonds_view(self.bonds@),
            inverse_mass: self.inverse_mass@,
            inverse_moment: self.inverse_moment@,
            radius: self.radius@,
            angle: self.angle@,
            angvel: self.angvel@,
            angvel_mid: self.angvel_mid@,
            torque: self.torque@,
            position: self.position@,
            velocity: self.velocity@,
            velocity_mid: self.velocity_mid@,
            force: self.force@,
        }
    }
}

/// The values of a list of particles.
pub open spec fn particles_view(particles: Seq<Particle>) -> Seq<ParticleState> {
    Seq::new(particles.len(), |i: int| particles[i]@)
}

impl Particle {
    /// A particle at rest at `x`, with inverse mass `im`, inverse moment of
    /// inertia `ii` and radius `r`, that owns no bond yet.
    pub fn new(im: Fixed, ii: Fixed, r: Fixed, x: Vec2) -> (p: Particle)
        ensures
            p@ == (ParticleState {
                bonds: Seq::empty(),
                inverse_mass: im@,
                inverse_moment: ii@,
                radius: r@,
                angle: 0,
                angvel: 0,
                angvel_mid: 0,
                torque: 0,
                position: x@,
                velocity: v2_zero(),
                velocity_mid: v2_zero(),
                force: v2_zero(),
            }),
    {
        let p = Particle {
            bonds: Vec::new(),
            inverse_mass: im,
            inverse_moment: ii,
            radius: r,
            angle: Fixed::zero(),
            angvel: Fixed::zero(),
            angvel_mid: Fixed::zero(),
            torque: Fixed::zero(),
            position: x,
            velocity: Vec2::zero(),
            velocity_mid: Vec2::zero(),
            force: Vec2::zero(),
        };
        assert(p@.bonds =~= Seq::empty());
        p
    }
}

/// The mathematical value of a material.
pub struct MaterialState {
    pub kn: int,
    pub radius: int,
}

/// The material that all particles are made of.
#[derive(Clone, Copy, Debug, PartialEq, Eq)]
pub struct Material {
    /// Stiffness of contacts and bonds.
    pub kn: Fixed,
    /// The particle radius that the bond model is scaled by.
    pub radius: Fixed,
}

impl View for Material {
    type V = MaterialState;

    open spec fn view(&self) -> MaterialState {
        MaterialState { kn: self.kn@, radius: self.radius@ }
    }
}

} // verus!
