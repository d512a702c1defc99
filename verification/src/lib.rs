//! Brittle fracture of a two-dimensional solid, modelled as circular particles
//! joined by elastic, breakable bonds and advanced with a leapfrog integrator.
//! All arithmetic is deterministic fixed point.

pub mod angle;
pub mod bond;
pub mod contact;
pub mod fixed;
pub mod integrator;
pub mod laws;
pub mod particle;
pub mod scene;
pub mod scheduler;
pub mod simulation;
pub mod vec2;
pub mod wide;
