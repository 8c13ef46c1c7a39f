//! Simulation parameters: the per-step snapshot of global constants, the
//! configured physical constants, the sphere collider, and the bounds
//! under which every step of the kernel is proved free of overflow.

use vstd::prelude::*;
use crate::vec3::{Vec3, v3, bounded3};

verus! {

/// Largest magnitude, in fixed-point units, of any position or velocity
/// coordinate, sphere center coordinate, radius or rest length the
/// simulation accepts (ten million world units).
pub const MAX_COORD: i64 = 10_000_000_000;

/// Largest stiffness, damping or friction coefficient (one thousand).
pub const MAX_COEFF: i64 = 1_000_000;

/// Largest time step (one second).
pub const MAX_DELTA: i64 = 1000;

/// Largest supported row size of the particle grid.
pub const MAX_GRID_ROW: u32 = 1024;

/// The static sphere particles collide with.
#[derive(Clone, Copy, PartialEq, Eq, Structural, Debug)]
pub struct Sphere {
    pub center: Vec3,
    pub radius: i64,
}

/// The configured physical constants, fixed at initialization and merged
/// with the per-frame time delta into each step's parameter snapshot.
///
/// The shear and bend stiffnesses are part of the configured set, but the
/// axis-aligned four-neighbor topology can only express structural
/// springs, so the kernel has no constraint to apply them to; they ride
/// along in the snapshot awaiting a richer topology.
#[derive(Clone, Copy, PartialEq, Eq, Structural, Debug)]
pub struct PhysicalConstants {
    pub mass: i64,
    pub rest_length: i64,
    pub structural_stiffness: i64,
    pub shear_stiffness: i64,
    pub bend_stiffness: i64,
    pub damping_factor: i64,
    pub friction_factor: i64,
}

/// The immutable-per-step snapshot of global constants handed to the
/// kernel. Replaced wholesale each frame with the current time delta;
/// never mutated within a step.
#[derive(Clone, Copy, PartialEq, Eq, Structural, Debug)]
pub struct SimulationParameters {
    pub delta_time: i64,
    pub particle_count: u32,
    pub particle_radius: i64,
    pub sphere: Sphere,
    pub mass: i64,
    pub rest_length: i64,
    pub structural_stiffness: i64,
    pub shear_stiffness: i64,
    pub bend_stiffness: i64,
    pub damping_factor: i64,
    pub friction_factor: i64,
}

/// A configuration rejected at initialization.
#[derive(Clone, Copy, PartialEq, Eq, Structural, Debug)]
pub enum ConfigError {
    /// The grid must have at least one row.
    ZeroRowSize,
    /// The particle mass must be positive.
    NonPositiveMass,
    /// The sphere collider must have a positive radius.
    DegenerateSphereRadius,
}

/// A sphere within the representable range.
pub open spec fn sphere_wf(s: Sphere) -> bool {
    bounded3(v3(s.center), MAX_COORD as int) && 1 <= s.radius <= MAX_COORD
}

/// Physical constants within the representable range.
pub open spec fn constants_wf(c: PhysicalConstants) -> bool {
    &&& 1 <= c.mass <= MAX_COORD
    &&& 0 <= c.rest_length <= MAX_COORD
    &&& 0 <= c.structural_stiffness <= MAX_COEFF
    &&& 0 <= c.shear_stiffness <= MAX_COEFF
    &&& 0 <= c.bend_stiffness <= MAX_COEFF
    &&& 0 <= c.damping_factor <= MAX_COEFF
    &&& 0 <= c.friction_factor <= MAX_COEFF
}

/// A parameter snapshot under which one kernel step cannot overflow.
pub open spec fn params_wf(p: SimulationParameters) -> bool {
    &&& 1 <= p.delta_time <= MAX_DELTA
    &&& 0 <= p.particle_radius <= MAX_COORD
    &&& sphere_wf(p.sphere)
    &&& 1 <= p.mass <= MAX_COORD
    &&& 0 <= p.rest_length <= MAX_COORD
    &&& 0 <= p.structural_stiffness <= MAX_COEFF
    &&& 0 <= p.shear_stiffness <= MAX_COEFF
    &&& 0 <= p.bend_stiffness <= MAX_COEFF
    &&& 0 <= p.damping_factor <= MAX_COEFF
    &&& 0 <= p.friction_factor <= MAX_COEFF
}

/// The snapshot for one step: the configured constants with the current
/// time delta substituted.
pub open spec fn snapshot_spec(
    c: PhysicalConstants,
    delta_time: i64,
    particle_count: u32,
    particle_radius: i64,
    sphere: Sphere,
) -> SimulationParameters {
    SimulationParameters {
        delta_time,
        particle_count,
        particle_radius,
        sphere,
        mass: c.mass,
        rest_length: c.rest_length,
        structural_stiffness: c.structural_stiffness,
        shear_stiffness: c.shear_stiffness,
        bend_stiffness: c.bend_stiffness,
        damping_factor: c.damping_factor,
        friction_factor: c.friction_factor,
    }
}

/// Builds the parameter snapshot for one step.
pub fn snapshot(
    c: &PhysicalConstants,
    delta_time: i64,
    particle_count: u32,
    particle_radius: i64,
    sphere: Sphere,
) -> (p: SimulationParameters)
    ensures
        p == snapshot_spec(*c, delta_time, particle_count, particle_radius, sphere),
{
    SimulationParameters {
        delta_time,
        particle_count,
        particle_radius,
        sphere,
        mass: c.mass,
        rest_length: c.rest_length,
        structural_stiffness: c.structural_stiffness,
        shear_stiffness: c.shear_stiffness,
        bend_stiffness: c.bend_stiffness,
        damping_factor: c.damping_factor,
        friction_factor: c.friction_factor,
    }
}

} // verus!
