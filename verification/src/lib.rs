//! A deformable cloth simulation core: point masses on a regular grid,
//! connected to their axis-aligned grid neighbors by springs, damped,
//! slowed by friction, collided against a single static sphere, and
//! integrated with semi-implicit Euler once per step.
//!
//! All quantities are fixed-point integers (thousandths of a world unit),
//! so every step is exact, deterministic and free of overflow by proof.
//!
//! The library's general guarantees are public proof functions: neighbor
//! symmetry and live-neighbor counts in `topology`; rest-length
//! equilibrium, step determinism, sphere non-penetration and the
//! idempotence of collision resolution in `sim`.

pub mod fixed;
pub mod vec3;
pub mod topology;
pub mod params;
pub mod sim;
