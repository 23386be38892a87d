//! A verified boids flocking core: a uniform-grid spatial index over a bounded
//! 3D world, and the per-tick steering and motion-integration pipeline that
//! consumes it. All geometry is fixed-point: one world unit is `SCALE`
//! fixed-point steps, so every quantity is an exact integer.

use vstd::prelude::*;

pub mod agents;
pub mod errors;
pub mod grid;
pub mod motion;
mod rng;
pub mod sim;
pub mod steering;
pub mod vec3;

pub use agents::Agent;
pub use agents::AgentStore;
pub use errors::ConfigurationError;
pub use errors::SpatialIndexError;
pub use grid::CellKey;
pub use grid::SpatialGrid;
pub use grid::GridView;
pub use sim::SimConfig;
pub use sim::SimView;
pub use sim::Simulation;
pub use vec3::Vec3;
pub use vec3::SpecVec3;

verus! {

/// Fixed-point scale: one world unit.
pub const SCALE: i64 = 1_000_000;

/// Largest magnitude any coordinate may take: a machine limit that keeps all
/// intermediate arithmetic inside `i64`/`i128` ranges.
pub const COORD_LIMIT: i64 = 1_000_000_000_000;

} // verus!
