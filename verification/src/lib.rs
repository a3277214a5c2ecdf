//! A verified 2D cloth simulation core: point masses linked by distance
//! constraints, advanced by Verlet integration under gravity, relaxed by
//! Gauss-Seidel sweeps, and torn interactively by a nearest-segment query.
//!
//! All coordinates are fixed-point integers: the caller picks the scale
//! (for example thousandths of a pixel). Every operation is deterministic
//! integer arithmetic, so each contract pins the result exactly.
use vstd::prelude::*;

mod constraint;
mod geom;
mod particle;
mod sim;

pub use constraint::Constraint;
pub use geom::Vec2;
pub use particle::Particle;
pub use sim::Simulation;

verus! {

/// Positions at most this large (in absolute value) take part in a
/// relaxation step; larger ones are left where they are, so that the
/// correction arithmetic stays far from the `i64` range.
pub const SAT_LIMIT: i64 = 100_000_000;

/// Upper bound on a constraint's rest length; any two positions within
/// `SAT_LIMIT` lie closer than this.
pub const REST_LIMIT: i64 = 400_000_000;

/// Bound on well-formed particle coordinates: relaxation keeps positions
/// within it, and integration accepts any position inside it.
pub const POS_LIMIT: i64 = 500_000_000;

/// Bound on an accumulated acceleration accepted by integration.
pub const ACC_LIMIT: i64 = 1_000_000;

/// Bound on the time step, measured in thousandths of a time unit.
pub const DT_LIMIT: i64 = 10_000;

/// Bound on the coordinates accepted by the nearest-segment query; the
/// exact squared-distance arithmetic needs 128 bits below this bound.
pub const QUERY_LIMIT: i64 = 1_000_000_000;

/// Number of relaxation sweeps per tick that the simulation was tuned
/// for; more sweeps trade time for stiffness.
pub const DEFAULT_RELAX_ITERATIONS: usize = 5;

} // verus!
