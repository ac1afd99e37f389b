//! A rigid-body physics library for spherical bodies bouncing inside a
//! spherical boundary.
//!
//! All state is held in fixed-point coordinates: one world unit is `SCALE`
//! fixed-point units, and every position, velocity, radius and mass is an
//! `i64` number of fixed-point units.  The simulation step (gravity
//! integration, boundary confinement, pairwise impulse resolution over a
//! fixed number of relaxation passes, and the projection of body motion onto
//! renderable meshes) is specified exactly, down to the rounding of each
//! division.

use vstd::prelude::*;

pub mod body;
pub mod laws;
pub mod mesh;
pub mod num;
pub mod scene;
pub mod vec3;

verus! {

/// Fixed-point units per world unit.
pub const SCALE: i64 = 1_000_000;

/// Time step handed to `Scene::update_physics` by the frame driver
/// (one millisecond of simulated time per rendered frame).
pub const DT: i64 = 1_000;

/// Radius of the spherical boundary that confines every body.
pub const BORDER_RADIUS: i64 = 850_000;

/// Radius of the balls the demo scene drops into the boundary.
pub const BALL_RADIUS: i64 = 40_000;

/// Magnitude of the gravitational acceleration (9.8 world units per
/// second squared, directed along the negative y axis).
pub const GRAVITY: i64 = 9_800_000;

/// Numerator of the restitution factor: a bounce keeps 95% of the
/// velocity along the contact normal.
pub const RESTITUTION_NUM: i64 = 95;

/// Denominator of the restitution factor.
pub const RESTITUTION_DEN: i64 = 100;

/// Magnitude cap, in fixed-point units, on every position and velocity
/// component and on every radius and mass that a solver pass accepts:
/// within it, every intermediate product of the solver's arithmetic
/// provably fits its machine integer.
pub const COORD_LIMIT: i64 = 0x40_0000_0000;

/// Number of relaxation passes per step: each pass re-applies the border
/// constraint to every body and the impulse resolver to every unordered
/// pair, so that corrections made for one contact are re-checked against
/// the others.
pub const SOLVER_ITERATIONS: usize = 3;

} // verus!
