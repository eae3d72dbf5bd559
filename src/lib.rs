//! Discrete particle movement and collision resolution on integer coordinates.
//!
//! Positions, radii and boundary extents are integers in a fine length unit,
//! velocities are length units per time unit, and a step lasts a whole number of
//! time units. Every quantity that the simulation computes is therefore exact
//! integer arithmetic, with explicit rounding where a length is divided.
pub mod arith;
pub mod vector;
pub mod limits;
pub mod motion;
pub mod collision;
pub mod bounds;
pub mod pass;
pub mod step;
pub mod laws;

pub use bounds::{reflect, Boundary};
pub use collision::{escape_directions, resolve_pair, ResolutionPolicy};
pub use motion::{integrate, Motion};
pub use pass::resolve_collisions;
pub use step::{integrate_all, reflect_all, step, Particle};
pub use vector::Vec3;
