use vstd::prelude::*;

verus! {

/// Largest magnitude of a position component or a boundary extent handed to a step.
pub const MAX_COORD: i64 = 1_099_511_627_776;

/// Largest effective radius of a particle.
pub const MAX_RADIUS: i64 = 1_073_741_824;

/// Largest speed (Euclidean length of a velocity).
pub const MAX_SPEED: i64 = 1_073_741_824;

/// Largest duration of one step, in time units.
pub const MAX_DT: i64 = 1_048_576;

/// Largest number of particles in one simulation.
pub const MAX_PARTICLES: usize = 65_536;

/// Bound on the position components that pair resolution accepts; positions stay
/// inside it while the collision pass moves them.
pub const WORK_COORD: i64 = 4_503_599_627_370_496;

/// Per-axis samples for escape directions lie in `[0, SAMPLE_SPAN)`.
pub const SAMPLE_SPAN: i64 = 1024;

} // verus!
