//! Integer configuration of the simulation.

use vstd::prelude::*;

verus! {

/// Number of particles in the default configuration.
pub const N: usize = 1000;

/// Number of per-particle quantities: position, velocity, current and
/// previous acceleration (three components each), density and pressure.
pub const FIELDS: usize = 14;

/// Length of the contiguous buffer that holds every per-particle quantity of
/// the default configuration.
pub const ARENA_SIZE: usize = N * FIELDS;

/// Number of spatial axes that carry forces.
pub const DIM: usize = 2;

/// Largest number of steps advanced between two rendered frames.
pub const MAX_TIMESTEPS_PER_FRAME: usize = 5;

/// Cells added to every axis of the grid beyond what the extent spans.
pub const GRID_PADDING: usize = 3;

} // verus!
