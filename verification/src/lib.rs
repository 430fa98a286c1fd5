//! Core of a two-dimensional smoothed-particle-hydrodynamics simulation.
//!
//! The crate holds what such a simulation decides in integers: the uniform
//! spatial hash grid with its buckets, the neighbour search over adjacent
//! cells, the structure-of-arrays particle state with its contiguous layout,
//! the initial placement on a lattice, and the bookkeeping that opens every
//! step. The physical quantities themselves are values of a type that the
//! caller chooses; the crate stores and moves them and leaves their
//! arithmetic to the caller.

pub mod constants;
pub mod geometry;
pub mod initial_conditions;
pub mod neighbor_laws;
pub mod simulation;
pub mod spatial_hash;
pub mod state;
pub mod video;
