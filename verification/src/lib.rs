//! Evolutionary foraging simulation: a genetic algorithm over flat
//! fixed-point genomes, the feed-forward networks they decode into, and a
//! toroidal 2D world whose agents earn fitness by eating food.
//!
//! All numeric state is fixed-point: an `i64` counts millionths of a world
//! unit (see [`fx`]), so every computation is exact and verifiable.

use vstd::prelude::*;

pub mod fx;
pub mod geom;
pub mod genetic_algorithm;
pub mod neural_network;
pub mod rng;
pub mod simulation;

verus! {

/// Errors raised at construction or at a generation boundary; nothing
/// fails mid-tick under a valid configuration.
#[derive(Clone, Copy, Debug, PartialEq, Eq, Structural)]
pub enum SimError {
    /// A flat genome's length disagrees with the network topology it
    /// should decode into.
    ShapeMismatch,
    /// A configuration value is unusable: an empty or degenerate topology,
    /// a mutation chance outside `[0, 1]`, a negative mutation coefficient,
    /// zero agents, zero foods, or world bounds that are out of range.
    InvalidConfiguration,
}

} // verus!
