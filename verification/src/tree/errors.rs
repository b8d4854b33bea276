//! Error types of the variation and selection operators. Probabilities and
//! rates are fixed-point values on the [`crate::PROB_SCALE`] scale; a value
//! above the scale is outside the unit interval and is rejected eagerly.
use vstd::prelude::*;

verus! {

/// Rejected mutation configuration.
#[derive(Debug, PartialEq, Eq, Structural)]
pub enum MutationError {
    /// The mutation probability lies outside the unit interval.
    InvalidProbability(u64),
    /// The constant mutation rate lies outside the unit interval.
    InvalidMutationRate(u64),
}

/// Rejected crossover configuration.
#[derive(Debug, PartialEq, Eq, Structural)]
pub enum CrossoverError {
    /// The crossover probability lies outside the unit interval.
    InvalidProbability(u64),
}

/// Rejected selection requests.
#[derive(Debug, PartialEq, Eq, Structural)]
pub enum SelectionError {
    /// The tournament asks for more individuals than the population holds.
    InvalidTournamentSize(usize, usize),
    /// Two fitness values that cannot be ordered.
    InvalidFitnessComparison(u64, u64),
}

} // verus!
