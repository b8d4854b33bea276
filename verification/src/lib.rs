//! Tree-based genetic programming: arena-encoded expression trees, weighted
//! operator sampling, stochastic tree generators, structural variation
//! operators and a batch fitness evaluator.
mod rng;

pub mod common;
pub mod dataset;
pub mod genotype;
pub mod operators;
pub mod population;
pub mod syntax_tree;
pub mod tree;

use vstd::prelude::*;

verus! {

/// Scale for fixed-point probabilities and sampling weights: a probability
/// of one is `PROB_SCALE`.
pub const PROB_SCALE: u64 = 1_000_000_000_000;

/// How far a weight sum may sit from `PROB_SCALE` and still count as a
/// distribution: the relative tolerance of one in ten billion, on the scale.
pub const WEIGHT_TOLERANCE: u64 = 100;

} // verus!
