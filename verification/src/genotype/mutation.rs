//! Elementary mutation operators on linear genotypes, and markers for the
//! constant-mutation strategies.
use vstd::prelude::*;

use crate::rng::{rand_below, rand_value};
use crate::PROB_SCALE;

verus! {

/// Marker for mutating constants by random perturbation.
pub struct RandomMutation {}

/// Marker for mutating constants by systematic optimisation.
pub struct SystematicMutation {}

/// Flips each position of a binary string independently, with the
/// configured probability.
pub struct UniformBinaryMutation {
    probability: u64,
}

impl UniformBinaryMutation {
    pub closed spec fn probability_spec(&self) -> u64 {
        self.probability
    }

    pub fn new(probability: u64) -> (r: Self)
        ensures
            r.probability_spec() == probability,
    {
        Self { probability }
    }

    /// Returns a copy of the genotype in which every position fell to an
    /// independent redraw with the configured probability.
    pub fn mutate<R: rand::Rng>(&self, rng: &mut R, genotype: &[bool]) -> (r: Vec<bool>)
        ensures
            r@.len() == genotype@.len(),
    {
        let mut mutant: Vec<bool> = Vec::new();
        let mut i: usize = 0;
        while i < genotype.len()
            invariant
                i <= genotype@.len(),
                mutant@.len() == i,
            decreases genotype@.len() - i,
        {
            let chance = rand_below(rng, PROB_SCALE);
            if chance < self.probability {
                mutant.push(rand_value(rng));
            } else {
                mutant.push(genotype[i]);
            }
            i = i + 1;
        }
        mutant
    }
}

} // verus!
