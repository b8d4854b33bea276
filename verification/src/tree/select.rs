//! Tournament selection: the best of a random subset of the population.
use vstd::prelude::*;

use crate::operators::functions::Float;
use crate::rng::rand_distinct_indices;
use crate::tree::genotype::TreeGenotype;
use crate::tree::individual::TreeIndividual;

verus! {

/// Selects the fittest of `tournament_size` distinct individuals drawn at
/// random from the population.
pub struct TournamentSelection {
    tournament_size: usize,
}

impl TournamentSelection {
    pub closed spec fn size_spec(&self) -> usize {
        self.tournament_size
    }

    pub fn new(tournament_size: usize) -> (r: Self)
        ensures
            r.size_spec() == tournament_size,
    {
        Self { tournament_size }
    }

    pub fn tournament_size(&self) -> (r: usize)
        ensures
            r == self.size_spec(),
    {
        self.tournament_size
    }

    /// Draws the tournament and returns a clone of the genotype whose
    /// fitness none of the other drawn contenders undercuts: the result is
    /// some population member's genotype.
    pub fn select<R: rand::Rng, F: Float>(
        &self,
        rng: &mut R,
        population: &[TreeIndividual<TreeGenotype, F>],
    ) -> (r: TreeGenotype)
        requires
            1 <= self.size_spec() <= population@.len(),
        ensures
            exists|i: int|
                0 <= i < population@.len() && r.labels() == population@[i].genotype_spec().labels()
                    && r.kids() == population@[i].genotype_spec().kids(),
    {
        let chosen = rand_distinct_indices(rng, population.len(), self.tournament_size);
        let mut best: usize = chosen[0];
        let mut j: usize = 1;
        while j < chosen.len()
            invariant
                best < population@.len(),
                forall|t: int| 0 <= t < chosen@.len() ==> #[trigger] chosen@[t] < population@.len(),
                j <= chosen@.len(),
            decreases chosen@.len() - j,
        {
            let contender = chosen[j];
            if population[contender].phenotype().lt(population[best].phenotype()) {
                best = contender;
            }
            j = j + 1;
        }
        population[best].genotype().clone()
    }
}

} // verus!
