//! Individuals: a genotype paired with its fitness value.
use vstd::prelude::*;

use crate::operators::functions::Float;

verus! {

/// A genotype together with the fitness it scored.
pub struct TreeIndividual<G, F> {
    genotype: G,
    fitness: F,
}

impl<G: Clone, F: Float> TreeIndividual<G, F> {
    /// The genotype.
    pub closed spec fn genotype_spec(&self) -> G {
        self.genotype
    }

    /// The fitness value.
    pub closed spec fn phenotype_spec(&self) -> F {
        self.fitness
    }

    pub fn new(genotype: G, fitness: F) -> (r: Self)
        ensures
            r.genotype_spec() == genotype,
            r.phenotype_spec() == fitness,
    {
        Self { genotype, fitness }
    }

    pub fn genotype(&self) -> (r: &G)
        ensures
            *r == self.genotype_spec(),
    {
        &self.genotype
    }

    pub fn phenotype(&self) -> (r: F)
        ensures
            r == self.phenotype_spec(),
    {
        self.fitness
    }

    /// Pairs genotypes with fitness values, one individual per pair, up to
    /// the shorter input.
    pub fn from_vecs(genotypes: &[G], fitness: &[F]) -> (r: Vec<Self>)
        ensures
            r@.len() == if genotypes@.len() <= fitness@.len() {
                genotypes@.len()
            } else {
                fitness@.len()
            },
            forall|i: int|
                0 <= i < r@.len() ==> (#[trigger] r@[i]).phenotype_spec() == fitness@[i]
                    && vstd::pervasive::cloned::<G>(genotypes@[i], r@[i].genotype_spec()),
    {
        let n = if genotypes.len() <= fitness.len() {
            genotypes.len()
        } else {
            fitness.len()
        };
        let mut out: Vec<Self> = Vec::new();
        let mut i: usize = 0;
        while i < n
            invariant
                n <= genotypes@.len(),
                n <= fitness@.len(),
                i <= n,
                out@.len() == i,
                forall|k: int|
                    0 <= k < i ==> (#[trigger] out@[k]).phenotype_spec() == fitness@[k]
                        && vstd::pervasive::cloned::<G>(
                        genotypes@[k],
                        out@[k].genotype_spec(),
                    ),
            decreases n - i,
        {
            out.push(Self::new(genotypes[i].clone(), fitness[i]));
            i = i + 1;
        }
        out
    }

    /// Wraps genotypes as individuals carrying the placeholder worst
    /// fitness, to be evaluated later.
    pub fn from_genotype_vec(genotypes: &[G]) -> (r: Vec<Self>)
        ensures
            r@.len() == genotypes@.len(),
            forall|i: int|
                0 <= i < r@.len() ==> vstd::pervasive::cloned::<G>(
                    genotypes@[i],
                    (#[trigger] r@[i]).genotype_spec(),
                ),
    {
        let mut out: Vec<Self> = Vec::new();
        let mut i: usize = 0;
        while i < genotypes.len()
            invariant
                i <= genotypes@.len(),
                out@.len() == i,
                forall|k: int|
                    0 <= k < i ==> vstd::pervasive::cloned::<G>(
                        genotypes@[k],
                        (#[trigger] out@[k]).genotype_spec(),
                    ),
            decreases genotypes@.len() - i,
        {
            out.push(Self::new(genotypes[i].clone(), F::neg_infinity()));
            i = i + 1;
        }
        out
    }

    /// The genotypes of a population, cloned out of their individuals.
    pub fn to_genotype_vec(individuals: &[Self]) -> (r: Vec<G>)
        ensures
            r@.len() == individuals@.len(),
            forall|i: int|
                0 <= i < r@.len() ==> vstd::pervasive::cloned::<G>(
                    individuals@[i].genotype_spec(),
                    #[trigger] r@[i],
                ),
    {
        let mut out: Vec<G> = Vec::new();
        let mut i: usize = 0;
        while i < individuals.len()
            invariant
                i <= individuals@.len(),
                out@.len() == i,
                forall|k: int|
                    0 <= k < i ==> vstd::pervasive::cloned::<G>(
                        individuals@[k].genotype_spec(),
                        #[trigger] out@[k],
                    ),
            decreases individuals@.len() - i,
        {
            out.push(individuals[i].genotype().clone());
            i = i + 1;
        }
        out
    }
}

} // verus!
