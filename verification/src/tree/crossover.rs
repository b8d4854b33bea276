//! Subtree crossover.
//!
//! One crossover point is drawn per parent, uniformly over nodes; the two
//! subtrees at the points are exchanged, giving two offspring whose
//! children indices are rebuilt from the spliced arenas.
use vstd::prelude::*;

use crate::rng::rand_below;
use crate::tree::encoding::{
    arity_seq, labels_of, lemma_arity_seq_splice, lemma_splice, lemma_subtree_slice_valid,
    lemma_valid_subtree_ok, subtree_end, valid, walk,
};
use crate::tree::errors::CrossoverError;
use crate::tree::genotype::{extend_labels, TreeGenotype};
use crate::PROB_SCALE;

verus! {

/// `c1` and `c2` are the two offspring of exchanging the subtrees at `x1`
/// of `l1` and `x2` of `l2`.
pub open spec fn crossed_at(
    ops: Seq<Seq<char>>,
    ars: Seq<usize>,
    l1: Seq<Seq<char>>,
    l2: Seq<Seq<char>>,
    c1: Seq<Seq<char>>,
    c2: Seq<Seq<char>>,
    x1: int,
    x2: int,
) -> bool {
    let ar1 = arity_seq(ops, ars, l1);
    let ar2 = arity_seq(ops, ars, l2);
    &&& 0 <= x1 < l1.len()
    &&& 0 <= x2 < l2.len()
    &&& c1 == l1.subrange(0, x1) + l2.subrange(x2, subtree_end(ar2, x2) + 1) + l1.subrange(
        subtree_end(ar1, x1) + 1,
        l1.len() as int,
    )
    &&& c2 == l2.subrange(0, x2) + l1.subrange(x1, subtree_end(ar1, x1) + 1) + l2.subrange(
        subtree_end(ar2, x2) + 1,
        l2.len() as int,
    )
}

/// The two offspring came out of the parents by one subtree exchange.
pub open spec fn crossed(
    ops: Seq<Seq<char>>,
    ars: Seq<usize>,
    l1: Seq<Seq<char>>,
    l2: Seq<Seq<char>>,
    c1: Seq<Seq<char>>,
    c2: Seq<Seq<char>>,
) -> bool {
    exists|x1: int, x2: int| crossed_at(ops, ars, l1, l2, c1, c2, x1, x2)
}

/// Subtree crossover operator with its configured probability.
pub struct SubtreeCrossover {
    probability: u64,
}

impl SubtreeCrossover {
    pub closed spec fn probability_spec(&self) -> u64 {
        self.probability
    }

    /// Accepts exactly the probabilities inside the unit interval.
    pub fn new(probability: u64) -> (r: Result<Self, CrossoverError>)
        ensures
            probability <= PROB_SCALE ==> (r matches Ok(c) && c.probability_spec()
                == probability),
            probability > PROB_SCALE ==> r == Err::<Self, CrossoverError>(
                CrossoverError::InvalidProbability(probability),
            ),
    {
        if probability > PROB_SCALE {
            return Err(CrossoverError::InvalidProbability(probability));
        }
        Ok(Self { probability })
    }

    pub fn probability(&self) -> (r: u64)
        ensures
            r == self.probability_spec(),
    {
        self.probability
    }

    /// Builds the two offspring arenas for the given crossover points:
    /// each keeps its own arena around the point and takes the other
    /// parent's subtree at the point.
    fn swap(parents: (&TreeGenotype, &TreeGenotype), crossover_points: (usize, usize)) -> (r: Vec<
        Vec<String>,
    >)
        requires
            parents.0.wf(),
            parents.1.wf(),
            (crossover_points.0 as int) < parents.0.labels().len(),
            (crossover_points.1 as int) < parents.1.labels().len(),
        ensures
            r@.len() == 2,
            labels_of(r@[0]@) == parents.0.labels().subrange(0, crossover_points.0 as int)
                + parents.1.labels().subrange(
                crossover_points.1 as int,
                subtree_end(parents.1.code(), crossover_points.1 as int) + 1,
            ) + parents.0.labels().subrange(
                subtree_end(parents.0.code(), crossover_points.0 as int) + 1,
                parents.0.labels().len() as int,
            ),
            labels_of(r@[1]@) == parents.1.labels().subrange(0, crossover_points.1 as int)
                + parents.0.labels().subrange(
                crossover_points.0 as int,
                subtree_end(parents.0.code(), crossover_points.0 as int) + 1,
            ) + parents.1.labels().subrange(
                subtree_end(parents.1.code(), crossover_points.1 as int) + 1,
                parents.1.labels().len() as int,
            ),
    {
        let (parent1, parent2) = parents;
        let (xo_point1, xo_point2) = crossover_points;

        let sub_end1 = parent1.subtree(xo_point1);
        let sub_end2 = parent2.subtree(xo_point2);

        let src1 = parent1.arena();
        let src2 = parent2.arena();
        let n1 = src1.len();
        let n2 = src2.len();
        proof {
            assert(labels_of(src1@).len() == src1@.len());
            assert(labels_of(src2@).len() == src2@.len());
        }

        let mut tree1: Vec<String> = Vec::new();
        proof {
            assert(labels_of(tree1@) =~= Seq::<Seq<char>>::empty());
        }
        extend_labels(&mut tree1, src1, 0, xo_point1);
        extend_labels(&mut tree1, src2, xo_point2, sub_end2 + 1);
        extend_labels(&mut tree1, src1, sub_end1 + 1, n1);

        let mut tree2: Vec<String> = Vec::new();
        proof {
            assert(labels_of(tree2@) =~= Seq::<Seq<char>>::empty());
        }
        extend_labels(&mut tree2, src2, 0, xo_point2);
        extend_labels(&mut tree2, src1, xo_point1, sub_end1 + 1);
        extend_labels(&mut tree2, src2, sub_end2 + 1, n2);

        proof {
            assert(labels_of(tree1@) =~= parents.0.labels().subrange(0, xo_point1 as int)
                + parents.1.labels().subrange(
                xo_point2 as int,
                subtree_end(parents.1.code(), xo_point2 as int) + 1,
            ) + parents.0.labels().subrange(
                subtree_end(parents.0.code(), xo_point1 as int) + 1,
                parents.0.labels().len() as int,
            ));
            assert(labels_of(tree2@) =~= parents.1.labels().subrange(0, xo_point2 as int)
                + parents.0.labels().subrange(
                xo_point1 as int,
                subtree_end(parents.0.code(), xo_point1 as int) + 1,
            ) + parents.1.labels().subrange(
                subtree_end(parents.1.code(), xo_point2 as int) + 1,
                parents.1.labels().len() as int,
            ));
        }

        let mut out: Vec<Vec<String>> = Vec::new();
        out.push(tree1);
        out.push(tree2);
        out
    }

    /// Draws against the probability, then exchanges the subtrees at two
    /// uniformly drawn points. Returns exactly two offspring: clones of
    /// the parents when the draw misses (always, when the probability is
    /// zero), and otherwise the two splices, both well-formed for the
    /// catalog.
    pub fn variate<R: rand::Rng>(
        &self,
        rng: &mut R,
        parent1: &TreeGenotype,
        parent2: &TreeGenotype,
        sampler: &crate::operators::sampler::OperatorSampler,
    ) -> (r: Vec<TreeGenotype>)
        requires
            sampler.wf(),
            parent1.wf_for(sampler.ops(), sampler.ars()),
            parent2.wf_for(sampler.ops(), sampler.ars()),
        ensures
            r@.len() == 2,
            r@[0].wf_for(sampler.ops(), sampler.ars()),
            r@[1].wf_for(sampler.ops(), sampler.ars()),
            self.probability_spec() == 0 ==> r@[0].labels() == parent1.labels() && r@[1].labels()
                == parent2.labels() && r@[0].kids() == parent1.kids() && r@[1].kids()
                == parent2.kids(),
            (r@[0].labels() == parent1.labels() && r@[1].labels() == parent2.labels()) || crossed(
                sampler.ops(),
                sampler.ars(),
                parent1.labels(),
                parent2.labels(),
                r@[0].labels(),
                r@[1].labels(),
            ),
            self.probability_spec() == PROB_SCALE ==> crossed(
                sampler.ops(),
                sampler.ars(),
                parent1.labels(),
                parent2.labels(),
                r@[0].labels(),
                r@[1].labels(),
            ),
    {
        let ghost ops = sampler.ops();
        let ghost ars = sampler.ars();
        let draw = rand_below(rng, PROB_SCALE);
        if draw >= self.probability {
            let mut out: Vec<TreeGenotype> = Vec::new();
            out.push(parent1.clone());
            out.push(parent2.clone());
            return out;
        }
        let n1 = parent1.arena().len();
        let n2 = parent2.arena().len();
        proof {
            parent1.lemma_wf_for(ops, ars);
            parent2.lemma_wf_for(ops, ars);
            assert(parent1.code().len() == n1);
            assert(parent2.code().len() == n2);
            assert(valid(parent1.code()));
            assert(valid(parent2.code()));
        }
        let point1 = rand_below(rng, n1 as u64) as usize;
        let point2 = rand_below(rng, n2 as u64) as usize;
        let mut trees = Self::swap((parent1, parent2), (point1, point2));
        let arena2 = trees.pop().unwrap();
        let arena1 = trees.pop().unwrap();

        let mut child1 = TreeGenotype::with_arena(arena1);
        let index1 = child1.construct_children(sampler);
        *child1.children_mut() = index1;

        let mut child2 = TreeGenotype::with_arena(arena2);
        let index2 = child2.construct_children(sampler);
        *child2.children_mut() = index2;

        proof {
            let ar1 = parent1.code();
            let ar2 = parent2.code();
            let e1 = walk(ar1, point1 as int, 1);
            let e2 = walk(ar2, point2 as int, 1);
            lemma_valid_subtree_ok(ar1, point1 as int);
            lemma_valid_subtree_ok(ar2, point2 as int);
            lemma_subtree_slice_valid(ar1, point1 as int);
            lemma_subtree_slice_valid(ar2, point2 as int);

            let sub2 = parent2.labels().subrange(point2 as int, e2);
            assert(arity_seq(ops, ars, sub2) =~= ar2.subrange(point2 as int, e2));
            lemma_splice(ar1, ar2.subrange(point2 as int, e2), point1 as int);
            lemma_arity_seq_splice(ops, ars, parent1.labels(), sub2, point1 as int, e1);
            assert(arity_seq(ops, ars, child1.labels()) == ar1.subrange(0, point1 as int)
                + ar2.subrange(point2 as int, e2) + ar1.subrange(e1, ar1.len() as int)) by {
                assert(arity_seq(ops, ars, parent1.labels()).subrange(0, point1 as int)
                    =~= ar1.subrange(0, point1 as int));
                assert(arity_seq(ops, ars, parent1.labels()).subrange(e1, ar1.len() as int)
                    =~= ar1.subrange(e1, ar1.len() as int));
            }
            assert(valid(arity_seq(ops, ars, child1.labels())));

            let sub1 = parent1.labels().subrange(point1 as int, e1);
            assert(arity_seq(ops, ars, sub1) =~= ar1.subrange(point1 as int, e1));
            lemma_splice(ar2, ar1.subrange(point1 as int, e1), point2 as int);
            lemma_arity_seq_splice(ops, ars, parent2.labels(), sub1, point2 as int, e2);
            assert(arity_seq(ops, ars, child2.labels()) == ar2.subrange(0, point2 as int)
                + ar1.subrange(point1 as int, e1) + ar2.subrange(e2, ar2.len() as int)) by {
                assert(arity_seq(ops, ars, parent2.labels()).subrange(0, point2 as int)
                    =~= ar2.subrange(0, point2 as int));
                assert(arity_seq(ops, ars, parent2.labels()).subrange(e2, ar2.len() as int)
                    =~= ar2.subrange(e2, ar2.len() as int));
            }
            assert(valid(arity_seq(ops, ars, child2.labels())));
        }

        let mut mutants: Vec<TreeGenotype> = Vec::new();
        mutants.push(child1);
        mutants.push(child2);
        proof {
            assert(crossed_at(ops, ars, parent1.labels(), parent2.labels(), mutants@[0].labels(),
                mutants@[1].labels(), point1 as int, point2 as int));
        }
        mutants
    }
}

impl Default for SubtreeCrossover {
    /// Probability seven tenths.
    fn default() -> (r: Self)
        ensures
            r.probability_spec() == 7 * (PROB_SCALE / 10),
    {
        match Self::new(7 * (PROB_SCALE / 10)) {
            Ok(c) => c,
            Err(_) => vstd::pervasive::unreached(),
        }
    }
}

} // verus!
