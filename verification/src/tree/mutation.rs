//! Tree mutation operators.
//!
//! Every operator first draws against its probability; a draw above it
//! returns the input unchanged. Subtree and size-fair mutation excise the subtree
//! at a uniformly drawn point and splice a freshly grown one in its place;
//! point mutation replaces a single label by one of equal arity; constant
//! mutation perturbs one numeric-literal label. After every structural edit
//! the children index is rebuilt wholesale from the arena.
use vstd::prelude::*;

use crate::operators::functions::Float;
use crate::operators::sampler::{
    kept_indices, lemma_kept_contains, lemma_kept_entries, lemma_kept_sum, lemma_sum_wts_element,
    sum_wts, OperatorSampler,
};
use crate::rng::rand_below;
use crate::tree::encoding::{
    arity_of, arity_seq, children_model, children_of, find_op, labels_of, lemma_arity_seq_splice,
    lemma_find_op, lemma_splice, lemma_valid_subtree_ok, subtree_end, valid, walk,
};
use crate::tree::errors::MutationError;
use crate::tree::genotype::{extend_labels, TreeGenotype};
use crate::tree::init::{grow_ready, Grow};
use crate::PROB_SCALE;

verus! {

/// `new_l` is `old_l` with the subtree at `x` replaced by a complete
/// encoding `sub` under the catalog.
pub open spec fn splice_at(
    ops: Seq<Seq<char>>,
    ars: Seq<usize>,
    old_l: Seq<Seq<char>>,
    new_l: Seq<Seq<char>>,
    x: int,
    sub: Seq<Seq<char>>,
) -> bool {
    let ar = arity_seq(ops, ars, old_l);
    &&& 0 <= x < old_l.len()
    &&& valid(arity_seq(ops, ars, sub))
    &&& new_l == old_l.subrange(0, x) + sub + old_l.subrange(
        subtree_end(ar, x) + 1,
        old_l.len() as int,
    )
}

/// `new_l` came out of `old_l` by one subtree replacement whose inserted
/// subtree's node count lies inside the given band.
pub open spec fn spliced_within(
    ops: Seq<Seq<char>>,
    ars: Seq<usize>,
    old_l: Seq<Seq<char>>,
    new_l: Seq<Seq<char>>,
    min_len: int,
    max_len: int,
) -> bool {
    exists|x: int, sub: Seq<Seq<char>>|
        splice_at(ops, ars, old_l, new_l, x, sub) && min_len <= sub.len() <= max_len
}

/// The sampler state the mutation operators need: a consistent catalog with
/// weights on the scale, at least one drawable terminal and at least one
/// drawable function.
pub open spec fn mutation_ready(s: &OperatorSampler) -> bool {
    &&& s.wf()
    &&& sum_wts(s.wts()) <= u64::MAX
    &&& s.ops().len() == s.ars().len()
    &&& (forall|i: int, j: int|
        0 <= i < s.ops().len() && 0 <= j < s.ops().len() && s.ops()[i] == s.ops()[j]
            ==> s.ars()[i] == s.ars()[j])
    &&& (exists|i: int| 0 <= i < s.ars().len() && s.ars()[i] == 0 && #[trigger] s.wts()[i] > 0)
    &&& (exists|i: int| 0 <= i < s.ars().len() && s.ars()[i] >= 1 && #[trigger] s.wts()[i] > 0)
}

/// Substitutes the subtree at `mutation_point` with `subtree`'s arena,
/// keeping everything before the point and after the excised range.
fn substitute(individual: &TreeGenotype, subtree: &TreeGenotype, mutation_point: usize) -> (r: Vec<
    String,
>)
    requires
        individual.wf(),
        (mutation_point as int) < individual.labels().len(),
    ensures
        labels_of(r@) == individual.labels().subrange(0, mutation_point as int) + subtree.labels()
            + individual.labels().subrange(
            subtree_end(individual.code(), mutation_point as int) + 1,
            individual.labels().len() as int,
        ),
{
    let mutation_end = individual.subtree(mutation_point);
    let src = individual.arena();
    let n = src.len();
    proof {
        assert(labels_of(src@).len() == src@.len());
        assert(mutation_end < n);
    }
    let sub_src = subtree.arena();
    let mut new_arena: Vec<String> = Vec::new();
    proof {
        assert(labels_of(new_arena@) =~= Seq::<Seq<char>>::empty());
    }
    extend_labels(&mut new_arena, src, 0, mutation_point);
    extend_labels(&mut new_arena, sub_src, 0, sub_src.len());
    extend_labels(&mut new_arena, src, mutation_end + 1, src.len());
    proof {
        assert(labels_of(sub_src@).subrange(0, sub_src@.len() as int) =~= subtree.labels());
        assert(labels_of(new_arena@) =~= individual.labels().subrange(0, mutation_point as int)
            + subtree.labels() + individual.labels().subrange(
            subtree_end(individual.code(), mutation_point as int) + 1,
            individual.labels().len() as int,
        ));
    }
    new_arena
}

/// Splices a freshly grown subtree into an individual at the given point
/// and rebuilds the children index; shared tail of subtree and size-fair
/// mutation. The inserted subtree's node count obeys the generator's size
/// band for the depth limits.
#[verifier::loop_isolation(false)]
fn splice_grown<R: rand::Rng>(
    rng: &mut R,
    individual: &TreeGenotype,
    sampler: &OperatorSampler,
    point: usize,
    min_depth: usize,
    max_depth: usize,
) -> (r: TreeGenotype)
    requires
        individual.wf_for(sampler.ops(), sampler.ars()),
        grow_ready(sampler, max_depth),
        (point as int) < individual.labels().len(),
    ensures
        r.wf_for(sampler.ops(), sampler.ars()),
        exists|sub: Seq<Seq<char>>|
            splice_at(sampler.ops(), sampler.ars(), individual.labels(), r.labels(), point as int, sub)
                && 1 <= sub.len() <= crate::tree::init::tree_cap(
                crate::tree::init::max_arity(sampler.ars()),
                max_depth as nat,
            ) && (min_depth <= max_depth ==> sub.len() > min_depth),
{
    let ghost ops = sampler.ops();
    let ghost ars = sampler.ars();
    let len = individual.arena().len();
    proof {
        individual.lemma_wf_for(ops, ars);
        assert(individual.code().len() == len);
        assert(valid(individual.code()));
    }
    let scheme = Grow::new(min_depth, max_depth);
    let replacement = scheme.initialize(rng, sampler);
    let arena = substitute(individual, &replacement, point);
    let mut tree = TreeGenotype::with_arena(arena);
    let index = tree.construct_children(sampler);
    *tree.children_mut() = index;
    proof {
        let ar_i = individual.code();
        let ar_s = arity_seq(ops, ars, replacement.labels());
        let e1 = walk(ar_i, point as int, 1);
        lemma_valid_subtree_ok(ar_i, point as int);
        lemma_splice(ar_i, ar_s, point as int);
        lemma_arity_seq_splice(ops, ars, individual.labels(), replacement.labels(), point as int, e1);
        assert(arity_seq(ops, ars, tree.labels()) == ar_i.subrange(0, point as int) + ar_s
            + ar_i.subrange(e1, ar_i.len() as int)) by {
            assert(arity_seq(ops, ars, individual.labels()).subrange(0, point as int)
                =~= ar_i.subrange(0, point as int));
            assert(arity_seq(ops, ars, individual.labels()).subrange(e1, ar_i.len() as int)
                =~= ar_i.subrange(e1, ar_i.len() as int));
        }
        assert(valid(arity_seq(ops, ars, tree.labels())));
        assert(splice_at(ops, ars, individual.labels(), tree.labels(), point as int,
            replacement.labels()));
    }
    tree
}

/// Subtree mutation: replaces a randomly selected subtree with a fresh one
/// grown inside the configured depth limits.
pub struct SubtreeMutation {
    probability: u64,
    depth_limits: (usize, usize),
}

impl SubtreeMutation {
    pub closed spec fn probability_spec(&self) -> u64 {
        self.probability
    }

    pub closed spec fn limits_spec(&self) -> (usize, usize) {
        self.depth_limits
    }

    /// Accepts exactly the probabilities inside the unit interval.
    pub fn new(probability: u64, depth_limits: (usize, usize)) -> (r: Result<
        Self,
        MutationError,
    >)
        ensures
            probability <= PROB_SCALE ==> (r matches Ok(m) && m.probability_spec() == probability
                && m.limits_spec() == depth_limits),
            probability > PROB_SCALE ==> r == Err::<Self, MutationError>(
                MutationError::InvalidProbability(probability),
            ),
    {
        if probability > PROB_SCALE {
            return Err(MutationError::InvalidProbability(probability));
        }
        Ok(Self { probability, depth_limits })
    }

    /// Draws against the probability, then replaces the subtree at a
    /// uniformly drawn point by one grown inside the depth limits. With
    /// probability zero the input comes back unchanged; otherwise the
    /// result is the input or one subtree replacement of it, always
    /// well-formed, and the inserted subtree's node count lies inside the
    /// size band the depth limits admit: more nodes than the lower limit,
    /// at most the capacity a tree of the upper limit has.
    pub fn variate<R: rand::Rng>(
        &self,
        rng: &mut R,
        individual: &TreeGenotype,
        sampler: &OperatorSampler,
    ) -> (r: TreeGenotype)
        requires
            individual.wf_for(sampler.ops(), sampler.ars()),
            grow_ready(sampler, self.limits_spec().1),
        ensures
            r.wf_for(sampler.ops(), sampler.ars()),
            self.probability_spec() == 0 ==> r.labels() == individual.labels() && r.kids()
                == individual.kids(),
            r.labels() == individual.labels() || spliced_within(
                sampler.ops(),
                sampler.ars(),
                individual.labels(),
                r.labels(),
                if self.limits_spec().0 <= self.limits_spec().1 {
                    self.limits_spec().0 + 1
                } else {
                    1
                },
                crate::tree::init::tree_cap(
                    crate::tree::init::max_arity(sampler.ars()),
                    self.limits_spec().1 as nat,
                ) as int,
            ),
            self.probability_spec() == PROB_SCALE ==> spliced_within(
                sampler.ops(),
                sampler.ars(),
                individual.labels(),
                r.labels(),
                if self.limits_spec().0 <= self.limits_spec().1 {
                    self.limits_spec().0 + 1
                } else {
                    1
                },
                crate::tree::init::tree_cap(
                    crate::tree::init::max_arity(sampler.ars()),
                    self.limits_spec().1 as nat,
                ) as int,
            ),
    {
        let draw = rand_below(rng, PROB_SCALE);
        if draw >= self.probability {
            return individual.clone();
        }
        let len = individual.arena().len();
        proof {
            individual.lemma_wf_for(sampler.ops(), sampler.ars());
            assert(individual.code().len() == individual.labels().len());
            assert(valid(individual.code()));
        }
        let point = rand_below(rng, len as u64) as usize;
        let r = splice_grown(
            rng,
            individual,
            sampler,
            point,
            self.depth_limits.0,
            self.depth_limits.1,
        );
        proof {
            let sub = choose|sub: Seq<Seq<char>>|
                splice_at(
                    sampler.ops(),
                    sampler.ars(),
                    individual.labels(),
                    r.labels(),
                    point as int,
                    sub,
                ) && 1 <= sub.len() <= crate::tree::init::tree_cap(
                    crate::tree::init::max_arity(sampler.ars()),
                    self.depth_limits.1 as nat,
                ) && (self.depth_limits.0 <= self.depth_limits.1 ==> sub.len()
                    > self.depth_limits.0);
            assert(splice_at(
                sampler.ops(),
                sampler.ars(),
                individual.labels(),
                r.labels(),
                point as int,
                sub,
            ));
        }
        r
    }
}

/// Size-fair mutation: like subtree mutation, but the replacement's depth
/// band is computed from the whole tree's size, or, with the dynamic limit,
/// from the replaced subtree's size.
pub struct SizeFairMutation {
    probability: u64,
    dynamic_limit: bool,
}

/// Floor of the base-two logarithm, with zero for inputs under two.
pub open spec fn log2_floor(n: int) -> int
    decreases n,
{
    if n <= 1 {
        0
    } else {
        1 + log2_floor(n / 2)
    }
}

/// The logarithm never goes negative.
pub proof fn lemma_log2_nonneg(n: int)
    ensures
        log2_floor(n) >= 0,
    decreases n,
{
    if n > 1 {
        lemma_log2_nonneg(n / 2);
    }
}

/// The logarithm grows with its argument.
pub proof fn lemma_log2_mono(a: int, b: int)
    requires
        a <= b,
    ensures
        log2_floor(a) <= log2_floor(b),
    decreases b,
{
    if a > 1 {
        lemma_log2_mono(a / 2, b / 2);
    } else {
        lemma_log2_nonneg(b);
    }
}

/// Inputs under the `k`-th power of two have logarithms under `k`.
pub proof fn lemma_log2_cap(n: int, k: nat)
    requires
        n < vstd::arithmetic::power2::pow2(k),
    ensures
        log2_floor(n) <= k,
    decreases k,
{
    if k == 0 {
        assert(vstd::arithmetic::power2::pow2(0) == 1) by {
            vstd::arithmetic::power2::lemma2_to64();
        }
    } else if n > 1 {
        vstd::arithmetic::power2::lemma_pow2_unfold(k);
        assert(n / 2 < vstd::arithmetic::power2::pow2((k - 1) as nat));
        lemma_log2_cap(n / 2, (k - 1) as nat);
    }
}

/// The size band size-fair mutation imposes on a replacement spliced in at
/// `x`: strictly more nodes than the floored logarithm of half the
/// relevant size, and at most the capacity a tree of the upper logarithm
/// has under the catalog's largest arity. The relevant size is the whole
/// tree's node count, or, under the dynamic limit, the replaced subtree's
/// span less one.
pub open spec fn size_fair_band_ok(
    ars: Seq<usize>,
    code: Seq<nat>,
    x: int,
    sub_len: int,
    dynamic: bool,
) -> bool {
    let size: int = if dynamic {
        subtree_end(code, x) - x
    } else {
        code.len() as int
    };
    sub_len > log2_floor(size / 2) && sub_len <= crate::tree::init::tree_cap(
        crate::tree::init::max_arity(ars),
        log2_floor(size + (size + 1) / 2) as nat,
    ) as int
}

/// Floor of the base-two logarithm, as the executable counterpart of
/// [`log2_floor`].
fn floor_log2(n: usize) -> (r: usize)
    ensures
        r as int == log2_floor(n as int),
{
    let mut v = n;
    let mut r: usize = 0;
    proof {
        vstd::arithmetic::power2::lemma2_to64();
        vstd::arithmetic::power2::lemma2_to64_rest();
        lemma_log2_cap(n as int, 64);
        lemma_log2_nonneg(v as int);
    }
    while v > 1
        invariant
            r + log2_floor(v as int) == log2_floor(n as int),
            log2_floor(n as int) <= 64,
        decreases v,
    {
        proof {
            lemma_log2_nonneg(v as int / 2);
        }
        v = v / 2;
        r = r + 1;
    }
    r
}

impl SizeFairMutation {
    pub closed spec fn probability_spec(&self) -> u64 {
        self.probability
    }

    pub closed spec fn dynamic_spec(&self) -> bool {
        self.dynamic_limit
    }

    /// Accepts exactly the probabilities inside the unit interval.
    pub fn new(probability: u64, dynamic_limit: bool) -> (r: Result<Self, MutationError>)
        ensures
            probability <= PROB_SCALE ==> (r matches Ok(m) && m.probability_spec() == probability
                && m.dynamic_spec() == dynamic_limit),
            probability > PROB_SCALE ==> r == Err::<Self, MutationError>(
                MutationError::InvalidProbability(probability),
            ),
    {
        if probability > PROB_SCALE {
            return Err(MutationError::InvalidProbability(probability));
        }
        Ok(Self { probability, dynamic_limit })
    }

    /// Depth band for the replacement: logarithms of half and of one and a
    /// half times the relevant size — the whole tree's, or the replaced
    /// subtree's span under the dynamic limit.
    fn calculate_depths(&self, tree: &TreeGenotype, mutation_point: usize) -> (r: (usize, usize))
        requires
            tree.wf(),
            (mutation_point as int) < tree.labels().len(),
            tree.labels().len() < usize::MAX / 2,
        ensures
            ({
                let size: int = if self.dynamic_spec() {
                    subtree_end(tree.code(), mutation_point as int) - mutation_point
                } else {
                    tree.labels().len() as int
                };
                r.0 as int == log2_floor(size / 2) && r.1 as int == log2_floor(
                    size + (size + 1) / 2,
                )
            }),
    {
        let tree_size: usize = if self.dynamic_limit {
            let subtree_end_idx = tree.subtree(mutation_point);
            subtree_end_idx - mutation_point
        } else {
            tree.arena().len()
        };
        let depth_min = floor_log2(tree_size / 2);
        let depth_max = floor_log2(tree_size + (tree_size + 1) / 2);
        (depth_min, depth_max)
    }

    /// Draws against the probability, then replaces the subtree at a
    /// uniformly drawn point by one grown inside the size-derived depth
    /// band: the inserted subtree holds more nodes than the logarithm of
    /// half the relevant size, and at most the capacity a tree of the
    /// upper logarithm has.
    pub fn variate<R: rand::Rng>(
        &self,
        rng: &mut R,
        individual: &TreeGenotype,
        sampler: &OperatorSampler,
    ) -> (r: TreeGenotype)
        requires
            individual.wf_for(sampler.ops(), sampler.ars()),
            mutation_ready(sampler),
            individual.labels().len() < usize::MAX / 2,
        ensures
            r.wf_for(sampler.ops(), sampler.ars()),
            self.probability_spec() == 0 ==> r.labels() == individual.labels() && r.kids()
                == individual.kids(),
            r.labels() == individual.labels() || exists|x: int, sub: Seq<Seq<char>>|
                splice_at(sampler.ops(), sampler.ars(), individual.labels(), r.labels(), x, sub)
                    && size_fair_band_ok(
                    sampler.ars(),
                    individual.code(),
                    x,
                    sub.len() as int,
                    self.dynamic_spec(),
                ),
            self.probability_spec() == PROB_SCALE ==> exists|x: int, sub: Seq<Seq<char>>|
                splice_at(sampler.ops(), sampler.ars(), individual.labels(), r.labels(), x, sub)
                    && size_fair_band_ok(
                    sampler.ars(),
                    individual.code(),
                    x,
                    sub.len() as int,
                    self.dynamic_spec(),
                ),
    {
        let draw = rand_below(rng, PROB_SCALE);
        if draw >= self.probability {
            return individual.clone();
        }
        proof {
            individual.lemma_wf_for(sampler.ops(), sampler.ars());
            assert(individual.code().len() == individual.labels().len());
            assert(valid(individual.code()));
        }
        let len = individual.arena().len();
        let mutation_point = rand_below(rng, len as u64) as usize;
        let depth_limits = self.calculate_depths(individual, mutation_point);
        proof {
            let size: int = if self.dynamic_spec() {
                subtree_end(individual.code(), mutation_point as int) - mutation_point
            } else {
                individual.labels().len() as int
            };
            lemma_valid_subtree_ok(individual.code(), mutation_point as int);
            lemma_log2_nonneg(size / 2);
            lemma_log2_nonneg(size + (size + 1) / 2);
            lemma_log2_mono(size / 2, size + (size + 1) / 2);
        }
        let r = splice_grown(
            rng,
            individual,
            sampler,
            mutation_point,
            depth_limits.0,
            depth_limits.1,
        );
        proof {
            let sub = choose|sub: Seq<Seq<char>>|
                splice_at(
                    sampler.ops(),
                    sampler.ars(),
                    individual.labels(),
                    r.labels(),
                    mutation_point as int,
                    sub,
                ) && 1 <= sub.len() <= crate::tree::init::tree_cap(
                    crate::tree::init::max_arity(sampler.ars()),
                    depth_limits.1 as nat,
                ) && (depth_limits.0 <= depth_limits.1 ==> sub.len() > depth_limits.0);
            assert(splice_at(
                sampler.ops(),
                sampler.ars(),
                individual.labels(),
                r.labels(),
                mutation_point as int,
                sub,
            ));
            assert(size_fair_band_ok(
                sampler.ars(),
                individual.code(),
                mutation_point as int,
                sub.len() as int,
                self.dynamic_spec(),
            ));
        }
        r
    }
}

/// `new_l` is `old_l` with exactly the label at `p` rewritten, by one of
/// the same arity under the catalog.
pub open spec fn point_swap(
    ops: Seq<Seq<char>>,
    ars: Seq<usize>,
    old_l: Seq<Seq<char>>,
    new_l: Seq<Seq<char>>,
    p: int,
) -> bool {
    &&& 0 <= p < old_l.len()
    &&& new_l.len() == old_l.len()
    &&& (forall|j: int| 0 <= j < old_l.len() && j != p ==> new_l[j] == old_l[j])
    &&& arity_of(ops, ars, new_l[p]) == arity_of(ops, ars, old_l[p])
}

/// The tree's labels all stand in the catalog with positive weight, so a
/// same-arity replacement can always be drawn.
pub open spec fn point_ready(s: &OperatorSampler, labels: Seq<Seq<char>>) -> bool {
    forall|i: int|
        0 <= i < labels.len() ==> {
            let f = find_op(s.ops(), #[trigger] labels[i]);
            0 <= f < s.wts().len() && s.wts()[f] > 0
        }
}

/// Point mutation: one uniformly drawn node's label is replaced by another
/// of exactly the same arity, so the tree's shape, and with it the whole
/// children index, stays as it was.
pub struct PointMutation {
    probability: u64,
}

impl PointMutation {
    pub closed spec fn probability_spec(&self) -> u64 {
        self.probability
    }

    /// Accepts exactly the probabilities inside the unit interval.
    pub fn new(probability: u64) -> (r: Result<Self, MutationError>)
        ensures
            probability <= PROB_SCALE ==> (r matches Ok(m) && m.probability_spec()
                == probability),
            probability > PROB_SCALE ==> r == Err::<Self, MutationError>(
                MutationError::InvalidProbability(probability),
            ),
    {
        if probability > PROB_SCALE {
            return Err(MutationError::InvalidProbability(probability));
        }
        Ok(Self { probability })
    }

    /// Draws against the probability, then swaps one label for an
    /// equal-arity one drawn from the catalog filtered to that arity. The
    /// children index of the result is always the input's, on either side
    /// of the draw.
    #[verifier::loop_isolation(false)]
    pub fn variate<R: rand::Rng>(
        &self,
        rng: &mut R,
        individual: &TreeGenotype,
        sampler: &OperatorSampler,
    ) -> (r: TreeGenotype)
        requires
            individual.wf_for(sampler.ops(), sampler.ars()),
            mutation_ready(sampler),
            point_ready(sampler, individual.labels()),
        ensures
            r.wf_for(sampler.ops(), sampler.ars()),
            r.kids() == individual.kids(),
            self.probability_spec() == 0 ==> r.labels() == individual.labels(),
            r.labels() == individual.labels() || exists|p: int|
                point_swap(sampler.ops(), sampler.ars(), individual.labels(), r.labels(), p),
    {
        let ghost ops = sampler.ops();
        let ghost ars = sampler.ars();
        let draw = rand_below(rng, PROB_SCALE);
        if draw >= self.probability {
            return individual.clone();
        }
        let src = individual.arena();
        let len = src.len();
        proof {
            assert(labels_of(src@).len() == src@.len());
            individual.lemma_wf_for(ops, ars);
            sampler.lemma_wf_lens();
            assert(valid(individual.code()));
            assert(individual.code().len() == individual.labels().len());
        }
        let mutation_point = rand_below(rng, len as u64) as usize;
        let label = &src[mutation_point];
        proof {
            assert(individual.labels()[mutation_point as int] == src@[mutation_point as int]@);
            lemma_find_op(ops, label@);
        }
        let index = match crate::tree::genotype::position_of(sampler.operators(), label) {
            Some(j) => j,
            None => {
                proof {
                    assert(find_op(ops, individual.labels()[mutation_point as int]) >= 0);
                }
                vstd::pervasive::unreached()
            },
        };
        let arity = sampler.arities()[index];
        let limited_sampler = sampler.sampler_with_arity(arity, arity);
        proof {
            lemma_kept_entries(ars, arity, arity);
            lemma_kept_sum(ars, sampler.wts(), arity, arity);
            lemma_kept_contains(ars, arity, arity, index as int);
            let t = choose|t: int|
                0 <= t < kept_indices(ars, arity, arity).len() && #[trigger] kept_indices(
                    ars,
                    arity,
                    arity,
                )[t] == index as int;
            assert(limited_sampler.wts()[t] == sampler.wts()[index as int]);
            lemma_sum_wts_element(limited_sampler.wts(), t);
        }
        let new_node = limited_sampler.sample(rng);
        proof {
            let i = choose|i: int|
                0 <= i < limited_sampler.ops().len() && new_node.0@ == limited_sampler.ops()[i]
                    && new_node.1 == limited_sampler.ars()[i] && limited_sampler.wts()[i] > 0;
            let j = kept_indices(ars, arity, arity)[i];
            crate::tree::init::lemma_sampled_arity(ops, ars, new_node.0@, j);
            assert(arity_of(ops, ars, new_node.0@) == arity);
            assert(arity_of(ops, ars, individual.labels()[mutation_point as int]) == arity);
        }
        let mut arena: Vec<String> = Vec::new();
        proof {
            assert(labels_of(arena@) =~= Seq::<Seq<char>>::empty());
        }
        extend_labels(&mut arena, src, 0, mutation_point);
        arena.push(new_node.0);
        proof {
            assert(labels_of(arena@) =~= individual.labels().subrange(0, mutation_point as int)
                + seq![new_node.0@]) by {
                assert(labels_of(arena@).drop_last() =~= individual.labels().subrange(
                    0,
                    mutation_point as int,
                ));
            }
        }
        extend_labels(&mut arena, src, mutation_point + 1, len);
        let mut tree = TreeGenotype::with_arena(arena);
        let index_map = tree.construct_children(sampler);
        *tree.children_mut() = index_map;
        proof {
            let old_l = individual.labels();
            let new_l = tree.labels();
            assert forall|j: int| 0 <= j < old_l.len() && j != mutation_point as int
                implies new_l[j] == old_l[j] by {}
            assert(new_l.len() == old_l.len());
            assert(new_l[mutation_point as int] == new_node.0@);
            let ar_old = arity_seq(ops, ars, old_l);
            let ar_new = arity_seq(ops, ars, new_l);
            assert(ar_new =~= ar_old);
            assert(point_swap(ops, ars, old_l, new_l, mutation_point as int));
            assert(tree.kids() == children_of(individual.code()));
            assert(individual.kids() == children_of(individual.code()));
        }
        tree
    }
}

/// `new_l` is `old_l` with at most the label at `p` rewritten.
pub open spec fn changed_only_at(old_l: Seq<Seq<char>>, new_l: Seq<Seq<char>>, p: int) -> bool {
    &&& 0 <= p < old_l.len()
    &&& new_l.len() == old_l.len()
    &&& (forall|j: int| 0 <= j < old_l.len() && j != p ==> new_l[j] == old_l[j])
}

/// Constant mutation: one numeric-literal label, drawn uniformly among
/// those the scalar type can read, is scaled by a random factor within the
/// mutation rate around one, clamped to the optional range, and written
/// back as a label. A tree without readable constants comes back unchanged.
pub struct ConstantMutation<T: Float> {
    probability: u64,
    mutation_rate: u64,
    range_limits: Option<(T, T)>,
}

impl<T: Float> ConstantMutation<T> {
    pub closed spec fn probability_spec(&self) -> u64 {
        self.probability
    }

    pub closed spec fn rate_spec(&self) -> u64 {
        self.mutation_rate
    }

    /// Accepts exactly the probabilities and rates inside the unit
    /// interval, the probability checked first.
    pub fn new(probability: u64, mutation_rate: u64, range_limits: Option<(T, T)>) -> (r: Result<
        Self,
        MutationError,
    >)
        ensures
            probability > PROB_SCALE ==> (r matches Err(e) && e
                == MutationError::InvalidProbability(probability)),
            (probability <= PROB_SCALE && mutation_rate > PROB_SCALE) ==> (r matches Err(e) && e
                == MutationError::InvalidMutationRate(mutation_rate)),
            (probability <= PROB_SCALE && mutation_rate <= PROB_SCALE) ==> (r matches Ok(m)
                && m.probability_spec() == probability && m.rate_spec() == mutation_rate),
    {
        if probability > PROB_SCALE {
            return Err(MutationError::InvalidProbability(probability));
        }
        if mutation_rate > PROB_SCALE {
            return Err(MutationError::InvalidMutationRate(mutation_rate));
        }
        Ok(Self { probability, mutation_rate, range_limits })
    }

    /// Draws against the probability, then rewrites one readable constant
    /// label. The result differs from the input in at most one label; with
    /// probability zero, or when no label reads as a constant, the input
    /// comes back unchanged.
    #[verifier::loop_isolation(false)]
    pub fn variate<R: rand::Rng>(
        &self,
        rng: &mut R,
        individual: &TreeGenotype,
        sampler: &OperatorSampler,
    ) -> (r: TreeGenotype)
        requires
            sampler.wf(),
            individual.labels().len() > 0,
        ensures
            r.labels().len() == individual.labels().len(),
            self.probability_spec() == 0 ==> r.labels() == individual.labels() && r.kids()
                == individual.kids(),
            r.labels() == individual.labels() || exists|p: int|
                changed_only_at(individual.labels(), r.labels(), p),
            r.kids() == individual.kids() || r.kids() == children_model(
                arity_seq(sampler.ops(), sampler.ars(), r.labels()),
            ),
    {
        let draw = rand_below(rng, PROB_SCALE);
        if draw >= self.probability {
            return individual.clone();
        }
        let src = individual.arena();
        let len = src.len();
        proof {
            assert(labels_of(src@).len() == src@.len());
        }

        // the positions whose labels read as constants, with their values
        let mut constant_positions: Vec<usize> = Vec::new();
        let mut constant_values: Vec<T> = Vec::new();
        let mut i: usize = 0;
        while i < len
            invariant
                i <= len,
                constant_positions@.len() == constant_values@.len(),
                forall|k: int|
                    0 <= k < constant_positions@.len() ==> #[trigger] constant_positions@[k] < len,
            decreases len - i,
        {
            match T::from_label(src[i].as_str()) {
                Some(v) => {
                    constant_positions.push(i);
                    constant_values.push(v);
                },
                None => {},
            }
            i = i + 1;
        }
        if constant_positions.len() == 0 {
            return individual.clone();
        }

        let pick = rand_below(rng, constant_positions.len() as u64) as usize;
        let mutation_point = constant_positions[pick];
        let current_value = constant_values[pick];

        // factor of one plus a draw from the signed mutation-rate band
        let factor_draw = rand_below(rng, PROB_SCALE);
        let two = T::one().add(T::one());
        let unit_draw = T::ratio(factor_draw, PROB_SCALE);
        let rate = T::ratio(self.mutation_rate, PROB_SCALE);
        let delta = T::one().add(unit_draw.mul(two).sub(T::one()).mul(rate));
        let scaled = current_value.mul(delta);
        let new_value = match &self.range_limits {
            Some(limits) => {
                if scaled.lt(limits.0) {
                    limits.0
                } else if limits.1.lt(scaled) {
                    limits.1
                } else {
                    scaled
                }
            },
            None => scaled,
        };

        let mut arena: Vec<String> = Vec::new();
        proof {
            assert(labels_of(arena@) =~= Seq::<Seq<char>>::empty());
        }
        extend_labels(&mut arena, src, 0, mutation_point);
        let new_label = new_value.to_label();
        let ghost nl = new_label@;
        arena.push(new_label);
        proof {
            assert(labels_of(arena@) =~= individual.labels().subrange(0, mutation_point as int)
                + seq![nl]) by {
                assert(labels_of(arena@).drop_last() =~= individual.labels().subrange(
                    0,
                    mutation_point as int,
                ));
                assert(labels_of(arena@).last() == nl);
            }
        }
        extend_labels(&mut arena, src, mutation_point + 1, len);
        let mut tree = TreeGenotype::with_arena(arena);
        let index_map = tree.construct_children(sampler);
        *tree.children_mut() = index_map;
        proof {
            assert(tree.labels().len() == individual.labels().len());
            assert forall|j: int|
                0 <= j < individual.labels().len() && j != mutation_point as int
                implies tree.labels()[j] == individual.labels()[j] by {}
            assert(changed_only_at(individual.labels(), tree.labels(), mutation_point as int));
        }
        tree
    }
}

impl Default for SubtreeMutation {
    /// Probability one tenth, replacement depths between one and two.
    fn default() -> (r: Self)
        ensures
            r.probability_spec() == PROB_SCALE / 10,
            r.limits_spec() == (1usize, 2usize),
    {
        match Self::new(PROB_SCALE / 10, (1, 2)) {
            Ok(m) => m,
            Err(_) => vstd::pervasive::unreached(),
        }
    }
}

impl Default for SizeFairMutation {
    /// Probability one tenth, bounds from the whole tree's size.
    fn default() -> (r: Self)
        ensures
            r.probability_spec() == PROB_SCALE / 10,
            !r.dynamic_spec(),
    {
        match Self::new(PROB_SCALE / 10, false) {
            Ok(m) => m,
            Err(_) => vstd::pervasive::unreached(),
        }
    }
}

impl Default for PointMutation {
    /// Probability one tenth.
    fn default() -> (r: Self)
        ensures
            r.probability_spec() == PROB_SCALE / 10,
    {
        match Self::new(PROB_SCALE / 10) {
            Ok(m) => m,
            Err(_) => vstd::pervasive::unreached(),
        }
    }
}

impl<T: Float> Default for ConstantMutation<T> {
    /// Probability and rate one tenth, constants clamped to the signed
    /// unit range.
    fn default() -> (r: Self)
        ensures
            r.probability_spec() == PROB_SCALE / 10,
            r.rate_spec() == PROB_SCALE / 10,
    {
        let low = T::zero().sub(T::one());
        let high = T::one();
        match Self::new(PROB_SCALE / 10, PROB_SCALE / 10, Some((low, high))) {
            Ok(m) => m,
            Err(_) => vstd::pervasive::unreached(),
        }
    }
}

} // verus!
