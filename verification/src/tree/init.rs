//! Stochastic tree generators.
//!
//! `Grow` builds one tree with an explicit stack of open slots: a slot at
//! the maximum depth is forced to a terminal, one under the minimum depth is
//! forced to a function, and in between a fair coin picks the set to sample
//! from. `Full` is `Grow` with both bounds equal; `RampedHalfAndHalf` flips
//! a coin per tree between the two.
use vstd::prelude::*;

use crate::operators::sampler::{
    kept_indices, lemma_kept_contains, lemma_kept_entries, lemma_kept_sum, lemma_sum_wts_element,
    lemma_sum_wts_nonneg, sum_wts, OperatorSampler,
};
use crate::rng::rand_value;
use crate::tree::encoding::{
    arity_of, arity_seq, depth_stack, lemma_depth_stack_take, lemma_find_op,
    lemma_walk_first_zero, node_depth, pend, psum,
};
use crate::tree::genotype::TreeGenotype;

verus! {

/// Largest arity in a catalog (zero for an empty one).
pub open spec fn max_arity(ars: Seq<usize>) -> nat
    decreases ars.len(),
{
    if ars.len() == 0 {
        0
    } else if ars.last() as nat >= max_arity(ars.drop_last()) {
        ars.last() as nat
    } else {
        max_arity(ars.drop_last())
    }
}

/// Most nodes a tree of depth `k` can hold when no arity exceeds `a`.
pub open spec fn tree_cap(a: nat, k: nat) -> nat
    decreases k,
{
    if k == 0 {
        1
    } else {
        1 + a * tree_cap(a, (k - 1) as nat)
    }
}

/// Total capacity of the open slots on a generator stack.
pub open spec fn stack_cap(st: Seq<(usize, usize)>, a: nat, maxd: usize) -> int
    decreases st.len(),
{
    if st.len() == 0 {
        0
    } else {
        stack_cap(st.drop_last(), a, maxd) + if st.last().1 <= maxd {
            tree_cap(a, (maxd - st.last().1) as nat) as int
        } else {
            0
        }
    }
}

/// A depth-`k` capacity is at least one slot.
pub proof fn lemma_tree_cap_pos(a: nat, k: nat)
    ensures
        tree_cap(a, k) >= 1,
    decreases k,
{
    if k > 0 {
        lemma_tree_cap_pos(a, (k - 1) as nat);
        assert(a * tree_cap(a, (k - 1) as nat) >= 0);
    }
}

/// Stack capacities add over concatenation.
pub proof fn lemma_stack_cap_append(s1: Seq<(usize, usize)>, s2: Seq<(usize, usize)>, a: nat, maxd: usize)
    ensures
        stack_cap(s1 + s2, a, maxd) == stack_cap(s1, a, maxd) + stack_cap(s2, a, maxd),
    decreases s2.len(),
{
    if s2.len() == 0 {
        assert(s1 + s2 =~= s1);
    } else {
        lemma_stack_cap_append(s1, s2.drop_last(), a, maxd);
        assert((s1 + s2).drop_last() =~= s1 + s2.drop_last());
        assert((s1 + s2).last() == s2.last());
    }
}

/// Capacity of `n` equal slots.
pub proof fn lemma_stack_cap_repeat(n: nat, p: usize, d: usize, a: nat, maxd: usize)
    requires
        d <= maxd,
    ensures
        stack_cap(Seq::new(n, |t: int| (p, d)), a, maxd) == n * tree_cap(a, (maxd - d) as nat),
    decreases n,
{
    let s = Seq::new(n, |t: int| (p, d));
    if n == 0 {
    } else {
        lemma_stack_cap_repeat((n - 1) as nat, p, d, a, maxd);
        assert(s.drop_last() =~= Seq::new((n - 1) as nat, |t: int| (p, d)));
        assert(s.last() == (p, d));
        assert((n - 1) * tree_cap(a, (maxd - d) as nat) + tree_cap(a, (maxd - d) as nat) == n
            * tree_cap(a, (maxd - d) as nat)) by (nonlinear_arith);
    }
}

/// Depth still owed under the minimum bound by the deepest slot of the
/// stack: a slot at depth `d` at or under the minimum forces a chain of at
/// least `min + 1 - d` more nodes.
pub open spec fn owed_depth(st: Seq<(usize, usize)>, min: usize) -> int
    decreases st.len(),
{
    if st.len() == 0 {
        0
    } else {
        let rest = owed_depth(st.drop_last(), min);
        let own: int = if st.last().1 <= min {
            min + 1 - st.last().1
        } else {
            0
        };
        if own >= rest {
            own
        } else {
            rest
        }
    }
}

/// Nothing is owed in the negative.
pub proof fn lemma_owed_nonneg(st: Seq<(usize, usize)>, min: usize)
    ensures
        owed_depth(st, min) >= 0,
    decreases st.len(),
{
    if st.len() > 0 {
        lemma_owed_nonneg(st.drop_last(), min);
    }
}

/// The owed depth of a concatenation is the larger side's.
pub proof fn lemma_owed_append(s1: Seq<(usize, usize)>, s2: Seq<(usize, usize)>, min: usize)
    ensures
        owed_depth(s1 + s2, min) == if owed_depth(s1, min) >= owed_depth(s2, min) {
            owed_depth(s1, min)
        } else {
            owed_depth(s2, min)
        },
    decreases s2.len(),
{
    if s2.len() == 0 {
        assert(s1 + s2 =~= s1);
        lemma_owed_nonneg(s1, min);
    } else {
        lemma_owed_append(s1, s2.drop_last(), min);
        assert((s1 + s2).drop_last() =~= s1 + s2.drop_last());
        assert((s1 + s2).last() == s2.last());
    }
}

/// The owed depth of equal slots.
pub proof fn lemma_owed_repeat(n: nat, p: usize, d: usize, min: usize)
    ensures
        owed_depth(Seq::new(n, |t: int| (p, d)), min) == if n > 0 && d <= min {
            min + 1 - d
        } else {
            0
        },
    decreases n,
{
    let s = Seq::new(n, |t: int| (p, d));
    if n > 0 {
        lemma_owed_repeat((n - 1) as nat, p, d, min);
        assert(s.drop_last() =~= Seq::new((n - 1) as nat, |t: int| (p, d)));
        assert(s.last() == (p, d));
    }
}

/// The depths of a generator stack's open slots, in stack order.
pub open spec fn slot_depths(st: Seq<(usize, usize)>) -> Seq<nat> {
    st.map_values(|e: (usize, usize)| e.1 as nat)
}

/// The depth structure Grow guarantees: no node lies deeper than `maxd`, a
/// node at exactly `maxd` is a terminal, and a node shallower than both
/// `mind` and `maxd` is a function.
pub open spec fn depth_shaped(ar: Seq<nat>, mind: usize, maxd: usize) -> bool {
    forall|j: int|
        0 <= j < ar.len() ==> {
            &&& node_depth(ar, j) <= maxd
            &&& (node_depth(ar, j) == maxd ==> #[trigger] ar[j] == 0)
            &&& ((node_depth(ar, j) < mind && node_depth(ar, j) < maxd) ==> ar[j] >= 1)
        }
}

/// The conditions under which the generators can draw what they need: the
/// catalog is consistent (one arity per name), its weights fit the scale,
/// some terminal can be drawn, and, when inner nodes are needed, some
/// function can be drawn.
pub open spec fn grow_ready(s: &OperatorSampler, max_depth: usize) -> bool {
    &&& s.wf()
    &&& sum_wts(s.wts()) <= u64::MAX
    &&& s.ops().len() == s.ars().len()
    &&& (forall|i: int, j: int|
        0 <= i < s.ops().len() && 0 <= j < s.ops().len() && s.ops()[i] == s.ops()[j]
            ==> s.ars()[i] == s.ars()[j])
    &&& (exists|i: int| 0 <= i < s.ars().len() && s.ars()[i] == 0 && #[trigger] s.wts()[i] > 0)
    &&& (max_depth > 0 ==> exists|i: int|
        0 <= i < s.ars().len() && s.ars()[i] >= 1 && #[trigger] s.wts()[i] > 0)
}

/// Grow initialization: tree depths fall between the two bounds, with
/// function nodes forced below the minimum depth.
pub struct Grow {
    min_depth: usize,
    max_depth: usize,
}

impl Grow {
    pub closed spec fn min_spec(&self) -> usize {
        self.min_depth
    }

    pub closed spec fn max_spec(&self) -> usize {
        self.max_depth
    }

    pub fn new(min_depth: usize, max_depth: usize) -> (r: Self)
        ensures
            r.min_spec() == min_depth,
            r.max_spec() == max_depth,
    {
        Self { min_depth, max_depth }
    }
}

/// Every arity is bounded by the catalog's largest.
pub proof fn lemma_max_arity_element(ars: Seq<usize>, i: int)
    requires
        0 <= i < ars.len(),
    ensures
        ars[i] <= max_arity(ars),
    decreases ars.len(),
{
    if i < ars.len() - 1 {
        lemma_max_arity_element(ars.drop_last(), i);
        assert(ars.drop_last()[i] == ars[i]);
    }
}

/// A stack whose slots all sit at or above the floor has nonnegative
/// capacity.
pub proof fn lemma_stack_cap_nonneg(st: Seq<(usize, usize)>, a: nat, maxd: usize)
    ensures
        stack_cap(st, a, maxd) >= 0,
    decreases st.len(),
{
    if st.len() > 0 {
        lemma_stack_cap_nonneg(st.drop_last(), a, maxd);
        if st.last().1 <= maxd {
            lemma_tree_cap_pos(a, (maxd - st.last().1) as nat);
        }
    }
}

/// In a consistent catalog, a name that stands at some entry has that
/// entry's arity.
pub proof fn lemma_sampled_arity(ops: Seq<Seq<char>>, ars: Seq<usize>, name: Seq<char>, i: int)
    requires
        ops.len() == ars.len(),
        0 <= i < ops.len(),
        ops[i] == name,
        forall|u: int, v: int|
            0 <= u < ops.len() && 0 <= v < ops.len() && ops[u] == ops[v] ==> ars[u] == ars[v],
    ensures
        arity_of(ops, ars, name) == ars[i],
{
    lemma_find_op(ops, name);
    let f = crate::tree::encoding::find_op(ops, name);
    if f < 0 {
        assert(ops[i] != name);
    }
    assert(ops[f] == ops[i]);
}

impl Grow {
    /// Builds one tree. The root is drawn first (a terminal only when the
    /// maximum depth is zero); every open slot then draws a terminal at the
    /// maximum depth, a function below the minimum depth, and otherwise
    /// either, by a fair coin. The finished arena is a complete pre-order
    /// encoding under the sampler's catalog, and the children index is
    /// rebuilt from it; the node count never exceeds the capacity a tree of
    /// the maximum depth has under the catalog's largest arity, no node
    /// lies deeper than the maximum depth, nodes at the maximum depth are
    /// terminals, nodes strictly under both bounds are functions, and the
    /// root is a function whenever the maximum depth is positive.
    #[verifier::loop_isolation(false)]
    #[verifier::rlimit(100)]
    pub fn initialize<R: rand::Rng>(&self, rng: &mut R, sampler: &OperatorSampler) -> (r:
        TreeGenotype)
        requires
            grow_ready(sampler, self.max_spec()),
        ensures
            r.wf_for(sampler.ops(), sampler.ars()),
            r.labels().len() >= 1,
            r.labels().len() <= tree_cap(max_arity(sampler.ars()), self.max_spec() as nat),
            self.min_spec() <= self.max_spec() ==> r.labels().len() > self.min_spec(),
            depth_shaped(
                arity_seq(sampler.ops(), sampler.ars(), r.labels()),
                self.min_spec(),
                self.max_spec(),
            ),
            self.max_spec() > 0 ==> arity_seq(sampler.ops(), sampler.ars(), r.labels())[0] >= 1,
    {
        let ghost ops = sampler.ops();
        let ghost ars = sampler.ars();
        let ghost wts = sampler.wts();
        proof {
            sampler.lemma_wf_lens();
        }

        // the catalog's largest arity
        let arsv = sampler.arities();
        let mut max_a: usize = 0;
        let mut i: usize = 0;
        proof {
            assert(ars.take(0) =~= Seq::<usize>::empty());
        }
        while i < arsv.len()
            invariant
                i <= ars.len(),
                max_a as nat == max_arity(ars.take(i as int)),
            decreases ars.len() - i,
        {
            proof {
                assert(ars.take(i + 1).drop_last() =~= ars.take(i as int));
                assert(ars.take(i + 1).last() == ars[i as int]);
            }
            if arsv[i] > max_a {
                max_a = arsv[i];
            }
            i = i + 1;
        }
        proof {
            assert(ars.take(ars.len() as int) =~= ars);
        }
        let ghost aa = max_a as nat;

        let term_set = sampler.sampler_with_arity(0, 0);
        let func_set = sampler.sampler_with_arity(1, max_a);
        proof {
            lemma_kept_entries(ars, 0, 0);
            lemma_kept_entries(ars, 1, max_a);
            lemma_kept_sum(ars, wts, 0, 0);
            lemma_kept_sum(ars, wts, 1, max_a);
            let ti = choose|ti: int|
                0 <= ti < ars.len() && ars[ti] == 0 && #[trigger] wts[ti] > 0;
            lemma_kept_contains(ars, 0, 0, ti);
            let tt = choose|tt: int|
                0 <= tt < kept_indices(ars, 0, 0).len() && #[trigger] kept_indices(ars, 0, 0)[tt]
                    == ti;
            assert(term_set.wts()[tt] == wts[ti]);
            lemma_sum_wts_element(term_set.wts(), tt);
            if self.max_spec() > 0 {
                let fi = choose|fi: int|
                    0 <= fi < ars.len() && ars[fi] >= 1 && #[trigger] wts[fi] > 0;
                lemma_max_arity_element(ars, fi);
                lemma_kept_contains(ars, 1, max_a, fi);
                let ft = choose|ft: int|
                    0 <= ft < kept_indices(ars, 1, max_a).len() && #[trigger] kept_indices(
                        ars,
                        1,
                        max_a,
                    )[ft] == fi;
                assert(func_set.wts()[ft] == wts[fi]);
                lemma_sum_wts_element(func_set.wts(), ft);
            }
        }

        let mut arena: Vec<String> = Vec::new();
        let mut stack: Vec<(usize, usize)> = Vec::new();

        let root_pair = if self.max_depth == 0 {
            let p = term_set.sample(rng);
            proof {
                lemma_sample_fact(sampler, &term_set, &func_set, p.0@, p.1, max_a, true);
            }
            p
        } else {
            let p = func_set.sample(rng);
            proof {
                lemma_sample_fact(sampler, &term_set, &func_set, p.0@, p.1, max_a, false);
            }
            p
        };
        arena.push(root_pair.0);
        let root_arity = root_pair.1;
        let mut t: usize = 0;
        while t < root_arity
            invariant
                t <= root_arity,
                stack@ =~= Seq::new(t as nat, |u: int| (0usize, 1usize)),
            decreases root_arity - t,
        {
            stack.push((0, 1));
            t = t + 1;
            proof {
                assert(stack@ =~= Seq::new(t as nat, |u: int| (0usize, 1usize)));
            }
        }
        proof {
            let g = arity_seq(ops, ars, crate::tree::encoding::labels_of(arena@));
            assert(g =~= seq![root_arity as nat]);
            assert(psum(g, 0) == 0);
            assert(psum(g, 1) == psum(g, 0) + g[0]);
            lemma_owed_repeat(root_arity as nat, 0, 1, self.min_depth);
            assert(stack@ =~= Seq::new(root_arity as nat, |u: int| (0usize, 1usize)));
            // the root's depth accounting
            assert(depth_stack(g, 0) == seq![0nat]);
            assert(slot_depths(stack@) =~= depth_stack(g, 1)) by {
                assert(depth_stack(g, 1) =~= depth_stack(g, 0).drop_last() + Seq::new(
                    g[0],
                    |t: int| 1nat,
                ));
                assert(slot_depths(stack@) =~= Seq::new(root_arity as nat, |t: int| 1nat));
            }
            assert(node_depth(g, 0) == 0);
            assert(self.max_depth == 0 ==> root_arity == 0);
            assert(self.max_depth > 0 ==> root_arity >= 1);
            assert(depth_shaped(g, self.min_depth, self.max_depth));
            if self.max_depth == 0 {
                assert(root_arity == 0);
                assert(stack@ =~= Seq::<(usize, usize)>::empty());
                assert(arena@.len() + stack_cap(stack@, aa, self.max_depth) <= tree_cap(
                    aa,
                    self.max_depth as nat,
                ));
            } else {
                lemma_stack_cap_repeat(root_arity as nat, 0, 1, aa, self.max_depth);
                assert(tree_cap(aa, self.max_depth as nat) == 1 + aa * tree_cap(
                    aa,
                    (self.max_depth - 1) as nat,
                ));
                assert(root_arity * tree_cap(aa, (self.max_depth - 1) as nat) <= aa * tree_cap(
                    aa,
                    (self.max_depth - 1) as nat,
                )) by (nonlinear_arith)
                    requires
                        root_arity as nat <= aa,
                        tree_cap(aa, (self.max_depth - 1) as nat) >= 0,
                ;
            }
        }

        while stack.len() > 0
            invariant
                arena@.len() >= 1,
                psum(arity_seq(ops, ars, crate::tree::encoding::labels_of(arena@)), arena@.len() as int)
                    == arena@.len() - 1 + stack@.len(),
                forall|j: int|
                    0 < j < arena@.len() ==> pend(
                        arity_seq(ops, ars, crate::tree::encoding::labels_of(arena@)),
                        0,
                        1,
                        j,
                    ) > 0,
                forall|u: int|
                    0 <= u < stack@.len() ==> 1 <= (#[trigger] stack@[u]).1
                        <= self.max_depth,
                arena@.len() + stack_cap(stack@, aa, self.max_depth) <= tree_cap(
                    aa,
                    self.max_depth as nat,
                ),
                self.min_depth <= self.max_depth ==> arena@.len() + owed_depth(
                    stack@,
                    self.min_depth,
                ) > self.min_depth,
                slot_depths(stack@) =~= depth_stack(
                    arity_seq(ops, ars, crate::tree::encoding::labels_of(arena@)),
                    arena@.len() as int,
                ),
                depth_shaped(
                    arity_seq(ops, ars, crate::tree::encoding::labels_of(arena@)),
                    self.min_depth,
                    self.max_depth,
                ),
                self.max_depth > 0 ==> arity_seq(
                    ops,
                    ars,
                    crate::tree::encoding::labels_of(arena@),
                )[0] >= 1,
            decreases stack_cap(stack@, aa, self.max_depth),
        {
            let ghost g0 = arity_seq(ops, ars, crate::tree::encoding::labels_of(arena@));
            let ghost stack0 = stack@;
            let ghost len0 = arena@.len() as int;
            proof {
                lemma_stack_cap_nonneg(stack@, aa, self.max_depth);
            }
            let entry = stack.pop().unwrap();
            let depth = entry.1;
            let pair = if depth == self.max_depth {
                let p = term_set.sample(rng);
                proof {
                    lemma_sample_fact(sampler, &term_set, &func_set, p.0@, p.1, max_a, true);
                }
                p
            } else if depth < self.min_depth {
                let p = func_set.sample(rng);
                proof {
                    lemma_sample_fact(sampler, &term_set, &func_set, p.0@, p.1, max_a, false);
                }
                p
            } else {
                let coin: bool = rand_value(rng);
                if coin {
                    let p = term_set.sample(rng);
                    proof {
                        lemma_sample_fact(sampler, &term_set, &func_set, p.0@, p.1, max_a, true);
                    }
                    p
                } else {
                    let p = func_set.sample(rng);
                    proof {
                        lemma_sample_fact(sampler, &term_set, &func_set, p.0@, p.1, max_a, false);
                    }
                    p
                }
            };
            proof {
                assert(pair.1 > 0 ==> depth < self.max_depth);
                assert(depth == self.max_depth ==> pair.1 == 0);
                assert(depth < self.min_depth && depth < self.max_depth ==> pair.1 >= 1);
            }
            arena.push(pair.0);
            let cur = arena.len() - 1;
            let arity = pair.1;
            let ghost stack1 = stack@;
            let mut t: usize = 0;
            while t < arity
                invariant
                    t <= arity,
                    stack@ =~= stack1 + Seq::new(t as nat, |u: int| (cur, (depth + 1) as usize)),
                decreases arity - t,
            {
                proof {
                    assert(depth < self.max_depth);
                }
                stack.push((cur, depth + 1));
                t = t + 1;
                proof {
                    assert(stack@ =~= stack1 + Seq::new(
                        t as nat,
                        |u: int| (cur, (depth + 1) as usize),
                    ));
                }
            }
            proof {
                let g1 = arity_seq(ops, ars, crate::tree::encoding::labels_of(arena@));
                assert(g1 =~= g0.push(pair.1 as nat));
                // depth accounting: the stack mirrors the slot scan
                assert(slot_depths(stack0) =~= depth_stack(g0, len0));
                lemma_depth_stack_take(g1, g0, len0);
                assert(depth_stack(g1, len0).len() == stack0.len());
                assert(depth_stack(g1, len0).last() == depth as nat) by {
                    assert(slot_depths(stack0).last() == stack0.last().1 as nat);
                }
                assert(depth_stack(g1, len0 + 1) =~= depth_stack(g1, len0).drop_last() + Seq::new(
                    pair.1 as nat,
                    |t: int| (depth + 1) as nat,
                ));
                assert(slot_depths(stack@) =~= depth_stack(g1, len0 + 1)) by {
                    assert(stack1 =~= stack0.drop_last());
                    assert(slot_depths(stack1) =~= slot_depths(stack0).drop_last());
                    assert(slot_depths(stack@) =~= slot_depths(stack1) + Seq::new(
                        pair.1 as nat,
                        |t: int| (depth + 1) as nat,
                    ));
                }
                assert(node_depth(g1, len0) == depth);
                assert forall|j: int| 0 <= j < arena@.len() implies {
                    &&& node_depth(g1, j) <= self.max_depth
                    &&& (node_depth(g1, j) == self.max_depth ==> g1[j] == 0)
                    &&& ((node_depth(g1, j) < self.min_depth && node_depth(g1, j)
                        < self.max_depth) ==> g1[j] >= 1)
                } by {
                    if j < len0 {
                        lemma_depth_stack_take(g1, g0, j);
                        assert(node_depth(g1, j) == node_depth(g0, j));
                        assert(g1[j] == g0[j]);
                    } else {
                        assert(j == len0);
                        assert(node_depth(g1, j) == depth);
                    }
                }
                assert(depth_shaped(g1, self.min_depth, self.max_depth));
                assert(self.max_depth > 0 ==> g1[0] >= 1);
                crate::tree::encoding::lemma_psum_offset(g1, g0, 0, len0);
                assert(psum(g1, len0 + 1) == psum(g0, len0) + pair.1);
                assert forall|j: int| 0 < j < arena@.len() implies pend(g1, 0, 1, j) > 0 by {
                    crate::tree::encoding::lemma_psum_offset(g1, g0, 0, j);
                    if j < len0 {
                        assert(pend(g1, 0, 1, j) == pend(g0, 0, 1, j));
                    } else {
                        assert(j == len0);
                        assert(pend(g1, 0, 1, len0) == 1 + psum(g0, len0) - len0);
                        assert(1 + psum(g0, len0) - len0 == stack0.len() as int);
                    }
                }
                // owed-depth accounting
                if self.min_depth <= self.max_depth {
                    assert(depth < self.min_depth && depth != self.max_depth ==> pair.1 >= 1);
                    assert(stack1 =~= stack0.drop_last());
                    lemma_owed_nonneg(stack1, self.min_depth);
                    let own: int = if depth <= self.min_depth {
                        self.min_depth + 1 - depth
                    } else {
                        0
                    };
                    assert(owed_depth(stack0, self.min_depth) == if own >= owed_depth(
                        stack1,
                        self.min_depth,
                    ) {
                        own
                    } else {
                        owed_depth(stack1, self.min_depth)
                    });
                    if pair.1 == 0 {
                        assert(stack@ =~= stack1);
                    } else {
                        let pushed = Seq::new(pair.1 as nat, |u: int| (cur, (depth + 1) as usize));
                        assert(stack@ =~= stack1 + pushed);
                        lemma_owed_append(stack1, pushed, self.min_depth);
                        lemma_owed_repeat(pair.1 as nat, cur, (depth + 1) as usize, self.min_depth);
                    }
                    if own > owed_depth(stack1, self.min_depth) {
                        if depth < self.min_depth {
                            assert(pair.1 >= 1);
                            assert(owed_depth(stack@, self.min_depth) >= own - 1);
                        } else {
                            assert(depth == self.min_depth);
                            assert(own == 1);
                            lemma_owed_nonneg(stack@, self.min_depth);
                        }
                    } else {
                        assert(owed_depth(stack@, self.min_depth) >= owed_depth(
                            stack1,
                            self.min_depth,
                        ));
                    }
                }
                // capacity accounting
                assert(stack1 =~= stack0.drop_last());
                assert(stack_cap(stack0, aa, self.max_depth) == stack_cap(stack1, aa, self.max_depth)
                    + tree_cap(aa, (self.max_depth - depth) as nat));
                if pair.1 == 0 {
                    assert(stack@ =~= stack1);
                    lemma_tree_cap_pos(aa, (self.max_depth - depth) as nat);
                    assert(stack_cap(stack@, aa, self.max_depth) < stack_cap(
                        stack0,
                        aa,
                        self.max_depth,
                    ));
                    assert(arena@.len() + stack_cap(stack@, aa, self.max_depth) <= tree_cap(
                        aa,
                        self.max_depth as nat,
                    ));
                } else {
                    assert(depth < self.max_depth);
                    lemma_stack_cap_append(stack1, Seq::new(pair.1 as nat, |u: int| (cur, (depth
                        + 1) as usize)), aa, self.max_depth);
                    lemma_stack_cap_repeat(pair.1 as nat, cur, (depth + 1) as usize, aa, self.max_depth);
                    assert(tree_cap(aa, (self.max_depth - depth) as nat) == 1 + aa * tree_cap(
                        aa,
                        (self.max_depth - depth - 1) as nat,
                    ));
                    assert(pair.1 * tree_cap(aa, (self.max_depth - depth - 1) as nat) <= aa
                        * tree_cap(aa, (self.max_depth - depth - 1) as nat)) by (nonlinear_arith)
                        requires
                            pair.1 as nat <= aa,
                            tree_cap(aa, (self.max_depth - depth - 1) as nat) >= 0,
                    ;
                    assert(stack_cap(stack@, aa, self.max_depth) == stack_cap(
                        stack1,
                        aa,
                        self.max_depth,
                    ) + pair.1 * tree_cap(aa, (self.max_depth - depth - 1) as nat));
                    assert(1 + pair.1 * tree_cap(aa, (self.max_depth - depth - 1) as nat)
                        <= tree_cap(aa, (self.max_depth - depth) as nat));
                    assert(stack_cap(stack@, aa, self.max_depth) < stack_cap(
                        stack0,
                        aa,
                        self.max_depth,
                    ));
                    assert(arena@.len() + stack_cap(stack@, aa, self.max_depth) <= tree_cap(
                        aa,
                        self.max_depth as nat,
                    ));
                }
                lemma_stack_cap_nonneg(stack@, aa, self.max_depth);
            }
        }

        proof {
            let g = arity_seq(ops, ars, crate::tree::encoding::labels_of(arena@));
            assert(pend(g, 0, 1, arena@.len() as int) == 0);
            lemma_walk_first_zero(g, 0, 1, arena@.len() as int);
        }
        let mut tree = TreeGenotype::with_arena(arena);
        let index = tree.construct_children(sampler);
        *tree.children_mut() = index;
        tree
    }
}

/// What one draw from the terminal or function sub-catalog gives: a label
/// of the full catalog whose arity there matches the drawn arity; a
/// terminal draw has arity zero, a function draw an arity between one and
/// the catalog's largest.
proof fn lemma_sample_fact(
    sampler: &OperatorSampler,
    term_set: &OperatorSampler,
    func_set: &OperatorSampler,
    name: Seq<char>,
    arity: usize,
    max_a: usize,
    from_term: bool,
)
    requires
        sampler.wf(),
        sampler.ops().len() == sampler.ars().len(),
        forall|u: int, v: int|
            0 <= u < sampler.ops().len() && 0 <= v < sampler.ops().len() && sampler.ops()[u]
                == sampler.ops()[v] ==> sampler.ars()[u] == sampler.ars()[v],
        max_a as nat == max_arity(sampler.ars()),
        term_set.ops() == kept_indices(sampler.ars(), 0, 0).map_values(
            |j: int| sampler.ops()[j],
        ),
        term_set.ars() == kept_indices(sampler.ars(), 0, 0).map_values(
            |j: int| sampler.ars()[j],
        ),
        func_set.ops() == kept_indices(sampler.ars(), 1, max_a).map_values(
            |j: int| sampler.ops()[j],
        ),
        func_set.ars() == kept_indices(sampler.ars(), 1, max_a).map_values(
            |j: int| sampler.ars()[j],
        ),
        if from_term {
            exists|i: int|
                0 <= i < term_set.ops().len() && name == term_set.ops()[i] && arity
                    == term_set.ars()[i]
        } else {
            exists|i: int|
                0 <= i < func_set.ops().len() && name == func_set.ops()[i] && arity
                    == func_set.ars()[i]
        },
    ensures
        arity_of(sampler.ops(), sampler.ars(), name) == arity,
        arity <= max_a,
        from_term ==> arity == 0,
        !from_term ==> 1 <= arity,
{
    let ops = sampler.ops();
    let ars = sampler.ars();
    lemma_kept_entries(ars, 0, 0);
    lemma_kept_entries(ars, 1, max_a);
    if from_term {
        let i = choose|i: int|
            0 <= i < term_set.ops().len() && name == term_set.ops()[i] && arity
                == term_set.ars()[i];
        let j = kept_indices(ars, 0, 0)[i];
        lemma_sampled_arity(ops, ars, name, j);
    } else {
        let i = choose|i: int|
            0 <= i < func_set.ops().len() && name == func_set.ops()[i] && arity
                == func_set.ars()[i];
        let j = kept_indices(ars, 1, max_a)[i];
        lemma_sampled_arity(ops, ars, name, j);
    }
}

/// Full initialization: every branch reaches exactly the configured depth;
/// a special case of Grow with both bounds equal.
pub struct Full {
    depth: usize,
}

impl Full {
    pub closed spec fn depth_spec(&self) -> usize {
        self.depth
    }

    pub fn new(depth: usize) -> (r: Self)
        ensures
            r.depth_spec() == depth,
    {
        Self { depth }
    }

    /// Builds one tree by running Grow with minimum and maximum depth both
    /// set to the configured depth: a node is a leaf exactly when it sits
    /// at that depth, so every branch reaches it.
    pub fn initialize<R: rand::Rng>(&self, rng: &mut R, sampler: &OperatorSampler) -> (r:
        TreeGenotype)
        requires
            grow_ready(sampler, self.depth_spec()),
        ensures
            r.wf_for(sampler.ops(), sampler.ars()),
            r.labels().len() >= 1,
            r.labels().len() <= tree_cap(max_arity(sampler.ars()), self.depth_spec() as nat),
            r.labels().len() > self.depth_spec(),
            depth_shaped(
                arity_seq(sampler.ops(), sampler.ars(), r.labels()),
                self.depth_spec(),
                self.depth_spec(),
            ),
            forall|j: int|
                0 <= j < r.labels().len() ==> (#[trigger] arity_seq(
                    sampler.ops(),
                    sampler.ars(),
                    r.labels(),
                )[j] == 0 <==> node_depth(
                    arity_seq(sampler.ops(), sampler.ars(), r.labels()),
                    j,
                ) == self.depth_spec()),
    {
        let scheme = Grow::new(self.depth, self.depth);
        let r = scheme.initialize(rng, sampler);
        proof {
            let g = arity_seq(sampler.ops(), sampler.ars(), r.labels());
            assert forall|j: int| 0 <= j < r.labels().len() implies (#[trigger] g[j] == 0
                <==> node_depth(g, j) == self.depth_spec()) by {
                if g[j] == 0 && node_depth(g, j) < self.depth_spec() {
                    assert(g[j] >= 1);
                }
            }
        }
        r
    }
}

/// Ramped half-and-half: for each tree an unbiased coin picks between Grow
/// over the whole depth band and Full at the top of it, to diversify the
/// shapes of an initial population.
pub struct RampedHalfAndHalf {
    min_depth: usize,
    max_depth: usize,
}

impl RampedHalfAndHalf {
    pub closed spec fn min_spec(&self) -> usize {
        self.min_depth
    }

    pub closed spec fn max_spec(&self) -> usize {
        self.max_depth
    }

    pub fn new(min_depth: usize, max_depth: usize) -> (r: Self)
        ensures
            r.min_spec() == min_depth,
            r.max_spec() == max_depth,
    {
        Self { min_depth, max_depth }
    }

    /// Builds one tree, by Grow on heads and by Full on tails; either way
    /// the result keeps Grow's depth structure for one of the two bands.
    pub fn initialize<R: rand::Rng>(&self, rng: &mut R, sampler: &OperatorSampler) -> (r:
        TreeGenotype)
        requires
            grow_ready(sampler, self.max_spec()),
        ensures
            r.wf_for(sampler.ops(), sampler.ars()),
            r.labels().len() >= 1,
            r.labels().len() <= tree_cap(max_arity(sampler.ars()), self.max_spec() as nat),
            self.min_spec() <= self.max_spec() ==> r.labels().len() > self.min_spec(),
            depth_shaped(
                arity_seq(sampler.ops(), sampler.ars(), r.labels()),
                self.min_spec(),
                self.max_spec(),
            ) || depth_shaped(
                arity_seq(sampler.ops(), sampler.ars(), r.labels()),
                self.max_spec(),
                self.max_spec(),
            ),
    {
        let is_grow: bool = rand_value(rng);
        if is_grow {
            let scheme = Grow::new(self.min_depth, self.max_depth);
            scheme.initialize(rng, sampler)
        } else {
            let scheme = Full::new(self.max_depth);
            scheme.initialize(rng, sampler)
        }
    }
}

} // verus!
