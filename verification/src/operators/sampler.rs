//! Weighted random sampling of operators under arity constraints.
//!
//! Weights are fixed-point values on the [`crate::PROB_SCALE`] scale: a set
//! of weights forms a distribution when it sums to that scale. Sampling is
//! proportional to weight; a filtered sampler keeps the original magnitudes,
//! so only the relative distribution among the kept entries changes.
use vstd::prelude::*;

use crate::rng::rand_below;
use crate::tree::encoding::labels_of;

verus! {

/// Sum of a weight sequence, as an unbounded integer.
pub open spec fn sum_wts(ws: Seq<u64>) -> int
    decreases ws.len(),
{
    if ws.len() == 0 {
        0
    } else {
        sum_wts(ws.drop_last()) + ws.last()
    }
}

/// Indices of the arities that lie in `[min, max]`, in order.
pub open spec fn kept_indices(ars: Seq<usize>, min: usize, max: usize) -> Seq<int>
    decreases ars.len(),
{
    if ars.len() == 0 {
        Seq::empty()
    } else {
        kept_indices(ars.drop_last(), min, max) + if min <= ars.last() <= max {
            seq![ars.len() - 1]
        } else {
            Seq::empty()
        }
    }
}

/// Sampler over parallel lists of operator names, arities and weights.
pub struct OperatorSampler {
    operators: Vec<String>,
    arity: Vec<usize>,
    weights: Vec<u64>,
}

impl OperatorSampler {
    /// The operator names, as character sequences.
    pub closed spec fn ops(&self) -> Seq<Seq<char>> {
        labels_of(self.operators@)
    }

    /// The arities.
    pub closed spec fn ars(&self) -> Seq<usize> {
        self.arity@
    }

    /// The weights.
    pub closed spec fn wts(&self) -> Seq<u64> {
        self.weights@
    }

    /// The three lists run in parallel.
    pub closed spec fn wf(&self) -> bool {
        self.operators@.len() == self.arity@.len() && self.operators@.len()
            == self.weights@.len()
    }

    /// The parallel lists share one length.
    pub proof fn lemma_wf_lens(&self)
        requires
            self.wf(),
        ensures
            self.ops().len() == self.ars().len(),
            self.ops().len() == self.wts().len(),
    {
    }

    pub fn new(operators: Vec<String>, arity: Vec<usize>, weights: Vec<u64>) -> (r: Self)
        requires
            operators@.len() == arity@.len(),
            operators@.len() == weights@.len(),
        ensures
            r.wf(),
            r.ops() == labels_of(operators@),
            r.ars() == arity@,
            r.wts() == weights@,
    {
        Self { operators, arity, weights }
    }

    pub fn operators(&self) -> (r: &Vec<String>)
        ensures
            labels_of(r@) == self.ops(),
    {
        &self.operators
    }

    pub fn arities(&self) -> (r: &Vec<usize>)
        ensures
            r@ == self.ars(),
    {
        &self.arity
    }

    pub fn weights(&self) -> (r: &Vec<u64>)
        ensures
            r@ == self.wts(),
    {
        &self.weights
    }

    /// Replaces the sampling weights; the new list must be as long as the
    /// operator list.
    pub fn update_weights(&mut self, weights: Vec<u64>)
        requires
            old(self).wf(),
            weights@.len() == old(self).wts().len(),
        ensures
            final(self).wf(),
            final(self).ops() == old(self).ops(),
            final(self).ars() == old(self).ars(),
            final(self).wts() == weights@,
    {
        self.weights = weights;
    }

    /// Sum of all weights; the caller keeps it inside `u64`.
    fn total_weight(&self) -> (r: u64)
        requires
            sum_wts(self.wts()) <= u64::MAX,
        ensures
            r == sum_wts(self.wts()),
    {
        let mut acc: u64 = 0;
        let mut i: usize = 0;
        proof {
            assert(self.wts().take(0) =~= Seq::<u64>::empty());
        }
        while i < self.weights.len()
            invariant
                i <= self.wts().len(),
                acc == sum_wts(self.wts().take(i as int)),
                sum_wts(self.wts()) <= u64::MAX,
            decreases self.wts().len() - i,
        {
            proof {
                lemma_sum_wts_take(self.wts(), i as int);
                assert(self.wts().take(i + 1).drop_last() =~= self.wts().take(i as int));
                assert(self.wts().take(i + 1).last() == self.wts()[i as int]);
            }
            acc = acc + self.weights[i];
            i = i + 1;
        }
        proof {
            assert(self.wts().take(self.wts().len() as int) =~= self.wts());
        }
        acc
    }

    /// Draws an index with probability proportional to its weight; only an
    /// entry with positive weight can come out.
    pub fn sample_index<R: rand::Rng>(&self, rng: &mut R) -> (r: usize)
        requires
            self.wf(),
            0 < sum_wts(self.wts()) <= u64::MAX,
        ensures
            r < self.wts().len(),
            self.wts()[r as int] > 0,
    {
        let total = self.total_weight();
        let draw = rand_below(rng, total);
        let mut acc: u64 = 0;
        let mut i: usize = 0;
        proof {
            assert(self.wts().take(0) =~= Seq::<u64>::empty());
        }
        while i < self.weights.len()
            invariant
                self.wf(),
                i <= self.wts().len(),
                acc == sum_wts(self.wts().take(i as int)),
                acc <= draw,
                draw < sum_wts(self.wts()),
                sum_wts(self.wts()) <= u64::MAX,
            decreases self.wts().len() - i,
        {
            proof {
                lemma_sum_wts_take(self.wts(), i as int);
                assert(self.wts().take(i + 1).drop_last() =~= self.wts().take(i as int));
                assert(self.wts().take(i + 1).last() == self.wts()[i as int]);
            }
            let w = self.weights[i];
            if draw < acc || draw - acc < w {
                return i;
            }
            acc = acc + w;
            i = i + 1;
        }
        proof {
            assert(self.wts().take(self.wts().len() as int) =~= self.wts());
        }
        vstd::pervasive::unreached()
    }

    /// Draws an operator with probability proportional to its weight: the
    /// result is the name and arity of one catalog entry of positive weight.
    pub fn sample<R: rand::Rng>(&self, rng: &mut R) -> (r: (String, usize))
        requires
            self.wf(),
            0 < sum_wts(self.wts()) <= u64::MAX,
        ensures
            exists|i: int|
                0 <= i < self.ops().len() && r.0@ == self.ops()[i] && r.1 == self.ars()[i]
                    && self.wts()[i] > 0,
    {
        let index = self.sample_index(rng);
        let name = self.operators[index].clone();
        let arity = self.arity[index];
        proof {
            assert(name@ == self.ops()[index as int]);
        }
        (name, arity)
    }

    /// Keeps exactly the operators whose arity lies in `[min_arity,
    /// max_arity]`, in their original order and with their original weights.
    pub fn sampler_with_arity(&self, min_arity: usize, max_arity: usize) -> (r: OperatorSampler)
        requires
            self.wf(),
        ensures
            r.wf(),
            r.ops() == kept_indices(self.ars(), min_arity, max_arity).map_values(
                |j: int| self.ops()[j],
            ),
            r.ars() == kept_indices(self.ars(), min_arity, max_arity).map_values(
                |j: int| self.ars()[j],
            ),
            r.wts() == kept_indices(self.ars(), min_arity, max_arity).map_values(
                |j: int| self.wts()[j],
            ),
    {
        let mut filtered_operators: Vec<String> = Vec::new();
        let mut filtered_arity: Vec<usize> = Vec::new();
        let mut filtered_weights: Vec<u64> = Vec::new();
        let mut i: usize = 0;
        proof {
            assert(self.ars().take(0) =~= Seq::<usize>::empty());
        }
        while i < self.arity.len()
            invariant
                self.wf(),
                i <= self.ars().len(),
                filtered_operators@.len() == kept_indices(
                    self.ars().take(i as int),
                    min_arity,
                    max_arity,
                ).len(),
                filtered_arity@.len() == filtered_operators@.len(),
                filtered_weights@.len() == filtered_operators@.len(),
                forall|t: int|
                    0 <= t < filtered_operators@.len() ==> {
                        let j = #[trigger] kept_indices(
                            self.ars().take(i as int),
                            min_arity,
                            max_arity,
                        )[t];
                        &&& 0 <= j < self.ops().len()
                        &&& filtered_operators@[t]@ == self.ops()[j]
                        &&& filtered_arity@[t] == self.ars()[j]
                        &&& filtered_weights@[t] == self.wts()[j]
                    },
            decreases self.ars().len() - i,
        {
            proof {
                assert(self.ars().take(i + 1).drop_last() =~= self.ars().take(i as int));
                assert(self.ars().take(i + 1).last() == self.ars()[i as int]);
                if min_arity <= self.ars()[i as int] <= max_arity {
                    assert(kept_indices(self.ars().take(i + 1), min_arity, max_arity)
                        =~= kept_indices(self.ars().take(i as int), min_arity, max_arity) + seq![
                        i as int,
                    ]);
                } else {
                    assert(kept_indices(self.ars().take(i + 1), min_arity, max_arity)
                        =~= kept_indices(self.ars().take(i as int), min_arity, max_arity));
                }
            }
            let a = self.arity[i];
            if a >= min_arity && a <= max_arity {
                filtered_operators.push(self.operators[i].clone());
                filtered_arity.push(self.arity[i]);
                filtered_weights.push(self.weights[i]);
            }
            i = i + 1;
        }
        proof {
            assert(self.ars().take(self.ars().len() as int) =~= self.ars());
        }
        let r = OperatorSampler::new(filtered_operators, filtered_arity, filtered_weights);
        proof {
            let kept = kept_indices(self.ars(), min_arity, max_arity);
            assert(r.ops() =~= kept.map_values(|j: int| self.ops()[j]));
            assert(r.ars() =~= kept.map_values(|j: int| self.ars()[j]));
            assert(r.wts() =~= kept.map_values(|j: int| self.wts()[j]));
        }
        r
    }
}

/// Unfolds the sum of a one-longer prefix.
pub proof fn lemma_sum_wts_take(ws: Seq<u64>, i: int)
    requires
        0 <= i < ws.len(),
    ensures
        sum_wts(ws.take(i + 1)) == sum_wts(ws.take(i)) + ws[i],
        sum_wts(ws.take(i)) >= 0,
        sum_wts(ws.take(i + 1)) <= sum_wts(ws),
{
    assert(ws.take(i + 1).drop_last() =~= ws.take(i));
    assert(ws.take(i + 1).last() == ws[i]);
    lemma_sum_wts_nonneg(ws.take(i));
    lemma_sum_wts_prefix(ws, i + 1);
}

/// A weight sum is never negative.
pub proof fn lemma_sum_wts_nonneg(ws: Seq<u64>)
    ensures
        sum_wts(ws) >= 0,
    decreases ws.len(),
{
    if ws.len() > 0 {
        lemma_sum_wts_nonneg(ws.drop_last());
    }
}

/// A prefix sums to no more than the whole.
pub proof fn lemma_sum_wts_prefix(ws: Seq<u64>, i: int)
    requires
        0 <= i <= ws.len(),
    ensures
        sum_wts(ws.take(i)) <= sum_wts(ws),
    decreases ws.len() - i,
{
    if i < ws.len() {
        lemma_sum_wts_prefix(ws, i + 1);
        assert(ws.take(i + 1).drop_last() =~= ws.take(i));
        assert(ws.take(i + 1).last() == ws[i]);
    } else {
        assert(ws.take(i) =~= ws);
    }
}

/// Kept indices point at entries whose arity lies in the band.
pub proof fn lemma_kept_entries(ars: Seq<usize>, min: usize, max: usize)
    ensures
        forall|t: int|
            0 <= t < kept_indices(ars, min, max).len() ==> {
                let j = #[trigger] kept_indices(ars, min, max)[t];
                0 <= j < ars.len() && min <= ars[j] <= max
            },
    decreases ars.len(),
{
    if ars.len() > 0 {
        lemma_kept_entries(ars.drop_last(), min, max);
        let k0 = kept_indices(ars.drop_last(), min, max);
        assert forall|t: int| 0 <= t < kept_indices(ars, min, max).len() implies {
            let j = #[trigger] kept_indices(ars, min, max)[t];
            0 <= j < ars.len() && min <= ars[j] <= max
        } by {
            if t < k0.len() {
                assert(kept_indices(ars, min, max)[t] == k0[t]);
                assert(ars.drop_last()[k0[t]] == ars[k0[t]]);
            }
        }
    }
}

/// Every entry whose arity lies in the band has a kept index.
pub proof fn lemma_kept_contains(ars: Seq<usize>, min: usize, max: usize, i: int)
    requires
        0 <= i < ars.len(),
        min <= ars[i] <= max,
    ensures
        exists|t: int|
            0 <= t < kept_indices(ars, min, max).len() && #[trigger] kept_indices(
                ars,
                min,
                max,
            )[t] == i,
    decreases ars.len(),
{
    let k = kept_indices(ars, min, max);
    let k0 = kept_indices(ars.drop_last(), min, max);
    if i == ars.len() - 1 {
        assert(k[k.len() - 1] == i);
    } else {
        assert(ars.drop_last()[i] == ars[i]);
        lemma_kept_contains(ars.drop_last(), min, max, i);
        let t = choose|t: int| 0 <= t < k0.len() && #[trigger] k0[t] == i;
        assert(k[t] == i);
    }
}

/// Each weight is no more than the whole sum.
pub proof fn lemma_sum_wts_element(ws: Seq<u64>, t: int)
    requires
        0 <= t < ws.len(),
    ensures
        sum_wts(ws) >= ws[t],
    decreases ws.len(),
{
    if t == ws.len() - 1 {
        lemma_sum_wts_nonneg(ws.drop_last());
    } else {
        lemma_sum_wts_element(ws.drop_last(), t);
        assert(ws.drop_last()[t] == ws[t]);
    }
}

/// The kept entries' weights sum to no more than the whole.
pub proof fn lemma_kept_sum(ars: Seq<usize>, ws: Seq<u64>, min: usize, max: usize)
    requires
        ars.len() == ws.len(),
    ensures
        sum_wts(kept_indices(ars, min, max).map_values(|j: int| ws[j])) <= sum_wts(ws),
    decreases ars.len(),
{
    let k = kept_indices(ars, min, max);
    let picked = k.map_values(|j: int| ws[j]);
    if ars.len() == 0 {
        assert(k =~= Seq::<int>::empty());
        assert(picked =~= Seq::<u64>::empty());
    } else {
        let ars0 = ars.drop_last();
        let ws0 = ws.drop_last();
        lemma_kept_sum(ars0, ws0, min, max);
        lemma_kept_entries(ars0, min, max);
        let k0 = kept_indices(ars0, min, max);
        let picked00 = k0.map_values(|j: int| ws0[j]);
        let picked0 = k0.map_values(|j: int| ws[j]);
        assert(picked0 =~= picked00) by {
            assert forall|t: int| 0 <= t < k0.len() implies picked0[t] == picked00[t] by {
                assert(0 <= k0[t] < ars0.len());
                assert(ws0[k0[t]] == ws[k0[t]]);
            }
        }
        if min <= ars.last() <= max {
            assert(k =~= k0 + seq![ars.len() - 1]);
            assert(picked =~= picked0.push(ws.last()));
            assert(picked.drop_last() =~= picked0);
            assert(sum_wts(picked) == sum_wts(picked0) + ws.last());
            assert(sum_wts(ws) == sum_wts(ws0) + ws.last());
        } else {
            assert(k =~= k0);
            assert(picked =~= picked0);
            assert(sum_wts(ws) == sum_wts(ws0) + ws.last());
        }
    }
}

} // verus!
