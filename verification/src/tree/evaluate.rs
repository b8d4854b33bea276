//! Batch fitness evaluation.
//!
//! One reverse pass over the arena with an explicit stack of value vectors:
//! a terminal pushes the vector it denotes over the whole dataset, an
//! operator of arity `k` pops its `k` operand vectors and pushes one result
//! vector. On a well-formed tree exactly one vector remains — the tree's
//! prediction for every sample — and the error metrics reduce it against
//! the target column.
use vstd::prelude::*;

use crate::common::types::{apply, OperatorMap, VectorFunction};
use crate::dataset::data::Dataset;
use crate::operators::functions::Float;
use crate::tree::encoding::{arity_seq, find_op, lemma_find_op, lemma_walk_char, pend, psum, valid};
use crate::tree::genotype::TreeGenotype;

verus! {

/// The evaluator can walk the tree: under the map's arities the arena is a
/// complete tree, and every label stands in the map.
pub open spec fn eval_ready(map: &OperatorMap, labels: Seq<Seq<char>>) -> bool {
    &&& valid(arity_seq(map.names_view(), map.ars_view(), labels))
    &&& forall|i: int|
        0 <= i < labels.len() ==> find_op(map.names_view(), #[trigger] labels[i]) >= 0
}

/// Every column of the dataset holds exactly `n` values.
pub open spec fn columns_len<T>(data: Seq<Vec<T>>, n: int) -> bool {
    forall|j: int| 0 <= j < data.len() ==> (#[trigger] data[j])@.len() == n
}

/// The node function delivers a full column whenever the walk calls it at
/// this arity: a binary primitive at arity two, a unary one at arity one,
/// or a feature column the dataset holds. A constant label gives no such
/// promise: whether it reads as a scalar is the scalar type's affair.
pub open spec fn func_total(func: VectorFunction, a: nat, ncols: int) -> bool {
    match func {
        VectorFunction::Add | VectorFunction::Sub | VectorFunction::Mul
            | VectorFunction::Div => a == 2,
        VectorFunction::Sin | VectorFunction::Cos | VectorFunction::Ln => a == 1,
        VectorFunction::Feature(ix) => a == 0 && (ix as int) < ncols,
        VectorFunction::Constant(_) => false,
    }
}

/// Every label of the arena resolves to a node function that delivers a
/// full column over a dataset of `ncols` feature columns.
pub open spec fn map_total(map: &OperatorMap, labels: Seq<Seq<char>>, ncols: int) -> bool {
    forall|i: int|
        0 <= i < labels.len() ==> {
            let f = find_op(map.names_view(), #[trigger] labels[i]);
            &&& 0 <= f < map.funcs_view().len()
            &&& f < map.ars_view().len()
            &&& func_total(map.funcs_view()[f], map.ars_view()[f] as nat, ncols)
        }
}

/// Walks the arena once, in reverse, and leaves exactly one more vector on
/// the stack: whatever stood on the stack before stays untouched under it,
/// and, over a dataset of equal-length columns whose every label resolves
/// to a full-column function, the new vector holds one value per sample.
#[verifier::loop_isolation(false)]
pub fn common_evaluate<T: Float>(
    stack: &mut Vec<Vec<T>>,
    tree: &TreeGenotype,
    dataset: &Vec<Vec<T>>,
    map: &OperatorMap,
)
    requires
        map.wf(),
        eval_ready(map, tree.labels()),
    ensures
        final(stack)@.len() == old(stack)@.len() + 1,
        final(stack)@.take(old(stack)@.len() as int) == old(stack)@,
        (dataset@.len() > 0 && columns_len(dataset@, dataset@[0]@.len() as int) && map_total(
            map,
            tree.labels(),
            dataset@.len() as int,
        )) ==> final(stack)@.last()@.len() == dataset@[0]@.len(),
{
    let ghost old_len = old(stack)@.len() as int;
    let ghost ncols = dataset@.len() as int;
    let ghost n: int = if dataset@.len() > 0 {
        dataset@[0]@.len() as int
    } else {
        0
    };
    let ghost hyp: bool = dataset@.len() > 0 && columns_len(dataset@, n) && map_total(
        map,
        tree.labels(),
        ncols,
    );
    let ghost ar = arity_seq(map.names_view(), map.ars_view(), tree.labels());
    let src = tree.arena();
    let len = src.len();
    proof {
        assert(crate::tree::encoding::labels_of(src@).len() == src@.len());
        assert(ar.len() == len);
        lemma_walk_char(ar, 0, 1);
        assert(pend(ar, 0, 1, len as int) == 0);
        assert(stack@.take(old_len) =~= old(stack)@);
    }
    let mut i: usize = len;
    while i > 0
        invariant
            i <= len,
            stack@.len() == old(stack)@.len() + pend(ar, 0, 1, i as int),
            stack@.take(old_len) =~= old(stack)@,
            hyp ==> forall|t: int|
                old_len <= t < stack@.len() ==> (#[trigger] stack@[t])@.len() == n,
        decreases i,
    {
        i = i - 1;
        let label = &src[i];
        proof {
            assert(tree.labels()[i as int] == src@[i as int]@);
            lemma_find_op(map.names_view(), label@);
            map.lemma_wf_lens();
        }
        match map.get(label) {
            Some(pair) => {
                let a = pair.0;
                proof {
                    assert(a == ar[i as int]);
                    assert(pend(ar, 0, 1, i as int) > 0);
                    assert(pend(ar, 0, 1, i + 1) == pend(ar, 0, 1, i as int) - 1 + ar[i as int]);
                    if hyp {
                        let f = find_op(map.names_view(), tree.labels()[i as int]);
                        assert(func_total(map.funcs_view()[f], map.ars_view()[f] as nat, ncols));
                        assert(*pair.1 == map.funcs_view()[f]);
                        assert(a == map.ars_view()[f]);
                    }
                }
                let result: Vec<T>;
                if a == 0 {
                    let mut refs: Vec<&[T]> = Vec::new();
                    let mut j: usize = 0;
                    while j < dataset.len()
                        invariant
                            j <= dataset@.len(),
                            refs@.len() == j,
                            forall|t: int| 0 <= t < j ==> (#[trigger] refs@[t])@ == dataset@[t]@,
                        decreases dataset@.len() - j,
                    {
                        refs.push(dataset[j].as_slice());
                        j = j + 1;
                    }
                    result = apply(pair.1, refs.as_slice());
                    proof {
                        if hyp {
                            assert(refs@.len() == ncols);
                            assert(result@.len() == n);
                        }
                    }
                } else {
                    let mut operands: Vec<Vec<T>> = Vec::new();
                    let mut k: usize = 0;
                    while k < a
                        invariant
                            k <= a,
                            a == ar[i as int],
                            operands@.len() == k,
                            stack@.len() == old(stack)@.len() + pend(ar, 0, 1, i + 1) - k,
                            stack@.take(old_len) =~= old(stack)@,
                            hyp ==> forall|t: int|
                                old_len <= t < stack@.len() ==> (#[trigger] stack@[t])@.len() == n,
                            hyp ==> forall|t: int|
                                0 <= t < operands@.len() ==> (#[trigger] operands@[t])@.len() == n,
                        decreases a - k,
                    {
                        proof {
                            assert(pend(ar, 0, 1, i + 1) - k > 0);
                        }
                        let ghost prev = stack@;
                        let operand = stack.pop().unwrap();
                        operands.push(operand);
                        k = k + 1;
                        proof {
                            assert(stack@ =~= prev.drop_last());
                            assert(stack@.take(old_len) =~= prev.take(old_len));
                        }
                    }
                    let mut refs: Vec<&[T]> = Vec::new();
                    let mut j: usize = 0;
                    while j < operands.len()
                        invariant
                            j <= operands@.len(),
                            refs@.len() == j,
                            forall|t: int| 0 <= t < j ==> (#[trigger] refs@[t])@ == operands@[t]@,
                        decreases operands@.len() - j,
                    {
                        refs.push(operands[j].as_slice());
                        j = j + 1;
                    }
                    result = apply(pair.1, refs.as_slice());
                    proof {
                        if hyp {
                            assert(refs@.len() == a);
                            assert(result@.len() == n);
                        }
                    }
                }
                let ghost before_push = stack@;
                stack.push(result);
                proof {
                    assert(stack@.take(old_len) =~= before_push.take(old_len));
                }
            },
            None => {
                proof {
                    assert(find_op(map.names_view(), tree.labels()[i as int]) >= 0);
                    assert(false);
                }
            },
        }
    }
    proof {
        assert(pend(ar, 0, 1, 0) == 1);
        assert(stack@.last() == stack@[old_len]);
    }
}

/// Sum of squared errors between a prediction vector and the target.
fn squared_error_sum<T: Float>(predictions: &Vec<T>, target: &Vec<T>) -> T {
    let n = if predictions.len() <= target.len() {
        predictions.len()
    } else {
        target.len()
    };
    let mut acc = T::zero();
    let mut j: usize = 0;
    while j < n
        invariant
            n <= predictions@.len(),
            n <= target@.len(),
            j <= n,
        decreases n - j,
    {
        let diff = predictions[j].sub(target[j]);
        acc = acc.add(diff.mul(diff));
        j = j + 1;
    }
    acc
}

/// Sum-of-squared-errors fitness.
pub struct SSE {}

impl SSE {
    pub fn new() -> Self {
        Self {  }
    }

    /// Walks the tree once and sums the squared differences between the
    /// prediction vector and the target column.
    pub fn evaluate<T: Float>(
        &self,
        tree: &TreeGenotype,
        dataset: &Dataset<T>,
        map: &OperatorMap,
    ) -> T
        requires
            map.wf(),
            eval_ready(map, tree.labels()),
            dataset.wf(),
    {
        let mut stack: Vec<Vec<T>> = Vec::new();
        let parts = dataset.data();
        common_evaluate(&mut stack, tree, parts.0, map);
        let predictions = stack.pop().unwrap();
        squared_error_sum(&predictions, parts.1)
    }

    /// Returns the cached fitness of a structurally identical tree when the
    /// cache holds one, and evaluates afresh otherwise.
    pub fn memoized_evaluate<T: Float>(
        &self,
        tree: &TreeGenotype,
        dataset: &Dataset<T>,
        map: &OperatorMap,
        cache: &Vec<(TreeGenotype, T)>,
    ) -> (r: T)
        requires
            map.wf(),
            eval_ready(map, tree.labels()),
            dataset.wf(),
        ensures
            (exists|i: int| 0 <= i < cache@.len() && cache@[i].0.labels() == tree.labels())
                ==> exists|i: int|
                0 <= i < cache@.len() && cache@[i].0.labels() == tree.labels() && r == cache@[i].1,
    {
        match cache_lookup(tree, cache) {
            Some(v) => v,
            None => self.evaluate(tree, dataset, map),
        }
    }
}

/// Mean-squared-error fitness.
pub struct MSE {}

impl MSE {
    pub fn new() -> Self {
        Self {  }
    }

    /// Walks the tree once and averages the squared differences between
    /// the prediction vector and the target column.
    pub fn evaluate<T: Float>(
        &self,
        tree: &TreeGenotype,
        dataset: &Dataset<T>,
        map: &OperatorMap,
    ) -> T
        requires
            map.wf(),
            eval_ready(map, tree.labels()),
            dataset.wf(),
    {
        let mut stack: Vec<Vec<T>> = Vec::new();
        let parts = dataset.data();
        common_evaluate(&mut stack, tree, parts.0, map);
        let predictions = stack.pop().unwrap();
        let total = squared_error_sum(&predictions, parts.1);
        total.div(T::ratio(parts.1.len() as u64, 1))
    }

    /// Returns the cached fitness of a structurally identical tree when the
    /// cache holds one, and evaluates afresh otherwise.
    pub fn memoized_evaluate<T: Float>(
        &self,
        tree: &TreeGenotype,
        dataset: &Dataset<T>,
        map: &OperatorMap,
        cache: &Vec<(TreeGenotype, T)>,
    ) -> (r: T)
        requires
            map.wf(),
            eval_ready(map, tree.labels()),
            dataset.wf(),
        ensures
            (exists|i: int| 0 <= i < cache@.len() && cache@[i].0.labels() == tree.labels())
                ==> exists|i: int|
                0 <= i < cache@.len() && cache@[i].0.labels() == tree.labels() && r == cache@[i].1,
    {
        match cache_lookup(tree, cache) {
            Some(v) => v,
            None => self.evaluate(tree, dataset, map),
        }
    }
}

/// Root-mean-squared-error fitness.
pub struct RMSE {}

impl RMSE {
    pub fn new() -> Self {
        Self {  }
    }

    /// Walks the tree once and takes the square root of the mean squared
    /// difference between the prediction vector and the target column.
    pub fn evaluate<T: Float>(
        &self,
        tree: &TreeGenotype,
        dataset: &Dataset<T>,
        map: &OperatorMap,
    ) -> T
        requires
            map.wf(),
            eval_ready(map, tree.labels()),
            dataset.wf(),
    {
        let mut stack: Vec<Vec<T>> = Vec::new();
        let parts = dataset.data();
        common_evaluate(&mut stack, tree, parts.0, map);
        let predictions = stack.pop().unwrap();
        let total = squared_error_sum(&predictions, parts.1);
        total.div(T::ratio(parts.1.len() as u64, 1)).sqrt()
    }

    /// Returns the cached fitness of a structurally identical tree when the
    /// cache holds one, and evaluates afresh otherwise.
    pub fn memoized_evaluate<T: Float>(
        &self,
        tree: &TreeGenotype,
        dataset: &Dataset<T>,
        map: &OperatorMap,
        cache: &Vec<(TreeGenotype, T)>,
    ) -> (r: T)
        requires
            map.wf(),
            eval_ready(map, tree.labels()),
            dataset.wf(),
        ensures
            (exists|i: int| 0 <= i < cache@.len() && cache@[i].0.labels() == tree.labels())
                ==> exists|i: int|
                0 <= i < cache@.len() && cache@[i].0.labels() == tree.labels() && r == cache@[i].1,
    {
        match cache_lookup(tree, cache) {
            Some(v) => v,
            None => self.evaluate(tree, dataset, map),
        }
    }
}

/// First cache entry whose tree has the same arena, by structural identity.
fn cache_lookup<T: Float>(tree: &TreeGenotype, cache: &Vec<(TreeGenotype, T)>) -> (r: Option<T>)
    ensures
        match r {
            Some(v) => exists|i: int|
                0 <= i < cache@.len() && cache@[i].0.labels() == tree.labels() && v == cache@[i].1,
            None => forall|i: int|
                0 <= i < cache@.len() ==> cache@[i].0.labels() != tree.labels(),
        },
{
    let mut i: usize = 0;
    while i < cache.len()
        invariant
            i <= cache@.len(),
            forall|k: int| 0 <= k < i ==> cache@[k].0.labels() != tree.labels(),
        decreases cache@.len() - i,
    {
        if cache[i].0 == *tree {
            return Some(cache[i].1);
        }
        i = i + 1;
    }
    None
}

impl Default for SSE {
    fn default() -> Self {
        Self::new()
    }
}

impl Default for MSE {
    fn default() -> Self {
        Self::new()
    }
}

impl Default for RMSE {
    fn default() -> Self {
        Self::new()
    }
}

} // verus!
