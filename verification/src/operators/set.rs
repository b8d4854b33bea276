//! Operator sets: node kinds, functors and the assembled catalog.
use vstd::prelude::*;

use crate::common::types::{OperatorMap, VectorFunction};
use crate::operators::sampler::{sum_wts, OperatorSampler};
use crate::rng::rand_below;
use crate::PROB_SCALE;

verus! {

/// The label a node kind writes into an arena.
pub open spec fn node_name(n: NodeType) -> Seq<char> {
    match n {
        NodeType::Function(s, _) => s@,
        NodeType::Variable(s) => s@,
        NodeType::Constant(s) => s@,
    }
}

/// The arity a node kind declares; terminals take none.
pub open spec fn node_arity(n: NodeType) -> usize {
    match n {
        NodeType::Function(_, a) => a,
        _ => 0,
    }
}

/// A node kind of a program tree: a named function with an arity, a named
/// input feature, or a constant carried by its label.
#[derive(Clone, Debug)]
pub enum NodeType {
    /// Function with name and arity.
    Function(String, usize),
    /// Named variable, an input feature.
    Variable(String),
    /// Constant value, carried as the label it writes into the arena.
    Constant(String),
}

impl NodeType {
    /// How many child nodes the kind requires; terminals take none.
    pub fn arity(&self) -> (r: usize)
        ensures
            r == node_arity(*self),
    {
        match self {
            NodeType::Function(_, arity) => *arity,
            NodeType::Variable(_) => 0,
            NodeType::Constant(_) => 0,
        }
    }

    /// The label the kind writes into an arena.
    pub fn name(&self) -> (r: String)
        ensures
            r@ == node_name(*self),
    {
        match self {
            NodeType::Function(name, _) => name.clone(),
            NodeType::Variable(name) => name.clone(),
            NodeType::Constant(name) => name.clone(),
        }
    }
}

/// An operator's implementation with its metadata.
#[derive(Clone, Debug)]
pub struct Functor {
    func: VectorFunction,
    arity: usize,
    weight: u64,
}

impl Functor {
    pub closed spec fn arity_spec(&self) -> usize {
        self.arity
    }

    pub closed spec fn weight_spec(&self) -> u64 {
        self.weight
    }

    pub closed spec fn func_spec(&self) -> VectorFunction {
        self.func
    }

    pub fn new(func: VectorFunction, arity: usize, weight: u64) -> (r: Self)
        ensures
            r.arity_spec() == arity,
            r.weight_spec() == weight,
            r.func_spec() == func,
    {
        Self { func, arity, weight }
    }

    pub fn arity(&self) -> (r: usize)
        ensures
            r == self.arity_spec(),
    {
        self.arity
    }

    pub fn weight(&self) -> (r: u64)
        ensures
            r == self.weight_spec(),
    {
        self.weight
    }

    pub fn func(&self) -> (r: &VectorFunction)
        ensures
            *r == self.func_spec(),
    {
        &self.func
    }
}

/// The assembled catalog: named functions, terminal nodes, and one sampler
/// for each of the two sets.
pub struct Operators {
    functions: Vec<(String, Functor)>,
    terminals: Vec<NodeType>,
    function_sampler: OperatorSampler,
    terminal_sampler: OperatorSampler,
}

impl Operators {
    /// The function sampler.
    pub closed spec fn function_sampler_spec(&self) -> OperatorSampler {
        self.function_sampler
    }

    /// The terminal sampler.
    pub closed spec fn terminal_sampler_spec(&self) -> OperatorSampler {
        self.terminal_sampler
    }

    /// How many terminal nodes the catalog holds.
    pub closed spec fn terminals_len(&self) -> nat {
        self.terminals@.len()
    }

    /// The registered function names.
    pub closed spec fn functions_names(&self) -> Seq<Seq<char>> {
        self.functions@.map_values(|p: (String, Functor)| p.0@)
    }

    /// The registered function arities.
    pub closed spec fn functions_arities(&self) -> Seq<usize> {
        self.functions@.map_values(|p: (String, Functor)| p.1.arity_spec())
    }

    /// The registered terminal nodes.
    pub closed spec fn terminals_seq(&self) -> Seq<NodeType> {
        self.terminals@
    }

    pub fn new(
        functions: Vec<(String, Functor)>,
        terminals: Vec<NodeType>,
        function_sampler: OperatorSampler,
        terminal_sampler: OperatorSampler,
    ) -> (r: Self)
        ensures
            r.function_sampler_spec() == function_sampler,
            r.terminal_sampler_spec() == terminal_sampler,
            r.terminals_len() == terminals@.len(),
            r.functions_names() == functions@.map_values(|p: (String, Functor)| p.0@),
            r.functions_arities() == functions@.map_values(
                |p: (String, Functor)| p.1.arity_spec(),
            ),
            r.terminals_seq() == terminals@,
    {
        Self { functions, terminals, function_sampler, terminal_sampler }
    }

    pub fn functions(&self) -> &Vec<(String, Functor)> {
        &self.functions
    }

    pub fn terminals(&self) -> &Vec<NodeType> {
        &self.terminals
    }

    pub fn function_sampler(&self) -> (r: &OperatorSampler)
        ensures
            *r == self.function_sampler_spec(),
    {
        &self.function_sampler
    }

    pub fn terminal_sampler(&self) -> (r: &OperatorSampler)
        ensures
            *r == self.terminal_sampler_spec(),
    {
        &self.terminal_sampler
    }

    pub fn functions_mut(&mut self) -> &mut Vec<(String, Functor)> {
        &mut self.functions
    }

    pub fn terminals_mut(&mut self) -> &mut Vec<NodeType> {
        &mut self.terminals
    }

    pub fn function_sampler_mut(&mut self) -> &mut OperatorSampler {
        &mut self.function_sampler
    }

    pub fn terminal_sampler_mut(&mut self) -> &mut OperatorSampler {
        &mut self.terminal_sampler
    }

    /// Returns the functor registered under `name`, when one is.
    pub fn get_operator(&self, name: &String) -> Option<&Functor> {
        let mut i: usize = 0;
        while i < self.functions.len()
            invariant
                i <= self.functions@.len(),
            decreases self.functions@.len() - i,
        {
            if self.functions[i].0 == *name {
                return Some(&self.functions[i].1);
            }
            i = i + 1;
        }
        None
    }

    /// The name-to-function map the evaluator consumes: every function
    /// under its name and with its arity, every variable as its feature
    /// column, every constant as a broadcast of its label.
    pub fn create_map(&self) -> (r: OperatorMap)
        ensures
            r.wf(),
            r.names_view() == self.functions_names() + self.terminals_seq().map_values(
                |n: NodeType| node_name(n),
            ),
            r.ars_view() == self.functions_arities() + self.terminals_seq().map_values(
                |n: NodeType| node_arity(n),
            ),
    {
        let mut map = OperatorMap::new();
        let mut i: usize = 0;
        proof {
            assert(map.names_view() =~= self.functions_names().take(0));
            assert(map.ars_view() =~= self.functions_arities().take(0));
        }
        while i < self.functions.len()
            invariant
                map.wf(),
                i <= self.functions@.len(),
                map.names_view() =~= self.functions_names().take(i as int),
                map.ars_view() =~= self.functions_arities().take(i as int),
            decreases self.functions@.len() - i,
        {
            let name = self.functions[i].0.clone();
            let functor = &self.functions[i].1;
            map.insert(name, functor.arity(), functor.func().clone());
            i = i + 1;
            proof {
                assert(map.names_view() =~= self.functions_names().take(i as int));
                assert(map.ars_view() =~= self.functions_arities().take(i as int));
            }
        }
        proof {
            assert(self.functions_names().take(self.functions@.len() as int)
                =~= self.functions_names());
            assert(self.functions_arities().take(self.functions@.len() as int)
                =~= self.functions_arities());
        }
        let mut feature_index: usize = 0;
        let mut j: usize = 0;
        while j < self.terminals.len()
            invariant
                map.wf(),
                j <= self.terminals@.len(),
                feature_index <= j,
                map.names_view() =~= self.functions_names() + self.terminals_seq().map_values(
                    |n: NodeType| node_name(n),
                ).take(j as int),
                map.ars_view() =~= self.functions_arities() + self.terminals_seq().map_values(
                    |n: NodeType| node_arity(n),
                ).take(j as int),
            decreases self.terminals@.len() - j,
        {
            match &self.terminals[j] {
                NodeType::Function(name, arity) => {
                    // function kinds among the terminals keep their arity
                    map.insert(name.clone(), *arity, VectorFunction::Constant(name.clone()));
                },
                NodeType::Variable(name) => {
                    map.insert(name.clone(), 0, VectorFunction::Feature(feature_index));
                    feature_index = feature_index + 1;
                },
                NodeType::Constant(label) => {
                    map.insert(label.clone(), 0, VectorFunction::Constant(label.clone()));
                },
            }
            j = j + 1;
            proof {
                let names = self.terminals_seq().map_values(|n: NodeType| node_name(n));
                let ars = self.terminals_seq().map_values(|n: NodeType| node_arity(n));
                assert(self.functions_names() + names.take(j as int) =~= (self.functions_names()
                    + names.take(j - 1)).push(names[j - 1]));
                assert(self.functions_arities() + ars.take(j as int) =~= (self.functions_arities()
                    + ars.take(j - 1)).push(ars[j - 1]));
                assert(map.names_view() =~= self.functions_names() + names.take(j as int));
                assert(map.ars_view() =~= self.functions_arities() + ars.take(j as int));
            }
        }
        proof {
            let names = self.terminals_seq().map_values(|n: NodeType| node_name(n));
            let ars = self.terminals_seq().map_values(|n: NodeType| node_arity(n));
            assert(names.take(names.len() as int) =~= names);
            assert(ars.take(ars.len() as int) =~= ars);
        }
        map
    }

    /// Draws a function node.
    pub fn sample_function<R: rand::Rng>(&self, rng: &mut R) -> (r: NodeType)
        requires
            self.function_sampler_spec().wf(),
            0 < sum_wts(self.function_sampler_spec().wts()) <= u64::MAX,
    {
        let pair = self.function_sampler.sample(rng);
        NodeType::Function(pair.0, pair.1)
    }

    /// Draws a terminal node.
    pub fn sample_terminal<R: rand::Rng>(&self, rng: &mut R) -> (r: NodeType)
        requires
            self.terminal_sampler_spec().wf(),
            0 < sum_wts(self.terminal_sampler_spec().wts()) <= u64::MAX,
            self.terminal_sampler_spec().wts().len() <= self.terminals_len(),
    {
        let idx = self.terminal_sampler.sample_index(rng);
        self.terminals[idx].clone()
    }

    /// Draws a node: a function when asked for one, else a function with
    /// seven-tenths probability and a terminal otherwise.
    pub fn sample_node<R: rand::Rng>(&self, rng: &mut R, function_only: bool) -> (r: NodeType)
        requires
            self.function_sampler_spec().wf(),
            0 < sum_wts(self.function_sampler_spec().wts()) <= u64::MAX,
            self.terminal_sampler_spec().wf(),
            0 < sum_wts(self.terminal_sampler_spec().wts()) <= u64::MAX,
            self.terminal_sampler_spec().wts().len() <= self.terminals_len(),
    {
        let draw = rand_below(rng, PROB_SCALE);
        if function_only || draw < 7 * (PROB_SCALE / 10) {
            self.sample_function(rng)
        } else {
            self.sample_terminal(rng)
        }
    }

    /// One sampler over the whole catalog, functions first, then
    /// terminals, with the weights both samplers carry.
    pub fn sampler(&self) -> (r: OperatorSampler)
        requires
            self.function_sampler_spec().wf(),
            self.terminal_sampler_spec().wf(),
        ensures
            r.wf(),
            r.ops() == self.function_sampler_spec().ops() + self.terminal_sampler_spec().ops(),
            r.ars() == self.function_sampler_spec().ars() + self.terminal_sampler_spec().ars(),
            r.wts() == self.function_sampler_spec().wts() + self.terminal_sampler_spec().wts(),
    {
        let mut ops: Vec<String> = Vec::new();
        let mut arities: Vec<usize> = Vec::new();
        let mut weights: Vec<u64> = Vec::new();
        let fo = self.function_sampler.operators();
        let fa = self.function_sampler.arities();
        let fw = self.function_sampler.weights();
        proof {
            self.function_sampler.lemma_wf_lens();
            assert(crate::tree::encoding::labels_of(fo@).len() == fo@.len());
        }
        let mut i: usize = 0;
        while i < fo.len()
            invariant
                fo@.len() == fa@.len(),
                fo@.len() == fw@.len(),
                i <= fo@.len(),
                ops@.len() == i,
                arities@.len() == i,
                weights@.len() == i,
                crate::tree::encoding::labels_of(ops@) =~= self.function_sampler_spec().ops().take(
                    i as int,
                ),
                arities@ =~= self.function_sampler_spec().ars().take(i as int),
                weights@ =~= self.function_sampler_spec().wts().take(i as int),
                crate::tree::encoding::labels_of(fo@) == self.function_sampler_spec().ops(),
                fa@ == self.function_sampler_spec().ars(),
                fw@ == self.function_sampler_spec().wts(),
            decreases fo@.len() - i,
        {
            ops.push(fo[i].clone());
            arities.push(fa[i]);
            weights.push(fw[i]);
            i = i + 1;
            proof {
                assert(crate::tree::encoding::labels_of(ops@) =~= self.function_sampler_spec()
                    .ops().take(i as int));
                assert(arities@ =~= self.function_sampler_spec().ars().take(i as int));
                assert(weights@ =~= self.function_sampler_spec().wts().take(i as int));
            }
        }
        proof {
            let fs = self.function_sampler_spec();
            assert(fs.ops().take(fs.ops().len() as int) =~= fs.ops());
            assert(fs.ars().take(fs.ars().len() as int) =~= fs.ars());
            assert(fs.wts().take(fs.wts().len() as int) =~= fs.wts());
        }
        let to = self.terminal_sampler.operators();
        let ta = self.terminal_sampler.arities();
        let tw = self.terminal_sampler.weights();
        proof {
            self.terminal_sampler.lemma_wf_lens();
            assert(crate::tree::encoding::labels_of(to@).len() == to@.len());
        }
        let mut j: usize = 0;
        while j < to.len()
            invariant
                to@.len() == ta@.len(),
                to@.len() == tw@.len(),
                j <= to@.len(),
                ops@.len() == i + j,
                arities@.len() == i + j,
                weights@.len() == i + j,
                crate::tree::encoding::labels_of(ops@) =~= self.function_sampler_spec().ops()
                    + self.terminal_sampler_spec().ops().take(j as int),
                arities@ =~= self.function_sampler_spec().ars()
                    + self.terminal_sampler_spec().ars().take(j as int),
                weights@ =~= self.function_sampler_spec().wts()
                    + self.terminal_sampler_spec().wts().take(j as int),
                crate::tree::encoding::labels_of(to@) == self.terminal_sampler_spec().ops(),
                ta@ == self.terminal_sampler_spec().ars(),
                tw@ == self.terminal_sampler_spec().wts(),
            decreases to@.len() - j,
        {
            ops.push(to[j].clone());
            arities.push(ta[j]);
            weights.push(tw[j]);
            j = j + 1;
            proof {
                let fs = self.function_sampler_spec();
                let ts = self.terminal_sampler_spec();
                let labels = crate::tree::encoding::labels_of(ops@);
                assert(labels.drop_last() =~= fs.ops() + ts.ops().take(j - 1));
                assert(labels.last() == to@[j - 1]@);
                assert(to@[j - 1]@ == crate::tree::encoding::labels_of(to@)[j - 1]);
                assert(fs.ops() + ts.ops().take(j as int) =~= (fs.ops() + ts.ops().take(j - 1))
                    .push(ts.ops()[j - 1]));
                assert(labels =~= labels.drop_last().push(labels.last()));
                assert(labels =~= fs.ops() + ts.ops().take(j as int));
                assert(arities@ =~= fs.ars() + ts.ars().take(j as int));
                assert(weights@ =~= fs.wts() + ts.wts().take(j as int));
            }
        }
        proof {
            let ts = self.terminal_sampler_spec();
            assert(ts.ops().take(ts.ops().len() as int) =~= ts.ops());
            assert(ts.ars().take(ts.ars().len() as int) =~= ts.ars());
            assert(ts.wts().take(ts.wts().len() as int) =~= ts.wts());
        }
        let r = OperatorSampler::new(ops, arities, weights);
        proof {
            assert(r.ops() =~= self.function_sampler_spec().ops()
                + self.terminal_sampler_spec().ops());
        }
        r
    }
}

} // verus!
