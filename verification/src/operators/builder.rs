//! Validating builder for operator sets.
//!
//! Weights live on the [`crate::PROB_SCALE`] fixed-point scale; a weight
//! outside the unit interval, a duplicated name, an empty function or
//! terminal set, or a weight sum off the scale by more than the tolerance
//! is rejected eagerly, at build time.
use vstd::prelude::*;

use crate::common::types::VectorFunction;
use crate::operators::sampler::{lemma_sum_wts_prefix, sum_wts, OperatorSampler};
use crate::operators::set::{Functor, NodeType, Operators};
use crate::{PROB_SCALE, WEIGHT_TOLERANCE};

verus! {

/// Rejected catalog configurations.
#[derive(Debug, PartialEq, Eq, Structural)]
pub enum BuilderError {
    /// A weight outside the half-open unit interval.
    IncorrectWeight,
    /// An operator name registered twice.
    KeyExists,
    /// No function, or no terminal, was added.
    OperatorsIsEmpty,
    /// A weight sum farther from one than the tolerance.
    WrongWeightSum,
}

/// A sum counts as a distribution when it sits within the tolerance of the
/// scale.
pub open spec fn weight_sum_ok(sum: int) -> bool {
    PROB_SCALE - WEIGHT_TOLERANCE <= sum <= PROB_SCALE + WEIGHT_TOLERANCE
}

/// Builder that accumulates functions and terminals and validates the
/// whole at build time.
pub struct OperatorsBuilder {
    functions: Vec<(String, Functor)>,
    terminals: Vec<NodeType>,
    terminal_weights: Vec<u64>,
}

impl OperatorsBuilder {
    /// The registered function names.
    pub closed spec fn fn_names(&self) -> Seq<Seq<char>> {
        self.functions@.map_values(|p: (String, Functor)| p.0@)
    }

    /// The registered function weights.
    pub closed spec fn fn_weights(&self) -> Seq<u64> {
        self.functions@.map_values(|p: (String, Functor)| p.1.weight_spec())
    }

    /// The registered function arities.
    pub closed spec fn fn_arities(&self) -> Seq<usize> {
        self.functions@.map_values(|p: (String, Functor)| p.1.arity_spec())
    }

    /// The registered function implementations.
    pub closed spec fn fn_funcs(&self) -> Seq<VectorFunction> {
        self.functions@.map_values(|p: (String, Functor)| p.1.func_spec())
    }

    /// The labels the registered terminals write into arenas.
    pub closed spec fn term_names(&self) -> Seq<Seq<char>> {
        self.terminals@.map_values(|n: NodeType| crate::operators::set::node_name(n))
    }

    /// The registered terminal nodes.
    pub closed spec fn terminals_seq(&self) -> Seq<NodeType> {
        self.terminals@
    }

    /// The registered terminal weights.
    pub closed spec fn term_weights(&self) -> Seq<u64> {
        self.terminal_weights@
    }

    /// How many terminals stand registered.
    pub closed spec fn terminals_len(&self) -> nat {
        self.terminals@.len()
    }

    /// The terminal list and its weights run in parallel.
    pub closed spec fn wf(&self) -> bool {
        self.terminals@.len() == self.terminal_weights@.len()
    }

    pub fn new(
        functions: Vec<(String, Functor)>,
        terminals: Vec<NodeType>,
        terminal_weights: Vec<u64>,
    ) -> (r: Self)
        requires
            terminals@.len() == terminal_weights@.len(),
        ensures
            r.wf(),
            r.fn_names() == functions@.map_values(|p: (String, Functor)| p.0@),
            r.term_weights() == terminal_weights@,
    {
        Self { functions, terminals, terminal_weights }
    }

    /// Registers a function operator: rejected when the weight falls
    /// outside the unit interval or the name is already taken, and
    /// accepted otherwise.
    #[verifier::loop_isolation(false)]
    pub fn add_function(self, name: &str, func: VectorFunction, arity: usize, weight: u64) -> (r:
        Result<Self, BuilderError>)
        ensures
            (weight == 0 || weight > PROB_SCALE) ==> (r matches Err(e) && e
                == BuilderError::IncorrectWeight),
            (0 < weight <= PROB_SCALE && exists|i: int|
                0 <= i < self.fn_names().len() && self.fn_names()[i] == name@) ==> (r matches Err(
                e,
            ) && e == BuilderError::KeyExists),
            (0 < weight <= PROB_SCALE && (forall|i: int|
                0 <= i < self.fn_names().len() ==> self.fn_names()[i] != name@)) ==> (r matches Ok(
                b,
            ) && b.wf() == self.wf() && b.fn_names() == self.fn_names().push(name@)
                && b.fn_weights() == self.fn_weights().push(weight) && b.fn_arities()
                == self.fn_arities().push(arity) && b.fn_funcs() == self.fn_funcs().push(func)
                && b.terminals_len() == self.terminals_len() && b.term_weights()
                == self.term_weights() && b.terminals_seq() == self.terminals_seq()),
    {
        if weight == 0 || weight > PROB_SCALE {
            return Err(BuilderError::IncorrectWeight);
        }
        let owned: String = name.to_owned();
        let mut i: usize = 0;
        while i < self.functions.len()
            invariant
                owned@ == name@,
                i <= self.fn_names().len(),
                forall|k: int| 0 <= k < i ==> self.fn_names()[k] != name@,
        decreases self.fn_names().len() - i,
        {
            proof {
                assert(self.fn_names()[i as int] == self.functions@[i as int].0@);
            }
            if self.functions[i].0 == owned {
                return Err(BuilderError::KeyExists);
            }
            i = i + 1;
        }
        let mut functions = self.functions;
        functions.push((owned, Functor::new(func, arity, weight)));
        let r = Self { functions, terminals: self.terminals, terminal_weights: self.terminal_weights };
        proof {
            assert(r.fn_names() =~= self.fn_names().push(name@));
            assert(r.fn_weights() =~= self.fn_weights().push(weight));
            assert(r.fn_arities() =~= self.fn_arities().push(arity));
            assert(r.fn_funcs() =~= self.fn_funcs().push(func));
        }
        Ok(r)
    }

    /// Registers a variable terminal; only a weight outside the unit
    /// interval is rejected.
    pub fn add_variable(self, name: &str, weight: u64) -> (r: Result<Self, BuilderError>)
        requires
            self.wf(),
        ensures
            (weight == 0 || weight > PROB_SCALE) ==> (r matches Err(e) && e
                == BuilderError::IncorrectWeight),
            (0 < weight <= PROB_SCALE) ==> (r matches Ok(b) && b.wf() && b.fn_names()
                == self.fn_names() && b.fn_weights() == self.fn_weights() && b.fn_arities()
                == self.fn_arities() && b.fn_funcs() == self.fn_funcs() && b.terminals_len()
                == self.terminals_len() + 1 && b.term_weights() == self.term_weights().push(
                weight,
            ) && b.term_names() == self.term_names().push(name@)),
    {
        if weight == 0 || weight > PROB_SCALE {
            return Err(BuilderError::IncorrectWeight);
        }
        let mut terminals = self.terminals;
        let mut terminal_weights = self.terminal_weights;
        terminals.push(NodeType::Variable(name.to_owned()));
        terminal_weights.push(weight);
        let b = Self { functions: self.functions, terminals, terminal_weights };
        proof {
            assert(b.term_names() =~= self.term_names().push(name@));
        }
        Ok(b)
    }

    /// Registers a constant terminal, carried by its label; only a weight
    /// outside the unit interval is rejected.
    pub fn add_constant(self, value: &str, weight: u64) -> (r: Result<Self, BuilderError>)
        requires
            self.wf(),
        ensures
            (weight == 0 || weight > PROB_SCALE) ==> (r matches Err(e) && e
                == BuilderError::IncorrectWeight),
            (0 < weight <= PROB_SCALE) ==> (r matches Ok(b) && b.wf() && b.fn_names()
                == self.fn_names() && b.fn_weights() == self.fn_weights() && b.fn_arities()
                == self.fn_arities() && b.fn_funcs() == self.fn_funcs() && b.terminals_len()
                == self.terminals_len() + 1 && b.term_weights() == self.term_weights().push(
                weight,
            ) && b.term_names() == self.term_names().push(value@)),
    {
        if weight == 0 || weight > PROB_SCALE {
            return Err(BuilderError::IncorrectWeight);
        }
        let mut terminals = self.terminals;
        let mut terminal_weights = self.terminal_weights;
        terminals.push(NodeType::Constant(value.to_owned()));
        terminal_weights.push(weight);
        let b = Self { functions: self.functions, terminals, terminal_weights };
        proof {
            assert(b.term_names() =~= self.term_names().push(value@));
        }
        Ok(b)
    }

    /// Validates and assembles the catalog: the function set and terminal
    /// set must both be nonempty and both weight sums must lie within the
    /// tolerance of the scale, checked in that order per set.
    pub fn build(self) -> (r: Result<Operators, BuilderError>)
        requires
            self.wf(),
        ensures
            self.fn_names().len() == 0 ==> (r matches Err(e) && e == BuilderError::OperatorsIsEmpty),
            (self.fn_names().len() > 0 && !weight_sum_ok(sum_wts(self.fn_weights()))) ==> (r
                matches Err(e) && e == BuilderError::WrongWeightSum),
            (self.fn_names().len() > 0 && weight_sum_ok(sum_wts(self.fn_weights()))
                && self.terminals_len() == 0) ==> (r matches Err(e) && e
                == BuilderError::OperatorsIsEmpty),
            (self.fn_names().len() > 0 && weight_sum_ok(sum_wts(self.fn_weights()))
                && self.terminals_len() > 0 && !weight_sum_ok(sum_wts(self.term_weights()))) ==> (
            r matches Err(e) && e == BuilderError::WrongWeightSum),
            (self.fn_names().len() > 0 && weight_sum_ok(sum_wts(self.fn_weights()))
                && self.terminals_len() > 0 && weight_sum_ok(sum_wts(self.term_weights()))) ==> (r
                matches Ok(o) && o.function_sampler_spec().wf() && o.terminal_sampler_spec().wf()
                && o.function_sampler_spec().ops() == self.fn_names()
                && o.function_sampler_spec().ars() == self.fn_arities()
                && o.function_sampler_spec().wts() == self.fn_weights()
                && o.terminal_sampler_spec().ops() == self.term_names()
                && o.terminal_sampler_spec().ars() == Seq::new(self.terminals_len(), |t: int| 0usize)
                && o.terminal_sampler_spec().wts() == self.term_weights()
                && o.functions_names() == self.fn_names() && o.functions_arities()
                == self.fn_arities() && o.terminals_seq() == self.terminals_seq()
                && o.terminals_len() == self.terminals_len()),
    {
        if self.functions.len() == 0 {
            return Err(BuilderError::OperatorsIsEmpty);
        }
        let mut ops: Vec<String> = Vec::new();
        let mut arity: Vec<usize> = Vec::new();
        let mut weights: Vec<u64> = Vec::new();
        let mut i: usize = 0;
        proof {
            assert(self.fn_weights().take(0) =~= weights@);
            assert(self.fn_names().take(0) =~= crate::tree::encoding::labels_of(ops@));
            assert(self.fn_arities().take(0) =~= arity@);
        }
        while i < self.functions.len()
            invariant
                i <= self.functions@.len(),
                ops@.len() == i,
                arity@.len() == i,
                crate::tree::encoding::labels_of(ops@) =~= self.fn_names().take(i as int),
                arity@ =~= self.fn_arities().take(i as int),
                weights@ =~= self.fn_weights().take(i as int),
            decreases self.functions@.len() - i,
        {
            ops.push(self.functions[i].0.clone());
            arity.push(self.functions[i].1.arity());
            weights.push(self.functions[i].1.weight());
            i = i + 1;
            proof {
                assert(self.fn_weights().take(i as int).drop_last() =~= self.fn_weights().take(
                    i - 1,
                ));
                assert(weights@ =~= self.fn_weights().take(i as int));
                assert(crate::tree::encoding::labels_of(ops@) =~= self.fn_names().take(i as int));
                assert(arity@ =~= self.fn_arities().take(i as int));
            }
        }
        proof {
            assert(self.fn_weights().take(self.fn_weights().len() as int) =~= self.fn_weights());
            assert(self.fn_names().take(self.fn_names().len() as int) =~= self.fn_names());
            assert(self.fn_arities().take(self.fn_arities().len() as int) =~= self.fn_arities());
        }
        if !check_weight_sum(&weights) {
            return Err(BuilderError::WrongWeightSum);
        }
        if self.terminals.len() == 0 {
            return Err(BuilderError::OperatorsIsEmpty);
        }
        if !check_weight_sum(&self.terminal_weights) {
            return Err(BuilderError::WrongWeightSum);
        }

        let function_sampler = OperatorSampler::new(ops, arity, weights);

        let mut terminal_names: Vec<String> = Vec::new();
        let mut terminal_arities: Vec<usize> = Vec::new();
        let mut j: usize = 0;
        proof {
            assert(self.term_names().take(0) =~= crate::tree::encoding::labels_of(
                terminal_names@,
            ));
            assert(terminal_arities@ =~= Seq::new(0, |t: int| 0usize));
        }
        while j < self.terminals.len()
            invariant
                j <= self.terminals@.len(),
                terminal_names@.len() == j,
                terminal_arities@.len() == j,
                crate::tree::encoding::labels_of(terminal_names@) =~= self.term_names().take(
                    j as int,
                ),
                terminal_arities@ =~= Seq::new(j as nat, |t: int| 0usize),
            decreases self.terminals@.len() - j,
        {
            terminal_names.push(self.terminals[j].name());
            terminal_arities.push(0);
            j = j + 1;
            proof {
                assert(crate::tree::encoding::labels_of(terminal_names@) =~= self.term_names()
                    .take(j as int));
                assert(terminal_arities@ =~= Seq::new(j as nat, |t: int| 0usize));
            }
        }
        proof {
            assert(self.term_names().take(self.term_names().len() as int) =~= self.term_names());
        }
        let terminal_sampler = OperatorSampler::new(
            terminal_names,
            terminal_arities,
            self.terminal_weights,
        );
        Ok(Operators::new(self.functions, self.terminals, function_sampler, terminal_sampler))
    }
}

impl Default for OperatorsBuilder {
    /// An empty builder.
    fn default() -> (r: Self)
        ensures
            r.wf(),
            r.fn_names() == Seq::<Seq<char>>::empty(),
            r.fn_weights() == Seq::<u64>::empty(),
            r.fn_arities() == Seq::<usize>::empty(),
            r.fn_funcs() == Seq::<VectorFunction>::empty(),
            r.terminals_len() == 0,
            r.term_weights() == Seq::<u64>::empty(),
            r.term_names() == Seq::<Seq<char>>::empty(),
    {
        let r = Self { functions: Vec::new(), terminals: Vec::new(), terminal_weights: Vec::new() };
        proof {
            assert(r.fn_names() =~= Seq::<Seq<char>>::empty());
            assert(r.fn_weights() =~= Seq::<u64>::empty());
            assert(r.fn_arities() =~= Seq::<usize>::empty());
            assert(r.fn_funcs() =~= Seq::<VectorFunction>::empty());
            assert(r.term_names() =~= Seq::<Seq<char>>::empty());
        }
        r
    }
}

/// Sums the weights and decides whether they form a distribution; a sum
/// beyond `u64` is certainly off the scale.
fn check_weight_sum(ws: &Vec<u64>) -> (r: bool)
    ensures
        r == weight_sum_ok(sum_wts(ws@)),
{
    let mut acc: u64 = 0;
    let mut i: usize = 0;
    proof {
        assert(ws@.take(0) =~= Seq::<u64>::empty());
    }
    while i < ws.len()
        invariant
            i <= ws@.len(),
            acc == sum_wts(ws@.take(i as int)),
        decreases ws@.len() - i,
    {
        proof {
            assert(ws@.take(i + 1).drop_last() =~= ws@.take(i as int));
            assert(ws@.take(i + 1).last() == ws@[i as int]);
        }
        let w = ws[i];
        if acc > u64::MAX - w {
            // the true sum already exceeds any tolerated value
            proof {
                lemma_sum_wts_prefix(ws@, i + 1);
            }
            return false;
        }
        acc = acc + w;
        i = i + 1;
    }
    proof {
        assert(ws@.take(ws@.len() as int) =~= ws@);
    }
    acc >= PROB_SCALE - WEIGHT_TOLERANCE && acc <= PROB_SCALE + WEIGHT_TOLERANCE
}

} // verus!
