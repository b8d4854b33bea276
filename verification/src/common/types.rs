//! Node functions and the name-to-function map the evaluator consumes.
//!
//! Node functions form a closed set of variants — the protected symbolic
//! primitives, a feature column, and a constant label — resolved once per
//! evaluation pass instead of through runtime function values.
use vstd::prelude::*;

use crate::operators::functions::Float;
use crate::tree::encoding::{find_op, labels_of, lemma_find_op};
use crate::tree::genotype::position_of;

verus! {

/// A vectorized node function: one of the symbolic primitives, the feature
/// column at an index, or a constant given by its label.
#[derive(Clone, Debug)]
pub enum VectorFunction {
    /// Elementwise addition of two operand vectors.
    Add,
    /// Elementwise subtraction.
    Sub,
    /// Elementwise multiplication, saturating on overflow.
    Mul,
    /// Protected elementwise division.
    Div,
    /// Protected sine.
    Sin,
    /// Protected cosine.
    Cos,
    /// Protected natural logarithm.
    Ln,
    /// The feature column at the given index, as a whole.
    Feature(usize),
    /// The constant the label denotes, broadcast across all samples.
    Constant(String),
}

/// Applies a node function to its operand vectors. The result holds one
/// value per paired operand element: the binary and unary primitives keep
/// their own length contracts, a feature inside the dataset returns its
/// whole column, and a constant broadcasts over the first operand's length
/// or, when its label does not read as a scalar, stays empty.
pub fn apply<T: Float>(func: &VectorFunction, args: &[&[T]]) -> (r: Vec<T>)
    ensures
        match *func {
            VectorFunction::Add | VectorFunction::Sub | VectorFunction::Mul
                | VectorFunction::Div => r@.len()
                == crate::operators::functions::binary_result_len(args@),
            VectorFunction::Sin | VectorFunction::Cos | VectorFunction::Ln => r@.len()
                == crate::operators::functions::unary_result_len(args@),
            VectorFunction::Feature(ix) => r@.len() == (if (ix as int) < args@.len() {
                args@[ix as int]@.len() as int
            } else {
                0
            }),
            VectorFunction::Constant(_) => (r@.len() == 0 || (args@.len() > 0 && r@.len()
                == args@[0]@.len())),
        },
{
    match func {
        VectorFunction::Add => crate::operators::functions::add(args),
        VectorFunction::Sub => crate::operators::functions::sub(args),
        VectorFunction::Mul => crate::operators::functions::mul(args),
        VectorFunction::Div => crate::operators::functions::div(args),
        VectorFunction::Sin => crate::operators::functions::sin(args),
        VectorFunction::Cos => crate::operators::functions::cos(args),
        VectorFunction::Ln => crate::operators::functions::ln(args),
        VectorFunction::Feature(ix) => {
            let mut out: Vec<T> = Vec::new();
            if *ix < args.len() {
                let col = args[*ix];
                let mut i: usize = 0;
                while i < col.len()
                    invariant
                        i <= col@.len(),
                        out@.len() == i,
                    decreases col@.len() - i,
                {
                    out.push(col[i]);
                    i = i + 1;
                }
            }
            out
        },
        VectorFunction::Constant(label) => {
            let mut out: Vec<T> = Vec::new();
            let n: usize = if args.len() > 0 {
                args[0].len()
            } else {
                0
            };
            match T::from_label(label.as_str()) {
                Some(c) => {
                    let mut i: usize = 0;
                    while i < n
                        invariant
                            i <= n,
                            out@.len() == i,
                            n == (if args@.len() > 0 {
                                args@[0]@.len()
                            } else {
                                0
                            }),
                        decreases n - i,
                    {
                        out.push(c);
                        i = i + 1;
                    }
                },
                None => {},
            }
            out
        },
    }
}

/// Map from operator names to arities and node functions, the evaluator's
/// view of a catalog: three lists running in parallel.
pub struct OperatorMap {
    names: Vec<String>,
    arities: Vec<usize>,
    funcs: Vec<VectorFunction>,
}

impl OperatorMap {
    /// The operator names.
    pub closed spec fn names_view(&self) -> Seq<Seq<char>> {
        labels_of(self.names@)
    }

    /// The arities.
    pub closed spec fn ars_view(&self) -> Seq<usize> {
        self.arities@
    }

    /// The node functions.
    pub closed spec fn funcs_view(&self) -> Seq<VectorFunction> {
        self.funcs@
    }

    /// The three lists run in parallel.
    pub closed spec fn wf(&self) -> bool {
        self.names@.len() == self.arities@.len() && self.names@.len() == self.funcs@.len()
    }

    /// The parallel lists share one length.
    pub proof fn lemma_wf_lens(&self)
        requires
            self.wf(),
        ensures
            self.names_view().len() == self.ars_view().len(),
            self.names_view().len() == self.funcs_view().len(),
    {
    }

    /// An empty map.
    pub fn new() -> (r: Self)
        ensures
            r.wf(),
            r.names_view() == Seq::<Seq<char>>::empty(),
            r.ars_view() == Seq::<usize>::empty(),
    {
        let r = Self { names: Vec::new(), arities: Vec::new(), funcs: Vec::new() };
        proof {
            assert(r.names_view() =~= Seq::<Seq<char>>::empty());
            assert(r.ars_view() =~= Seq::<usize>::empty());
        }
        r
    }

    /// Adds one operator entry.
    pub fn insert(&mut self, name: String, arity: usize, func: VectorFunction)
        requires
            old(self).wf(),
        ensures
            final(self).wf(),
            final(self).names_view() == old(self).names_view().push(name@),
            final(self).ars_view() == old(self).ars_view().push(arity),
            final(self).funcs_view() == old(self).funcs_view().push(func),
    {
        self.names.push(name);
        self.arities.push(arity);
        self.funcs.push(func);
        proof {
            assert(self.names_view() =~= old(self).names_view().push(self.names@.last()@));
        }
    }

    /// Finds the first entry named `name` and returns its arity and
    /// function; the arity is the one the catalog-lookup model gives.
    pub fn get(&self, name: &String) -> (r: Option<(usize, &VectorFunction)>)
        requires
            self.wf(),
        ensures
            match r {
                Some(p) => find_op(self.names_view(), name@) >= 0 && p.0 == self.ars_view()[
                    find_op(self.names_view(), name@)
                ] && *p.1 == self.funcs_view()[find_op(self.names_view(), name@)],
                None => find_op(self.names_view(), name@) < 0,
            },
    {
        match position_of(&self.names, name) {
            Some(j) => Some((self.arities[j], &self.funcs[j])),
            None => None,
        }
    }
}

} // verus!
