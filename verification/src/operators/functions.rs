//! Numeric primitives for symbolic regression, generic over the scalar.
//!
//! The scalar type stays behind the [`Float`] trait, which callers of the
//! library implement for their numeric types; the operators here give every
//! vectorized primitive its protected form: division by a near-zero operand
//! yields one, the logarithm of a non-positive operand stays finite, the
//! trigonometric functions map non-finite inputs to zero, and an overflowing
//! product saturates at the configured maximum magnitude.
use vstd::prelude::*;

use crate::common::types::VectorFunction;
use crate::operators::builder::{BuilderError, OperatorsBuilder};
use crate::PROB_SCALE;

verus! {

/// Scalar interface for symbolic expressions: constants, arithmetic,
/// comparisons, the protected primitives' ingredients, and conversion
/// between scalars and arena labels.
pub trait Float: Copy + Sized {
    /// The zero value.
    fn zero() -> Self;

    /// The one value.
    fn one() -> Self;

    /// Smallest allowed value, the protected logarithm's floor.
    fn min_value() -> Self;

    /// Largest allowed magnitude, the saturation bound of products.
    fn max_value() -> Self;

    /// The worst possible fitness placeholder.
    fn neg_infinity() -> Self;

    /// Threshold under which a divisor counts as zero.
    fn epsilon() -> Self;

    /// Sine.
    fn sin(self) -> Self;

    /// Cosine.
    fn cos(self) -> Self;

    /// Natural logarithm.
    fn ln(self) -> Self;

    /// Square root.
    fn sqrt(self) -> Self;

    /// Absolute value.
    fn abs(self) -> Self;

    /// The value is neither infinite nor undefined.
    fn is_finite(self) -> bool;

    /// Sign of the value.
    fn signum(self) -> Self;

    /// Sum of two scalars.
    fn add(self, other: Self) -> Self;

    /// Difference of two scalars.
    fn sub(self, other: Self) -> Self;

    /// Product of two scalars.
    fn mul(self, other: Self) -> Self;

    /// Quotient of two scalars, unprotected.
    fn div(self, other: Self) -> Self;

    /// Strict order on scalars.
    fn lt(self, other: Self) -> bool;

    /// The scalar `num / den`, for building fixed-point factors.
    fn ratio(num: u64, den: u64) -> Self;

    /// Reads a scalar from an arena label, when the label denotes one.
    fn from_label(label: &str) -> Option<Self>;

    /// Writes a scalar as an arena label.
    fn to_label(self) -> String;
}

/// Number of elements a binary primitive produces from its operand list.
pub open spec fn binary_result_len<T>(args: Seq<&[T]>) -> int {
    if args.len() != 2 || args[0]@.len() == 0 || args[1]@.len() == 0 {
        0
    } else if args[0]@.len() <= args[1]@.len() {
        args[0]@.len() as int
    } else {
        args[1]@.len() as int
    }
}

/// Number of elements a unary primitive produces from its operand list.
pub open spec fn unary_result_len<T>(args: Seq<&[T]>) -> int {
    if args.len() != 1 || args[0]@.len() == 0 {
        0
    } else {
        args[0]@.len() as int
    }
}

/// Addition, elementwise over the two operand vectors.
pub fn add<T: Float>(args: &[&[T]]) -> (r: Vec<T>)
    ensures
        r@.len() == binary_result_len(args@),
{
    binary_apply(args, BinaryKind::Plus)
}

/// Subtraction, elementwise over the two operand vectors.
pub fn sub<T: Float>(args: &[&[T]]) -> (r: Vec<T>)
    ensures
        r@.len() == binary_result_len(args@),
{
    binary_apply(args, BinaryKind::Minus)
}

/// Multiplication with overflow protection: a non-finite product saturates
/// to the signed maximum magnitude.
pub fn mul<T: Float>(args: &[&[T]]) -> (r: Vec<T>)
    ensures
        r@.len() == binary_result_len(args@),
{
    binary_apply(args, BinaryKind::Times)
}

/// Protected division: a divisor within epsilon of zero yields one.
pub fn div<T: Float>(args: &[&[T]]) -> (r: Vec<T>)
    ensures
        r@.len() == binary_result_len(args@),
{
    binary_apply(args, BinaryKind::Over)
}

/// Protected sine: a non-finite input yields zero.
pub fn sin<T: Float>(args: &[&[T]]) -> (r: Vec<T>)
    ensures
        r@.len() == unary_result_len(args@),
{
    unary_apply(args, UnaryKind::Sine)
}

/// Protected cosine: a non-finite input yields zero.
pub fn cos<T: Float>(args: &[&[T]]) -> (r: Vec<T>)
    ensures
        r@.len() == unary_result_len(args@),
{
    unary_apply(args, UnaryKind::Cosine)
}

/// Protected natural logarithm: an input at or under epsilon yields the
/// smallest allowed value.
pub fn ln<T: Float>(args: &[&[T]]) -> (r: Vec<T>)
    ensures
        r@.len() == unary_result_len(args@),
{
    unary_apply(args, UnaryKind::Log)
}

/// The binary primitives, as data.
enum BinaryKind {
    Plus,
    Minus,
    Times,
    Over,
}

/// The unary primitives, as data.
enum UnaryKind {
    Sine,
    Cosine,
    Log,
}

/// One protected binary step.
fn binary_step<T: Float>(kind: &BinaryKind, a: T, b: T) -> T {
    match kind {
        BinaryKind::Plus => a.add(b),
        BinaryKind::Minus => a.sub(b),
        BinaryKind::Times => {
            let result = a.mul(b);
            if result.is_finite() {
                result
            } else {
                result.signum().mul(T::max_value())
            }
        },
        BinaryKind::Over => {
            if b.abs().lt(T::epsilon()) {
                T::one()
            } else {
                a.div(b)
            }
        },
    }
}

/// One protected unary step.
fn unary_step<T: Float>(kind: &UnaryKind, a: T) -> T {
    match kind {
        UnaryKind::Sine => {
            if a.is_finite() {
                a.sin()
            } else {
                T::zero()
            }
        },
        UnaryKind::Cosine => {
            if a.is_finite() {
                a.cos()
            } else {
                T::zero()
            }
        },
        UnaryKind::Log => {
            if T::epsilon().lt(a) {
                a.ln()
            } else {
                T::min_value()
            }
        },
    }
}

/// Applies a binary primitive to paired values from two operand vectors.
fn binary_apply<T: Float>(args: &[&[T]], kind: BinaryKind) -> (r: Vec<T>)
    ensures
        r@.len() == binary_result_len(args@),
{
    let mut out: Vec<T> = Vec::new();
    if args.len() != 2 {
        return out;
    }
    let a = args[0];
    let b = args[1];
    if a.len() == 0 || b.len() == 0 {
        return out;
    }
    let n = if a.len() <= b.len() {
        a.len()
    } else {
        b.len()
    };
    let mut i: usize = 0;
    while i < n
        invariant
            n <= a@.len(),
            n <= b@.len(),
            out@.len() == i <= n,
        decreases n - i,
    {
        out.push(binary_step(&kind, a[i], b[i]));
        i = i + 1;
    }
    out
}

/// Applies a unary primitive to each value of one operand vector.
fn unary_apply<T: Float>(args: &[&[T]], kind: UnaryKind) -> (r: Vec<T>)
    ensures
        r@.len() == unary_result_len(args@),
{
    let mut out: Vec<T> = Vec::new();
    if args.len() != 1 {
        return out;
    }
    let a = args[0];
    if a.len() == 0 {
        return out;
    }
    let mut i: usize = 0;
    while i < a.len()
        invariant
            out@.len() == i <= a@.len(),
        decreases a@.len() - i,
    {
        out.push(unary_step(&kind, a[i]));
        i = i + 1;
    }
    out
}

/// The standard Koza function set: the four arithmetic operators and the
/// two trigonometric ones, each weighted one part in `operators_size` of
/// the scale. The caller keeps adding terminals until the weights fill the
/// scale; the count must exceed the six functions added here.
pub fn koza(operators_size: usize) -> (r: Result<OperatorsBuilder, BuilderError>)
    requires
        operators_size > 6,
        operators_size as u64 <= PROB_SCALE,
    ensures
        r matches Ok(b) && b.wf() && b.terminals_len() == 0 && b.fn_names() == seq![
            "+"@,
            "-"@,
            "*"@,
            "/"@,
            "sin"@,
            "cos"@,
        ] && b.fn_arities() == seq![2usize, 2usize, 2usize, 2usize, 1usize, 1usize]
            && b.fn_funcs() == seq![
            VectorFunction::Add,
            VectorFunction::Sub,
            VectorFunction::Mul,
            VectorFunction::Div,
            VectorFunction::Sin,
            VectorFunction::Cos,
        ] && b.fn_weights() == Seq::new(6, |t: int| PROB_SCALE / (operators_size as u64)),
{
    proof {
        reveal_strlit("+");
        reveal_strlit("-");
        reveal_strlit("*");
        reveal_strlit("/");
        reveal_strlit("sin");
        reveal_strlit("cos");
        assert("+"@[0] == '+' && "-"@[0] == '-' && "*"@[0] == '*' && "/"@[0] == '/');
        assert("sin"@[0] == 's' && "cos"@[0] == 'c');
        assert("+"@ != "-"@ && "+"@ != "*"@ && "+"@ != "/"@ && "+"@ != "sin"@ && "+"@ != "cos"@);
        assert("-"@ != "*"@ && "-"@ != "/"@ && "-"@ != "sin"@ && "-"@ != "cos"@);
        assert("*"@ != "/"@ && "*"@ != "sin"@ && "*"@ != "cos"@);
        assert("/"@ != "sin"@ && "/"@ != "cos"@);
        assert("sin"@ != "cos"@);
    }
    let w: u64 = PROB_SCALE / (operators_size as u64);
    proof {
        assert(1 <= w && w <= PROB_SCALE) by (nonlinear_arith)
            requires
                w == PROB_SCALE / (operators_size as u64),
                6 < operators_size,
                operators_size as u64 <= PROB_SCALE,
        ;
    }
    let b = OperatorsBuilder::default();
    let b = b.add_function("+", VectorFunction::Add, 2, w)?;
    proof {
        assert(b.fn_names() =~= seq!["+"@]);
        assert(b.fn_arities() =~= seq![2usize]);
        assert(b.fn_funcs() =~= seq![VectorFunction::Add]);
        assert(b.fn_weights() =~= Seq::new(1, |t: int| w));
    }
    let b = b.add_function("-", VectorFunction::Sub, 2, w)?;
    proof {
        assert(b.fn_names() =~= seq!["+"@, "-"@]);
        assert(b.fn_arities() =~= seq![2usize, 2usize]);
        assert(b.fn_funcs() =~= seq![VectorFunction::Add, VectorFunction::Sub]);
        assert(b.fn_weights() =~= Seq::new(2, |t: int| w));
    }
    let b = b.add_function("*", VectorFunction::Mul, 2, w)?;
    proof {
        assert(b.fn_names() =~= seq!["+"@, "-"@, "*"@]);
        assert(b.fn_arities() =~= seq![2usize, 2usize, 2usize]);
        assert(b.fn_funcs() =~= seq![VectorFunction::Add, VectorFunction::Sub, VectorFunction::Mul]);
        assert(b.fn_weights() =~= Seq::new(3, |t: int| w));
    }
    let b = b.add_function("/", VectorFunction::Div, 2, w)?;
    proof {
        assert(b.fn_names() =~= seq!["+"@, "-"@, "*"@, "/"@]);
        assert(b.fn_arities() =~= seq![2usize, 2usize, 2usize, 2usize]);
        assert(b.fn_funcs() =~= seq![VectorFunction::Add, VectorFunction::Sub, VectorFunction::Mul, VectorFunction::Div]);
        assert(b.fn_weights() =~= Seq::new(4, |t: int| w));
    }
    let b = b.add_function("sin", VectorFunction::Sin, 1, w)?;
    proof {
        assert(b.fn_names() =~= seq!["+"@, "-"@, "*"@, "/"@, "sin"@]);
        assert(b.fn_arities() =~= seq![2usize, 2usize, 2usize, 2usize, 1usize]);
        assert(b.fn_funcs() =~= seq![VectorFunction::Add, VectorFunction::Sub, VectorFunction::Mul, VectorFunction::Div, VectorFunction::Sin]);
        assert(b.fn_weights() =~= Seq::new(5, |t: int| w));
    }
    let b = b.add_function("cos", VectorFunction::Cos, 1, w)?;
    proof {
        assert(b.fn_names() =~= seq!["+"@, "-"@, "*"@, "/"@, "sin"@, "cos"@]);
        assert(b.fn_arities() =~= seq![2usize, 2usize, 2usize, 2usize, 1usize, 1usize]);
        assert(b.fn_funcs() =~= seq![
            VectorFunction::Add,
            VectorFunction::Sub,
            VectorFunction::Mul,
            VectorFunction::Div,
            VectorFunction::Sin,
            VectorFunction::Cos,
        ]);
        assert(b.fn_weights() =~= Seq::new(6, |t: int| w));
    }
    Ok(b)
}

} // verus!
