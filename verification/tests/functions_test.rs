use mycoforge::operators::functions::{add, cos, div, koza, ln, mul, sin, sub, Float};
use mycoforge::operators::builder::{BuilderError, OperatorsBuilder};
use mycoforge::common::types::VectorFunction;
use mycoforge::PROB_SCALE;

#[derive(Clone, Copy, Debug, PartialEq)]
struct Scalar(f64);

impl Float for Scalar {
    fn zero() -> Self { Scalar(0.0) }
    fn one() -> Self { Scalar(1.0) }
    fn min_value() -> Self { Scalar(f64::MIN) }
    fn max_value() -> Self { Scalar(1e10) }
    fn neg_infinity() -> Self { Scalar(f64::NEG_INFINITY) }
    fn epsilon() -> Self { Scalar(1e-6) }
    fn sin(self) -> Self { Scalar(self.0.sin()) }
    fn cos(self) -> Self { Scalar(self.0.cos()) }
    fn ln(self) -> Self { Scalar(self.0.ln()) }
    fn sqrt(self) -> Self { Scalar(self.0.sqrt()) }
    fn abs(self) -> Self { Scalar(self.0.abs()) }
    fn is_finite(self) -> bool { self.0.is_finite() }
    fn signum(self) -> Self { Scalar(self.0.signum()) }
    fn add(self, other: Self) -> Self { Scalar(self.0 + other.0) }
    fn sub(self, other: Self) -> Self { Scalar(self.0 - other.0) }
    fn mul(self, other: Self) -> Self { Scalar(self.0 * other.0) }
    fn div(self, other: Self) -> Self { Scalar(self.0 / other.0) }
    fn lt(self, other: Self) -> bool { self.0 < other.0 }
    fn ratio(num: u64, den: u64) -> Self { Scalar(num as f64 / den as f64) }
    fn from_label(label: &str) -> Option<Self> { label.parse::<f64>().ok().map(Scalar) }
    fn to_label(self) -> String { format!("{}", self.0) }
}

#[derive(Clone, Copy, Debug, PartialEq)]
struct Scalar32(f32);

impl Float for Scalar32 {
    fn zero() -> Self { Scalar32(0.0) }
    fn one() -> Self { Scalar32(1.0) }
    fn min_value() -> Self { Scalar32(f32::MIN) }
    fn max_value() -> Self { Scalar32(1e10) }
    fn neg_infinity() -> Self { Scalar32(f32::NEG_INFINITY) }
    fn epsilon() -> Self { Scalar32(1e-6) }
    fn sin(self) -> Self { Scalar32(self.0.sin()) }
    fn cos(self) -> Self { Scalar32(self.0.cos()) }
    fn ln(self) -> Self { Scalar32(self.0.ln()) }
    fn sqrt(self) -> Self { Scalar32(self.0.sqrt()) }
    fn abs(self) -> Self { Scalar32(self.0.abs()) }
    fn is_finite(self) -> bool { self.0.is_finite() }
    fn signum(self) -> Self { Scalar32(self.0.signum()) }
    fn add(self, other: Self) -> Self { Scalar32(self.0 + other.0) }
    fn sub(self, other: Self) -> Self { Scalar32(self.0 - other.0) }
    fn mul(self, other: Self) -> Self { Scalar32(self.0 * other.0) }
    fn div(self, other: Self) -> Self { Scalar32(self.0 / other.0) }
    fn lt(self, other: Self) -> bool { self.0 < other.0 }
    fn ratio(num: u64, den: u64) -> Self { Scalar32(num as f32 / den as f32) }
    fn from_label(label: &str) -> Option<Self> { label.parse::<f32>().ok().map(Scalar32) }
    fn to_label(self) -> String { format!("{}", self.0) }
}

#[test]
fn test_f32_functions() {
    let epsilon_f32 = 1e-6f32;
    assert!((epsilon_f32 - Scalar32::epsilon().0).abs() < 1e-10);
    assert!(1.0 - Scalar32::one().0 < epsilon_f32);
    assert!(0.0 - Scalar32::zero().0 < epsilon_f32);
    assert_eq!(f32::MIN, Scalar32::min_value().0);
    assert_eq!(1e10, Scalar32::max_value().0);
    let test_value = 0.5f32;
    assert!((test_value.sin() - Scalar32(0.5).sin().0).abs() < epsilon_f32);
    assert!((test_value.cos() - Scalar32(0.5).cos().0).abs() < epsilon_f32);
    assert!((test_value.ln() - Scalar32(0.5).ln().0).abs() < epsilon_f32);
}

#[test]
fn test_f64_functions() {
    let epsilon_f64 = 1e-6f64;
    assert!((epsilon_f64 - Scalar::epsilon().0).abs() < 1e-10);
    assert!(1.0 - Scalar::one().0 < epsilon_f64);
    assert!(0.0 - Scalar::zero().0 < epsilon_f64);
    assert_eq!(f64::MIN, Scalar::min_value().0);
    assert_eq!(1e10, Scalar::max_value().0);
    let test_value = 0.5f64;
    assert!((test_value.sin() - Scalar(0.5).sin().0).abs() < epsilon_f64);
    assert!((test_value.cos() - Scalar(0.5).cos().0).abs() < epsilon_f64);
    assert!((test_value.ln() - Scalar(0.5).ln().0).abs() < epsilon_f64);
}

#[test]
fn test_empty_input() {
    let empty: Vec<Scalar> = Vec::new();
    let nonempty = [Scalar(1.0)];

    assert!(div(&[&empty, &nonempty]).is_empty());
    assert!(div(&[&nonempty, &empty]).is_empty());
    assert!(sin::<Scalar>(&[&empty]).is_empty());
}

#[test]
fn test_div_by_zero() {
    let a = [Scalar(1.0)];
    let b = [Scalar(0.0)];
    let result = div(&[&a, &b]);

    assert_eq!(1.0, result[0].0);
}

#[test]
fn test_overflow_mul() {
    let a = [Scalar(1e308)];
    let result = mul(&[&a, &a]);

    assert!(result[0].0.is_finite());
    assert_eq!(1e10, result[0].0);
}

#[test]
fn test_infinite_trig() {
    let a = [Scalar(f64::INFINITY)];
    let sin_result = sin(&[&a]);
    let cos_result = cos(&[&a]);

    assert_eq!(0.0, sin_result[0].0);
    assert_eq!(0.0, cos_result[0].0);
}

#[test]
fn test_ln_zero() {
    let a = [Scalar(0.0)];
    let result = ln(&[&a]);

    assert!(result[0].0.is_finite());
}

#[test]
fn test_add_sub_elementwise() {
    let a = [Scalar(1.0), Scalar(2.0), Scalar(3.0)];
    let b = [Scalar(10.0), Scalar(20.0), Scalar(30.0)];
    let sums = add(&[&a, &b]);
    let diffs = sub(&[&b, &a]);
    assert_eq!(sums, vec![Scalar(11.0), Scalar(22.0), Scalar(33.0)]);
    assert_eq!(diffs, vec![Scalar(9.0), Scalar(18.0), Scalar(27.0)]);
}

#[test]
fn test_koza_builder() {
    let builder = koza(7).expect("failed to construct the builder for the koza set");
    let operators = builder
        .add_function("x", VectorFunction::Feature(0), 0, PROB_SCALE - 6 * (PROB_SCALE / 7))
        .expect("failed to add an operator")
        .add_variable("x", PROB_SCALE).expect("failed to add a terminal")
        .build().expect("failed to build the operator set");

    assert_eq!(operators.functions().len(), 7,
        "wrong operator count: expected {}, found {}", 7, operators.functions().len()
    );
}

#[test]
fn test_full_set_works() -> Result<(), BuilderError> {
    let w = PROB_SCALE / 7;
    let operators = OperatorsBuilder::default()
        .add_function("+", VectorFunction::Add, 2, w)?
        .add_function("-", VectorFunction::Sub, 2, w)?
        .add_function("*", VectorFunction::Mul, 2, w)?
        .add_function("/", VectorFunction::Div, 2, w)?
        .add_function("sin", VectorFunction::Sin, 1, w)?
        .add_function("cos", VectorFunction::Cos, 1, w)?
        .add_function("ln", VectorFunction::Ln, 1, w)?
        .add_variable("x", PROB_SCALE)?
        .build().expect("failed to build the operator set");

    assert_eq!(7, operators.functions().len(),
        "operator count is wrong: expected {}, found {}", 7, operators.functions().len());

    Ok(())
}
