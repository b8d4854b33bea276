use std::collections::HashMap;

use mycoforge::common::types::{OperatorMap, VectorFunction};
use mycoforge::dataset::data::Dataset;
use mycoforge::operators::functions::Float;
use mycoforge::tree::evaluate::{MSE, RMSE, SSE};
use mycoforge::tree::genotype::TreeGenotype;

#[derive(Clone, Copy, Debug, PartialEq)]
struct Scalar(f64);

impl Float for Scalar {
    fn zero() -> Self { Scalar(0.0) }
    fn one() -> Self { Scalar(1.0) }
    fn min_value() -> Self { Scalar(f64::MIN) }
    fn max_value() -> Self { Scalar(1e10) }
    fn neg_infinity() -> Self { Scalar(f64::NEG_INFINITY) }
    fn epsilon() -> Self { Scalar(1e-6) }
    fn sin(self) -> Self { Scalar(self.0.sin()) }
    fn cos(self) -> Self { Scalar(self.0.cos()) }
    fn ln(self) -> Self { Scalar(self.0.ln()) }
    fn sqrt(self) -> Self { Scalar(self.0.sqrt()) }
    fn abs(self) -> Self { Scalar(self.0.abs()) }
    fn is_finite(self) -> bool { self.0.is_finite() }
    fn signum(self) -> Self { Scalar(self.0.signum()) }
    fn add(self, other: Self) -> Self { Scalar(self.0 + other.0) }
    fn sub(self, other: Self) -> Self { Scalar(self.0 - other.0) }
    fn mul(self, other: Self) -> Self { Scalar(self.0 * other.0) }
    fn div(self, other: Self) -> Self { Scalar(self.0 / other.0) }
    fn lt(self, other: Self) -> bool { self.0 < other.0 }
    fn ratio(num: u64, den: u64) -> Self { Scalar(num as f64 / den as f64) }
    fn from_label(label: &str) -> Option<Self> { label.parse::<f64>().ok().map(Scalar) }
    fn to_label(self) -> String { format!("{}", self.0) }
}

fn sample_map() -> OperatorMap {
    let mut map = OperatorMap::new();
    map.insert("+".to_string(), 2, VectorFunction::Add);
    map.insert("-".to_string(), 2, VectorFunction::Sub);
    map.insert("*".to_string(), 2, VectorFunction::Mul);
    map.insert("/".to_string(), 2, VectorFunction::Div);
    map.insert("x".to_string(), 0, VectorFunction::Feature(0));
    map
}

fn sample_tree() -> TreeGenotype {
    let arena: Vec<String> = ["+", "*", "x", "x", "x"].iter().map(|w| w.to_string()).collect();
    let mut children: HashMap<usize, Vec<usize>> = HashMap::new();
    children.insert(0, vec![1, 4]);
    children.insert(1, vec![2, 3]);
    TreeGenotype::new(arena, children)
}

fn sample_dataset() -> Dataset<Scalar> {
    // x runs from zero to one in steps of one tenth; the target is x^2 + x
    let xs: Vec<Scalar> = (0..=10).map(|i| Scalar(i as f64 / 10.0)).collect();
    let ys: Vec<Scalar> = xs.iter().map(|v| Scalar(v.0 * v.0 + v.0)).collect();
    Dataset::new(None, vec!["x".to_string()], "y".to_string(), vec![xs], ys)
}

#[test]
fn test_mse() {
    let map = sample_map();
    let dataset = sample_dataset();
    let metric = MSE::new();
    let result = metric.evaluate(&sample_tree(), &dataset, &map);
    assert_eq!(result.0, 0.0, "the exact model must have zero error, found {}", result.0);
}

#[test]
fn test_sse_exact_value() {
    let map = sample_map();
    // constant model: predictions are all x * x, target is x^2 + x
    let arena: Vec<String> = ["*", "x", "x"].iter().map(|w| w.to_string()).collect();
    let tree = TreeGenotype::with_arena(arena);
    let dataset = sample_dataset();
    let metric = SSE::new();
    let result = metric.evaluate(&tree, &dataset, &map);
    let expected: f64 = (0..=10).map(|i| {
        let x = i as f64 / 10.0;
        let diff = x * x - (x * x + x);
        diff * diff
    }).sum();
    assert!((result.0 - expected).abs() < 1e-12, "{} != {}", result.0, expected);
}

#[test]
fn test_rmse_of_exact_model_is_zero() {
    let map = sample_map();
    let dataset = sample_dataset();
    let metric = RMSE::new();
    let result = metric.evaluate(&sample_tree(), &dataset, &map);
    assert_eq!(result.0, 0.0);
}

#[test]
fn test_memoized_evaluate_uses_cache() {
    let map = sample_map();
    let dataset = sample_dataset();
    let metric = MSE::new();
    let cached = vec![(sample_tree(), Scalar(123.5))];
    let result = metric.memoized_evaluate(&sample_tree(), &dataset, &map, &cached);
    assert_eq!(result.0, 123.5, "the cached fitness must come back");

    let empty: Vec<(TreeGenotype, Scalar)> = Vec::new();
    let fresh = metric.memoized_evaluate(&sample_tree(), &dataset, &map, &empty);
    assert_eq!(fresh.0, 0.0, "a cache miss must evaluate afresh");
}

#[test]
fn test_dataset_accessors() {
    let dataset = sample_dataset();
    assert_eq!(dataset.feature_names(), &vec!["x".to_string()]);
    assert_eq!(dataset.target_name(), &"y".to_string());
    assert_eq!(dataset.features().len(), 1);
    assert_eq!(dataset.targets().len(), 11);
    let (features, targets) = dataset.data();
    assert_eq!(features[0].len(), 11);
    assert_eq!(targets[10].0, 2.0);
    assert!(dataset.metadata().is_none());
}

#[test]
fn test_manual_creation() {
    let headers = vec!["x".to_string(), "y".to_string()];
    let features = vec![vec![Scalar(1.0), Scalar(2.0), Scalar(3.0), Scalar(4.0), Scalar(5.0)]];
    let targets = vec![Scalar(2.0), Scalar(4.0), Scalar(6.0), Scalar(8.0), Scalar(10.0)];
    let dataset = Dataset::new(
        None,
        headers[0..headers.len() - 2].to_vec(),
        headers[headers.len() - 1].clone(),
        features,
        targets,
    );

    let (feature_names, target_name) = dataset.names();
    assert_eq!(feature_names, &headers[0..headers.len() - 2].to_vec(),
        "the stored feature names differ");
    assert_eq!(target_name, &headers[headers.len() - 1],
        "the stored target name differs");
}

#[test]
fn dataset_tests_test_creation() {
    let feature_names = ["x", "y"].iter().map(|v| v.to_string()).collect::<Vec<String>>();
    let target_name = "z".to_string();

    let data_x: Vec<Scalar> = vec![0.0, 1.0, 2.0, 3.0, 4.0, 5.0].into_iter().map(Scalar).collect();
    let data_y: Vec<Scalar> = vec![0.0, -1.0, -2.0, -3.0, -4.0, -5.0].into_iter().map(Scalar).collect();
    let data_z: Vec<Scalar> = vec![0.0, 0.1, 0.2, 0.3, 0.4, 0.5].into_iter().map(Scalar).collect();

    let features = vec![data_x, data_y];
    let targets = data_z;

    let dataset = Dataset::new(
        None,
        feature_names.clone(),
        target_name.clone(),
        features.clone(),
        targets.clone(),
    );

    assert_eq!(&feature_names, dataset.names().0, "the stored feature names differ");
    assert_eq!(&target_name, dataset.names().1, "the stored target name differs");
    assert_eq!(&features, dataset.data().0, "the stored features differ");
    assert_eq!(&targets, dataset.data().1, "the stored targets differ");
}

#[test]
fn test_common_evaluate_stack_discipline() {
    let map = sample_map();
    let dataset = sample_dataset();
    let columns: Vec<Vec<Scalar>> = dataset.features().clone();
    let sentinel = vec![Scalar(42.0)];
    let mut stack: Vec<Vec<Scalar>> = vec![sentinel.clone()];
    let arena: Vec<String> = ["+", "x", "x"].iter().map(|w| w.to_string()).collect();
    let tree = TreeGenotype::with_arena(arena);
    mycoforge::tree::evaluate::common_evaluate(&mut stack, &tree, &columns, &map);
    assert_eq!(stack.len(), 2, "exactly one vector must be appended");
    assert_eq!(stack[0], sentinel, "older stack entries must survive unchanged");
    assert_eq!(stack[1].len(), 11, "the prediction holds one value per sample");
    for (i, v) in stack[1].iter().enumerate() {
        let x = i as f64 / 10.0;
        assert_eq!(v.0, 2.0 * x, "prediction at sample {} must be twice x", i);
    }
}
