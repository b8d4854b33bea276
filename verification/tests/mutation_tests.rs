use rand::rngs::StdRng;
use rand::SeedableRng;

use mycoforge::operators::functions::Float;
use mycoforge::operators::sampler::OperatorSampler;
use mycoforge::tree::genotype::TreeGenotype;
use mycoforge::tree::init::Grow;
use mycoforge::tree::mutation::{ConstantMutation, PointMutation, SizeFairMutation, SubtreeMutation};
use mycoforge::PROB_SCALE;

#[derive(Clone, Copy, Debug, PartialEq)]
struct Scalar(f64);

impl Float for Scalar {
    fn zero() -> Self { Scalar(0.0) }
    fn one() -> Self { Scalar(1.0) }
    fn min_value() -> Self { Scalar(f64::MIN) }
    fn max_value() -> Self { Scalar(1e10) }
    fn neg_infinity() -> Self { Scalar(f64::NEG_INFINITY) }
    fn epsilon() -> Self { Scalar(1e-6) }
    fn sin(self) -> Self { Scalar(self.0.sin()) }
    fn cos(self) -> Self { Scalar(self.0.cos()) }
    fn ln(self) -> Self { Scalar(self.0.ln()) }
    fn sqrt(self) -> Self { Scalar(self.0.sqrt()) }
    fn abs(self) -> Self { Scalar(self.0.abs()) }
    fn is_finite(self) -> bool { self.0.is_finite() }
    fn signum(self) -> Self { Scalar(self.0.signum()) }
    fn add(self, other: Self) -> Self { Scalar(self.0 + other.0) }
    fn sub(self, other: Self) -> Self { Scalar(self.0 - other.0) }
    fn mul(self, other: Self) -> Self { Scalar(self.0 * other.0) }
    fn div(self, other: Self) -> Self { Scalar(self.0 / other.0) }
    fn lt(self, other: Self) -> bool { self.0 < other.0 }
    fn ratio(num: u64, den: u64) -> Self { Scalar(num as f64 / den as f64) }
    fn from_label(label: &str) -> Option<Self> { label.parse::<f64>().ok().map(Scalar) }
    fn to_label(self) -> String { format!("{}", self.0) }
}

fn valid_tree(tree: &TreeGenotype) -> bool {
    let mut result: usize = 0;
    for value in tree.children().values() {
        result += value.len();
    }
    result + 1 == tree.arena().len()
}

fn sample_sampler() -> OperatorSampler {
    let operators: Vec<String> = ["+", "-", "sin", "x", "y", "z"].iter().map(|&w| w.to_string()).collect();
    let arity = vec![2, 2, 1, 0, 0, 0];
    let weights = vec![PROB_SCALE / 6; 6];
    OperatorSampler::new(operators, arity, weights)
}

fn grow_test_cases() -> Vec<(usize, usize)> {
    vec![(0, 1), (1, 2), (2, 3), (3, 5), (4, 6), (4, 7), (2, 8), (5, 10), (2, 12)]
}

#[test]
fn test_subtree_mutation() {
    let sampler = sample_sampler();
    let mut rng = StdRng::seed_from_u64(42);
    for case in grow_test_cases() {
        let init_scheme = Grow::new(case.0, case.1);
        let tree = init_scheme.initialize(&mut rng, &sampler);

        let mutator = SubtreeMutation::new(PROB_SCALE, (1, 2)).expect("failed to create the mutation scheme");
        let mutant = mutator.variate(&mut rng, &tree, &sampler);

        assert_ne!(tree.arena(), mutant.arena(), "the tree did not change");
        assert!(!mutant.children().is_empty(), "empty children");
        assert!(valid_tree(&mutant), "invalid mutant");
    }
}

#[test]
fn test_subtree_mutation_gate() {
    let sampler = sample_sampler();
    let mut rng = StdRng::seed_from_u64(42);
    let tree = Grow::new(2, 4).initialize(&mut rng, &sampler);
    let mutator = SubtreeMutation::new(0, (1, 2)).expect("failed to create the mutation scheme");
    let mutant = mutator.variate(&mut rng, &tree, &sampler);
    assert_eq!(tree.arena(), mutant.arena(), "a zero-probability gate must keep the arena");
    assert_eq!(tree.children(), mutant.children());
}

#[test]
fn test_size_fair_mutation() {
    let sampler = sample_sampler();
    let mut rng = StdRng::seed_from_u64(42);

    for (dynamic_limit, case_name) in [(false, "static"), (true, "dynamic")] {
        let init_scheme = Grow::new(2, 3);
        let tree = init_scheme.initialize(&mut rng, &sampler);
        let original_size = tree.arena().len();

        let mutator = SizeFairMutation::new(PROB_SCALE, dynamic_limit)
            .expect("failed to create the mutation scheme");
        let mutant = mutator.variate(&mut rng, &tree, &sampler);

        assert_ne!(tree.arena(), mutant.arena(), "{}: the tree did not change", case_name);
        assert!(!mutant.children().is_empty(), "{}: empty children", case_name);
        assert!(valid_tree(&mutant), "{}: invalid mutant", case_name);
        // the mutant stays a tree; its size moves with the size-derived depth band
        assert!(mutant.arena().len() >= 1, "{}: empty mutant, original size {}",
            case_name, original_size);
    }
}

#[test]
fn test_point_mutation() {
    let sampler = sample_sampler();
    let mut rng = StdRng::seed_from_u64(42);

    for case in grow_test_cases() {
        let init_scheme = Grow::new(case.0, case.1);
        let tree = init_scheme.initialize(&mut rng, &sampler);

        let mutator = PointMutation::new(PROB_SCALE).expect("failed to create the mutation scheme");
        let mutant = mutator.variate(&mut rng, &tree, &sampler);

        assert_eq!(mutant.children(), tree.children(), "the children index changed");
        assert_eq!(mutant.arena().len(), tree.arena().len());
        assert!(valid_tree(&mutant), "invalid mutant");
    }
}

#[test]
fn test_point_mutation_gate() {
    let sampler = sample_sampler();
    let mut rng = StdRng::seed_from_u64(42);
    let tree = Grow::new(1, 3).initialize(&mut rng, &sampler);
    let mutator = PointMutation::new(0).expect("failed to create the mutation scheme");
    let mutant = mutator.variate(&mut rng, &tree, &sampler);
    assert_eq!(tree.arena(), mutant.arena());
}

#[test]
fn test_invalid_probability_rejected() {
    assert!(SubtreeMutation::new(PROB_SCALE + 1, (1, 2)).is_err());
    assert!(SizeFairMutation::new(PROB_SCALE + 1, false).is_err());
    assert!(PointMutation::new(PROB_SCALE + 1).is_err());
    assert!(ConstantMutation::<Scalar>::new(PROB_SCALE + 1, 0, None).is_err());
    assert!(ConstantMutation::<Scalar>::new(0, PROB_SCALE + 1, None).is_err());
}

#[test]
fn test_constant_mutation_basic() {
    let sampler = sample_sampler();
    let mut rng = StdRng::seed_from_u64(42);

    let arena = vec!["0.5".to_string()];
    let tree = TreeGenotype::with_arena(arena);

    let mutator = ConstantMutation::<Scalar>::new(PROB_SCALE, PROB_SCALE / 10, None)
        .expect("failed to create the mutation scheme");
    let mutant = mutator.variate(&mut rng, &tree, &sampler);

    assert_ne!(mutant.arena()[0], tree.arena()[0],
        "the value should have changed: original {}, found {}", tree.arena()[0], mutant.arena()[0]);
    assert!(mutant.arena()[0].parse::<f64>().is_ok(),
        "an unreadable number was written: original {}, found {}", tree.arena()[0], mutant.arena()[0]);
}

#[test]
fn test_constant_mutation_no_constants() {
    let sampler = sample_sampler();
    let mut rng = StdRng::seed_from_u64(42);

    let arena = vec!["x".to_string()];
    let tree = TreeGenotype::with_arena(arena);

    let mutator = ConstantMutation::<Scalar>::new(PROB_SCALE, PROB_SCALE / 10, None)
        .expect("failed to create the mutation scheme");
    let mutant = mutator.variate(&mut rng, &tree, &sampler);

    assert_eq!(mutant.arena(), tree.arena(),
        "nothing should have mutated: original {:?}, found {:?}", tree.arena(), mutant.arena());
}

#[test]
fn test_constant_mutation() {
    let sampler = sample_sampler();
    let mut rng = StdRng::seed_from_u64(42);

    let arena = ["+", "1.0", "3.14"].iter().map(|s| s.to_string()).collect::<Vec<String>>();
    let tree = TreeGenotype::with_arena(arena);

    let mutator = ConstantMutation::<Scalar>::new(PROB_SCALE, PROB_SCALE / 10, None)
        .expect("failed to create the mutation scheme");
    let mutant = mutator.variate(&mut rng, &tree, &sampler);

    assert_ne!(mutant.arena(), tree.arena(),
        "something should have mutated: original {:?}, found {:?}", tree.arena(), mutant.arena());
    assert_eq!(1, mutant.arena().iter().zip(tree.arena().iter()).filter(|(a, b)| a != b).count(),
        "exactly one label should have mutated: original {:?}, found {:?}", tree.arena(), mutant.arena());
}

#[test]
fn test_constant_mutation_clamped() {
    let sampler = sample_sampler();
    let mut rng = StdRng::seed_from_u64(42);
    let tree = TreeGenotype::with_arena(vec!["100.0".to_string()]);
    let mutator = ConstantMutation::<Scalar>::new(
        PROB_SCALE,
        PROB_SCALE / 10,
        Some((Scalar(-1.0), Scalar(1.0))),
    ).expect("failed to create the mutation scheme");
    let mutant = mutator.variate(&mut rng, &tree, &sampler);
    let value: f64 = mutant.arena()[0].parse().expect("an unreadable number was written");
    assert!((-1.0..=1.0).contains(&value), "the clamp failed: {}", value);
}

#[test]
fn size_fair_mutation_works() {
    let sampler = sample_sampler();
    let mut rng = StdRng::seed_from_u64(7);
    for dynamic_limit in [false, true] {
        for case in grow_test_cases() {
            let tree = Grow::new(case.0, case.1).initialize(&mut rng, &sampler);
            let mutator = SizeFairMutation::new(PROB_SCALE, dynamic_limit)
                .expect("failed to create the mutation scheme");
            let mutant = mutator.variate(&mut rng, &tree, &sampler);
            assert!(valid_tree(&mutant), "invalid mutant");
            assert!(!mutant.arena().is_empty());
        }
    }
}

#[test]
fn point_mutation_works() {
    let sampler = sample_sampler();
    let mut rng = StdRng::seed_from_u64(7);
    for case in grow_test_cases() {
        let tree = Grow::new(case.0, case.1).initialize(&mut rng, &sampler);
        let mutator = PointMutation::new(PROB_SCALE).expect("failed to create the mutation scheme");
        let mutant = mutator.variate(&mut rng, &tree, &sampler);
        assert_eq!(mutant.arena().len(), tree.arena().len(),
            "point mutation must keep the shape");
        assert_eq!(mutant.children(), tree.children(),
            "point mutation must keep the children index");
        assert!(valid_tree(&mutant), "invalid mutant");
        // every label still carries its old arity
        let old_code: Vec<usize> = label_arities(&tree);
        let new_code: Vec<usize> = label_arities(&mutant);
        assert_eq!(old_code, new_code);
    }
}

fn label_arities(tree: &TreeGenotype) -> Vec<usize> {
    tree.arena().iter().map(|label| match label.as_str() {
        "+" | "-" => 2,
        "sin" => 1,
        _ => 0,
    }).collect()
}
