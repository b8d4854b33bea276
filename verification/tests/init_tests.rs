use rand::rngs::StdRng;
use rand::SeedableRng;

use mycoforge::operators::sampler::OperatorSampler;
use mycoforge::tree::genotype::TreeGenotype;
use mycoforge::tree::init::{Full, Grow, RampedHalfAndHalf};
use mycoforge::PROB_SCALE;

fn valid_tree(tree: &TreeGenotype) -> bool {
    let mut result: usize = 0;
    for value in tree.children().values() {
        result += value.len();
    }
    result + 1 == tree.arena().len()
}

fn sample_sampler() -> OperatorSampler {
    let operators: Vec<String> = ["+", "-", "sin", "x", "y", "z"].iter().map(|&w| w.to_string()).collect();
    let arity = vec![2, 2, 1, 0, 0, 0];
    let weights = vec![PROB_SCALE / 6; 6];
    OperatorSampler::new(operators, arity, weights)
}

fn grow_test_cases() -> Vec<(u32, u32)> {
    vec![(0, 1), (1, 2), (2, 3), (3, 5), (4, 6), (4, 7), (2, 8), (5, 10), (2, 12)]
}

#[test]
fn test_intializer_grow() {
    let sampler = sample_sampler();
    let mut rng = StdRng::seed_from_u64(42);

    for case in grow_test_cases() {
        let (size_min, size_max) = ((case.0 + 1) as usize, 2usize.pow(case.1 + 1) - 1);

        let init_scheme = Grow::new(case.0 as usize, case.1 as usize);
        let tree = init_scheme.initialize(&mut rng, &sampler);

        assert!(valid_tree(&tree));
        assert!(tree.arena().len() >= size_min && tree.arena().len() <= size_max,
            "wrong tree size for case ({}, {}): expected {} to {}, found {}",
            case.0, case.1, size_min, size_max, tree.arena().len()
        );
    }
}

#[test]
fn test_initializer_grow_zero_depth() {
    let sampler = sample_sampler();
    let mut rng = StdRng::seed_from_u64(3);
    let tree = Grow::new(0, 0).initialize(&mut rng, &sampler);
    assert_eq!(tree.arena().len(), 1);
    assert!(tree.children().is_empty());
}

#[test]
fn test_initializer_full() {
    let sampler = sample_sampler();
    let mut rng = StdRng::seed_from_u64(42);
    for depth in 0..6u32 {
        let tree = Full::new(depth as usize).initialize(&mut rng, &sampler);
        assert!(valid_tree(&tree));
        // every branch reaches exactly the asked depth
        assert_eq!(max_leaf_depth(&tree), depth as usize);
        assert_eq!(min_leaf_depth(&tree), depth as usize);
        assert!(tree.arena().len() <= 2usize.pow(depth + 1) - 1);
    }
}

#[test]
fn test_initializer_ramped() {
    let sampler = sample_sampler();
    let mut rng = StdRng::seed_from_u64(42);
    for _ in 0..20 {
        let tree = RampedHalfAndHalf::new(2, 4).initialize(&mut rng, &sampler);
        assert!(valid_tree(&tree));
        assert!(tree.arena().len() >= 3);
        assert!(tree.arena().len() <= 2usize.pow(5) - 1);
    }
}

fn leaf_depths(tree: &TreeGenotype, index: usize, depth: usize, out: &mut Vec<usize>) {
    match tree.children().get(&index) {
        Some(kids) => {
            for &c in kids {
                leaf_depths(tree, c, depth + 1, out);
            }
        },
        None => out.push(depth),
    }
}

fn max_leaf_depth(tree: &TreeGenotype) -> usize {
    let mut out = Vec::new();
    leaf_depths(tree, 0, 0, &mut out);
    out.iter().copied().max().unwrap()
}

fn min_leaf_depth(tree: &TreeGenotype) -> usize {
    let mut out = Vec::new();
    leaf_depths(tree, 0, 0, &mut out);
    out.iter().copied().min().unwrap()
}
