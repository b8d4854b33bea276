use rand::rngs::StdRng;
use rand::SeedableRng;

use mycoforge::operators::sampler::OperatorSampler;
use mycoforge::tree::crossover::SubtreeCrossover;
use mycoforge::tree::genotype::TreeGenotype;
use mycoforge::tree::init::Grow;
use mycoforge::PROB_SCALE;

fn valid_tree(tree: &TreeGenotype) -> bool {
    let mut result: usize = 0;
    for value in tree.children().values() {
        result += value.len();
    }
    result + 1 == tree.arena().len()
}

fn sample_sampler() -> OperatorSampler {
    let operators: Vec<String> = ["+", "-", "sin", "x", "y", "z"].iter().map(|&w| w.to_string()).collect();
    let arity = vec![2, 2, 1, 0, 0, 0];
    let weights = vec![PROB_SCALE / 6; 6];
    OperatorSampler::new(operators, arity, weights)
}

#[test]
fn test_crossover_produces_two_valid_children() {
    let sampler = sample_sampler();
    let mut rng = StdRng::seed_from_u64(42);
    let parent1 = Grow::new(2, 4).initialize(&mut rng, &sampler);
    let parent2 = Grow::new(2, 4).initialize(&mut rng, &sampler);

    let crossover = SubtreeCrossover::new(PROB_SCALE).expect("failed to create the crossover");
    let children = crossover.variate(&mut rng, &parent1, &parent2, &sampler);

    assert_eq!(children.len(), 2);
    for child in &children {
        assert!(valid_tree(child), "invalid child");
    }
    // the two offspring together carry the parents' node budget
    assert_eq!(
        children[0].arena().len() + children[1].arena().len(),
        parent1.arena().len() + parent2.arena().len(),
    );
}

#[test]
fn test_crossover_gate_returns_parents() {
    let sampler = sample_sampler();
    let mut rng = StdRng::seed_from_u64(42);
    let parent1 = Grow::new(2, 4).initialize(&mut rng, &sampler);
    let parent2 = Grow::new(2, 4).initialize(&mut rng, &sampler);

    let crossover = SubtreeCrossover::new(0).expect("failed to create the crossover");
    let children = crossover.variate(&mut rng, &parent1, &parent2, &sampler);

    assert_eq!(children.len(), 2);
    assert_eq!(children[0].arena(), parent1.arena());
    assert_eq!(children[1].arena(), parent2.arena());
    assert_eq!(children[0].children(), parent1.children());
    assert_eq!(children[1].children(), parent2.children());
}

#[test]
fn test_crossover_exchanges_distinct_material() {
    let sampler = sample_sampler();
    let mut rng = StdRng::seed_from_u64(7);
    // two structurally different parents over disjoint terminals
    let parent1 = TreeGenotype::with_arena(
        ["+", "x", "y"].iter().map(|s| s.to_string()).collect(),
    );
    let mut parent1 = TreeGenotype::with_arena(parent1.arena().clone());
    *parent1.children_mut() = parent1.construct_children(&sampler);
    let mut parent2 = TreeGenotype::with_arena(
        ["sin", "z"].iter().map(|s| s.to_string()).collect(),
    );
    *parent2.children_mut() = parent2.construct_children(&sampler);

    let crossover = SubtreeCrossover::new(PROB_SCALE).expect("failed to create the crossover");
    let children = crossover.variate(&mut rng, &parent1, &parent2, &sampler);
    assert_eq!(children.len(), 2);
    assert!(valid_tree(&children[0]) && valid_tree(&children[1]));
    // whatever points were drawn, the exchanged subtrees came from the other parent
    let child1_text = children[0].arena().join(",");
    assert!(child1_text.contains('z') || child1_text.contains("sin"),
        "no material of the second parent in {}", child1_text);
}

#[test]
fn test_crossover_probability_accessor() {
    let default_crossover = SubtreeCrossover::default();
    let custom_crossover = SubtreeCrossover::new(7 * (PROB_SCALE / 10))
        .expect("failed to create the crossover");
    assert_eq!(default_crossover.probability(), custom_crossover.probability(),
        "probabilities do not match");
    assert!(SubtreeCrossover::new(PROB_SCALE + 1).is_err());
}
