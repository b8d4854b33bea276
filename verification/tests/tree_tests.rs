use std::collections::HashMap;

use mycoforge::tree::genotype::TreeGenotype;
use mycoforge::operators::sampler::OperatorSampler;
use mycoforge::PROB_SCALE;

fn sample_sampler() -> OperatorSampler {
    let operators: Vec<String> = ["+", "-", "sin", "x", "y", "z"].iter().map(|&w| w.to_string()).collect();
    let arity = vec![2, 2, 1, 0, 0, 0];
    let weights = vec![PROB_SCALE / 6; 6];
    OperatorSampler::new(operators, arity, weights)
}

fn sample_tree_simple() -> TreeGenotype {
    let arena: Vec<String> = ["+", "*", "2", "x", "-1"].iter().map(|w| w.to_string()).collect();
    let mut children: HashMap<usize, Vec<usize>> = HashMap::new();
    children.insert(0, vec![1, 4]);
    children.insert(1, vec![2, 3]);
    TreeGenotype::new(arena, children)
}

fn sample_tree_complex() -> TreeGenotype {
    let arena: Vec<String> = ["-", "-", "-", "y", "sin", "y", "z", "-", "sin", "+", "x", "y", "y"]
        .iter().map(|w| w.to_string()).collect();
    let mut children: HashMap<usize, Vec<usize>> = HashMap::new();
    children.insert(0, vec![1, 7]);
    children.insert(1, vec![2, 6]);
    children.insert(2, vec![3, 4]);
    children.insert(4, vec![5]);
    children.insert(7, vec![8, 12]);
    children.insert(8, vec![9]);
    children.insert(9, vec![10, 11]);
    TreeGenotype::new(arena, children)
}

#[test]
fn test_access() {
    let mut tree = TreeGenotype::default();

    let arena: Vec<String> = ["+", "*", "2", "x", "-1"].iter().map(|w| w.to_string()).collect();
    let mut children: HashMap<usize, Vec<usize>> = HashMap::new();
    children.insert(0, vec![1, 4]);
    children.insert(1, vec![2, 3]);

    for node in &arena {
        tree.arena_mut().push(node.to_string());
    }

    for (&key, value) in children.iter() {
        tree.children_mut().insert(key, value.clone());
    }

    assert_eq!(tree.arena(), &arena);
    assert_eq!(tree.children(), &children);
}

#[test]
fn test_subtree() {
    let tree = sample_tree_simple();
    let cases: Vec<(usize, usize)> = vec![(0, 4), (1, 3), (2, 2), (3, 3), (4, 4)];
    for (root, expected) in cases {
        assert_eq!(tree.subtree(root), expected);
    }
}

#[test]
fn test_subtree_complex() {
    let tree = sample_tree_complex();
    assert_eq!(tree.subtree(0), 12);
    assert_eq!(tree.subtree(1), 6);
    assert_eq!(tree.subtree(7), 12);
    assert_eq!(tree.subtree(8), 11);
}

#[test]
fn test_construct_children() {
    let sampler = sample_sampler();
    for sample_tree in [sample_tree_simple(), sample_tree_complex()] {
        let mut tree = TreeGenotype::with_arena(sample_tree.arena().clone());
        *tree.children_mut() = tree.construct_children(&sampler);

        assert_eq!(sample_tree.arena(), tree.arena());
        assert!(!tree.children().is_empty());
    }
}

#[test]
fn test_construct_children_round_trip() {
    // a catalog carrying every label of both sample trees, constants too
    let operators: Vec<String> = ["+", "-", "*", "sin", "x", "y", "z", "2", "-1"]
        .iter().map(|&w| w.to_string()).collect();
    let arity = vec![2, 2, 2, 1, 0, 0, 0, 0, 0];
    let weights = vec![PROB_SCALE / 9; 9];
    let sampler = OperatorSampler::new(operators, arity, weights);
    for sample_tree in [sample_tree_simple(), sample_tree_complex()] {
        let rebuilt = sample_tree.construct_children(&sampler);
        assert_eq!(&rebuilt, sample_tree.children());
    }
}

#[test]
fn test_tree_display() {
    let expected_output = "\
+
\u{251c}\u{2500}\u{2500} *
\u{2502}   \u{251c}\u{2500}\u{2500} 2
\u{2502}   \u{2514}\u{2500}\u{2500} x
\u{2514}\u{2500}\u{2500} -1
";
    assert_eq!(sample_tree_simple().render(), expected_output);
}

#[test]
fn test_structural_equality_ignores_children() {
    let arena: Vec<String> = ["+", "x", "y"].iter().map(|w| w.to_string()).collect();
    let with_index = {
        let mut children: HashMap<usize, Vec<usize>> = HashMap::new();
        children.insert(0, vec![1, 2]);
        TreeGenotype::new(arena.clone(), children)
    };
    let without_index = TreeGenotype::with_arena(arena);
    assert_eq!(with_index, without_index);
    assert_ne!(with_index, TreeGenotype::default());
}
