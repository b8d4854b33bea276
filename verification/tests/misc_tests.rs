use std::sync::{Arc, Mutex};

use rand::rngs::StdRng;
use rand::SeedableRng;

use mycoforge::common::types::VectorFunction;
use mycoforge::dataset::logger::{LogEntries, Logger, SimpleLogger};
use mycoforge::genotype::genotype::{Node, TreeGenotype};
use mycoforge::genotype::init::InitUniform;
use mycoforge::genotype::mutation::UniformBinaryMutation;
use mycoforge::operators::builder::{BuilderError, OperatorsBuilder};
use mycoforge::population::config::PopulationConfig;
use mycoforge::PROB_SCALE;

#[test]
fn dfs_works() {
    let arena: Vec<Node<f64>> = ["+", "*", "x", "y", "log", "x"].iter()
        .map(|c| Node::new(c.to_string())).collect();
    let depth: Vec<usize> = vec![0, 1, 2, 2, 1, 2];
    let arity: Vec<usize> = vec![2, 2, 0, 0, 1, 0];

    let tree: TreeGenotype<f64> = TreeGenotype::new(arena, depth, arity);

    let results: Vec<(usize, usize)> = vec![(0, 5), (1, 3), (2, 2), (3, 3), (4, 5), (5, 5)];
    for (i, result) in results.iter().enumerate() {
        let current_res = (i, tree.dfs(i));
        assert_eq!(*result, current_res);
    }

    let arena: Vec<Node<f64>> = ["+", "sin", "*", "*", "2", "pi", "x", "*", "5", "log", "*", "x", "x"]
        .iter().map(|c| Node::new(c.to_string())).collect();
    let depth: Vec<usize> = vec![0, 1, 2, 3, 4, 4, 3, 1, 2, 2, 3, 4, 4];
    let arity: Vec<usize> = vec![2, 1, 2, 2, 0, 0, 0, 2, 0, 1, 2, 0, 0];

    let tree: TreeGenotype<f64> = TreeGenotype::new(arena, depth, arity);

    let results: Vec<(usize, usize)> = vec![
        (0, 12), (1, 6), (2, 6), (3, 5), (4, 4), (5, 5), (6, 6), (7, 12), (8, 8), (9, 12),
        (10, 12), (11, 11), (12, 12),
    ];
    for (i, result) in results.iter().enumerate() {
        let current_res = (i, tree.dfs(i));
        assert_eq!(*result, current_res);
    }
}

#[test]
fn test_generic_tree_accessors() {
    let arena: Vec<Node<u64>> = ["+", "x", "y"].iter().map(|c| Node::new(c.to_string())).collect();
    let tree: TreeGenotype<u64> = TreeGenotype::new(arena, vec![0, 1, 1], vec![2, 0, 0]);
    assert_eq!(tree.len(), 3);
    assert_eq!(*tree.depth(1), 1);
    assert_eq!(*tree.arity(0), 2);
    assert!(!tree.is_leaf(0));
    assert!(tree.is_leaf(2));
    let parts = tree.get_tuple();
    assert_eq!(parts.1, &vec![0, 1, 1]);
}

#[test]
fn init_works() {
    let mut rng = StdRng::from_seed([0u8; 32]);
    let pop_size = 100;
    let init_scheme: InitUniform<bool> = InitUniform::new(10);

    let mut population: Vec<Vec<bool>> = Vec::new();
    for _ in 0..pop_size {
        population.push(init_scheme.initialize(&mut rng));
    }

    assert_eq!(pop_size, population.len(), "the population size is wrong");
    assert!(population.iter().all(|individual| individual.len() == 10));
}

#[test]
fn uniform_binary_mutation_works() {
    let mut rng = StdRng::from_seed([0u8; 32]);
    let init_scheme: InitUniform<bool> = InitUniform::new(10);
    let individual: Vec<bool> = init_scheme.initialize(&mut rng);

    let mutation_scheme = UniformBinaryMutation::new(PROB_SCALE / 2);
    let mutant: Vec<bool> = mutation_scheme.mutate(&mut rng, &individual);
    assert_eq!(individual.len(), mutant.len());
}

#[test]
fn test_log_entries_buffering() {
    let mut entries = LogEntries::default();
    entries.add("first".to_string());
    entries.add("second".to_string());
    let drained = entries.take_all();
    assert_eq!(drained, vec!["first".to_string(), "second".to_string()]);
    assert!(entries.take_all().is_empty());
}

#[test]
fn test_logger_format() {
    let entries = Arc::new(Mutex::new(LogEntries::new(Vec::new())));
    let logger = Logger::new(entries, log::LevelFilter::Info);
    let line = logger.format_log(
        "2024-01-02 03:04:05",
        "INFO",
        "engine",
        "generation done",
        "engine::run",
        "run.rs",
        "17",
    );
    assert_eq!(line, "2024-01-02 03:04:05,INFO,engine,generation done,engine::run,run.rs,17");
}

#[test]
fn test_simple_logger_configuration() {
    let logger = SimpleLogger::new(Some("run.log".to_string()), log::LevelFilter::Warn);
    assert_eq!(logger.file_path(), &Some("run.log".to_string()));
    assert_eq!(*logger.console_level(), log::LevelFilter::Warn);
}

#[test]
fn test_population_config() {
    let config = PopulationConfig::new(2, 50, 10);
    assert_eq!(config.min_size(), 2);
    assert_eq!(config.max_size(), 50);
    assert_eq!(config.target_size(), 10);
    let fallback = PopulationConfig::default();
    assert_eq!(fallback.max_size(), 1000);
    assert_eq!(fallback.target_size(), 100);
}

#[test]
fn test_builder_works() -> Result<(), BuilderError> {
    let half = PROB_SCALE / 2;
    let ops = OperatorsBuilder::default()
        .add_function("+", VectorFunction::Add, 2, PROB_SCALE)?
        .add_variable("x", PROB_SCALE)?
        .build()?;
    assert_eq!(1, ops.functions().len());
    assert_eq!(1, ops.terminals().len());

    let duplicate = OperatorsBuilder::default()
        .add_function("+", VectorFunction::Add, 2, half)?
        .add_function("+", VectorFunction::Add, 2, half);
    assert!(duplicate.is_err());

    let wrong_weights = OperatorsBuilder::default()
        .add_function("+", VectorFunction::Add, 2, half)?
        .add_variable("x", PROB_SCALE)?
        .build();
    assert!(wrong_weights.is_err());

    Ok(())
}

#[test]
fn test_builder_error_taxonomy() {
    // a weight outside the unit interval
    let bad_weight = OperatorsBuilder::default()
        .add_function("+", VectorFunction::Add, 2, PROB_SCALE + 1);
    assert!(matches!(bad_weight, Err(BuilderError::IncorrectWeight)));
    let zero_weight = OperatorsBuilder::default()
        .add_function("+", VectorFunction::Add, 2, 0);
    assert!(matches!(zero_weight, Err(BuilderError::IncorrectWeight)));

    // an empty function set
    let empty = OperatorsBuilder::default().build();
    assert!(matches!(empty, Err(BuilderError::OperatorsIsEmpty)));

    // functions fine, no terminals
    let no_terminals = OperatorsBuilder::default()
        .add_function("+", VectorFunction::Add, 2, PROB_SCALE).unwrap()
        .build();
    assert!(matches!(no_terminals, Err(BuilderError::OperatorsIsEmpty)));

    // a function weight sum off the scale
    let wrong_sum = OperatorsBuilder::default()
        .add_function("+", VectorFunction::Add, 2, PROB_SCALE / 2).unwrap()
        .add_variable("x", PROB_SCALE).unwrap()
        .build();
    assert!(matches!(wrong_sum, Err(BuilderError::WrongWeightSum)));
}

#[test]
fn test_node_label() {
    let node: Node<u32> = Node::new("sin".to_string());
    let _ = node;
}
