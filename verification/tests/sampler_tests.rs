use rand::rngs::StdRng;
use rand::SeedableRng;

use mycoforge::operators::sampler::OperatorSampler;
use mycoforge::PROB_SCALE;

#[test]
fn test_update_weights() {
    let operators = vec!["A".to_string(), "B".to_string(), "C".to_string()];
    let arity = vec![2, 0, 0];
    let initial_weights = vec![1u64, 2, 3];
    let mut sampler = OperatorSampler::new(operators, arity, initial_weights);

    let new_weights = vec![2u64, 1, 3];
    sampler.update_weights(new_weights.clone());

    assert_eq!(sampler.weights(), &new_weights);
}

#[test]
fn test_sampler_with_arity() {
    let operators: Vec<String> = ["+", "-", "sin", "x", "y", "z"].iter().map(|&w| w.to_string()).collect();
    let arity = vec![2, 2, 1, 0, 0, 0];
    let weights = vec![PROB_SCALE / 6; 6];

    let sampler = OperatorSampler::new(operators, arity, weights);

    let external = sampler.sampler_with_arity(0, 0);
    let internal = sampler.sampler_with_arity(1, 2);
    let internal_one = sampler.sampler_with_arity(1, 1);
    let internal_two = sampler.sampler_with_arity(2, 2);

    assert_eq!(3, external.operators().len());
    assert_eq!(3, internal.operators().len());
    assert_eq!(1, internal_one.operators().len());
    assert_eq!(2, internal_two.operators().len());
}

fn chi_square(observed: &[usize], probabilities: &[f64], draws: usize) -> f64 {
    observed.iter().zip(probabilities.iter())
        .map(|(&o, &p)| {
            let expected = draws as f64 * p;
            (o as f64 - expected).powi(2) / expected
        })
        .sum()
}

#[test]
fn uniform_sample_works() {
    let mut rng = StdRng::from_seed([0u8; 32]);
    let ids: Vec<String> = (0..5).map(|i| format!("id{}", i)).collect();
    let arity: Vec<usize> = vec![1; 5];
    let weights = vec![PROB_SCALE / 5; 5];
    let sampler = OperatorSampler::new(ids.clone(), arity, weights);

    let n: usize = 1000;
    let mut observed = [0usize; 5];
    for _ in 0..n {
        let (name, _) = sampler.sample(&mut rng);
        let index = ids.iter().position(|id| *id == name).expect("drew an unknown operator");
        observed[index] += 1;
    }

    let expected = [0.2f64; 5];
    // critical value for significance 0.05 at 4 degrees of freedom
    let statistic = chi_square(&observed, &expected, n);
    assert!(statistic < 9.488, "goodness-of-fit failed: {} >= {}", statistic, 9.488);
}

#[test]
fn custom_sample_works() {
    let mut rng = StdRng::from_seed([0u8; 32]);
    let ids: Vec<String> = (0..5).map(|i| format!("id{}", i)).collect();
    let arity: Vec<usize> = vec![1; 5];
    let probabilities = [0.25f64, 0.25, 0.1, 0.1, 0.3];
    let weights: Vec<u64> = probabilities.iter().map(|p| (p * PROB_SCALE as f64) as u64).collect();
    let sampler = OperatorSampler::new(ids.clone(), arity, weights);

    let n: usize = 10000;
    let mut observed = [0usize; 5];
    for _ in 0..n {
        let (name, _) = sampler.sample(&mut rng);
        let index = ids.iter().position(|id| *id == name).expect("drew an unknown operator");
        observed[index] += 1;
    }

    // critical value for significance 0.05 at 4 degrees of freedom
    let statistic = chi_square(&observed, &probabilities, n);
    assert!(statistic < 9.488, "goodness-of-fit failed: {} >= {}", statistic, 9.488);
}

#[test]
fn sample_index_only_positive_weights() {
    let mut rng = StdRng::seed_from_u64(7);
    let operators = vec!["A".to_string(), "B".to_string(), "C".to_string()];
    let arity = vec![0, 0, 0];
    let weights = vec![0u64, 5, 0];
    let sampler = OperatorSampler::new(operators, arity, weights);
    for _ in 0..100 {
        assert_eq!(sampler.sample_index(&mut rng), 1);
    }
}
