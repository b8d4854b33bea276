use rand::rngs::StdRng;
use rand::SeedableRng;

use mycoforge::operators::functions::Float;
use mycoforge::operators::sampler::OperatorSampler;
use mycoforge::tree::genotype::TreeGenotype;
use mycoforge::tree::individual::TreeIndividual;
use mycoforge::tree::init::Grow;
use mycoforge::tree::select::TournamentSelection;
use mycoforge::PROB_SCALE;

#[derive(Clone, Copy, Debug, PartialEq)]
struct Scalar(f64);

impl Float for Scalar {
    fn zero() -> Self { Scalar(0.0) }
    fn one() -> Self { Scalar(1.0) }
    fn min_value() -> Self { Scalar(f64::MIN) }
    fn max_value() -> Self { Scalar(1e10) }
    fn neg_infinity() -> Self { Scalar(f64::NEG_INFINITY) }
    fn epsilon() -> Self { Scalar(1e-6) }
    fn sin(self) -> Self { Scalar(self.0.sin()) }
    fn cos(self) -> Self { Scalar(self.0.cos()) }
    fn ln(self) -> Self { Scalar(self.0.ln()) }
    fn sqrt(self) -> Self { Scalar(self.0.sqrt()) }
    fn abs(self) -> Self { Scalar(self.0.abs()) }
    fn is_finite(self) -> bool { self.0.is_finite() }
    fn signum(self) -> Self { Scalar(self.0.signum()) }
    fn add(self, other: Self) -> Self { Scalar(self.0 + other.0) }
    fn sub(self, other: Self) -> Self { Scalar(self.0 - other.0) }
    fn mul(self, other: Self) -> Self { Scalar(self.0 * other.0) }
    fn div(self, other: Self) -> Self { Scalar(self.0 / other.0) }
    fn lt(self, other: Self) -> bool { self.0 < other.0 }
    fn ratio(num: u64, den: u64) -> Self { Scalar(num as f64 / den as f64) }
    fn from_label(label: &str) -> Option<Self> { label.parse::<f64>().ok().map(Scalar) }
    fn to_label(self) -> String { format!("{}", self.0) }
}

fn leaf(label: &str) -> TreeGenotype {
    TreeGenotype::with_arena(vec![label.to_string()])
}

#[test]
fn test_individual_creation() {
    let individual = TreeIndividual::new(TreeGenotype::default(), Scalar(0.0));
    assert!(individual.genotype().arena().is_empty()
        && individual.genotype().children().is_empty(),
        "the default individual should be empty");
    assert!(0.0 - individual.phenotype().0 < 1e-10,
        "the default individual's fitness should be {}, found {}", 0.0, individual.phenotype().0);
}

#[test]
fn test_from_vecs() {
    let genotypes = vec![leaf("x"), leaf("y")];
    let fitness = vec![Scalar(1.0), Scalar(2.0)];
    let individuals = TreeIndividual::from_vecs(&genotypes, &fitness);
    assert_eq!(individuals.len(), 2);
    assert_eq!(individuals[0].phenotype(), Scalar(1.0));
    assert_eq!(individuals[1].phenotype(), Scalar(2.0));
    assert_eq!(individuals[0].genotype().arena(), genotypes[0].arena());
    assert_eq!(individuals[1].genotype().arena(), genotypes[1].arena());
}

#[test]
fn test_from_genotype_vec() {
    let genotypes = vec![leaf("x"), leaf("y"), leaf("z")];
    let individuals: Vec<TreeIndividual<TreeGenotype, Scalar>> =
        TreeIndividual::from_genotype_vec(&genotypes);
    assert_eq!(individuals.len(), 3);
    for (individual, genotype) in individuals.iter().zip(genotypes.iter()) {
        assert_eq!(individual.genotype().arena(), genotype.arena());
        assert_eq!(individual.phenotype().0, f64::NEG_INFINITY);
    }
}

#[test]
fn test_to_genotype_vec() {
    let genotypes = vec![leaf("x"), leaf("y")];
    let fitness = vec![Scalar(1.0), Scalar(2.0)];
    let individuals = TreeIndividual::from_vecs(&genotypes, &fitness);
    let back = TreeIndividual::to_genotype_vec(&individuals);
    assert_eq!(back.len(), 2);
    assert_eq!(back[0].arena(), genotypes[0].arena());
    assert_eq!(back[1].arena(), genotypes[1].arena());
}

#[test]
fn test_tournament_selection_picks_member() {
    let operators: Vec<String> = ["+", "x", "y"].iter().map(|&w| w.to_string()).collect();
    let sampler = OperatorSampler::new(operators, vec![2, 0, 0], vec![PROB_SCALE / 3; 3]);
    let mut rng = StdRng::seed_from_u64(42);

    let genotypes: Vec<TreeGenotype> = (0..8)
        .map(|_| Grow::new(1, 3).initialize(&mut rng, &sampler))
        .collect();
    let fitness: Vec<Scalar> = (0..8).map(|i| Scalar(i as f64)).collect();
    let population = TreeIndividual::from_vecs(&genotypes, &fitness);

    let selection = TournamentSelection::new(3);
    assert_eq!(3, selection.tournament_size());
    for _ in 0..20 {
        let winner = selection.select(&mut rng, &population);
        assert!(genotypes.iter().any(|g| g.arena() == winner.arena()),
            "the winner must be a population member");
    }
}

#[test]
fn test_tournament_of_whole_population_picks_best() {
    let genotypes = vec![leaf("a"), leaf("b"), leaf("c")];
    let fitness = vec![Scalar(5.0), Scalar(1.0), Scalar(9.0)];
    let population = TreeIndividual::from_vecs(&genotypes, &fitness);
    let selection = TournamentSelection::new(3);
    let mut rng = StdRng::seed_from_u64(1);
    for _ in 0..10 {
        let winner = selection.select(&mut rng, &population);
        assert_eq!(winner.arena()[0], "b", "the lowest error must win a full tournament");
    }
}
