use evosim::fx::SCALE;
use evosim::genetic_algorithm::{Chromosome, CrossoverAlgorithm, GaussianMutation,
    GeneticAlgorithm, Individual, MutationAlgorithm, RouletteWheelSelection, SelectionAlgorithm,
    UniformCrossover};
use evosim::rng::SimRng;
use evosim::simulation::ScoredIndividual;
use evosim::SimError;

#[test]
fn roulette_wheel_selection() {
    // Individuals with fitness 0..9; the selection frequency over 100 000
    // fixed-seed draws must be proportional to fitness / 45, up to
    // sampling noise, and fitness 0 must never be drawn.
    let fitnesses: Vec<u64> = (0..10).collect();
    let mut rng = SimRng::from_seed(0);
    let selection = RouletteWheelSelection {};
    let mut histogram = [0u32; 10];
    for _ in 0..100_000 {
        let idx = selection.select(&mut rng, &fitnesses);
        histogram[idx] += 1;
    }
    assert_eq!(histogram[0], 0);
    assert_eq!(histogram.iter().map(|c| *c as u64).sum::<u64>(), 100_000);
    for f in 1..10usize {
        let expected = 100_000.0 * (f as f64) / 45.0;
        let got = histogram[f] as f64;
        assert!(
            (got - expected).abs() < expected * 0.10,
            "fitness {} drawn {} times, expected about {}",
            f,
            got,
            expected
        );
    }
}

#[test]
fn roulette_wheel_uniform_fallback_on_all_zero() {
    // The documented policy for the degenerate all-zero population: a
    // uniform draw instead of an undefined proportionate one.
    let fitnesses: Vec<u64> = vec![0, 0, 0, 0];
    let mut rng = SimRng::from_seed(1);
    let selection = RouletteWheelSelection {};
    let mut seen = [false; 4];
    for _ in 0..200 {
        let idx = selection.select(&mut rng, &fitnesses);
        assert!(idx < 4);
        seen[idx] = true;
    }
    assert!(seen.iter().all(|s| *s));
}

#[test]
fn uniform_crossover_takes_each_gene_from_a_parent() {
    let a = Chromosome::from_genes((0..64).map(|g| g as i64).collect());
    let b = Chromosome::from_genes((0..64).map(|g| 1000 + g as i64).collect());
    let mut rng = SimRng::from_seed(2);
    let child = UniformCrossover.crossover(&mut rng, &a, &b);
    assert_eq!(child.len(), 64);
    let mut from_a = 0;
    let mut from_b = 0;
    for i in 0..64usize {
        let g = child.gene(i);
        assert!(g == a.gene(i) || g == b.gene(i));
        if g == a.gene(i) {
            from_a += 1;
        } else {
            from_b += 1;
        }
    }
    // With a fair per-position coin both parents contribute.
    assert!(from_a > 0 && from_b > 0);
}

#[test]
fn gaussian_mutation_validates_its_configuration() {
    assert!(GaussianMutation::new(0, 0).is_ok());
    assert!(GaussianMutation::new(SCALE, 250_000).is_ok());
    assert_eq!(GaussianMutation::new(-1, 0).err(), Some(SimError::InvalidConfiguration));
    assert_eq!(GaussianMutation::new(SCALE + 1, 0).err(), Some(SimError::InvalidConfiguration));
    assert_eq!(GaussianMutation::new(0, -5).err(), Some(SimError::InvalidConfiguration));
}

#[test]
fn mutation_preserves_length_and_stays_bounded() {
    let genes: Vec<i64> = (0..100).map(|g| g as i64 * 10_000).collect();
    let mut chromosome = Chromosome::from_genes(genes.clone());
    let mutation = GaussianMutation::new(SCALE, 250_000).unwrap();
    let mut rng = SimRng::from_seed(3);
    mutation.mutate(&mut rng, &mut chromosome);
    assert_eq!(chromosome.len(), 100);
    let mut moved = 0;
    for i in 0..100usize {
        let delta = chromosome.gene(i) - genes[i];
        assert!(delta.abs() <= 250_000);
        if delta != 0 {
            moved += 1;
        }
    }
    // Mutation chance 1.0: essentially every gene moves.
    assert!(moved > 50);
}

#[test]
fn zero_chance_mutation_changes_nothing() {
    let genes: Vec<i64> = (0..32).map(|g| g as i64 - 16).collect();
    let mut chromosome = Chromosome::from_genes(genes.clone());
    let mutation = GaussianMutation::new(0, SCALE).unwrap();
    let mut rng = SimRng::from_seed(4);
    mutation.mutate(&mut rng, &mut chromosome);
    assert_eq!(chromosome.as_genes(), &genes);
}

#[test]
fn evolve_keeps_population_size_and_genome_length() {
    let population: Vec<ScoredIndividual> = (0..7u32)
        .map(|f| {
            ScoredIndividual::new(
                Chromosome::from_genes((0..11).map(|g| (g + f as i64) * 1000).collect()),
                f,
            )
        })
        .collect();
    let ga = GeneticAlgorithm::new(
        RouletteWheelSelection {},
        UniformCrossover,
        GaussianMutation::new(SCALE / 2, 100_000).unwrap(),
    );
    let mut rng = SimRng::from_seed(5);
    let next = ga.evolve(&mut rng, &population);
    assert_eq!(next.len(), 7);
    for child in &next {
        assert_eq!(child.chromosome().len(), 11);
    }
}

#[test]
fn evolve_of_empty_population_is_empty() {
    let population: Vec<ScoredIndividual> = Vec::new();
    let ga = GeneticAlgorithm::new(
        RouletteWheelSelection {},
        UniformCrossover,
        GaussianMutation::new(0, 0).unwrap(),
    );
    let mut rng = SimRng::from_seed(6);
    assert_eq!(ga.evolve(&mut rng, &population).len(), 0);
}
