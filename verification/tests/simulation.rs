use evosim::rng::SimRng;
use evosim::simulation::{Config, Simulation, World};
use evosim::SimError;

fn config() -> Config {
    Config {
        n_animals: 8,
        n_foods: 12,
        world_size: 1_000_000,
        topology: vec![2, 4, 2],
        mutation_chance: 300_000,
        mutation_coeff: 200_000,
    }
}

#[test]
fn zero_animals_is_a_configuration_error() {
    let mut rng = SimRng::from_seed(10);
    let mut c = config();
    c.n_animals = 0;
    assert!(matches!(Simulation::random(c, &mut rng), Err(SimError::InvalidConfiguration)));
}

#[test]
fn zero_foods_is_a_configuration_error() {
    let mut rng = SimRng::from_seed(10);
    let mut c = config();
    c.n_foods = 0;
    assert!(matches!(World::random(c, &mut rng), Err(SimError::InvalidConfiguration)));
}

#[test]
fn bad_mutation_chance_is_a_configuration_error() {
    let mut rng = SimRng::from_seed(10);
    let mut c = config();
    c.mutation_chance = 1_000_001;
    assert!(matches!(Simulation::random(c, &mut rng), Err(SimError::InvalidConfiguration)));
}

#[test]
fn world_spawns_the_configured_counts() {
    let mut rng = SimRng::from_seed(11);
    let sim = Simulation::random(config(), &mut rng).unwrap();
    assert_eq!(sim.world().animals().len(), 8);
    assert_eq!(sim.world().foods().len(), 12);
    for a in sim.world().animals() {
        let p = a.position();
        assert!(p.x >= 0 && p.x < 1_000_000);
        assert!(p.y >= 0 && p.y < 1_000_000);
        assert_eq!(a.fitness(), 0);
    }
    for f in sim.world().foods() {
        let p = f.position();
        assert!(p.x >= 0 && p.x < 1_000_000);
        assert!(p.y >= 0 && p.y < 1_000_000);
    }
}

#[test]
fn tick_preserves_counts_and_never_loses_fitness() {
    let mut rng = SimRng::from_seed(12);
    let mut sim = Simulation::random(config(), &mut rng).unwrap();
    for _ in 0..50 {
        let before: Vec<u32> = sim.world().animals().iter().map(|a| a.fitness()).collect();
        sim.tick(&mut rng);
        assert_eq!(sim.world().animals().len(), 8);
        assert_eq!(sim.world().foods().len(), 12);
        let after: Vec<u32> = sim.world().animals().iter().map(|a| a.fitness()).collect();
        for i in 0..8 {
            assert!(after[i] >= before[i]);
            assert!(after[i] <= before[i] + 12);
        }
    }
}

#[test]
fn generation_boundary_reports_and_resets_fitness() {
    let mut rng = SimRng::from_seed(13);
    let mut sim = Simulation::random(config(), &mut rng).unwrap();
    for _ in 0..25 {
        sim.tick(&mut rng);
    }
    let closing: Vec<u32> = sim.world().animals().iter().map(|a| a.fitness()).collect();
    let stats = sim.step_generation(&mut rng);
    assert_eq!(stats.population, 8);
    assert_eq!(stats.fitnesses, closing);
    assert_eq!(sim.world().animals().len(), 8);
    assert_eq!(sim.world().foods().len(), 12);
    for a in sim.world().animals() {
        assert_eq!(a.fitness(), 0);
    }
}

#[test]
fn identical_seeds_give_identical_runs() {
    // Determinism: the same seed and configuration reproduce the whole
    // fitness trajectory and the final agent poses, bit for bit.
    let mut runs: Vec<(Vec<Vec<u32>>, Vec<(i64, i64, i64)>)> = Vec::new();
    for _ in 0..2 {
        let mut rng = SimRng::from_seed(42);
        let mut sim = Simulation::random(config(), &mut rng).unwrap();
        let mut trajectory: Vec<Vec<u32>> = Vec::new();
        for _ in 0..3 {
            for _ in 0..20 {
                sim.tick(&mut rng);
            }
            let stats = sim.step_generation(&mut rng);
            trajectory.push(stats.fitnesses);
        }
        let poses: Vec<(i64, i64, i64)> = sim
            .world()
            .animals()
            .iter()
            .map(|a| (a.position().x, a.position().y, a.rotation()))
            .collect();
        runs.push((trajectory, poses));
    }
    assert_eq!(runs[0], runs[1]);
}

#[test]
fn different_seeds_differ() {
    let mut poses: Vec<Vec<(i64, i64)>> = Vec::new();
    for seed in [1u64, 2u64] {
        let mut rng = SimRng::from_seed(seed);
        let sim = Simulation::random(config(), &mut rng).unwrap();
        poses.push(sim.world().animals().iter().map(|a| (a.position().x, a.position().y)).collect());
    }
    assert_ne!(poses[0], poses[1]);
}
