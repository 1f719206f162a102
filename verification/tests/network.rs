use evosim::fx::SCALE;
use evosim::genetic_algorithm::Chromosome;
use evosim::neural_network::{Layer, Network, Neuron};
use evosim::rng::SimRng;
use evosim::SimError;

// One neuron, bias 0.5 and weights [-0.3, 0.8, 0.9] in fixed point.
fn half_neuron() -> Neuron {
    Neuron { bias: 500_000, weights: vec![-300_000, 800_000, 900_000] }
}

#[test]
fn propagate() {
    let neuron = half_neuron();

    // A strongly negative input clamps to zero: the ReLU at work.
    assert_eq!(neuron.propagate(&vec![-10 * SCALE, -10 * SCALE, -10 * SCALE]), 0);

    // (-0.3 * 0.5) + (0.8 * 1.0) + (0.9 * 2.0) + 0.5 = 2.95, exactly.
    assert_eq!(neuron.propagate(&vec![500_000, 1_000_000, 2_000_000]), 2_950_000);
}

#[test]
fn propagate_layer_orders_outputs() {
    let layer = Layer {
        neurons: vec![
            Neuron { bias: 0, weights: vec![SCALE] },
            Neuron { bias: 100, weights: vec![2 * SCALE] },
        ],
    };
    let out = layer.propagate(&vec![300_000]);
    assert_eq!(out, vec![300_000, 600_100]);
}

#[test]
fn propagate_network_output_shape() {
    let mut rng = SimRng::from_seed(7);
    let net = Network::random(&mut rng, &vec![2usize, 3, 2]).unwrap();
    let out = net.propagate(&vec![SCALE, -SCALE]).unwrap();
    assert_eq!(out.len(), 2);
    assert!(out.iter().all(|v| *v >= 0));
}

#[test]
fn propagate_rejects_wrong_input_width() {
    let mut rng = SimRng::from_seed(7);
    let net = Network::random(&mut rng, &vec![2usize, 3, 2]).unwrap();
    assert_eq!(net.propagate(&vec![1, 2, 3]), Err(SimError::ShapeMismatch));
}

#[test]
fn from_weights_decodes_in_fixed_order() {
    // Topology [2, 1]: one neuron, bias first, then its two weights.
    let genes = Chromosome::from_genes(vec![500_000, SCALE, -SCALE]);
    let net = Network::from_weights(&vec![2usize, 1], &genes).unwrap();
    // 0.5 + 1.0 * 0.25 + (-1.0) * 0.5 = 0.25
    assert_eq!(net.propagate(&vec![250_000, 500_000]).unwrap(), vec![250_000]);
}

#[test]
fn from_weights_rejects_wrong_length() {
    let genes = Chromosome::from_genes(vec![1, 2, 3, 4]);
    assert_eq!(
        Network::from_weights(&vec![2usize, 1], &genes).err(),
        Some(SimError::ShapeMismatch)
    );
}

#[test]
fn from_weights_rejects_bad_topology() {
    let genes = Chromosome::from_genes(vec![]);
    assert_eq!(
        Network::from_weights(&vec![2usize], &genes).err(),
        Some(SimError::InvalidConfiguration)
    );
    assert_eq!(
        Network::from_weights(&vec![2usize, 0, 1], &genes).err(),
        Some(SimError::InvalidConfiguration)
    );
}

#[test]
fn random_network_parameters_stay_in_unit_band() {
    let mut rng = SimRng::from_seed(21);
    let net = Network::random(&mut rng, &vec![2usize, 5, 2]).unwrap();
    let genome = net.to_chromosome();
    for i in 0..genome.len() {
        assert!(genome.gene(i) >= -SCALE && genome.gene(i) <= SCALE);
    }
}

#[test]
fn weights_round_trip() {
    let genes: Vec<i64> = (0..17).map(|g| (g as i64 - 8) * 123_456).collect();
    let net = Network::from_weights(&vec![2usize, 3, 2], &Chromosome::from_genes(genes.clone()))
        .unwrap();
    let back = net.to_chromosome();
    assert_eq!(back.as_genes(), &genes);
}

#[test]
fn random_network_round_trips_through_its_genome() {
    let mut rng = SimRng::from_seed(99);
    let topology = vec![2usize, 4, 3, 2];
    let net = Network::random(&mut rng, &topology).unwrap();
    let genome = net.to_chromosome();
    // 4*(2+1) + 3*(4+1) + 2*(3+1) genes.
    assert_eq!(genome.len(), 12 + 15 + 8);
    let rebuilt = Network::from_weights(&topology, &genome).unwrap();
    let probe = vec![123_456, -654_321];
    assert_eq!(rebuilt.propagate(&probe), net.propagate(&probe));
}
