use neuroevolution::activation::{sigmoid, ONE, ONE_SQUARED};
use neuroevolution::network::{mutation_outcome, NeuralNetwork, INPUT_LIMIT, PARAM_LIMIT, RATE_ONE};
use rand::rngs::StdRng;
use rand::SeedableRng;

fn all_params(n: &NeuralNetwork) -> Vec<i64> {
    let mut v: Vec<i64> = Vec::new();
    for row in &n.weights_input_hidden {
        v.extend(row.iter().copied());
    }
    for row in &n.weights_hidden_output {
        v.extend(row.iter().copied());
    }
    v.extend(n.bias_hidden.iter().copied());
    v.extend(n.bias_output.iter().copied());
    v
}

fn same_network(a: &NeuralNetwork, b: &NeuralNetwork) -> bool {
    a.input_size == b.input_size
        && a.hidden_size == b.hidden_size
        && a.output_size == b.output_size
        && a.weights_input_hidden == b.weights_input_hidden
        && a.weights_hidden_output == b.weights_hidden_output
        && a.bias_hidden == b.bias_hidden
        && a.bias_output == b.bias_output
}

fn assert_shape(n: &NeuralNetwork, i: usize, h: usize, o: usize) {
    assert_eq!((n.input_size, n.hidden_size, n.output_size), (i, h, o));
    assert_eq!(n.weights_input_hidden.len(), h);
    assert!(n.weights_input_hidden.iter().all(|r| r.len() == i));
    assert_eq!(n.weights_hidden_output.len(), o);
    assert!(n.weights_hidden_output.iter().all(|r| r.len() == h));
    assert_eq!(n.bias_hidden.len(), h);
    assert_eq!(n.bias_output.len(), o);
}

/// A 2-2-1 network with hand-picked parameters.
fn small_network() -> NeuralNetwork {
    NeuralNetwork {
        weights_input_hidden: vec![vec![10_000, -5_000], vec![20_000, 20_000]],
        weights_hidden_output: vec![vec![-20_000, 15_000]],
        bias_hidden: vec![0, -10_000],
        bias_output: vec![19_999],
        input_size: 2,
        hidden_size: 2,
        output_size: 1,
    }
}

#[test]
fn sigmoid_at_zero_is_one_half() {
    assert_eq!(sigmoid(0), 5_000);
}

#[test]
fn sigmoid_hits_tabulated_knots() {
    assert_eq!(sigmoid(ONE_SQUARED), 7_311);
    assert_eq!(sigmoid(-ONE_SQUARED), 2_689);
    assert_eq!(sigmoid(2 * ONE_SQUARED), 8_808);
}

#[test]
fn sigmoid_interpolates_between_knots() {
    // Half way between x = 0 (5000) and x = 0.25 (5622).
    assert_eq!(sigmoid(ONE_SQUARED / 8), 5_311);
}

#[test]
fn sigmoid_saturates_but_stays_open() {
    assert_eq!(sigmoid(1_000 * ONE_SQUARED), 9_997);
    assert_eq!(sigmoid(-1_000 * ONE_SQUARED), 3);
    assert_eq!(sigmoid(i128::MAX), 9_997);
    assert_eq!(sigmoid(i128::MIN), 3);
}

#[test]
fn sigmoid_tracks_the_logistic_curve() {
    let mut z: i128 = -12 * ONE_SQUARED;
    while z <= 12 * ONE_SQUARED {
        let x = z as f64 / ONE_SQUARED as f64;
        let exact = 1.0 / (1.0 + (-x).exp());
        let got = sigmoid(z) as f64 / ONE as f64;
        assert!((exact - got).abs() < 0.001, "x = {}: {} vs {}", x, got, exact);
        z += ONE_SQUARED / 40;
    }
}

#[test]
fn forward_on_hand_picked_network() {
    let n = small_network();
    let out = n.forward(&[10_000, 0]);
    // hidden 0: sigmoid(1.0) = 0.7311; hidden 1: sigmoid(-1.0 + 2.0) = 0.7311
    // output: sigmoid(1.9999 - 2.0 * 0.7311 + 1.5 * 0.7311) = sigmoid(1.63435)
    let x: i128 = 19_999 * ONE as i128 - 20_000 * 7_311 + 15_000 * 7_311;
    assert_eq!(out, vec![sigmoid(x)]);
    assert_eq!(out.len(), 1);
}

#[test]
fn forward_outputs_lie_strictly_between_zero_and_one() {
    let mut rng = StdRng::seed_from_u64(7);
    let n = NeuralNetwork::new(4, 8, 3, &mut rng);
    for inputs in [
        [0, 0, 0, 0],
        [INPUT_LIMIT, INPUT_LIMIT, INPUT_LIMIT, INPUT_LIMIT],
        [-INPUT_LIMIT, -INPUT_LIMIT, -INPUT_LIMIT, -INPUT_LIMIT],
        [INPUT_LIMIT, -INPUT_LIMIT, 3_000, -7],
    ] {
        let out = n.forward(&inputs);
        assert_eq!(out.len(), 3);
        assert!(out.iter().all(|&o| 0 < o && o < ONE));
    }
}

#[test]
fn forward_is_deterministic() {
    let mut rng = StdRng::seed_from_u64(11);
    let n = NeuralNetwork::new(4, 8, 1, &mut rng);
    let x = [1_234, -5_678, 9_000, 0];
    assert_eq!(n.forward(&x), n.forward(&x));
}

#[test]
fn new_draws_parameters_in_unit_range() {
    let mut rng = StdRng::seed_from_u64(1);
    let n = NeuralNetwork::new(4, 8, 1, &mut rng);
    assert_shape(&n, 4, 8, 1);
    let p = all_params(&n);
    assert_eq!(p.len(), 4 * 8 + 8 + 8 + 1);
    assert!(p.iter().all(|&v| (-ONE..=ONE).contains(&v)));
    // Independent draws: not all the same value.
    assert!(p.iter().any(|&v| v != p[0]));
}

#[test]
fn mutate_at_rate_zero_changes_nothing() {
    let mut rng = StdRng::seed_from_u64(2);
    let mut n = NeuralNetwork::new(4, 8, 1, &mut rng);
    let before = n.clone();
    n.mutate(0, 15_000, &mut rng);
    assert!(same_network(&n, &before));
    n.mutate(0, -3, &mut rng);
    assert!(same_network(&n, &before));
}

#[test]
fn mutate_at_full_rate_moves_each_parameter_by_at_most_strength() {
    let mut rng = StdRng::seed_from_u64(3);
    let mut n = NeuralNetwork::new(4, 8, 1, &mut rng);
    let before = all_params(&n);
    let strength = 3_000;
    n.mutate(RATE_ONE, strength, &mut rng);
    let after = all_params(&n);
    assert_shape(&n, 4, 8, 1);
    for (a, b) in before.iter().zip(after.iter()) {
        assert!((a - b).abs() <= strength);
        assert!((-PARAM_LIMIT..=PARAM_LIMIT).contains(b));
    }
    assert_ne!(before, after);
}

#[test]
fn mutate_clamps_to_two() {
    let mut rng = StdRng::seed_from_u64(4);
    let mut n = small_network();
    n.mutate(RATE_ONE, 1_000_000, &mut rng);
    let after = all_params(&n);
    assert!(after.iter().all(|&v| (-PARAM_LIMIT..=PARAM_LIMIT).contains(&v)));
    assert!(after.iter().any(|&v| v == PARAM_LIMIT || v == -PARAM_LIMIT));
}

#[test]
fn crossover_with_itself_is_identity() {
    let mut rng = StdRng::seed_from_u64(5);
    let a = NeuralNetwork::new(4, 8, 1, &mut rng);
    let child = a.crossover(&a, &mut rng);
    assert!(same_network(&child, &a));
}

#[test]
fn crossover_takes_each_parameter_from_a_parent() {
    let mut rng = StdRng::seed_from_u64(6);
    let a = NeuralNetwork::new(4, 8, 1, &mut rng);
    let b = NeuralNetwork::new(4, 8, 1, &mut rng);
    let child = a.crossover(&b, &mut rng);
    assert_shape(&child, 4, 8, 1);
    let (pa, pb, pc) = (all_params(&a), all_params(&b), all_params(&child));
    for i in 0..pc.len() {
        assert!(pc[i] == pa[i] || pc[i] == pb[i]);
    }
    assert!((0..pc.len()).any(|i| pc[i] != pa[i]));
    assert!((0..pc.len()).any(|i| pc[i] != pb[i]));
}

#[test]
fn clone_is_a_deep_copy() {
    let mut rng = StdRng::seed_from_u64(8);
    let a = NeuralNetwork::new(3, 2, 2, &mut rng);
    let mut b = a.clone();
    assert!(same_network(&a, &b));
    b.mutate(RATE_ONE, 5_000, &mut rng);
    assert_shape(&a, 3, 2, 2);
    assert!(!same_network(&a, &b));
}

#[test]
fn mutation_outcome_moves_and_clamps() {
    assert_eq!(mutation_outcome(1_000, 3, 5, 2_000), 3_000);
    assert_eq!(mutation_outcome(19_000, 3, 5, 2_000), 20_000);
    assert_eq!(mutation_outcome(-19_000, 0, 1, -2_000), -20_000);
    assert_eq!(mutation_outcome(1_000, 5, 5, 2_000), 1_000);
    assert_eq!(mutation_outcome(1_000, 0, 0, 2_000), 1_000);
    assert_eq!(mutation_outcome(0, 0, 1, i64::MAX), 20_000);
    assert_eq!(mutation_outcome(0, 0, 1, i64::MIN), -20_000);
}
