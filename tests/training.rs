use neuroevolution::agent::AIBird;
use neuroevolution::network::NeuralNetwork;
use neuroevolution::training::{
    ai_bird_collision, ai_bird_scoring, ai_bird_thinking, ai_generation_management, finish_generation, generation_over,
    spawn_ai_population, AIStats, AITraining, MAX_GENERATION_TICKS, POPULATION_SIZE,
};
use rand::rngs::StdRng;
use rand::SeedableRng;

/// A 1-1-1 network whose output is above one half exactly when the input is positive.
fn sign_network() -> NeuralNetwork {
    NeuralNetwork {
        weights_input_hidden: vec![vec![20_000]],
        weights_hidden_output: vec![vec![20_000]],
        bias_hidden: vec![0],
        bias_output: vec![-10_000],
        input_size: 1,
        hidden_size: 1,
        output_size: 1,
    }
}

fn bird(frames: u32, score: u32) -> AIBird {
    let mut b = AIBird::new(sign_network());
    b.frames_alive = frames;
    b.score = score;
    b
}

#[test]
fn fitness_formula_with_long_survival_bonus() {
    let mut b = bird(1500, 2);
    b.calculate_fitness();
    // 1500 * 0.1 + 2 * 100 + 500 * 0.5 = 600.0, in tenths
    assert_eq!(b.fitness, 6000);
}

#[test]
fn fitness_formula_without_bonus() {
    let mut b = bird(1000, 0);
    b.calculate_fitness();
    assert_eq!(b.fitness, 1000);
    let mut c = bird(0, 3);
    c.calculate_fitness();
    assert_eq!(c.fitness, 3000);
    let mut d = bird(u32::MAX, u32::MAX);
    d.calculate_fitness();
    let f = u32::MAX as u64;
    assert_eq!(d.fitness, f + f * 1000 + (f - 1000) * 5);
}

#[test]
fn die_freezes_fitness_once() {
    let mut b = bird(1500, 2);
    b.die();
    assert!(!b.alive);
    assert_eq!(b.fitness, 6000);
    b.frames_alive = 3000;
    b.score = 9;
    b.die();
    assert_eq!(b.fitness, 6000);
    assert!(!b.alive);
}

#[test]
fn update_frames_counts_only_while_alive() {
    let mut b = bird(0, 0);
    b.update_frames();
    b.update_frames();
    assert_eq!(b.frames_alive, 2);
    b.die();
    b.update_frames();
    assert_eq!(b.frames_alive, 2);
    let mut c = bird(u32::MAX, 0);
    c.update_frames();
    assert_eq!(c.frames_alive, u32::MAX);
}

#[test]
fn think_thresholds_the_first_output() {
    let b = AIBird::new(sign_network());
    assert!(b.think(&[10_000]));
    assert!(!b.think(&[-10_000]));
    assert!(!b.think(&[0]));
}

#[test]
fn dead_agent_never_activates() {
    let mut b = AIBird::new(sign_network());
    b.die();
    assert!(!b.think(&[10_000]));
}

#[test]
fn new_agent_starts_alive_and_empty() {
    let b = AIBird::new(sign_network());
    assert!(b.alive);
    assert_eq!((b.fitness, b.score, b.frames_alive), (0, 0, 0));
}

#[test]
fn training_starts_idle_with_default_population() {
    let mut rng = StdRng::seed_from_u64(1);
    let t = AITraining::new(&mut rng);
    assert!(!t.training_active);
    assert_eq!(t.current_population.len(), POPULATION_SIZE);
    assert_eq!(t.genetic_algorithm.elite_count, 5);
    assert!(t.current_population.iter().all(|n| (n.input_size, n.hidden_size, n.output_size) == (4, 8, 1)));
    assert_eq!(t.max_generation_ticks, MAX_GENERATION_TICKS);
}

#[test]
fn spawn_creates_one_agent_per_network() {
    let mut rng = StdRng::seed_from_u64(2);
    let mut t = AITraining::new(&mut rng);
    let mut birds: Vec<AIBird> = Vec::new();
    spawn_ai_population(&mut t, &mut birds);
    assert!(t.training_active);
    assert_eq!(birds.len(), POPULATION_SIZE);
    assert_eq!(t.alive_count, POPULATION_SIZE);
    assert!(birds.iter().all(|b| b.alive && b.fitness == 0));
    assert_eq!(birds[3].brain.bias_hidden, t.current_population[3].bias_hidden);
    // A second spawn while running does nothing.
    birds[0].die();
    spawn_ai_population(&mut t, &mut birds);
    assert!(!birds[0].alive);
}

#[test]
fn thinking_counts_frames_and_decides() {
    let mut birds = vec![AIBird::new(sign_network()), AIBird::new(sign_network()), AIBird::new(sign_network())];
    birds[2].die();
    let obs = vec![vec![10_000], vec![-10_000], vec![10_000]];
    let d = ai_bird_thinking(&mut birds, &obs);
    assert_eq!(d, vec![true, false, false]);
    assert_eq!(birds[0].frames_alive, 1);
    assert_eq!(birds[1].frames_alive, 1);
    assert_eq!(birds[2].frames_alive, 0);
}

#[test]
fn collision_kills_and_counts_survivors() {
    let mut rng = StdRng::seed_from_u64(3);
    let mut t = AITraining::new(&mut rng);
    let mut birds = vec![bird(1500, 2), bird(10, 0), bird(5, 1)];
    ai_bird_collision(&mut t, &mut birds, &vec![true, false, true]);
    assert!(!birds[0].alive && birds[1].alive && !birds[2].alive);
    assert_eq!(birds[0].fitness, 6000);
    assert_eq!(birds[2].fitness, 1005);
    assert_eq!(t.alive_count, 1);
}

#[test]
fn scoring_rewards_living_agents_only() {
    let mut birds = vec![bird(0, 0), bird(0, 4), bird(0, 0)];
    birds[2].die();
    ai_bird_scoring(&mut birds, &vec![true, false, true]);
    assert_eq!(birds[0].score, 1);
    assert_eq!(birds[1].score, 4);
    assert_eq!(birds[2].score, 0);
}

#[test]
fn generation_ends_when_all_dead_or_time_is_up() {
    let mut birds = vec![bird(0, 0), bird(0, 0)];
    assert!(!generation_over(&birds, 5, 10));
    assert!(generation_over(&birds, 10, 10));
    birds[0].die();
    assert!(!generation_over(&birds, 5, 10));
    birds[1].die();
    assert!(generation_over(&birds, 5, 10));
    assert!(generation_over(&Vec::new(), 0, 10));
}

#[test]
fn generation_management_waits_while_agents_live() {
    let mut rng = StdRng::seed_from_u64(4);
    let mut t = AITraining::new(&mut rng);
    let mut stats = AIStats::default();
    let mut birds: Vec<AIBird> = Vec::new();
    assert!(!ai_generation_management(&mut t, &mut stats, &mut birds, &mut rng));
    spawn_ai_population(&mut t, &mut birds);
    assert!(!ai_generation_management(&mut t, &mut stats, &mut birds, &mut rng));
    assert_eq!(t.elapsed_ticks, 1);
    assert!(t.training_active);
    assert_eq!(stats, AIStats::default());
}

#[test]
fn generation_management_evolves_when_all_dead() {
    let mut rng = StdRng::seed_from_u64(5);
    let mut t = AITraining::new(&mut rng);
    let mut stats = AIStats::default();
    let mut birds: Vec<AIBird> = Vec::new();
    spawn_ai_population(&mut t, &mut birds);
    for (i, b) in birds.iter_mut().enumerate() {
        b.frames_alive = i as u32 * 10;
        b.score = (i % 3) as u32;
        b.die();
    }
    // Agent 47: 470 frames and 2 points is the best, 470 + 2000 tenths.
    let best_network = t.current_population[47].bias_hidden.clone();
    assert!(ai_generation_management(&mut t, &mut stats, &mut birds, &mut rng));
    assert_eq!(stats.best_fitness, 2470);
    assert_eq!(stats.best_score, 2);
    assert_eq!(stats.generation, 1);
    let total: u64 = (0..50u64).map(|i| i * 10 + (i % 3) * 1000).sum();
    assert_eq!(stats.average_fitness, total / 50);
    assert_eq!(t.genetic_algorithm.generation, 1);
    assert_eq!(t.current_population.len(), POPULATION_SIZE);
    assert_eq!(t.current_population[0].bias_hidden, best_network);
    assert!(!t.training_active);
    assert!(birds.is_empty());
}

#[test]
fn generation_management_finalizes_survivors_at_time_up() {
    let mut rng = StdRng::seed_from_u64(6);
    let mut t = AITraining::new(&mut rng);
    t.max_generation_ticks = 1;
    let mut stats = AIStats::default();
    let mut birds: Vec<AIBird> = Vec::new();
    spawn_ai_population(&mut t, &mut birds);
    birds[7].frames_alive = 1500;
    birds[7].score = 2;
    assert!(ai_generation_management(&mut t, &mut stats, &mut birds, &mut rng));
    assert_eq!(stats.best_fitness, 6000);
    assert_eq!(stats.average_fitness, 6000 / 50);
    assert_eq!(stats.best_score, 2);
}

#[test]
fn finishing_early_uses_the_agents_as_they_stand() {
    let mut rng = StdRng::seed_from_u64(7);
    let mut t = AITraining::new(&mut rng);
    let mut stats = AIStats::default();
    let mut birds: Vec<AIBird> = Vec::new();
    spawn_ai_population(&mut t, &mut birds);
    birds[0].frames_alive = 20;
    birds[0].die();
    birds[0].frames_alive = 90;
    birds[1].frames_alive = 30;
    let second = t.current_population[1].bias_output.clone();
    finish_generation(&mut t, &mut stats, &mut birds, &mut rng);
    // Agent 0 keeps the fitness frozen at its death, agent 1 is finalized now.
    assert_eq!(stats.best_fitness, 30);
    assert_eq!(stats.average_fitness, 50 / 50);
    assert_eq!(stats.best_score, 0);
    assert_eq!(t.current_population[0].bias_output, second);
    assert_eq!(t.alive_count, 0);
    assert_eq!(t.elapsed_ticks, 0);
    assert!(!t.training_active && birds.is_empty());
}
