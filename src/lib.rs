//! A neuroevolution engine: fixed-topology feed-forward networks in fixed point,
//! a genetic algorithm over them, and the per-agent bookkeeping that turns one
//! episode of an agent into a fitness.
//!
//! Every real number is held in fixed point: a weight, bias, observation or
//! activation `v` stands for `v / ONE`, a probability `p` for `p / RATE_ONE`,
//! and a fitness counts tenths of a point.
pub mod activation;
pub mod agent;
pub mod genetic;
pub mod network;
pub mod random;
pub mod training;

pub use activation::ONE;
pub use agent::AIBird;
pub use genetic::GeneticAlgorithm;
pub use network::{NeuralNetwork, RATE_ONE};
pub use training::{AIStats, AITraining};
