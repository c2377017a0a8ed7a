//! Exploration of a parameter space by a genetic algorithm whose fitness is the
//! outcome of an epidemic simulation on a random network.
//!
//! A population of individuals, each a binary genome with one allele per node of
//! the network, is evolved generation by generation: every individual is scored by
//! the outcome of its simulation, the population is halved by weighted pairwise
//! elimination, refilled by midpoint crossover, and mutated. The simulation itself
//! is the caller's: the [`driver`] hands out the population and takes the outcomes.
//!
//! Chance comes from outside: every operator is handed the random source it draws
//! from, and its contract says what holds whatever is drawn.

pub mod config;
pub mod error;
pub mod fitness;
pub mod network;
pub mod generator;
pub mod individual;
pub mod population;
pub mod probability;
pub mod random;
pub mod selection;
pub mod crossover;
pub mod mutation;
pub mod evaluation;
pub mod breeding;
pub mod history;
pub mod init;
pub mod driver;
