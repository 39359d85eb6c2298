//! Neuro-evolution of grid-world agents.
//!
//! A population of agents lives on a discrete two-dimensional grid. Each agent
//! is steered by a small neural network whose topology is part of its genome.
//! At the end of a round the nodes of every network are scored into the gene
//! pool of the agent's group, and the next generation is bred from the best
//! of them.
//!
//! Three conventions hold throughout.
//!
//! - Quantities that are real numbers on paper (charges, weights, signals,
//!   colours, fitness) are held in fixed point, in thousandths, so that every
//!   rule of the engine is exact integer arithmetic.
//! - Maps are association lists that keep the order in which keys came in,
//!   so that walking one is repeatable.
//! - Every random choice is a draw from a seeded stream that is passed
//!   along, so that the same seed gives the same run.
//!
//! The modules, from the leaves up: `rng`, `actions`, `input`, `world` and
//! `assoc`; `net` with `genome`, `mutation`, `prune` and `allele`; `pool`;
//! `replicant` and `sense`; `simulation` with `scatter`, `think` and `act`;
//! `server` with `scoring` and `breeding`; `render`.

pub mod act;
pub mod actions;
pub mod allele;
pub mod assoc;
pub mod breeding;
pub mod genome;
pub mod input;
pub mod mutation;
pub mod net;
pub mod pool;
pub mod prune;
pub mod render;
pub mod replicant;
pub mod rng;
pub mod scatter;
pub mod scoring;
pub mod sense;
pub mod server;
pub mod simulation;
pub mod think;
pub mod world;
