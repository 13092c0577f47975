//! Proof-of-work engine of a Shaicoin miner: the seeded graph builder, the
//! Hamiltonian-cycle search, the two-stage hash pipeline, and the decisions of
//! the worker and pool-session loops, each with a machine-checked contract.

pub mod api;
pub mod cycle;
pub mod graph;
pub mod hash256;
pub mod hasher;
pub mod hexfmt;
pub mod miner;
pub mod models;
pub mod prng;
pub mod utils;
pub mod vdf_solution;
