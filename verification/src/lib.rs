//! Verified core of an evolutionary reinforcement-learning pipeline.
//!
//! A population of agents, each coupling a clipped-surrogate policy-gradient
//! learner with a fitness score, is run as a sequential transformation
//! pipeline and evolved by elitist selection.  A bounded least-recently-used
//! cache memoizes recently computed values, and a goal-seeking environment
//! supplies the reward signal.  All numeric reasoning is carried out over
//! exact integer rationals.

pub mod cognitive_thought_entity;
pub mod config;
pub mod environment;
pub mod errors;
pub mod gradient_cache;
pub mod knowledge_graph;
pub mod ppo;
pub mod ratio;
pub mod retrieval_system;
pub mod thought_chain;
mod rng;
pub mod text;
pub mod tokenizer;

use vstd::prelude::*;

verus! {

/// The goal state every freshly constructed environment seeks.
pub const GOAL_STATE: i64 = 10;

} // verus!
