//! A rule engine for the trick-taking card game Hearts: legal-move
//! enforcement, trick resolution, penalty scoring, and the heuristic
//! card-selection policy, all with verified contracts.

pub mod agent;
pub mod cards;
pub mod counting;
pub mod legality;
pub mod penalty;
pub mod rng;
pub mod round;
pub mod scoring;
pub mod trick;
