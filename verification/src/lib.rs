//! A stochastic search for a magic hexagon: an assignment of the distinct
//! integers 1..=19 to the 19 cells of a hexagonal board so that each of the
//! 15 straight lines of cells sums to 38.
//!
//! The search is a genetic-style heuristic: keep a population of candidate
//! arrangements, score each against the line topology, discard the weak,
//! and perturb the survivors.

pub mod candidate;
pub mod evolve;
pub mod fitness;
pub mod population;
pub mod report;
pub mod selection;
pub mod rng;
pub mod search;
pub mod sums;
pub mod topology;
