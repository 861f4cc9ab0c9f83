//! An evolutionary image-approximation engine.
//!
//! A population of candidate RGBA images is scored against a fixed target
//! image with a perceptual colour metric (CIE76 Delta E over Lab), ranked,
//! and evolved by elitism, tournament selection, single-point crossover and
//! per-byte mutation.
//!
//! All numeric work is done in fixed-point integer arithmetic (see
//! [`math::SCALE`]): every value that the textbook colour formulas treat as a
//! real number is carried as an integer count of 1/100000 units, so each
//! function has an exact arithmetic contract.

pub mod color;
pub mod engine;
pub mod fitness;
pub mod math;
pub mod ranking;
pub mod reproduction;
pub mod rng;
pub mod selection;
