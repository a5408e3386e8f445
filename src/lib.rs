//! Phase-oscillator associative memory: the integer core.
//!
//! The seeded generator, the fixed network topology, the delayed-phase
//! history rings, the rolling energy statistics and the curriculum
//! controller live here with their contracts. The trigonometric update
//! rules run on floating point outside this crate's verified part and
//! consume these structures.
pub mod rng;
pub mod window;
pub mod curriculum;
pub mod history;
pub mod topology;
