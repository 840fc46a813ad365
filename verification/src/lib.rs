//! Accumulator-transition rollups over an RSA group.
//!
//! A set is committed to by `g^(product of its members) mod m`. This crate
//! holds the arithmetic of that commitment, the embedding of application
//! items into the accumulator's domain, the witness of one batch of removals
//! and insertions, the shape of the circuit that proves such a batch, and the
//! portable form of the keys that a setup over that shape yields.

pub mod accumulator;
pub mod bits;
pub mod domain;
pub mod export;
pub mod field;
pub mod keys;
pub mod limbs;
pub mod natural;
pub mod rollup;
pub mod text;
pub mod witness;
