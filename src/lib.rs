//! A genetic-algorithm engine that evolves a fixed-size population of
//! fixed-width bitstrings under a Cournot-style competitive payoff.
pub mod bits;
pub mod chromosome;
pub mod random;
pub mod run;
pub mod selection;
