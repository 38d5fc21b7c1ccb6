//! The sum-check protocol over the boolean hypercube.
//!
//! A prover claims that a function of `n` boolean variables sums to some
//! value over all `2^n` assignments. The verifier checks the claim in `n`
//! rounds, fixing one variable per round by a random binary challenge.
pub mod example;
pub mod hypercube;
pub mod protocol;
pub mod prover;
pub mod rng;
pub mod session;

pub use example::{example_function, run_example};
pub use prover::{Prover, Tally, MAX_VARS};
pub use session::{Transcript, Verdict, Verifier};
