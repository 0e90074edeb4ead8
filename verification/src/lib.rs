//! A verified two-state Markov chain toolkit built around a jar-drawing
//! analogy: jars of White and Black tokens drive a random state sequence,
//! a maximum-likelihood estimator recovers the transition matrix from a
//! sequence, and an analyzer projects distributions forward and computes
//! the closed-form steady state. All probabilities are exact rationals.

pub mod label;
pub mod ratio;
pub mod estimate;
pub mod jar;
pub mod sequence;
pub mod analyze;
pub mod bignat;
