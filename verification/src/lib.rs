//! A small reinforcement-learning laboratory for the Easy21 card game.
//!
//! The crate implements the Easy21 environment together with several
//! generalized-policy-iteration control algorithms: Monte Carlo control,
//! Sarsa(lambda), Q-learning(lambda) and linear function approximation with
//! eligibility traces.  All scalar quantities (rewards, value estimates,
//! eligibility traces, hyperparameters) are exact rational numbers, so every
//! update an algorithm performs is stated and proved exactly.

pub mod game;
pub mod gpi;
pub mod laws;
pub mod lfa;
pub mod montecarlo;
pub mod qlearning;
pub mod sarsa;
pub mod rat;
pub mod rng;
pub mod shortcuts;
pub mod table;
pub mod util;
pub mod validators;
