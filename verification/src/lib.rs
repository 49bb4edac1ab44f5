//! Core of a live-coding engine for algorithmic music: probabilistic
//! finite automata over single-character states, sequence generators that
//! walk them and carry event payloads, and a session registry that starts,
//! stops and hot-swaps concurrently running voices.

pub mod constructors;
pub mod event_helpers;
pub mod events;
pub mod generator;
pub mod laws;
pub mod markov;
pub mod rng;
pub mod scheduler;
pub mod session;
pub mod symbols;
