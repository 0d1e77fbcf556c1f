//! Tabular action-value reinforcement learning for two classic problems:
//! the stationary k-armed bandit and episodic Monte-Carlo Blackjack.
//!
//! All scalar rewards and value estimates are fixed-point numbers held in
//! millionths (see [`math::UNIT`]); the library keeps no floating point.
//! Learning state lives in key-value stores keyed by textual state keys;
//! environments, selectors and agents compose at construction time.

pub mod agents;
pub mod codec;
pub mod environments;
pub mod errors;
pub mod math;
mod random;
pub mod selectors;
pub mod store;
