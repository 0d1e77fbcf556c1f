//! The two environments: the stationary k-armed bandit and episodic
//! Blackjack.

pub mod bandit;
pub mod blackjack;
