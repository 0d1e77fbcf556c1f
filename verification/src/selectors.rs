//! The two exploration policies: epsilon-greedy and the upper confidence
//! bound rule.

pub mod epsilon_greedy;
pub mod ucb;
