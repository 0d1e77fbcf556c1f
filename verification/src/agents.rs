//! The agents that bind an environment, a selector and the value stores,
//! and the interfaces they are written against.

pub mod agent;
pub mod mcts;
pub mod q;
pub mod selector;
