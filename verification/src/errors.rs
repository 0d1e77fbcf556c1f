//! Error kinds of the learning core.

use vstd::prelude::*;

verus! {

/// A programmer error surfaced by the core. Nothing in the library retries:
/// drivers treat both kinds as fatal.
#[derive(Clone, Copy, Debug, PartialEq, Eq, Structural)]
pub enum RlError {
    /// An environment was stepped with an action outside its action set.
    InvalidAction,
    /// A selector was asked for a capability it lacks, such as a
    /// state-value update from a selector that learns action values only.
    Unsupported,
}

} // verus!
