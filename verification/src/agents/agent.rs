//! Marker interfaces shared by agents.

use vstd::prelude::*;

verus! {

/// A state identifier: hashable, comparable and copyable, so that a store
/// can key estimates by it.
pub trait State: core::hash::Hash + Eq + Clone {

}

} // verus!
