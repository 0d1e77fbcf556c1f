//! The selector interface: an exploration policy that picks actions and
//! derives new value estimates.
//!
//! A selector owns only its hyperparameters. All mutable learning state
//! lives in the stores, which the selector reads and never writes; the
//! agent writes back whatever estimate the selector returns. Both concrete
//! selectors share the incremental sample-mean update rule; they differ in
//! how they pick the next action.

use vstd::prelude::*;

verus! {

use crate::errors::RlError;
use crate::math::{new_q_spec, REWARD_LIMIT};
use crate::store::{key_id, MemoryStore, Store};

/// The Q estimate that `store` holds for taking action `a` in `state`: the
/// stored value, zero if never written.
pub open spec fn stored_q(store: &MemoryStore, state: Seq<char>, a: int) -> int {
    store.stored(key_id(state, Some(a))) as int
}

/// The visit count that `store` holds for the (state, action) pair.
pub open spec fn stored_count(store: &MemoryStore, state: Seq<char>, a: int) -> int {
    store.stored(key_id(state, Some(a))) as int
}

/// Every Q estimate in the store is a bounded fixed-point value.
pub open spec fn q_store_bounded(store: &MemoryStore) -> bool {
    forall|k: Seq<char>| -REWARD_LIMIT <= #[trigger] store.stored(k) <= REWARD_LIMIT
}

/// Every count in the store is nonnegative and leaves room for one more.
pub open spec fn count_store_bounded(store: &MemoryStore) -> bool {
    forall|k: Seq<char>| 0 <= #[trigger] store.stored(k) < i64::MAX
}

/// An exploration policy over a Q store and a visit-count store.
pub trait Selector: Sized {
    /// The selector's hyperparameters are in range.
    spec fn wf(&self) -> bool;

    /// Whether this selector derives state-value estimates.
    spec fn supports_state_values(&self) -> bool;

    /// What the selector promises of a chosen action, beyond being in
    /// range; each policy pins this down as far as its randomness allows.
    spec fn is_chosen(
        &self,
        q_store: &MemoryStore,
        count_store: &MemoryStore,
        state: Seq<char>,
        num_actions: int,
        total_steps: int,
        r: int,
    ) -> bool;

    /// Picks the next action for `state` among `0..num_actions`.
    fn select_action(
        &self,
        state: &String,
        num_actions: usize,
        total_steps: usize,
        q_store: &MemoryStore,
        count_store: &MemoryStore,
    ) -> (r: usize)
        requires
            self.wf(),
            num_actions >= 1,
            q_store_bounded(q_store),
            count_store_bounded(count_store),
        ensures
            r < num_actions,
            self.is_chosen(
                q_store,
                count_store,
                state@,
                num_actions as int,
                total_steps as int,
                r as int,
            ),
    ;

    /// The new Q estimate for (state, action) after observing `reward`:
    /// the incremental sample mean, whose divisor is the stored visit
    /// count including the visit being updated.
    fn get_new_q_estimate(
        &self,
        q_store: &MemoryStore,
        count_store: &MemoryStore,
        state: &String,
        action: usize,
        reward: i64,
    ) -> (r: i64)
        requires
            self.wf(),
            -REWARD_LIMIT <= reward <= REWARD_LIMIT,
            q_store_bounded(q_store),
            stored_count(count_store, state@, action as int) >= 1,
        ensures
            r as int == new_q_spec(
                stored_q(q_store, state@, action as int),
                reward as int,
                stored_count(count_store, state@, action as int),
            ),
            -REWARD_LIMIT <= r <= REWARD_LIMIT,
    ;

    /// The new state-value estimate for `state` after observing `reward`,
    /// for selectors that support state values: the incremental mean whose
    /// divisor is the stored state count plus one. A selector that learns
    /// action values only answers `Unsupported`.
    fn get_new_value_estimate(
        &self,
        v_store: &MemoryStore,
        state_count_store: &MemoryStore,
        state: &String,
        reward: i64,
    ) -> (r: Result<i64, RlError>)
        requires
            self.wf(),
            -REWARD_LIMIT <= reward <= REWARD_LIMIT,
            q_store_bounded(v_store),
            count_store_bounded(state_count_store),
        ensures
            self.supports_state_values() ==> (r matches Ok(v) && v as int == new_q_spec(
                v_store.stored(state@) as int,
                reward as int,
                state_count_store.stored(state@) + 1,
            ) && -REWARD_LIMIT <= v <= REWARD_LIMIT),
            !self.supports_state_values() ==> r == Err::<i64, RlError>(RlError::Unsupported),
    ;
}

} // verus!
