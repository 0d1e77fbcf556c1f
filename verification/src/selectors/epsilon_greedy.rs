//! The epsilon-greedy selector.
//!
//! With probability epsilon the next action is drawn uniformly; otherwise
//! the selector scans the actions in ascending order and keeps the first
//! strict improvement, so ties break toward the lowest index. The running
//! maximum starts from the first candidate, not from zero, so negative
//! estimates are handled correctly. Estimates are updated by the
//! incremental sample mean.

use vstd::prelude::*;

verus! {

use crate::errors::RlError;
use crate::math::{incremental_mean, UNIT};
use crate::random::random_in_range;
use crate::store::{generate_id, MemoryStore, Store};
use crate::agents::selector::{stored_q, Selector};

/// Picks uniformly at random with probability epsilon, greedily otherwise.
pub struct EpsilonGreedySelector {
    epsilon: i64,
}

impl EpsilonGreedySelector {
    /// The exploration rate, in millionths of probability.
    pub closed spec fn epsilon_spec(&self) -> int {
        self.epsilon as int
    }

    /// A selector with the given exploration rate, in millionths: zero
    /// never explores, [`UNIT`] always does.
    pub fn new(epsilon: i64) -> (s: EpsilonGreedySelector)
        requires
            0 <= epsilon <= UNIT,
        ensures
            s.wf(),
            s.epsilon_spec() == epsilon,
            s.supports_state_values(),
    {
        EpsilonGreedySelector { epsilon }
    }
}

/// The greedy action among `0..k`: scanning in ascending order with a
/// strict comparison, the lowest index that attains the maximum stored Q.
pub open spec fn greedy_spec(q_store: &MemoryStore, state: Seq<char>, k: int) -> int
    decreases k,
{
    if k <= 1 {
        0
    } else {
        let rest = greedy_spec(q_store, state, k - 1);
        if stored_q(q_store, state, k - 1) > stored_q(q_store, state, rest) {
            k - 1
        } else {
            rest
        }
    }
}

/// The greedy action is in range and attains the maximum.
pub proof fn lemma_greedy_spec_max(q_store: &MemoryStore, state: Seq<char>, k: int)
    requires
        k >= 1,
    ensures
        0 <= greedy_spec(q_store, state, k) < k,
        forall|j: int|
            0 <= j < k ==> #[trigger] stored_q(q_store, state, j) <= stored_q(
                q_store,
                state,
                greedy_spec(q_store, state, k),
            ),
    decreases k,
{
    if k > 1 {
        lemma_greedy_spec_max(q_store, state, k - 1);
    }
}

/// An action whose estimate strictly dominates every other is the greedy
/// choice: with no exploration, one strictly best action wins every
/// selection.
pub proof fn lemma_greedy_prefers_unique_max(
    q_store: &MemoryStore,
    state: Seq<char>,
    k: int,
    a: int,
)
    requires
        0 <= a < k,
        forall|j: int|
            0 <= j < k && j != a ==> stored_q(q_store, state, j) < stored_q(q_store, state, a),
    ensures
        greedy_spec(q_store, state, k) == a,
    decreases k,
{
    if k == 1 {
    } else {
        let rest = greedy_spec(q_store, state, k - 1);
        lemma_greedy_spec_max(q_store, state, k - 1);
        if a == k - 1 {
            assert(stored_q(q_store, state, rest) < stored_q(q_store, state, a));
        } else {
            lemma_greedy_prefers_unique_max(q_store, state, k - 1, a);
        }
    }
}

impl Selector for EpsilonGreedySelector {
    closed spec fn wf(&self) -> bool {
        0 <= self.epsilon <= UNIT
    }

    closed spec fn supports_state_values(&self) -> bool {
        true
    }

    /// With an exploration rate of zero the choice is exactly the greedy
    /// one; with a positive rate the uniform draw may pick anything.
    open spec fn is_chosen(
        &self,
        q_store: &MemoryStore,
        count_store: &MemoryStore,
        state: Seq<char>,
        num_actions: int,
        total_steps: int,
        r: int,
    ) -> bool {
        self.epsilon_spec() == 0 ==> r == greedy_spec(q_store, state, num_actions)
    }

    fn select_action(
        &self,
        state: &String,
        num_actions: usize,
        total_steps: usize,
        q_store: &MemoryStore,
        count_store: &MemoryStore,
    ) -> (r: usize) {
        let draw = random_in_range(0, 1_000_000);
        if draw < self.epsilon as u64 {
            let r = random_in_range(0, num_actions as u64) as usize;
            return r;
        }
        let key0 = generate_id(state.as_str(), Some(0));
        let mut best = q_store.get_value(&key0);
        let mut best_i: usize = 0;
        let mut i: usize = 1;
        while i < num_actions
            invariant
                1 <= i <= num_actions,
                best_i < i,
                best_i as int == greedy_spec(q_store, state@, i as int),
                best as int == stored_q(q_store, state@, best_i as int),
            decreases num_actions - i,
        {
            let key = generate_id(state.as_str(), Some(i));
            let v = q_store.get_value(&key);
            if v > best {
                best = v;
                best_i = i;
            }
            i = i + 1;
            proof {
                assert(best_i as int == greedy_spec(q_store, state@, i as int));
            }
        }
        best_i
    }

    fn get_new_q_estimate(
        &self,
        q_store: &MemoryStore,
        count_store: &MemoryStore,
        state: &String,
        action: usize,
        reward: i64,
    ) -> (r: i64) {
        let action_id = generate_id(state.as_str(), Some(action));
        let num_visits = count_store.get_value(&action_id);
        let id = generate_id(state.as_str(), Some(action));
        let current_q_estimate = q_store.get_value(&id);
        incremental_mean(current_q_estimate, reward, num_visits)
    }

    fn get_new_value_estimate(
        &self,
        v_store: &MemoryStore,
        state_count_store: &MemoryStore,
        state: &String,
        reward: i64,
    ) -> (r: Result<i64, RlError>) {
        let id = generate_id(state.as_str(), None);
        let current_value_estimate = v_store.get_value(&id);
        let visits = state_count_store.get_value(&id);
        Ok(incremental_mean(current_value_estimate, reward, visits + 1))
    }
}

} // verus!
