//! The upper-confidence-bound selector (UCB1).
//!
//! The score of an action is its Q estimate plus the exploration bonus
//! `sqrt(c * ln N / n)`, where `N` is the total number of steps taken so
//! far and `n` the action's visit count. An action never taken has an
//! unbounded bonus, so the selector first plays every untried action, in
//! ascending order; once all have been tried it takes the highest score,
//! ties breaking toward the highest index. The bonus is computed in
//! fixed-point: the logarithm by the piecewise-linear approximation
//! [`ln_approx_micros`] and the root by the integer square root, both
//! stated exactly in the contracts.

use vstd::prelude::*;

verus! {

use crate::errors::RlError;
use crate::math::{incremental_mean, isqrt_u64, ln_approx_micros, ln_micros, sqrt_floor, LN2_MICROS, REWARD_LIMIT};
use crate::store::{generate_id, MemoryStore, Store};
use crate::agents::selector::{
    count_store_bounded,
    q_store_bounded,
    stored_count,
    stored_q,
    Selector,
};

/// Largest accepted confidence constant, in millionths.
pub const CONFIDENCE_LIMIT: i64 = 1_000_000_000;

/// Picks the action with the highest upper confidence bound.
pub struct UCBSelector {
    confidence_level: i64,
}

impl UCBSelector {
    /// The confidence constant `c`, in millionths.
    pub closed spec fn confidence_spec(&self) -> int {
        self.confidence_level as int
    }

    /// A selector with the given confidence constant, in millionths.
    pub fn new(confidence_level: i64) -> (s: UCBSelector)
        requires
            0 <= confidence_level <= CONFIDENCE_LIMIT,
        ensures
            s.wf(),
            s.confidence_spec() == confidence_level,
            s.supports_state_values(),
    {
        UCBSelector { confidence_level }
    }
}

/// The total-step count as the logarithm sees it: at least one.
pub open spec fn total_for_ln(total: int) -> nat {
    if total >= 1 {
        total as nat
    } else {
        1
    }
}

/// The upper-confidence-bound score of action `i`, in millionths.
pub open spec fn ucb_score(
    q_store: &MemoryStore,
    count_store: &MemoryStore,
    state: Seq<char>,
    c: int,
    total: int,
    i: int,
) -> int
    recommends
        stored_count(count_store, state, i) >= 1,
{
    stored_q(q_store, state, i) + sqrt_floor(
        c * ln_approx_micros(total_for_ln(total)) / stored_count(count_store, state, i),
    )
}

/// The first action in `from..k` that has never been visited, or `k` when
/// every one has.
pub open spec fn first_unpulled_from(
    count_store: &MemoryStore,
    state: Seq<char>,
    from: int,
    k: int,
) -> int
    decreases k - from,
{
    if from >= k {
        k
    } else if stored_count(count_store, state, from) == 0 {
        from
    } else {
        first_unpulled_from(count_store, state, from + 1, k)
    }
}

/// The highest-scoring action among `0..k`, ties broken toward the highest
/// index.
pub open spec fn ucb_argmax(
    q_store: &MemoryStore,
    count_store: &MemoryStore,
    state: Seq<char>,
    c: int,
    total: int,
    k: int,
) -> int
    decreases k,
{
    if k <= 1 {
        0
    } else {
        let rest = ucb_argmax(q_store, count_store, state, c, total, k - 1);
        if ucb_score(q_store, count_store, state, c, total, k - 1) >= ucb_score(
            q_store,
            count_store,
            state,
            c,
            total,
            rest,
        ) {
            k - 1
        } else {
            rest
        }
    }
}

/// The action UCB1 selects: the first unvisited action if there is one,
/// otherwise the highest-scoring one.
pub open spec fn ucb_choice(
    q_store: &MemoryStore,
    count_store: &MemoryStore,
    state: Seq<char>,
    c: int,
    total: int,
    k: int,
) -> int {
    let u = first_unpulled_from(count_store, state, 0, k);
    if u < k {
        u
    } else {
        ucb_argmax(q_store, count_store, state, c, total, k)
    }
}

/// The argmax is in range and attains the maximum score.
pub proof fn lemma_ucb_argmax_max(
    q_store: &MemoryStore,
    count_store: &MemoryStore,
    state: Seq<char>,
    c: int,
    total: int,
    k: int,
)
    requires
        k >= 1,
    ensures
        0 <= ucb_argmax(q_store, count_store, state, c, total, k) < k,
        forall|j: int|
            0 <= j < k ==> #[trigger] ucb_score(q_store, count_store, state, c, total, j) <= ucb_score(
                q_store,
                count_store,
                state,
                c,
                total,
                ucb_argmax(q_store, count_store, state, c, total, k),
            ),
    decreases k,
{
    if k > 1 {
        lemma_ucb_argmax_max(q_store, count_store, state, c, total, k - 1);
    }
}

/// Among `k` actions of which fewer than `k` visits have been paid in
/// total, some action is unvisited, and UCB1 selects an unvisited one: with
/// no prior visits, every action is selected within the first `k` choices.
pub proof fn lemma_ucb_explores_unpulled(
    q_store: &MemoryStore,
    count_store: &MemoryStore,
    state: Seq<char>,
    c: int,
    total: int,
    k: int,
)
    requires
        k >= 1,
        forall|j: int| 0 <= j < k ==> stored_count(count_store, state, j) >= 0,
        sum_counts(count_store, state, k) < k,
    ensures
        stored_count(count_store, state, ucb_choice(q_store, count_store, state, c, total, k))
            == 0,
{
    lemma_some_count_zero(count_store, state, k);
    lemma_first_unpulled_props(count_store, state, 0, k);
}

/// The visit counts of the actions `0..k`, summed.
pub open spec fn sum_counts(count_store: &MemoryStore, state: Seq<char>, k: int) -> int
    decreases k,
{
    if k <= 0 {
        0
    } else {
        sum_counts(count_store, state, k - 1) + stored_count(count_store, state, k - 1)
    }
}

/// Pigeonhole: fewer than `k` visits over `k` actions leave some action
/// unvisited.
proof fn lemma_some_count_zero(count_store: &MemoryStore, state: Seq<char>, k: int)
    requires
        k >= 1,
        forall|j: int| 0 <= j < k ==> stored_count(count_store, state, j) >= 0,
        sum_counts(count_store, state, k) < k,
    ensures
        exists|j: int| 0 <= j < k && stored_count(count_store, state, j) == 0,
    decreases k,
{
    if stored_count(count_store, state, k - 1) == 0 {
    } else if k == 1 {
        assert(sum_counts(count_store, state, 0) == 0);
        assert(false);
    } else {
        lemma_some_count_zero(count_store, state, k - 1);
    }
}

/// What the first-unvisited scan finds: an unvisited action when one
/// exists past `from`, the bound `k` otherwise.
proof fn lemma_first_unpulled_props(count_store: &MemoryStore, state: Seq<char>, from: int, k: int)
    requires
        0 <= from <= k,
    ensures
        from <= first_unpulled_from(count_store, state, from, k) <= k,
        first_unpulled_from(count_store, state, from, k) < k ==> stored_count(
            count_store,
            state,
            first_unpulled_from(count_store, state, from, k),
        ) == 0,
        first_unpulled_from(count_store, state, from, k) == k ==> forall|j: int|
            from <= j < k ==> stored_count(count_store, state, j) != 0,
    decreases k - from,
{
    if from < k && stored_count(count_store, state, from) != 0 {
        lemma_first_unpulled_props(count_store, state, from + 1, k);
    }
}

impl Selector for UCBSelector {
    closed spec fn wf(&self) -> bool {
        0 <= self.confidence_level <= CONFIDENCE_LIMIT
    }

    closed spec fn supports_state_values(&self) -> bool {
        true
    }

    /// The choice is a function of the stores, the step count and the
    /// confidence constant: the first unvisited action, or the best score.
    open spec fn is_chosen(
        &self,
        q_store: &MemoryStore,
        count_store: &MemoryStore,
        state: Seq<char>,
        num_actions: int,
        total_steps: int,
        r: int,
    ) -> bool {
        r == ucb_choice(
            q_store,
            count_store,
            state,
            self.confidence_spec(),
            total_steps,
            num_actions,
        )
    }

    fn select_action(
        &self,
        state: &String,
        num_actions: usize,
        total_steps: usize,
        q_store: &MemoryStore,
        count_store: &MemoryStore,
    ) -> (r: usize) {
        // Play every untried action once before trusting the scores.
        let mut i: usize = 0;
        while i < num_actions
            invariant
                0 <= i <= num_actions,
                first_unpulled_from(count_store, state@, 0, num_actions as int)
                    == first_unpulled_from(count_store, state@, i as int, num_actions as int),
                count_store_bounded(count_store),
            decreases num_actions - i,
        {
            let key = generate_id(state.as_str(), Some(i));
            if count_store.get_value(&key) == 0 {
                return i;
            }
            i = i + 1;
        }
        let t: u64 = if total_steps == 0 {
            1
        } else {
            total_steps as u64
        };
        let lnt = ln_micros(t);
        proof {
            assert(lnt as int == ln_approx_micros(total_for_ln(total_steps as int)));
            lemma_first_unpulled_props(count_store, state@, 0, num_actions as int);
        }
        let mut best = self.score_of(q_store, count_store, state, 0, lnt);
        let mut best_i: usize = 0;
        let mut j: usize = 1;
        while j < num_actions
            invariant
                1 <= j <= num_actions,
                best_i < j,
                self.wf(),
                q_store_bounded(q_store),
                count_store_bounded(count_store),
                forall|x: int|
                    0 <= x < num_actions ==> stored_count(count_store, state@, x) >= 1,
                best_i as int == ucb_argmax(
                    q_store,
                    count_store,
                    state@,
                    self.confidence_spec(),
                    total_steps as int,
                    j as int,
                ),
                best as int == ucb_score(
                    q_store,
                    count_store,
                    state@,
                    self.confidence_spec(),
                    total_steps as int,
                    best_i as int,
                ),
                lnt as int == ln_approx_micros(total_for_ln(total_steps as int)),
                lnt <= 64 * LN2_MICROS,
            decreases num_actions - j,
        {
            let s = self.score_of(q_store, count_store, state, j, lnt);
            if s >= best {
                best = s;
                best_i = j;
            }
            j = j + 1;
        }
        best_i
    }

    fn get_new_q_estimate(
        &self,
        q_store: &MemoryStore,
        count_store: &MemoryStore,
        state: &String,
        action: usize,
        reward: i64,
    ) -> (r: i64) {
        let action_id = generate_id(state.as_str(), Some(action));
        let num_visits = count_store.get_value(&action_id);
        let id = generate_id(state.as_str(), Some(action));
        let current_action_value_estimate = q_store.get_value(&id);
        incremental_mean(current_action_value_estimate, reward, num_visits)
    }

    fn get_new_value_estimate(
        &self,
        v_store: &MemoryStore,
        state_count_store: &MemoryStore,
        state: &String,
        reward: i64,
    ) -> (r: Result<i64, RlError>) {
        let id = generate_id(state.as_str(), None);
        let current_value_estimate = v_store.get_value(&id);
        let visits = state_count_store.get_value(&id);
        Ok(incremental_mean(current_value_estimate, reward, visits + 1))
    }
}

impl UCBSelector {
    /// The score of one visited action, given the fixed-point logarithm of
    /// the total step count.
    fn score_of(
        &self,
        q_store: &MemoryStore,
        count_store: &MemoryStore,
        state: &String,
        i: usize,
        lnt: u64,
    ) -> (s: i64)
        requires
            self.wf(),
            q_store_bounded(q_store),
            count_store_bounded(count_store),
            stored_count(count_store, state@, i as int) >= 1,
            lnt <= 64 * LN2_MICROS,
        ensures
            forall|total: int|
                lnt as int == ln_approx_micros(total_for_ln(total)) ==> s as int == ucb_score(
                    q_store,
                    count_store,
                    state@,
                    self.confidence_spec(),
                    total,
                    i as int,
                ),
    {
        let key = generate_id(state.as_str(), Some(i));
        let n = count_store.get_value(&key);
        let q = q_store.get_value(&key);
        assert(self.confidence_level * lnt <= CONFIDENCE_LIMIT * 64 * LN2_MICROS) by (
        nonlinear_arith)
            requires
                0 <= self.confidence_level <= CONFIDENCE_LIMIT,
                0 <= lnt <= 64 * LN2_MICROS,
        ;
        let prod: i64 = self.confidence_level * (lnt as i64);
        let inner: i64 = prod / n;
        assert(0 <= inner <= prod) by (nonlinear_arith)
            requires
                inner == prod / n,
                n >= 1,
                prod >= 0,
        ;
        let b64 = isqrt_u64(inner as u64);
        proof {
            assert(b64 * b64 <= inner as u64);
            assert(b64 <= 0x1_0000_0000) by (nonlinear_arith)
                requires
                    b64 >= 0,
                    b64 * b64 <= 0x7fff_ffff_ffff_ffffu64,
            ;
        }
        let bonus = b64 as i64;
        q + bonus
    }
}

} // verus!
