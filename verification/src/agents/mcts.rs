//! The episodic Monte-Carlo agent: one Blackjack environment, one
//! selector, and the four stores for action values, state values and both
//! visit counts.
//!
//! `run_episode` plays a trajectory to termination, recording the state,
//! action and reward of every step, then walks it backward: the return of
//! a timestep is the undiscounted sum of the rewards from it to the end,
//! and each (state, action) and each state is updated toward that return,
//! strictly in reverse time order. The environment is reset only after the
//! last update.

use vstd::prelude::*;

verus! {

use vstd::pervasive::unreached;

use crate::environments::blackjack::{episode_measure, lemma_measure_bounds, Blackjack, BlackJackPlayer};
use crate::errors::RlError;
use crate::math::{new_q_spec, REWARD_LIMIT, UNIT};
use crate::store::{generate_id, key_id, MemoryStore, Store};
use crate::agents::selector::{
    count_store_bounded,
    q_store_bounded,
    stored_count,
    stored_q,
    Selector,
};

/// The undiscounted return from timestep `t`: the rewards from `t` to the
/// end of the episode, summed.
pub open spec fn suffix_sum(s: Seq<i64>, t: int) -> int
    decreases s.len() - t when t <= s.len()
{
    if t >= s.len() {
        0
    } else {
        s[t] + suffix_sum(s, t + 1)
    }
}

proof fn lemma_suffix_sum_bound(s: Seq<i64>, t: int, b: int)
    requires
        0 <= t <= s.len(),
        b >= 0,
        forall|j: int| 0 <= j < s.len() ==> -b <= #[trigger] s[j] <= b,
    ensures
        -((s.len() - t) * b) <= suffix_sum(s, t) <= (s.len() - t) * b,
    decreases s.len() - t,
{
    if t < s.len() {
        lemma_suffix_sum_bound(s, t + 1, b);
        assert((s.len() - t) * b == (s.len() - (t + 1)) * b + b) by (nonlinear_arith);
    } else {
        assert(suffix_sum(s, t) == 0);
        assert((s.len() - t) * b == 0) by (nonlinear_arith)
            requires s.len() == t;
    }
}

/// When every reward before the last is zero, every return equals the
/// terminal reward.
pub proof fn lemma_suffix_sum_sparse(s: Seq<i64>, t: int)
    requires
        0 <= t < s.len(),
        forall|j: int| 0 <= j < s.len() - 1 ==> #[trigger] s[j] == 0,
    ensures
        suffix_sum(s, t) == s[s.len() - 1],
    decreases s.len() - t,
{
    if t < s.len() - 1 {
        lemma_suffix_sum_sparse(s, t + 1);
    } else {
        assert(suffix_sum(s, s.len() as int) == 0);
    }
}

/// Backward return accumulation: entry `t` of the result is the
/// undiscounted sum of the rewards from `t` to the end of the episode
/// (discount one, no weighting).
pub fn accumulate_returns(rewards: &Vec<i64>) -> (gains: Vec<i64>)
    requires
        rewards@.len() <= 9_000_000,
        forall|j: int|
            0 <= j < rewards@.len() ==> -REWARD_LIMIT <= #[trigger] rewards@[j] <= REWARD_LIMIT,
    ensures
        gains@.len() == rewards@.len(),
        forall|t: int|
            0 <= t < gains@.len() ==> #[trigger] gains@[t] == suffix_sum(rewards@, t),
{
    let n = rewards.len();
    let mut gains: Vec<i64> = vec![0i64; n];
    let mut idx: usize = n;
    let mut g: i64 = 0;
    while idx > 0
        invariant
            0 <= idx <= n == rewards@.len() <= 9_000_000,
            gains@.len() == n,
            g as int == suffix_sum(rewards@, idx as int),
            forall|j: int|
                0 <= j < rewards@.len() ==> -REWARD_LIMIT <= #[trigger] rewards@[j]
                    <= REWARD_LIMIT,
            forall|t: int|
                idx <= t < n ==> #[trigger] gains@[t] == suffix_sum(rewards@, t),
        decreases idx,
    {
        idx = idx - 1;
        proof {
            lemma_suffix_sum_bound(rewards@, idx as int, REWARD_LIMIT as int);
            assert((rewards@.len() - idx) * REWARD_LIMIT <= 9_000_000 * REWARD_LIMIT) by (
            nonlinear_arith)
                requires 0 <= rewards@.len() - idx <= 9_000_000;
        }
        g = g + rewards[idx];
        gains[idx] = g;
    }
    gains
}

/// The rewards of a trajectory, in time order.
pub open spec fn traj_rewards(traj: Seq<(Seq<char>, int, i64)>) -> Seq<i64> {
    traj.map_values(|e: (Seq<char>, int, i64)| e.2)
}

/// How often a trajectory visits the (state, action) pair behind `key`.
pub open spec fn pair_visits(traj: Seq<(Seq<char>, int, i64)>, key: Seq<char>) -> int
    decreases traj.len(),
{
    if traj.len() == 0 {
        0
    } else {
        pair_visits(traj.drop_last(), key) + if key_id(traj.last().0, Some(traj.last().1)) == key {
            1int
        } else {
            0int
        }
    }
}

/// How often a trajectory visits the state behind `key`.
pub open spec fn state_visits(traj: Seq<(Seq<char>, int, i64)>, key: Seq<char>) -> int
    decreases traj.len(),
{
    if traj.len() == 0 {
        0
    } else {
        state_visits(traj.drop_last(), key) + if traj.last().0 == key {
            1int
        } else {
            0int
        }
    }
}

/// The Q entry at `key` after the latest `done` Monte-Carlo updates of a
/// trajectory have been applied in reverse time order: update number `s`
/// works on timestep `traj.len() - s`, moving that pair's entry toward the
/// return from its timestep by the incremental mean, with the pair's final
/// visit count as the divisor.
pub open spec fn q_backfold(
    traj: Seq<(Seq<char>, int, i64)>,
    counts: MemoryStore,
    base: MemoryStore,
    done: int,
    key: Seq<char>,
) -> int
    decreases done,
{
    if done <= 0 {
        base.stored(key) as int
    } else {
        let idx = traj.len() - done;
        let prev = q_backfold(traj, counts, base, done - 1, key);
        if key == key_id(traj[idx].0, Some(traj[idx].1)) {
            new_q_spec(prev, suffix_sum(traj_rewards(traj), idx), counts.stored(key) as int)
        } else {
            prev
        }
    }
}

/// The state-value entry at `key` after the latest `done` backward updates,
/// with the state's final visit count plus one as the divisor.
pub open spec fn v_backfold(
    traj: Seq<(Seq<char>, int, i64)>,
    state_counts: MemoryStore,
    base: MemoryStore,
    done: int,
    key: Seq<char>,
) -> int
    decreases done,
{
    if done <= 0 {
        base.stored(key) as int
    } else {
        let idx = traj.len() - done;
        let prev = v_backfold(traj, state_counts, base, done - 1, key);
        if key == traj[idx].0 {
            new_q_spec(prev, suffix_sum(traj_rewards(traj), idx), state_counts.stored(key) + 1)
        } else {
            prev
        }
    }
}

/// What one episode does, over some trajectory of (state key, action,
/// reward) triples: actions are in range, every reward but the last is
/// zero, the last is the terminal outcome and the episode's return; each
/// count store grows by one per visit; and the Q and V stores are the
/// reverse-time fold of the incremental-mean updates along the trajectory.
pub open spec fn episode_trace<U: Selector>(
    pre: AgentMcts<U>,
    post: AgentMcts<U>,
    traj: Seq<(Seq<char>, int, i64)>,
    r: int,
) -> bool {
    &&& traj.len() >= 1
    &&& forall|t: int| 0 <= t < traj.len() ==> 0 <= (#[trigger] traj[t]).1 < 2
    &&& forall|t: int|
        0 <= t < traj.len() ==> ((#[trigger] traj[t]).2 == -(UNIT as int) || traj[t].2 == 0
            || traj[t].2 == UNIT as int)
    &&& forall|t: int| 0 <= t < traj.len() - 1 ==> (#[trigger] traj[t]).2 == 0
    &&& r == traj[traj.len() - 1].2
    &&& forall|key: Seq<char>|
        #[trigger] post.spec_counts().stored(key) == pre.spec_counts().stored(key) + pair_visits(
            traj,
            key,
        )
    &&& forall|key: Seq<char>|
        #[trigger] post.spec_state_counts().stored(key) == pre.spec_state_counts().stored(key)
            + state_visits(traj, key)
    &&& forall|key: Seq<char>|
        #[trigger] post.spec_q().stored(key) as int == q_backfold(
            traj,
            post.spec_counts(),
            pre.spec_q(),
            traj.len() as int,
            key,
        )
    &&& forall|key: Seq<char>|
        #[trigger] post.spec_v().stored(key) as int == v_backfold(
            traj,
            post.spec_state_counts(),
            pre.spec_v(),
            traj.len() as int,
            key,
        )
}

/// An episodic Monte-Carlo control agent over Blackjack.
pub struct AgentMcts<U: Selector> {
    environment: Blackjack,
    selector: U,
    q_store: MemoryStore,
    state_value_store: MemoryStore,
    store_action_count: MemoryStore,
    store_state_count: MemoryStore,
    total_actions_taken: usize,
}

impl<U: Selector> AgentMcts<U> {
    pub closed spec fn spec_env(&self) -> Blackjack {
        self.environment
    }

    pub closed spec fn spec_selector(&self) -> U {
        self.selector
    }

    pub closed spec fn spec_q(&self) -> MemoryStore {
        self.q_store
    }

    pub closed spec fn spec_v(&self) -> MemoryStore {
        self.state_value_store
    }

    pub closed spec fn spec_counts(&self) -> MemoryStore {
        self.store_action_count
    }

    pub closed spec fn spec_state_counts(&self) -> MemoryStore {
        self.store_state_count
    }

    pub closed spec fn spec_total(&self) -> int {
        self.total_actions_taken as int
    }

    /// The agent's pieces are well formed and its visit counts never
    /// exceed the total number of actions taken.
    pub open spec fn wf(&self) -> bool {
        &&& self.spec_env().wf()
        &&& self.spec_selector().wf()
        &&& q_store_bounded(&self.spec_q())
        &&& q_store_bounded(&self.spec_v())
        &&& count_store_bounded(&self.spec_counts())
        &&& count_store_bounded(&self.spec_state_counts())
        &&& forall|k: Seq<char>| 0 <= #[trigger] self.spec_counts().stored(k) <= self.spec_total()
        &&& forall|k: Seq<char>|
            0 <= #[trigger] self.spec_state_counts().stored(k) <= self.spec_total()
    }

    /// Binds an environment, a selector and the stores. The count stores
    /// must be fresh: this agent's counting starts at zero.
    pub fn new(
        environment: Blackjack,
        selector: U,
        q_store: MemoryStore,
        state_value_store: MemoryStore,
        store_action_count: MemoryStore,
        store_state_count: MemoryStore,
    ) -> (a: AgentMcts<U>)
        requires
            environment.wf(),
            !environment.spec_is_terminal(),
            selector.wf(),
            q_store_bounded(&q_store),
            q_store_bounded(&state_value_store),
            forall|k: Seq<char>| #[trigger] store_action_count.stored(k) == 0,
            forall|k: Seq<char>| #[trigger] store_state_count.stored(k) == 0,
        ensures
            a.wf(),
            a.spec_env() == environment,
            a.spec_selector() == selector,
            a.spec_q() == q_store,
            a.spec_v() == state_value_store,
            a.spec_counts() == store_action_count,
            a.spec_state_counts() == store_state_count,
            a.spec_total() == 0,
            !a.spec_env().spec_is_terminal(),
    {
        AgentMcts {
            environment,
            selector,
            q_store,
            state_value_store,
            store_action_count,
            store_state_count,
            total_actions_taken: 0,
        }
    }

    /// Asks the selector for the next action in the current state.
    pub fn select_action(&self) -> (r: usize)
        requires
            self.wf(),
        ensures
            r < 2,
            self.spec_selector().is_chosen(
                &self.spec_q(),
                &self.spec_counts(),
                self.spec_env_state(),
                2,
                self.spec_env().step_count as int,
                r as int,
            ),
    {
        let state = self.environment.get_state();
        let num_actions = self.environment.get_number_of_possible_actions();
        let total = self.environment.get_total_number_of_actions_taken();
        self.selector.select_action(
            &state,
            num_actions,
            total,
            &self.q_store,
            &self.store_action_count,
        )
    }

    pub fn get_number_of_possible_states(&self) -> (r: usize)
        ensures
            r == 200,
    {
        self.environment.get_number_of_possible_states()
    }

    /// Takes the action: increments the (state, action) count and the
    /// state count, each exactly once, then steps the environment.
    pub fn take_action(&mut self, action: usize) -> (r: Result<i64, RlError>)
        requires
            old(self).wf(),
            !old(self).spec_env().spec_is_terminal(),
            old(self).spec_env().step_count < usize::MAX,
            old(self).spec_total() + 2 < i64::MAX,
            old(self).spec_total() + 1 < usize::MAX,
        ensures
            final(self).wf(),
            r is Err <==> action >= 2,
            r is Err ==> r == Err::<i64, RlError>(RlError::InvalidAction) && *final(self) == *old(self),
            r matches Ok(rw) ==> {
                &&& rw == -(UNIT as int) || rw == 0 || rw == UNIT as int
                &&& rw as int == if final(self).spec_env().spec_is_terminal() {
                    crate::environments::blackjack::outcome_spec(
                        final(self).spec_env().player.sum_spec(),
                        final(self).spec_env().dealer.sum_spec(),
                    )
                } else {
                    0
                }
                &&& final(self).spec_counts().stored(
                    key_id(old(self).spec_env_state(), Some(action as int)),
                ) == old(self).spec_counts().stored(
                    key_id(old(self).spec_env_state(), Some(action as int)),
                ) + 1
                &&& final(self).spec_state_counts().stored(old(self).spec_env_state()) == old(self).spec_state_counts().stored(old(self).spec_env_state()) + 1
                &&& forall|k: Seq<char>|
                    k != key_id(old(self).spec_env_state(), Some(action as int)) ==> final(self).spec_counts().stored(k) == old(self).spec_counts().stored(k)
                &&& forall|k: Seq<char>|
                    k != old(self).spec_env_state() ==> final(self).spec_state_counts().stored(k)
                        == old(self).spec_state_counts().stored(k)
                &&& final(self).spec_q() == old(self).spec_q()
                &&& final(self).spec_v() == old(self).spec_v()
                &&& final(self).spec_selector() == old(self).spec_selector()
                &&& final(self).spec_total() == old(self).spec_total() + 1
                &&& episode_measure(&final(self).spec_env()) < episode_measure(
                    &old(self).spec_env(),
                )
                &&& final(self).spec_env().step_count == old(self).spec_env().step_count + 1
            },
    {
        if action >= 2 {
            return Err(RlError::InvalidAction);
        }
        let current_state = self.environment.get_state();
        let id = generate_id(current_state.as_str(), Some(action));
        let current_count = self.store_action_count.get_value(&id);
        self.store_action_count.store_value(id, current_count + 1);
        let state_id = generate_id(current_state.as_str(), None);
        let current_state_count = self.store_state_count.get_value(&state_id);
        self.store_state_count.store_value(state_id, current_state_count + 1);
        let reward = match self.environment.step(action) {
            Ok(rw) => rw,
            Err(_) => unreached(),
        };
        self.total_actions_taken = self.total_actions_taken + 1;
        Ok(reward)
    }

    /// The current state key of the environment.
    pub open spec fn spec_env_state(&self) -> Seq<char> {
        crate::codec::state_key(
            self.spec_env().player.sum_spec() as nat,
            self.spec_env().dealer.sum_spec() as nat,
            self.spec_env().player.usable_ace_spec(),
        )
    }

    /// Writes back the selector's new Q estimate for (state, action).
    fn update_q_estimate(&mut self, state: &String, action: usize, reward: i64)
        requires
            old(self).wf(),
            -REWARD_LIMIT <= reward <= REWARD_LIMIT,
            stored_count(&old(self).spec_counts(), state@, action as int) >= 1,
        ensures
            final(self).wf(),
            final(self).spec_q().stored(key_id(state@, Some(action as int))) as int == new_q_spec(
                stored_q(&old(self).spec_q(), state@, action as int),
                reward as int,
                stored_count(&old(self).spec_counts(), state@, action as int),
            ),
            forall|k: Seq<char>|
                k != key_id(state@, Some(action as int)) ==> final(self).spec_q().stored(k) == old(self).spec_q().stored(k),
            final(self).spec_env() == old(self).spec_env(),
            final(self).spec_counts() == old(self).spec_counts(),
            final(self).spec_state_counts() == old(self).spec_state_counts(),
            final(self).spec_v() == old(self).spec_v(),
            final(self).spec_selector() == old(self).spec_selector(),
            final(self).spec_total() == old(self).spec_total(),
    {
        let new_estimate = self.selector.get_new_q_estimate(
            &self.q_store,
            &self.store_action_count,
            state,
            action,
            reward,
        );
        let id = generate_id(state.as_str(), Some(action));
        self.q_store.store_value(id, new_estimate);
    }

    /// Writes back the selector's new state-value estimate.
    fn update_state_value_estimate(&mut self, state: &String, reward: i64) -> (r: Result<
        (),
        RlError,
    >)
        requires
            old(self).wf(),
            -REWARD_LIMIT <= reward <= REWARD_LIMIT,
        ensures
            final(self).wf(),
            r is Ok <==> old(self).spec_selector().supports_state_values(),
            r is Err ==> *final(self) == *old(self),
            r is Ok ==> final(self).spec_v().stored(state@) as int == new_q_spec(
                old(self).spec_v().stored(state@) as int,
                reward as int,
                old(self).spec_state_counts().stored(state@) + 1,
            ) && final(self).spec_q() == old(self).spec_q() && final(self).spec_counts() == old(self).spec_counts() && final(self).spec_state_counts() == old(self).spec_state_counts() && final(self).spec_env() == old(self).spec_env() && final(self).spec_selector() == old(self).spec_selector() && final(self).spec_total() == old(self).spec_total(),
            r is Ok ==> forall|k: Seq<char>|
                k != state@ ==> final(self).spec_v().stored(k) == old(self).spec_v().stored(k),
    {
        let new_estimate = self.selector.get_new_value_estimate(
            &self.state_value_store,
            &self.store_state_count,
            state,
            reward,
        );
        match new_estimate {
            Ok(v) => {
                let id = generate_id(state.as_str(), None);
                self.state_value_store.store_value(id, v);
                Ok(())
            },
            Err(e) => Err(e),
        }
    }

    /// The stored state-value estimate for a state key; zero if never
    /// updated.
    pub fn get_state_value_estimate(&self, state: String) -> (r: i64)
        ensures
            r == self.spec_v().stored(state@),
    {
        let id = generate_id(state.as_str(), None);
        self.state_value_store.get_value(&id)
    }

    /// How often a state has been visited; zero if never.
    pub fn get_state_visit_count(&self, state: String) -> (r: i64)
        ensures
            r == self.spec_state_counts().stored(state@),
    {
        let id = generate_id(state.as_str(), None);
        self.store_state_count.get_value(&id)
    }

    /// How many actions this agent has taken over all episodes.
    pub fn get_total_actions_taken(&self) -> (r: usize)
        ensures
            r as int == self.spec_total(),
    {
        self.total_actions_taken
    }

    /// Every state key of the learning-relevant projection.
    pub fn all_possible_states(&self) -> (r: Vec<String>)
        ensures
            r@.len() == 200,
            forall|t: int|
                0 <= t < 200 ==> #[trigger] r@[t]@
                    == crate::environments::blackjack::enumerated_state(t),
    {
        self.environment.all_possible_states()
    }

    /// Plays one episode to termination and applies the Monte-Carlo
    /// updates backward: the return applied at each timestep is the
    /// undiscounted sum of the rewards from that step on, and both the
    /// action value and the state value move toward it, latest timestep
    /// first. The environment is reset strictly after the last update, and
    /// the total episode return is returned: minus one, zero or plus one,
    /// in millionths.
    pub fn run_episode(&mut self) -> (r: i64)
        requires
            old(self).wf(),
            old(self).spec_selector().supports_state_values(),
            !old(self).spec_env().spec_is_terminal(),
            old(self).spec_env().step_count + 70 < usize::MAX,
            old(self).spec_total() + 70 < i64::MAX,
            old(self).spec_total() + 70 < usize::MAX,
        ensures
            final(self).wf(),
            !final(self).spec_env().spec_is_terminal(),
            r == -(UNIT as int) || r == 0 || r == UNIT as int,
            final(self).spec_selector() == old(self).spec_selector(),
            old(self).spec_total() < final(self).spec_total() <= old(self).spec_total() + 66,
            exists|traj: Seq<(Seq<char>, int, i64)>|
                #[trigger] episode_trace(*old(self), *final(self), traj, r as int),
    {
        let ghost orig = *old(self);
        let mut trajectory: Vec<(String, usize, i64)> = Vec::new();
        let ghost mut gtraj: Seq<(Seq<char>, int, i64)> = Seq::empty();
        proof {
            lemma_measure_bounds(&self.spec_env());
        }
        while !self.environment.is_terminal()
            invariant
                self.wf(),
                self.spec_selector() == orig.spec_selector(),
                orig.spec_selector().supports_state_values(),
                trajectory@.len() + episode_measure(&self.spec_env()) <= 66,
                trajectory@.len() >= 1 || episode_measure(&self.spec_env()) >= 1,
                self.spec_total() == orig.spec_total() + trajectory@.len(),
                self.spec_env().step_count == orig.spec_env().step_count + trajectory@.len(),
                orig.spec_env().step_count + 70 < usize::MAX,
                orig.spec_total() + 70 < i64::MAX,
                orig.spec_total() + 70 < usize::MAX,
                forall|j: int|
                    0 <= j < trajectory@.len() ==> (#[trigger] trajectory@[j].2 == -(UNIT as int)
                        || trajectory@[j].2 == 0 || trajectory@[j].2 == UNIT as int),
                forall|j: int| 0 <= j < trajectory@.len() - 1 ==> #[trigger] trajectory@[j].2 == 0,
                trajectory@.len() >= 1 && !self.spec_env().spec_is_terminal()
                    ==> trajectory@[trajectory@.len() - 1].2 == 0,
                forall|j: int|
                    0 <= j < trajectory@.len() ==> stored_count(
                        &self.spec_counts(),
                        (#[trigger] trajectory@[j]).0@,
                        trajectory@[j].1 as int,
                    ) >= 1,
                gtraj.len() == trajectory@.len(),
                forall|j: int|
                    0 <= j < gtraj.len() ==> (#[trigger] gtraj[j]).0 == trajectory@[j].0@ && gtraj[
                    j].1 == trajectory@[j].1 as int && gtraj[j].2 == trajectory@[j].2,
                forall|j: int| 0 <= j < gtraj.len() ==> 0 <= (#[trigger] gtraj[j]).1 < 2,
                self.spec_q() == orig.spec_q(),
                self.spec_v() == orig.spec_v(),
                forall|key: Seq<char>|
                    #[trigger] self.spec_counts().stored(key) == orig.spec_counts().stored(key)
                        + pair_visits(gtraj, key),
                forall|key: Seq<char>|
                    #[trigger] self.spec_state_counts().stored(key) == orig.spec_state_counts().stored(
                        key,
                    ) + state_visits(gtraj, key),
            decreases episode_measure(&self.spec_env()),
        {
            let state = self.environment.get_state();
            let action = self.select_action();
            let ghost sv = state@;
            let ghost pre_state_key = self.spec_env_state();
            let reward = match self.take_action(action) {
                Ok(rw) => rw,
                Err(_) => unreached(),
            };
            let ghost pre_push = trajectory@;
            let ghost gpre = gtraj;
            trajectory.push((state, action, reward));
            proof {
                gtraj = gtraj.push((sv, action as int, reward));
                assert(trajectory@.drop_last() =~= pre_push);
                assert(gtraj.drop_last() =~= gpre);
                lemma_measure_bounds(&self.spec_env());
                assert(sv == pre_state_key);
                assert forall|key: Seq<char>|
                    #[trigger] self.spec_counts().stored(key) == orig.spec_counts().stored(key)
                        + pair_visits(gtraj, key) by {
                    assert(gtraj.last() == (sv, action as int, reward));
                    assert(pair_visits(gtraj, key) == pair_visits(gpre, key) + if key_id(
                        sv,
                        Some(action as int),
                    ) == key {
                        1int
                    } else {
                        0int
                    });
                }
                assert forall|key: Seq<char>|
                    #[trigger] self.spec_state_counts().stored(key)
                        == orig.spec_state_counts().stored(key) + state_visits(gtraj, key) by {
                    assert(gtraj.last() == (sv, action as int, reward));
                    assert(state_visits(gtraj, key) == state_visits(gpre, key) + if sv == key {
                        1int
                    } else {
                        0int
                    });
                }
            }
        }
        let n = trajectory.len();
        let mut rewards: Vec<i64> = Vec::new();
        let mut j: usize = 0;
        while j < n
            invariant
                0 <= j <= n == trajectory@.len(),
                rewards@.len() == j,
                forall|t: int| 0 <= t < j ==> #[trigger] rewards@[t] == trajectory@[t].2,
                forall|t: int|
                    0 <= t < trajectory@.len() ==> (#[trigger] trajectory@[t].2 == -(UNIT as int)
                        || trajectory@[t].2 == 0 || trajectory@[t].2 == UNIT as int),
            decreases n - j,
        {
            rewards.push(trajectory[j].2);
            j = j + 1;
        }
        proof {
            assert(rewards@ =~= traj_rewards(gtraj));
        }
        let gains = accumulate_returns(&rewards);
        let episode_return: i64 = if n > 0 {
            gains[0]
        } else {
            0
        };
        proof {
            if n > 0 {
                lemma_suffix_sum_sparse(rewards@, 0);
            }
        }
        let ghost cfin = self.spec_counts();
        let ghost sfin = self.spec_state_counts();
        let mut idx: usize = n;
        while idx > 0
            invariant
                0 <= idx <= n == trajectory@.len(),
                gains@.len() == rewards@.len() == n,
                self.wf(),
                self.spec_selector() == orig.spec_selector(),
                orig.spec_selector().supports_state_values(),
                forall|t: int| 0 <= t < n ==> #[trigger] gains@[t] == suffix_sum(rewards@, t),
                forall|t: int| 0 <= t < n ==> #[trigger] rewards@[t] == trajectory@[t].2,
                forall|t: int|
                    0 <= t < trajectory@.len() ==> (#[trigger] trajectory@[t].2 == -(UNIT as int)
                        || trajectory@[t].2 == 0 || trajectory@[t].2 == UNIT as int),
                forall|t: int| 0 <= t < trajectory@.len() - 1 ==> #[trigger] trajectory@[t].2 == 0,
                forall|t: int|
                    0 <= t < trajectory@.len() ==> stored_count(
                        &self.spec_counts(),
                        (#[trigger] trajectory@[t]).0@,
                        trajectory@[t].1 as int,
                    ) >= 1,
                self.spec_total() == orig.spec_total() + n,
                orig.spec_total() + 70 < i64::MAX,
                1 <= n <= 66,
                gtraj.len() == n,
                forall|t: int|
                    0 <= t < gtraj.len() ==> (#[trigger] gtraj[t]).0 == trajectory@[t].0@ && gtraj[
                    t].1 == trajectory@[t].1 as int && gtraj[t].2 == trajectory@[t].2,
                rewards@ == traj_rewards(gtraj),
                self.spec_counts() == cfin,
                self.spec_state_counts() == sfin,
                forall|key: Seq<char>|
                    #[trigger] self.spec_q().stored(key) as int == q_backfold(
                        gtraj,
                        cfin,
                        orig.spec_q(),
                        n - idx,
                        key,
                    ),
                forall|key: Seq<char>|
                    #[trigger] self.spec_v().stored(key) as int == v_backfold(
                        gtraj,
                        sfin,
                        orig.spec_v(),
                        n - idx,
                        key,
                    ),
            decreases idx,
        {
            idx = idx - 1;
            proof {
                lemma_suffix_sum_sparse(rewards@, idx as int);
            }
            let g = gains[idx];
            let state = trajectory[idx].0.clone();
            let action = trajectory[idx].1;
            self.update_q_estimate(&state, action, g);
            proof {
                let done = n - idx;
                assert forall|key: Seq<char>|
                    #[trigger] self.spec_q().stored(key) as int == q_backfold(
                        gtraj,
                        cfin,
                        orig.spec_q(),
                        done as int,
                        key,
                    ) by {
                    assert(gtraj[idx as int].0 == state@);
                    assert(gtraj[idx as int].1 == action as int);
                    if key == key_id(state@, Some(action as int)) {
                        assert(g as int == suffix_sum(traj_rewards(gtraj), idx as int));
                    }
                }
            }
            match self.update_state_value_estimate(&state, g) {
                Ok(()) => (),
                Err(_) => unreached(),
            }
            proof {
                let done = n - idx;
                assert forall|key: Seq<char>|
                    #[trigger] self.spec_v().stored(key) as int == v_backfold(
                        gtraj,
                        sfin,
                        orig.spec_v(),
                        done as int,
                        key,
                    ) by {
                    assert(gtraj[idx as int].0 == state@);
                    if key == state@ {
                        assert(g as int == suffix_sum(traj_rewards(gtraj), idx as int));
                    }
                }
            }
        }
        self.environment.reset();
        proof {
            if n > 0 {
                lemma_suffix_sum_sparse(rewards@, 0);
            }
            assert(episode_trace(orig, *self, gtraj, episode_return as int));
        }
        episode_return
    }
}

} // verus!
