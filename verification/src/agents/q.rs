//! The per-step agent: one bandit environment, one selector, and the
//! stores that hold its estimates and visit counts.
//!
//! Each step is select, act, update: the agent asks the selector for an
//! action, increments the (state, action) visit count, steps the
//! environment, and writes back the estimate the selector derives from the
//! reward. The selector never writes; the agent writes only what the
//! selector returns.

use vstd::prelude::*;

verus! {

use vstd::pervasive::unreached;

use crate::codec::dec_rep;
use crate::environments::bandit::KArmedBandit;
use crate::errors::RlError;
use crate::math::{div_trunc, new_q_spec, REWARD_LIMIT};
use crate::store::{generate_id, key_id, MemoryStore, Store};
use crate::agents::selector::{
    count_store_bounded,
    q_store_bounded,
    stored_count,
    stored_q,
    Selector,
};

/// One select, act, update round of the per-step agent, as a relation over
/// the stores and the environment before and after it: the action is the
/// selector's choice against the pre-round stores, the reward is the pulled
/// arm's true mean plus the consumed noise sample, the action's visit count
/// moves by one, its Q entry moves by the incremental sample mean with that
/// new count, and nothing else moves.
pub open spec fn bandit_step_rel<U: Selector>(
    sel: U,
    pre_q: MemoryStore,
    pre_c: MemoryStore,
    pre_env: KArmedBandit,
    post_q: MemoryStore,
    post_c: MemoryStore,
    post_env: KArmedBandit,
    action: int,
    reward: int,
) -> bool {
    let key = key_id(dec_rep(0), Some(action));
    &&& 0 <= action < pre_env.spec_k()
    &&& sel.is_chosen(
        &pre_q,
        &pre_c,
        dec_rep(0),
        pre_env.spec_k(),
        pre_env.spec_num_pulls(),
        action,
    )
    &&& reward == pre_env.arm_value(action) + pre_env.spec_next_noise()
    &&& post_c.stored(key) == pre_c.stored(key) + 1
    &&& forall|x: Seq<char>| x != key ==> post_c.stored(x) == pre_c.stored(x)
    &&& post_q.stored(key) as int == new_q_spec(
        pre_q.stored(key) as int,
        reward,
        post_c.stored(key) as int,
    )
    &&& forall|x: Seq<char>| x != key ==> post_q.stored(x) == pre_q.stored(x)
    &&& post_env.spec_k() == pre_env.spec_k()
    &&& post_env.spec_num_pulls() == pre_env.spec_num_pulls() + 1
    &&& post_env.arm_pulls(action) == pre_env.arm_pulls(action) + 1
    &&& forall|i: int| 0 <= i < pre_env.spec_k() ==> post_env.arm_value(i) == pre_env.arm_value(i)
    &&& forall|i: int|
        0 <= i < pre_env.spec_k() && i != action ==> post_env.arm_pulls(i) == pre_env.arm_pulls(i)
    &&& forall|t: int| 0 <= t ==> post_env.spec_noise_at(t) == pre_env.spec_noise_at(t + 1)
}

/// A whole run as a chain of such rounds over snapshots of the stores and
/// the environment: entry `t` of each snapshot sequence is the state before
/// round `t`.
pub open spec fn bandit_run_trace<U: Selector>(
    sel: U,
    qs: Seq<MemoryStore>,
    cs: Seq<MemoryStore>,
    envs: Seq<KArmedBandit>,
    acts: Seq<int>,
    rewards: Seq<i64>,
) -> bool {
    &&& qs.len() == acts.len() + 1
    &&& cs.len() == acts.len() + 1
    &&& envs.len() == acts.len() + 1
    &&& rewards.len() == acts.len()
    &&& forall|t: int|
        0 <= t < acts.len() ==> #[trigger] bandit_step_rel(
            sel,
            qs[t],
            cs[t],
            envs[t],
            qs[t + 1],
            cs[t + 1],
            envs[t + 1],
            acts[t],
            rewards[t] as int,
        )
}

/// A per-step learning agent over a k-armed bandit.
pub struct AgentQ<U: Selector> {
    environment: KArmedBandit,
    selector: U,
    q_store: MemoryStore,
    state_value_store: MemoryStore,
    store_action_count: MemoryStore,
    total_actions_taken: usize,
}

impl<U: Selector> AgentQ<U> {
    pub closed spec fn spec_env(&self) -> KArmedBandit {
        self.environment
    }

    pub closed spec fn spec_selector(&self) -> U {
        self.selector
    }

    pub closed spec fn spec_q(&self) -> MemoryStore {
        self.q_store
    }

    pub closed spec fn spec_v(&self) -> MemoryStore {
        self.state_value_store
    }

    pub closed spec fn spec_counts(&self) -> MemoryStore {
        self.store_action_count
    }

    pub closed spec fn spec_total(&self) -> int {
        self.total_actions_taken as int
    }

    /// The agent's pieces are well formed and its visit counts never
    /// exceed the environment's pull count.
    pub open spec fn wf(&self) -> bool {
        &&& self.spec_env().wf()
        &&& self.spec_selector().wf()
        &&& q_store_bounded(&self.spec_q())
        &&& q_store_bounded(&self.spec_v())
        &&& count_store_bounded(&self.spec_counts())
        &&& forall|k: Seq<char>|
            0 <= #[trigger] self.spec_counts().stored(k) <= self.spec_env().spec_num_pulls()
    }

    /// Binds an environment, a selector and the stores. The count store
    /// must be fresh: this agent's counting starts at zero.
    pub fn new(
        environment: KArmedBandit,
        selector: U,
        q_store: MemoryStore,
        state_value_store: MemoryStore,
        store_action_count: MemoryStore,
    ) -> (a: AgentQ<U>)
        requires
            environment.wf(),
            selector.wf(),
            q_store_bounded(&q_store),
            q_store_bounded(&state_value_store),
            forall|k: Seq<char>| #[trigger] store_action_count.stored(k) == 0,
        ensures
            a.wf(),
            a.spec_env() == environment,
            a.spec_selector() == selector,
            a.spec_q() == q_store,
            a.spec_v() == state_value_store,
            a.spec_counts() == store_action_count,
            a.spec_total() == 0,
    {
        let a = AgentQ {
            environment,
            selector,
            q_store,
            state_value_store,
            store_action_count,
            total_actions_taken: 0,
        };
        proof {
            assert(a.spec_env().wf());
            assert(a.spec_selector().wf());
            assert(q_store_bounded(&a.spec_q()));
            assert(q_store_bounded(&a.spec_v()));
            assert(count_store_bounded(&a.spec_counts()));
            crate::environments::bandit::lemma_counts_nonneg(&a.spec_env());
            assert forall|k: Seq<char>| #![trigger a.spec_counts().stored(k)]
                0 <= a.spec_counts().stored(k) && a.spec_counts().stored(k)
                    <= a.spec_env().spec_num_pulls() by {
                assert(a.spec_counts().stored(k) == store_action_count.stored(k));
                assert(store_action_count.stored(k) == 0);
            }
        }
        a
    }

    /// Asks the selector for the next action.
    pub fn select_action(&self) -> (r: usize)
        requires
            self.wf(),
        ensures
            r < self.spec_env().spec_k(),
            self.spec_selector().is_chosen(
                &self.spec_q(),
                &self.spec_counts(),
                dec_rep(0),
                self.spec_env().spec_k(),
                self.spec_env().spec_num_pulls(),
                r as int,
            ),
    {
        let state = self.environment.get_state();
        let num_actions = self.environment.get_number_of_possible_actions();
        let total = self.environment.get_total_number_of_actions_taken();
        self.selector.select_action(
            &state,
            num_actions,
            total,
            &self.q_store,
            &self.store_action_count,
        )
    }

    /// Takes the action: increments its visit count, then pulls the arm.
    /// The count moves exactly once per accepted action, and the true arm
    /// means never change.
    pub fn take_action(&mut self, action: usize) -> (r: Result<i64, RlError>)
        requires
            old(self).wf(),
            old(self).spec_env().spec_num_pulls() < usize::MAX,
            old(self).spec_env().spec_num_pulls() + 2 < i64::MAX,
            old(self).spec_total() < usize::MAX,
        ensures
            final(self).wf(),
            r is Err <==> action >= old(self).spec_env().spec_k(),
            r is Err ==> r == Err::<i64, RlError>(RlError::InvalidAction) && *final(self) == *old(self),
            r matches Ok(rw) ==> {
                &&& rw == old(self).spec_env().arm_value(action as int) + old(self).spec_env().spec_next_noise()
                &&& -REWARD_LIMIT <= rw <= REWARD_LIMIT
                &&& final(self).spec_counts().stored(key_id(dec_rep(0), Some(action as int)))
                    == old(self).spec_counts().stored(key_id(dec_rep(0), Some(action as int))) + 1
                &&& forall|k: Seq<char>|
                    k != key_id(dec_rep(0), Some(action as int)) ==> final(self).spec_counts().stored(k) == old(self).spec_counts().stored(k)
                &&& final(self).spec_q() == old(self).spec_q()
                &&& final(self).spec_v() == old(self).spec_v()
                &&& final(self).spec_selector() == old(self).spec_selector()
                &&& final(self).spec_env().spec_k() == old(self).spec_env().spec_k()
                &&& final(self).spec_env().spec_num_pulls() == old(self).spec_env().spec_num_pulls() + 1
                &&& final(self).spec_env().arm_pulls(action as int) == old(self).spec_env().arm_pulls(action as int) + 1
                &&& forall|i: int|
                    0 <= i < old(self).spec_env().spec_k() ==> final(self).spec_env().arm_value(i)
                        == old(self).spec_env().arm_value(i)
                &&& forall|i: int|
                    0 <= i < old(self).spec_env().spec_k() && i != action ==> final(self).spec_env().arm_pulls(i) == old(self).spec_env().arm_pulls(i)
                &&& forall|t: int|
                    0 <= t ==> final(self).spec_env().spec_noise_at(t) == old(
                        self,
                    ).spec_env().spec_noise_at(t + 1)
                &&& final(self).spec_total() == old(self).spec_total() + 1
            },
    {
        if action >= self.environment.num_bandits() {
            return Err(RlError::InvalidAction);
        }
        let current_state = self.environment.get_state();
        let id = generate_id(current_state.as_str(), Some(action));
        let current_count = self.store_action_count.get_value(&id);
        self.store_action_count.store_value(id, current_count + 1);
        let reward = self.environment.pull_by_index(action);
        self.total_actions_taken = self.total_actions_taken + 1;
        Ok(reward)
    }

    /// Writes back the selector's new Q estimate for (state, action).
    pub fn update_q_estimate(&mut self, state: &String, action: usize, reward: i64)
        requires
            old(self).wf(),
            -REWARD_LIMIT <= reward <= REWARD_LIMIT,
            stored_count(&old(self).spec_counts(), state@, action as int) >= 1,
        ensures
            final(self).wf(),
            final(self).spec_q().stored(key_id(state@, Some(action as int))) as int == new_q_spec(
                stored_q(&old(self).spec_q(), state@, action as int),
                reward as int,
                stored_count(&old(self).spec_counts(), state@, action as int),
            ),
            forall|k: Seq<char>|
                k != key_id(state@, Some(action as int)) ==> final(self).spec_q().stored(k) == old(self).spec_q().stored(k),
            final(self).spec_env() == old(self).spec_env(),
            final(self).spec_counts() == old(self).spec_counts(),
            final(self).spec_v() == old(self).spec_v(),
            final(self).spec_selector() == old(self).spec_selector(),
            final(self).spec_total() == old(self).spec_total(),
    {
        let new_estimate = self.selector.get_new_q_estimate(
            &self.q_store,
            &self.store_action_count,
            state,
            action,
            reward,
        );
        let id = generate_id(state.as_str(), Some(action));
        self.q_store.store_value(id, new_estimate);
    }

    /// The agent interface's update entry point; the terminal flag plays
    /// no role for the per-step agent.
    pub fn update_estimate(&mut self, state: &String, action: usize, reward: i64, _is_terminal: bool)
        requires
            old(self).wf(),
            -REWARD_LIMIT <= reward <= REWARD_LIMIT,
            stored_count(&old(self).spec_counts(), state@, action as int) >= 1,
        ensures
            final(self).wf(),
            final(self).spec_q().stored(key_id(state@, Some(action as int))) as int == new_q_spec(
                stored_q(&old(self).spec_q(), state@, action as int),
                reward as int,
                stored_count(&old(self).spec_counts(), state@, action as int),
            ),
            forall|k: Seq<char>|
                k != key_id(state@, Some(action as int)) ==> final(self).spec_q().stored(k) == old(self).spec_q().stored(k),
            final(self).spec_env() == old(self).spec_env(),
            final(self).spec_counts() == old(self).spec_counts(),
    {
        self.update_q_estimate(state, action, reward);
    }

    /// Writes back the selector's new state-value estimate, when the
    /// selector derives one; answers `Unsupported` untouched otherwise.
    pub fn update_state_value_estimate(&mut self, state: &String, reward: i64) -> (r: Result<
        (),
        RlError,
    >)
        requires
            old(self).wf(),
            -REWARD_LIMIT <= reward <= REWARD_LIMIT,
        ensures
            final(self).wf(),
            r is Ok <==> old(self).spec_selector().supports_state_values(),
            r is Err ==> r == Err::<(), RlError>(RlError::Unsupported) && *final(self) == *old(self),
            r is Ok ==> final(self).spec_v().stored(state@) as int == new_q_spec(
                old(self).spec_v().stored(state@) as int,
                reward as int,
                old(self).spec_counts().stored(state@) + 1,
            ) && final(self).spec_q() == old(self).spec_q() && final(self).spec_counts() == old(self).spec_counts() && final(self).spec_env() == old(self).spec_env(),
            r is Ok ==> forall|k: Seq<char>|
                k != state@ ==> final(self).spec_v().stored(k) == old(self).spec_v().stored(k),
    {
        let new_estimate = self.selector.get_new_value_estimate(
            &self.state_value_store,
            &self.store_action_count,
            state,
            reward,
        );
        match new_estimate {
            Ok(v) => {
                let id = generate_id(state.as_str(), None);
                self.state_value_store.store_value(id, v);
                Ok(())
            },
            Err(e) => Err(e),
        }
    }

    /// The stored Q estimate for (state, action); zero if never updated.
    pub fn get_q_estimate(&self, state: &String, action: usize) -> (r: i64)
        ensures
            r as int == stored_q(&self.spec_q(), state@, action as int),
    {
        let id = generate_id(state.as_str(), Some(action));
        self.q_store.get_value(&id)
    }

    /// The stored state-value estimate; zero if never updated.
    pub fn get_value_estimate(&self, state: &String) -> (r: i64)
        ensures
            r == self.spec_v().stored(state@),
    {
        let id = generate_id(state.as_str(), None);
        self.state_value_store.get_value(&id)
    }

    pub fn get_total_actions_taken(&self) -> (r: usize)
        ensures
            r as int == self.spec_total(),
    {
        self.total_actions_taken
    }

    /// One experiment run: `num_steps` rounds of select, act, update,
    /// returning the reward of each step in order. The run is a chain of
    /// [`bandit_step_rel`] rounds: some action sequence exists, each action
    /// the selector's choice against the stores of its moment, each reward
    /// the pulled arm's true mean plus the consumed noise sample, and the
    /// final stores are the fold of the per-step count and
    /// incremental-mean updates along it.
    pub fn run_steps(&mut self, num_steps: usize) -> (rewards: Vec<i64>)
        requires
            old(self).wf(),
            old(self).spec_env().spec_num_pulls() + num_steps < usize::MAX,
            old(self).spec_env().spec_num_pulls() + num_steps + 2 < i64::MAX,
            old(self).spec_total() + num_steps < usize::MAX,
        ensures
            final(self).wf(),
            rewards@.len() == num_steps,
            forall|t: int|
                0 <= t < num_steps ==> -REWARD_LIMIT <= #[trigger] rewards@[t] <= REWARD_LIMIT,
            final(self).spec_env().spec_num_pulls() == old(self).spec_env().spec_num_pulls()
                + num_steps,
            final(self).spec_env().spec_k() == old(self).spec_env().spec_k(),
            forall|i: int|
                0 <= i < old(self).spec_env().spec_k() ==> final(self).spec_env().arm_value(i)
                    == old(self).spec_env().arm_value(i),
            final(self).spec_total() == old(self).spec_total() + num_steps,
            final(self).spec_v() == old(self).spec_v(),
            final(self).spec_selector() == old(self).spec_selector(),
            exists|acts: Seq<int>, qs: Seq<MemoryStore>, cs: Seq<MemoryStore>, envs: Seq<
                KArmedBandit,
            >|
                {
                    &&& #[trigger] bandit_run_trace(
                        old(self).spec_selector(),
                        qs,
                        cs,
                        envs,
                        acts,
                        rewards@,
                    )
                    &&& acts.len() == num_steps
                    &&& qs[0] == old(self).spec_q()
                    &&& cs[0] == old(self).spec_counts()
                    &&& envs[0] == old(self).spec_env()
                    &&& qs[num_steps as int] == final(self).spec_q()
                    &&& cs[num_steps as int] == final(self).spec_counts()
                    &&& envs[num_steps as int] == final(self).spec_env()
                },
    {
        let mut rewards: Vec<i64> = Vec::new();
        let ghost mut acts: Seq<int> = Seq::empty();
        let ghost mut qs: Seq<MemoryStore> = seq![self.spec_q()];
        let ghost mut cs: Seq<MemoryStore> = seq![self.spec_counts()];
        let ghost mut envs: Seq<KArmedBandit> = seq![self.spec_env()];
        let mut step: usize = 0;
        while step < num_steps
            invariant
                0 <= step <= num_steps,
                rewards@.len() == step,
                forall|t: int|
                    0 <= t < step ==> -REWARD_LIMIT <= #[trigger] rewards@[t] <= REWARD_LIMIT,
                self.wf(),
                self.spec_env().spec_num_pulls() == old(self).spec_env().spec_num_pulls() + step,
                self.spec_total() == old(self).spec_total() + step,
                old(self).spec_total() + num_steps < usize::MAX,
                old(self).spec_env().spec_num_pulls() + num_steps < usize::MAX,
                old(self).spec_env().spec_num_pulls() + num_steps + 2 < i64::MAX,
                self.spec_env().spec_k() == old(self).spec_env().spec_k(),
                forall|i: int|
                    0 <= i < old(self).spec_env().spec_k() ==> self.spec_env().arm_value(i) == old(self).spec_env().arm_value(i),
                self.spec_v() == old(self).spec_v(),
                self.spec_selector() == old(self).spec_selector(),
                acts.len() == step,
                qs.len() == step + 1 && cs.len() == step + 1 && envs.len() == step + 1,
                qs[0] == old(self).spec_q() && cs[0] == old(self).spec_counts() && envs[0] == old(
                    self,
                ).spec_env(),
                qs.last() == self.spec_q() && cs.last() == self.spec_counts() && envs.last()
                    == self.spec_env(),
                bandit_run_trace(old(self).spec_selector(), qs, cs, envs, acts, rewards@),
            decreases num_steps - step,
        {
            let action = self.select_action();
            let state = self.environment.get_state();
            let reward = match self.take_action(action) {
                Ok(rw) => rw,
                Err(_) => unreached(),
            };
            self.update_q_estimate(&state, action, reward);
            rewards.push(reward);
            proof {
                let ghost old_acts = acts;
                let ghost old_qs = qs;
                let ghost old_cs = cs;
                let ghost old_envs = envs;
                let ghost old_rewards = rewards@.drop_last();
                acts = acts.push(action as int);
                qs = qs.push(self.spec_q());
                cs = cs.push(self.spec_counts());
                envs = envs.push(self.spec_env());
                assert(bandit_step_rel(
                    old(self).spec_selector(),
                    qs[step as int],
                    cs[step as int],
                    envs[step as int],
                    qs[step + 1],
                    cs[step + 1],
                    envs[step + 1],
                    acts[step as int],
                    rewards@[step as int] as int,
                ));
                assert forall|t: int| 0 <= t < acts.len() implies #[trigger] bandit_step_rel(
                    old(self).spec_selector(),
                    qs[t],
                    cs[t],
                    envs[t],
                    qs[t + 1],
                    cs[t + 1],
                    envs[t + 1],
                    acts[t],
                    rewards@[t] as int,
                ) by {
                    if t < step {
                        assert(qs[t] == old_qs[t] && qs[t + 1] == old_qs[t + 1]);
                        assert(cs[t] == old_cs[t] && cs[t + 1] == old_cs[t + 1]);
                        assert(envs[t] == old_envs[t] && envs[t + 1] == old_envs[t + 1]);
                        assert(acts[t] == old_acts[t]);
                        assert(rewards@[t] == old_rewards[t]);
                        assert(bandit_step_rel(
                            old(self).spec_selector(),
                            old_qs[t],
                            old_cs[t],
                            old_envs[t],
                            old_qs[t + 1],
                            old_cs[t + 1],
                            old_envs[t + 1],
                            old_acts[t],
                            old_rewards[t] as int,
                        ));
                    }
                }
            }
            step = step + 1;
        }
        rewards
    }
}

/// The rewards at step `t`, summed over the first `count` runs.
pub open spec fn column_sum(runs: Seq<Vec<i64>>, count: int, t: int) -> int
    decreases count,
{
    if count <= 0 {
        0
    } else {
        column_sum(runs, count - 1, t) + runs[count - 1]@[t]
    }
}

proof fn lemma_column_sum_bound(runs: Seq<Vec<i64>>, count: int, t: int)
    requires
        0 <= count <= runs.len(),
        forall|i: int, j: int|
            0 <= i < runs.len() && 0 <= j < runs[i]@.len() ==> -REWARD_LIMIT <= #[trigger] runs[
            i]@[j] <= REWARD_LIMIT,
        forall|i: int| 0 <= i < runs.len() ==> t < #[trigger] runs[i]@.len(),
        t >= 0,
    ensures
        -count * REWARD_LIMIT <= column_sum(runs, count, t) <= count * REWARD_LIMIT,
    decreases count,
{
    if count > 0 {
        lemma_column_sum_bound(runs, count - 1, t);
        assert(count * REWARD_LIMIT == (count - 1) * REWARD_LIMIT + REWARD_LIMIT) by (
        nonlinear_arith);
    }
}

/// Averages the per-step rewards of identically shaped runs: entry `t` is
/// the mean over runs of the reward at step `t`, rounded toward zero.
pub fn average_rewards(runs: &Vec<Vec<i64>>) -> (avg: Vec<i64>)
    requires
        1 <= runs@.len() <= 9_000_000,
        forall|i: int| 0 <= i < runs@.len() ==> (#[trigger] runs@[i])@.len() == runs@[0]@.len(),
        forall|i: int, j: int|
            0 <= i < runs@.len() && 0 <= j < runs@[i]@.len() ==> -REWARD_LIMIT <= #[trigger] runs@[
            i]@[j] <= REWARD_LIMIT,
    ensures
        avg@.len() == runs@[0]@.len(),
        forall|t: int|
            0 <= t < avg@.len() ==> #[trigger] avg@[t] == div_trunc(
                column_sum(runs@, runs@.len() as int, t),
                runs@.len() as int,
            ),
{
    let num_steps = runs[0].len();
    let num_runs = runs.len();
    let mut avg: Vec<i64> = Vec::new();
    let mut t: usize = 0;
    while t < num_steps
        invariant
            0 <= t <= num_steps == runs@[0]@.len(),
            1 <= num_runs == runs@.len() <= 9_000_000,
            avg@.len() == t,
            forall|i: int| 0 <= i < runs@.len() ==> (#[trigger] runs@[i])@.len() == num_steps,
            forall|i: int, j: int|
                0 <= i < runs@.len() && 0 <= j < runs@[i]@.len() ==> -REWARD_LIMIT
                    <= #[trigger] runs@[i]@[j] <= REWARD_LIMIT,
            forall|u: int|
                0 <= u < t ==> #[trigger] avg@[u] == div_trunc(
                    column_sum(runs@, runs@.len() as int, u),
                    runs@.len() as int,
                ),
        decreases num_steps - t,
    {
        let mut acc: i64 = 0;
        let mut r: usize = 0;
        while r < num_runs
            invariant
                0 <= r <= num_runs == runs@.len() <= 9_000_000,
                0 <= t < num_steps,
                forall|i: int| 0 <= i < runs@.len() ==> (#[trigger] runs@[i])@.len() == num_steps,
                forall|i: int, j: int|
                    0 <= i < runs@.len() && 0 <= j < runs@[i]@.len() ==> -REWARD_LIMIT
                        <= #[trigger] runs@[i]@[j] <= REWARD_LIMIT,
                acc as int == column_sum(runs@, r as int, t as int),
                -(r as int) * REWARD_LIMIT <= acc as int <= (r as int) * REWARD_LIMIT,
            decreases num_runs - r,
        {
            proof {
                lemma_column_sum_bound(runs@, r as int + 1, t as int);
                assert((r + 1) as int * REWARD_LIMIT <= 9_000_000 * REWARD_LIMIT) by (
                nonlinear_arith)
                    requires 0 <= r as int + 1 <= 9_000_000;
            }
            acc = acc + runs[r][t];
            r = r + 1;
        }
        avg.push(acc / (num_runs as i64));
        t = t + 1;
    }
    avg
}

} // verus!
