//! The stationary k-armed bandit.
//!
//! Each arm has a fixed true mean; a pull returns the mean plus one noise
//! sample. Drawing the means and the noise from a Gaussian is the caller's
//! business: the environment takes both as plain fixed-point values, the
//! means at construction and the noise as a queue that pulls consume in
//! order (an exhausted queue contributes zero, which also gives
//! deterministic arms for testing). The true means never change after
//! construction; only counts and cumulative rewards move, and `reset`
//! clears exactly those.

use vstd::prelude::*;

verus! {

use crate::codec::{dec_rep, format_decimal};
use crate::errors::RlError;
use crate::math::{MEAN_LIMIT, REWARD_LIMIT};

/// The reward model of an arm. The classic experiment uses unit-variance
/// Gaussian arms; the samples themselves are supplied by the caller.
pub enum BanditType {
    Gaussian,
}

/// One arm: a fixed true mean with a pull count and a cumulative reward.
pub struct Bandit {
    bandit_type: BanditType,
    value: i64,
    name: String,
    num_pulls: usize,
    total_reward: i128,
}

impl Bandit {
    /// The arm's true mean, in millionths.
    pub closed spec fn spec_value(&self) -> int {
        self.value as int
    }

    pub closed spec fn spec_pulls(&self) -> int {
        self.num_pulls as int
    }

    pub closed spec fn spec_total(&self) -> int {
        self.total_reward as int
    }

    /// The arm's bookkeeping stays within machine bounds.
    pub open spec fn wf(&self) -> bool {
        &&& -MEAN_LIMIT <= self.spec_value() <= MEAN_LIMIT
        &&& -self.spec_pulls() * REWARD_LIMIT <= self.spec_total() <= self.spec_pulls()
            * REWARD_LIMIT
    }

    /// A fresh arm with the given true mean, in millionths.
    pub fn new(name: String, bandit_type: BanditType, value: i64) -> (b: Bandit)
        requires
            -MEAN_LIMIT <= value <= MEAN_LIMIT,
        ensures
            b.wf(),
            b.spec_value() == value,
            b.spec_pulls() == 0,
            b.spec_total() == 0,
    {
        Bandit { bandit_type, value, name, num_pulls: 0, total_reward: 0 }
    }

    /// Pulls the arm with the given noise sample: the reward is the true
    /// mean plus the noise; the pull count and the cumulative reward move
    /// with it, and the mean stays what it was.
    pub fn pull(&mut self, noise: i64) -> (r: i64)
        requires
            old(self).wf(),
            old(self).spec_pulls() < usize::MAX,
            -MEAN_LIMIT <= noise <= MEAN_LIMIT,
        ensures
            final(self).wf(),
            r == old(self).spec_value() + noise,
            -REWARD_LIMIT <= r <= REWARD_LIMIT,
            final(self).spec_value() == old(self).spec_value(),
            final(self).spec_pulls() == old(self).spec_pulls() + 1,
            final(self).spec_total() == old(self).spec_total() + r,
    {
        proof {
            let p = old(self).spec_pulls();
            assert((p + 1) * REWARD_LIMIT == p * REWARD_LIMIT + REWARD_LIMIT) by (nonlinear_arith);
            assert(p * REWARD_LIMIT <= 0x1_0000_0000_0000_0000 * REWARD_LIMIT) by (
            nonlinear_arith)
                requires 0 <= p <= 0x1_0000_0000_0000_0000;
        }
        self.num_pulls = self.num_pulls + 1;
        let v = self.value + noise;
        self.total_reward = self.total_reward + (v as i128);
        v
    }

    pub fn get_number_of_pulls(&self) -> (r: usize)
        ensures
            r as int == self.spec_pulls(),
    {
        self.num_pulls
    }

    /// The sum of every reward this arm has paid, in millionths.
    pub fn get_total_reward(&self) -> (r: i128)
        ensures
            r as int == self.spec_total(),
    {
        self.total_reward
    }

    /// Clears the pull count and the cumulative reward; the true mean is
    /// preserved.
    fn reset(&mut self)
        requires
            old(self).wf(),
        ensures
            final(self).wf(),
            final(self).spec_value() == old(self).spec_value(),
            final(self).spec_pulls() == 0,
            final(self).spec_total() == 0,
    {
        self.num_pulls = 0;
        self.total_reward = 0;
    }
}

/// The pull counts of a row of arms, summed.
pub open spec fn sum_pulls(s: Seq<Bandit>) -> int
    decreases s.len(),
{
    if s.len() == 0 {
        0
    } else {
        sum_pulls(s.drop_last()) + s.last().spec_pulls()
    }
}

/// Replacing one arm moves the summed pull count by the difference at that
/// arm.
proof fn lemma_sum_pulls_update(s: Seq<Bandit>, i: int, b: Bandit)
    requires
        0 <= i < s.len(),
    ensures
        sum_pulls(s.update(i, b)) == sum_pulls(s) - s[i].spec_pulls() + b.spec_pulls(),
    decreases s.len(),
{
    let t = s.update(i, b);
    if i == s.len() - 1 {
        assert(t.drop_last() =~= s.drop_last());
        assert(t.last() == b);
    } else {
        assert(t.drop_last() =~= s.drop_last().update(i, b));
        assert(t.last() == s.last());
        lemma_sum_pulls_update(s.drop_last(), i, b);
    }
}

/// No arm has been pulled more often than all arms together.
proof fn lemma_sum_pulls_ge(s: Seq<Bandit>, i: int)
    requires
        0 <= i < s.len(),
        forall|j: int| 0 <= j < s.len() ==> #[trigger] s[j].spec_pulls() >= 0,
    ensures
        s[i].spec_pulls() <= sum_pulls(s),
    decreases s.len(),
{
    if i == s.len() - 1 {
        lemma_sum_pulls_nonneg(s.drop_last());
    } else {
        assert(s.drop_last()[i] == s[i]);
        lemma_sum_pulls_ge(s.drop_last(), i);
    }
}

proof fn lemma_sum_pulls_nonneg(s: Seq<Bandit>)
    requires
        forall|j: int| 0 <= j < s.len() ==> #[trigger] s[j].spec_pulls() >= 0,
    ensures
        sum_pulls(s) >= 0,
    decreases s.len(),
{
    if s.len() > 0 {
        lemma_sum_pulls_nonneg(s.drop_last());
    }
}

/// A row of Gaussian arms pulled by index.
pub struct KArmedBandit {
    bandits: Vec<Bandit>,
    k: usize,
    num_pulls: usize,
    noise: Vec<i64>,
    next_noise: usize,
}

impl KArmedBandit {
    /// The true mean of the arm at `i`, in millionths.
    pub closed spec fn arm_value(&self, i: int) -> int {
        self.bandits@[i].spec_value()
    }

    pub closed spec fn arm_pulls(&self, i: int) -> int {
        self.bandits@[i].spec_pulls()
    }

    pub closed spec fn arm_total(&self, i: int) -> int {
        self.bandits@[i].spec_total()
    }

    pub closed spec fn spec_k(&self) -> int {
        self.k as int
    }

    pub closed spec fn spec_num_pulls(&self) -> int {
        self.num_pulls as int
    }

    /// The noise sample that the pull after the next `t` pulls will
    /// consume: the queue read `t` places past its head, or zero where the
    /// queue has run out.
    pub closed spec fn spec_noise_at(&self, t: int) -> int {
        if 0 <= t && self.next_noise + t < self.noise@.len() {
            self.noise@[self.next_noise + t] as int
        } else {
            0
        }
    }

    /// The noise sample the next pull will consume.
    pub open spec fn spec_next_noise(&self) -> int {
        self.spec_noise_at(0)
    }

    /// The row is well formed; in particular the global pull count equals
    /// the arm pull counts summed.
    pub closed spec fn wf(&self) -> bool {
        &&& self.bandits@.len() == self.k
        &&& self.k >= 1
        &&& self.num_pulls == sum_pulls(self.bandits@)
        &&& forall|i: int| 0 <= i < self.k ==> #[trigger] self.bandits@[i].wf()
        &&& forall|i: int|
            0 <= i < self.noise@.len() ==> -MEAN_LIMIT <= #[trigger] self.noise@[i] <= MEAN_LIMIT
        &&& self.next_noise <= self.noise@.len()
    }

    /// A row of arms with the given true means, in millionths, and a queue
    /// of noise samples that pulls will consume in order.
    pub fn new(means: Vec<i64>, noise: Vec<i64>) -> (b: KArmedBandit)
        requires
            means@.len() >= 1,
            forall|i: int| 0 <= i < means@.len() ==> -MEAN_LIMIT <= #[trigger] means@[i] <= MEAN_LIMIT,
            forall|i: int| 0 <= i < noise@.len() ==> -MEAN_LIMIT <= #[trigger] noise@[i] <= MEAN_LIMIT,
        ensures
            b.wf(),
            b.spec_k() == means@.len(),
            b.spec_num_pulls() == 0,
            forall|i: int| 0 <= i < means@.len() ==> b.arm_value(i) == means@[i],
            forall|i: int| 0 <= i < means@.len() ==> b.arm_pulls(i) == 0 && b.arm_total(i) == 0,
            b.spec_next_noise() == if noise@.len() > 0 {
                noise@[0] as int
            } else {
                0
            },
    {
        let k = means.len();
        let mut bandits: Vec<Bandit> = Vec::new();
        let mut i: usize = 0;
        while i < k
            invariant
                0 <= i <= k == means@.len(),
                bandits@.len() == i,
                forall|j: int| 0 <= j < means@.len() ==> -MEAN_LIMIT <= #[trigger] means@[j] <= MEAN_LIMIT,
                forall|j: int|
                    0 <= j < i ==> (#[trigger] bandits@[j]).wf() && bandits@[j].spec_value()
                        == means@[j] && bandits@[j].spec_pulls() == 0 && bandits@[j].spec_total()
                        == 0,
                sum_pulls(bandits@) == 0,
            decreases k - i,
        {
            let ghost pre = bandits@;
            let name = format_decimal(i);
            bandits.push(Bandit::new(name, BanditType::Gaussian, means[i]));
            proof {
                assert(bandits@.drop_last() =~= pre);
            }
            i = i + 1;
        }
        KArmedBandit { bandits, k, num_pulls: 0, noise, next_noise: 0 }
    }

    /// Pulls the arm at `index`, consuming the next noise sample: the
    /// reward is that arm's true mean plus the sample. The arm's count and
    /// total and the global count each move by one pull; every true mean
    /// stays what it was.
    pub fn pull_by_index(&mut self, index: usize) -> (r: i64)
        requires
            old(self).wf(),
            index < old(self).spec_k(),
            old(self).spec_num_pulls() < usize::MAX,
        ensures
            final(self).wf(),
            r == old(self).arm_value(index as int) + old(self).spec_next_noise(),
            -REWARD_LIMIT <= r <= REWARD_LIMIT,
            final(self).spec_k() == old(self).spec_k(),
            final(self).spec_num_pulls() == old(self).spec_num_pulls() + 1,
            final(self).arm_pulls(index as int) == old(self).arm_pulls(index as int) + 1,
            final(self).arm_total(index as int) == old(self).arm_total(index as int) + r,
            forall|i: int|
                0 <= i < old(self).spec_k() ==> final(self).arm_value(i) == old(self).arm_value(i),
            forall|i: int|
                0 <= i < old(self).spec_k() && i != index ==> final(self).arm_pulls(i)
                    == old(self).arm_pulls(i) && final(self).arm_total(i) == old(self).arm_total(
                    i),
            forall|t: int| 0 <= t ==> final(self).spec_noise_at(t) == old(self).spec_noise_at(t + 1),
    {
        proof {
            lemma_sum_pulls_ge(self.bandits@, index as int);
        }
        let noise: i64 = if self.next_noise < self.noise.len() {
            let x = self.noise[self.next_noise];
            self.next_noise = self.next_noise + 1;
            x
        } else {
            0
        };
        self.num_pulls = self.num_pulls + 1;
        let ghost pre = self.bandits@;
        let r = self.bandits[index].pull(noise);
        proof {
            lemma_sum_pulls_update(pre, index as int, self.bandits@[index as int]);
            assert(self.bandits@ == pre.update(index as int, self.bandits@[index as int]));
        }
        r
    }

    pub fn get_number_of_pulls_by_index(&self, index: usize) -> (r: usize)
        requires
            self.wf(),
            index < self.spec_k(),
        ensures
            r as int == self.arm_pulls(index as int),
    {
        self.bandits[index].get_number_of_pulls()
    }

    /// The sum of every reward the arm at `index` has paid, in millionths.
    pub fn get_total_reward_by_index(&self, index: usize) -> (r: i128)
        requires
            self.wf(),
            index < self.spec_k(),
        ensures
            r as int == self.arm_total(index as int),
    {
        self.bandits[index].get_total_reward()
    }

    pub fn get_total_number_of_pulls(&self) -> (r: usize)
        ensures
            r as int == self.spec_num_pulls(),
    {
        self.num_pulls
    }

    pub fn num_bandits(&self) -> (r: usize)
        requires
            self.wf(),
        ensures
            r as int == self.spec_k(),
            r >= 1,
    {
        self.k
    }

    /// Starts a fresh run: clears the global count and every arm's count
    /// and total. True means are preserved, and the noise queue keeps its
    /// position: a stream of samples does not rewind.
    pub fn reset(&mut self)
        requires
            old(self).wf(),
        ensures
            final(self).wf(),
            final(self).spec_k() == old(self).spec_k(),
            final(self).spec_num_pulls() == 0,
            forall|i: int|
                0 <= i < old(self).spec_k() ==> final(self).arm_value(i) == old(self).arm_value(i),
            forall|i: int|
                0 <= i < old(self).spec_k() ==> final(self).arm_pulls(i) == 0
                    && final(self).arm_total(i) == 0,
            final(self).spec_next_noise() == old(self).spec_next_noise(),
    {
        let n = self.bandits.len();
        let mut i: usize = 0;
        while i < n
            invariant
                0 <= i <= n == self.bandits@.len(),
                n == old(self).bandits@.len(),
                self.k == old(self).k,
                self.num_pulls == old(self).num_pulls,
                self.noise@ == old(self).noise@,
                self.next_noise == old(self).next_noise,
                forall|j: int|
                    0 <= j < i ==> (#[trigger] self.bandits@[j]).wf() && self.bandits@[
                    j].spec_pulls() == 0 && self.bandits@[j].spec_total() == 0 && self.bandits@[
                    j].spec_value() == old(self).bandits@[j].spec_value(),
                forall|j: int| i <= j < n ==> self.bandits@[j] == old(self).bandits@[j],
                old(self).wf(),
            decreases n - i,
        {
            proof {
                assert(old(self).bandits@[i as int].wf());
            }
            self.bandits[i].reset();
            i = i + 1;
        }
        self.num_pulls = 0;
        proof {
            lemma_sum_pulls_zero(self.bandits@);
        }
    }

    /// The state key: this environment has a single state, written `"0"`.
    pub fn get_state(&self) -> (r: String)
        ensures
            r@ == dec_rep(0),
    {
        proof {
            reveal_strlit("0");
            assert("0"@ =~= dec_rep(0));
        }
        "0".to_owned()
    }

    /// The action indices, in ascending order: one per arm.
    pub fn get_actions(&self) -> (r: Vec<usize>)
        requires
            self.wf(),
        ensures
            r@.len() == self.spec_k(),
            forall|i: int| 0 <= i < r@.len() ==> #[trigger] r@[i] == i,
    {
        let mut actions: Vec<usize> = Vec::new();
        let mut i: usize = 0;
        while i < self.k
            invariant
                0 <= i <= self.k,
                actions@.len() == i,
                forall|j: int| 0 <= j < i ==> #[trigger] actions@[j] == j,
            decreases self.k - i,
        {
            actions.push(i);
            i = i + 1;
        }
        actions
    }

    /// Advances one timestep: pulls the arm named by the action.
    pub fn step(&mut self, action: usize) -> (r: Result<i64, RlError>)
        requires
            old(self).wf(),
            old(self).spec_num_pulls() < usize::MAX,
        ensures
            final(self).wf(),
            r is Err <==> action >= old(self).spec_k(),
            r is Err ==> r == Err::<i64, RlError>(RlError::InvalidAction) && *final(self) == *old(
                self,
            ),
            r matches Ok(rw) ==> {
                &&& rw == old(self).arm_value(action as int) + old(self).spec_next_noise()
                &&& -REWARD_LIMIT <= rw <= REWARD_LIMIT
                &&& final(self).spec_num_pulls() == old(self).spec_num_pulls() + 1
                &&& final(self).arm_pulls(action as int) == old(self).arm_pulls(action as int) + 1
                &&& final(self).arm_total(action as int) == old(self).arm_total(action as int)
                    + rw
                &&& final(self).spec_k() == old(self).spec_k()
                &&& forall|i: int|
                    0 <= i < old(self).spec_k() ==> final(self).arm_value(i)
                        == old(self).arm_value(i)
                &&& forall|i: int|
                    0 <= i < old(self).spec_k() && i != action ==> final(self).arm_pulls(i)
                        == old(self).arm_pulls(i) && final(self).arm_total(i) == old(
                        self,
                    ).arm_total(i)
                &&& forall|t: int|
                    0 <= t ==> final(self).spec_noise_at(t) == old(self).spec_noise_at(t + 1)
            },
    {
        if action >= self.k {
            return Err(RlError::InvalidAction);
        }
        Ok(self.pull_by_index(action))
    }

    /// The bandit task never ends.
    pub fn is_terminal(&self) -> (r: bool)
        ensures
            !r,
    {
        false
    }

    pub fn get_number_of_possible_actions(&self) -> (r: usize)
        requires
            self.wf(),
        ensures
            r as int == self.spec_k(),
            r >= 1,
    {
        self.k
    }

    /// The single state.
    pub fn get_number_of_possible_states(&self) -> (r: usize)
        ensures
            r == 1,
    {
        1
    }

    pub fn get_total_number_of_actions_taken(&self) -> (r: usize)
        ensures
            r as int == self.spec_num_pulls(),
    {
        self.num_pulls
    }

    /// The per-arm pull counts of the single state, in arm order.
    pub fn action_counts_by_state(&self) -> (r: Vec<usize>)
        requires
            self.wf(),
        ensures
            r@.len() == self.spec_k(),
            forall|i: int| 0 <= i < r@.len() ==> #[trigger] r@[i] as int == self.arm_pulls(i),
    {
        let mut action_counts: Vec<usize> = Vec::new();
        let mut i: usize = 0;
        while i < self.k
            invariant
                0 <= i <= self.k,
                self.wf(),
                action_counts@.len() == i,
                forall|j: int|
                    0 <= j < i ==> #[trigger] action_counts@[j] as int == self.arm_pulls(j),
            decreases self.k - i,
        {
            action_counts.push(self.bandits[i].get_number_of_pulls());
            i = i + 1;
        }
        action_counts
    }

    /// Every state key this environment can emit.
    pub fn all_possible_states(&self) -> (r: Vec<String>)
        ensures
            r@.len() == 1,
            r@[0]@ == dec_rep(0),
    {
        let mut v: Vec<String> = Vec::new();
        v.push(self.get_state());
        v
    }
}

/// Counts carried by the row are nonnegative.
pub proof fn lemma_counts_nonneg(b: &KArmedBandit)
    ensures
        b.spec_num_pulls() >= 0,
        b.spec_k() >= 0,
        forall|i: int| 0 <= i < b.spec_k() ==> #[trigger] b.arm_pulls(i) >= 0,
{
    assert forall|i: int| 0 <= i < b.spec_k() implies #[trigger] b.arm_pulls(i) >= 0 by {
        if i < b.bandits@.len() {
        } else {
            assert(b.arm_pulls(i) == b.bandits@[i].spec_pulls());
        }
    }
}

/// The arm pull counts of the first `k` arms, summed, stated over the
/// public accessors.
pub open spec fn arm_pulls_sum(b: &KArmedBandit, k: int) -> int
    decreases k,
{
    if k <= 0 {
        0
    } else {
        arm_pulls_sum(b, k - 1) + b.arm_pulls(k - 1)
    }
}

/// In any well-formed bandit run, the arm pull counts sum to the global
/// pull count: every step is accounted to exactly one arm.
pub proof fn lemma_total_is_sum_of_arm_pulls(b: &KArmedBandit)
    requires
        b.wf(),
    ensures
        arm_pulls_sum(b, b.spec_k()) == b.spec_num_pulls(),
{
    lemma_arm_pulls_sum_take(b, b.spec_k());
    assert(b.bandits@.take(b.spec_k()) =~= b.bandits@);
}

proof fn lemma_arm_pulls_sum_take(b: &KArmedBandit, k: int)
    requires
        0 <= k <= b.bandits@.len(),
    ensures
        arm_pulls_sum(b, k) == sum_pulls(b.bandits@.take(k)),
    decreases k,
{
    if k > 0 {
        lemma_arm_pulls_sum_take(b, k - 1);
        assert(b.bandits@.take(k).drop_last() =~= b.bandits@.take(k - 1));
        assert(b.bandits@.take(k).last() == b.bandits@[k - 1]);
    }
}

/// A row of arms with no pulls sums to no pulls.
proof fn lemma_sum_pulls_zero(s: Seq<Bandit>)
    requires
        forall|j: int| 0 <= j < s.len() ==> #[trigger] s[j].spec_pulls() == 0,
    ensures
        sum_pulls(s) == 0,
    decreases s.len(),
{
    if s.len() > 0 {
        lemma_sum_pulls_zero(s.drop_last());
    }
}

} // verus!
