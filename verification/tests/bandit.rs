//! The k-armed bandit environment and the per-step agent.

use rl_examples::agents::q::{average_rewards, AgentQ};
use rl_examples::environments::bandit::KArmedBandit;
use rl_examples::errors::RlError;
use rl_examples::math::UNIT;
use rl_examples::selectors::epsilon_greedy::EpsilonGreedySelector;
use rl_examples::store::{generate_id, MemoryStore, Store};

#[test]
fn pull_counts_sum_to_total() {
    let means = vec![0, 100_000, -200_000, 50_000];
    let mut env = KArmedBandit::new(means, Vec::new());
    for step in 0..40 {
        env.pull_by_index(step % 4);
    }
    env.pull_by_index(1);
    let mut sum = 0;
    for arm in 0..env.num_bandits() {
        sum += env.get_number_of_pulls_by_index(arm);
    }
    assert_eq!(sum, env.get_total_number_of_pulls());
    assert_eq!(sum, 41);
}

#[test]
fn pull_returns_mean_plus_noise() {
    let means = vec![250_000, -250_000];
    let noise = vec![10_000, -10_000, 0];
    let mut env = KArmedBandit::new(means, noise);
    assert_eq!(env.pull_by_index(0), 260_000);
    assert_eq!(env.pull_by_index(1), -260_000);
    assert_eq!(env.pull_by_index(0), 250_000);
    // The noise queue is exhausted: pulls return the bare mean.
    assert_eq!(env.pull_by_index(1), -250_000);
}

#[test]
fn reset_clears_counts_and_keeps_means() {
    let means = vec![300_000, 0];
    let mut env = KArmedBandit::new(means, Vec::new());
    env.pull_by_index(0);
    env.pull_by_index(0);
    env.pull_by_index(1);
    env.reset();
    assert_eq!(env.get_total_number_of_pulls(), 0);
    assert_eq!(env.get_number_of_pulls_by_index(0), 0);
    assert_eq!(env.get_total_reward_by_index(0), 0);
    // The true mean is preserved: a fresh pull still pays it.
    assert_eq!(env.pull_by_index(0), 300_000);
}

#[test]
fn bandit_step_rejects_invalid_action() {
    let mut env = KArmedBandit::new(vec![0, 0], Vec::new());
    assert_eq!(env.step(2), Err(RlError::InvalidAction));
    assert_eq!(env.step(99), Err(RlError::InvalidAction));
    assert!(env.step(1).is_ok());
    assert_eq!(env.get_total_number_of_pulls(), 1);
}

#[test]
fn bandit_environment_surface() {
    let env = KArmedBandit::new(vec![0, 0, 0], Vec::new());
    assert_eq!(env.get_state(), "0");
    assert_eq!(env.get_actions(), vec![0, 1, 2]);
    assert!(!env.is_terminal());
    assert_eq!(env.get_number_of_possible_actions(), 3);
    assert_eq!(env.get_number_of_possible_states(), 1);
    assert_eq!(env.all_possible_states(), vec![String::from("0")]);
}

#[test]
fn deterministic_two_armed_bandit() {
    // Arm 0 pays one whole unit, arm 1 pays nothing, no noise. Greedy from
    // zero estimates: the first selection already favors the lowest index,
    // and after one update arm 0 dominates outright.
    let means = vec![UNIT, 0];
    let env = KArmedBandit::new(means, Vec::new());
    let selector = EpsilonGreedySelector::new(0);
    let mut agent = AgentQ::new(
        env,
        selector,
        MemoryStore::new(),
        MemoryStore::new(),
        MemoryStore::new(),
    );
    let rewards = agent.run_steps(100);
    assert_eq!(rewards.len(), 100);
    for r in &rewards {
        assert_eq!(*r, UNIT);
    }
    let state = String::from("0");
    assert_eq!(agent.get_q_estimate(&state, 0), UNIT);
    assert_eq!(agent.get_q_estimate(&state, 1), 0);
    assert_eq!(agent.get_total_actions_taken(), 100);
}

#[test]
fn per_step_counts_move_once_per_action() {
    // Drive the components by hand: arm 0 never pulled, arm 1 pulled 100
    // times through the raw environment, counting in the store.
    let mut env = KArmedBandit::new(vec![UNIT, 0], Vec::new());
    let mut counts = MemoryStore::new();
    for _ in 0..100 {
        let reward = env.pull_by_index(1);
        assert_eq!(reward, 0);
        let id = generate_id("0", Some(1));
        let n = counts.get_value(&id);
        counts.store_value(id, n + 1);
    }
    assert_eq!(env.get_number_of_pulls_by_index(1), 100);
    assert_eq!(env.get_number_of_pulls_by_index(0), 0);
    assert_eq!(counts.get_value(&generate_id("0", Some(1))), 100);
    assert_eq!(env.action_counts_by_state(), vec![0, 100]);
}

#[test]
fn average_rewards_means_per_step() {
    let runs = vec![vec![2, 4, -6], vec![4, 8, -2]];
    assert_eq!(average_rewards(&runs), vec![3, 6, -4]);
}
