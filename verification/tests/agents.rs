//! The agents end to end: episode returns, backward accumulation, and the
//! learning-curve scenarios with real random sources.

use rand::distributions::Distribution;
use rand::rngs::StdRng;
use rand::SeedableRng;
use rand_distr::Normal;

use rl_examples::agents::mcts::{accumulate_returns, AgentMcts};
use rl_examples::agents::q::AgentQ;
use rl_examples::environments::bandit::KArmedBandit;
use rl_examples::environments::blackjack::Blackjack;
use rl_examples::math::UNIT;
use rl_examples::selectors::epsilon_greedy::EpsilonGreedySelector;
use rl_examples::selectors::ucb::UCBSelector;
use rl_examples::store::{MemoryStore, Store};

#[test]
fn backward_returns_without_discount() {
    // Rewards [0, 0, 0, +1] produce the return +1 at every timestep.
    let rewards = vec![0, 0, 0, UNIT];
    assert_eq!(accumulate_returns(&rewards), vec![UNIT, UNIT, UNIT, UNIT]);
    // And in general each entry is the suffix sum.
    let rewards = vec![1, 2, 3];
    assert_eq!(accumulate_returns(&rewards), vec![6, 5, 3]);
    let empty: Vec<i64> = Vec::new();
    assert_eq!(accumulate_returns(&empty), empty);
}

#[test]
fn blackjack_episodes_return_unit_rewards() {
    let mut agent = AgentMcts::new(
        Blackjack::new(),
        EpsilonGreedySelector::new(100_000),
        MemoryStore::new(),
        MemoryStore::new(),
        MemoryStore::new(),
        MemoryStore::new(),
    );
    let mut seen_nonzero = false;
    for _ in 0..400 {
        let total = agent.run_episode();
        assert!(total == -UNIT || total == 0 || total == UNIT, "return {}", total);
        if total != 0 {
            seen_nonzero = true;
        }
    }
    assert!(seen_nonzero, "four hundred pushes in a row is not blackjack");
}

#[test]
fn blackjack_training_fills_the_stores() {
    let mut agent = AgentMcts::new(
        Blackjack::new(),
        EpsilonGreedySelector::new(100_000),
        MemoryStore::new(),
        MemoryStore::new(),
        MemoryStore::new(),
        MemoryStore::new(),
    );
    for _ in 0..500 {
        agent.run_episode();
    }
    let states = agent.all_possible_states();
    assert_eq!(states.len(), 200);
    let mut visited = 0;
    for state in states {
        let count = agent.get_state_visit_count(state.clone());
        assert!(count >= 0);
        if count > 0 {
            let value = agent.get_state_value_estimate(state);
            assert!((-UNIT..=UNIT).contains(&value));
            visited += 1;
        }
    }
    assert!(visited > 10, "only {} states visited in 500 episodes", visited);
}

#[test]
fn ucb_converges_on_gaussian_arms() {
    // Ten unit-variance Gaussian arms per run, means drawn from the
    // standard normal, confidence two, one thousand steps. Averaged over
    // seeded runs, the reward at the final step clears 1.3.
    let mut rng = StdRng::seed_from_u64(20240711);
    let standard = Normal::new(0.0f64, 1.0f64).unwrap();
    let runs = 250;
    let steps = 1000usize;
    let mut final_step_total = 0.0f64;
    for _ in 0..runs {
        let mut means = Vec::new();
        for _ in 0..10 {
            let mu: f64 = standard.sample(&mut rng);
            means.push((mu * 1_000_000.0) as i64);
        }
        let mut noise = Vec::new();
        for _ in 0..steps {
            let x: f64 = standard.sample(&mut rng);
            noise.push((x * 1_000_000.0) as i64);
        }
        let env = KArmedBandit::new(means, noise);
        let mut agent = AgentQ::new(
            env,
            UCBSelector::new(2 * UNIT),
            MemoryStore::new(),
            MemoryStore::new(),
            MemoryStore::new(),
        );
        let rewards = agent.run_steps(steps);
        final_step_total += rewards[steps - 1] as f64 / 1_000_000.0;
    }
    let average = final_step_total / runs as f64;
    assert!(average >= 1.3, "average reward at the last step: {}", average);
}

#[test]
fn epsilon_greedy_learns_the_best_arm() {
    // A coarser learning check with a modest exploration rate on fixed
    // means: after a thousand steps the best arm holds the best estimate.
    let means = vec![-200_000, 900_000, 100_000, -500_000];
    let mut rng = StdRng::seed_from_u64(7);
    let standard = Normal::new(0.0f64, 1.0f64).unwrap();
    let mut noise = Vec::new();
    for _ in 0..1000 {
        let x: f64 = standard.sample(&mut rng);
        noise.push((x * 1_000_000.0) as i64);
    }
    let env = KArmedBandit::new(means, noise);
    let mut agent = AgentQ::new(
        env,
        EpsilonGreedySelector::new(100_000),
        MemoryStore::new(),
        MemoryStore::new(),
        MemoryStore::new(),
    );
    agent.run_steps(1000);
    let state = String::from("0");
    let best = agent.get_q_estimate(&state, 1);
    for other in [0, 2, 3] {
        assert!(best > agent.get_q_estimate(&state, other));
    }
}
