//! The two selectors: update rule, greedy selection, exploration.

use rl_examples::math::{incremental_mean, isqrt_u64, ln_micros, UNIT};
use rl_examples::selectors::epsilon_greedy::EpsilonGreedySelector;
use rl_examples::selectors::ucb::UCBSelector;
use rl_examples::store::{generate_id, MemoryStore, Store};
use rl_examples::agents::selector::Selector;

#[test]
fn incremental_mean_formula() {
    assert_eq!(incremental_mean(0, 10, 1), 10);
    assert_eq!(incremental_mean(10, 4, 2), 7);
    assert_eq!(incremental_mean(0, 9, 3), 3);
    // Truncation toward zero on negative differences.
    assert_eq!(incremental_mean(0, -5, 2), -2);
    assert_eq!(incremental_mean(-4, 0, 4), -3);
}

#[test]
fn repeated_same_reward_recovers_reward() {
    // n consecutive updates at one pair with the same reward, from an
    // estimate of zero, land exactly on that reward.
    let selector = EpsilonGreedySelector::new(0);
    let mut q_store = MemoryStore::new();
    let mut counts = MemoryStore::new();
    let state = String::from("0");
    let reward = 731_459;
    for n in 1..=10 {
        counts.store_value(generate_id("0", Some(2)), n);
        let q = selector.get_new_q_estimate(&q_store, &counts, &state, 2, reward);
        q_store.store_value(generate_id("0", Some(2)), q);
        assert_eq!(q, reward, "after {} updates", n);
    }
}

#[test]
fn greedy_sticks_to_updated_arm() {
    // With no exploration, zero-initialized estimates and one arm pushed
    // above zero, that arm wins every later selection.
    let selector = EpsilonGreedySelector::new(0);
    let mut q_store = MemoryStore::new();
    let counts = MemoryStore::new();
    let state = String::from("0");
    q_store.store_value(generate_id("0", Some(3)), 250_000);
    for _ in 0..50 {
        let choice = selector.select_action(&state, 8, 100, &q_store, &counts);
        assert_eq!(choice, 3);
    }
}

#[test]
fn greedy_breaks_ties_toward_lowest_index() {
    let selector = EpsilonGreedySelector::new(0);
    let q_store = MemoryStore::new();
    let counts = MemoryStore::new();
    let state = String::from("0");
    assert_eq!(selector.select_action(&state, 5, 0, &q_store, &counts), 0);
}

#[test]
fn greedy_handles_negative_estimates() {
    // The running maximum starts from the first candidate, so an all-
    // negative row still picks its best arm rather than a phantom zero.
    let selector = EpsilonGreedySelector::new(0);
    let mut q_store = MemoryStore::new();
    let counts = MemoryStore::new();
    let state = String::from("0");
    q_store.store_value(generate_id("0", Some(0)), -900_000);
    q_store.store_value(generate_id("0", Some(1)), -100_000);
    q_store.store_value(generate_id("0", Some(2)), -500_000);
    assert_eq!(selector.select_action(&state, 3, 0, &q_store, &counts), 1);
}

#[test]
fn full_exploration_is_roughly_uniform() {
    // Epsilon one: every selection is a uniform draw. A chi-square
    // statistic over 10,000 draws across ten arms stays under the
    // one-per-mille critical value for nine degrees of freedom.
    let selector = EpsilonGreedySelector::new(UNIT);
    let q_store = MemoryStore::new();
    let counts = MemoryStore::new();
    let state = String::from("0");
    let mut observed = [0i64; 10];
    for _ in 0..10_000 {
        let choice = selector.select_action(&state, 10, 0, &q_store, &counts);
        observed[choice] += 1;
    }
    let expected = 1_000.0f64;
    let mut chi2 = 0.0f64;
    for count in observed {
        let diff = count as f64 - expected;
        chi2 += diff * diff / expected;
    }
    assert!(chi2 < 27.88, "chi-square {} too far from uniform", chi2);
}

#[test]
fn ucb_tries_every_arm_once_first() {
    // With no prior visits, the first k selections cover all k arms.
    let selector = UCBSelector::new(2 * UNIT);
    let q_store = MemoryStore::new();
    let mut counts = MemoryStore::new();
    let state = String::from("0");
    let k = 6;
    let mut seen = Vec::new();
    for step in 0..k {
        let choice = selector.select_action(&state, k, step, &q_store, &counts);
        assert!(!seen.contains(&choice), "arm {} selected twice", choice);
        seen.push(choice);
        let id = generate_id("0", Some(choice));
        let n = counts.get_value(&id);
        counts.store_value(id, n + 1);
    }
    assert_eq!(seen.len(), k);
}

#[test]
fn ucb_prefers_undervisited_arms() {
    // Equal estimates, unequal counts: the exploration bonus favors the
    // arm visited least.
    let selector = UCBSelector::new(2 * UNIT);
    let q_store = MemoryStore::new();
    let mut counts = MemoryStore::new();
    let state = String::from("0");
    counts.store_value(generate_id("0", Some(0)), 90);
    counts.store_value(generate_id("0", Some(1)), 1);
    counts.store_value(generate_id("0", Some(2)), 90);
    let choice = selector.select_action(&state, 3, 181, &q_store, &counts);
    assert_eq!(choice, 1);
}

#[test]
fn ucb_state_values() {
    // Both selectors share the state-value rule: the incremental mean with
    // the stored state count plus one as the divisor.
    let selector = UCBSelector::new(2 * UNIT);
    let mut v_store = MemoryStore::new();
    let mut state_counts = MemoryStore::new();
    let state = String::from("16-10-false");
    let v = selector
        .get_new_value_estimate(&v_store, &state_counts, &state, UNIT)
        .unwrap();
    assert_eq!(v, UNIT);
    v_store.store_value(state.clone(), v);
    state_counts.store_value(state.clone(), 1);
    let v2 = selector
        .get_new_value_estimate(&v_store, &state_counts, &state, 0)
        .unwrap();
    // Divisor two: halfway from one unit toward zero.
    assert_eq!(v2, UNIT / 2);
}

#[test]
fn epsilon_greedy_state_values() {
    let selector = EpsilonGreedySelector::new(100_000);
    let mut v_store = MemoryStore::new();
    let state_counts = MemoryStore::new();
    let state = String::from("16-10-false");
    // First observation from zero with count zero: divisor one.
    let v = selector
        .get_new_value_estimate(&v_store, &state_counts, &state, UNIT)
        .unwrap();
    assert_eq!(v, UNIT);
    v_store.store_value(state.clone(), v);
    let v2 = selector
        .get_new_value_estimate(&v_store, &state_counts, &state, 0)
        .unwrap();
    // Divisor is the stored state count plus one: still one here.
    assert_eq!(v2, 0);
}

#[test]
fn fixed_point_log_and_root() {
    assert_eq!(isqrt_u64(0), 0);
    assert_eq!(isqrt_u64(15), 3);
    assert_eq!(isqrt_u64(16), 4);
    assert_eq!(isqrt_u64(1_000_000_000_000), 1_000_000);
    assert_eq!(ln_micros(1), 0);
    assert_eq!(ln_micros(2), 693_147);
    assert_eq!(ln_micros(4), 1_386_294);
    // Within the octave the approximation interpolates linearly.
    assert_eq!(ln_micros(3), 693_147 + 693_147 / 2);
}
