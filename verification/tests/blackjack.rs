//! The Blackjack environment: deals, terminal rules, rewards, state keys.

use rl_examples::codec::decode_state;
use rl_examples::environments::blackjack::Blackjack;
use rl_examples::errors::RlError;

const UNIT: i64 = 1_000_000;

#[test]
fn fresh_deal_is_playable() {
    let mut game = Blackjack::new();
    for _ in 0..50 {
        game.reset();
        assert!(!game.is_terminal());
        let (p, d, u) = decode_state(game.get_state()).unwrap();
        // Two cards each: sums between 2 + 2 and ace + ten.
        assert!((4..=21).contains(&p), "player sum {}", p);
        assert!((4..=21).contains(&d), "dealer sum {}", d);
        let _ = u;
    }
}

#[test]
fn blackjack_step_rejects_invalid_action() {
    let mut game = Blackjack::new();
    game.reset();
    assert_eq!(game.step(2), Err(RlError::InvalidAction));
    assert_eq!(game.step(17), Err(RlError::InvalidAction));
    assert_eq!(game.get_total_number_of_actions_taken(), 0);
}

#[test]
fn hitting_forever_busts_with_minus_one() {
    // A player who always hits ends every episode bust: the last step pays
    // exactly minus one, and every earlier step pays zero.
    let mut game = Blackjack::new();
    for _ in 0..100 {
        game.reset();
        let mut steps = 0;
        loop {
            assert!(steps < 40, "episode failed to terminate");
            let reward = game.step(0).unwrap();
            steps += 1;
            if game.is_terminal() {
                assert_eq!(reward, -UNIT);
                let (p, _, _) = decode_state(game.get_state()).unwrap();
                assert!(p > 21, "terminal without bust: {}", p);
                break;
            } else {
                assert_eq!(reward, 0);
            }
        }
    }
}

#[test]
fn episode_rewards_are_terminal_only() {
    // Random-ish play: stick once the player reaches 17. Intermediate
    // steps pay zero; the terminal step pays minus one, zero or plus one.
    let mut game = Blackjack::new();
    for _ in 0..300 {
        game.reset();
        let mut steps = 0;
        loop {
            assert!(steps < 40, "episode failed to terminate");
            let (p, _, _) = decode_state(game.get_state()).unwrap();
            let action = if p < 17 { 0 } else { 1 };
            let reward = game.step(action).unwrap();
            steps += 1;
            if game.is_terminal() {
                assert!(reward == -UNIT || reward == 0 || reward == UNIT);
                break;
            } else {
                assert_eq!(reward, 0);
            }
        }
    }
}

#[test]
fn dealer_plays_to_seventeen() {
    let mut game = Blackjack::new();
    for _ in 0..100 {
        game.reset();
        // Stick immediately; then let the dealer play if still open.
        let mut reward = game.step(1).unwrap();
        if !game.is_terminal() {
            reward = game.step(1).unwrap();
        }
        assert!(game.is_terminal());
        let (_, d, _) = decode_state(game.get_state()).unwrap();
        assert!(d >= 17, "dealer stopped early at {}", d);
        assert!(reward == -UNIT || reward == 0 || reward == UNIT);
    }
}

#[test]
fn deals_vary_between_episodes() {
    // Card draws come from the process random generator: over many fresh
    // deals the player sum must take more than one value.
    let mut game = Blackjack::new();
    let mut seen = Vec::new();
    for _ in 0..300 {
        game.reset();
        let (p, _, _) = decode_state(game.get_state()).unwrap();
        if !seen.contains(&p) {
            seen.push(p);
        }
    }
    assert!(seen.len() >= 2, "player sums never varied");
}

#[test]
fn state_space_enumeration() {
    let game = Blackjack::new();
    let states = game.all_possible_states();
    assert_eq!(states.len(), 200);
    assert_eq!(game.get_number_of_possible_states(), 200);
    assert_eq!(states[0], "12-2-false");
    assert_eq!(states[1], "12-2-true");
    assert_eq!(states[199], "21-11-true");
    // All distinct.
    for i in 0..states.len() {
        for j in (i + 1)..states.len() {
            assert_ne!(states[i], states[j]);
        }
    }
}

#[test]
fn action_set_is_hit_and_stick() {
    let game = Blackjack::new();
    assert_eq!(game.get_actions(), vec![0, 1]);
    assert_eq!(game.get_number_of_possible_actions(), 2);
}
