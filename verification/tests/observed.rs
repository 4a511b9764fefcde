use std::collections::hash_map::DefaultHasher;
use std::hash::Hasher;
use std::time::Duration;

use radbot::radlands::camps::get_camp_types;
use radbot::radlands::controllers::mcts::MCTSController;
use radbot::radlands::controllers::monte_carlo::{MonteCarloController, OptionStats};
use radbot::radlands::game::Game;
use radbot::radlands::locations::Player;
use radbot::radlands::observed_state::{observed_bytes_of, ObservedState, CARD_ID_LIMIT};
use radbot::radlands::people::get_person_types;
use radbot::radlands::PersonOrEventType;

fn make_deck(n: usize) -> Vec<PersonOrEventType> {
    let types = get_person_types();
    (0..n).map(|i| PersonOrEventType::Person(types[i % types.len()])).collect()
}

fn observed(game: &Game, player: Player) -> ObservedState {
    ObservedState::from_game_state(game.state(), game.choice().unwrap(), player)
}

/// The number of bytes written for one observation: three count tables, the opponent's hand
/// size, two boards, and the turn.
fn observation_len() -> usize {
    3 * (CARD_ID_LIMIT as usize) * 8 + 8 + 2 * (3 * 12 + 3) + 1 + 8 + 5 + 8
}

#[test]
fn observed_state_is_the_hash_of_the_observed_bytes() {
    let game = Game::from_setup(make_deck(20), &get_camp_types(), Player::Player1);
    let bytes = observed_bytes_of(game.state(), game.choice().unwrap(), Player::Player1);
    assert_eq!(bytes.len(), observation_len());
    let mut hasher = DefaultHasher::new();
    hasher.write(&bytes);
    assert_eq!(observed(&game, Player::Player1), ObservedState(hasher.finish()));
}

#[test]
fn observed_bytes_count_the_deck_and_the_hand() {
    let game = Game::from_setup(make_deck(20), &get_camp_types(), Player::Player1);
    let bytes = observed_bytes_of(game.state(), game.choice().unwrap(), Player::Player1);
    let count_at = |table: usize, id: usize| -> u64 {
        let start = (table * (CARD_ID_LIMIT as usize) + id) * 8;
        u64::from_le_bytes(bytes[start..start + 8].try_into().unwrap())
    };
    // the deck holds 16 cards: cards 4..20 of the cycle of person types
    let deck_total: u64 = (0..CARD_ID_LIMIT as usize).map(|id| count_at(0, id)).sum();
    assert_eq!(deck_total, 16);
    // nothing is discarded yet
    assert!((0..CARD_ID_LIMIT as usize).all(|id| count_at(1, id) == 0));
    // player 1 holds 3 cards
    let hand_total: u64 = (0..CARD_ID_LIMIT as usize).map(|id| count_at(2, id)).sum();
    assert_eq!(hand_total, 3);
    // the opponent holds 1 card
    let start = 3 * (CARD_ID_LIMIT as usize) * 8;
    assert_eq!(u64::from_le_bytes(bytes[start..start + 8].try_into().unwrap()), 1);
    // player 1's first camp is an Outpost, undamaged and ready
    assert_eq!(&bytes[start + 8..start + 12], &[0, 0, 1, 0]);
    // the turn: player 1, 1 water
    let turn = start + 8 + 2 * 39;
    assert_eq!(bytes[turn], 1);
    assert_eq!(u64::from_le_bytes(bytes[turn + 1..turn + 9].try_into().unwrap()), 1);
}

#[test]
fn observed_state_ignores_the_deck_order() {
    let game = Game::from_setup(make_deck(30), &get_camp_types(), Player::Player1);
    for _ in 0..5 {
        let shuffled = game.randomize_unobserved();
        assert_eq!(observed(&game, Player::Player1), observed(&shuffled, Player::Player1));
        assert_eq!(observed(&game, Player::Player2), observed(&shuffled, Player::Player2));
    }
}

#[test]
fn observed_state_depends_on_the_observer() {
    let game = Game::from_setup(make_deck(20), &get_camp_types(), Player::Player1);
    let b1 = observed_bytes_of(game.state(), game.choice().unwrap(), Player::Player1);
    let b2 = observed_bytes_of(game.state(), game.choice().unwrap(), Player::Player2);
    assert_ne!(b1, b2);
}

#[test]
fn mcts_visit_and_record_samples() {
    let game = Game::from_setup(make_deck(20), &get_camp_types(), Player::Player1);
    let state = observed(&game, Player::Player1);
    let mut c = MCTSController::new(Player::Player1, Duration::from_millis(5), ());
    c.start_ply();
    assert_eq!(c.current_ply, 1);
    assert!(c.explored_stats(state).is_none());
    assert!(c.visit_state(state, 3));
    let stats = c.explored_stats(state).unwrap();
    assert_eq!(stats.options.len(), 3);
    assert_eq!(stats.num_rollouts, 0);
    assert_eq!(stats.last_visit_ply, 1);
    c.record_sample(state, 2, Player::Player1, 2);
    c.record_sample(state, 2, Player::Player2, 2);
    c.record_sample(state, 0, Player::Player2, 1);
    let stats = c.explored_stats(state).unwrap();
    assert_eq!(stats.num_rollouts, 3);
    assert_eq!(stats.options[2], OptionStats { num_rollouts: 2, total_score: 2 });
    assert_eq!(stats.options[0], OptionStats { num_rollouts: 1, total_score: 1 });
    // a second visit keeps the statistics and marks the state as visited now
    c.start_ply();
    assert!(!c.visit_state(state, 3));
    let stats = c.explored_stats(state).unwrap();
    assert_eq!(stats.num_rollouts, 3);
    assert_eq!(stats.last_visit_ply, 2);
}

#[test]
fn mcts_start_ply_forgets_states_not_visited_lately() {
    let mut c = MCTSController::new(Player::Player2, Duration::from_millis(5), ());
    assert!(c.visit_state(ObservedState(10), 2));
    for _ in 0..5 {
        c.start_ply();
    }
    assert!(c.visit_state(ObservedState(20), 2));
    assert!(c.explored_stats(ObservedState(10)).is_some());
    // at ply 6 the states last visited before ply 1 are forgotten
    c.start_ply();
    assert_eq!(c.current_ply, 6);
    assert!(c.explored_stats(ObservedState(10)).is_none());
    assert!(c.explored_stats(ObservedState(20)).is_some());
}

#[test]
fn monte_carlo_controller_holds_its_settings() {
    let c = MonteCarloController { player: Player::Player2, choice_time_limit: Duration::from_secs(3), make_rollout_controller: 7u8 };
    assert_eq!(c.player, Player::Player2);
    assert_eq!(c.choice_time_limit, Duration::from_secs(3));
    assert_eq!(c.make_rollout_controller, 7);
}
