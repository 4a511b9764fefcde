use std::time::Duration;

use radbot::radlands::controllers::mcts::{MCTSController, StateStats};
use radbot::radlands::camps::get_camp_types;
use radbot::radlands::controllers::monte_carlo::{
    choose_best_option, get_best_options, get_score, most_visited_option, OptionStats,
};
use radbot::radlands::controllers::{HumanController, RandomController};
use radbot::radlands::game::Game;
use radbot::radlands::people::get_person_types;
use radbot::radlands::PersonOrEventType;
use radbot::radlands::locations::Player;
use radbot::radlands::GameResult;

#[test]
fn controllers_scores() {
    assert_eq!(get_score(GameResult::P1Wins, Player::Player1), 2);
    assert_eq!(get_score(GameResult::P1Wins, Player::Player2), 0);
    assert_eq!(get_score(GameResult::P2Wins, Player::Player1), 0);
    assert_eq!(get_score(GameResult::P2Wins, Player::Player2), 2);
    assert_eq!(get_score(GameResult::Tie, Player::Player1), 1);
    assert_eq!(get_score(GameResult::Tie, Player::Player2), 1);
}

fn stats(num_rollouts: u32) -> OptionStats {
    OptionStats { num_rollouts, total_score: 0 }
}

#[test]
fn controllers_best_options_are_most_visited() {
    assert_eq!(get_best_options(&[stats(3), stats(5), stats(5), stats(1)]), vec![1, 2]);
    assert_eq!(get_best_options(&[stats(0)]), vec![0]);
    assert_eq!(get_best_options(&[stats(9), stats(2)]), vec![0]);
}

#[test]
fn controllers_state_stats_record_rollouts() {
    let mut s = StateStats::new(3, 7);
    assert_eq!(s.options.len(), 3);
    assert_eq!(s.num_rollouts, 0);
    assert_eq!(s.last_visit_ply, 7);
    s.record_rollout(1, Player::Player1, 2);
    s.record_rollout(1, Player::Player2, 2);
    s.record_rollout(2, Player::Player2, 0);
    assert_eq!(s.num_rollouts, 3);
    assert_eq!(s.options[1], OptionStats { num_rollouts: 2, total_score: 2 });
    assert_eq!(s.options[2], OptionStats { num_rollouts: 1, total_score: 2 });
    assert_eq!(s.options[0], OptionStats { num_rollouts: 0, total_score: 0 });
}

#[test]
fn controllers_prune_forgets_old_states() {
    let mut c = MCTSController::new(Player::Player2, Duration::from_millis(10), ());
    assert_eq!(c.player, Player::Player2);
    assert!(c.explored_states.is_empty());
    c.explored_states.insert(1, StateStats::new(2, 1));
    c.explored_states.insert(2, StateStats::new(2, 4));
    c.explored_states.insert(3, StateStats::new(2, 9));
    c.current_ply = 5;
    c.prune_explored_states();
    assert_eq!(c.explored_states.len(), 3);
    c.current_ply = 9;
    c.prune_explored_states();
    let mut keys: Vec<u64> = c.explored_states.keys().copied().collect();
    keys.sort();
    assert_eq!(keys, vec![2, 3]);
}

#[test]
fn controllers_best_option_is_picked_among_most_visited() {
    for _ in 0..50 {
        let i = choose_best_option(&[stats(3), stats(5), stats(5), stats(1)]);
        assert!(i == 1 || i == 2);
    }
    assert_eq!(choose_best_option(&[stats(0), stats(4)]), 1);
}

#[test]
fn controllers_random_choice_is_an_option() {
    let types = get_person_types();
    let deck: Vec<PersonOrEventType> = (0..20).map(|i| PersonOrEventType::Person(types[i % types.len()])).collect();
    let game = Game::from_setup(deck, &get_camp_types(), Player::Player1);
    let c = RandomController { quiet: true };
    let n = game.num_options();
    assert!(n > 0);
    for _ in 0..100 {
        assert!(c.choose_option(&game) < n);
    }
}

#[test]
fn controllers_most_visited_option_is_the_last_of_the_best() {
    assert_eq!(most_visited_option(&[stats(3), stats(5), stats(5), stats(1)]), 2);
    assert_eq!(most_visited_option(&[stats(7)]), 0);
    assert_eq!(most_visited_option(&[stats(9), stats(2), stats(8)]), 0);
}

#[test]
fn controllers_search_tree_counts_stay_consistent() {
    let mut s = StateStats::new(4, 0);
    let scores = [2, 0, 1, 2, 2, 1, 0];
    for (i, score) in scores.iter().enumerate() {
        let chooser = if i % 2 == 0 { Player::Player1 } else { Player::Player2 };
        s.record_rollout(i % 4, chooser, *score);
        let total: u32 = s.options.iter().map(|o| o.num_rollouts).sum();
        assert_eq!(s.num_rollouts, total);
        for o in s.options.iter() {
            assert!(o.total_score <= 2 * o.num_rollouts);
        }
    }
}

#[test]
fn controllers_human_numbers_pick_options_from_one() {
    assert_eq!(HumanController::option_for_number(1, 3), Some(0));
    assert_eq!(HumanController::option_for_number(3, 3), Some(2));
    assert_eq!(HumanController::option_for_number(0, 3), None);
    assert_eq!(HumanController::option_for_number(4, 3), None);
}
