//! Statistics of Monte Carlo rollouts.

use std::time::Duration;
use vstd::prelude::*;

use crate::radlands::locations::Player;
use crate::radlands::GameResult;

verus! {

/// The score of a game result for a player: 2 for a win, 1 for a tie, 0 for a loss.
pub open spec fn spec_score(game_result: GameResult, for_player: Player) -> u32 {
    match game_result {
        GameResult::Tie => 1,
        GameResult::P1Wins => if for_player == Player::Player1 {
            2
        } else {
            0
        },
        GameResult::P2Wins => if for_player == Player::Player2 {
            2
        } else {
            0
        },
    }
}

/// Returns the score of a game result for a player: 2 for a win, 1 for a tie, 0 for a loss.
pub fn get_score(game_result: GameResult, for_player: Player) -> (r: u32)
    ensures
        r == spec_score(game_result, for_player),
{
    match game_result {
        GameResult::P1Wins => match for_player {
            Player::Player1 => 2,
            Player::Player2 => 0,
        },
        GameResult::Tie => 1,
        GameResult::P2Wins => match for_player {
            Player::Player1 => 0,
            Player::Player2 => 2,
        },
    }
}

/// The rollouts made for one option and the sum of their scores.
#[derive(Debug, Clone, Copy, PartialEq, Eq, Structural)]
pub struct OptionStats {
    pub num_rollouts: u32,
    pub total_score: u32,
}

impl OptionStats {
    /// Records one more rollout with the given score.
    pub fn record(&mut self, score: u32)
        requires
            old(self).num_rollouts < u32::MAX,
            old(self).total_score + score <= u32::MAX,
        ensures
            final(self).num_rollouts == old(self).num_rollouts + 1,
            final(self).total_score == old(self).total_score + score,
    {
        self.num_rollouts = self.num_rollouts + 1;
        self.total_score = self.total_score + score;
    }
}

/// The largest number of rollouts of an option, or 0 for no options.
pub open spec fn max_rollouts(stats: Seq<OptionStats>) -> u32
    decreases stats.len(),
{
    if stats.len() == 0 {
        0
    } else {
        let m = max_rollouts(stats.drop_last());
        if stats.last().num_rollouts > m {
            stats.last().num_rollouts
        } else {
            m
        }
    }
}

/// The largest number of rollouts is that of some option and no option has more.
pub proof fn lemma_max_rollouts(stats: Seq<OptionStats>)
    requires
        stats.len() > 0,
    ensures
        exists|i: int| 0 <= i < stats.len() && #[trigger] stats[i].num_rollouts == max_rollouts(stats),
        forall|i: int| 0 <= i < stats.len() ==> #[trigger] stats[i].num_rollouts <= max_rollouts(stats),
    decreases stats.len(),
{
    if stats.len() > 1 {
        lemma_max_rollouts(stats.drop_last());
        let m = max_rollouts(stats.drop_last());
        let j = choose|j: int| 0 <= j < stats.drop_last().len() && #[trigger] stats.drop_last()[j].num_rollouts == m;
        assert(stats[j] == stats.drop_last()[j]);
        assert forall|i: int| 0 <= i < stats.len() implies #[trigger] stats[i].num_rollouts <= max_rollouts(stats) by {
            if i < stats.len() - 1 {
                assert(stats[i] == stats.drop_last()[i]);
            }
        }
        if stats.last().num_rollouts > m {
            assert(stats[stats.len() - 1].num_rollouts == max_rollouts(stats));
        }
    } else {
        assert(stats.drop_last().len() == 0);
        assert(max_rollouts(stats.drop_last()) == 0);
        assert(stats.last() == stats[0]);
        assert(stats[0].num_rollouts == max_rollouts(stats));
    }
}

/// Returns the indices of the options with the most rollouts, in increasing order.
pub fn get_best_options(option_stats_vec: &[OptionStats]) -> (r: Vec<usize>)
    requires
        option_stats_vec@.len() > 0,
    ensures
        r@.len() > 0,
        forall|k: int| 0 <= k < r@.len() ==> #[trigger] r@[k] < option_stats_vec@.len(),
        forall|k: int| 0 <= k < r@.len() ==> option_stats_vec@[#[trigger] r@[k] as int].num_rollouts == max_rollouts(option_stats_vec@),
        forall|i: int|
            0 <= i < option_stats_vec@.len() && option_stats_vec@[i].num_rollouts == max_rollouts(option_stats_vec@)
                ==> #[trigger] r@.contains(i as usize),
        forall|a: int, b: int| 0 <= a < b < r@.len() ==> r@[a] < r@[b],
{
    let ghost s = option_stats_vec@;
    // the maximum visit count
    let mut max_visit_count: u32 = 0;
    let mut i: usize = 0;
    while i < option_stats_vec.len()
        invariant
            i <= s.len(),
            s == option_stats_vec@,
            max_visit_count == max_rollouts(s.subrange(0, i as int)),
        decreases s.len() - i,
    {
        assert(s.subrange(0, i + 1).drop_last() =~= s.subrange(0, i as int));
        if option_stats_vec[i].num_rollouts > max_visit_count {
            max_visit_count = option_stats_vec[i].num_rollouts;
        }
        i += 1;
    }
    assert(s.subrange(0, i as int) =~= s);
    proof {
        lemma_max_rollouts(s);
    }
    // the options with that count
    let mut best: Vec<usize> = Vec::new();
    let mut j: usize = 0;
    while j < option_stats_vec.len()
        invariant
            j <= s.len(),
            s == option_stats_vec@,
            max_visit_count == max_rollouts(s),
            forall|k: int| 0 <= k < best@.len() ==> #[trigger] best@[k] < j,
            forall|k: int| 0 <= k < best@.len() ==> s[#[trigger] best@[k] as int].num_rollouts == max_visit_count,
            forall|x: int| 0 <= x < j && s[x].num_rollouts == max_visit_count ==> #[trigger] best@.contains(x as usize),
            forall|a: int, b: int| 0 <= a < b < best@.len() ==> best@[a] < best@[b],
        decreases s.len() - j,
    {
        if option_stats_vec[j].num_rollouts == max_visit_count {
            let ghost before = best@;
            best.push(j);
            assert forall|x: int| 0 <= x < j + 1 && s[x].num_rollouts == max_visit_count implies #[trigger] best@.contains(x as usize) by {
                if x < j {
                    assert(before.contains(x as usize));
                    let k = choose|k: int| 0 <= k < before.len() && before[k] == x as usize;
                    assert(best@[k] == x as usize);
                } else {
                    assert(best@[best@.len() - 1] == x as usize);
                }
            }
        }
        j += 1;
    }
    proof {
        let w = choose|w: int| 0 <= w < s.len() && #[trigger] s[w].num_rollouts == max_rollouts(s);
        assert(best@.contains(w as usize));
    }
    best
}

/// Returns the option tried most often; of several, the last one.
pub fn most_visited_option(option_stats_vec: &[OptionStats]) -> (r: usize)
    requires
        option_stats_vec@.len() > 0,
    ensures
        r < option_stats_vec@.len(),
        option_stats_vec@[r as int].num_rollouts == max_rollouts(option_stats_vec@),
        forall|j: int| r < j < option_stats_vec@.len() ==> #[trigger] option_stats_vec@[j].num_rollouts < max_rollouts(option_stats_vec@),
{
    let n = option_stats_vec.len();
    let best = get_best_options(option_stats_vec);
    let r = best[best.len() - 1];
    proof {
        let s = option_stats_vec@;
        assert(s.len() == n);
        lemma_max_rollouts(s);
        assert forall|j: int| r < j < s.len() implies #[trigger] s[j].num_rollouts < max_rollouts(s) by {
            if s[j].num_rollouts == max_rollouts(s) {
                assert(best@.contains(j as usize));
                let k = choose|k: int| 0 <= k < best@.len() && best@[k] == j as usize;
                if k < best@.len() - 1 {
                    assert(best@[k] < best@[best@.len() - 1]);
                }
            }
        }
    }
    r
}

/// Picks one of the options tried most often (see [`get_best_options`]), at random.
pub fn choose_best_option(option_stats_vec: &[OptionStats]) -> (r: usize)
    requires
        option_stats_vec@.len() > 0,
    ensures
        r < option_stats_vec@.len(),
        option_stats_vec@[r as int].num_rollouts == max_rollouts(option_stats_vec@),
{
    let best = get_best_options(option_stats_vec);
    let i = super::random_below(best.len());
    best[i]
}

/// A controller that chooses by flat Monte Carlo rollouts within a time limit per choice: each
/// option is tried by rollouts, and one of the options tried most often is taken.
pub struct MonteCarloController<F> {
    /// The player this controller chooses for.
    pub player: Player,
    /// How long to search before each choice.
    pub choice_time_limit: Duration,
    /// Makes the controllers that play out the rollouts.
    pub make_rollout_controller: F,
}

} // verus!
