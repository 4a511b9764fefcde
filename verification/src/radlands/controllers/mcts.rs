//! The search tree of the Monte Carlo tree search controller.

use std::collections::HashMap;
use std::time::Duration;
use vstd::prelude::*;

use crate::radlands::locations::Player;
use crate::radlands::observed_state::ObservedState;

use super::monte_carlo::OptionStats;

verus! {

broadcast use vstd::std_specs::hash::group_hash_axioms;

/// How many plies back the visited search-tree states are kept.
pub const PAST_PLIES_TO_KEEP: u32 = 5;

/// The total of the rollout counts of the options.
pub open spec fn option_rollouts(options: Seq<OptionStats>) -> nat
    decreases options.len(),
{
    if options.len() == 0 {
        0
    } else {
        option_rollouts(options.drop_last()) + options.last().num_rollouts as nat
    }
}

/// The statistics of a state are consistent: every rollout through the state took one of its
/// options, and an option scores at most 2 per rollout.
pub open spec fn stats_consistent(s: StateStats) -> bool {
    &&& s.num_rollouts == option_rollouts(s.options@)
    &&& forall|i: int| 0 <= i < s.options@.len() ==> #[trigger] s.options@[i].total_score <= 2 * s.options@[i].num_rollouts
}

/// Every state of the search tree has consistent statistics.
pub open spec fn tree_consistent(m: Map<u64, StateStats>) -> bool {
    forall|k: u64| #[trigger] m.contains_key(k) ==> stats_consistent(m[k])
}

/// Options that were never tried count no rollouts.
proof fn lemma_option_rollouts_zero(options: Seq<OptionStats>)
    requires
        forall|i: int| 0 <= i < options.len() ==> #[trigger] options[i].num_rollouts == 0,
    ensures
        option_rollouts(options) == 0,
    decreases options.len(),
{
    if options.len() > 0 {
        lemma_option_rollouts_zero(options.drop_last());
    }
}

/// Replacing the statistics of one option changes the total by the difference of its counts.
proof fn lemma_option_rollouts_update(options: Seq<OptionStats>, i: int, x: OptionStats)
    requires
        0 <= i < options.len(),
    ensures
        option_rollouts(options.update(i, x)) + options[i].num_rollouts == option_rollouts(options) + x.num_rollouts,
    decreases options.len(),
{
    let u = options.update(i, x);
    assert(u.drop_last() =~= if i < options.len() - 1 { options.drop_last().update(i, x) } else { options.drop_last() });
    if i < options.len() - 1 {
        lemma_option_rollouts_update(options.drop_last(), i, x);
    }
}

/// The statistics of a state of the search tree: those of each option, the number of
/// rollouts through the state, and the ply at which it was last visited.
#[derive(Debug)]
pub struct StateStats {
    pub options: Vec<OptionStats>,
    pub num_rollouts: u32,
    pub last_visit_ply: u32,
}

impl StateStats {
    /// Creates the statistics of a state with the given number of options (at least two), none
    /// of them tried yet, visited at the given ply.
    pub fn new(num_options: usize, current_ply: u32) -> (r: StateStats)
        requires
            num_options > 1,
        ensures
            r.options@.len() == num_options,
            forall|i: int| 0 <= i < num_options ==> #[trigger] r.options@[i] == (OptionStats { num_rollouts: 0, total_score: 0 }),
            r.num_rollouts == 0,
            r.last_visit_ply == current_ply,
            stats_consistent(r),
    {
        let mut options: Vec<OptionStats> = Vec::new();
        let mut i: usize = 0;
        while i < num_options
            invariant
                i <= num_options,
                options@.len() == i,
                forall|k: int| 0 <= k < i ==> #[trigger] options@[k] == (OptionStats { num_rollouts: 0, total_score: 0 }),
            decreases num_options - i,
        {
            options.push(OptionStats { num_rollouts: 0, total_score: 0 });
            i += 1;
        }
        proof {
            lemma_option_rollouts_zero(options@);
        }
        StateStats { options, num_rollouts: 0, last_visit_ply: current_ply }
    }

    /// Records a rollout through the state that took the given option and scored
    /// `rollout_score` (out of 2) for player 1; the option is credited with the chooser's score.
    pub fn record_rollout(&mut self, option_index: usize, chooser: Player, rollout_score: u32)
        requires
            option_index < old(self).options@.len(),
            rollout_score <= 2,
            old(self).num_rollouts < u32::MAX,
            old(self).options@[option_index as int].num_rollouts < u32::MAX,
            old(self).options@[option_index as int].total_score + 2 <= u32::MAX,
        ensures
            final(self).num_rollouts == old(self).num_rollouts + 1,
            final(self).last_visit_ply == old(self).last_visit_ply,
            final(self).options@ == old(self).options@.update(option_index as int, OptionStats {
                num_rollouts: (old(self).options@[option_index as int].num_rollouts + 1) as u32,
                total_score: (old(self).options@[option_index as int].total_score + match chooser {
                    Player::Player1 => rollout_score,
                    Player::Player2 => (2 - rollout_score) as u32,
                }) as u32,
            }),
            stats_consistent(*old(self)) ==> stats_consistent(*final(self)),
    {
        let ghost before = *self;
        self.num_rollouts = self.num_rollouts + 1;
        let mut option_stats = self.options[option_index];
        option_stats.record(match chooser {
            Player::Player1 => rollout_score,
            Player::Player2 => 2 - rollout_score,
        });
        self.options.set(option_index, option_stats);
        proof {
            lemma_option_rollouts_update(before.options@, option_index as int, option_stats);
        }
    }
}

impl StateStats {
    /// Whether the state was visited at or after the given ply.
    pub fn visited_since(&self, ply: u32) -> (r: bool)
        ensures
            r == (self.last_visit_ply >= ply),
    {
        self.last_visit_ply >= ply
    }
}

/// `HashMap::retain` from std: keeps exactly the entries for which the predicate holds (here:
/// the states visited at or after the given ply), as std documents it.
#[verifier::external_body]
fn retain_visited_since(states: &mut HashMap<u64, StateStats>, ply: u32)
    ensures
        final(states)@ == old(states)@.restrict(
            Set::new(|k: u64| old(states)@.dom().contains(k) && old(states)@[k].last_visit_ply >= ply),
        ),
{
    states.retain(|_, stats| stats.visited_since(ply));
}

/// A controller that chooses by Monte Carlo tree search within a time limit per choice. The
/// search tree maps the hash of the state a player observes to its statistics.
pub struct MCTSController<F> {
    pub player: Player,
    pub choice_time_limit: Duration,
    pub make_rollout_controller: F,
    pub explored_states: HashMap<u64, StateStats>,
    pub current_ply: u32,
}

impl<F> MCTSController<F> {
    /// Creates a controller for the player, with an empty search tree.
    pub fn new(player: Player, choice_time_limit: Duration, make_rollout_controller: F) -> (r: Self)
        ensures
            r.player == player,
            r.choice_time_limit == choice_time_limit,
            r.make_rollout_controller == make_rollout_controller,
            r.explored_states@ == Map::<u64, StateStats>::empty(),
            r.current_ply == 0,
            tree_consistent(r.explored_states@),
    {
        Self {
            player,
            choice_time_limit,
            make_rollout_controller,
            explored_states: HashMap::new(),
            current_ply: 0,
        }
    }

    /// Forgets the states of the search tree last visited more than `PAST_PLIES_TO_KEEP` plies
    /// ago.
    pub fn prune_explored_states(&mut self)
        ensures
            final(self).player == old(self).player,
            final(self).choice_time_limit == old(self).choice_time_limit,
            final(self).make_rollout_controller == old(self).make_rollout_controller,
            tree_consistent(old(self).explored_states@) ==> tree_consistent(final(self).explored_states@),
            final(self).current_ply == old(self).current_ply,
            old(self).current_ply <= PAST_PLIES_TO_KEEP ==> final(self).explored_states@ == old(self).explored_states@,
            old(self).current_ply > PAST_PLIES_TO_KEEP ==> final(self).explored_states@ == old(self).explored_states@.restrict(
                Set::new(|k: u64| old(self).explored_states@.dom().contains(k)
                    && old(self).explored_states@[k].last_visit_ply >= old(self).current_ply - PAST_PLIES_TO_KEEP),
            ),
    {
        if self.current_ply > PAST_PLIES_TO_KEEP {
            let cutoff = self.current_ply - PAST_PLIES_TO_KEEP;
            retain_visited_since(&mut self.explored_states, cutoff);
        }
    }

    /// Starts the search for a new choice: the ply advances by one, and the states last visited
    /// more than `PAST_PLIES_TO_KEEP` plies before the new one are forgotten.
    pub fn start_ply(&mut self)
        requires
            old(self).current_ply < u32::MAX,
        ensures
            final(self).player == old(self).player,
            final(self).choice_time_limit == old(self).choice_time_limit,
            final(self).make_rollout_controller == old(self).make_rollout_controller,
            tree_consistent(old(self).explored_states@) ==> tree_consistent(final(self).explored_states@),
            final(self).current_ply == old(self).current_ply + 1,
            final(self).current_ply <= PAST_PLIES_TO_KEEP ==> final(self).explored_states@ == old(self).explored_states@,
            final(self).current_ply > PAST_PLIES_TO_KEEP ==> final(self).explored_states@ == old(self).explored_states@.restrict(
                Set::new(|k: u64| old(self).explored_states@.dom().contains(k)
                    && old(self).explored_states@[k].last_visit_ply >= final(self).current_ply - PAST_PLIES_TO_KEEP),
            ),
    {
        self.current_ply = self.current_ply + 1;
        self.prune_explored_states();
    }

    /// The statistics of an observed state of the search tree, if it was explored.
    pub fn explored_stats(&self, state: ObservedState) -> (r: Option<&StateStats>)
        ensures
            match r {
                Some(stats) => self.explored_states@.contains_key(state.0) && *stats == self.explored_states@[state.0],
                None => !self.explored_states@.contains_key(state.0),
            },
    {
        self.explored_states.get(&state.0)
    }

    /// Visits an observed state at the current ply. A state seen for the first time is added to
    /// the search tree with fresh statistics for its options; one seen before is marked as
    /// visited now. Returns whether the state was new.
    pub fn visit_state(&mut self, state: ObservedState, num_options: usize) -> (is_new: bool)
        requires
            num_options > 1,
        ensures
            is_new == !old(self).explored_states@.contains_key(state.0),
            final(self).player == old(self).player,
            final(self).choice_time_limit == old(self).choice_time_limit,
            final(self).make_rollout_controller == old(self).make_rollout_controller,
            tree_consistent(old(self).explored_states@) ==> tree_consistent(final(self).explored_states@),
            final(self).current_ply == old(self).current_ply,
            final(self).explored_states@.dom() == old(self).explored_states@.dom().insert(state.0),
            forall|k: u64| k != state.0 && #[trigger] old(self).explored_states@.contains_key(k)
                ==> final(self).explored_states@[k] == old(self).explored_states@[k],
            is_new ==> final(self).explored_states@[state.0].options@.len() == num_options,
            is_new ==> forall|i: int| 0 <= i < num_options
                ==> #[trigger] final(self).explored_states@[state.0].options@[i] == (OptionStats { num_rollouts: 0, total_score: 0 }),
            is_new ==> final(self).explored_states@[state.0].num_rollouts == 0,
            !is_new ==> final(self).explored_states@[state.0].options == old(self).explored_states@[state.0].options,
            !is_new ==> final(self).explored_states@[state.0].num_rollouts == old(self).explored_states@[state.0].num_rollouts,
            final(self).explored_states@[state.0].last_visit_ply == old(self).current_ply,
    {
        match self.explored_states.remove(&state.0) {
            None => {
                let stats = StateStats::new(num_options, self.current_ply);
                self.explored_states.insert(state.0, stats);
                true
            },
            Some(stats) => {
                let stats = StateStats {
                    options: stats.options,
                    num_rollouts: stats.num_rollouts,
                    last_visit_ply: self.current_ply,
                };
                self.explored_states.insert(state.0, stats);
                false
            },
        }
    }

    /// Records a sample through an explored state: it took the given option, and the game
    /// scored `rollout_score` (out of 2) for player 1; the option is credited with the
    /// chooser's score.
    pub fn record_sample(&mut self, state: ObservedState, option_index: usize, chooser: Player, rollout_score: u32)
        requires
            old(self).explored_states@.contains_key(state.0),
            option_index < old(self).explored_states@[state.0].options@.len(),
            rollout_score <= 2,
            old(self).explored_states@[state.0].num_rollouts < u32::MAX,
            old(self).explored_states@[state.0].options@[option_index as int].num_rollouts < u32::MAX,
            old(self).explored_states@[state.0].options@[option_index as int].total_score + 2 <= u32::MAX,
        ensures
            final(self).player == old(self).player,
            final(self).choice_time_limit == old(self).choice_time_limit,
            final(self).make_rollout_controller == old(self).make_rollout_controller,
            tree_consistent(old(self).explored_states@) ==> tree_consistent(final(self).explored_states@),
            final(self).current_ply == old(self).current_ply,
            final(self).explored_states@.dom() == old(self).explored_states@.dom(),
            forall|k: u64| k != state.0 && #[trigger] old(self).explored_states@.contains_key(k)
                ==> final(self).explored_states@[k] == old(self).explored_states@[k],
            ({
                let before = old(self).explored_states@[state.0];
                let after = final(self).explored_states@[state.0];
                &&& after.num_rollouts == before.num_rollouts + 1
                &&& after.last_visit_ply == before.last_visit_ply
                &&& after.options@ == before.options@.update(option_index as int, OptionStats {
                    num_rollouts: (before.options@[option_index as int].num_rollouts + 1) as u32,
                    total_score: (before.options@[option_index as int].total_score + match chooser {
                        Player::Player1 => rollout_score,
                        Player::Player2 => (2 - rollout_score) as u32,
                    }) as u32,
                })
            }),
    {
        match self.explored_states.remove(&state.0) {
            Some(stats) => {
                let mut stats = stats;
                stats.record_rollout(option_index, chooser, rollout_score);
                self.explored_states.insert(state.0, stats);
            },
            None => {},
        }
    }
}

} // verus!
