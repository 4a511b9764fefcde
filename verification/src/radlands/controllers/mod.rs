//! Players' controllers: the search statistics that the AI keeps, and the controllers' data.

pub mod mcts;
pub mod monte_carlo;

use rand::Rng;
use vstd::prelude::*;

use super::game::Game;

verus! {

/// `gen_range` from `rand::Rng` with the thread-local generator, over `0..n`: a number below
/// `n` picked at random (the range must not be empty). Stated: the result is below `n`.
#[verifier::external_body]
pub(crate) fn random_below(n: usize) -> (r: usize)
    requires
        n > 0,
    ensures
        r < n,
{
    rand::thread_rng().gen_range(0..n)
}

/// A controller that picks options uniformly at random.
#[derive(Debug, Clone, Copy)]
pub struct RandomController {
    /// Whether to keep from printing anything.
    pub quiet: bool,
}

impl RandomController {
    /// Picks one of the options of the choice the game waits for, at random.
    pub fn choose_option(&self, game: &Game) -> (r: usize)
        requires
            game.spec_num_options() > 0,
        ensures
            r < game.spec_num_options(),
    {
        random_below(game.num_options())
    }
}

/// A controller that asks a human for each option.
#[derive(Debug, Clone, Copy)]
pub struct HumanController {
    /// The label shown in the prompt.
    pub label: &'static str,
}

impl HumanController {
    /// The option that a number the human typed picks: options are numbered from 1, so number
    /// `k` picks the option at index `k - 1`; a number out of range picks none.
    pub fn option_for_number(number: usize, num_options: usize) -> (r: Option<usize>)
        ensures
            r == if 1 <= number <= num_options {
                Some((number - 1) as usize)
            } else {
                None::<usize>
            },
    {
        if 1 <= number && number <= num_options {
            Some(number - 1)
        } else {
            None
        }
    }
}

} // verus!
