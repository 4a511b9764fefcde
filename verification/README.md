# radbot

An engine for the card game Radlands, verified with Verus, and the pieces of a Monte Carlo
search AI that plays it.

- `src/cards`: multisets of cards, random draws, and the enumeration of all distinct draws.
- `src/radlands`: the game. `GameState` holds the boards, hands and piles; a `Choice` is what a
  player must decide next, and choosing one of its options (`Choice::select`, or
  `Game::select` on a `Game`, which keeps a state and its pending choice together) advances
  the game to the next choice or to its end. The contracts state what each action and option
  does, that every option offered can be chosen, and that no card enters the game.
- `src/radlands/controllers`: the statistics of rollouts and the search tree of the AI.
- `src/radlands/observed_state.rs`: what one player sees of the game, hashed to identify
  search-tree nodes.
- `app/`: the terminal program: argument handling, text display and input, and the search
  loops that run on the clock and score options with floating-point numbers.
- `tests/`: tests of the library.
