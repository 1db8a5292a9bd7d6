# Daily Set

A daily game of Set: every day the same twelve cards are dealt from a seed made
of the date, and exactly six sets exist among them. The player picks three cards
at a time until all six sets are found.

Layout:

- `src/state/mod.rs`: cards, the rule that makes three cards a set, random
  drawing of cards, and the state of a game.
- `src/state/game_board.rs`: the board, its answer key, and the generation of
  the board of the day; `src/state/init.rs`: a second generator.
- `src/state/board_proofs.rs`: what holds while a board is built, and why.
- `src/state/dealing.rs`: the board that each generator deals from a seed,
  draw by draw, as a function of the seed.
- `src/game.rs`: selecting cards, checking guesses, keeping time, ending a game.
- `src/modal/`: what the results show (badges, banners).
- `src/rng.rs`: the seeded random number generator and the draws made from
  it, each a function of the seed and the draws before it.
- `app/main.rs`: a terminal front end that reads the clock and the player's
  picks.

The library is verified with Verus: the contracts state, among other things,
that every generated board holds twelve distinct cards and, as its answer key,
exactly the six sets among them, and that the board is the one that its seed
deals (`dealt_board`), so that one seed always deals one board.
