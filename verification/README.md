# card_game

A two-player card battle as a verified library. Each turn the current player
skips or plays a card from the hand (its unit joins the board, the card goes to
the grave); the turn passes; the units of the player whose turn begins act
against the other player (attackers, archers, assassins and mages strike,
healers heal, summoners call creatures); then that player draws, shuffling the
grave back into an empty deck.

Layout of `src/`:

- `types.rs`: the data types and their views (mathematical values).
- `rules.rs`: the rules of a turn as spec functions over views; `turn` is
  `None` exactly where a turn cannot be played (card index out of range, `i32`
  overflow in a blow or a heal, turn counter at its limit).
- `units.rs`, `deck.rs`, `turn.rs`: the executable turn, each step proved
  against the rules; `run_action` is the entry point.
- `setup.rs`: `new_game` and the starting table.
- `laws.rs`: properties every turn keeps (cards kept, turn passes, the mover
  loses exactly the reported player damage, hp only
  falls for the opponent, boards, damage reports, first event).

The shuffle is done by the `rand` crate; the library relies only on its
keeping the same cards.
