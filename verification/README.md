# aotenjo

The rules of a mahjong roguelike, verified with Verus: tiles and the
136-tile set, the seeded wall, the check that a selection of tiles forms a
legal play, pattern (yaku) detection, the integer side of scoring, bosses,
gadgets, the shop, the run's rounds and targets, and save-slot checks.

Layout:

- `src/models/`: tiles, faces, melds and plays, the wall, artifacts,
  gadgets, bosses, patterns, score results.
- `src/game/`: pattern checking, scoring tallies, boss and gadget
  catalogs, the shop, and the game state.
- `src/persistence.rs`, `src/views.rs`, `src/text.rs`: save checks and
  summaries, the values that the user interface shows, decimal text.
- `tests/`: tests of the library.
- `app/`: serialisable copies of the library's types, the fractional
  (floating-point) side of scoring, save files on disk, and the commands
  that the user interface calls.

Fan and multiplier amounts are binary64 values. The library carries them
as bit patterns and leaves the arithmetic on them to `app/`; boss score
multipliers and threshold scales are held as percentages.
