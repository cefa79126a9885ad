# zoldath

Tools for planning tool-assisted runs of small games, written in Verus: the
functions of the library carry `requires`/`ensures` contracts that Verus
proves. One standard-library call is trusted rather than proved, with a
contract stated from its documentation: swapping two elements of a slice
(`<[T]>::swap`, in `src/rng.rs`).

## Layout

- `src/rng.rs` — the games' deterministic random number generator: rolls,
  scaled rolls, Fisher-Yates shuffles.
- `src/game/party_house.rs` — Party House guests and houses (popularity and
  cash clamping, buying guests, expanding, starting a day), and their printed
  forms. The ghost, introvert and magician guests are not modelled, so
  whole-party simulations that need them are not included.
- `src/party_house/` — a smaller Party House model with its own guest set.
- `src/ctas.rs` — the CTAS movie format: decoding and encoding of button
  states, frames, re-seedings and whole movies, with proofs that reading a
  written movie gives it back and writing a read movie gives back its bytes;
  editing movies (slicing, appending, inserting frames, repairing button
  states, with a proof that repairing twice is repairing once).
- `src/randomize_order.rs` — `==` and `partial_cmp` of re-seedings, which
  compare the seed (kept as the bit pattern of a 64-bit float) as a float.
- `src/util.rs` — a breadth-first search that returns a shortest route to a
  goal (the empty route where a starting state already is one).
- `src/small_games.rs` — factory balls: painting, masks, rotation, planting,
  watering.
- `src/ball_levels.rs` — factory-ball levels, each solved by the search, with
  a proof that the returned moves are a shortest solution of the level.
- `src/nonogram.rs` — Dr. Sudoku: a backtracking solver (proved sound and
  complete) and the frame counts of cursor routes. Planning a route needs a
  travelling-salesman tour solver, which the library does not have; the
  distance matrix, the turning of a tour into a route and the frame count of
  a given route are here.
- `src/level_text.rs` — the text format of level files and of saved routes.
- `src/text.rs` — decimal text of integers.
- `app/` — the command-line front ends (`nonogram sudoku`, `nonogram cost N`,
  `small-games`), which read and print files.
- `tests/` — tests of the library.
