# bopcode_wasm

The puzzle catalog of the Bopcode game, verified with Verus.

- `src/models.rs` — positions, tiles, grids, objectives and puzzles, each with
  a mathematical view.
- `src/map.rs` — reading a level's ASCII drawing into a board, and the first
  fault of a drawing that is not one.
- `src/course.rs` — course file data and how one level becomes a puzzle.
- `src/demo.rs` — the demo puzzle of the start page.
- `src/levels.rs` — course packs, the catalog of packs, and the queries the
  frontend makes (worlds, levels of a world, puzzles by id).
- `app/` — the WebAssembly exports, the embedded course files, serde copies of
  the library's types.

`src/models.rs` holds the part of the puzzle model that the catalog needs
(positions, tiles, grids, objectives, puzzles, world and level records). The
game engine that runs a player's code on a puzzle is not part of this crate,
so `app/` exports no simulation.
