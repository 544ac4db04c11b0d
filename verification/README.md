# sim

The deterministic core of a small real-time strategy game, verified with Verus.

- `src/fx.rs` — 16.16 saturating fixed-point numbers (`Fx`), with exact
  contracts for every operation and the arithmetic laws the simulation relies
  on (commutativity, identities, round trips, range).
- `src/rng.rs` — a splitmix64-seeded xoshiro256** generator (`Rng`), specified
  draw by draw, with Lemire's unbiased bounded draw.
- `src/grid.rs` — tile coordinates and a dense row-major `Grid`.
- `src/input.rs` — the button and key state of one input frame.
- `app/` — the floating-point presentation layer (camera, colours, renderer
  trait and a recording renderer, the cursor and scroll wheel), which is plain
  Rust around the library.
