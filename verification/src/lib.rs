//! Deterministic simulation core: 16.16 fixed-point numbers, a seeded
//! xoshiro256** generator, a dense tile grid, and the per-frame input state
//! that the application turns into commands.

pub mod fx;
pub mod grid;
pub mod input;
pub mod rng;

pub use fx::Fx;
pub use grid::{Grid, TilePos};
pub use input::{InputState, Key, MouseButton};
pub use rng::Rng;
