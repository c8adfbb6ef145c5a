//! The simulation-data core of a small real-time-strategy prototype: a
//! tile-grid world representation (grid, map, entity store, command table)
//! and a deterministic procedural map generator, with verified contracts.
pub mod game;
pub mod mapgen;
pub mod render;
pub mod util;
