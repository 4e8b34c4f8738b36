//! Simulation core of a top-down action game: a tile map with its spatial queries,
//! and the fixed-step update of units and bullets over it.
//!
//! World coordinates are fixed-point integers: `dimensions::WORLD_ONE` raw steps make
//! one world unit.
pub mod dimensions;
pub mod map;
pub mod game;
pub mod map_text;
pub mod keys;
pub mod sprite;
pub mod input;
