//! A turn-based grid world: a fixed-size map of tiles, each holding an ordered
//! list of occupants, one player that moves a step at a time, and stationary
//! hostiles and gold.

pub mod cell;
pub mod command;
pub mod game;
pub mod grid;
pub mod loader;
