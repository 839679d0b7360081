//! A "connect K in a row" game engine for any number of players, any board
//! size and any winning run length.
pub mod board;
pub mod cell;
pub mod color;
pub mod game;
pub mod laws;
pub mod render;
