//! A multiplayer digging game in the minesweeper family: geometry on a signed
//! grid, a board engine with hazard placement and fog-of-war reveal, and a
//! registry of rooms that each own one shared board.

pub mod bits;
pub mod digsites;
pub mod error;
pub mod geometry;
pub mod lifecycle;
pub mod sampling;
pub mod state;
