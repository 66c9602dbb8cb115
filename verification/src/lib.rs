//! A verified Connect-Four board engine: piece placement with gravity,
//! turn management, and win/draw detection on the fixed 7x6 grid.

pub mod board;
pub mod game;
