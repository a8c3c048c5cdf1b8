//! Elementary one-dimensional cellular automata over a history grid that
//! widens whenever activity reaches one of its edges.

pub mod config;
pub mod grid;
pub mod line;
pub mod render;
pub mod rule;
pub mod simulation;
pub mod window;
