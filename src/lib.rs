//! Cave generation by a cellular automaton over a grid of wall and floor tiles.

pub mod dungeon;
pub mod generation;
