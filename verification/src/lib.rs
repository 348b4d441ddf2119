//! A cellular automaton library: Conway's Game of Life on a fixed-size
//! toroidal grid, with a trait describing the automaton interface and one
//! concrete implementation of the classic birth/survival rule.

pub mod algorithms;
pub mod laws;
pub mod lifealgo;
