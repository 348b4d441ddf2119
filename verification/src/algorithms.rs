//! Concrete automaton implementations.

pub mod gol;
