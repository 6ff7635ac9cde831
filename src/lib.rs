//! Keystream generation from a one-dimensional binary cellular automaton on a
//! ring of 32 cells, and an exclusive-or combine step that applies it to data.

pub mod automaton;
pub mod cipher;
pub mod rule;
