//! A cellular automaton on a triangular tessellation of a rectangular grid.
//!
//! [`grid::Grid`] is a flat generic 2D container with a parity-dependent
//! triangular neighbourhood; [`automata::Automata`] drives generations over two
//! buffers so that every rule application reads only the previous generation.

pub mod grid;
pub mod automata;
pub mod light;
