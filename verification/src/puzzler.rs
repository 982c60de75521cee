//! What a solver of puzzles decides: how many parts a puzzle may have and in
//! which order they are solved.

pub mod solver;
