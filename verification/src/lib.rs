//! A two-dimensional character grid with coordinate addressing, directional
//! traversal and in-place shifting and rotation of rows and columns, a
//! parser that reads grids and numbers from lines of text, and the plan of a
//! solver of puzzles in parts.

pub mod grids;
pub mod parsers;
pub mod puzzler;
pub mod text;
