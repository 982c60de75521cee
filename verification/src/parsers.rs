//! Turning lines of text into the values that the rest of the library works
//! on.

pub mod parser;
pub mod pattern;
