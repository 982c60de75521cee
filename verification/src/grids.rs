//! Coordinates, compass directions and the character grid built on them.

pub mod direction;
pub mod grid;
pub mod line;
pub mod moves;
pub mod point;
pub mod search;
pub mod show;
