//! Eight-way compass directions.

use vstd::prelude::*;
use vstd::std_specs::convert::TryFromSpecImpl;

verus! {

/// One of the eight compass headings of a grid whose rows grow southwards and
/// whose columns grow eastwards.
#[derive(Debug, Clone, Copy, PartialEq, Eq, Hash, Structural)]
pub enum Direction {
    North,
    NorthEast,
    East,
    SouthEast,
    South,
    SouthWest,
    West,
    NorthWest,
}

impl Direction {
    /// The four axis-aligned directions, clockwise from north.
    pub const CARDINAL: [Direction; 4] = [
        Direction::North,
        Direction::East,
        Direction::South,
        Direction::West,
    ];

    /// All eight directions, clockwise from north.
    pub const ALL: [Direction; 8] = [
        Direction::North,
        Direction::NorthEast,
        Direction::East,
        Direction::SouthEast,
        Direction::South,
        Direction::SouthWest,
        Direction::West,
        Direction::NorthWest,
    ];

    /// Whether the direction is one of the four axis-aligned ones.
    pub open spec fn is_cardinal(self) -> bool {
        self == Direction::North || self == Direction::East || self == Direction::South || self
            == Direction::West
    }

    /// Change of the column index made by one step in this direction.
    pub open spec fn dx(self) -> int {
        match self {
            Direction::NorthEast | Direction::East | Direction::SouthEast => 1,
            Direction::SouthWest | Direction::West | Direction::NorthWest => -1,
            Direction::North | Direction::South => 0,
        }
    }

    /// Change of the row index made by one step in this direction.
    pub open spec fn dy(self) -> int {
        match self {
            Direction::SouthEast | Direction::South | Direction::SouthWest => 1,
            Direction::NorthWest | Direction::North | Direction::NorthEast => -1,
            Direction::East | Direction::West => 0,
        }
    }

    /// The cardinal direction a quarter turn counterclockwise of a cardinal
    /// direction.
    pub open spec fn spec_left(&self) -> Direction
        recommends
            self.is_cardinal(),
    {
        match *self {
            Direction::East => Direction::North,
            Direction::South => Direction::East,
            Direction::West => Direction::South,
            _ => Direction::West,
        }
    }

    /// The cardinal direction a quarter turn clockwise of a cardinal
    /// direction.
    pub open spec fn spec_right(&self) -> Direction
        recommends
            self.is_cardinal(),
    {
        match *self {
            Direction::East => Direction::South,
            Direction::South => Direction::West,
            Direction::West => Direction::North,
            _ => Direction::East,
        }
    }

    /// The cardinal direction opposite to a cardinal direction.
    pub open spec fn spec_backward(&self) -> Direction
        recommends
            self.is_cardinal(),
    {
        match *self {
            Direction::East => Direction::West,
            Direction::South => Direction::North,
            Direction::West => Direction::East,
            _ => Direction::South,
        }
    }

    /// Turns a cardinal direction a quarter turn counterclockwise. Turning is
    /// not defined for the diagonals.
    #[verifier::when_used_as_spec(spec_left)]
    pub fn left(&self) -> (turned: Direction)
        requires
            self.is_cardinal(),
        ensures
            turned == self.spec_left(),
            turned.is_cardinal(),
            turned.dx() == self.dy(),
            turned.dy() == -self.dx(),
    {
        match self {
            Direction::East => Direction::North,
            Direction::South => Direction::East,
            Direction::West => Direction::South,
            _ => Direction::West,
        }
    }

    /// Turns a cardinal direction a quarter turn clockwise. Turning is not
    /// defined for the diagonals.
    #[verifier::when_used_as_spec(spec_right)]
    pub fn right(&self) -> (turned: Direction)
        requires
            self.is_cardinal(),
        ensures
            turned == self.spec_right(),
            turned.is_cardinal(),
            turned.dx() == -self.dy(),
            turned.dy() == self.dx(),
    {
        match self {
            Direction::East => Direction::South,
            Direction::South => Direction::West,
            Direction::West => Direction::North,
            _ => Direction::East,
        }
    }

    /// Reverses a cardinal direction. Reversal is not defined for the
    /// diagonals.
    #[verifier::when_used_as_spec(spec_backward)]
    pub fn backward(&self) -> (turned: Direction)
        requires
            self.is_cardinal(),
        ensures
            turned == self.spec_backward(),
            turned.is_cardinal(),
            turned.dx() == -self.dx(),
            turned.dy() == -self.dy(),
    {
        match self {
            Direction::East => Direction::West,
            Direction::South => Direction::North,
            Direction::West => Direction::East,
            _ => Direction::South,
        }
    }

    /// Turning left and then right, or right and then left, gives back the
    /// cardinal direction one started with; two quarter turns to either side
    /// make a reversal, and four make a full turn.
    pub proof fn lemma_turns(self)
        requires
            self.is_cardinal(),
        ensures
            self.spec_left().spec_right() == self,
            self.spec_right().spec_left() == self,
            self.spec_left().spec_left() == self.spec_backward(),
            self.spec_right().spec_right() == self.spec_backward(),
            self.spec_backward().spec_backward() == self,
    {
    }
}

/// The direction that a glyph stands for: `<` west, `^` north, `>` east and
/// `v` south. No other character stands for a direction.
pub open spec fn glyph_direction(glyph: char) -> Option<Direction> {
    if glyph == '<' {
        Some(Direction::West)
    } else if glyph == '^' {
        Some(Direction::North)
    } else if glyph == '>' {
        Some(Direction::East)
    } else if glyph == 'v' {
        Some(Direction::South)
    } else {
        None
    }
}

impl TryFrom<char> for Direction {
    type Error = ();

    /// Reads a direction from its glyph; an unknown glyph is reported as an
    /// error and never aborts.
    fn try_from(value: char) -> (parsed: Result<Self, Self::Error>) {
        match value {
            '<' => Ok(Direction::West),
            '^' => Ok(Direction::North),
            '>' => Ok(Direction::East),
            'v' => Ok(Direction::South),
            _ => Err(()),
        }
    }
}

impl TryFromSpecImpl<char> for Direction {
    open spec fn obeys_try_from_spec() -> bool {
        true
    }

    open spec fn try_from_spec(value: char) -> Result<Self, Self::Error> {
        match glyph_direction(value) {
            Some(direction) => Ok(direction),
            None => Err(()),
        }
    }
}

impl TryFrom<u8> for Direction {
    type Error = ();

    /// Reads a direction from the byte of its glyph.
    fn try_from(value: u8) -> (parsed: Result<Self, Self::Error>) {
        Direction::try_from(value as char)
    }
}

impl TryFromSpecImpl<u8> for Direction {
    open spec fn obeys_try_from_spec() -> bool {
        true
    }

    open spec fn try_from_spec(value: u8) -> Result<Self, Self::Error> {
        match glyph_direction(value as char) {
            Some(direction) => Ok(direction),
            None => Err(()),
        }
    }
}

} // verus!
