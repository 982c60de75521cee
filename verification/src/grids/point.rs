//! Signed two-dimensional coordinates.

use vstd::prelude::*;
use super::direction::Direction;

verus! {

/// A coordinate pair: `x` counts columns eastwards and `y` counts rows
/// southwards. A point by itself is never out of range; only a grid decides
/// whether it holds the point.
#[derive(Debug, Clone, Copy, PartialEq, Eq, Hash, Structural)]
pub struct Point {
    pub x: isize,
    pub y: isize,
}

impl Point {
    /// Whether the coordinates `distance` steps away in `direction` are
    /// still machine integers.
    pub open spec fn reaches(&self, direction: Direction, distance: int) -> bool {
        &&& isize::MIN <= self.x + direction.dx() * distance <= isize::MAX
        &&& isize::MIN <= self.y + direction.dy() * distance <= isize::MAX
    }

    /// The point `distance` steps away in `direction`; a negative distance
    /// walks the other way.
    pub open spec fn spec_neighbor_at(&self, direction: Direction, distance: int) -> Point
        recommends
            self.reaches(direction, distance),
    {
        Point {
            x: (self.x + direction.dx() * distance) as isize,
            y: (self.y + direction.dy() * distance) as isize,
        }
    }

    /// The point one step away in `direction`.
    pub open spec fn spec_neighbor(&self, direction: Direction) -> Point
        recommends
            self.reaches(direction, 1),
    {
        self.spec_neighbor_at(direction, 1)
    }

    /// The points passed on the way of `distance` steps in `direction`,
    /// nearest first: the starting point is left out, the destination is
    /// the last one. Nothing is passed on a way of no steps.
    pub open spec fn spec_neighbor_at_path(&self, direction: Direction, distance: int) -> Seq<
        Point,
    >
        recommends
            distance > 0 ==> self.reaches(direction, distance),
    {
        Seq::new(
            if distance > 0 {
                distance as nat
            } else {
                0
            },
            |i: int| self.spec_neighbor_at(direction, i + 1),
        )
    }

    /// A way that stays within the machine integers does so at each of its
    /// steps.
    pub proof fn lemma_reaches_nearer(&self, direction: Direction, distance: int, steps: int)
        requires
            0 <= steps <= distance,
            self.reaches(direction, distance),
        ensures
            self.reaches(direction, steps),
            self.spec_neighbor_at(direction, steps).x == self.x + direction.dx() * steps,
            self.spec_neighbor_at(direction, steps).y == self.y + direction.dy() * steps,
    {
        let dx = direction.dx();
        let dy = direction.dy();
        assert(dx == 0 || dx == 1 || dx == -1);
        assert(dy == 0 || dy == 1 || dy == -1);
        assert(dx * steps == 0 || dx * steps == steps || dx * steps == -steps) by (nonlinear_arith)
            requires
                dx == 0 || dx == 1 || dx == -1,
        ;
        assert(dy * steps == 0 || dy * steps == steps || dy * steps == -steps) by (nonlinear_arith)
            requires
                dy == 0 || dy == 1 || dy == -1,
        ;
        assert(dx == 0 ==> dx * distance == 0 && dx * steps == 0);
        assert(dx == 1 ==> dx * distance == distance && dx * steps == steps);
        assert(dx == -1 ==> dx * distance == -distance && dx * steps == -steps);
        assert(dy == 0 ==> dy * distance == 0 && dy * steps == 0);
        assert(dy == 1 ==> dy * distance == distance && dy * steps == steps);
        assert(dy == -1 ==> dy * distance == -distance && dy * steps == -steps);
    }

    pub fn new(x: isize, y: isize) -> (point: Self)
        ensures
            point == (Point { x, y }),
    {
        Self { x, y }
    }

    /// The adjacent point in `direction`, in the geometry of eight
    /// neighbours.
    pub fn neighbor(&self, direction: &Direction) -> (next: Self)
        requires
            self.reaches(*direction, 1),
        ensures
            next == self.spec_neighbor(*direction),
            next.x == self.x + direction.dx(),
            next.y == self.y + direction.dy(),
    {
        match direction {
            Direction::North => Self::new(self.x, self.y - 1),
            Direction::NorthEast => Self::new(self.x + 1, self.y - 1),
            Direction::East => Self::new(self.x + 1, self.y),
            Direction::SouthEast => Self::new(self.x + 1, self.y + 1),
            Direction::South => Self::new(self.x, self.y + 1),
            Direction::SouthWest => Self::new(self.x - 1, self.y + 1),
            Direction::West => Self::new(self.x - 1, self.y),
            Direction::NorthWest => Self::new(self.x - 1, self.y - 1),
        }
    }

    /// The adjacent point in `direction`, unless one of its coordinates is
    /// no machine integer any more.
    pub fn checked_neighbor(&self, direction: &Direction) -> (next: Option<Self>)
        ensures
            next == if self.reaches(*direction, 1) {
                Some(self.spec_neighbor(*direction))
            } else {
                None::<Self>
            },
    {
        let fits = match direction {
            Direction::North => self.y > isize::MIN,
            Direction::NorthEast => self.x < isize::MAX && self.y > isize::MIN,
            Direction::East => self.x < isize::MAX,
            Direction::SouthEast => self.x < isize::MAX && self.y < isize::MAX,
            Direction::South => self.y < isize::MAX,
            Direction::SouthWest => self.x > isize::MIN && self.y < isize::MAX,
            Direction::West => self.x > isize::MIN,
            Direction::NorthWest => self.x > isize::MIN && self.y > isize::MIN,
        };
        if fits {
            Some(self.neighbor(direction))
        } else {
            None
        }
    }

    /// The point `distance` steps away in `direction`.
    pub fn neighbor_at(&self, direction: &Direction, distance: isize) -> (target: Self)
        requires
            self.reaches(*direction, distance as int),
        ensures
            target == self.spec_neighbor_at(*direction, distance as int),
            target.x == self.x + direction.dx() * distance,
            target.y == self.y + direction.dy() * distance,
    {
        match direction {
            Direction::North => Self::new(self.x, self.y - distance),
            Direction::NorthEast => Self::new(self.x + distance, self.y - distance),
            Direction::East => Self::new(self.x + distance, self.y),
            Direction::SouthEast => Self::new(self.x + distance, self.y + distance),
            Direction::South => Self::new(self.x, self.y + distance),
            Direction::SouthWest => Self::new(self.x - distance, self.y + distance),
            Direction::West => Self::new(self.x - distance, self.y),
            Direction::NorthWest => Self::new(self.x - distance, self.y - distance),
        }
    }

    /// The points passed on a straight way of `distance` steps in a cardinal
    /// direction, nearest first. A way along a diagonal is not defined.
    pub fn neighbor_at_path(&self, direction: &Direction, distance: isize) -> (path: Vec<Self>)
        requires
            direction.is_cardinal(),
            distance > 0 ==> self.reaches(*direction, distance as int),
        ensures
            path@ == self.spec_neighbor_at_path(*direction, distance as int),
            path@.len() == if distance > 0 { distance as int } else { 0 },
            forall|i: int|
                0 <= i < path@.len() ==> {
                    &&& (#[trigger] path@[i]).x == self.x + direction.dx() * (i + 1)
                    &&& path@[i].y == self.y + direction.dy() * (i + 1)
                },
    {
        let mut path: Vec<Self> = Vec::new();
        let mut steps: isize = 0;
        while steps < distance
            invariant
                0 <= steps,
                distance > 0 ==> steps <= distance,
                distance <= 0 ==> steps == 0,
                distance > 0 ==> self.reaches(*direction, distance as int),
                direction.is_cardinal(),
                path@.len() == steps,
                forall|i: int|
                    0 <= i < steps ==> #[trigger] path@[i] == self.spec_neighbor_at(
                        *direction,
                        i + 1,
                    ),
            decreases distance - steps,
        {
            steps = steps + 1;
            proof {
                self.lemma_reaches_nearer(*direction, distance as int, steps as int);
            }
            path.push(self.neighbor_at(direction, steps));
        }
        assert(path@ =~= self.spec_neighbor_at_path(*direction, distance as int));
        assert forall|i: int| 0 <= i < path@.len() implies {
            &&& (#[trigger] path@[i]).x == self.x + direction.dx() * (i + 1)
            &&& path@[i].y == self.y + direction.dy() * (i + 1)
        } by {
            self.lemma_reaches_nearer(*direction, distance as int, i + 1);
        }
        path
    }
}

} // verus!
