//! Looking around in a grid: the neighbours of a point, and the cells that
//! hold a value or meet a condition.

use vstd::prelude::*;
use super::direction::Direction;
use super::grid::Grid;
use super::point::Point;

verus! {

/// Whether `first` is met before `second` when the rows are read from top to
/// bottom and each row from left to right.
pub open spec fn scanned_before(first: Point, second: Point) -> bool {
    first.y < second.y || (first.y == second.y && first.x < second.x)
}

/// Whether the points stand in the order in which a scan by rows meets them,
/// none of them twice.
pub open spec fn in_scan_order(points: Seq<Point>) -> bool {
    forall|i: int, j: int|
        0 <= i < j < points.len() ==> scanned_before(#[trigger] points[i], #[trigger] points[j])
}

impl Grid {
    /// Whether `point` has a neighbour in `direction` that lies within the
    /// grid.
    pub open spec fn has_neighbor(&self, point: Point, direction: Direction) -> bool {
        point.reaches(direction, 1) && self.has(point.spec_neighbor(direction))
    }

    /// The neighbour of `point` in `direction` with the direction, if the
    /// grid holds that neighbour.
    pub open spec fn spec_neighbor(&self, point: Point, direction: Direction) -> Option<
        (Point, Direction),
    > {
        if self.has_neighbor(point, direction) {
            Some((point.spec_neighbor(direction), direction))
        } else {
            None
        }
    }

    /// The neighbours of `point` that the grid holds, one for each of
    /// `directions` that leads to one, in the order of `directions`.
    pub open spec fn spec_neighbors(&self, point: Point, directions: Seq<Direction>) -> Seq<
        (Point, Direction),
    > {
        directions.filter_map(|direction: Direction| self.spec_neighbor(point, direction))
    }

    /// Whether `found` holds the neighbours of `point` in the directions at
    /// the indices `kept`, `func` having accepted each of them, while every
    /// other direction leads out of the grid or to a neighbour that `func`
    /// turned down.
    pub open spec fn neighbors_kept<F: Fn(&Point, &Direction) -> bool>(
        &self,
        point: Point,
        directions: Seq<Direction>,
        func: F,
        kept: Seq<int>,
        found: Seq<(Point, Direction)>,
    ) -> bool {
        &&& found.len() == kept.len()
        &&& forall|k: int| 0 <= k < kept.len() ==> 0 <= #[trigger] kept[k] < directions.len()
        &&& forall|k: int, l: int| 0 <= k < l < kept.len() ==> #[trigger] kept[k] < #[trigger] kept[l]
        &&& forall|k: int|
            0 <= k < kept.len() ==> {
                &&& self.has_neighbor(point, directions[#[trigger] kept[k]])
                &&& found[k] == (point.spec_neighbor(directions[kept[k]]), directions[kept[k]])
                &&& call_ensures(
                    func,
                    (&point.spec_neighbor(directions[kept[k]]), &directions[kept[k]]),
                    true,
                )
            }
        &&& forall|i: int|
            0 <= i < directions.len() && !kept.contains(i) ==> {
                ||| !self.has_neighbor(point, #[trigger] directions[i])
                ||| call_ensures(
                    func,
                    (&point.spec_neighbor(directions[i]), &directions[i]),
                    false,
                )
            }
    }

    /// The neighbour of `point` in `direction` together with the direction,
    /// if the grid holds that neighbour.
    pub fn neighbor(&self, point: &Point, direction: &Direction) -> (found: Option<
        (Point, Direction),
    >)
        requires
            self.wf(),
        ensures
            found == self.spec_neighbor(*point, *direction),
            found is Some <==> point.reaches(*direction, 1) && self.has(
                point.spec_neighbor(*direction),
            ),
            found is Some ==> found.unwrap().1 == *direction,
    {
        let always = |_neighbor: &Point, _direction: &Direction| -> (keep: bool)
            ensures
                keep,
            {
                true
            };
        self.neighbor_accepted(point, direction, &always)
    }

    /// The neighbour of `point` in `direction` together with the direction,
    /// if the grid holds that neighbour and `func` accepts it. `func` is
    /// asked only about a neighbour within the grid.
    pub fn neighbor_if<F>(&self, point: &Point, direction: &Direction, func: F) -> (found: Option<
        (Point, Direction),
    >) where F: Clone + Fn(&Point, &Direction) -> bool
        requires
            self.wf(),
            self.has_neighbor(*point, *direction) ==> call_requires(
                func,
                (&point.spec_neighbor(*direction), direction),
            ),
        ensures
            found is Some ==> {
                &&& self.has_neighbor(*point, *direction)
                &&& found->0 == (point.spec_neighbor(*direction), *direction)
                &&& call_ensures(func, (&point.spec_neighbor(*direction), direction), true)
            },
            found is None ==> {
                ||| !self.has_neighbor(*point, *direction)
                ||| call_ensures(func, (&point.spec_neighbor(*direction), direction), false)
            },
    {
        self.neighbor_accepted(point, direction, &func)
    }

    /// The neighbours of `point` that the grid holds, in the order of
    /// `directions`; a direction that leads out of the grid adds nothing.
    pub fn neighbors(&self, point: &Point, directions: &[Direction]) -> (found: Vec<
        (Point, Direction),
    >)
        requires
            self.wf(),
        ensures
            found@ == self.spec_neighbors(*point, directions@),
    {
        let ghost choose_neighbor = |direction: Direction| self.spec_neighbor(*point, direction);
        let mut found: Vec<(Point, Direction)> = Vec::new();
        let mut i: usize = 0;
        while i < directions.len()
            invariant
                self.wf(),
                i <= directions@.len(),
                choose_neighbor == |direction: Direction| self.spec_neighbor(*point, direction),
                found@ == directions@.take(i as int).filter_map(choose_neighbor),
            decreases directions@.len() - i,
        {
            proof {
                directions@.lemma_filter_map_take_succ(choose_neighbor, i as int);
            }
            match self.neighbor(point, &directions[i]) {
                Some(neighbor) => {
                    found.push(neighbor);
                },
                None => {},
            }
            i = i + 1;
        }
        assert(directions@.take(directions@.len() as int) == directions@);
        found
    }

    /// The neighbours of `point` that the grid holds and `func` accepts, in
    /// the order of `directions`. `func` is asked once for each direction
    /// that leads to a neighbour within the grid.
    pub fn neighbors_if<F>(&self, point: &Point, directions: &[Direction], func: F) -> (found: Vec<
        (Point, Direction),
    >) where F: Clone + Fn(&Point, &Direction) -> bool
        requires
            self.wf(),
            forall|i: int|
                0 <= i < directions@.len() && self.has_neighbor(*point, #[trigger] directions@[i])
                    ==> call_requires(
                    func,
                    (&point.spec_neighbor(directions@[i]), &directions@[i]),
                ),
        ensures
            exists|kept: Seq<int>| self.neighbors_kept(*point, directions@, func, kept, found@),
    {
        let ghost mut kept: Seq<int> = Seq::empty();
        let mut found: Vec<(Point, Direction)> = Vec::new();
        let mut i: usize = 0;
        while i < directions.len()
            invariant
                self.wf(),
                i <= directions@.len(),
                forall|i: int|
                    0 <= i < directions@.len() && self.has_neighbor(
                        *point,
                        #[trigger] directions@[i],
                    ) ==> call_requires(
                        func,
                        (&point.spec_neighbor(directions@[i]), &directions@[i]),
                    ),
                forall|k: int| 0 <= k < kept.len() ==> #[trigger] kept[k] < i,
                self.neighbors_kept(*point, directions@.take(i as int), func, kept, found@),
            decreases directions@.len() - i,
        {
            let ghost before = kept;
            let ghost found_before = found@;
            let ghost shorter = directions@.take(i as int);
            let ghost longer = directions@.take(i + 1);
            let accepted = self.neighbor_accepted(point, &directions[i], &func);
            match accepted {
                Some(neighbor) => {
                    found.push(neighbor);
                    proof {
                        kept = kept.push(i as int);
                    }
                },
                None => {},
            }
            proof {
                assert forall|j: int| 0 <= j < longer.len() && !kept.contains(j) implies {
                    ||| !self.has_neighbor(*point, #[trigger] longer[j])
                    ||| call_ensures(func, (&point.spec_neighbor(longer[j]), &longer[j]), false)
                } by {
                    if j < i {
                        assert(shorter[j] == longer[j]);
                        if before.contains(j) {
                            let k = choose|k: int| 0 <= k < before.len() && before[k] == j;
                            assert(kept[k] == j);
                        }
                    } else {
                        if accepted is Some {
                            assert(kept[kept.len() - 1] == j);
                        }
                    }
                }
                assert forall|k: int| 0 <= k < kept.len() implies {
                    &&& self.has_neighbor(*point, longer[#[trigger] kept[k]])
                    &&& found@[k] == (point.spec_neighbor(longer[kept[k]]), longer[kept[k]])
                    &&& call_ensures(
                        func,
                        (&point.spec_neighbor(longer[kept[k]]), &longer[kept[k]]),
                        true,
                    )
                } by {
                    if k < before.len() {
                        assert(kept[k] == before[k]);
                        assert(found@[k] == found_before[k]);
                        assert(shorter[kept[k]] == longer[kept[k]]);
                    } else {
                        assert(kept[k] == i);
                        assert(longer[i as int] == directions@[i as int]);
                    }
                }
            }
            i = i + 1;
        }
        assert(directions@.take(directions@.len() as int) == directions@);
        found
    }

    /// The neighbour of `point` in `direction` if the grid holds it and
    /// `func` accepts it.
    fn neighbor_accepted<F>(&self, point: &Point, direction: &Direction, func: &F) -> (found:
        Option<(Point, Direction)>) where F: Fn(&Point, &Direction) -> bool
        requires
            self.wf(),
            self.has_neighbor(*point, *direction) ==> call_requires(
                *func,
                (&point.spec_neighbor(*direction), direction),
            ),
        ensures
            found is Some ==> {
                &&& self.has_neighbor(*point, *direction)
                &&& found->0 == (point.spec_neighbor(*direction), *direction)
                &&& call_ensures(*func, (&point.spec_neighbor(*direction), direction), true)
            },
            found is None ==> {
                ||| !self.has_neighbor(*point, *direction)
                ||| call_ensures(*func, (&point.spec_neighbor(*direction), direction), false)
            },
    {
        match point.checked_neighbor(direction) {
            Some(neighbor) => {
                if self.is_point_in_grid(&neighbor) && func(&neighbor, direction) {
                    Some((neighbor, *direction))
                } else {
                    None
                }
            },
            None => None,
        }
    }

    /// The points of the cells whose character `func` accepts, in the order
    /// of a scan by rows: row 0 first, and each row from left to right.
    /// `func` is asked once about each cell.
    pub fn get_if<F>(&self, func: F) -> (found: Vec<Point>) where F: Copy + Fn(char) -> bool
        requires
            self.wf(),
            forall|point: Point| self.has(point) ==> call_requires(func, (self.at(point),)),
        ensures
            in_scan_order(found@),
            forall|k: int|
                0 <= k < found@.len() ==> self.has(#[trigger] found@[k]) && call_ensures(
                    func,
                    (self.at(found@[k]),),
                    true,
                ),
            forall|point: Point|
                self.has(point) && !found@.contains(point) ==> call_ensures(
                    func,
                    (#[trigger] self.at(point),),
                    false,
                ),
    {
        self.scan(&func)
    }

    /// The points of the cells that hold `value`, in the order of a scan by
    /// rows: row 0 first, and each row from left to right.
    pub fn get_value(&self, value: char) -> (found: Vec<Point>)
        requires
            self.wf(),
        ensures
            in_scan_order(found@),
            forall|point: Point|
                found@.contains(point) <==> self.has(point) && self.at(point) == value,
    {
        let always = || -> (keep: bool)
            ensures
                keep,
            {
                true
            };
        let found = self.get_value_where(value, &always);
        assert forall|point: Point| found@.contains(point) implies self.has(point) && self.at(
            point,
        ) == value by {
            let k = choose|k: int| 0 <= k < found@.len() && found@[k] == point;
            assert(self.has(found@[k]));
        }
        found
    }

    /// The points of the cells that hold `value` and for which `func` said
    /// yes, in the order of a scan by rows. `func` is told nothing of the
    /// cell: it is asked once for each cell that holds `value`.
    pub fn get_value_if<F>(&self, value: char, func: F) -> (found: Vec<Point>) where
        F: Copy + Fn() -> bool,

        requires
            self.wf(),
            (exists|point: Point| self.has(point) && self.at(point) == value) ==> call_requires(
                func,
                (),
            ),
        ensures
            in_scan_order(found@),
            forall|k: int|
                0 <= k < found@.len() ==> self.has(#[trigger] found@[k]) && self.at(found@[k])
                    == value,
            found@.len() > 0 ==> call_ensures(func, (), true),
            (exists|point: Point|
                self.has(point) && self.at(point) == value && !found@.contains(point))
                ==> call_ensures(func, (), false),
    {
        self.get_value_where(value, &func)
    }

    /// The points that `get_value_if` gives, with `func` borrowed.
    fn get_value_where<F>(&self, value: char, func: &F) -> (found: Vec<Point>) where
        F: Fn() -> bool,

        requires
            self.wf(),
            (exists|point: Point| self.has(point) && self.at(point) == value) ==> call_requires(
                *func,
                (),
            ),
        ensures
            in_scan_order(found@),
            forall|k: int|
                0 <= k < found@.len() ==> self.has(#[trigger] found@[k]) && self.at(found@[k])
                    == value,
            found@.len() > 0 ==> call_ensures(*func, (), true),
            (exists|point: Point|
                self.has(point) && self.at(point) == value && !found@.contains(point))
                ==> call_ensures(*func, (), false),
    {
        let ghost callable = call_requires(*func, ());
        let ghost may_accept = call_ensures(*func, (), true);
        let ghost may_refuse = call_ensures(*func, (), false);
        let matching = |cell: char| -> (keep: bool)
            requires
                cell == value ==> callable,
            ensures
                keep ==> cell == value && may_accept,
                !keep ==> cell != value || may_refuse,
            {
                cell == value && func()
            };
        assert forall|point: Point| self.has(point) implies call_requires(
            matching,
            (self.at(point),),
        ) by {}
        let found = self.scan(&matching);
        assert forall|k: int| 0 <= k < found@.len() implies self.has(#[trigger] found@[k])
            && self.at(found@[k]) == value by {}
        proof {
            if found@.len() > 0 {
                let first = found@[0];
                assert(self.has(first));
                assert(call_ensures(matching, (self.at(first),), true));
                assert(may_accept);
            }
        }
        found
    }

    /// The points of the cells whose character `func` accepts, in the order
    /// of a scan by rows.
    fn scan<F>(&self, func: &F) -> (found: Vec<Point>) where F: Fn(char) -> bool
        requires
            self.wf(),
            forall|point: Point| self.has(point) ==> call_requires(*func, (self.at(point),)),
        ensures
            in_scan_order(found@),
            forall|k: int|
                0 <= k < found@.len() ==> self.has(#[trigger] found@[k]) && call_ensures(
                    *func,
                    (self.at(found@[k]),),
                    true,
                ),
            forall|point: Point|
                self.has(point) && !found@.contains(point) ==> call_ensures(
                    *func,
                    (#[trigger] self.at(point),),
                    false,
                ),
    {
        let rows = self.rows();
        let cols = self.cols();
        let mut found: Vec<Point> = Vec::new();
        let mut i: usize = 0;
        while i < rows
            invariant
                self.wf(),
                rows == self.height(),
                cols == self.width(),
                i <= rows,
                forall|point: Point| self.has(point) ==> call_requires(*func, (self.at(point),)),
                in_scan_order(found@),
                forall|k: int|
                    0 <= k < found@.len() ==> {
                        &&& self.has(#[trigger] found@[k])
                        &&& found@[k].y < i
                        &&& call_ensures(*func, (self.at(found@[k]),), true)
                    },
                forall|point: Point|
                    self.has(point) && point.y < i && !found@.contains(point) ==> call_ensures(
                        *func,
                        (#[trigger] self.at(point),),
                        false,
                    ),
            decreases rows - i,
        {
            let mut j: usize = 0;
            while j < cols
                invariant
                    self.wf(),
                    rows == self.height(),
                    cols == self.width(),
                    i < rows,
                    j <= cols,
                    forall|point: Point|
                        self.has(point) ==> call_requires(*func, (self.at(point),)),
                    in_scan_order(found@),
                    forall|k: int|
                        0 <= k < found@.len() ==> {
                            &&& self.has(#[trigger] found@[k])
                            &&& scanned_before(found@[k], Point { x: j as isize, y: i as isize })
                            &&& call_ensures(*func, (self.at(found@[k]),), true)
                        },
                    forall|point: Point|
                        self.has(point) && scanned_before(
                            point,
                            Point { x: j as isize, y: i as isize },
                        ) && !found@.contains(point) ==> call_ensures(
                            *func,
                            (#[trigger] self.at(point),),
                            false,
                        ),
                decreases cols - j,
            {
                let here = Point { x: j as isize, y: i as isize };
                let ghost before = found@;
                assert(self.has(here));
                let cell = self.peek(false, i, j);
                assert(cell == self.at(here));
                let keep = func(cell);
                if keep {
                    found.push(here);
                }
                proof {
                    let next = Point { x: (j + 1) as isize, y: i as isize };
                    assert forall|point: Point|
                        self.has(point) && scanned_before(point, next) && !found@.contains(
                            point,
                        ) implies call_ensures(*func, (#[trigger] self.at(point),), false) by {
                        if point == here {
                            if keep {
                                assert(found@[found@.len() - 1] == here);
                            }
                        } else {
                            assert(scanned_before(point, here));
                            if before.contains(point) {
                                let k = choose|k: int| 0 <= k < before.len() && before[k] == point;
                                assert(found@[k] == point);
                            }
                        }
                    }
                }
                j = j + 1;
            }
            proof {
                assert forall|point: Point|
                    self.has(point) && point.y < i + 1 && !found@.contains(
                        point,
                    ) implies call_ensures(*func, (#[trigger] self.at(point),), false) by {
                    assert(scanned_before(point, Point { x: j as isize, y: i as isize }));
                }
            }
            i = i + 1;
        }
        found
    }
}

/// A point has a neighbour within the grid in a direction just where the grid
/// holds the adjacent point in that direction, and the neighbour is then that
/// point, paired with the direction.
pub proof fn lemma_neighbor_where_inside(grid: Grid, point: Point, direction: Direction)
    requires
        grid.wf(),
        point.reaches(direction, 1),
    ensures
        grid.spec_neighbor(point, direction) is Some <==> grid.has(point.spec_neighbor(direction)),
        grid.spec_neighbor(point, direction) is Some ==> grid.spec_neighbor(point, direction)
            == Some((point.spec_neighbor(direction), direction)),
{
}

/// The order of a scan by rows leaves no choice: two lists of points in that
/// order which hold the same points are the same list.
pub proof fn lemma_scan_order_unique(first: Seq<Point>, second: Seq<Point>)
    requires
        in_scan_order(first),
        in_scan_order(second),
        forall|point: Point| first.contains(point) <==> second.contains(point),
    ensures
        first == second,
    decreases first.len(),
{
    if first.len() == 0 {
        if second.len() > 0 {
            assert(second.contains(second[0]));
        }
        assert(first =~= second);
    } else {
        assert(first.contains(first[0]));
        let at_second = choose|k: int| 0 <= k < second.len() && second[k] == first[0];
        assert(second.contains(second[0]));
        let at_first = choose|k: int| 0 <= k < first.len() && first[k] == second[0];
        if at_second > 0 {
            assert(scanned_before(second[0], second[at_second]));
            if at_first > 0 {
                assert(scanned_before(first[0], first[at_first]));
            }
        }
        assert(first[0] == second[0]);
        let first_rest = first.drop_first();
        let second_rest = second.drop_first();
        assert forall|point: Point| first_rest.contains(point) <==> second_rest.contains(
            point,
        ) by {
            if first_rest.contains(point) {
                let k = choose|k: int| 0 <= k < first_rest.len() && first_rest[k] == point;
                assert(first[k + 1] == point);
                assert(scanned_before(first[0], first[k + 1]));
                assert(first.contains(point));
                let l = choose|l: int| 0 <= l < second.len() && second[l] == point;
                assert(l > 0);
                assert(second_rest[l - 1] == point);
            }
            if second_rest.contains(point) {
                let k = choose|k: int| 0 <= k < second_rest.len() && second_rest[k] == point;
                assert(second[k + 1] == point);
                assert(scanned_before(second[0], second[k + 1]));
                assert(second.contains(point));
                let l = choose|l: int| 0 <= l < first.len() && first[l] == point;
                assert(l > 0);
                assert(first_rest[l - 1] == point);
            }
        }
        assert forall|i: int, j: int| 0 <= i < j < first_rest.len() implies scanned_before(
            #[trigger] first_rest[i],
            #[trigger] first_rest[j],
        ) by {
            assert(scanned_before(first[i + 1], first[j + 1]));
        }
        assert forall|i: int, j: int| 0 <= i < j < second_rest.len() implies scanned_before(
            #[trigger] second_rest[i],
            #[trigger] second_rest[j],
        ) by {
            assert(scanned_before(second[i + 1], second[j + 1]));
        }
        lemma_scan_order_unique(first_rest, second_rest);
        assert(first =~= seq![first[0]] + first_rest);
        assert(second =~= seq![second[0]] + second_rest);
    }
}

} // verus!
