//! The rectangular character grid: its shape, its cells and how they are
//! read and written.

use vstd::prelude::*;
use super::point::Point;
use std::ops::Index;
use std::ops::IndexMut;

verus! {

/// Why a grid could not be built or written.
#[derive(Debug, Clone, Copy, PartialEq, Eq, Structural)]
pub enum GridError {
    /// The matrix has no rows.
    Empty,
    /// The first row of the matrix has no columns.
    EmptyFirstRow,
    /// The point lies outside the grid.
    OutOfBounds(Point),
}

/// Whether all rows are as long as the first one.
pub open spec fn uniform(cells: Seq<Seq<char>>) -> bool {
    forall|i: int| 0 <= i < cells.len() ==> (#[trigger] cells[i]).len() == cells[0].len()
}

/// The shape that every grid has: at least one row and one column, all rows
/// of the same length, and no more rows or columns than a signed coordinate
/// can count.
pub open spec fn rectangular(cells: Seq<Seq<char>>) -> bool {
    &&& 1 <= cells.len() <= isize::MAX
    &&& 1 <= cells[0].len() <= isize::MAX
    &&& uniform(cells)
}

/// The rows of a matrix as sequences of characters.
pub open spec fn matrix_view(data: Seq<Vec<char>>) -> Seq<Seq<char>> {
    Seq::new(data.len(), |i: int| data[i]@)
}

/// The cells after writing `value` at column `x` of row `y`.
pub open spec fn with_cell(cells: Seq<Seq<char>>, x: int, y: int, value: char) -> Seq<Seq<char>> {
    cells.update(y, cells[y].update(x, value))
}

/// The cells after the writes of `data`, made one after another in the order
/// of the list.
pub open spec fn written(cells: Seq<Seq<char>>, data: Seq<(Point, char)>) -> Seq<Seq<char>>
    decreases data.len(),
{
    if data.len() == 0 {
        cells
    } else {
        with_cell(
            written(cells, data.drop_last()),
            data.last().0.x as int,
            data.last().0.y as int,
            data.last().1,
        )
    }
}

/// Column `col` of the cells, from top to bottom.
pub open spec fn column(cells: Seq<Seq<char>>, col: int) -> Seq<char> {
    Seq::new(cells.len(), |i: int| cells[i][col])
}

/// The cells with the characters of `line` in column `col`, from top to
/// bottom.
pub open spec fn with_column(cells: Seq<Seq<char>>, col: int, line: Seq<char>) -> Seq<Seq<char>> {
    Seq::new(cells.len(), |i: int| cells[i].update(col, line[i]))
}

/// Row `line` of the cells, or column `line` if `vertical`.
pub open spec fn line_of(cells: Seq<Seq<char>>, vertical: bool, line: int) -> Seq<char> {
    if vertical {
        column(cells, line)
    } else {
        cells[line]
    }
}

/// The cells with `content` as row `line`, or as column `line` if
/// `vertical`.
pub open spec fn with_line(
    cells: Seq<Seq<char>>,
    vertical: bool,
    line: int,
    content: Seq<char>,
) -> Seq<Seq<char>> {
    if vertical {
        with_column(cells, line, content)
    } else {
        cells.update(line, content)
    }
}

/// How many lines a grid of these cells has along one axis: columns if
/// `vertical`, rows if not.
pub open spec fn line_count(cells: Seq<Seq<char>>, vertical: bool) -> int {
    if vertical {
        cells[0].len() as int
    } else {
        cells.len() as int
    }
}

/// How long the lines along one axis are: a column has as many places as
/// there are rows, and a row as many as there are columns.
pub open spec fn line_length(cells: Seq<Seq<char>>, vertical: bool) -> int {
    if vertical {
        cells.len() as int
    } else {
        cells[0].len() as int
    }
}

/// Putting a line in place of one that was put in place before leaves no
/// trace of the earlier one, and reading a line that was put in place gives
/// that line.
pub proof fn lemma_with_line(
    cells: Seq<Seq<char>>,
    vertical: bool,
    line: int,
    first: Seq<char>,
    second: Seq<char>,
)
    requires
        rectangular(cells),
        0 <= line < line_count(cells, vertical),
        first.len() == line_length(cells, vertical),
        second.len() == line_length(cells, vertical),
    ensures
        rectangular(with_line(cells, vertical, line, first)),
        with_line(cells, vertical, line, first).len() == cells.len(),
        with_line(cells, vertical, line, first)[0].len() == cells[0].len(),
        line_of(with_line(cells, vertical, line, first), vertical, line) == first,
        with_line(with_line(cells, vertical, line, first), vertical, line, second) == with_line(
            cells,
            vertical,
            line,
            second,
        ),
        with_line(cells, vertical, line, line_of(cells, vertical, line)) == cells,
{
    let once = with_line(cells, vertical, line, first);
    assert forall|i: int| 0 <= i < once.len() implies (#[trigger] once[i]).len()
        == cells[0].len() by {
        assert(cells[i].len() == cells[0].len());
    }
    assert(line_of(once, vertical, line) =~= first);
    let twice = with_line(once, vertical, line, second);
    let direct = with_line(cells, vertical, line, second);
    assert forall|i: int| 0 <= i < twice.len() implies twice[i] =~= direct[i] by {
        assert(cells[i].len() == cells[0].len());
    }
    assert(twice =~= direct);
    let same = with_line(cells, vertical, line, line_of(cells, vertical, line));
    assert forall|i: int| 0 <= i < same.len() implies same[i] =~= cells[i] by {
        assert(cells[i].len() == cells[0].len());
    }
    assert(same =~= cells);
}

/// A fixed-size rectangular matrix of characters. A cell is addressed by a
/// [`Point`] whose `x` is the column and whose `y` is the row.
#[derive(PartialEq, Eq)]
pub struct Grid {
    rows: usize,
    cols: usize,
    internal: Vec<Vec<char>>,
}

impl View for Grid {
    type V = Seq<Seq<char>>;

    /// The rows of the grid from top to bottom, each from left to right.
    closed spec fn view(&self) -> Seq<Seq<char>> {
        matrix_view(self.internal@)
    }
}

impl Grid {
    /// The stored counts are those of the stored rows.
    pub closed spec fn counts_agree(&self) -> bool {
        &&& self.internal@.len() == self.rows
        &&& self.internal@[0]@.len() == self.cols
    }

    /// The invariant of a grid; every constructor establishes it and every
    /// operation keeps it.
    pub open spec fn wf(&self) -> bool {
        &&& self.counts_agree()
        &&& rectangular(self@)
    }

    /// Number of rows.
    pub open spec fn height(&self) -> int {
        self@.len() as int
    }

    /// Number of columns.
    pub open spec fn width(&self) -> int {
        self@[0].len() as int
    }

    /// Whether the coordinates lie within the grid.
    pub open spec fn has(&self, point: Point) -> bool {
        0 <= point.x < self.width() && 0 <= point.y < self.height()
    }

    /// The character in the cell at `point`.
    pub open spec fn at(&self, point: Point) -> char
        recommends
            self.has(point),
    {
        self@[point.y as int][point.x as int]
    }

    /// Whether the grid holds each of the points to be written.
    pub open spec fn has_all(&self, data: Seq<(Point, char)>) -> bool {
        forall|i: int| 0 <= i < data.len() ==> self.has((#[trigger] data[i]).0)
    }

    /// Builds a grid from its rows. An empty matrix and an empty first row
    /// are refused. The rows are taken as they are: that they are all as
    /// long as the first one is left to the caller.
    pub fn new(data: Vec<Vec<char>>) -> (made: Result<Self, GridError>)
        requires
            data@.len() <= isize::MAX,
            data@.len() > 0 ==> data@[0]@.len() <= isize::MAX,
            data@.len() > 0 && data@[0]@.len() > 0 ==> uniform(matrix_view(data@)),
        ensures
            data@.len() == 0 ==> made == Err::<Self, GridError>(GridError::Empty),
            data@.len() > 0 && data@[0]@.len() == 0 ==> made == Err::<Self, GridError>(
                GridError::EmptyFirstRow,
            ),
            data@.len() > 0 && data@[0]@.len() > 0 ==> made is Ok && made->Ok_0.wf()
                && made->Ok_0@ == matrix_view(data@),
    {
        if data.len() == 0 {
            return Err(GridError::Empty);
        }
        if data[0].len() == 0 {
            return Err(GridError::EmptyFirstRow);
        }
        let rows = data.len();
        let cols = data[0].len();
        assert(matrix_view(data@)[0] == data@[0]@);
        Ok(Self { rows, cols, internal: data })
    }

    /// Builds a grid of `rows` by `cols` cells and asks `func` for the
    /// character of each cell, row by row and from left to right within a
    /// row. A grid without rows or without columns is refused.
    pub fn new_with<F>(rows: usize, cols: usize, func: F) -> (made: Result<Self, GridError>) where
        F: Fn(Point) -> char,

        requires
            rows <= isize::MAX,
            cols <= isize::MAX,
            forall|x: isize, y: isize|
                0 <= x < cols && 0 <= y < rows ==> call_requires(func, (Point { x, y },)),
        ensures
            rows == 0 ==> made == Err::<Self, GridError>(GridError::Empty),
            rows > 0 && cols == 0 ==> made == Err::<Self, GridError>(GridError::EmptyFirstRow),
            rows > 0 && cols > 0 ==> {
                &&& made is Ok
                &&& made->Ok_0.wf()
                &&& made->Ok_0.height() == rows
                &&& made->Ok_0.width() == cols
                &&& forall|x: isize, y: isize|
                    0 <= x < cols && 0 <= y < rows ==> call_ensures(
                        func,
                        (Point { x, y },),
                        #[trigger] made->Ok_0@[y as int][x as int],
                    )
            },
    {
        if rows == 0 {
            return Err(GridError::Empty);
        }
        if cols == 0 {
            return Err(GridError::EmptyFirstRow);
        }
        let mut internal: Vec<Vec<char>> = Vec::new();
        let mut i: usize = 0;
        while i < rows
            invariant
                i <= rows <= isize::MAX,
                0 < cols <= isize::MAX,
                internal@.len() == i,
                forall|x: isize, y: isize|
                    0 <= x < cols && 0 <= y < rows ==> call_requires(func, (Point { x, y },)),
                forall|y: int| 0 <= y < i ==> (#[trigger] internal@[y])@.len() == cols,
                forall|x: isize, y: isize|
                    0 <= x < cols && 0 <= y < i ==> call_ensures(
                        func,
                        (Point { x, y },),
                        #[trigger] internal@[y as int]@[x as int],
                    ),
            decreases rows - i,
        {
            let mut line: Vec<char> = Vec::new();
            let mut j: usize = 0;
            while j < cols
                invariant
                    i < rows <= isize::MAX,
                    j <= cols <= isize::MAX,
                    line@.len() == j,
                    forall|x: isize, y: isize|
                        0 <= x < cols && 0 <= y < rows ==> call_requires(func, (Point { x, y },)),
                    forall|x: isize|
                        0 <= x < j ==> call_ensures(
                            func,
                            (Point { x, y: i as isize },),
                            #[trigger] line@[x as int],
                        ),
                decreases cols - j,
            {
                let value = func(Point { x: j as isize, y: i as isize });
                line.push(value);
                j = j + 1;
            }
            internal.push(line);
            i = i + 1;
        }
        let made = Self { rows, cols, internal };
        assert(made@[0] == made.internal@[0]@);
        assert forall|k: int| 0 <= k < made@.len() implies (#[trigger] made@[k]).len()
            == made@[0].len() by {
            assert(made@[k] == made.internal@[k]@);
        }
        Ok(made)
    }

    /// Number of rows.
    pub fn rows(&self) -> (count: usize)
        requires
            self.wf(),
        ensures
            count == self.height(),
            count >= 1,
    {
        self.rows
    }

    /// Number of columns.
    pub fn cols(&self) -> (count: usize)
        requires
            self.wf(),
        ensures
            count == self.width(),
            count >= 1,
    {
        self.cols
    }

    /// Writes each value of `data` at its point, in the order of the list,
    /// if the grid holds all the points. If it does not hold one of them,
    /// the grid stays exactly as it was and the first such point is
    /// reported: the points are all looked at before anything is written.
    pub fn fill(&mut self, data: &[(Point, char)]) -> (done: Result<(), GridError>)
        requires
            old(self).wf(),
        ensures
            final(self).wf(),
            final(self).height() == old(self).height(),
            final(self).width() == old(self).width(),
            old(self).has_all(data@) ==> done is Ok && final(self)@ == written(old(self)@, data@),
            !old(self).has_all(data@) ==> *final(self) == *old(self) && exists|i: int|
                {
                    &&& 0 <= i < data@.len()
                    &&& !old(self).has(#[trigger] data@[i].0)
                    &&& old(self).has_all(data@.take(i))
                    &&& done == Err::<(), GridError>(GridError::OutOfBounds(data@[i].0))
                },
    {
        let mut i: usize = 0;
        while i < data.len()
            invariant
                i <= data@.len(),
                self.wf(),
                *self == *old(self),
                self.has_all(data@.take(i as int)),
            decreases data@.len() - i,
        {
            let (point, _) = data[i];
            if !self.is_point_in_grid(&point) {
                assert(!self.has_all(data@));
                return Err(GridError::OutOfBounds(point));
            }
            assert forall|k: int| 0 <= k < i + 1 implies self.has(
                (#[trigger] data@.take(i + 1)[k]).0,
            ) by {
                if k < i {
                    assert(data@.take(i as int)[k] == data@[k]);
                }
            }
            i = i + 1;
        }
        assert(data@.take(data@.len() as int) == data@);
        let mut i: usize = 0;
        while i < data.len()
            invariant
                i <= data@.len(),
                self.wf(),
                old(self).wf(),
                old(self).has_all(data@),
                self.height() == old(self).height(),
                self.width() == old(self).width(),
                self@ == written(old(self)@, data@.take(i as int)),
            decreases data@.len() - i,
        {
            let (point, value) = data[i];
            assert(self.has(data@[i as int].0));
            *self.index_mut(point) = value;
            assert(data@.take(i + 1).drop_last() == data@.take(i as int));
            i = i + 1;
        }
        assert(data@.take(data@.len() as int) == data@);
        Ok(())
    }

    /// Whether `point` addresses a cell of the grid.
    pub fn is_point_in_grid(&self, point: &Point) -> (inside: bool)
        requires
            self.wf(),
        ensures
            inside == self.has(*point),
    {
        point.x >= 0 && point.x < self.cols as isize && point.y >= 0 && point.y < self.rows as isize
    }

    /// The length of a column if `vertical`, else of a row.
    pub(crate) fn length_along(&self, vertical: bool) -> (length: usize)
        requires
            self.wf(),
        ensures
            length == line_length(self@, vertical),
            1 <= length <= isize::MAX,
    {
        if vertical {
            self.rows
        } else {
            self.cols
        }
    }

    /// The character at place `place` of row `line`, or of column `line` if
    /// `vertical`.
    pub(crate) fn peek(&self, vertical: bool, line: usize, place: usize) -> (value: char)
        requires
            self.wf(),
            line < line_count(self@, vertical),
            place < line_length(self@, vertical),
        ensures
            value == line_of(self@, vertical, line as int)[place as int],
    {
        if vertical {
            assert(self@[place as int].len() == self@[0].len());
            self.internal[place][line]
        } else {
            assert(self@[line as int].len() == self@[0].len());
            self.internal[line][place]
        }
    }

    /// Writes `value` at place `place` of row `line`, or of column `line` if
    /// `vertical`.
    pub(crate) fn poke(&mut self, vertical: bool, line: usize, place: usize, value: char)
        requires
            old(self).wf(),
            line < line_count(old(self)@, vertical),
            place < line_length(old(self)@, vertical),
        ensures
            final(self).wf(),
            final(self)@.len() == old(self)@.len(),
            final(self)@[0].len() == old(self)@[0].len(),
            line_of(final(self)@, vertical, line as int) == line_of(
                old(self)@,
                vertical,
                line as int,
            ).update(place as int, value),
            final(self)@ == with_line(
                old(self)@,
                vertical,
                line as int,
                line_of(final(self)@, vertical, line as int),
            ),
    {
        let target = if vertical {
            Point { x: line as isize, y: place as isize }
        } else {
            Point { x: place as isize, y: line as isize }
        };
        *self.index_mut(target) = value;
        proof {
            let before = old(self)@;
            let after = self@;
            let content = line_of(before, vertical, line as int).update(place as int, value);
            assert(line_of(after, vertical, line as int) =~= content);
            let put = with_line(before, vertical, line as int, content);
            assert forall|i: int| 0 <= i < after.len() implies after[i] =~= put[i] by {
                assert(before[i].len() == before[0].len());
            }
            assert(after =~= put);
        }
    }
}

impl Clone for Grid {
    /// A grid of its own with the same cells.
    fn clone(&self) -> (copy: Self)
        ensures
            copy@ == self@,
            self.wf() ==> copy.wf(),
    {
        let mut internal: Vec<Vec<char>> = Vec::new();
        let mut i: usize = 0;
        while i < self.internal.len()
            invariant
                i <= self.internal@.len(),
                internal@.len() == i,
                forall|k: int| 0 <= k < i ==> (#[trigger] internal@[k])@ == self.internal@[k]@,
            decreases self.internal@.len() - i,
        {
            let mut line: Vec<char> = Vec::new();
            let mut j: usize = 0;
            while j < self.internal[i].len()
                invariant
                    i < self.internal@.len(),
                    j <= self.internal@[i as int]@.len(),
                    line@ == self.internal@[i as int]@.take(j as int),
                decreases self.internal@[i as int]@.len() - j,
            {
                line.push(self.internal[i][j]);
                assert(self.internal@[i as int]@.take(j + 1) =~= self.internal@[i as int]@.take(
                    j as int,
                ).push(self.internal@[i as int]@[j as int]));
                j = j + 1;
            }
            assert(self.internal@[i as int]@.take(j as int) =~= self.internal@[i as int]@);
            internal.push(line);
            i = i + 1;
        }
        let copy = Self { rows: self.rows, cols: self.cols, internal };
        assert(copy@ =~= self@);
        copy
    }
}

impl Index<Point> for Grid {
    type Output = char;

    /// Reads the cell at `index`, which must lie within the grid.
    fn index(&self, index: Point) -> (cell: &char)
        ensures
            *cell == self.at(index),
    {
        assert(self@[index.y as int].len() == self@[0].len());
        &self.internal[index.y as usize][index.x as usize]
    }
}

impl vstd::std_specs::core::IndexSpecImpl<Point> for Grid {
    open spec fn index_req(&self, index: &Point) -> bool {
        self.wf() && self.has(*index)
    }
}

impl IndexMut<Point> for Grid {
    /// Hands out the cell at `index`, which must lie within the grid, for
    /// writing. Whatever is written there, no other cell changes.
    fn index_mut(&mut self, index: Point) -> (cell: &mut char)
        requires
            old(self).wf(),
            old(self).has(index),
        ensures
            *cell == old(self).at(index),
            final(self).wf(),
            final(self).height() == old(self).height(),
            final(self).width() == old(self).width(),
            final(self)@ == with_cell(old(self)@, index.x as int, index.y as int, *final(cell)),
    {
        assert(self@[index.y as int].len() == self@[0].len());
        assert(forall|i: int|
            0 <= i < self.rows ==> (#[trigger] self.internal@[i])@ == self@[i]);
        &mut self.internal[index.y as usize][index.x as usize]
    }
}

/// A fill with one point that the grid holds puts the value into the cell
/// at that point and changes no other cell and nothing of the shape.
pub proof fn lemma_fill_one(before: Grid, after: Grid, point: Point, value: char)
    requires
        before.wf(),
        before.has(point),
        after@ == written(before@, seq![(point, value)]),
    ensures
        after.height() == before.height(),
        after.width() == before.width(),
        rectangular(after@),
        after.at(point) == value,
        forall|other: Point|
            before.has(other) && other != point ==> after.at(other) == before.at(other),
{
    let data = seq![(point, value)];
    assert(data.drop_last() =~= Seq::<(Point, char)>::empty());
    reveal_with_fuel(written, 2);
    assert(after@ == with_cell(before@, point.x as int, point.y as int, value));
    assert(before@[point.y as int].len() == before@[0].len());
    assert forall|i: int| 0 <= i < after@.len() implies (#[trigger] after@[i]).len()
        == after@[0].len() by {
        assert(before@[i].len() == before@[0].len());
    }
    assert forall|other: Point| before.has(other) && other != point implies after.at(other)
        == before.at(other) by {
        assert(before@[other.y as int].len() == before@[0].len());
    }
}

/// After a fill with points that the grid all holds, a cell holds the value
/// that stands with the last mention of its point in the list, and a cell
/// whose point the list does not mention holds what it held before.
pub proof fn lemma_fill_last_write_wins(before: Grid, data: Seq<(Point, char)>, cell: Point)
    requires
        before.wf(),
        before.has_all(data),
        before.has(cell),
    ensures
        rectangular(written(before@, data)),
        written(before@, data).len() == before@.len(),
        written(before@, data)[0].len() == before@[0].len(),
        (forall|i: int| 0 <= i < data.len() ==> (#[trigger] data[i]).0 != cell) ==> written(
            before@,
            data,
        )[cell.y as int][cell.x as int] == before.at(cell),
        forall|i: int|
            0 <= i < data.len() && (#[trigger] data[i]).0 == cell && (forall|j: int|
                i < j < data.len() ==> (#[trigger] data[j]).0 != cell) ==> written(
                before@,
                data,
            )[cell.y as int][cell.x as int] == data[i].1,
    decreases data.len(),
{
    if data.len() > 0 {
        let earlier = data.drop_last();
        let last = data.last();
        assert(before.has(last.0));
        lemma_fill_last_write_wins(before, earlier, cell);
        let middle = written(before@, earlier);
        let after = written(before@, data);
        assert(middle[last.0.y as int].len() == middle[0].len());
        assert forall|i: int| 0 <= i < after.len() implies (#[trigger] after[i]).len()
            == after[0].len() by {
            assert(middle[i].len() == middle[0].len());
        }
        assert(middle[cell.y as int].len() == middle[0].len());
        assert forall|i: int|
            0 <= i < data.len() && (#[trigger] data[i]).0 == cell && (forall|j: int|
                i < j < data.len() ==> (#[trigger] data[j]).0 != cell) implies after[cell.y as int][cell.x as int]
            == data[i].1 by {
            if i < data.len() - 1 {
                assert(earlier[i] == data[i]);
                assert forall|j: int| i < j < earlier.len() implies (#[trigger] earlier[j]).0
                    != cell by {
                    assert(earlier[j] == data[j]);
                }
                assert(last.0 != cell);
            }
        }
        if forall|i: int| 0 <= i < data.len() ==> (#[trigger] data[i]).0 != cell {
            assert forall|i: int| 0 <= i < earlier.len() implies (#[trigger] earlier[i]).0
                != cell by {
                assert(earlier[i] == data[i]);
            }
            assert(last.0 != cell);
        }
    }
}

} // verus!
