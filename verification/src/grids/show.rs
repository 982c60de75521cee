//! A grid as text: its rows and columns as strings, and its comparison with
//! lines of text.

use vstd::prelude::*;
use super::grid::column;
use super::grid::Grid;
use super::point::Point;
use vstd::string::StringSliceAdditionalSpecFns;

verus! {

/// The characters that the bytes stand for when each byte is read as the
/// code of one character.
pub open spec fn bytes_as_chars(bytes: Seq<u8>) -> Seq<char> {
    bytes.map_values(|byte: u8| byte as char)
}

/// Whether `point` is among `points`.
fn holds_point(points: &[Point], point: Point) -> (held: bool)
    ensures
        held == points@.contains(point),
{
    let mut i: usize = 0;
    while i < points.len()
        invariant
            i <= points@.len(),
            forall|k: int| 0 <= k < i ==> points@[k] != point,
        decreases points@.len() - i,
    {
        if points[i] == point {
            return true;
        }
        i = i + 1;
    }
    false
}

impl Grid {
    /// What row `row` shows when every cell whose point is among `visited`
    /// is marked with `O`.
    pub open spec fn marked_row(&self, row: int, visited: Seq<Point>) -> Seq<char> {
        Seq::new(
            self@[0].len(),
            |col: int|
                if visited.contains(Point { x: col as isize, y: row as isize }) {
                    'O'
                } else {
                    self@[row][col]
                },
        )
    }

    /// Whether the grid has as many rows as `raw` has lines, and each row
    /// holds, byte for byte, what the line of the same index holds. The
    /// bytes of a line are compared, not its characters: a line with a
    /// character of several bytes equals no row that is as long as the line
    /// has characters.
    pub fn equals(&self, raw: &[&str]) -> (same: bool)
        requires
            self.wf(),
        ensures
            same <==> {
                &&& raw@.len() == self.height()
                &&& forall|row: int|
                    0 <= row < raw@.len() ==> self@[row] == bytes_as_chars(
                        (#[trigger] raw@[row]).spec_bytes(),
                    )
            },
    {
        let cols = self.cols();
        if self.rows() != raw.len() {
            return false;
        }
        let mut row: usize = 0;
        while row < raw.len()
            invariant
                self.wf(),
                cols == self.width(),
                raw@.len() == self.height(),
                row <= raw@.len(),
                forall|r: int|
                    0 <= r < row ==> self@[r] == bytes_as_chars((#[trigger] raw@[r]).spec_bytes()),
            decreases raw@.len() - row,
        {
            let bytes = raw[row].as_bytes();
            assert(self@[row as int].len() == self@[0].len());
            if cols != bytes.len() {
                assert(self@[row as int].len() != bytes_as_chars(
                    raw@[row as int].spec_bytes(),
                ).len());
                return false;
            }
            let mut col: usize = 0;
            while col < bytes.len()
                invariant
                    self.wf(),
                    row < self.height(),
                    bytes@.len() == self.width(),
                    self@[row as int].len() == self.width(),
                    col <= bytes@.len(),
                    bytes@ == raw@[row as int].spec_bytes(),
                    forall|c: int|
                        0 <= c < col ==> #[trigger] self@[row as int][c] == bytes@[c] as char,
                decreases bytes@.len() - col,
            {
                if self.peek(false, row, col) != bytes[col] as char {
                    assert(self@[row as int][col as int] != bytes_as_chars(bytes@)[col as int]);
                    return false;
                }
                col = col + 1;
            }
            assert(self@[row as int] =~= bytes_as_chars(bytes@));
            row = row + 1;
        }
        true
    }

    /// Row `row` from left to right, if there is such a row.
    pub fn row_as_string(&self, row: usize) -> (line: Option<String>)
        requires
            self.wf(),
        ensures
            row < self.height() ==> line is Some && line->0@ == self@[row as int],
            row >= self.height() ==> line is None,
    {
        if row >= self.rows() {
            return None;
        }
        let cols = self.cols();
        assert(self@[row as int].len() == self@[0].len());
        let mut line = String::new();
        let mut col: usize = 0;
        while col < cols
            invariant
                self.wf(),
                cols == self.width(),
                row < self.height(),
                col <= cols,
                self@[row as int].len() == cols,
                line@ == self@[row as int].take(col as int),
            decreases cols - col,
        {
            line.push(self.peek(false, row, col));
            assert(self@[row as int].take(col + 1) =~= self@[row as int].take(col as int).push(
                self@[row as int][col as int],
            ));
            col = col + 1;
        }
        assert(self@[row as int].take(cols as int) =~= self@[row as int]);
        Some(line)
    }

    /// Column `col` from top to bottom, if there is such a column.
    pub fn col_as_string(&self, col: usize) -> (line: Option<String>)
        requires
            self.wf(),
        ensures
            col < self.width() ==> line is Some && line->0@ == column(self@, col as int),
            col >= self.width() ==> line is None,
    {
        if col >= self.cols() {
            return None;
        }
        let rows = self.rows();
        let mut line = String::new();
        let mut row: usize = 0;
        while row < rows
            invariant
                self.wf(),
                rows == self.height(),
                col < self.width(),
                row <= rows,
                line@ == column(self@, col as int).take(row as int),
            decreases rows - row,
        {
            line.push(self.peek(true, col, row));
            assert(column(self@, col as int).take(row + 1) =~= column(self@, col as int).take(
                row as int,
            ).push(self@[row as int][col as int]));
            row = row + 1;
        }
        assert(column(self@, col as int).take(rows as int) =~= column(self@, col as int));
        Some(line)
    }

    /// The rows of the grid as text, from top to bottom.
    pub fn render(&self) -> (lines: Vec<String>)
        requires
            self.wf(),
        ensures
            lines@.len() == self.height(),
            forall|row: int| 0 <= row < self.height() ==> (#[trigger] lines@[row])@ == self@[row],
    {
        let lines = self.render_with_visited(&[]);
        assert forall|row: int| 0 <= row < self.height() implies (#[trigger] lines@[row])@
            == self@[row] by {
            assert(self@[row].len() == self@[0].len());
            assert(self.marked_row(row, Seq::empty()) =~= self@[row]);
        }
        lines
    }

    /// The rows of the grid as text, from top to bottom, with `O` in place
    /// of the character of each cell whose point is among `visited`.
    pub fn render_with_visited(&self, visited: &[Point]) -> (lines: Vec<String>)
        requires
            self.wf(),
        ensures
            lines@.len() == self.height(),
            forall|row: int|
                0 <= row < self.height() ==> (#[trigger] lines@[row])@ == self.marked_row(
                    row,
                    visited@,
                ),
    {
        let rows = self.rows();
        let cols = self.cols();
        let mut lines: Vec<String> = Vec::new();
        let mut row: usize = 0;
        while row < rows
            invariant
                self.wf(),
                rows == self.height(),
                cols == self.width(),
                row <= rows,
                lines@.len() == row,
                forall|r: int|
                    0 <= r < row ==> (#[trigger] lines@[r])@ == self.marked_row(r, visited@),
            decreases rows - row,
        {
            let mut line = String::new();
            let mut col: usize = 0;
            assert(self@[row as int].len() == self@[0].len());
            while col < cols
                invariant
                    self.wf(),
                    rows == self.height(),
                    cols == self.width(),
                    row < rows,
                    col <= cols,
                    self@[row as int].len() == cols,
                    line@ == self.marked_row(row as int, visited@).take(col as int),
                decreases cols - col,
            {
                let here = Point { x: col as isize, y: row as isize };
                let shown = if holds_point(visited, here) {
                    'O'
                } else {
                    self.peek(false, row, col)
                };
                line.push(shown);
                assert(self.marked_row(row as int, visited@).take(col + 1) =~= self.marked_row(
                    row as int,
                    visited@,
                ).take(col as int).push(shown));
                col = col + 1;
            }
            assert(self.marked_row(row as int, visited@).take(cols as int) =~= self.marked_row(
                row as int,
                visited@,
            ));
            lines.push(line);
            row = row + 1;
        }
        lines
    }
}

} // verus!
