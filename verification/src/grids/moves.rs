//! Moving the content of one row or one column of a grid: shifts, which
//! push content out at one end and fill the other end with a default
//! character, and rotations, which bring back in at one end what leaves at
//! the other.

use vstd::prelude::*;
use super::grid::column;
use super::grid::lemma_with_line;
use super::grid::line_count;
use super::grid::line_length;
use super::grid::line_of;
use super::grid::rectangular;
use super::grid::with_column;
use super::grid::with_line;
use super::grid::Grid;
use super::line::lemma_ring_round_trip;
use super::line::lemma_rotate_left_then_right;
use super::line::lemma_rotate_right_then_left;
use super::line::rotated_left;
use super::line::rotated_right;
use super::line::shifted_left;
use super::line::shifted_right;
use vstd::arithmetic::div_mod::lemma_add_mod_noop_right;
use vstd::arithmetic::div_mod::lemma_fundamental_div_mod_converse;
use vstd::arithmetic::div_mod::lemma_small_mod;

verus! {

/// The cells after a shift of row `row` to the left: a shift by no places
/// changes nothing.
pub open spec fn row_shifted_left(
    cells: Seq<Seq<char>>,
    row: int,
    shuffle: int,
    default: char,
) -> Seq<Seq<char>> {
    if shuffle == 0 {
        cells
    } else {
        cells.update(row, shifted_left(cells[row], shuffle, default))
    }
}

/// The cells after a shift of row `row` to the right: a shift by no places
/// changes nothing.
pub open spec fn row_shifted_right(
    cells: Seq<Seq<char>>,
    row: int,
    shuffle: int,
    default: char,
) -> Seq<Seq<char>> {
    if shuffle == 0 {
        cells
    } else {
        cells.update(row, shifted_right(cells[row], shuffle, default))
    }
}

/// The cells after a shift of column `col` downwards: a shift by no places
/// changes nothing.
pub open spec fn column_shifted_down(
    cells: Seq<Seq<char>>,
    col: int,
    shuffle: int,
    default: char,
) -> Seq<Seq<char>> {
    if shuffle == 0 {
        cells
    } else {
        with_column(cells, col, shifted_right(column(cells, col), shuffle, default))
    }
}

/// The cells after a shift of column `col` upwards: a shift by no places
/// changes nothing.
pub open spec fn column_shifted_up(
    cells: Seq<Seq<char>>,
    col: int,
    shuffle: int,
    default: char,
) -> Seq<Seq<char>> {
    if shuffle == 0 {
        cells
    } else {
        with_column(cells, col, shifted_left(column(cells, col), shuffle, default))
    }
}

/// The cells after a turn of row `row` to the left: a turn by a multiple of
/// the number of columns changes nothing.
pub open spec fn row_rotated_left(cells: Seq<Seq<char>>, row: int, shuffle: int) -> Seq<Seq<char>> {
    if shuffle % (cells[0].len() as int) == 0 {
        cells
    } else {
        cells.update(row, rotated_left(cells[row], shuffle))
    }
}

/// The cells after a turn of row `row` to the right: a turn by a multiple of
/// the number of columns changes nothing.
pub open spec fn row_rotated_right(cells: Seq<Seq<char>>, row: int, shuffle: int) -> Seq<
    Seq<char>,
> {
    if shuffle % (cells[0].len() as int) == 0 {
        cells
    } else {
        cells.update(row, rotated_right(cells[row], shuffle))
    }
}

/// The cells after a turn of column `col` downwards: a turn by a multiple of
/// the number of rows changes nothing.
pub open spec fn column_rotated_down(cells: Seq<Seq<char>>, col: int, shuffle: int) -> Seq<
    Seq<char>,
> {
    if shuffle % (cells.len() as int) == 0 {
        cells
    } else {
        with_column(cells, col, rotated_right(column(cells, col), shuffle))
    }
}

/// The cells after a turn of column `col` upwards: a turn by a multiple of
/// the number of rows changes nothing.
pub open spec fn column_rotated_up(cells: Seq<Seq<char>>, col: int, shuffle: int) -> Seq<
    Seq<char>,
> {
    if shuffle % (cells.len() as int) == 0 {
        cells
    } else {
        with_column(cells, col, rotated_left(column(cells, col), shuffle))
    }
}

/// The place `shuffle` places after `place` on a ring of `length` places.
/// The sum itself may be no machine integer, so the remainder of `shuffle`
/// is taken first.
fn place_ahead(place: usize, shuffle: usize, length: usize) -> (ahead: usize)
    requires
        place < length,
    ensures
        ahead == (place + shuffle) % (length as int),
        ahead < length,
{
    let turn = shuffle % length;
    proof {
        lemma_add_mod_noop_right(place as int, shuffle as int, length as int);
    }
    if place < length - turn {
        proof {
            lemma_small_mod((place + turn) as nat, length as nat);
        }
        place + turn
    } else {
        proof {
            lemma_fundamental_div_mod_converse(
                place + turn,
                length as int,
                1,
                place + turn - length,
            );
        }
        place - (length - turn)
    }
}

impl Grid {
    /// Moves row `row` by `shuffle` places to the left. What is pushed out
    /// at the left end is lost, and the places that become free at the right
    /// end get `default`. A shift by no places changes nothing.
    pub fn row_shift_left(&mut self, row: usize, shuffle: usize, default: char)
        requires
            old(self).wf(),
            shuffle != 0 ==> row < old(self).height(),
        ensures
            final(self).wf(),
            final(self).height() == old(self).height(),
            final(self).width() == old(self).width(),
            final(self)@ == row_shifted_left(old(self)@, row as int, shuffle as int, default),
    {
        if shuffle == 0 {
            return;
        }
        self.shift_line_to_start(false, row, shuffle, default);
    }

    /// Moves row `row` by `shuffle` places to the right. What is pushed out
    /// at the right end is lost, and the places that become free at the left
    /// end get `default`. A shift by no places changes nothing.
    pub fn row_shift_right(&mut self, row: usize, shuffle: usize, default: char)
        requires
            old(self).wf(),
            shuffle != 0 ==> row < old(self).height(),
        ensures
            final(self).wf(),
            final(self).height() == old(self).height(),
            final(self).width() == old(self).width(),
            final(self)@ == row_shifted_right(old(self)@, row as int, shuffle as int, default),
    {
        if shuffle == 0 {
            return;
        }
        self.shift_line_to_end(false, row, shuffle, default);
    }

    /// Moves column `col` by `shuffle` places down. What is pushed out at
    /// the bottom is lost, and the places that become free at the top get
    /// `default`. A shift by no places changes nothing.
    pub fn col_shift_down(&mut self, col: usize, shuffle: usize, default: char)
        requires
            old(self).wf(),
            shuffle != 0 ==> col < old(self).width(),
        ensures
            final(self).wf(),
            final(self).height() == old(self).height(),
            final(self).width() == old(self).width(),
            final(self)@ == column_shifted_down(old(self)@, col as int, shuffle as int, default),
    {
        if shuffle == 0 {
            return;
        }
        self.shift_line_to_end(true, col, shuffle, default);
    }

    /// Moves column `col` by `shuffle` places up. What is pushed out at the
    /// top is lost, and the places that become free at the bottom get
    /// `default`. A shift by no places changes nothing.
    pub fn col_shift_up(&mut self, col: usize, shuffle: usize, default: char)
        requires
            old(self).wf(),
            shuffle != 0 ==> col < old(self).width(),
        ensures
            final(self).wf(),
            final(self).height() == old(self).height(),
            final(self).width() == old(self).width(),
            final(self)@ == column_shifted_up(old(self)@, col as int, shuffle as int, default),
    {
        if shuffle == 0 {
            return;
        }
        self.shift_line_to_start(true, col, shuffle, default);
    }

    /// Turns row `row` by `shuffle` places to the left: what leaves at the
    /// left end comes back in at the right end. A turn by a multiple of the
    /// number of columns changes nothing.
    pub fn row_rotate_left(&mut self, row: usize, shuffle: usize)
        requires
            old(self).wf(),
            shuffle as int % old(self).width() != 0 ==> row < old(self).height(),
        ensures
            final(self).wf(),
            final(self).height() == old(self).height(),
            final(self).width() == old(self).width(),
            final(self)@ == row_rotated_left(old(self)@, row as int, shuffle as int),
    {
        if shuffle % self.cols() == 0 {
            return;
        }
        self.rotate_line_to_start(false, row, shuffle);
    }

    /// Turns row `row` by `shuffle` places to the right: what leaves at the
    /// right end comes back in at the left end. A turn by a multiple of the
    /// number of columns changes nothing.
    pub fn row_rotate_right(&mut self, row: usize, shuffle: usize)
        requires
            old(self).wf(),
            shuffle as int % old(self).width() != 0 ==> row < old(self).height(),
        ensures
            final(self).wf(),
            final(self).height() == old(self).height(),
            final(self).width() == old(self).width(),
            final(self)@ == row_rotated_right(old(self)@, row as int, shuffle as int),
    {
        if shuffle % self.cols() == 0 {
            return;
        }
        self.rotate_line_to_end(false, row, shuffle);
    }

    /// Turns column `col` by `shuffle` places down: what leaves at the
    /// bottom comes back in at the top. A turn by a multiple of the number
    /// of rows changes nothing.
    pub fn col_rotate_down(&mut self, col: usize, shuffle: usize)
        requires
            old(self).wf(),
            shuffle as int % old(self).height() != 0 ==> col < old(self).width(),
        ensures
            final(self).wf(),
            final(self).height() == old(self).height(),
            final(self).width() == old(self).width(),
            final(self)@ == column_rotated_down(old(self)@, col as int, shuffle as int),
    {
        if shuffle % self.rows() == 0 {
            return;
        }
        self.rotate_line_to_end(true, col, shuffle);
    }

    /// Turns column `col` by `shuffle` places up: what leaves at the top
    /// comes back in at the bottom. A turn by a multiple of the number of
    /// rows changes nothing.
    pub fn col_rotate_up(&mut self, col: usize, shuffle: usize)
        requires
            old(self).wf(),
            shuffle as int % old(self).height() != 0 ==> col < old(self).width(),
        ensures
            final(self).wf(),
            final(self).height() == old(self).height(),
            final(self).width() == old(self).width(),
            final(self)@ == column_rotated_up(old(self)@, col as int, shuffle as int),
    {
        if shuffle % self.rows() == 0 {
            return;
        }
        self.rotate_line_to_start(true, col, shuffle);
    }

    /// Shifts row `line`, or column `line` if `vertical`, towards its start.
    /// The places are taken in rising order: each one changes its character
    /// with the place `shuffle` further on, which nothing has touched yet, and
    /// the last `shuffle` places get `default`.
    fn shift_line_to_start(&mut self, vertical: bool, line: usize, shuffle: usize, default: char)
        requires
            old(self).wf(),
            line < line_count(old(self)@, vertical),
        ensures
            final(self).wf(),
            final(self).height() == old(self).height(),
            final(self).width() == old(self).width(),
            final(self)@ == with_line(
                old(self)@,
                vertical,
                line as int,
                shifted_left(line_of(old(self)@, vertical, line as int), shuffle as int, default),
            ),
    {
        let length = self.length_along(vertical);
        let staying = length.saturating_sub(shuffle);
        let ghost start = line_of(self@, vertical, line as int);
        proof {
            lemma_with_line(self@, vertical, line as int, start, start);
        }
        let mut i: usize = 0;
        while i < length
            invariant
                self.wf(),
                old(self).wf(),
                line < line_count(old(self)@, vertical),
                self@.len() == old(self)@.len(),
                self@[0].len() == old(self)@[0].len(),
                length == line_length(old(self)@, vertical),
                staying == if shuffle >= length {
                    0
                } else {
                    length - shuffle
                },
                start == line_of(old(self)@, vertical, line as int),
                start.len() == length,
                i <= length,
                line_of(self@, vertical, line as int).len() == length,
                self@ == with_line(
                    old(self)@,
                    vertical,
                    line as int,
                    line_of(self@, vertical, line as int),
                ),
                forall|k: int|
                    0 <= k < i ==> #[trigger] line_of(self@, vertical, line as int)[k]
                        == shifted_left(start, shuffle as int, default)[k],
                forall|k: int|
                    i + shuffle <= k < length ==> #[trigger] line_of(self@, vertical, line as int)[k]
                        == start[k],
            decreases length - i,
        {
            let ghost before = line_of(self@, vertical, line as int);
            if i < staying {
                let arriving = self.peek(vertical, line, i + shuffle);
                let leaving = self.peek(vertical, line, i);
                self.poke(vertical, line, i, arriving);
                let ghost between = line_of(self@, vertical, line as int);
                proof {
                    lemma_with_line(old(self)@, vertical, line as int, before, between);
                }
                self.poke(vertical, line, i + shuffle, leaving);
                proof {
                    lemma_with_line(
                        old(self)@,
                        vertical,
                        line as int,
                        between,
                        line_of(self@, vertical, line as int),
                    );
                }
            } else {
                self.poke(vertical, line, i, default);
                proof {
                    lemma_with_line(
                        old(self)@,
                        vertical,
                        line as int,
                        before,
                        line_of(self@, vertical, line as int),
                    );
                }
            }
            i = i + 1;
        }
        assert(line_of(self@, vertical, line as int) =~= shifted_left(
            start,
            shuffle as int,
            default,
        ));
    }

    /// Shifts row `line`, or column `line` if `vertical`, towards its end.
    /// The places are taken in falling order: the last `shuffle` places get
    /// `default`, and each place before them changes its character with the
    /// place `shuffle` further on, which holds `default` by then.
    fn shift_line_to_end(&mut self, vertical: bool, line: usize, shuffle: usize, default: char)
        requires
            old(self).wf(),
            line < line_count(old(self)@, vertical),
        ensures
            final(self).wf(),
            final(self).height() == old(self).height(),
            final(self).width() == old(self).width(),
            final(self)@ == with_line(
                old(self)@,
                vertical,
                line as int,
                shifted_right(line_of(old(self)@, vertical, line as int), shuffle as int, default),
            ),
    {
        let length = self.length_along(vertical);
        let staying = length.saturating_sub(shuffle);
        let ghost start = line_of(self@, vertical, line as int);
        proof {
            lemma_with_line(self@, vertical, line as int, start, start);
        }
        let mut i: usize = length;
        while i > 0
            invariant
                self.wf(),
                old(self).wf(),
                line < line_count(old(self)@, vertical),
                self@.len() == old(self)@.len(),
                self@[0].len() == old(self)@[0].len(),
                length == line_length(old(self)@, vertical),
                staying == if shuffle >= length {
                    0
                } else {
                    length - shuffle
                },
                start == line_of(old(self)@, vertical, line as int),
                start.len() == length,
                i <= length,
                line_of(self@, vertical, line as int).len() == length,
                self@ == with_line(
                    old(self)@,
                    vertical,
                    line as int,
                    line_of(self@, vertical, line as int),
                ),
                forall|k: int|
                    0 <= k < i ==> #[trigger] line_of(self@, vertical, line as int)[k] == start[k],
                forall|k: int|
                    i <= k < length ==> #[trigger] line_of(self@, vertical, line as int)[k] == (if k
                        - shuffle >= i {
                        start[k - shuffle]
                    } else {
                        default
                    }),
            decreases i,
        {
            i = i - 1;
            let ghost before = line_of(self@, vertical, line as int);
            if i < staying {
                let filling = self.peek(vertical, line, i + shuffle);
                let leaving = self.peek(vertical, line, i);
                self.poke(vertical, line, i, filling);
                let ghost between = line_of(self@, vertical, line as int);
                proof {
                    lemma_with_line(old(self)@, vertical, line as int, before, between);
                }
                self.poke(vertical, line, i + shuffle, leaving);
                proof {
                    lemma_with_line(
                        old(self)@,
                        vertical,
                        line as int,
                        between,
                        line_of(self@, vertical, line as int),
                    );
                }
            } else {
                self.poke(vertical, line, i, default);
                proof {
                    lemma_with_line(
                        old(self)@,
                        vertical,
                        line as int,
                        before,
                        line_of(self@, vertical, line as int),
                    );
                }
            }
        }
        assert(line_of(self@, vertical, line as int) =~= shifted_right(
            start,
            shuffle as int,
            default,
        ));
    }

    /// Turns row `line`, or column `line` if `vertical`, towards its start.
    /// Each place of a buffer as long as the line gets the character that
    /// belongs there, and then the buffer is copied back over the line.
    fn rotate_line_to_start(&mut self, vertical: bool, line: usize, shuffle: usize)
        requires
            old(self).wf(),
            line < line_count(old(self)@, vertical),
        ensures
            final(self).wf(),
            final(self).height() == old(self).height(),
            final(self).width() == old(self).width(),
            final(self)@ == with_line(
                old(self)@,
                vertical,
                line as int,
                rotated_left(line_of(old(self)@, vertical, line as int), shuffle as int),
            ),
    {
        let length = self.length_along(vertical);
        let ghost start = line_of(self@, vertical, line as int);
        proof {
            lemma_with_line(self@, vertical, line as int, start, start);
        }
        let mut rotated: Vec<char> = vec![' '; length];
        let mut place: usize = 0;
        while place < length
            invariant
                self.wf(),
                line < line_count(self@, vertical),
                length == line_length(self@, vertical),
                start == line_of(self@, vertical, line as int),
                start.len() == length,
                rotated@.len() == length,
                place <= length,
                forall|k: int|
                    0 <= k < place ==> #[trigger] rotated@[k] == rotated_left(
                        start,
                        shuffle as int,
                    )[k],
            decreases length - place,
        {
            let source = place_ahead(place, shuffle, length);
            rotated[place] = self.peek(vertical, line, source);
            place = place + 1;
        }
        assert(rotated@ =~= rotated_left(start, shuffle as int));
        self.overwrite_line(vertical, line, &rotated);
    }

    /// Turns row `line`, or column `line` if `vertical`, towards its end.
    /// Each character of the line goes to the place of a buffer where it
    /// belongs, and then the buffer is copied back over the line.
    fn rotate_line_to_end(&mut self, vertical: bool, line: usize, shuffle: usize)
        requires
            old(self).wf(),
            line < line_count(old(self)@, vertical),
        ensures
            final(self).wf(),
            final(self).height() == old(self).height(),
            final(self).width() == old(self).width(),
            final(self)@ == with_line(
                old(self)@,
                vertical,
                line as int,
                rotated_right(line_of(old(self)@, vertical, line as int), shuffle as int),
            ),
    {
        let length = self.length_along(vertical);
        let ghost start = line_of(self@, vertical, line as int);
        proof {
            lemma_with_line(self@, vertical, line as int, start, start);
        }
        let mut rotated: Vec<char> = vec![' '; length];
        let mut place: usize = 0;
        while place < length
            invariant
                self.wf(),
                line < line_count(self@, vertical),
                length == line_length(self@, vertical),
                start == line_of(self@, vertical, line as int),
                start.len() == length,
                rotated@.len() == length,
                place <= length,
                forall|k: int|
                    0 <= k < place ==> rotated@[(k + shuffle) % (length as int)]
                        == #[trigger] start[k],
            decreases length - place,
        {
            let target = place_ahead(place, shuffle, length);
            let ghost before = rotated@;
            rotated[target] = self.peek(vertical, line, place);
            proof {
                assert forall|k: int| 0 <= k < place + 1 implies rotated@[(k + shuffle) % (
                length as int)] == #[trigger] start[k] by {
                    lemma_ring_round_trip(k, shuffle as int, length as int);
                    lemma_ring_round_trip(place as int, shuffle as int, length as int);
                    if k < place {
                        assert(before[(k + shuffle) % (length as int)] == start[k]);
                    }
                }
            }
            place = place + 1;
        }
        proof {
            let turned = rotated_right(start, shuffle as int);
            assert forall|k: int| 0 <= k < length implies rotated@[k] == turned[k] by {
                lemma_ring_round_trip(k, shuffle as int, length as int);
                let from = (k - shuffle) % (length as int);
                assert(rotated@[(from + shuffle) % (length as int)] == start[from]);
            }
            assert(rotated@ =~= turned);
        }
        self.overwrite_line(vertical, line, &rotated);
    }

    /// Copies `content` over row `line`, or over column `line` if
    /// `vertical`.
    fn overwrite_line(&mut self, vertical: bool, line: usize, content: &Vec<char>)
        requires
            old(self).wf(),
            line < line_count(old(self)@, vertical),
            content@.len() == line_length(old(self)@, vertical),
        ensures
            final(self).wf(),
            final(self).height() == old(self).height(),
            final(self).width() == old(self).width(),
            final(self)@ == with_line(old(self)@, vertical, line as int, content@),
    {
        let length = self.length_along(vertical);
        proof {
            let start = line_of(self@, vertical, line as int);
            lemma_with_line(self@, vertical, line as int, start, start);
        }
        let mut place: usize = 0;
        while place < length
            invariant
                self.wf(),
                old(self).wf(),
                line < line_count(old(self)@, vertical),
                self@.len() == old(self)@.len(),
                self@[0].len() == old(self)@[0].len(),
                length == line_length(old(self)@, vertical),
                content@.len() == length,
                place <= length,
                line_of(self@, vertical, line as int).len() == length,
                self@ == with_line(
                    old(self)@,
                    vertical,
                    line as int,
                    line_of(self@, vertical, line as int),
                ),
                forall|k: int|
                    0 <= k < place ==> #[trigger] line_of(self@, vertical, line as int)[k]
                        == content@[k],
            decreases length - place,
        {
            let ghost before = line_of(self@, vertical, line as int);
            self.poke(vertical, line, place, content[place]);
            proof {
                lemma_with_line(
                    old(self)@,
                    vertical,
                    line as int,
                    before,
                    line_of(self@, vertical, line as int),
                );
            }
            place = place + 1;
        }
        assert(line_of(self@, vertical, line as int) =~= content@);
    }
}

/// Turning a row left and then right by the same amount, or right and then
/// left, restores every cell of the grid.
pub proof fn lemma_row_rotations_cancel(cells: Seq<Seq<char>>, row: int, shuffle: int)
    requires
        rectangular(cells),
        0 <= row < cells.len(),
    ensures
        row_rotated_right(row_rotated_left(cells, row, shuffle), row, shuffle) == cells,
        row_rotated_left(row_rotated_right(cells, row, shuffle), row, shuffle) == cells,
{
    lemma_line_rotations_cancel(cells, false, row, shuffle);
    let width = cells[0].len() as int;
    if shuffle % width != 0 {
        let left = with_line(cells, false, row, rotated_left(line_of(cells, false, row), shuffle));
        let right = with_line(
            cells,
            false,
            row,
            rotated_right(line_of(cells, false, row), shuffle),
        );
        assert(row_rotated_left(cells, row, shuffle) == left);
        assert(row_rotated_right(cells, row, shuffle) == right);
        assert(row_rotated_right(left, row, shuffle) == with_line(
            left,
            false,
            row,
            rotated_right(line_of(left, false, row), shuffle),
        ));
        assert(row_rotated_left(right, row, shuffle) == with_line(
            right,
            false,
            row,
            rotated_left(line_of(right, false, row), shuffle),
        ));
    }
}

/// Turning a column up and then down by the same amount, or down and then
/// up, restores every cell of the grid.
pub proof fn lemma_column_rotations_cancel(cells: Seq<Seq<char>>, col: int, shuffle: int)
    requires
        rectangular(cells),
        0 <= col < cells[0].len(),
    ensures
        column_rotated_down(column_rotated_up(cells, col, shuffle), col, shuffle) == cells,
        column_rotated_up(column_rotated_down(cells, col, shuffle), col, shuffle) == cells,
{
    lemma_line_rotations_cancel(cells, true, col, shuffle);
    let height = cells.len() as int;
    if shuffle % height != 0 {
        let up = with_line(cells, true, col, rotated_left(line_of(cells, true, col), shuffle));
        let down = with_line(cells, true, col, rotated_right(line_of(cells, true, col), shuffle));
        assert(column_rotated_up(cells, col, shuffle) == up);
        assert(column_rotated_down(cells, col, shuffle) == down);
        assert(column_rotated_down(up, col, shuffle) == with_line(
            up,
            true,
            col,
            rotated_right(line_of(up, true, col), shuffle),
        ));
        assert(column_rotated_up(down, col, shuffle) == with_line(
            down,
            true,
            col,
            rotated_left(line_of(down, true, col), shuffle),
        ));
    }
}

/// Putting a turned line in place of a line and then the line turned back in
/// place of that one restores the cells.
proof fn lemma_line_rotations_cancel(cells: Seq<Seq<char>>, vertical: bool, line: int, shuffle: int)
    requires
        rectangular(cells),
        0 <= line < line_count(cells, vertical),
    ensures
        ({
            let turned = with_line(
                cells,
                vertical,
                line,
                rotated_left(line_of(cells, vertical, line), shuffle),
            );
            &&& turned.len() == cells.len()
            &&& turned[0].len() == cells[0].len()
            &&& with_line(
                turned,
                vertical,
                line,
                rotated_right(line_of(turned, vertical, line), shuffle),
            ) == cells
        }),
        ({
            let turned = with_line(
                cells,
                vertical,
                line,
                rotated_right(line_of(cells, vertical, line), shuffle),
            );
            &&& turned.len() == cells.len()
            &&& turned[0].len() == cells[0].len()
            &&& with_line(
                turned,
                vertical,
                line,
                rotated_left(line_of(turned, vertical, line), shuffle),
            ) == cells
        }),
{
    let content = line_of(cells, vertical, line);
    assert(content.len() == line_length(cells, vertical)) by {
        if !vertical {
            assert(cells[line].len() == cells[0].len());
        }
    }
    let left = rotated_left(content, shuffle);
    let right = rotated_right(content, shuffle);
    assert(left.len() == content.len());
    assert(right.len() == content.len());
    lemma_rotate_left_then_right(content, shuffle);
    lemma_rotate_right_then_left(content, shuffle);
    lemma_with_line(cells, vertical, line, left, content);
    lemma_with_line(cells, vertical, line, right, content);
}

/// A turn by a multiple of the length of the line is the identity, whatever
/// the line and the side, and so is a shift by no places.
pub proof fn lemma_idle_moves(cells: Seq<Seq<char>>, line: int, shuffle: int, default: char)
    requires
        rectangular(cells),
    ensures
        shuffle % (cells[0].len() as int) == 0 ==> row_rotated_left(cells, line, shuffle) == cells
            && row_rotated_right(cells, line, shuffle) == cells,
        shuffle % (cells.len() as int) == 0 ==> column_rotated_up(cells, line, shuffle) == cells
            && column_rotated_down(cells, line, shuffle) == cells,
        row_shifted_left(cells, line, 0, default) == cells,
        row_shifted_right(cells, line, 0, default) == cells,
        column_shifted_up(cells, line, 0, default) == cells,
        column_shifted_down(cells, line, 0, default) == cells,
{
}

} // verus!
