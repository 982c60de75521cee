use puzzler::grids::direction::Direction;
use puzzler::grids::grid::Grid;
use puzzler::grids::grid::GridError;
use puzzler::grids::point::Point;

fn letters() -> Grid {
    Grid::new(vec![
        vec!['a', 'b', 'c', 'd'],
        vec!['e', 'f', 'g', 'h'],
        vec!['i', 'j', 'k', 'l'],
    ])
    .unwrap()
}

fn rows_of(grid: &Grid) -> Vec<String> {
    (0..grid.rows())
        .map(|row| grid.row_as_string(row).unwrap())
        .collect()
}

fn digits_row() -> Grid {
    Grid::new(vec!["0123456789".chars().collect()]).unwrap()
}

fn digits_column() -> Grid {
    Grid::new("0123456789".chars().map(|digit| vec![digit]).collect()).unwrap()
}

#[test]
fn new_keeps_the_rows_as_given() {
    let grid = letters();

    assert_eq!(grid.rows(), 3);
    assert_eq!(grid.cols(), 4);
    assert_eq!(rows_of(&grid), vec!["abcd", "efgh", "ijkl"]);
}

#[test]
fn new_refuses_an_empty_matrix_and_an_empty_first_row() {
    assert!(matches!(Grid::new(vec![]), Err(GridError::Empty)));
    assert!(matches!(
        Grid::new(vec![vec![]]),
        Err(GridError::EmptyFirstRow)
    ));
    assert!(matches!(
        Grid::new(vec![vec![], vec![]]),
        Err(GridError::EmptyFirstRow)
    ));
}

#[test]
fn new_with_hands_the_column_as_x_and_the_row_as_y() {
    let grid = Grid::new_with(2, 3, |point| {
        char::from_digit((point.y * 3 + point.x) as u32, 10).unwrap()
    })
    .unwrap();

    assert_eq!(rows_of(&grid), vec!["012", "345"]);
    assert_eq!(grid[Point { x: 2, y: 0 }], '2');
    assert_eq!(grid[Point { x: 0, y: 1 }], '3');
}

#[test]
fn new_with_refuses_a_grid_without_rows_or_columns() {
    assert!(matches!(
        Grid::new_with(0, 3, |_| '.'),
        Err(GridError::Empty)
    ));
    assert!(matches!(
        Grid::new_with(0, 0, |_| '.'),
        Err(GridError::Empty)
    ));
    assert!(matches!(
        Grid::new_with(2, 0, |_| '.'),
        Err(GridError::EmptyFirstRow)
    ));
}

#[test]
fn new_with_makes_the_smallest_grid() {
    let grid = Grid::new_with(1, 1, |_| '#').unwrap();

    assert_eq!(grid.rows(), 1);
    assert_eq!(grid.cols(), 1);
    assert_eq!(grid[Point { x: 0, y: 0 }], '#');
}

#[test]
fn clone_is_a_grid_of_its_own() {
    let grid = letters();
    let mut copy = grid.clone();

    assert!(copy == grid);
    copy[Point { x: 0, y: 0 }] = '#';
    assert!(copy != grid);
    assert_eq!(grid[Point { x: 0, y: 0 }], 'a');
    assert_eq!(copy[Point { x: 0, y: 0 }], '#');
}

#[test]
fn index_reads_and_writes_one_cell() {
    let mut grid = letters();

    grid[Point { x: 3, y: 2 }] = 'X';

    assert_eq!(grid[Point { x: 3, y: 2 }], 'X');
    assert_eq!(rows_of(&grid), vec!["abcd", "efgh", "ijkX"]);
}

#[test]
fn is_point_in_grid_at_each_edge() {
    let grid = letters();

    for y in -2..6 {
        for x in -2..7 {
            assert_eq!(
                grid.is_point_in_grid(&Point { x, y }),
                0 <= x && x < 4 && 0 <= y && y < 3,
                "x: {x}, y: {y}"
            );
        }
    }
    assert!(!grid.is_point_in_grid(&Point {
        x: isize::MAX,
        y: 0
    }));
    assert!(!grid.is_point_in_grid(&Point {
        x: 0,
        y: isize::MIN
    }));
}

#[test]
fn fill_with_one_point_changes_that_cell_only() {
    for y in 0..3 {
        for x in 0..4 {
            let before = letters();
            let mut grid = letters();

            assert_eq!(grid.fill(&[(Point { x, y }, '#')]), Ok(()));

            for other_y in 0..3 {
                for other_x in 0..4 {
                    let other = Point {
                        x: other_x,
                        y: other_y,
                    };
                    if other_x == x && other_y == y {
                        assert_eq!(grid[other], '#');
                    } else {
                        assert_eq!(grid[other], before[other]);
                    }
                }
            }
            assert_eq!(grid.rows(), 3);
            assert_eq!(grid.cols(), 4);
        }
    }
}

#[test]
fn fill_writes_in_the_order_of_the_list() {
    let mut grid = letters();

    let result = grid.fill(&[
        (Point { x: 1, y: 1 }, '1'),
        (Point { x: 2, y: 1 }, '2'),
        (Point { x: 1, y: 1 }, '3'),
    ]);

    assert_eq!(result, Ok(()));
    assert_eq!(rows_of(&grid), vec!["abcd", "e32h", "ijkl"]);
}

#[test]
fn fill_with_nothing_changes_nothing() {
    let mut grid = letters();

    assert_eq!(grid.fill(&[]), Ok(()));
    assert!(grid == letters());
}

#[test]
fn fill_with_a_point_outside_changes_nothing() {
    let outside = [
        Point { x: -1, y: 0 },
        Point { x: 0, y: -1 },
        Point { x: 4, y: 0 },
        Point { x: 0, y: 3 },
        Point { x: 42, y: 42 },
        Point {
            x: isize::MIN,
            y: isize::MAX,
        },
    ];

    for point in outside {
        for place in 0..3 {
            let mut data = vec![(Point { x: 0, y: 0 }, 'S'), (Point { x: 3, y: 2 }, 'E')];
            data.insert(place, (point, 'X'));
            let mut grid = letters();

            assert_eq!(grid.fill(&data), Err(GridError::OutOfBounds(point)));
            assert!(grid == letters());
        }
    }
}

#[test]
fn fill_reports_the_first_point_outside() {
    let mut grid = letters();

    let result = grid.fill(&[
        (Point { x: 0, y: 0 }, 'S'),
        (Point { x: 9, y: 0 }, 'X'),
        (Point { x: 0, y: 9 }, 'Y'),
    ]);

    assert_eq!(result, Err(GridError::OutOfBounds(Point { x: 9, y: 0 })));
}

#[test]
fn neighbor_is_there_just_where_the_grid_holds_the_adjacent_point() {
    let grid = letters();

    for y in -2..6 {
        for x in -2..7 {
            let point = Point { x, y };
            for direction in Direction::ALL {
                let adjacent = point.neighbor(&direction);
                let found = grid.neighbor(&point, &direction);

                assert_eq!(found.is_some(), grid.is_point_in_grid(&adjacent));
                if let Some((neighbor, towards)) = found {
                    assert_eq!(neighbor, adjacent);
                    assert_eq!(towards, direction);
                }
            }
        }
    }
}

#[test]
fn neighbor_of_a_point_at_the_last_integer_is_none() {
    let grid = letters();
    let far = Point {
        x: isize::MAX,
        y: isize::MIN,
    };

    for direction in Direction::ALL {
        assert_eq!(grid.neighbor(&far, &direction), None);
        assert_eq!(grid.neighbor_if(&far, &direction, |_, _| true), None);
    }
    assert_eq!(grid.neighbors(&far, &Direction::ALL), vec![]);
}

#[test]
fn neighbor_if_asks_only_about_a_neighbor_within_the_grid() {
    let grid = letters();
    let corner = Point { x: 0, y: 0 };

    for direction in Direction::ALL {
        let found = grid.neighbor_if(&corner, &direction, |neighbor, towards| {
            assert!(grid.is_point_in_grid(neighbor));
            assert_eq!(*towards, direction);
            grid[*neighbor] == 'f'
        });

        if direction == Direction::SouthEast {
            assert_eq!(found, Some((Point { x: 1, y: 1 }, Direction::SouthEast)));
        } else {
            assert_eq!(found, None);
        }
    }
}

#[test]
fn neighbors_keep_the_order_of_the_directions() {
    let grid = letters();
    let corner = Point { x: 3, y: 0 };

    assert_eq!(
        grid.neighbors(&corner, &Direction::ALL),
        vec![
            (Point { x: 3, y: 1 }, Direction::South),
            (Point { x: 2, y: 1 }, Direction::SouthWest),
            (Point { x: 2, y: 0 }, Direction::West),
        ]
    );
    assert_eq!(
        grid.neighbors(
            &corner,
            &[
                Direction::West,
                Direction::North,
                Direction::South,
                Direction::West
            ]
        ),
        vec![
            (Point { x: 2, y: 0 }, Direction::West),
            (Point { x: 3, y: 1 }, Direction::South),
            (Point { x: 2, y: 0 }, Direction::West),
        ]
    );
    assert_eq!(grid.neighbors(&corner, &[]), vec![]);
}

#[test]
fn neighbors_of_an_inner_point_are_all_eight() {
    let grid = letters();
    let inner = Point { x: 1, y: 1 };

    let found = grid.neighbors(&inner, &Direction::ALL);

    assert_eq!(found.len(), 8);
    for (place, direction) in Direction::ALL.iter().enumerate() {
        assert_eq!(found[place], (inner.neighbor(direction), *direction));
    }
}

#[test]
fn neighbors_if_keeps_what_the_predicate_accepts() {
    let grid = letters();
    let inner = Point { x: 1, y: 1 };

    let found = grid.neighbors_if(&inner, &Direction::ALL, |neighbor, _| {
        "aeiou".contains(grid[*neighbor])
    });

    assert_eq!(
        found,
        vec![
            (Point { x: 0, y: 2 }, Direction::SouthWest),
            (Point { x: 0, y: 1 }, Direction::West),
            (Point { x: 0, y: 0 }, Direction::NorthWest),
        ]
    );
    assert_eq!(
        grid.neighbors_if(&inner, &Direction::ALL, |_, _| false),
        vec![]
    );
    assert_eq!(
        grid.neighbors_if(&Point { x: 0, y: 0 }, &Direction::CARDINAL, |_, _| true),
        grid.neighbors(&Point { x: 0, y: 0 }, &Direction::CARDINAL)
    );
}

#[test]
fn get_value_scans_by_rows() {
    let grid = Grid::new(vec![
        vec!['#', '.', '#'],
        vec!['.', '#', '.'],
        vec!['#', '#', '#'],
    ])
    .unwrap();

    let found = grid.get_value('#');

    assert_eq!(
        found,
        vec![
            Point { x: 0, y: 0 },
            Point { x: 2, y: 0 },
            Point { x: 1, y: 1 },
            Point { x: 0, y: 2 },
            Point { x: 1, y: 2 },
            Point { x: 2, y: 2 },
        ]
    );
    for pair in found.windows(2) {
        assert!((pair[0].y, pair[0].x) < (pair[1].y, pair[1].x));
    }
    assert_eq!(grid.get_value('x'), vec![]);
}

#[test]
fn get_value_finds_every_cell_with_the_value_and_no_other() {
    let grid = letters();

    for y in 0..3 {
        for x in 0..4 {
            let point = Point { x, y };
            assert_eq!(grid.get_value(grid[point]), vec![point]);
        }
    }
}

#[test]
fn get_if_scans_by_rows() {
    let grid = letters();

    assert_eq!(
        grid.get_if(|cell| "aeiou".contains(cell)),
        vec![
            Point { x: 0, y: 0 },
            Point { x: 0, y: 1 },
            Point { x: 0, y: 2 },
        ]
    );
    assert_eq!(grid.get_if(|_| false), vec![]);
    assert_eq!(grid.get_if(|_| true).len(), 12);
    assert_eq!(grid.get_if(|_| true)[5], Point { x: 1, y: 1 });
}

#[test]
fn get_value_if_asks_the_guard_without_the_cell() {
    let grid = Grid::new(vec![vec!['#', '.', '#'], vec!['.', '#', '.']]).unwrap();

    assert_eq!(grid.get_value_if('#', || true), grid.get_value('#'));
    assert_eq!(grid.get_value_if('#', || false), vec![]);
    assert_eq!(grid.get_value_if('x', || true), vec![]);
}

#[test]
fn equals_compares_rows_and_columns() {
    let grid = letters();

    assert!(grid.equals(&["abcd", "efgh", "ijkl"]));
    assert!(!grid.equals(&["abcd", "efgh"]));
    assert!(!grid.equals(&["abcd", "efgh", "ijkl", "mnop"]));
    assert!(!grid.equals(&["abcd", "efgh", "ijk"]));
    assert!(!grid.equals(&["abcd", "efgh", "ijkL"]));
    assert!(!grid.equals(&["Abcd", "efgh", "ijkl"]));
    assert!(!grid.equals(&[]));
}

#[test]
fn equals_reads_each_byte_as_one_character() {
    let accent = Grid::new(vec![vec!['é']]).unwrap();
    let two_bytes = Grid::new(vec![vec!['\u{c3}', '\u{a9}']]).unwrap();

    assert!(!accent.equals(&["é"]));
    assert!(two_bytes.equals(&["é"]));
}

#[test]
fn row_and_column_as_string() {
    let grid = letters();

    assert_eq!(grid.row_as_string(2), Some("ijkl".to_string()));
    assert_eq!(grid.row_as_string(3), None);
    assert_eq!(grid.row_as_string(usize::MAX), None);
    assert_eq!(grid.col_as_string(3), Some("dhl".to_string()));
    assert_eq!(grid.col_as_string(4), None);
    assert_eq!(grid.col_as_string(usize::MAX), None);
}

#[test]
fn render_gives_one_line_for_each_row() {
    let grid = letters();

    assert_eq!(grid.render(), vec!["abcd", "efgh", "ijkl"]);
}

#[test]
fn render_with_visited_marks_the_visited_cells() {
    let grid = letters();

    assert_eq!(
        grid.render_with_visited(&[
            Point { x: 0, y: 0 },
            Point { x: 3, y: 1 },
            Point { x: 3, y: 1 },
            Point { x: 9, y: 9 },
            Point { x: -1, y: 2 },
        ]),
        vec!["Obcd", "efgO", "ijkl"]
    );
    assert_eq!(grid.render_with_visited(&[]), grid.render());
}

#[test]
fn rotation_scenario() {
    let mut grid = digits_row();

    grid.row_rotate_left(0, 1);
    assert_eq!(grid.row_as_string(0), Some("1234567890".to_string()));

    // 42 places are 2 places on a row of 10, counted from where the row is.
    grid.row_rotate_left(0, 42);
    assert_eq!(grid.row_as_string(0), Some("3456789012".to_string()));

    let mut grid = digits_row();
    grid.row_rotate_left(0, 42);
    assert_eq!(grid.row_as_string(0), Some("2345678901".to_string()));
}

#[test]
fn shift_scenario() {
    let mut grid = digits_row();

    grid.row_shift_left(0, 1, '_');
    assert_eq!(grid.row_as_string(0), Some("123456789_".to_string()));

    grid.row_shift_left(0, 2, '_');
    assert_eq!(grid.row_as_string(0), Some("3456789___".to_string()));
}

#[test]
fn rotations_to_both_sides_cancel() {
    for shuffle in [1, 2, 3, 4, 5, 7, 11, 13, 42, usize::MAX, usize::MAX - 1] {
        for row in 0..3 {
            let mut grid = letters();
            grid.row_rotate_left(row, shuffle);
            grid.row_rotate_right(row, shuffle);
            assert!(grid == letters());

            grid.row_rotate_right(row, shuffle);
            grid.row_rotate_left(row, shuffle);
            assert!(grid == letters());
        }
        for col in 0..4 {
            let mut grid = letters();
            grid.col_rotate_up(col, shuffle);
            grid.col_rotate_down(col, shuffle);
            assert!(grid == letters());

            grid.col_rotate_down(col, shuffle);
            grid.col_rotate_up(col, shuffle);
            assert!(grid == letters());
        }
    }
}

#[test]
fn rotation_by_a_multiple_of_the_length_changes_nothing() {
    for times in 0..4 {
        let mut grid = letters();

        grid.row_rotate_left(1, 4 * times);
        grid.row_rotate_right(1, 4 * times);
        grid.col_rotate_up(1, 3 * times);
        grid.col_rotate_down(1, 3 * times);

        assert!(grid == letters());
    }
}

#[test]
fn rotation_by_a_multiple_of_the_length_asks_for_no_such_line() {
    let mut grid = letters();

    grid.row_rotate_left(99, 8);
    grid.row_rotate_right(99, 0);
    grid.col_rotate_up(99, 3);
    grid.col_rotate_down(99, 0);

    assert!(grid == letters());
}

#[test]
fn rotation_moves_one_line_only() {
    let mut grid = letters();

    grid.row_rotate_left(1, 1);
    assert_eq!(rows_of(&grid), vec!["abcd", "fghe", "ijkl"]);

    grid.row_rotate_right(2, 5);
    assert_eq!(rows_of(&grid), vec!["abcd", "fghe", "lijk"]);

    grid.col_rotate_up(0, 1);
    assert_eq!(rows_of(&grid), vec!["fbcd", "lghe", "aijk"]);

    grid.col_rotate_down(3, 2);
    assert_eq!(rows_of(&grid), vec!["fbce", "lghk", "aijd"]);
}

#[test]
fn rotation_by_more_than_the_machine_can_add() {
    let mut grid = digits_row();

    // usize::MAX is 5 more than a multiple of 10 both where it has 32 and
    // where it has 64 bits.
    grid.row_rotate_left(0, usize::MAX);
    assert_eq!(grid.row_as_string(0), Some("5678901234".to_string()));

    let mut grid = digits_column();
    grid.col_rotate_down(0, usize::MAX);
    assert_eq!(grid.col_as_string(0), Some("5678901234".to_string()));
}

#[test]
fn rotation_loses_no_character() {
    for shuffle in 0..25 {
        let mut grid = digits_row();
        grid.row_rotate_right(0, shuffle);

        let mut characters: Vec<char> = grid.row_as_string(0).unwrap().chars().collect();
        characters.sort();
        assert_eq!(characters, "0123456789".chars().collect::<Vec<char>>());
    }
}

#[test]
fn shift_by_no_places_asks_for_no_such_line() {
    let mut grid = letters();

    grid.row_shift_left(99, 0, '_');
    grid.row_shift_right(99, 0, '_');
    grid.col_shift_up(99, 0, '_');
    grid.col_shift_down(99, 0, '_');

    assert!(grid == letters());
}

#[test]
fn shift_moves_one_line_only() {
    let mut grid = letters();

    grid.row_shift_left(0, 1, '_');
    assert_eq!(rows_of(&grid), vec!["bcd_", "efgh", "ijkl"]);

    grid.row_shift_right(2, 3, '-');
    assert_eq!(rows_of(&grid), vec!["bcd_", "efgh", "---i"]);

    grid.col_shift_up(1, 1, '^');
    assert_eq!(rows_of(&grid), vec!["bfd_", "e-gh", "-^-i"]);

    grid.col_shift_down(3, 2, 'v');
    assert_eq!(rows_of(&grid), vec!["bfdv", "e-gv", "-^-_"]);
}

#[test]
fn shift_by_the_length_or_more_leaves_the_default_only() {
    for shuffle in [10, 11, 42, usize::MAX - 9, usize::MAX] {
        let mut grid = digits_row();
        grid.row_shift_left(0, shuffle, '_');
        assert_eq!(grid.row_as_string(0), Some("__________".to_string()));

        let mut grid = digits_row();
        grid.row_shift_right(0, shuffle, '_');
        assert_eq!(grid.row_as_string(0), Some("__________".to_string()));

        let mut grid = digits_column();
        grid.col_shift_up(0, shuffle, '_');
        assert_eq!(grid.col_as_string(0), Some("__________".to_string()));

        let mut grid = digits_column();
        grid.col_shift_down(0, shuffle, '_');
        assert_eq!(grid.col_as_string(0), Some("__________".to_string()));
    }
}

#[test]
fn shift_by_one_less_than_the_length_keeps_one_character() {
    let mut grid = digits_row();
    grid.row_shift_left(0, 9, '_');
    assert_eq!(grid.row_as_string(0), Some("9_________".to_string()));

    let mut grid = digits_row();
    grid.row_shift_right(0, 9, '_');
    assert_eq!(grid.row_as_string(0), Some("_________0".to_string()));
}

#[test]
fn shifts_to_the_same_side_add_up() {
    for first in 0..12 {
        for second in 0..12 {
            let mut twice = digits_row();
            twice.row_shift_left(0, first, '_');
            twice.row_shift_left(0, second, '_');
            let mut once = digits_row();
            once.row_shift_left(0, first + second, '_');
            assert!(twice == once);

            let mut twice = digits_column();
            twice.col_shift_down(0, first, '_');
            twice.col_shift_down(0, second, '_');
            let mut once = digits_column();
            once.col_shift_down(0, first + second, '_');
            assert!(twice == once);
        }
    }
}

#[test]
fn shift_cannot_be_undone() {
    let mut grid = digits_row();

    grid.row_shift_left(0, 3, '_');
    grid.row_shift_right(0, 3, '_');

    assert_eq!(grid.row_as_string(0), Some("___3456789".to_string()));
}
