use puzzler::grids::direction::Direction;
use puzzler::grids::point::Point;

#[test]
fn point_test_neighbor() {
    let point = Point { x: 5, y: 3 };

    assert_eq!(point.neighbor(&Direction::North), Point { x: 5, y: 2 });
    assert_eq!(point.neighbor(&Direction::NorthEast), Point { x: 6, y: 2 });
    assert_eq!(point.neighbor(&Direction::East), Point { x: 6, y: 3 });
    assert_eq!(point.neighbor(&Direction::SouthEast), Point { x: 6, y: 4 });
    assert_eq!(point.neighbor(&Direction::South), Point { x: 5, y: 4 });
    assert_eq!(point.neighbor(&Direction::SouthWest), Point { x: 4, y: 4 });
    assert_eq!(point.neighbor(&Direction::West), Point { x: 4, y: 3 });
    assert_eq!(point.neighbor(&Direction::NorthWest), Point { x: 4, y: 2 });
}

#[test]
fn test_neighbor_at() {
    let point = Point { x: 5, y: 3 };

    assert_eq!(
        point.neighbor_at(&Direction::North, 7),
        Point { x: 5, y: -4 }
    );
    assert_eq!(
        point.neighbor_at(&Direction::NorthEast, 7),
        Point { x: 12, y: -4 }
    );
    assert_eq!(
        point.neighbor_at(&Direction::East, 7),
        Point { x: 12, y: 3 }
    );
    assert_eq!(
        point.neighbor_at(&Direction::SouthEast, 7),
        Point { x: 12, y: 10 }
    );
    assert_eq!(
        point.neighbor_at(&Direction::South, 7),
        Point { x: 5, y: 10 }
    );
    assert_eq!(
        point.neighbor_at(&Direction::SouthWest, 7),
        Point { x: -2, y: 10 }
    );
    assert_eq!(
        point.neighbor_at(&Direction::West, 7),
        Point { x: -2, y: 3 }
    );
    assert_eq!(
        point.neighbor_at(&Direction::NorthWest, 7),
        Point { x: -2, y: -4 }
    );
}

#[test]
fn test_neighbor_at_path() {
    let point = Point { x: 5, y: 3 };

    assert_eq!(
        point.neighbor_at_path(&Direction::North, 7),
        vec![
            Point { x: 5, y: 2 },
            Point { x: 5, y: 1 },
            Point { x: 5, y: 0 },
            Point { x: 5, y: -1 },
            Point { x: 5, y: -2 },
            Point { x: 5, y: -3 },
            Point { x: 5, y: -4 }
        ]
    );
    assert_eq!(
        point.neighbor_at_path(&Direction::East, 7),
        vec![
            Point { x: 6, y: 3 },
            Point { x: 7, y: 3 },
            Point { x: 8, y: 3 },
            Point { x: 9, y: 3 },
            Point { x: 10, y: 3 },
            Point { x: 11, y: 3 },
            Point { x: 12, y: 3 },
        ]
    );
    assert_eq!(
        point.neighbor_at_path(&Direction::South, 7),
        vec![
            Point { x: 5, y: 4 },
            Point { x: 5, y: 5 },
            Point { x: 5, y: 6 },
            Point { x: 5, y: 7 },
            Point { x: 5, y: 8 },
            Point { x: 5, y: 9 },
            Point { x: 5, y: 10 },
        ]
    );
    assert_eq!(
        point.neighbor_at_path(&Direction::West, 7),
        vec![
            Point { x: 4, y: 3 },
            Point { x: 3, y: 3 },
            Point { x: 2, y: 3 },
            Point { x: 1, y: 3 },
            Point { x: 0, y: 3 },
            Point { x: -1, y: 3 },
            Point { x: -2, y: 3 },
        ]
    );
}

#[test]
fn new_keeps_both_coordinates() {
    assert_eq!(Point::new(-7, 9), Point { x: -7, y: 9 });
}

#[test]
fn neighbor_at_with_no_or_negative_distance() {
    let point = Point { x: 5, y: 3 };

    assert_eq!(point.neighbor_at(&Direction::East, 0), point);
    assert_eq!(
        point.neighbor_at(&Direction::East, -2),
        point.neighbor_at(&Direction::West, 2)
    );
    assert_eq!(
        point.neighbor_at(&Direction::SouthWest, -3),
        Point { x: 8, y: 0 }
    );
}

#[test]
fn neighbor_is_neighbor_at_one_step() {
    let point = Point { x: -1, y: 0 };

    for direction in Direction::ALL {
        assert_eq!(point.neighbor(&direction), point.neighbor_at(&direction, 1));
    }
}

#[test]
fn path_of_no_steps_is_empty() {
    let point = Point { x: 5, y: 3 };

    for direction in Direction::CARDINAL {
        assert_eq!(point.neighbor_at_path(&direction, 0), Vec::<Point>::new());
        assert_eq!(point.neighbor_at_path(&direction, -4), Vec::<Point>::new());
    }
}

#[test]
fn path_ends_at_the_destination() {
    let point = Point { x: 2, y: -2 };

    for direction in Direction::CARDINAL {
        let path = point.neighbor_at_path(&direction, 3);
        assert_eq!(path.len(), 3);
        assert_eq!(path[0], point.neighbor(&direction));
        assert_eq!(path[2], point.neighbor_at(&direction, 3));
    }
}

#[test]
fn checked_neighbor_stops_at_the_last_integer() {
    let corner = Point {
        x: isize::MAX,
        y: isize::MIN,
    };

    assert_eq!(corner.checked_neighbor(&Direction::East), None);
    assert_eq!(corner.checked_neighbor(&Direction::North), None);
    assert_eq!(corner.checked_neighbor(&Direction::NorthEast), None);
    assert_eq!(corner.checked_neighbor(&Direction::SouthEast), None);
    assert_eq!(corner.checked_neighbor(&Direction::NorthWest), None);
    assert_eq!(
        corner.checked_neighbor(&Direction::West),
        Some(Point {
            x: isize::MAX - 1,
            y: isize::MIN
        })
    );
    assert_eq!(
        corner.checked_neighbor(&Direction::SouthWest),
        Some(Point {
            x: isize::MAX - 1,
            y: isize::MIN + 1
        })
    );
    assert_eq!(
        Point { x: 0, y: 0 }.checked_neighbor(&Direction::South),
        Some(Point { x: 0, y: 1 })
    );
}
