use mars_resource_ops::utils::{Direction, Position};

#[test]
fn manhattan_distance() {
    let a = Position::new(0, 0);
    let b = Position::new(3, 4);
    assert_eq!(a.manhattan(b), 7);
}

#[test]
fn neighbors_are_adjacent() {
    let p = Position::new(5, 5);
    for n in p.neighbors4() {
        assert_eq!(p.manhattan(n), 1);
    }
}

#[test]
fn neighbors_come_north_east_south_west() {
    let p = Position::new(2, 7);
    assert_eq!(
        p.neighbors4(),
        [Position::new(2, 6), Position::new(3, 7), Position::new(2, 8), Position::new(1, 7)]
    );
}

#[test]
fn manhattan_distance_of_negative_offsets() {
    let a = Position::new(-3, 4);
    let b = Position::new(2, -1);
    assert_eq!(a.manhattan(b), 10);
    assert_eq!(a.manhattan_distance(b), 10);
    assert_eq!(Position::new(i32::MIN, 0).manhattan_distance(Position::new(i32::MAX, 0)), u32::MAX as u64);
}

#[test]
fn direction_deltas() {
    assert_eq!(Direction::North.delta(), (0, -1));
    assert_eq!(Direction::East.delta(), (1, 0));
    assert_eq!(Direction::South.delta(), (0, 1));
    assert_eq!(Direction::West.delta(), (-1, 0));
    assert_eq!(Position::new(1, 1).add(Direction::West.delta()), Position::new(0, 1));
}
