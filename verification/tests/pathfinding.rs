use mars_resource_ops::pathfinding::{find_path, find_path_avoiding, next_step_avoiding};
use mars_resource_ops::utils::Position;
use mars_resource_ops::world::{Tile, WorldMap};

#[test]
fn path_starts_and_ends_at_requested_positions() {
    let map = WorldMap::empty(8, 8);
    let start = Position::new(1, 1);
    let goal = Position::new(6, 5);
    let path = find_path(&map, start, goal).expect("path should exist");
    assert_eq!(path.first().copied(), Some(start));
    assert_eq!(path.last().copied(), Some(goal));
}

#[test]
fn path_avoids_obstacles() {
    let mut map = WorldMap::empty(7, 5);
    map.set(Position::new(2, 1), Tile::Obstacle);
    map.set(Position::new(2, 2), Tile::Obstacle);
    map.set(Position::new(2, 3), Tile::Obstacle);
    let path = find_path(&map, Position::new(1, 2), Position::new(5, 2)).expect("path should go around wall");
    assert!(!path.contains(&Position::new(2, 2)));
}

#[test]
fn shortest_path_has_manhattan_length_on_open_ground() {
    let map = WorldMap::empty(8, 8);
    let start = Position::new(1, 1);
    let goal = Position::new(6, 5);
    let path = find_path(&map, start, goal).unwrap();
    assert_eq!(path.len(), 10);
    for pair in path.windows(2) {
        assert_eq!(pair[0].manhattan(pair[1]), 1);
    }
}

#[test]
fn path_to_itself_and_to_walls() {
    let mut map = WorldMap::empty(5, 5);
    let p = Position::new(1, 1);
    assert_eq!(find_path(&map, p, p), Some(vec![p]));
    map.set(Position::new(3, 3), Tile::Obstacle);
    assert_eq!(find_path(&map, p, Position::new(3, 3)), None);
    assert_eq!(find_path(&map, Position::new(3, 3), p), None);
    assert_eq!(find_path(&map, p, Position::new(9, 9)), None);
}

#[test]
fn blocked_cells_are_avoided_but_not_the_goal() {
    let map = WorldMap::empty(3, 3);
    let start = Position::new(0, 1);
    let goal = Position::new(2, 1);
    let blocked = vec![Position::new(1, 0), Position::new(1, 1), Position::new(1, 2)];
    assert_eq!(find_path_avoiding(&map, start, goal, &blocked), None);
    let only_goal = vec![goal];
    let path = find_path_avoiding(&map, start, goal, &only_goal).unwrap();
    assert_eq!(path.len(), 3);
    assert_eq!(next_step_avoiding(&map, start, goal, &only_goal), Some(path[1]));
    assert_eq!(next_step_avoiding(&map, start, start, &only_goal), None);
}

#[test]
fn enclosed_goal_has_no_path() {
    let mut map = WorldMap::empty(5, 5);
    for p in [Position::new(3, 2), Position::new(4, 1), Position::new(4, 3)] {
        map.set(p, Tile::Obstacle);
    }
    assert_eq!(find_path(&map, Position::new(0, 0), Position::new(4, 2)), None);
}
