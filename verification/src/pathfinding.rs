//! A* navigation on the grid.
//!
//! Collectors use this module to compute a path towards a known resource or
//! back to the base. The search itself is the `astar` function of the
//! `pathfinding` crate; the search graph it explores is defined here.

use vstd::prelude::*;

use ::pathfinding::prelude::astar;

use crate::utils::{adjacent, has_neighbors, manhattan_spec, neighbors_spec, Position};
use crate::world::map::{MapModel, WorldMap};

verus! {

/// Whether the search may step from `a` to `b`: `b` is a walkable cardinal
/// neighbour of the in-bounds cell `a`, and `b` is the goal or not blocked.
pub open spec fn step_allowed(
    m: MapModel,
    goal: Position,
    blocked: Set<Position>,
    a: Position,
    b: Position,
) -> bool {
    &&& m.in_bounds(a)
    &&& adjacent(a, b)
    &&& m.walkable(b)
    &&& (b == goal || !blocked.contains(b))
}

/// `path` leads from `start` to `goal` through walkable cells, one cardinal
/// step at a time, never entering a blocked cell other than the goal.
pub open spec fn is_route(
    m: MapModel,
    start: Position,
    goal: Position,
    blocked: Set<Position>,
    path: Seq<Position>,
) -> bool {
    &&& path.len() >= 1
    &&& path[0] == start
    &&& path.last() == goal
    &&& m.walkable(start)
    &&& forall|i: int|
        0 <= i < path.len() - 1 ==> step_allowed(m, goal, blocked, #[trigger] path[i], path[i + 1])
}

/// `path` is a route and no route is shorter.
pub open spec fn is_shortest_route(
    m: MapModel,
    start: Position,
    goal: Position,
    blocked: Set<Position>,
    path: Seq<Position>,
) -> bool {
    &&& is_route(m, start, goal, blocked, path)
    &&& forall|other: Seq<Position>|
        #[trigger] is_route(m, start, goal, blocked, other) ==> path.len() <= other.len()
}

/// The path that `pathfinding::astar` returns for this map, start, goal and
/// blocked cells, with the successors, heuristic and success test of this
/// module; `None` when it finds none.
pub uninterp spec fn astar_search(
    m: MapModel,
    start: Position,
    goal: Position,
    blocked: Set<Position>,
) -> Option<Seq<Position>>;

/// The route that `find_path_avoiding` returns.
pub open spec fn route_spec(
    m: MapModel,
    start: Position,
    goal: Position,
    blocked: Set<Position>,
) -> Option<Seq<Position>> {
    if !m.walkable(start) || !m.walkable(goal) {
        None
    } else if start == goal {
        Some(seq![start])
    } else {
        astar_search(m, start, goal, blocked)
    }
}

/// The cell after `start` on the route, if the route has one.
pub open spec fn next_step_spec(
    m: MapModel,
    start: Position,
    goal: Position,
    blocked: Set<Position>,
) -> Option<Position> {
    match route_spec(m, start, goal, blocked) {
        Some(path) => if path.len() > 1 {
            Some(path[1])
        } else {
            None
        },
        None => None,
    }
}

/// True if `p` occurs in `positions`.
pub fn contains_position(positions: &Vec<Position>, p: Position) -> (b: bool)
    ensures
        b == positions@.contains(p),
{
    let mut i: usize = 0;
    while i < positions.len()
        invariant
            i <= positions.len(),
            forall|k: int| 0 <= k < i ==> positions@[k] != p,
        decreases positions.len() - i,
    {
        if positions[i] == p {
            return true;
        }
        i = i + 1;
    }
    false
}

/// The successors the search explores from `p`, each at cost 1.
pub fn search_successors(
    map: &WorldMap,
    p: Position,
    goal: Position,
    blocked: &Vec<Position>,
) -> (succ: Vec<(Position, u32)>)
    requires
        map@.wf(),
    ensures
        forall|k: int|
            0 <= k < succ.len() ==> (#[trigger] succ@[k]).1 == 1 && step_allowed(
                map@,
                goal,
                blocked@.to_set(),
                p,
                succ@[k].0,
            ),
        forall|q: Position|
            step_allowed(map@, goal, blocked@.to_set(), p, q) ==> exists|k: int|
                0 <= k < succ.len() && #[trigger] succ@[k] == (q, 1u32),
{
    let mut succ: Vec<(Position, u32)> = Vec::new();
    if !map.in_bounds(p) {
        return succ;
    }
    assert(has_neighbors(p));
    let neighbors = p.neighbors4();
    proof {
        crate::utils::neighbors_are_adjacent(p);
    }
    let mut i: usize = 0;
    while i < 4
        invariant
            map@.wf(),
            map@.in_bounds(p),
            has_neighbors(p),
            neighbors@ == neighbors_spec(p),
            i <= 4,
            forall|j: int| 0 <= j < 4 ==> adjacent(p, #[trigger] neighbors_spec(p)[j]),
            forall|q: Position| adjacent(p, q) ==> neighbors_spec(p).contains(q),
            forall|k: int|
                0 <= k < succ.len() ==> (#[trigger] succ@[k]).1 == 1 && step_allowed(
                    map@,
                    goal,
                    blocked@.to_set(),
                    p,
                    succ@[k].0,
                ),
            forall|j: int|
                0 <= j < i && step_allowed(map@, goal, blocked@.to_set(), p, #[trigger] neighbors_spec(p)[j])
                    ==> exists|k: int| 0 <= k < succ.len() && succ@[k] == (neighbors_spec(p)[j], 1u32),
        decreases 4 - i,
    {
        let next = neighbors[i];
        let ghost before = succ@;
        if map.is_walkable(next) && (next == goal || !contains_position(blocked, next)) {
            succ.push((next, 1));
            assert(succ@[succ.len() - 1] == (neighbors_spec(p)[i as int], 1u32));
        }
        assert forall|j: int|
            0 <= j < i + 1 && step_allowed(map@, goal, blocked@.to_set(), p, #[trigger] neighbors_spec(p)[j])
            implies exists|k: int| 0 <= k < succ.len() && succ@[k] == (neighbors_spec(p)[j], 1u32) by {
            if j < i {
                let k = choose|k: int| 0 <= k < before.len() && before[k] == (neighbors_spec(p)[j], 1u32);
                assert(succ@[k] == before[k]);
            } else {
                assert(succ@[succ.len() - 1] == (neighbors_spec(p)[j], 1u32));
            }
        }
        i = i + 1;
    }
    assert forall|q: Position| step_allowed(map@, goal, blocked@.to_set(), p, q) implies exists|k: int|
        0 <= k < succ.len() && #[trigger] succ@[k] == (q, 1u32) by {
        let j = choose|j: int| 0 <= j < 4 && neighbors_spec(p)[j] == q;
        assert(step_allowed(map@, goal, blocked@.to_set(), p, neighbors_spec(p)[j]));
    }
    succ
}

/// The search heuristic: the Manhattan distance to the goal, capped at `u32::MAX`.
pub fn search_estimate(p: Position, goal: Position) -> (h: u32)
    ensures
        h as int == if manhattan_spec(p, goal) <= u32::MAX {
            manhattan_spec(p, goal)
        } else {
            u32::MAX as int
        },
{
    let dx: i64 = p.x as i64 - goal.x as i64;
    let dy: i64 = p.y as i64 - goal.y as i64;
    let ax: i64 = if dx < 0 { -dx } else { dx };
    let ay: i64 = if dy < 0 { -dy } else { dy };
    let d: i64 = ax + ay;
    if d <= u32::MAX as i64 {
        d as u32
    } else {
        u32::MAX
    }
}

/// The search success test.
pub fn search_reached(p: Position, goal: Position) -> (b: bool)
    ensures
        b == (p == goal),
{
    p == goal
}

/// Calls `pathfinding::prelude::astar` from `start` with the successors,
/// heuristic and success test above. Its documentation promises a shortest
/// path from `start` to a node passing the success test, start and end
/// included, with its total cost, when one exists (the heuristic never
/// overestimates: every step costs 1 and changes the Manhattan distance by at
/// most 1), and `None` when none exists; the search explores every reachable
/// node, of which there are finitely many (they are walkable, hence in bounds).
/// The search reads the blocked cells only through membership tests, so the
/// result depends on their set. Which of several shortest paths comes back is
/// left to `astar_search`.
#[verifier::external_body]
fn astar_route(
    map: &WorldMap,
    start: Position,
    goal: Position,
    blocked: &Vec<Position>,
) -> (found: Option<(Vec<Position>, u32)>)
    requires
        map@.wf(),
        map@.searchable(),
        map@.walkable(start),
        map@.walkable(goal),
    ensures
        match found {
            Some((path, cost)) => {
                &&& astar_search(map@, start, goal, blocked@.to_set()) == Some(path@)
                &&& cost == path.len() - 1
                &&& is_shortest_route(map@, start, goal, blocked@.to_set(), path@)
            },
            None => {
                &&& astar_search(map@, start, goal, blocked@.to_set()) is None
                &&& forall|other: Seq<Position>| !is_route(map@, start, goal, blocked@.to_set(), other)
            },
        },
{
    astar(
        &start,
        |p| search_successors(map, *p, goal, blocked),
        |p| search_estimate(*p, goal),
        |p| search_reached(*p, goal),
    )
}

/// A route from `start` to `goal` with no other constraint than the map.
pub fn find_path(map: &WorldMap, start: Position, goal: Position) -> (path: Option<Vec<Position>>)
    requires
        map@.wf(),
        map@.searchable(),
    ensures
        match path {
            Some(p) => route_spec(map@, start, goal, Set::empty()) == Some(p@),
            None => route_spec(map@, start, goal, Set::empty()) is None,
        },
        match path {
            Some(p) => is_shortest_route(map@, start, goal, Set::empty(), p@),
            None => forall|other: Seq<Position>|
                !is_route(map@, start, goal, Set::empty(), other),
        },
{
    let none: Vec<Position> = Vec::new();
    assert(none@.to_set() =~= Set::<Position>::empty());
    find_path_avoiding(map, start, goal, &none)
}

/// A shortest route from `start` to `goal` that avoids the `blocked` cells
/// (the goal excepted); `None` when no such route exists.
pub fn find_path_avoiding(
    map: &WorldMap,
    start: Position,
    goal: Position,
    blocked: &Vec<Position>,
) -> (path: Option<Vec<Position>>)
    requires
        map@.wf(),
        map@.searchable(),
    ensures
        match path {
            Some(p) => route_spec(map@, start, goal, blocked@.to_set()) == Some(p@),
            None => route_spec(map@, start, goal, blocked@.to_set()) is None,
        },
        match path {
            Some(p) => is_shortest_route(map@, start, goal, blocked@.to_set(), p@),
            None => forall|other: Seq<Position>| !is_route(map@, start, goal, blocked@.to_set(), other),
        },
{
    if !map.in_bounds(start) || !map.in_bounds(goal) || !map.is_walkable(start)
        || !map.is_walkable(goal) {
        proof {
            assert forall|other: Seq<Position>| !is_route(map@, start, goal, blocked@.to_set(), other) by {
                if is_route(map@, start, goal, blocked@.to_set(), other) {
                    if other.len() > 1 {
                        assert(step_allowed(map@, goal, blocked@.to_set(), other[other.len() - 2], other[other.len() - 1]));
                    }
                }
            }
        }
        return None;
    }
    if start == goal {
        let path = vec![start];
        assert(path@ =~= seq![start]);
        return Some(path);
    }
    match astar_route(map, start, goal, blocked) {
        Some((path, _cost)) => Some(path),
        None => None,
    }
}

/// The first move of a route from `start` to `goal` avoiding `blocked`.
pub fn next_step_avoiding(
    map: &WorldMap,
    start: Position,
    goal: Position,
    blocked: &Vec<Position>,
) -> (next: Option<Position>)
    requires
        map@.wf(),
        map@.searchable(),
    ensures
        next == next_step_spec(map@, start, goal, blocked@.to_set()),
        next matches Some(q) ==> step_allowed(map@, goal, blocked@.to_set(), start, q),
{
    let path = match find_path_avoiding(map, start, goal, blocked) {
        Some(p) => p,
        None => {
            return None;
        },
    };
    if path.len() > 1 {
        Some(path[1])
    } else {
        None
    }
}

} // verus!
