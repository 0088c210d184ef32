//! How a collector plans: the cells from which it may collect a deposit, the
//! nearest such cell by route length, and the known deposit to aim for.

use vstd::prelude::*;

use crate::communication::KnownResource;
use crate::pathfinding::{find_path_avoiding, route_spec};
use crate::robots::common::row_major_before;
use crate::utils::{manhattan_spec, Position};
use crate::world::map::{MapModel, WorldMap};
use crate::world::ResourceKind;

verus! {

/// Collection range around a resource: the collector does not need to stand
/// exactly on the deposit cell.
pub const COLLECTION_RANGE: u32 = 3;

/// A walkable in-bounds cell within collection range of `target`, other than
/// the base.
pub open spec fn is_collection_goal(m: MapModel, target: Position, g: Position) -> bool {
    m.in_bounds(g) && manhattan_spec(g, target) <= COLLECTION_RANGE && m.walkable(g) && g != m.base
}

/// Length (in cells) of the route the search finds from `from` to `goal`.
pub open spec fn route_len(m: MapModel, from: Position, goal: Position, blocked: Set<Position>) -> Option<nat> {
    match route_spec(m, from, goal, blocked) {
        Some(path) => Some(path.len()),
        None => None,
    }
}

/// `g` is a collection goal of `target` with a route, no goal has a shorter
/// route, and no goal with an equally short route comes first in row-major
/// order.
pub open spec fn is_best_goal(m: MapModel, from: Position, target: Position, blocked: Set<Position>, g: Position) -> bool {
    &&& is_collection_goal(m, target, g)
    &&& route_len(m, from, g, blocked) is Some
    &&& forall|g2: Position|
        is_collection_goal(m, target, g2) && #[trigger] route_len(m, from, g2, blocked) is Some ==> {
            let d = route_len(m, from, g, blocked)->0;
            let d2 = route_len(m, from, g2, blocked)->0;
            d <= d2 && (d2 == d ==> !row_major_before(g2, g))
        }
}

/// The collection goal the collector heads for, if any goal has a route.
pub open spec fn best_goal(m: MapModel, from: Position, target: Position, blocked: Set<Position>) -> Option<Position> {
    if exists|g: Position| is_best_goal(m, from, target, blocked, g) {
        Some(choose|g: Position| is_best_goal(m, from, target, blocked, g))
    } else {
        None
    }
}

/// Length of the shortest route to a collection goal of `target`, if any.
pub open spec fn nearest_goal_len(m: MapModel, from: Position, target: Position, blocked: Set<Position>) -> Option<nat> {
    match best_goal(m, from, target, blocked) {
        Some(g) => route_len(m, from, g, blocked),
        None => None,
    }
}

/// There is at most one best goal.
pub proof fn lemma_best_goal_unique(m: MapModel, from: Position, target: Position, blocked: Set<Position>, g: Position)
    requires
        is_best_goal(m, from, target, blocked, g),
    ensures
        best_goal(m, from, target, blocked) == Some(g),
{
    let c = choose|g2: Position| is_best_goal(m, from, target, blocked, g2);
    assert(is_best_goal(m, from, target, blocked, c));
    assert(route_len(m, from, c, blocked) is Some);
    assert(route_len(m, from, g, blocked) is Some);
    if c != g {
        assert(!row_major_before(c, g));
        assert(!row_major_before(g, c));
    }
}

/// No best goal exists when no collection goal has a route.
pub proof fn lemma_no_best_goal(m: MapModel, from: Position, target: Position, blocked: Set<Position>)
    requires
        forall|g: Position| is_collection_goal(m, target, g) ==> #[trigger] route_len(m, from, g, blocked) is None,
    ensures
        best_goal(m, from, target, blocked) is None,
{
}

/// The walkable in-bounds cells within collection range of `target`, the
/// base excepted, in row-major order.
pub fn collection_positions(map: &WorldMap, target: Position) -> (goals: Vec<Position>)
    requires
        map@.wf(),
    ensures
        forall|g: Position| #[trigger] goals@.contains(g) <==> is_collection_goal(map@, target, g),
        forall|i: int, j: int| 0 <= i < j < goals.len() ==> row_major_before(#[trigger] goals@[i], #[trigger] goals@[j]),
{
    let mut goals: Vec<Position> = Vec::new();
    let radius: i64 = COLLECTION_RANGE as i64;
    let w: i64 = map.width() as i64;
    let h: i64 = map.height() as i64;
    let mut dy: i64 = -radius;
    while dy <= radius
        invariant
            map@.wf(),
            radius == 3,
            w == map@.width,
            h == map@.height,
            -radius <= dy <= radius + 1,
            forall|k: int| 0 <= k < goals.len() ==> is_collection_goal(map@, target, #[trigger] goals@[k]),
            forall|k: int| 0 <= k < goals.len() ==> (#[trigger] goals@[k]).y < target.y + dy,
            forall|i: int, j: int| 0 <= i < j < goals.len() ==> row_major_before(#[trigger] goals@[i], #[trigger] goals@[j]),
            forall|g: Position| is_collection_goal(map@, target, g) && g.y < target.y + dy ==> #[trigger] goals@.contains(g),
        decreases radius + 1 - dy,
    {
        let mut dx: i64 = -radius;
        while dx <= radius
            invariant
                map@.wf(),
                radius == 3,
                w == map@.width,
                h == map@.height,
                -radius <= dy <= radius,
                -radius <= dx <= radius + 1,
                forall|k: int| 0 <= k < goals.len() ==> is_collection_goal(map@, target, #[trigger] goals@[k]),
                forall|k: int| 0 <= k < goals.len() ==> (#[trigger] goals@[k]).y < target.y + dy
                    || (goals@[k].y == target.y + dy && goals@[k].x < target.x + dx),
                forall|i: int, j: int| 0 <= i < j < goals.len() ==> row_major_before(#[trigger] goals@[i], #[trigger] goals@[j]),
                forall|g: Position|
                    is_collection_goal(map@, target, g) && (g.y < target.y + dy || (g.y == target.y + dy && g.x < target.x + dx)) ==> #[trigger] goals@.contains(g),
            decreases radius + 1 - dx,
        {
            let x: i64 = target.x as i64 + dx;
            let y: i64 = target.y as i64 + dy;
            if 0 <= x && x < w && 0 <= y && y < h {
                let position = Position::new(x as i32, y as i32);
                if position.manhattan_distance(target) <= COLLECTION_RANGE as u64 && map.is_walkable(position)
                    && position != map.base() {
                    let ghost before = goals@;
                    goals.push(position);
                    proof {
                        assert forall|g: Position|
                            is_collection_goal(map@, target, g) && (g.y < target.y + dy || (g.y == target.y + dy && g.x < target.x + dx + 1)) implies #[trigger] goals@.contains(g) by {
                            if g == position {
                                assert(goals@[goals.len() - 1] == g);
                            } else {
                                assert(before.contains(g));
                                let k = choose|k: int| 0 <= k < before.len() && before[k] == g;
                                assert(goals@[k] == g);
                            }
                        }
                    }
                }
            }
            dx = dx + 1;
        }
        dy = dy + 1;
    }
    proof {
        assert forall|g: Position| #[trigger] goals@.contains(g) implies is_collection_goal(map@, target, g) by {
            let k = choose|k: int| 0 <= k < goals.len() && goals@[k] == g;
        }
        assert forall|g: Position| is_collection_goal(map@, target, g) implies #[trigger] goals@.contains(g) by {
            assert(g.y < target.y + dy);
        }
    }
    goals
}

/// The collection goal of `target` with the shortest route from `from`
/// avoiding `blocked`, the first in row-major order among equals.
pub fn best_collection_goal(map: &WorldMap, from: Position, target: Position, blocked: &Vec<Position>) -> (best: Option<Position>)
    requires
        map@.wf(),
        map@.searchable(),
    ensures
        best == best_goal(map@, from, target, blocked@.to_set()),
{
    let ghost bs = blocked@.to_set();
    let goals = collection_positions(map, target);
    let mut best: Option<(Position, usize)> = None;
    let mut i: usize = 0;
    while i < goals.len()
        invariant
            map@.wf(),
            map@.searchable(),
            bs == blocked@.to_set(),
            i <= goals.len(),
            forall|g: Position| #[trigger] goals@.contains(g) <==> is_collection_goal(map@, target, g),
            forall|a: int, b: int| 0 <= a < b < goals.len() ==> row_major_before(#[trigger] goals@[a], #[trigger] goals@[b]),
            match best {
                Some((g, d)) => {
                    &&& exists|k: int| 0 <= k < i && goals@[k] == g
                    &&& route_len(map@, from, g, bs) == Some(d as nat)
                    &&& forall|k: int| 0 <= k < i && #[trigger] route_len(map@, from, goals@[k], bs) is Some ==> {
                        let dk = route_len(map@, from, goals@[k], bs)->0;
                        d <= dk && (dk == d ==> !row_major_before(goals@[k], g))
                    }
                },
                None => forall|k: int| 0 <= k < i ==> #[trigger] route_len(map@, from, goals@[k], bs) is None,
            },
        decreases goals.len() - i,
    {
        let goal = goals[i];
        match find_path_avoiding(map, from, goal, blocked) {
            Some(path) => {
                let d = path.len();
                let better = match best {
                    Some((_, bd)) => d < bd,
                    None => true,
                };
                if better {
                    proof {
                        assert forall|k: int| 0 <= k < i + 1 && #[trigger] route_len(map@, from, goals@[k], bs) is Some implies {
                            let dk = route_len(map@, from, goals@[k], bs)->0;
                            d <= dk && (dk == d ==> !row_major_before(goals@[k], goal))
                        } by {
                            if k < i {
                                assert(row_major_before(goals@[k], goals@[i as int]));
                                if row_major_before(goals@[k], goal) {
                                }
                            }
                        }
                    }
                    best = Some((goal, d));
                } else {
                    proof {
                        let (bg, bd) = best.unwrap();
                        let kb = choose|k: int| 0 <= k < i && goals@[k] == bg;
                        assert(row_major_before(goals@[kb], goals@[i as int]));
                        assert forall|k: int| 0 <= k < i + 1 && #[trigger] route_len(map@, from, goals@[k], bs) is Some implies {
                            let dk = route_len(map@, from, goals@[k], bs)->0;
                            bd <= dk && (dk == bd ==> !row_major_before(goals@[k], bg))
                        } by {
                            if k == i {
                                assert(!row_major_before(goal, bg));
                            }
                        }
                    }
                }
            },
            None => {},
        }
        i = i + 1;
    }
    match best {
        Some((g, d)) => {
            proof {
                let kb = choose|k: int| 0 <= k < goals.len() && goals@[k] == g;
                assert(goals@.contains(g));
                assert forall|g2: Position|
                    is_collection_goal(map@, target, g2) && #[trigger] route_len(map@, from, g2, bs) is Some implies {
                        let d0 = route_len(map@, from, g, bs)->0;
                        let d2 = route_len(map@, from, g2, bs)->0;
                        d0 <= d2 && (d2 == d0 ==> !row_major_before(g2, g))
                    } by {
                    assert(goals@.contains(g2));
                    let k = choose|k: int| 0 <= k < goals.len() && goals@[k] == g2;
                    assert(route_len(map@, from, goals@[k], bs) is Some);
                }
                lemma_best_goal_unique(map@, from, target, bs, g);
            }
            Some(g)
        },
        None => {
            proof {
                assert forall|g: Position| is_collection_goal(map@, target, g) implies #[trigger] route_len(map@, from, g, bs) is None by {
                    assert(goals@.contains(g));
                    let k = choose|k: int| 0 <= k < goals.len() && goals@[k] == g;
                    assert(route_len(map@, from, goals@[k], bs) is None);
                }
                lemma_no_best_goal(map@, from, target, bs);
            }
            None
        },
    }
}

/// Length of the shortest route from `from` to a collection goal of `target`.
pub fn path_len_to_collection_range(map: &WorldMap, from: Position, target: Position, blocked: &Vec<Position>) -> (len: Option<usize>)
    requires
        map@.wf(),
        map@.searchable(),
    ensures
        match len {
            Some(d) => nearest_goal_len(map@, from, target, blocked@.to_set()) == Some(d as nat),
            None => nearest_goal_len(map@, from, target, blocked@.to_set()) is None,
        },
{
    match best_collection_goal(map, from, target, blocked) {
        Some(goal) => match find_path_avoiding(map, from, goal, blocked) {
            Some(path) => Some(path.len()),
            None => None,
        },
        None => None,
    }
}

/// A known resource the collector may aim for: some units left, and of the
/// requested kind when a kind is requested.
pub open spec fn qualifies(r: KnownResource, kind: Option<ResourceKind>) -> bool {
    r.quantity > 0 && match kind {
        Some(k) => r.kind == k,
        None => true,
    }
}

/// Entry `i` qualifies, has a reachable collection goal, and no qualifying
/// entry has a nearer one; among equally near ones it comes first.
pub open spec fn is_chosen_entry(
    entries: Seq<(Position, KnownResource)>,
    m: MapModel,
    from: Position,
    blocked: Set<Position>,
    kind: Option<ResourceKind>,
    i: int,
) -> bool {
    &&& 0 <= i < entries.len()
    &&& qualifies(entries[i].1, kind)
    &&& nearest_goal_len(m, from, entries[i].1.position, blocked) is Some
    &&& forall|j: int|
        0 <= j < entries.len() && qualifies(entries[j].1, kind) && #[trigger] nearest_goal_len(
            m,
            from,
            entries[j].1.position,
            blocked,
        ) is Some ==> {
            let di = nearest_goal_len(m, from, entries[i].1.position, blocked)->0;
            let dj = nearest_goal_len(m, from, entries[j].1.position, blocked)->0;
            di <= dj && (dj == di ==> i <= j)
        }
}

/// The position of the known resource the collector aims for, if any.
pub open spec fn chosen_target(
    entries: Seq<(Position, KnownResource)>,
    m: MapModel,
    from: Position,
    blocked: Set<Position>,
    kind: Option<ResourceKind>,
) -> Option<Position> {
    if exists|i: int| is_chosen_entry(entries, m, from, blocked, kind, i) {
        Some(entries[choose|i: int| is_chosen_entry(entries, m, from, blocked, kind, i)].1.position)
    } else {
        None
    }
}

/// The known resource to aim for: the qualifying entry whose collection goals
/// are nearest, the first in table order among equals.
pub fn choose_target_among(
    entries: &Vec<(Position, KnownResource)>,
    map: &WorldMap,
    from: Position,
    blocked: &Vec<Position>,
    kind: Option<ResourceKind>,
) -> (target: Option<Position>)
    requires
        map@.wf(),
        map@.searchable(),
    ensures
        target == chosen_target(entries@, map@, from, blocked@.to_set(), kind),
{
    let ghost bs = blocked@.to_set();
    let ghost es = entries@;
    let mut best: Option<(usize, usize)> = None;
    let mut i: usize = 0;
    while i < entries.len()
        invariant
            map@.wf(),
            map@.searchable(),
            bs == blocked@.to_set(),
            es == entries@,
            i <= entries.len(),
            match best {
                Some((bi, d)) => {
                    &&& bi < i
                    &&& qualifies(es[bi as int].1, kind)
                    &&& nearest_goal_len(map@, from, es[bi as int].1.position, bs) == Some(d as nat)
                    &&& forall|j: int|
                        0 <= j < i && qualifies(es[j].1, kind) && #[trigger] nearest_goal_len(map@, from, es[j].1.position, bs) is Some ==> {
                            let dj = nearest_goal_len(map@, from, es[j].1.position, bs)->0;
                            d <= dj && (dj == d ==> bi <= j)
                        }
                },
                None => forall|j: int|
                    0 <= j < i && qualifies(es[j].1, kind) ==> #[trigger] nearest_goal_len(map@, from, es[j].1.position, bs) is None,
            },
        decreases entries.len() - i,
    {
        let r = entries[i].1;
        let wanted = r.quantity > 0 && match kind {
            Some(k) => r.kind == k,
            None => true,
        };
        if wanted {
            match path_len_to_collection_range(map, from, r.position, blocked) {
                Some(d) => {
                    let better = match best {
                        Some((_, bd)) => d < bd,
                        None => true,
                    };
                    if better {
                        best = Some((i, d));
                    }
                },
                None => {},
            }
        }
        i = i + 1;
    }
    match best {
        Some((bi, d)) => {
            proof {
                assert(is_chosen_entry(es, map@, from, bs, kind, bi as int));
                let c = choose|c: int| is_chosen_entry(es, map@, from, bs, kind, c);
                assert(is_chosen_entry(es, map@, from, bs, kind, c));
                assert(nearest_goal_len(map@, from, es[c].1.position, bs) is Some);
                assert(nearest_goal_len(map@, from, es[bi as int].1.position, bs) is Some);
                assert(c == bi);
            }
            Some(entries[bi].1.position)
        },
        None => {
            proof {
                if exists|c: int| is_chosen_entry(es, map@, from, bs, kind, c) {
                    let c = choose|c: int| is_chosen_entry(es, map@, from, bs, kind, c);
                    assert(nearest_goal_len(map@, from, es[c].1.position, bs) is Some);
                }
            }
            None
        },
    }
}

/// When some entry qualifies and has a reachable collection goal, one entry
/// is chosen.
pub proof fn lemma_chosen_entry_exists(
    entries: Seq<(Position, KnownResource)>,
    m: MapModel,
    from: Position,
    blocked: Set<Position>,
    kind: Option<ResourceKind>,
    i: int,
)
    requires
        0 <= i < entries.len(),
        qualifies(entries[i].1, kind),
        nearest_goal_len(m, from, entries[i].1.position, blocked) is Some,
    ensures
        exists|j: int| is_chosen_entry(entries, m, from, blocked, kind, j),
    decreases nearest_goal_len(m, from, entries[i].1.position, blocked)->0, i,
{
    if !is_chosen_entry(entries, m, from, blocked, kind, i) {
        let di = nearest_goal_len(m, from, entries[i].1.position, blocked)->0;
        let j = choose|j: int|
            0 <= j < entries.len() && qualifies(entries[j].1, kind) && #[trigger] nearest_goal_len(
                m,
                from,
                entries[j].1.position,
                blocked,
            ) is Some && !({
                let dj = nearest_goal_len(m, from, entries[j].1.position, blocked)->0;
                di <= dj && (dj == di ==> i <= j)
            });
        lemma_chosen_entry_exists(entries, m, from, blocked, kind, j);
    }
}

} // verus!
