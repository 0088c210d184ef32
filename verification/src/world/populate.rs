//! Placement of the Energy / Crystal deposits.
//!
//! Deposits are only placed on empty cells that can be reached from the base:
//! in a map generated from noise, some areas can be walled off by obstacles,
//! and a deposit there could be seen by a scout but never collected. The
//! reachable empty cells are computed first (breadth-first search from the
//! base), then drawn from at random.

use vstd::prelude::*;

use rand::rngs::StdRng;

use crate::pathfinding::{is_route, step_allowed};
use crate::rng::{random_index, seeded_rng};
use crate::utils::{adjacent, has_neighbors, neighbors_spec, seq_count, Position};
use crate::world::map::{deposit_count, is_deposit_of, lemma_index_of, lemma_position_of, MapModel, WorldMap};
use crate::world::resource::{Resource, ResourceKind, RESOURCE_QTY_MAX, RESOURCE_QTY_MIN};
use crate::world::tile::{walkable_tile, Tile};

verus! {

/// A walk that starts at the base and then moves one cardinal step at a time
/// onto walkable cells.
pub open spec fn is_base_walk(m: MapModel, path: Seq<Position>) -> bool {
    &&& path.len() >= 1
    &&& path[0] == m.base
    &&& forall|i: int|
        0 <= i < path.len() - 1 ==> m.in_bounds(#[trigger] path[i]) && adjacent(path[i], path[i + 1])
            && m.walkable(path[i + 1])
}

/// `p` can be reached from the base by a walk.
pub open spec fn reachable_from_base(m: MapModel, p: Position) -> bool {
    exists|path: Seq<Position>| #[trigger] is_base_walk(m, path) && path.last() == p
}

/// The empty cells that can be reached from the base.
pub open spec fn reachable_empty_cells(m: MapModel) -> Set<Position> {
    Set::new(
        |p: Position| m.in_bounds(p) && m.tile(p) == Tile::Empty && reachable_from_base(m, p),
    )
}

/// `d` is the number of steps of the shortest walk from the base to `p`.
pub open spec fn is_base_distance(m: MapModel, p: Position, d: nat) -> bool {
    &&& exists|w: Seq<Position>| #[trigger] is_base_walk(m, w) && w.last() == p && w.len() == d + 1
    &&& forall|w: Seq<Position>| #[trigger] is_base_walk(m, w) && w.last() == p ==> w.len() >= d + 1
}

/// The number of steps of the shortest walk from the base to `p`, for a cell
/// reachable from the base.
pub open spec fn base_distance(m: MapModel, p: Position) -> nat {
    choose|d: nat| is_base_distance(m, p, d)
}

/// A cell has one distance from the base.
proof fn lemma_base_distance(m: MapModel, p: Position, d: nat)
    requires
        is_base_distance(m, p, d),
    ensures
        base_distance(m, p) == d,
{
    let e = base_distance(m, p);
    assert(is_base_distance(m, p, e));
    let w = choose|w: Seq<Position>| #[trigger] is_base_walk(m, w) && w.last() == p && w.len() == d + 1;
    let v = choose|v: Seq<Position>| #[trigger] is_base_walk(m, v) && v.last() == p && v.len() == e + 1;
    assert(w.len() >= e + 1);
    assert(v.len() >= d + 1);
}

/// The breadth-first order of the queue: the witness walks of the queued
/// cells grow in length and are shortest, the cells still to expand lie at
/// most one step further than the cell at `head`, and every walk no longer
/// than the one to the cell at `head` ends on a visited cell.
pub open spec fn layered(m: MapModel, visited: Seq<bool>, queue: Seq<Position>, paths: Seq<Seq<Position>>, head: int) -> bool {
    &&& forall|a: int, b: int| 0 <= a < b < queue.len() ==> (#[trigger] paths[a]).len() <= (#[trigger] paths[b]).len()
    &&& forall|k: int| head <= k < queue.len() ==> (#[trigger] paths[k]).len() <= paths[head].len() + 1
    &&& forall|k: int, w: Seq<Position>|
        0 <= k < queue.len() && #[trigger] is_base_walk(m, w) && w.last() == #[trigger] queue[k] ==> w.len()
            >= paths[k].len()
    &&& head < queue.len() ==> forall|w: Seq<Position>|
        #[trigger] is_base_walk(m, w) && w.len() <= paths[head].len() ==> m.in_bounds(w.last()) && visited[m.index_of(w.last())]
}

/// Queueing a walkable unvisited neighbour of the cell at `head` one step
/// further keeps the breadth-first order.
proof fn lemma_layered_push(
    m: MapModel,
    visited: Seq<bool>,
    queue: Seq<Position>,
    paths: Seq<Seq<Position>>,
    head: int,
    next: Position,
)
    requires
        m.wf(),
        frontier_ok(m, visited, queue, paths),
        layered(m, visited, queue, paths, head),
        0 <= head < queue.len(),
        m.in_bounds(next),
        !visited[m.index_of(next)],
    ensures
        layered(
            m,
            visited.update(m.index_of(next), true),
            queue.push(next),
            paths.push(paths[head].push(next)),
            head,
        ),
{
    let v2 = visited.update(m.index_of(next), true);
    let q2 = queue.push(next);
    let p2 = paths.push(paths[head].push(next));
    let n = queue.len() as int;
    assert forall|a: int, b: int| 0 <= a < b < q2.len() implies (#[trigger] p2[a]).len() <= (#[trigger] p2[b]).len() by {
        assert(p2[a] == paths[a]);
        if b < n {
            assert(p2[b] == paths[b]);
        } else if a < head {
            assert(paths[a].len() <= paths[head].len());
        }
    }
    assert forall|k: int| head <= k < q2.len() implies (#[trigger] p2[k]).len() <= p2[head].len() + 1 by {
        assert(p2[head] == paths[head]);
        if k < n {
            assert(p2[k] == paths[k]);
        }
    }
    assert forall|k: int, w: Seq<Position>|
        0 <= k < q2.len() && #[trigger] is_base_walk(m, w) && w.last() == #[trigger] q2[k] implies w.len() >= p2[k].len() by {
        if k < n {
            assert(q2[k] == queue[k] && p2[k] == paths[k]);
        } else if w.len() < p2[k].len() {
            assert(w.len() <= paths[head].len());
            assert(visited[m.index_of(w.last())]);
        }
    }
    assert(p2[head] == paths[head]);
    assert forall|w: Seq<Position>| #[trigger] is_base_walk(m, w) && w.len() <= p2[head].len() implies m.in_bounds(w.last()) && v2[m.index_of(w.last())] by {
        lemma_index_of(m, w.last());
        lemma_index_of(m, next);
    }
}

/// Once the cell at `head` is expanded (its walkable neighbours visited),
/// moving on to the next cell keeps the breadth-first order.
proof fn lemma_layered_advance(
    m: MapModel,
    visited: Seq<bool>,
    queue: Seq<Position>,
    paths: Seq<Seq<Position>>,
    head: int,
)
    requires
        m.wf(),
        frontier_ok(m, visited, queue, paths),
        layered(m, visited, queue, paths, head),
        closed_upto(m, visited, queue, head + 1),
        0 <= head < queue.len(),
    ensures
        layered(m, visited, queue, paths, head + 1),
{
    let h1 = head + 1;
    if h1 < queue.len() {
        assert(paths[head].len() <= paths[h1].len());
        assert forall|k: int| h1 <= k < queue.len() implies (#[trigger] paths[k]).len() <= paths[h1].len() + 1 by {
            assert(paths[k].len() <= paths[head].len() + 1);
        }
        assert forall|w: Seq<Position>| #[trigger] is_base_walk(m, w) && w.len() <= paths[h1].len() implies m.in_bounds(w.last()) && visited[m.index_of(w.last())] by {
            if w.len() > paths[head].len() {
                // One step longer than the walks already covered: its last step
                // leaves a visited cell expanded before `h1`.
                let u = w[w.len() - 2];
                let prefix = w.drop_last();
                assert(is_base_walk(m, prefix)) by {
                    assert forall|i: int| 0 <= i < prefix.len() - 1 implies m.in_bounds(#[trigger] prefix[i])
                        && adjacent(prefix[i], prefix[i + 1]) && m.walkable(prefix[i + 1]) by {
                        assert(prefix[i] == w[i] && prefix[i + 1] == w[i + 1]);
                    }
                }
                assert(prefix.last() == u);
                assert(m.in_bounds(u) && visited[m.index_of(u)]);
                lemma_index_of(m, u);
                let ku = choose|ku: int| 0 <= ku < queue.len() && queue[ku] == m.position_of(m.index_of(u));
                assert(queue[ku] == u);
                assert(prefix.len() >= paths[ku].len());
                if ku >= h1 {
                    assert(paths[h1].len() <= paths[ku].len());
                }
                assert(ku < h1);
                let b = w.last();
                assert(m.in_bounds(u) && adjacent(u, b) && m.walkable(b));
                assert(has_neighbors(u));
                crate::utils::neighbors_are_adjacent(u);
                let j = choose|j: int| 0 <= j < 4 && neighbors_spec(u)[j] == b;
                assert(m.walkable(neighbors_spec(queue[ku])[j]));
            }
        }
    }
}

/// Number of `true` entries.
pub open spec fn true_count(s: Seq<bool>) -> nat {
    seq_count(s, |b: bool| b)
}

proof fn lemma_count_le_len<A>(s: Seq<A>, pred: spec_fn(A) -> bool)
    ensures
        seq_count(s, pred) <= s.len(),
    decreases s.len(),
{
    if s.len() > 0 {
        lemma_count_le_len(s.drop_last(), pred);
    }
}

/// A set of visited cells that holds the base and is closed under walkable
/// cardinal steps holds every cell of every walk from the base.
#[verifier::spinoff_prover]
#[verifier::rlimit(30)]
proof fn lemma_closed_holds_walk(m: MapModel, visited: Seq<bool>, path: Seq<Position>)
    requires
        m.wf(),
        visited.len() == m.tiles.len(),
        visited[m.index_of(m.base)],
        forall|p: Position, j: int|
            0 <= j < 4 && m.in_bounds(p) && visited[m.index_of(p)] && m.walkable(
                #[trigger] neighbors_spec(p)[j],
            ) ==> visited[m.index_of(neighbors_spec(p)[j])],
        is_base_walk(m, path),
    ensures
        m.in_bounds(path.last()),
        visited[m.index_of(path.last())],
    decreases path.len(),
{
    if path.len() > 1 {
        let prefix = path.drop_last();
        assert(is_base_walk(m, prefix)) by {
            assert forall|i: int| 0 <= i < prefix.len() - 1 implies m.in_bounds(#[trigger] prefix[i])
                && adjacent(prefix[i], prefix[i + 1]) && m.walkable(prefix[i + 1]) by {
                assert(prefix[i] == path[i] && prefix[i + 1] == path[i + 1]);
            }
        }
        lemma_closed_holds_walk(m, visited, prefix);
        let a = path[path.len() - 2];
        let b = path.last();
        assert(m.in_bounds(a) && adjacent(a, b) && m.walkable(b));
        assert(has_neighbors(a));
        crate::utils::neighbors_are_adjacent(a);
        let j = choose|j: int| 0 <= j < 4 && neighbors_spec(a)[j] == b;
        assert(neighbors_spec(a)[j] == b);
    } else {
        assert(path.last() == m.base);
        lemma_index_of(m, m.base) ;
    }
}

/// Parameters of resource placement.
#[derive(Debug, Clone, Copy)]
pub struct PopulateParams {
    pub energy_count: usize,
    pub crystal_count: usize,
    /// A bound on placement attempts per deposit. The placement draws from
    /// the reachable empty cells, so it never needs retries and does not
    /// read this field.
    pub max_attempts_per_resource: usize,
}

impl Default for PopulateParams {
    fn default() -> (p: Self)
        ensures
            p.energy_count == 12,
            p.crystal_count == 8,
            p.max_attempts_per_resource == 200,
    {
        Self { energy_count: 12, crystal_count: 8, max_attempts_per_resource: 200 }
    }
}

/// The search frontier is consistent: `queue` lists exactly the visited cells,
/// once each, in bounds, each with a witness walk from the base.
pub open spec fn frontier_ok(
    m: MapModel,
    visited: Seq<bool>,
    queue: Seq<Position>,
    paths: Seq<Seq<Position>>,
) -> bool {
    &&& m.wf()
    &&& visited.len() == m.tiles.len()
    &&& queue.len() == true_count(visited)
    &&& true_count(visited) <= visited.len()
    &&& visited[m.index_of(m.base)]
    &&& queue.no_duplicates()
    &&& forall|k: int|
        0 <= k < queue.len() ==> m.in_bounds(#[trigger] queue[k]) && visited[m.index_of(queue[k])]
    &&& forall|k: int| 0 <= k < visited.len() && visited[k] ==> queue.contains(#[trigger] m.position_of(k))
    &&& paths.len() == queue.len()
    &&& forall|k: int|
        0 <= k < queue.len() ==> is_base_walk(m, #[trigger] paths[k]) && paths[k].last() == queue[k]
}

/// The walkable neighbours of the first `head` queued cells are all visited.
pub open spec fn closed_upto(m: MapModel, visited: Seq<bool>, queue: Seq<Position>, head: int) -> bool {
    forall|k: int, j: int|
        0 <= k < head && 0 <= j < 4 && m.walkable(#[trigger] neighbors_spec(queue[k])[j])
            ==> visited[m.index_of(neighbors_spec(queue[k])[j])]
}

/// Marking and queueing a walkable unvisited neighbour of a queued cell keeps
/// the frontier consistent.
#[verifier::spinoff_prover]
#[verifier::rlimit(80)]
proof fn lemma_frontier_push(
    m: MapModel,
    visited: Seq<bool>,
    queue: Seq<Position>,
    paths: Seq<Seq<Position>>,
    head: int,
    next: Position,
)
    requires
        frontier_ok(m, visited, queue, paths),
        0 <= head < queue.len(),
        adjacent(queue[head], next),
        m.walkable(next),
        !visited[m.index_of(next)],
    ensures
        frontier_ok(
            m,
            visited.update(m.index_of(next), true),
            queue.push(next),
            paths.push(paths[head].push(next)),
        ),
{
    let idx = m.index_of(next);
    lemma_index_of(m, next);
    lemma_index_of(m, m.base);
    let v2 = visited.update(idx, true);
    let q2 = queue.push(next);
    let walk = paths[head].push(next);
    let p2 = paths.push(walk);
    crate::utils::lemma_count_update(visited, |b: bool| b, idx, true);
    lemma_count_le_len(v2, |b: bool| b);
    assert forall|k: int| 0 <= k < queue.len() implies queue[k] != next by {
        if queue[k] == next {
            assert(visited[m.index_of(queue[k])]);
        }
    }
    assert(q2.no_duplicates());
    let prev = paths[head];
    let current = queue[head];
    assert(is_base_walk(m, prev));
    assert forall|i: int| 0 <= i < walk.len() - 1 implies m.in_bounds(#[trigger] walk[i])
        && adjacent(walk[i], walk[i + 1]) && m.walkable(walk[i + 1]) by {
        if i < prev.len() - 1 {
            assert(walk[i] == prev[i] && walk[i + 1] == prev[i + 1]);
        } else {
            assert(walk[i] == current);
            assert(walk[i + 1] == next);
        }
    }
    assert(is_base_walk(m, walk));
    assert forall|k: int| 0 <= k < q2.len() implies is_base_walk(m, #[trigger] p2[k]) && p2[k].last()
        == q2[k] by {
        if k < queue.len() {
            assert(p2[k] == paths[k]);
        }
    }
    assert forall|k: int| 0 <= k < v2.len() && v2[k] implies q2.contains(#[trigger] m.position_of(k)) by {
        if k == idx {
            assert(q2[q2.len() - 1] == next);
        } else {
            assert(visited[k]);
            let q = choose|q: int| 0 <= q < queue.len() && queue[q] == m.position_of(k);
            assert(q2[q] == m.position_of(k));
        }
    }
    assert forall|k: int| 0 <= k < q2.len() implies m.in_bounds(#[trigger] q2[k]) && v2[m.index_of(q2[k])] by {
        if k < queue.len() {
            assert(q2[k] == queue[k]);
            lemma_index_of(m, queue[k]);
        }
    }
}

impl WorldMap {
    /// Visits `next`, a neighbour of the queued cell `queue[head]`: a walkable
    /// unvisited cell is marked and queued.
    fn explore_neighbor(
        &self,
        visited: &mut Vec<bool>,
        queue: &mut Vec<Position>,
        paths: Ghost<Seq<Seq<Position>>>,
        head: usize,
        next: Position,
    ) -> (new_paths: Ghost<Seq<Seq<Position>>>)
        requires
            frontier_ok(self@, old(visited)@, old(queue)@, paths@),
            head < old(queue).len(),
            adjacent(old(queue)@[head as int], next),
        ensures
            frontier_ok(self@, final(visited)@, final(queue)@, new_paths@),
            final(queue).len() >= old(queue).len(),
            forall|k: int| 0 <= k < old(queue).len() ==> #[trigger] final(queue)@[k] == old(queue)@[k],
            forall|i: int| 0 <= i < old(visited).len() && old(visited)@[i] ==> #[trigger] final(visited)@[i],
            self@.walkable(next) ==> final(visited)@[self@.index_of(next)],
            (final(queue)@ == old(queue)@ && new_paths@ == paths@ && final(visited)@ == old(visited)@) || (
            self@.in_bounds(next) && !old(visited)@[self@.index_of(next)] && final(queue)@ == old(queue)@.push(next)
                && new_paths@ == paths@.push(paths@[head as int].push(next)) && final(visited)@ == old(
                visited,
            )@.update(self@.index_of(next), true)),
    {
        let ghost m = self@;
        if !self.in_bounds(next) {
            return paths;
        }
        proof {
            lemma_index_of(m, next);
        }
        let idx = self.cell_index(next);
        if visited[idx] || !self.is_walkable(next) {
            return paths;
        }
        let ghost old_visited = visited@;
        let ghost old_queue = queue@;
        let ghost paths0 = paths@;
        proof {
            crate::utils::lemma_count_update(visited@, |b: bool| b, idx as int, true);
            lemma_count_le_len(visited@.update(idx as int, true), |b: bool| b);
        }
        visited.set(idx, true);
        queue.push(next);
        let ghost walk = paths0[head as int].push(next);
        let ghost new_paths = paths0.push(walk);
        proof {
            lemma_frontier_push(m, old_visited, old_queue, paths0, head as int, next);
        }
        Ghost(new_paths)
    }

    /// The empty cells reachable from the base, each once, in breadth-first
    /// order: by nondecreasing distance from the base.
    fn reachable_empty_positions_from_base(&self) -> (cells: Vec<Position>)
        requires
            self@.wf(),
        ensures
            cells@.no_duplicates(),
            forall|p: Position| #[trigger] cells@.contains(p) <==> reachable_empty_cells(self@).contains(p),
            forall|a: int, b: int|
                0 <= a < b < cells.len() ==> base_distance(self@, #[trigger] cells@[a]) <= base_distance(
                    self@,
                    #[trigger] cells@[b],
                ),
    {
        let ghost m = self@;
        let n = self.tiles_len();
        let mut visited: Vec<bool> = Vec::new();
        let mut i: usize = 0;
        while i < n
            invariant
                i <= n,
                visited@ == Seq::new(i as nat, |k: int| false),
            decreases n - i,
        {
            visited.push(false);
            i = i + 1;
            assert(visited@ =~= Seq::new(i as nat, |k: int| false));
        }
        proof {
            lemma_false_count(n as nat);
            assert(visited@ =~= Seq::new(n as nat, |k: int| false));
        }
        let base = self.base();
        proof {
            lemma_index_of(m, base);
        }
        let base_index = self.cell_index(base);
        proof {
            crate::utils::lemma_count_update(visited@, |b: bool| b, base_index as int, true);
        }
        visited.set(base_index, true);
        let mut queue: Vec<Position> = Vec::new();
        queue.push(base);
        let ghost first_walk: Seq<Position> = seq![base];
        let ghost initial: Seq<Seq<Position>> = seq![first_walk];
        let mut paths: Ghost<Seq<Seq<Position>>> = Ghost(initial);
        let mut cells: Vec<Position> = Vec::new();
        let mut head: usize = 0;
        let ghost mut origin: Seq<int> = Seq::empty();
        assert(is_base_walk(m, paths@[0]));
        assert forall|k: int| 0 <= k < n && visited@[k] implies queue@.contains(#[trigger] m.position_of(k)) by {
            assert(k == base_index);
            assert(queue@[0] == base);
        }
        assert(frontier_ok(m, visited@, queue@, paths@));
        assert forall|k: int, w: Seq<Position>|
            0 <= k < queue@.len() && #[trigger] is_base_walk(m, w) && w.last() == #[trigger] queue@[k] implies w.len()
                >= paths@[k].len() by {
            assert(paths@[k] == first_walk);
        }
        assert forall|w: Seq<Position>| #[trigger] is_base_walk(m, w) && w.len() <= paths@[0].len() implies m.in_bounds(w.last()) && visited@[m.index_of(w.last())] by {
            assert(w.last() == m.base);
        }
        assert(layered(m, visited@, queue@, paths@, 0));
        while head < queue.len()
            invariant
                m == self@,
                n == m.tiles.len(),
                head <= queue.len(),
                frontier_ok(m, visited@, queue@, paths@),
                closed_upto(m, visited@, queue@, head as int),
                layered(m, visited@, queue@, paths@, head as int),
                cells@.no_duplicates(),
                origin.len() == cells.len(),
                forall|r1: int, r2: int| 0 <= r1 < r2 < cells.len() ==> #[trigger] origin[r1] < #[trigger] origin[r2],
                forall|r: int|
                    0 <= r < cells.len() ==> 0 <= #[trigger] origin[r] < head && cells@[r] == queue@[origin[r]],
                forall|r: int| 0 <= r < cells.len() ==> m.tile(#[trigger] cells@[r]) == Tile::Empty,
                forall|k: int|
                    0 <= k < head && m.tile(#[trigger] queue@[k]) == Tile::Empty ==> cells@.contains(queue@[k]),
            decreases n - head,
        {
            let current = queue[head];
            let is_empty = match self.get(current) {
                Some(t) => matches!(t, Tile::Empty),
                None => false,
            };
            let ghost c_before = cells@;
            if is_empty {
                proof {
                    assert forall|r: int| 0 <= r < cells.len() implies cells@[r] != current by {
                        assert(origin[r] < head);
                        assert(queue@[origin[r]] != queue@[head as int]);
                    }
                }
                cells.push(current);
                proof {
                    origin = origin.push(head as int);
                }
            }
            proof {
                crate::utils::neighbors_are_adjacent(current);
            }
            let neighbors = current.neighbors4();
            let ghost q0 = queue@;
            let ghost v0 = visited@;
            let ghost c0 = cells@;
            let mut j: usize = 0;
            while j < 4
                invariant
                    m == self@,
                    n == m.tiles.len(),
                    head < q0.len(),
                    current == q0[head as int],
                    neighbors@ == neighbors_spec(current),
                    forall|jj: int| 0 <= jj < 4 ==> adjacent(current, #[trigger] neighbors_spec(current)[jj]),
                    j <= 4,
                    frontier_ok(m, visited@, queue@, paths@),
                    layered(m, visited@, queue@, paths@, head as int),
                    queue.len() >= q0.len(),
                    forall|k: int| 0 <= k < q0.len() ==> #[trigger] queue@[k] == q0[k],
                    forall|i: int| 0 <= i < v0.len() && v0[i] ==> #[trigger] visited@[i],
                    v0.len() == visited.len(),
                    forall|jj: int|
                        0 <= jj < j && m.walkable(#[trigger] neighbors_spec(current)[jj])
                            ==> visited@[m.index_of(neighbors_spec(current)[jj])],
                decreases 4 - j,
            {
                let ghost vb = visited@;
                let ghost qb = queue@;
                let ghost pb = paths@;
                paths = self.explore_neighbor(&mut visited, &mut queue, paths, head, neighbors[j]);
                proof {
                    if queue@ != qb {
                        lemma_layered_push(m, vb, qb, pb, head as int, neighbors@[j as int]);
                    }
                    assert forall|jj: int|
                        0 <= jj < j + 1 && m.walkable(#[trigger] neighbors_spec(current)[jj])
                        implies visited@[m.index_of(neighbors_spec(current)[jj])] by {
                        lemma_index_of(m, neighbors_spec(current)[jj]);
                        if jj < j {
                            assert(vb[m.index_of(neighbors_spec(current)[jj])]);
                        }
                    }
                    assert forall|i: int| 0 <= i < v0.len() && v0[i] implies #[trigger] visited@[i] by {
                        assert(vb[i]);
                    }
                }
                j = j + 1;
            }
            proof {
                assert forall|k: int, jj: int|
                    0 <= k < head + 1 && 0 <= jj < 4 && m.walkable(#[trigger] neighbors_spec(queue@[k])[jj])
                    implies visited@[m.index_of(neighbors_spec(queue@[k])[jj])] by {
                    assert(queue@[k] == q0[k]);
                    if k < head {
                        lemma_index_of(m, neighbors_spec(q0[k])[jj]);
                        assert(v0[m.index_of(neighbors_spec(q0[k])[jj])]);
                    }
                }
                assert forall|r: int| 0 <= r < cells.len() implies 0 <= #[trigger] origin[r] < head + 1
                    && cells@[r] == queue@[origin[r]] by {
                    assert(queue@[origin[r]] == q0[origin[r]]);
                }
                lemma_layered_advance(m, visited@, queue@, paths@, head as int);
                assert forall|k: int|
                    0 <= k < head + 1 && m.tile(#[trigger] queue@[k]) == Tile::Empty implies cells@.contains(queue@[k]) by {
                    assert(queue@[k] == q0[k]);
                    if k < head {
                        assert(c_before.contains(q0[k]));
                        let r = choose|r: int| 0 <= r < c_before.len() && c_before[r] == q0[k];
                        assert(cells@[r] == c_before[r]);
                    } else {
                        assert(cells@[cells.len() - 1] == current);
                    }
                }
            }
            head = head + 1;
        }
        proof {
            assert forall|p: Position, jj: int|
                0 <= jj < 4 && m.in_bounds(p) && visited@[m.index_of(p)] && m.walkable(
                    #[trigger] neighbors_spec(p)[jj],
                ) implies visited@[m.index_of(neighbors_spec(p)[jj])] by {
                lemma_index_of(m, p);
                let q = choose|q: int| 0 <= q < queue.len() && queue@[q] == m.position_of(m.index_of(p));
                assert(queue@[q] == p);
            }
            assert forall|p: Position| #[trigger] cells@.contains(p) <==> reachable_empty_cells(m).contains(p) by {
                if cells@.contains(p) {
                    let r = choose|r: int| 0 <= r < cells.len() && cells@[r] == p;
                    assert(origin[r] < head);
                    assert(is_base_walk(m, paths@[origin[r]]));
                }
                if reachable_empty_cells(m).contains(p) {
                    let path = choose|path: Seq<Position>| #[trigger] is_base_walk(m, path) && path.last() == p;
                    lemma_closed_holds_walk(m, visited@, path);
                    lemma_index_of(m, p);
                    let q = choose|q: int| 0 <= q < queue.len() && queue@[q] == m.position_of(m.index_of(p));
                    assert(queue@[q] == p);
                }
            }
            assert forall|r: int| 0 <= r < cells.len() implies base_distance(m, #[trigger] cells@[r]) == paths@[origin[r]].len() - 1 by {
                let k = origin[r];
                assert(is_base_walk(m, paths@[k]) && paths@[k].last() == queue@[k]);
                assert(is_base_distance(m, queue@[k], (paths@[k].len() - 1) as nat));
                lemma_base_distance(m, queue@[k], (paths@[k].len() - 1) as nat);
            }
            assert forall|a: int, b: int| 0 <= a < b < cells.len() implies base_distance(m, #[trigger] cells@[a]) <= base_distance(
                m,
                #[trigger] cells@[b],
            ) by {
                assert(origin[a] < origin[b]);
                assert(paths@[origin[a]].len() <= paths@[origin[b]].len());
            }
        }
        cells
    }
}

/// Removing the element at `i` by swapping in the last one keeps the other
/// elements and their distinctness.
proof fn lemma_swap_remove<A>(s: Seq<A>, i: int)
    requires
        s.no_duplicates(),
        0 <= i < s.len(),
    ensures
        s.update(i, s.last()).drop_last().no_duplicates(),
        s.update(i, s.last()).drop_last().len() == s.len() - 1,
        forall|x: A| #[trigger] s.update(i, s.last()).drop_last().contains(x) <==> (s.contains(x) && x != s[i]),
{
    let t = s.update(i, s.last()).drop_last();
    assert forall|x: A| #[trigger] t.contains(x) <==> (s.contains(x) && x != s[i]) by {
        if t.contains(x) {
            let k = choose|k: int| 0 <= k < t.len() && t[k] == x;
            if k == i {
                assert(x == s[s.len() - 1]);
            } else {
                assert(x == s[k]);
            }
        }
        if s.contains(x) && x != s[i] {
            let k = choose|k: int| 0 <= k < s.len() && s[k] == x;
            if k == s.len() - 1 {
                assert(t[i] == x);
            } else {
                assert(t[k] == x);
            }
        }
    }
}

/// A deposit of the given kind with an initial quantity.
pub open spec fn is_fresh_deposit(t: Tile, kind: ResourceKind) -> bool {
    t matches Tile::Resource(r) && r.kind == kind && RESOURCE_QTY_MIN <= r.quantity <= RESOURCE_QTY_MAX
}

/// The other resource kind.
pub open spec fn other_kind(kind: ResourceKind) -> ResourceKind {
    match kind {
        ResourceKind::Energy => ResourceKind::Crystal,
        ResourceKind::Crystal => ResourceKind::Energy,
    }
}

/// `new` is `old` with the cells of `placed_on` turned into fresh deposits of
/// `kind` and every other cell unchanged.
pub open spec fn deposits_placed(old: MapModel, new: MapModel, placed_on: spec_fn(Position) -> bool, kind: ResourceKind) -> bool {
    &&& new.width == old.width
    &&& new.height == old.height
    &&& new.base == old.base
    &&& new.wf()
    &&& forall|p: Position|
        old.in_bounds(p) ==> if placed_on(p) {
            is_fresh_deposit(#[trigger] new.tile(p), kind)
        } else {
            new.tile(p) == old.tile(p)
        }
}

/// `new` is `old` where some empty cells reachable from the base became fresh
/// deposits: `energy` of them energy and `crystal` of them crystal.
pub open spec fn is_population_of(old: MapModel, new: MapModel, energy: nat, crystal: nat) -> bool {
    &&& new.width == old.width
    &&& new.height == old.height
    &&& new.base == old.base
    &&& new.wf()
    &&& forall|p: Position|
        old.in_bounds(p) ==> #[trigger] new.tile(p) == old.tile(p) || (reachable_empty_cells(old).contains(p) && (
        is_fresh_deposit(new.tile(p), ResourceKind::Energy) || is_fresh_deposit(new.tile(p), ResourceKind::Crystal)))
    &&& deposit_count(new.tiles, ResourceKind::Energy) == deposit_count(old.tiles, ResourceKind::Energy) + energy
    &&& deposit_count(new.tiles, ResourceKind::Crystal) == deposit_count(old.tiles, ResourceKind::Crystal) + crystal
}

pub open spec fn min_nat(a: nat, b: nat) -> nat {
    if a <= b {
        a
    } else {
        b
    }
}

/// Distinct positions that stand on empty cells.
pub open spec fn empty_candidates(m: MapModel, candidates: Seq<Position>) -> bool {
    &&& candidates.no_duplicates()
    &&& forall|k: int|
        0 <= k < candidates.len() ==> m.in_bounds(#[trigger] candidates[k]) && m.tile(candidates[k]) == Tile::Empty
}

impl WorldMap {
    /// Places up to `count` deposits of `kind` on cells drawn at random from
    /// `candidates`, removing each drawn cell from the candidates.
    fn place_kind_from_candidates(
        &mut self,
        rng: &mut StdRng,
        candidates: &mut Vec<Position>,
        kind: ResourceKind,
        count: usize,
    ) -> (placed: usize)
        requires
            old(self)@.wf(),
            empty_candidates(old(self)@, old(candidates)@),
        ensures
            placed == min_nat(count as nat, old(candidates).len() as nat),
            final(candidates).len() == old(candidates).len() - placed,
            empty_candidates(final(self)@, final(candidates)@),
            forall|p: Position| #[trigger] final(candidates)@.contains(p) ==> old(candidates)@.contains(p),
            deposits_placed(
                old(self)@,
                final(self)@,
                |p: Position| old(candidates)@.contains(p) && !final(candidates)@.contains(p),
                kind,
            ),
            deposit_count(final(self)@.tiles, kind) == deposit_count(old(self)@.tiles, kind) + placed,
            deposit_count(final(self)@.tiles, other_kind(kind)) == deposit_count(old(self)@.tiles, other_kind(kind)),
    {
        let ghost m0 = self@;
        let ghost c0 = candidates@;
        let mut placed: usize = 0;
        while placed < count && candidates.len() > 0
            invariant
                m0.wf(),
                self@.wf(),
                placed <= count,
                candidates.len() == c0.len() - placed,
                empty_candidates(self@, candidates@),
                forall|p: Position| #[trigger] candidates@.contains(p) ==> c0.contains(p),
                deposits_placed(m0, self@, |p: Position| c0.contains(p) && !candidates@.contains(p), kind),
                deposit_count(self@.tiles, kind) == deposit_count(m0.tiles, kind) + placed,
                deposit_count(self@.tiles, other_kind(kind)) == deposit_count(m0.tiles, other_kind(kind)),
            decreases count - placed,
        {
            let ghost m1 = self@;
            let ghost c1 = candidates@;
            assert(deposits_placed(m0, m1, |q: Position| c0.contains(q) && !c1.contains(q), kind));
            let index = random_index(rng, candidates.len());
            let position = candidates.swap_remove(index);
            proof {
                lemma_swap_remove(c1, index as int);
            }
            let is_empty = match self.get(position) {
                Some(t) => matches!(t, Tile::Empty),
                None => false,
            };
            if !is_empty {
                // Unreachable: every candidate stands on an empty cell.
                continue;
            }
            let resource = Resource::random(rng, kind);
            proof {
                lemma_index_of(m1, position);
                crate::utils::lemma_count_update(m1.tiles, |t: Tile| is_deposit_of(t, kind), m1.index_of(position), Tile::Resource(resource));
                crate::utils::lemma_count_update(m1.tiles, |t: Tile| is_deposit_of(t, other_kind(kind)), m1.index_of(position), Tile::Resource(resource));
            }
            self.set(position, Tile::Resource(resource));
            proof {
                assert forall|p: Position| m1.in_bounds(p) && p != position implies #[trigger] self@.tile(p) == m1.tile(p) by {
                    lemma_index_of(m1, p);
                }
                assert(self@.tile(position) == Tile::Resource(resource)) by {
                    lemma_index_of(m1, position);
                }
                assert forall|k: int| 0 <= k < candidates.len() implies self@.in_bounds(#[trigger] candidates@[k])
                    && self@.tile(candidates@[k]) == Tile::Empty by {
                    assert(candidates@.contains(candidates@[k]));
                    assert(c1.contains(candidates@[k]));
                }
                assert forall|p: Position|
                    m0.in_bounds(p) implies if c0.contains(p) && !candidates@.contains(p) {
                        is_fresh_deposit(#[trigger] self@.tile(p), kind)
                    } else {
                        self@.tile(p) == m0.tile(p)
                    } by {
                    if p == position {
                        assert(c1[index as int] == position);
                        assert(c1.contains(position));
                        assert(c0.contains(p));
                        assert(!candidates@.contains(p));
                    } else {
                        assert(self@.tile(p) == m1.tile(p));
                        assert(candidates@.contains(p) <==> c1.contains(p));
                        assert(m1.in_bounds(p));
                    }
                }
            }
            placed = placed + 1;
        }
        placed
    }

    /// Populates the map with deposits reachable from the base, using the
    /// default counts (12 energy, 8 crystal).
    ///
    /// Returns the number of deposits actually placed.
    pub fn populate_resources(&mut self, seed: u64) -> (placed: usize)
        requires
            old(self)@.wf(),
        ensures
            ({
                let n = reachable_empty_cells(old(self)@).len();
                let energy = min_nat(12, n);
                let crystal = min_nat(8, (n - energy) as nat);
                &&& placed == energy + crystal
                &&& is_population_of(old(self)@, final(self)@, energy, crystal)
            }),
    {
        self.populate_resources_with(seed, PopulateParams::default())
    }

    /// Parameterised variant of [`WorldMap::populate_resources`]: places
    /// `params.energy_count` energy deposits, then `params.crystal_count`
    /// crystal deposits, as far as reachable empty cells remain.
    pub fn populate_resources_with(&mut self, seed: u64, params: PopulateParams) -> (placed: usize)
        requires
            old(self)@.wf(),
        ensures
            ({
                let n = reachable_empty_cells(old(self)@).len();
                let energy = min_nat(params.energy_count as nat, n);
                let crystal = min_nat(params.crystal_count as nat, (n - energy) as nat);
                &&& placed == energy + crystal
                &&& is_population_of(old(self)@, final(self)@, energy, crystal)
            }),
    {
        let mut rng = seeded_rng(seed);
        let ghost m0 = self@;
        let mut candidates = self.reachable_empty_positions_from_base();
        proof {
            candidates@.unique_seq_to_set();
            assert(candidates@.to_set() =~= reachable_empty_cells(m0));
        }
        let ghost c0 = candidates@;
        assert forall|k: int| 0 <= k < c0.len() implies m0.in_bounds(#[trigger] c0[k]) && m0.tile(c0[k]) == Tile::Empty by {
            assert(c0.contains(c0[k]));
        }
        let energy = self.place_kind_from_candidates(&mut rng, &mut candidates, ResourceKind::Energy, params.energy_count);
        let ghost m1 = self@;
        let ghost c1 = candidates@;
        let crystal = self.place_kind_from_candidates(&mut rng, &mut candidates, ResourceKind::Crystal, params.crystal_count);
        proof {
            assert forall|p: Position| m0.in_bounds(p) implies #[trigger] self@.tile(p) == m0.tile(p) || (
            reachable_empty_cells(m0).contains(p) && (is_fresh_deposit(self@.tile(p), ResourceKind::Energy)
                || is_fresh_deposit(self@.tile(p), ResourceKind::Crystal))) by {
                assert(c0.contains(p) <==> reachable_empty_cells(m0).contains(p));
                if c1.contains(p) {
                    assert(c0.contains(p));
                }
            }
        }
        energy + crystal
    }
}

/// Population never changes which cells are walkable.
pub proof fn population_keeps_walkability(old: MapModel, new: MapModel, energy: nat, crystal: nat, p: Position)
    requires
        old.wf(),
        is_population_of(old, new, energy, crystal),
    ensures
        new.walkable(p) == old.walkable(p),
{
    if old.in_bounds(p) {
        assert(new.tile(p) == old.tile(p) || reachable_empty_cells(old).contains(p));
    }
}

/// Every cell that population turns into a deposit can be reached from the
/// base by a route of the populated map (so `find_path` from the base returns
/// a path to it), as long as the base cell itself is walkable.
pub proof fn populated_deposits_are_reachable(
    old: MapModel,
    new: MapModel,
    energy: nat,
    crystal: nat,
    p: Position,
)
    requires
        old.wf(),
        is_population_of(old, new, energy, crystal),
        old.walkable(old.base),
        old.in_bounds(p),
        new.tile(p) != old.tile(p),
    ensures
        exists|path: Seq<Position>| is_route(new, new.base, p, Set::empty(), path),
{
    assert(reachable_empty_cells(old).contains(p));
    let path = choose|path: Seq<Position>| #[trigger] is_base_walk(old, path) && path.last() == p;
    population_keeps_walkability(old, new, energy, crystal, old.base);
    assert forall|i: int| 0 <= i < path.len() - 1 implies step_allowed(
        new,
        p,
        Set::empty(),
        #[trigger] path[i],
        path[i + 1],
    ) by {
        population_keeps_walkability(old, new, energy, crystal, path[i + 1]);
    }
    assert(is_route(new, new.base, p, Set::empty(), path));
}

proof fn lemma_false_count(len: nat)
    ensures
        true_count(Seq::new(len, |k: int| false)) == 0,
    decreases len,
{
    if len > 0 {
        assert(Seq::new(len, |k: int| false).drop_last() =~= Seq::new((len - 1) as nat, |k: int| false));
        lemma_false_count((len - 1) as nat);
    }
}

} // verus!
