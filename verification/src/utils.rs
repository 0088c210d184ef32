//! Grid positions, cardinal directions and small geometry.

use vstd::prelude::*;

verus! {

/// 2D coordinate in the map grid.
///
/// Stored as `i32` so deltas can be negative without casts; bounds are checked
/// by the map on access.
#[derive(Debug, Clone, Copy, PartialEq, Eq, Hash, Structural)]
pub struct Position {
    pub x: i32,
    pub y: i32,
}

/// Absolute value of a mathematical integer.
pub open spec fn abs_int(v: int) -> int {
    if v < 0 {
        -v
    } else {
        v
    }
}

/// Manhattan distance between two positions, as a mathematical integer.
pub open spec fn manhattan_spec(a: Position, b: Position) -> int {
    abs_int(a.x - b.x) + abs_int(a.y - b.y)
}

/// The position shifted by `(dx, dy)`, in mathematical integers.
pub open spec fn shifted(p: Position, dx: int, dy: int) -> Position {
    Position { x: (p.x + dx) as i32, y: (p.y + dy) as i32 }
}

/// Whether the four cardinal neighbours of `p` are representable.
pub open spec fn has_neighbors(p: Position) -> bool {
    i32::MIN < p.x < i32::MAX && i32::MIN < p.y < i32::MAX
}

/// The four cardinal neighbours, in the order North, East, South, West.
pub open spec fn neighbors_spec(p: Position) -> Seq<Position> {
    seq![shifted(p, 0, -1), shifted(p, 1, 0), shifted(p, 0, 1), shifted(p, -1, 0)]
}

/// Whether `q` is one of the four cardinal neighbours of `p`.
pub open spec fn adjacent(p: Position, q: Position) -> bool {
    manhattan_spec(p, q) == 1
}

impl Position {
    pub fn new(x: i32, y: i32) -> (p: Self)
        ensures
            p.x == x,
            p.y == y,
    {
        Self { x, y }
    }

    /// Manhattan distance, the A* heuristic on a 4-connected grid.
    pub fn manhattan(self, other: Self) -> (d: u32)
        requires
            i32::MIN <= self.x - other.x <= i32::MAX,
            i32::MIN <= self.y - other.y <= i32::MAX,
            manhattan_spec(self, other) <= u32::MAX,
        ensures
            d == manhattan_spec(self, other),
    {
        let dx: i64 = self.x as i64 - other.x as i64;
        let dy: i64 = self.y as i64 - other.y as i64;
        let ax: i64 = if dx < 0 { -dx } else { dx };
        let ay: i64 = if dy < 0 { -dy } else { dy };
        (ax + ay) as u32
    }

    /// Manhattan distance, computed without any overflow.
    pub fn manhattan_distance(self, other: Self) -> (d: u64)
        ensures
            d == manhattan_spec(self, other),
    {
        let dx: i64 = self.x as i64 - other.x as i64;
        let dy: i64 = self.y as i64 - other.y as i64;
        let ax: u64 = if dx < 0 { (-dx) as u64 } else { dx as u64 };
        let ay: u64 = if dy < 0 { (-dy) as u64 } else { dy as u64 };
        ax + ay
    }

    /// The position shifted by a movement vector.
    pub fn add(self, delta: (i32, i32)) -> (p: Position)
        requires
            i32::MIN <= self.x + delta.0 <= i32::MAX,
            i32::MIN <= self.y + delta.1 <= i32::MAX,
        ensures
            p == shifted(self, delta.0 as int, delta.1 as int),
    {
        Position::new(self.x + delta.0, self.y + delta.1)
    }

    /// The 4 cardinal neighbours (no bounds filtering), North, East, South, West.
    pub fn neighbors4(self) -> (n: [Position; 4])
        requires
            has_neighbors(self),
        ensures
            n@ == neighbors_spec(self),
    {
        let n = [
            self.add(Direction::North.delta()),
            self.add(Direction::East.delta()),
            self.add(Direction::South.delta()),
            self.add(Direction::West.delta()),
        ];
        assert(n@ =~= neighbors_spec(self));
        n
    }
}

/// Cardinal directions used by robots to move one cell at a time.
#[derive(Debug, Clone, Copy, PartialEq, Eq, Structural)]
pub enum Direction {
    North,
    East,
    South,
    West,
}

/// The movement vector of a direction.
pub open spec fn delta_spec(d: Direction) -> (int, int) {
    match d {
        Direction::North => (0, -1),
        Direction::East => (1, 0),
        Direction::South => (0, 1),
        Direction::West => (-1, 0),
    }
}

impl Direction {
    /// Associated movement vector.
    pub fn delta(self) -> (d: (i32, i32))
        ensures
            d.0 == delta_spec(self).0,
            d.1 == delta_spec(self).1,
    {
        match self {
            Direction::North => (0, -1),
            Direction::East => (1, 0),
            Direction::South => (0, 1),
            Direction::West => (-1, 0),
        }
    }
}

/// Every cardinal neighbour lies at Manhattan distance 1, and every position at
/// Manhattan distance 1 is one of the four cardinal neighbours.
pub proof fn neighbors_are_adjacent(p: Position)
    requires
        has_neighbors(p),
    ensures
        forall|i: int| 0 <= i < 4 ==> adjacent(p, #[trigger] neighbors_spec(p)[i]),
        forall|q: Position| adjacent(p, q) ==> neighbors_spec(p).contains(q),
{
    assert forall|q: Position| adjacent(p, q) implies neighbors_spec(p).contains(q) by {
        if q.x == p.x && q.y == p.y - 1 {
            assert(neighbors_spec(p)[0] == q);
        } else if q.x == p.x + 1 {
            assert(neighbors_spec(p)[1] == q);
        } else if q.x == p.x && q.y == p.y + 1 {
            assert(neighbors_spec(p)[2] == q);
        } else {
            assert(neighbors_spec(p)[3] == q);
        }
    }
}

/// Number of elements of `s` that satisfy `pred`.
pub open spec fn seq_count<A>(s: Seq<A>, pred: spec_fn(A) -> bool) -> nat
    decreases s.len(),
{
    if s.len() == 0 {
        0
    } else {
        seq_count(s.drop_last(), pred) + if pred(s.last()) {
            1nat
        } else {
            0nat
        }
    }
}

/// Sum of `f` over the elements of `s`.
pub open spec fn seq_sum<A>(s: Seq<A>, f: spec_fn(A) -> nat) -> nat
    decreases s.len(),
{
    if s.len() == 0 {
        0
    } else {
        seq_sum(s.drop_last(), f) + f(s.last())
    }
}

/// Extending a prefix by one element adds that element's contribution.
pub proof fn lemma_prefix_step<A>(s: Seq<A>, i: int)
    requires
        0 <= i < s.len(),
    ensures
        s.take(i + 1).drop_last() == s.take(i),
        s.take(i + 1).last() == s[i],
        forall|pred: spec_fn(A) -> bool|
            #[trigger] seq_count(s.take(i + 1), pred) == seq_count(s.take(i), pred) + if pred(s[i]) {
                1nat
            } else {
                0nat
            },
        forall|f: spec_fn(A) -> nat| #[trigger] seq_sum(s.take(i + 1), f) == seq_sum(s.take(i), f) + f(s[i]),
{
    assert(s.take(i + 1).drop_last() =~= s.take(i));
}

/// A prefix never sums to more than the whole sequence.
pub proof fn lemma_sum_prefix_le<A>(s: Seq<A>, f: spec_fn(A) -> nat, i: int)
    requires
        0 <= i <= s.len(),
    ensures
        seq_sum(s.take(i), f) <= seq_sum(s, f),
    decreases s.len(),
{
    if i == s.len() {
        assert(s.take(i) =~= s);
    } else {
        assert(s.drop_last().take(i) =~= s.take(i));
        lemma_sum_prefix_le(s.drop_last(), f, i);
    }
}

/// Replacing one element changes the sum by the difference of contributions.
pub proof fn lemma_sum_update<A>(s: Seq<A>, f: spec_fn(A) -> nat, i: int, v: A)
    requires
        0 <= i < s.len(),
    ensures
        seq_sum(s.update(i, v), f) + f(s[i]) == seq_sum(s, f) + f(v),
    decreases s.len(),
{
    let t = s.update(i, v);
    if i == s.len() - 1 {
        assert(t.drop_last() =~= s.drop_last());
    } else {
        assert(t.drop_last() =~= s.drop_last().update(i, v));
        lemma_sum_update(s.drop_last(), f, i, v);
    }
}

/// Replacing one element changes the count by the difference of contributions.
pub proof fn lemma_count_update<A>(s: Seq<A>, pred: spec_fn(A) -> bool, i: int, v: A)
    requires
        0 <= i < s.len(),
    ensures
        seq_count(s.update(i, v), pred) + (if pred(s[i]) {
            1nat
        } else {
            0nat
        }) == seq_count(s, pred) + (if pred(v) {
            1nat
        } else {
            0nat
        }),
    decreases s.len(),
{
    let t = s.update(i, v);
    if i == s.len() - 1 {
        assert(t.drop_last() =~= s.drop_last());
    } else {
        assert(t.drop_last() =~= s.drop_last().update(i, v));
        lemma_count_update(s.drop_last(), pred, i, v);
    }
}

} // verus!
