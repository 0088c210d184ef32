//! Small keyed tables over grid positions: a map from positions to values and
//! a set of positions, each kept as a vector without repeated keys (insertion
//! order is kept; removal preserves the order of the rest).

use vstd::prelude::*;

use crate::utils::Position;

verus! {

/// The keys of a sequence of entries.
pub open spec fn keys_of<V>(s: Seq<(Position, V)>) -> Seq<Position> {
    s.map_values(|e: (Position, V)| e.0)
}

/// No key occurs twice.
pub open spec fn unique_keys<V>(s: Seq<(Position, V)>) -> bool {
    forall|i: int, j: int| 0 <= i < s.len() && 0 <= j < s.len() && i != j ==> #[trigger] s[i].0 != #[trigger] s[j].0
}

/// Whether some entry has key `p`.
pub open spec fn has_key<V>(s: Seq<(Position, V)>, p: Position) -> bool {
    exists|i: int| 0 <= i < s.len() && #[trigger] s[i].0 == p
}

/// The map that a sequence of entries with unique keys stands for.
pub open spec fn as_map<V>(s: Seq<(Position, V)>) -> Map<Position, V> {
    Map::new(
        |p: Position| has_key(s, p),
        |p: Position| s[choose|i: int| 0 <= i < s.len() && #[trigger] s[i].0 == p].1,
    )
}

/// Entry `i` is what the map holds at its key.
pub proof fn lemma_as_map_at<V>(s: Seq<(Position, V)>, i: int)
    requires
        unique_keys(s),
        0 <= i < s.len(),
    ensures
        as_map(s).contains_key(s[i].0),
        as_map(s)[s[i].0] == s[i].1,
{
    assert(has_key(s, s[i].0));
    let j = choose|j: int| 0 <= j < s.len() && #[trigger] s[j].0 == s[i].0;
    assert(j == i);
}

/// Replacing the value of entry `i` replaces the map's value at its key.
pub proof fn lemma_as_map_update<V>(s: Seq<(Position, V)>, i: int, v: V)
    requires
        unique_keys(s),
        0 <= i < s.len(),
    ensures
        unique_keys(s.update(i, (s[i].0, v))),
        as_map(s.update(i, (s[i].0, v))) == as_map(s).insert(s[i].0, v),
{
    let t = s.update(i, (s[i].0, v));
    assert forall|a: int, b: int| 0 <= a < t.len() && 0 <= b < t.len() && a != b implies #[trigger] t[a].0
        != #[trigger] t[b].0 by {
        assert(t[a].0 == s[a].0 && t[b].0 == s[b].0);
    }
    assert forall|p: Position| #[trigger] as_map(t).contains_key(p) <==> as_map(s).insert(s[i].0, v).contains_key(p) by {
        if has_key(s, p) {
            let j = choose|j: int| 0 <= j < s.len() && #[trigger] s[j].0 == p;
            assert(t[j].0 == p);
        }
        if has_key(t, p) {
            let j = choose|j: int| 0 <= j < t.len() && #[trigger] t[j].0 == p;
            assert(s[j].0 == p);
        }
    }
    assert forall|p: Position| #[trigger] as_map(t).contains_key(p) implies as_map(t)[p] == as_map(s).insert(s[i].0, v)[p] by {
        let j = choose|j: int| 0 <= j < t.len() && #[trigger] t[j].0 == p;
        lemma_as_map_at(t, j);
        if j != i {
            lemma_as_map_at(s, j);
        }
    }
    assert(as_map(t) =~= as_map(s).insert(s[i].0, v));
}

/// Appending an entry with a new key adds it to the map.
pub proof fn lemma_as_map_push<V>(s: Seq<(Position, V)>, p: Position, v: V)
    requires
        unique_keys(s),
        !has_key(s, p),
    ensures
        unique_keys(s.push((p, v))),
        as_map(s.push((p, v))) == as_map(s).insert(p, v),
{
    let t = s.push((p, v));
    assert forall|a: int, b: int| 0 <= a < t.len() && 0 <= b < t.len() && a != b implies #[trigger] t[a].0
        != #[trigger] t[b].0 by {
        if a < s.len() && b < s.len() {
            assert(t[a] == s[a] && t[b] == s[b]);
        } else if a < s.len() {
            assert(t[a] == s[a]);
        } else {
            assert(t[b] == s[b]);
        }
    }
    assert forall|q: Position| #[trigger] as_map(t).contains_key(q) <==> as_map(s).insert(p, v).contains_key(q) by {
        if has_key(s, q) {
            let j = choose|j: int| 0 <= j < s.len() && #[trigger] s[j].0 == q;
            assert(t[j].0 == q);
        }
        if q == p {
            assert(t[s.len() as int].0 == p);
        }
        if has_key(t, q) && q != p {
            let j = choose|j: int| 0 <= j < t.len() && #[trigger] t[j].0 == q;
            assert(s[j].0 == q);
        }
    }
    assert forall|q: Position| #[trigger] as_map(t).contains_key(q) implies as_map(t)[q] == as_map(s).insert(p, v)[q] by {
        let j = choose|j: int| 0 <= j < t.len() && #[trigger] t[j].0 == q;
        lemma_as_map_at(t, j);
        if j < s.len() {
            assert(t[j] == s[j]);
            lemma_as_map_at(s, j);
        }
    }
    assert(as_map(t) =~= as_map(s).insert(p, v));
}

/// Removing entry `i` removes its key from the map.
pub proof fn lemma_as_map_remove<V>(s: Seq<(Position, V)>, i: int)
    requires
        unique_keys(s),
        0 <= i < s.len(),
    ensures
        unique_keys(s.remove(i)),
        as_map(s.remove(i)) == as_map(s).remove(s[i].0),
{
    let t = s.remove(i);
    assert forall|a: int| 0 <= a < t.len() implies #[trigger] t[a] == s[if a < i {
        a
    } else {
        a + 1
    }] by {}
    assert forall|a: int, b: int| 0 <= a < t.len() && 0 <= b < t.len() && a != b implies #[trigger] t[a].0
        != #[trigger] t[b].0 by {
        assert(t[a] == s[if a < i { a } else { a + 1 }]);
        assert(t[b] == s[if b < i { b } else { b + 1 }]);
    }
    assert forall|q: Position| #[trigger] as_map(t).contains_key(q) <==> as_map(s).remove(s[i].0).contains_key(q) by {
        if has_key(s, q) && q != s[i].0 {
            let j = choose|j: int| 0 <= j < s.len() && #[trigger] s[j].0 == q;
            if j < i {
                assert(t[j].0 == q);
            } else {
                assert(t[j - 1] == s[j]);
            }
        }
        if has_key(t, q) {
            let j = choose|j: int| 0 <= j < t.len() && #[trigger] t[j].0 == q;
            let k = if j < i { j } else { j + 1 };
            assert(t[j] == s[k]);
            assert(k != i);
        }
    }
    assert forall|q: Position| #[trigger] as_map(t).contains_key(q) implies as_map(t)[q] == as_map(s).remove(s[i].0)[q] by {
        let j = choose|j: int| 0 <= j < t.len() && #[trigger] t[j].0 == q;
        lemma_as_map_at(t, j);
        let k = if j < i { j } else { j + 1 };
        assert(t[j] == s[k]);
        lemma_as_map_at(s, k);
    }
    assert(as_map(t) =~= as_map(s).remove(s[i].0));
}

/// The key set of the map is finite and has one key per entry.
pub proof fn lemma_as_map_len<V>(s: Seq<(Position, V)>)
    requires
        unique_keys(s),
    ensures
        as_map(s).dom().finite(),
        as_map(s).dom().len() == s.len(),
{
    let k = keys_of(s);
    assert(k.no_duplicates()) by {
        assert forall|a: int, b: int| 0 <= a < k.len() && 0 <= b < k.len() && a != b implies k[a] != k[b] by {
            assert(k[a] == s[a].0 && k[b] == s[b].0);
        }
    }
    k.unique_seq_to_set();
    assert forall|p: Position| #[trigger] k.to_set().contains(p) <==> as_map(s).dom().contains(p) by {
        if k.to_set().contains(p) {
            let j = choose|j: int| 0 <= j < k.len() && k[j] == p;
            assert(s[j].0 == p);
        }
        if has_key(s, p) {
            let j = choose|j: int| 0 <= j < s.len() && #[trigger] s[j].0 == p;
            assert(k[j] == p);
        }
    }
    assert(k.to_set() =~= as_map(s).dom());
}

/// A map from grid positions to values.
#[derive(Debug, Clone)]
pub struct PositionMap<V> {
    entries: Vec<(Position, V)>,
}

impl<V> View for PositionMap<V> {
    type V = Seq<(Position, V)>;

    closed spec fn view(&self) -> Seq<(Position, V)> {
        self.entries@
    }
}

impl<V: Copy> PositionMap<V> {
    /// Well-formedness: no key occurs twice.
    pub open spec fn wf(&self) -> bool {
        unique_keys(self@)
    }

    /// The map the table stands for.
    pub open spec fn map(&self) -> Map<Position, V> {
        as_map(self@)
    }

    pub fn new() -> (t: Self)
        ensures
            t.wf(),
            t@ == Seq::<(Position, V)>::empty(),
            t.map() == Map::<Position, V>::empty(),
    {
        let t = PositionMap { entries: Vec::new() };
        assert(t.map() =~= Map::<Position, V>::empty());
        t
    }

    /// Number of keys.
    pub fn len(&self) -> (n: usize)
        requires
            self.wf(),
        ensures
            n == self@.len(),
            n == self.map().dom().len(),
            self.map().dom().finite(),
    {
        proof {
            lemma_as_map_len(self@);
        }
        self.entries.len()
    }

    /// The key set is finite and has one key per entry.
    pub proof fn lemma_len(&self)
        requires
            self.wf(),
        ensures
            self.map().dom().finite(),
            self.map().dom().len() == self@.len(),
    {
        lemma_as_map_len(self@);
    }

    /// The entries, in table order.
    pub fn entries(&self) -> (e: &Vec<(Position, V)>)
        ensures
            e@ == self@,
    {
        &self.entries
    }

    fn find(&self, p: Position) -> (i: Option<usize>)
        ensures
            match i {
                Some(k) => k < self@.len() && self@[k as int].0 == p,
                None => !has_key(self@, p),
            },
    {
        let mut k: usize = 0;
        while k < self.entries.len()
            invariant
                k <= self.entries.len(),
                forall|j: int| 0 <= j < k ==> #[trigger] self.entries@[j].0 != p,
            decreases self.entries.len() - k,
        {
            if self.entries[k].0 == p {
                return Some(k);
            }
            k = k + 1;
        }
        None
    }

    /// The value at `p`, if any.
    pub fn get(&self, p: Position) -> (v: Option<V>)
        requires
            self.wf(),
        ensures
            v == if self.map().contains_key(p) {
                Some(self.map()[p])
            } else {
                None::<V>
            },
    {
        match self.find(p) {
            Some(k) => {
                proof {
                    lemma_as_map_at(self@, k as int);
                }
                Some(self.entries[k].1)
            },
            None => None,
        }
    }

    /// True if `p` has a value.
    pub fn contains_key(&self, p: Position) -> (b: bool)
        ensures
            b == self.map().contains_key(p),
    {
        self.find(p).is_some()
    }

    /// Sets the value at `p`: an existing entry keeps its place in the table,
    /// a new one goes last.
    pub fn insert(&mut self, p: Position, v: V)
        requires
            old(self).wf(),
        ensures
            final(self).wf(),
            final(self).map() == old(self).map().insert(p, v),
            final(self)@ == table_insert(old(self)@, p, v),
    {
        match self.find(p) {
            Some(k) => {
                proof {
                    lemma_as_map_update(self@, k as int, v);
                    lemma_find_spec(self@, k as int);
                }
                self.entries.set(k, (p, v));
            },
            None => {
                proof {
                    lemma_as_map_push(self@, p, v);
                }
                self.entries.push((p, v));
            },
        }
    }

    /// Removes the value at `p`, if any; the other entries keep their order.
    pub fn remove(&mut self, p: Position)
        requires
            old(self).wf(),
        ensures
            final(self).wf(),
            final(self).map() == old(self).map().remove(p),
            final(self)@ == table_remove(old(self)@, p),
    {
        match self.find(p) {
            Some(k) => {
                proof {
                    lemma_as_map_remove(self@, k as int);
                    lemma_find_spec(self@, k as int);
                }
                self.entries.remove(k);
            },
            None => {
                assert(self.map() =~= self.map().remove(p));
            },
        }
    }

    /// Removes every entry.
    pub fn clear(&mut self)
        ensures
            final(self).wf(),
            final(self)@ == Seq::<(Position, V)>::empty(),
            final(self).map() == Map::<Position, V>::empty(),
    {
        self.entries.clear();
        assert(self.map() =~= Map::<Position, V>::empty());
    }

    /// The index of the entry with key `p`, if any.
    pub open spec fn find_spec(&self, p: Position) -> Option<int> {
        if has_key(self@, p) {
            Some(choose|i: int| 0 <= i < self@.len() && #[trigger] self@[i].0 == p)
        } else {
            None
        }
    }
}

/// The entries after setting the value at `p`.
pub open spec fn table_insert<V>(s: Seq<(Position, V)>, p: Position, v: V) -> Seq<(Position, V)> {
    if has_key(s, p) {
        s.update(choose|i: int| 0 <= i < s.len() && #[trigger] s[i].0 == p, (p, v))
    } else {
        s.push((p, v))
    }
}

/// The entries after removing the value at `p`.
pub open spec fn table_remove<V>(s: Seq<(Position, V)>, p: Position) -> Seq<(Position, V)> {
    if has_key(s, p) {
        s.remove(choose|i: int| 0 <= i < s.len() && #[trigger] s[i].0 == p)
    } else {
        s
    }
}

/// The positions after adding `p`.
pub open spec fn list_insert(s: Seq<Position>, p: Position) -> Seq<Position> {
    if s.contains(p) {
        s
    } else {
        s.push(p)
    }
}

/// In a table without repeated keys, the entry found for a key is the one
/// that holds it.
pub proof fn lemma_find_spec<V>(s: Seq<(Position, V)>, k: int)
    requires
        unique_keys(s),
        0 <= k < s.len(),
    ensures
        (choose|i: int| 0 <= i < s.len() && #[trigger] s[i].0 == s[k].0) == k,
{
    let i = choose|i: int| 0 <= i < s.len() && #[trigger] s[i].0 == s[k].0;
    assert(s[k].0 == s[k].0);
}

/// A set of grid positions.
#[derive(Debug, Clone)]
pub struct PositionSet {
    items: Vec<Position>,
}

impl View for PositionSet {
    type V = Seq<Position>;

    closed spec fn view(&self) -> Seq<Position> {
        self.items@
    }
}

impl PositionSet {
    /// Well-formedness: no position occurs twice.
    pub open spec fn wf(&self) -> bool {
        self@.no_duplicates()
    }

    /// The set the table stands for.
    pub open spec fn set(&self) -> Set<Position> {
        self@.to_set()
    }

    pub fn new() -> (s: Self)
        ensures
            s.wf(),
            s@ == Seq::<Position>::empty(),
    {
        PositionSet { items: Vec::new() }
    }

    /// Number of positions.
    pub fn len(&self) -> (n: usize)
        requires
            self.wf(),
        ensures
            n == self@.len(),
            n == self.set().len(),
    {
        proof {
            self@.unique_seq_to_set();
        }
        self.items.len()
    }

    /// The positions, in insertion order.
    pub fn items(&self) -> (v: &Vec<Position>)
        ensures
            v@ == self@,
    {
        &self.items
    }

    pub fn contains(&self, p: Position) -> (b: bool)
        ensures
            b == self@.contains(p),
    {
        crate::pathfinding::contains_position(&self.items, p)
    }

    /// Adds `p`; returns true if it was not there yet.
    pub fn insert(&mut self, p: Position) -> (added: bool)
        requires
            old(self).wf(),
        ensures
            final(self).wf(),
            added == !old(self)@.contains(p),
            final(self)@ == list_insert(old(self)@, p),
            final(self).set() == old(self).set().insert(p),
    {
        if self.contains(p) {
            assert(self.set() =~= self.set().insert(p));
            false
        } else {
            self.items.push(p);
            assert(self@.to_set() =~= old(self)@.to_set().insert(p)) by {
                assert forall|q: Position| self@.contains(q) <==> (old(self)@.contains(q) || q == p) by {
                    if self@.contains(q) {
                        let k = choose|k: int| 0 <= k < self@.len() && self@[k] == q;
                        if k < old(self)@.len() {
                            assert(old(self)@[k] == q);
                        }
                    }
                    if old(self)@.contains(q) {
                        let k = choose|k: int| 0 <= k < old(self)@.len() && old(self)@[k] == q;
                        assert(self@[k] == q);
                    }
                    if q == p {
                        assert(self@[self@.len() - 1] == p);
                    }
                }
            }
            true
        }
    }

    /// Removes every position.
    pub fn clear(&mut self)
        ensures
            final(self).wf(),
            final(self)@ == Seq::<Position>::empty(),
    {
        self.items.clear();
    }
}

} // verus!
