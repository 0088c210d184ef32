//! `WorldMap`: 2D grid of [`Tile`] with bounds-checked access.

use vstd::prelude::*;

use vstd::arithmetic::div_mod::lemma_fundamental_div_mod_converse;

use crate::utils::{lemma_prefix_step, lemma_sum_prefix_le, seq_count, seq_sum, Position};
use crate::world::resource::{Resource, ResourceKind};
use crate::world::tile::{walkable_tile, Tile};

verus! {

/// The mathematical content of a map.
pub ghost struct MapModel {
    pub width: nat,
    pub height: nat,
    pub base: Position,
    /// Row-major cells: the cell `(x, y)` is at `y * width + x`.
    pub tiles: Seq<Tile>,
}

/// Whether the tile is an obstacle.
pub open spec fn is_obstacle(t: Tile) -> bool {
    t is Obstacle
}

/// Whether the tile is a deposit of the given kind.
pub open spec fn is_deposit_of(t: Tile, kind: ResourceKind) -> bool {
    t matches Tile::Resource(r) && r.kind == kind
}

/// Units held by the tile if it is a deposit of the given kind, else zero.
pub open spec fn units_of(t: Tile, kind: ResourceKind) -> nat {
    match t {
        Tile::Resource(r) => if r.kind == kind {
            r.quantity as nat
        } else {
            0
        },
        _ => 0,
    }
}

/// Total units of the given kind over a sequence of tiles.
pub open spec fn total_units(tiles: Seq<Tile>, kind: ResourceKind) -> nat {
    seq_sum(tiles, |t: Tile| units_of(t, kind))
}

/// Number of deposits of the given kind over a sequence of tiles.
pub open spec fn deposit_count(tiles: Seq<Tile>, kind: ResourceKind) -> nat {
    seq_count(tiles, |t: Tile| is_deposit_of(t, kind))
}

/// Number of obstacles over a sequence of tiles.
pub open spec fn obstacle_count(tiles: Seq<Tile>) -> nat {
    seq_count(tiles, |t: Tile| is_obstacle(t))
}

/// The tile that remains once one unit is taken from a deposit.
pub open spec fn after_take(r: Resource) -> Tile {
    if r.quantity - 1 == 0 {
        Tile::Empty
    } else {
        Tile::Resource(Resource { kind: r.kind, quantity: (r.quantity - 1) as u32 })
    }
}

impl MapModel {
    /// Well-formedness: positive dimensions that `i32` coordinates can address,
    /// one tile per cell and the base at the centre.
    pub open spec fn wf(self) -> bool {
        &&& 0 < self.width <= i32::MAX
        &&& 0 < self.height <= i32::MAX
        &&& self.tiles.len() == self.width * self.height
        &&& self.base == Position {
            x: (self.width / 2) as i32,
            y: (self.height / 2) as i32,
        }
    }

    /// The route search sums `u32` step costs along routes, none longer than
    /// the map has cells: a cell count within `u32` keeps every cost in range.
    pub open spec fn searchable(self) -> bool {
        self.width * self.height <= u32::MAX
    }

    pub open spec fn in_bounds(self, p: Position) -> bool {
        0 <= p.x < self.width && 0 <= p.y < self.height
    }

    pub open spec fn index_of(self, p: Position) -> int {
        p.y * self.width + p.x
    }

    pub open spec fn position_of(self, i: int) -> Position {
        Position { x: (i % (self.width as int)) as i32, y: (i / (self.width as int)) as i32 }
    }

    /// The tile at an in-bounds position.
    pub open spec fn tile(self, p: Position) -> Tile {
        self.tiles[self.index_of(p)]
    }

    /// The tile at a position, `None` out of bounds.
    pub open spec fn get(self, p: Position) -> Option<Tile> {
        if self.in_bounds(p) {
            Some(self.tile(p))
        } else {
            None
        }
    }

    /// In bounds and not an obstacle.
    pub open spec fn walkable(self, p: Position) -> bool {
        self.in_bounds(p) && walkable_tile(self.tile(p))
    }

    /// The same map with one cell replaced.
    pub open spec fn with_tile(self, p: Position, t: Tile) -> MapModel {
        MapModel { tiles: self.tiles.update(self.index_of(p), t), ..self }
    }
}

/// In-bounds positions and cell indices correspond one to one.
pub proof fn lemma_index_of(m: MapModel, p: Position)
    requires
        m.wf(),
        m.in_bounds(p),
    ensures
        0 <= m.index_of(p) < m.tiles.len(),
        m.position_of(m.index_of(p)) == p,
{
    let w = m.width as int;
    let h = m.height as int;
    let x = p.x as int;
    let y = p.y as int;
    assert(0 <= y * w + x < w * h) by (nonlinear_arith)
        requires
            0 <= x < w,
            0 <= y < h,
    ;
    lemma_fundamental_div_mod_converse(y * w + x, w, y, x);
}

/// Every cell index is the index of an in-bounds position.
pub proof fn lemma_position_of(m: MapModel, i: int)
    requires
        m.wf(),
        0 <= i < m.tiles.len(),
    ensures
        m.in_bounds(m.position_of(i)),
        m.index_of(m.position_of(i)) == i,
{
    let w = m.width as int;
    let h = m.height as int;
    let q = i / w;
    let r = i % w;
    assert(i == w * q + r && 0 <= r < w) by {
        vstd::arithmetic::div_mod::lemma_fundamental_div_mod(i, w);
        vstd::arithmetic::div_mod::lemma_mod_bound(i, w);
    }
    assert(0 <= q < h) by (nonlinear_arith)
        requires
            i == w * q + r,
            0 <= r < w,
            0 <= i < w * h,
            w > 0,
    ;
    assert(q * w == w * q) by (nonlinear_arith);
}

/// Taking one unit from a deposit lowers the total of its kind by exactly one
/// and leaves the total of the other kind unchanged; the deposit count of its
/// kind drops by one exactly when the deposit is exhausted.
pub proof fn take_removes_exactly_one_unit(m: MapModel, p: Position, r: Resource, kind: ResourceKind)
    requires
        m.wf(),
        m.get(p) == Some(Tile::Resource(r)),
        r.quantity > 0,
    ensures
        total_units(m.with_tile(p, after_take(r)).tiles, kind) + (if kind == r.kind {
            1int
        } else {
            0int
        }) == total_units(m.tiles, kind),
        deposit_count(m.with_tile(p, after_take(r)).tiles, kind) + (if kind == r.kind
            && r.quantity == 1 {
            1int
        } else {
            0int
        }) == deposit_count(m.tiles, kind),
{
    lemma_index_of(m, p);
    crate::utils::lemma_sum_update(m.tiles, |t: Tile| units_of(t, kind), m.index_of(p), after_take(r));
    crate::utils::lemma_count_update(m.tiles, |t: Tile| is_deposit_of(t, kind), m.index_of(p), after_take(r));
}

/// World map, a `width x height` grid stored row-major (`tiles[y * width + x]`).
#[derive(Debug, Clone)]
pub struct WorldMap {
    width: usize,
    height: usize,
    tiles: Vec<Tile>,
    base: Position,
}

impl View for WorldMap {
    type V = MapModel;

    closed spec fn view(&self) -> MapModel {
        MapModel {
            width: self.width as nat,
            height: self.height as nat,
            base: self.base,
            tiles: self.tiles@,
        }
    }
}

impl WorldMap {
    /// Empty map (all walkable) with the base at the center.
    pub fn empty(width: usize, height: usize) -> (map: Self)
        requires
            width > 0 && height > 0,
            width <= i32::MAX && height <= i32::MAX,
            width * height <= usize::MAX,
        ensures
            map@.wf(),
            map@.width == width,
            map@.height == height,
            map@.tiles == Seq::new(
                (width * height) as nat,
                |i: int| if i == map@.index_of(map@.base) {
                    Tile::Base
                } else {
                    Tile::Empty
                },
            ),
    {
        let n = width * height;
        let mut tiles: Vec<Tile> = Vec::new();
        let mut i: usize = 0;
        while i < n
            invariant
                i <= n,
                tiles@ == Seq::new(i as nat, |k: int| Tile::Empty),
            decreases n - i,
        {
            tiles.push(Tile::Empty);
            i = i + 1;
            assert(tiles@ =~= Seq::new(i as nat, |k: int| Tile::Empty));
        }
        let base = Position::new((width / 2) as i32, (height / 2) as i32);
        let map0 = WorldMap { width, height, tiles, base };
        proof {
            lemma_index_of(map0@, base);
        }
        let idx = base.y as usize * width + base.x as usize;
        let mut tiles = map0.tiles;
        tiles.set(idx, Tile::Base);
        let map = WorldMap { width, height, tiles, base };
        assert(map@.tiles =~= Seq::new(
            (width * height) as nat,
            |i: int| if i == map@.index_of(map@.base) {
                Tile::Base
            } else {
                Tile::Empty
            },
        ));
        map
    }

    pub fn width(&self) -> (w: usize)
        ensures
            w == self@.width,
    {
        self.width
    }

    pub fn height(&self) -> (h: usize)
        ensures
            h == self@.height,
    {
        self.height
    }

    pub fn base(&self) -> (b: Position)
        ensures
            b == self@.base,
    {
        self.base
    }

    /// True if `p` is inside the grid.
    pub fn in_bounds(&self, p: Position) -> (b: bool)
        ensures
            b == self@.in_bounds(p),
    {
        p.x >= 0 && p.y >= 0 && (p.x as usize) < self.width && (p.y as usize) < self.height
    }

    /// Number of cells.
    pub(crate) fn tiles_len(&self) -> (n: usize)
        ensures
            n == self@.tiles.len(),
    {
        self.tiles.len()
    }

    /// Row-major index of an in-bounds cell.
    pub(crate) fn cell_index(&self, p: Position) -> (i: usize)
        requires
            self@.wf(),
            self@.in_bounds(p),
        ensures
            i == self@.index_of(p),
            i < self@.tiles.len(),
    {
        self.index(p)
    }

    fn index(&self, p: Position) -> (i: usize)
        requires
            self@.wf(),
            self@.in_bounds(p),
        ensures
            i == self@.index_of(p),
            i < self@.tiles.len(),
    {
        proof {
            lemma_index_of(self@, p);
        }
        assert(self@.tiles.len() == self.tiles.len());
        assert(p.y as usize * self.width <= p.y * self.width + p.x);
        p.y as usize * self.width + p.x as usize
    }

    /// Read access (None if out of bounds).
    pub fn get(&self, p: Position) -> (t: Option<&Tile>)
        requires
            self@.wf(),
        ensures
            t matches Some(tile) ==> self@.get(p) == Some(*tile),
            t is None ==> self@.get(p) is None,
    {
        if self.in_bounds(p) {
            Some(&self.tiles[self.index(p)])
        } else {
            None
        }
    }

    /// Writes a tile at an in-bounds position.
    pub fn set(&mut self, p: Position, tile: Tile)
        requires
            old(self)@.wf(),
            old(self)@.in_bounds(p),
        ensures
            final(self)@ == old(self)@.with_tile(p, tile),
            final(self)@.wf(),
    {
        let i = self.index(p);
        self.tiles.set(i, tile);
    }

    /// Removes one unit from the resource at `position`.
    ///
    /// Returns `(kind, remaining)` after the take, or `None` if there is no
    /// resource there. The tile becomes `Empty` once the deposit is exhausted.
    pub fn take_resource_unit(&mut self, position: Position) -> (taken: Option<(ResourceKind, u32)>)
        requires
            old(self)@.wf(),
        ensures
            final(self)@.wf(),
            match old(self)@.get(position) {
                Some(Tile::Resource(r)) if r.quantity > 0 => {
                    &&& taken == Some((r.kind, (r.quantity - 1) as u32))
                    &&& final(self)@ == old(self)@.with_tile(position, after_take(r))
                },
                _ => taken is None && final(self)@ == old(self)@,
            },
    {
        let current = match self.get(position) {
            Some(t) => *t,
            None => {
                return None;
            },
        };
        match current {
            Tile::Resource(resource) => {
                if resource.quantity > 0 {
                    let remaining = resource.quantity - 1;
                    let result = (resource.kind, remaining);
                    let tile = if remaining == 0 {
                        Tile::Empty
                    } else {
                        Tile::Resource(Resource::new(resource.kind, remaining))
                    };
                    self.set(position, tile);
                    Some(result)
                } else {
                    None
                }
            },
            _ => None,
        }
    }

    /// True if `p` is walkable.
    pub fn is_walkable(&self, p: Position) -> (b: bool)
        requires
            self@.wf(),
        ensures
            b == self@.walkable(p),
    {
        match self.get(p) {
            Some(t) => t.is_walkable(),
            None => false,
        }
    }

    /// Every tile with its position, in row-major order.
    pub fn iter(&self) -> (cells: Vec<(Position, Tile)>)
        requires
            self@.wf(),
        ensures
            cells.len() == self@.tiles.len(),
            forall|i: int|
                0 <= i < cells.len() ==> #[trigger] cells@[i] == (
                    self@.position_of(i),
                    self@.tiles[i],
                ),
    {
        let w = self.width;
        let n = self.tiles.len();
        let mut cells: Vec<(Position, Tile)> = Vec::new();
        let mut i: usize = 0;
        while i < n
            invariant
                self@.wf(),
                w == self@.width,
                n == self@.tiles.len(),
                i <= n,
                cells.len() == i,
                forall|k: int|
                    0 <= k < i ==> #[trigger] cells@[k] == (self@.position_of(k), self@.tiles[k]),
            decreases n - i,
        {
            proof {
                lemma_position_of(self@, i as int);
            }
            let p = Position::new((i % w) as i32, (i / w) as i32);
            cells.push((p, self.tiles[i]));
            i = i + 1;
        }
        cells
    }

    /// Counts obstacles on the map.
    pub fn count_obstacles(&self) -> (n: usize)
        ensures
            n == obstacle_count(self@.tiles),
    {
        let mut n: usize = 0;
        let mut i: usize = 0;
        while i < self.tiles.len()
            invariant
                i <= self.tiles.len(),
                n == obstacle_count(self@.tiles.take(i as int)),
                n <= i,
            decreases self.tiles.len() - i,
        {
            proof {
                lemma_prefix_step(self@.tiles, i as int);
            }
            if matches!(self.tiles[i], Tile::Obstacle) {
                n = n + 1;
            }
            i = i + 1;
        }
        assert(self@.tiles.take(i as int) =~= self@.tiles);
        n
    }

    /// Counts resource deposits of a given kind.
    pub fn count_resources(&self, kind: ResourceKind) -> (n: usize)
        ensures
            n == deposit_count(self@.tiles, kind),
    {
        let mut n: usize = 0;
        let mut i: usize = 0;
        while i < self.tiles.len()
            invariant
                i <= self.tiles.len(),
                n == deposit_count(self@.tiles.take(i as int), kind),
                n <= i,
            decreases self.tiles.len() - i,
        {
            proof {
                lemma_prefix_step(self@.tiles, i as int);
            }
            let hit = match self.tiles[i] {
                Tile::Resource(r) => r.kind == kind,
                _ => false,
            };
            if hit {
                n = n + 1;
            }
            i = i + 1;
        }
        assert(self@.tiles.take(i as int) =~= self@.tiles);
        n
    }

    /// Sums the remaining units across all deposits of a given kind.
    pub fn sum_resource_quantity(&self, kind: ResourceKind) -> (total: u32)
        requires
            total_units(self@.tiles, kind) <= u32::MAX,
        ensures
            total == total_units(self@.tiles, kind),
    {
        let mut total: u32 = 0;
        let mut i: usize = 0;
        while i < self.tiles.len()
            invariant
                i <= self.tiles.len(),
                total == total_units(self@.tiles.take(i as int), kind),
                total_units(self@.tiles, kind) <= u32::MAX,
            decreases self.tiles.len() - i,
        {
            proof {
                lemma_prefix_step(self@.tiles, i as int);
                lemma_sum_prefix_le(self@.tiles, |t: Tile| units_of(t, kind), i + 1);
            }
            let add = match self.tiles[i] {
                Tile::Resource(r) => if r.kind == kind {
                    r.quantity
                } else {
                    0
                },
                _ => 0,
            };
            total = total + add;
            i = i + 1;
        }
        assert(self@.tiles.take(i as int) =~= self@.tiles);
        total
    }
}

} // verus!
