//! Procedural map generation.
//!
//! Each cell is either flagged as an obstacle by a noise mask or left free;
//! the base and its immediate neighbours always stay clear (safe spawn). The
//! mask itself is sampled from Perlin noise by the application.

use vstd::prelude::*;

use crate::utils::{abs_int, Position};
use crate::world::map::{lemma_index_of, lemma_position_of, MapModel, WorldMap};
use crate::world::tile::{walkable_tile, Tile};

verus! {

/// Whether `p` lies in the square of half-side `radius` around `base`.
pub open spec fn safe_zone_spec(p: Position, base: Position, radius: int) -> bool {
    abs_int(p.x - base.x) <= radius && abs_int(p.y - base.y) <= radius
}

/// The tile that generation puts in cell `i`.
pub open spec fn generated_tile(m: MapModel, i: int, safe_radius: int, mask: Seq<bool>) -> Tile {
    if !safe_zone_spec(m.position_of(i), m.base, safe_radius) && mask[i] {
        Tile::Obstacle
    } else if i == m.index_of(m.base) {
        Tile::Base
    } else {
        Tile::Empty
    }
}

/// True if `p` is inside the square of side `2*radius` around `base`.
pub fn is_in_safe_zone(p: Position, base: Position, radius: i32) -> (b: bool)
    requires
        i32::MIN < p.x - base.x <= i32::MAX,
        i32::MIN < p.y - base.y <= i32::MAX,
    ensures
        b == safe_zone_spec(p, base, radius as int),
{
    let dx = p.x - base.x;
    let dy = p.y - base.y;
    let ax = if dx < 0 { -dx } else { dx };
    let ay = if dy < 0 { -dy } else { dy };
    ax <= radius && ay <= radius
}

impl WorldMap {
    /// Generates a `width x height` map whose obstacles are the cells flagged
    /// in `obstacle_mask` (row-major), except the cells within `safe_radius` of
    /// the base, which stay clear.
    pub fn generate_from_mask(
        width: usize,
        height: usize,
        safe_radius: i32,
        obstacle_mask: &Vec<bool>,
    ) -> (map: WorldMap)
        requires
            width > 0 && height > 0,
            width <= i32::MAX && height <= i32::MAX,
            obstacle_mask.len() == width * height,
        ensures
            map@.wf(),
            map@.width == width,
            map@.height == height,
            forall|i: int|
                0 <= i < map@.tiles.len() ==> #[trigger] map@.tiles[i] == generated_tile(
                    map@,
                    i,
                    safe_radius as int,
                    obstacle_mask@,
                ),
            // The safe zone around the base is always walkable.
            forall|p: Position|
                map@.in_bounds(p) && safe_zone_spec(p, map@.base, safe_radius as int)
                    ==> #[trigger] map@.walkable(p),
            // Outside it, cell (x, y) is an obstacle exactly when the mask flags
            // entry `y * width + x`, and no cell holds a deposit.
            forall|p: Position|
                map@.in_bounds(p) && (abs_int(p.x - map@.base.x) > safe_radius || abs_int(p.y - map@.base.y)
                    > safe_radius) ==> (#[trigger] map@.tile(p) == Tile::Obstacle <==> obstacle_mask@[p.y * width + p.x]),
            forall|p: Position| map@.in_bounds(p) ==> !(#[trigger] map@.tile(p) is Resource),
    {
        let mut map = WorldMap::empty(width, height);
        let base = map.base();
        let ghost m0 = map@;
        let n = width * height;
        let mut i: usize = 0;
        while i < n
            invariant
                m0.wf(),
                n == m0.tiles.len(),
                width == m0.width,
                obstacle_mask.len() == n,
                base == m0.base,
                i <= n,
                map@.wf(),
                map@.width == m0.width,
                map@.height == m0.height,
                map@.base == m0.base,
                map@.tiles.len() == n,
                m0.tiles == Seq::new(
                    n as nat,
                    |k: int| if k == m0.index_of(m0.base) {
                        Tile::Base
                    } else {
                        Tile::Empty
                    },
                ),
                forall|k: int|
                    0 <= k < i ==> #[trigger] map@.tiles[k] == generated_tile(
                        m0,
                        k,
                        safe_radius as int,
                        obstacle_mask@,
                    ),
                forall|k: int| i <= k < n ==> #[trigger] map@.tiles[k] == m0.tiles[k],
            decreases n - i,
        {
            proof {
                lemma_position_of(m0, i as int);
            }
            let p = Position::new((i % width) as i32, (i / width) as i32);
            assert(p == m0.position_of(i as int));
            if !is_in_safe_zone(p, base, safe_radius) && obstacle_mask[i] {
                map.set(p, Tile::Obstacle);
            }
            i = i + 1;
        }
        proof {
            assert forall|p: Position|
                map@.in_bounds(p) && safe_zone_spec(p, map@.base, safe_radius as int)
                implies #[trigger] map@.walkable(p) by {
                lemma_index_of(m0, p);
                let k = m0.index_of(p);
                assert(map@.tiles[k] == generated_tile(m0, k, safe_radius as int, obstacle_mask@));
            }
            assert forall|p: Position| map@.in_bounds(p) implies {
                &&& (abs_int(p.x - map@.base.x) > safe_radius || abs_int(p.y - map@.base.y) > safe_radius) ==> (
                #[trigger] map@.tile(p) == Tile::Obstacle <==> obstacle_mask@[p.y * width + p.x])
                &&& !(map@.tile(p) is Resource)
            } by {
                lemma_index_of(m0, p);
                generation_follows_the_mask(m0, safe_radius as int, obstacle_mask@, p);
                let k = m0.index_of(p);
                assert(map@.tiles[k] == generated_tile(m0, k, safe_radius as int, obstacle_mask@));
            }
        }
        map
    }
}

/// Generation follows the mask cell by cell: outside the safe square around
/// the base, cell (x, y) holds an obstacle exactly when the mask flags entry
/// `y * width + x` (the mask is read row by row); inside the square no cell
/// holds one, and with a nonnegative radius the base cell holds the base. No
/// cell holds a deposit.
pub proof fn generation_follows_the_mask(m: MapModel, safe_radius: int, mask: Seq<bool>, p: Position)
    requires
        m.wf(),
        m.in_bounds(p),
        mask.len() == m.tiles.len(),
    ensures
        ({
            let t = generated_tile(m, p.y * m.width + p.x, safe_radius, mask);
            &&& (abs_int(p.x - m.base.x) > safe_radius || abs_int(p.y - m.base.y) > safe_radius) ==> (t
                == Tile::Obstacle <==> mask[p.y * m.width + p.x])
            &&& (abs_int(p.x - m.base.x) <= safe_radius && abs_int(p.y - m.base.y) <= safe_radius) ==> t
                != Tile::Obstacle
            &&& (p == m.base && safe_radius >= 0) ==> t == Tile::Base
            &&& !(t is Resource)
        }),
{
    lemma_index_of(m, p);
    lemma_index_of(m, m.base);
    if p != m.base {
        assert(m.index_of(p) != m.index_of(m.base)) by {
            assert(m.position_of(m.index_of(p)) == p);
            assert(m.position_of(m.index_of(m.base)) == m.base);
        }
    }
}

} // verus!
