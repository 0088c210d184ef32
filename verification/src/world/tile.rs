//! Single map cell.

use vstd::prelude::*;

use crate::world::resource::Resource;

verus! {

/// State of a grid cell.
#[derive(Debug, Clone, Copy, PartialEq, Eq, Structural, Default)]
pub enum Tile {
    /// Free, walkable cell.
    #[default]
    Empty,
    /// Impassable obstacle, drawn `O` (cyan).
    Obstacle,
    /// Central base, drawn `#` (green).
    Base,
    /// Collectable resource sitting on the cell.
    Resource(Resource),
}

/// Every tile but an obstacle can be walked over.
pub open spec fn walkable_tile(t: Tile) -> bool {
    !(t is Obstacle)
}

impl Tile {
    /// Can a robot walk over this cell?
    pub fn is_walkable(&self) -> (b: bool)
        ensures
            b == walkable_tile(*self),
    {
        !matches!(self, Tile::Obstacle)
    }
}

} // verus!
