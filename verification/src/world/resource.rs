//! Collectable resource types (energy / crystals).

use vstd::prelude::*;

use rand::rngs::StdRng;

use crate::rng::random_in_range;

verus! {

/// Kind of a resource on the map.
#[derive(Debug, Clone, Copy, PartialEq, Eq, Hash, Structural)]
pub enum ResourceKind {
    /// Energy source, drawn `E` (green).
    Energy,
    /// Crystal deposit, drawn `C` (magenta).
    Crystal,
}

/// Smallest initial quantity of a deposit (inclusive).
pub const RESOURCE_QTY_MIN: u32 = 50;

/// Largest initial quantity of a deposit (inclusive).
pub const RESOURCE_QTY_MAX: u32 = 200;

/// A resource on the map with its remaining stock.
#[derive(Debug, Clone, Copy, PartialEq, Eq, Structural)]
pub struct Resource {
    pub kind: ResourceKind,
    pub quantity: u32,
}

impl Resource {
    pub fn new(kind: ResourceKind, quantity: u32) -> (r: Self)
        ensures
            r.kind == kind,
            r.quantity == quantity,
    {
        Self { kind, quantity }
    }

    /// Resource with a random quantity in `[RESOURCE_QTY_MIN; RESOURCE_QTY_MAX]`.
    pub fn random(rng: &mut StdRng, kind: ResourceKind) -> (r: Self)
        ensures
            r.kind == kind,
            RESOURCE_QTY_MIN <= r.quantity <= RESOURCE_QTY_MAX,
    {
        let q = random_in_range(rng, RESOURCE_QTY_MIN, RESOURCE_QTY_MAX);
        Self::new(kind, q)
    }
}

} // verus!
