//! The central base: delivered stock and what the robots have discovered.

use vstd::prelude::*;

use crate::communication::message::Message;
use crate::tables::{PositionMap, PositionSet};
use crate::utils::Position;
use crate::world::ResourceKind;

verus! {

/// A resource the base knows of, by position.
#[derive(Debug, Clone, Copy, PartialEq, Eq, Structural)]
pub struct KnownResource {
    pub kind: ResourceKind,
    pub quantity: u32,
}

/// The mathematical content of the base.
pub ghost struct BaseModel {
    pub position: Position,
    pub stored_energy: nat,
    pub stored_crystals: nat,
    pub known_resources: Map<Position, KnownResource>,
    pub known_obstacles: Set<Position>,
}

/// The base after recording a message.
pub open spec fn apply_spec(b: BaseModel, msg: Message) -> BaseModel {
    match msg {
        Message::ResourceFound { position, kind, quantity } => {
            let known = if b.known_resources.contains_key(position) {
                let r = b.known_resources[position];
                if quantity > r.quantity {
                    KnownResource { kind: r.kind, quantity }
                } else {
                    r
                }
            } else {
                KnownResource { kind, quantity }
            };
            BaseModel { known_resources: b.known_resources.insert(position, known), ..b }
        },
        Message::ObstacleFound { position } => BaseModel {
            known_obstacles: b.known_obstacles.insert(position),
            ..b
        },
        Message::ResourceCollected { position, kind, amount } => {
            if b.known_resources.contains_key(position) {
                let r = b.known_resources[position];
                if r.quantity <= amount {
                    BaseModel { known_resources: b.known_resources.remove(position), ..b }
                } else {
                    BaseModel {
                        known_resources: b.known_resources.insert(
                            position,
                            KnownResource { kind: r.kind, quantity: (r.quantity - amount) as u32 },
                        ),
                        ..b
                    }
                }
            } else {
                BaseModel {
                    known_resources: b.known_resources.insert(
                        position,
                        KnownResource { kind, quantity: 0 },
                    ),
                    ..b
                }
            }
        },
        Message::ResourceDepleted { position, .. } => BaseModel {
            known_resources: b.known_resources.remove(position),
            ..b
        },
        Message::Deposit { kind, amount } => match kind {
            ResourceKind::Energy => BaseModel { stored_energy: b.stored_energy + amount as nat, ..b },
            ResourceKind::Crystal => BaseModel { stored_crystals: b.stored_crystals + amount as nat, ..b },
        },
    }
}

/// Whether recording the message keeps the delivered counters within `u32`.
pub open spec fn deposit_fits(b: BaseModel, msg: Message) -> bool {
    match msg {
        Message::Deposit { kind, amount } => match kind {
            ResourceKind::Energy => b.stored_energy + amount <= u32::MAX,
            ResourceKind::Crystal => b.stored_crystals + amount <= u32::MAX,
        },
        _ => true,
    }
}

/// Central stock: counters plus what the robots discovered.
#[derive(Debug, Clone)]
pub struct Base {
    position: Position,
    stored_energy: u32,
    stored_crystals: u32,
    known_resources: PositionMap<KnownResource>,
    known_obstacles: PositionSet,
}

impl View for Base {
    type V = BaseModel;

    closed spec fn view(&self) -> BaseModel {
        BaseModel {
            position: self.position,
            stored_energy: self.stored_energy as nat,
            stored_crystals: self.stored_crystals as nat,
            known_resources: self.known_resources.map(),
            known_obstacles: self.known_obstacles.set(),
        }
    }
}

impl Base {
    /// Well-formedness of the tables behind the base.
    pub closed spec fn wf(&self) -> bool {
        self.known_resources.wf() && self.known_obstacles.wf()
    }

    pub fn new(position: Position) -> (b: Self)
        ensures
            b.wf(),
            b@.position == position,
            b@.stored_energy == 0,
            b@.stored_crystals == 0,
            b@.known_resources == Map::<Position, KnownResource>::empty(),
            b@.known_obstacles == Set::<Position>::empty(),
    {
        let b = Self {
            position,
            stored_energy: 0,
            stored_crystals: 0,
            known_resources: PositionMap::new(),
            known_obstacles: PositionSet::new(),
        };
        assert(b.known_obstacles.set() =~= Set::<Position>::empty());
        b
    }

    pub fn position(&self) -> (p: Position)
        ensures
            p == self@.position,
    {
        self.position
    }

    pub fn stored_energy(&self) -> (n: u32)
        ensures
            n == self@.stored_energy,
    {
        self.stored_energy
    }

    pub fn stored_crystals(&self) -> (n: u32)
        ensures
            n == self@.stored_crystals,
    {
        self.stored_crystals
    }

    /// The known resources, by position.
    pub fn known_resources(&self) -> (t: &PositionMap<KnownResource>)
        ensures
            t.map() == self@.known_resources,
            self.wf() ==> t.wf(),
    {
        &self.known_resources
    }

    /// The known obstacle positions.
    pub fn known_obstacles(&self) -> (t: &PositionSet)
        ensures
            t.set() == self@.known_obstacles,
            self.wf() ==> t.wf(),
    {
        &self.known_obstacles
    }

    /// Number of known resources.
    pub fn known_resource_count(&self) -> (n: usize)
        requires
            self.wf(),
        ensures
            n == self@.known_resources.dom().len(),
    {
        self.known_resources.len()
    }

    /// Whether the base can record the message without overflowing a
    /// delivered counter.
    pub fn accepts(&self, msg: &Message) -> (ok: bool)
        ensures
            ok == deposit_fits(self@, *msg),
    {
        match *msg {
            Message::Deposit { kind, amount } => match kind {
                ResourceKind::Energy => self.stored_energy.checked_add(amount).is_some(),
                ResourceKind::Crystal => self.stored_crystals.checked_add(amount).is_some(),
            },
            _ => true,
        }
    }

    /// Records a discovery or a delivery.
    pub fn apply(&mut self, msg: &Message)
        requires
            old(self).wf(),
            deposit_fits(old(self)@, *msg),
        ensures
            final(self).wf(),
            final(self)@ == apply_spec(old(self)@, *msg),
    {
        match *msg {
            Message::ResourceFound { position, kind, quantity } => {
                match self.known_resources.get(position) {
                    Some(r) => {
                        if quantity > r.quantity {
                            self.known_resources.insert(position, KnownResource { kind: r.kind, quantity });
                        } else {
                            self.known_resources.insert(position, r);
                        }
                    },
                    None => {
                        self.known_resources.insert(position, KnownResource { kind, quantity });
                    },
                }
            },
            Message::ObstacleFound { position } => {
                self.known_obstacles.insert(position);
            },
            Message::ResourceCollected { position, kind, amount } => {
                match self.known_resources.get(position) {
                    Some(r) => {
                        let left = r.quantity.saturating_sub(amount);
                        if left == 0 {
                            self.known_resources.remove(position);
                        } else {
                            self.known_resources.insert(position, KnownResource { kind: r.kind, quantity: left });
                        }
                    },
                    None => {
                        self.known_resources.insert(position, KnownResource { kind, quantity: 0 });
                    },
                }
            },
            Message::ResourceDepleted { position, .. } => {
                self.known_resources.remove(position);
            },
            Message::Deposit { kind, amount } => {
                match kind {
                    ResourceKind::Energy => self.stored_energy = self.stored_energy + amount,
                    ResourceKind::Crystal => self.stored_crystals = self.stored_crystals + amount,
                }
            },
        }
    }
}

/// A deposit adds exactly its amount to the stock of its kind and changes
/// nothing else.
pub proof fn deposit_adds_to_stock(b: BaseModel, kind: ResourceKind, amount: u32)
    ensures
        ({
            let after = apply_spec(b, Message::Deposit { kind, amount });
            &&& after.known_resources == b.known_resources
            &&& after.known_obstacles == b.known_obstacles
            &&& match kind {
                ResourceKind::Energy => after.stored_energy == b.stored_energy + amount
                    && after.stored_crystals == b.stored_crystals,
                ResourceKind::Crystal => after.stored_crystals == b.stored_crystals + amount
                    && after.stored_energy == b.stored_energy,
            }
        }),
{
}

/// The delivered stock never decreases, whatever the message.
pub proof fn stock_never_decreases(b: BaseModel, msg: Message)
    ensures
        apply_spec(b, msg).stored_energy >= b.stored_energy,
        apply_spec(b, msg).stored_crystals >= b.stored_crystals,
{
}

/// A discovery report leaves the resource known with the largest quantity
/// reported so far (its kind is the one first reported).
pub proof fn discovery_keeps_largest_quantity(b: BaseModel, position: Position, kind: ResourceKind, quantity: u32)
    ensures
        ({
            let after = apply_spec(b, Message::ResourceFound { position, kind, quantity });
            &&& after.known_resources.contains_key(position)
            &&& if b.known_resources.contains_key(position) {
                let before = b.known_resources[position];
                after.known_resources[position].quantity == if quantity > before.quantity {
                    quantity
                } else {
                    before.quantity
                } && after.known_resources[position].kind == before.kind
            } else {
                after.known_resources[position] == (KnownResource { kind, quantity })
            }
        }),
{
}

/// A depleted resource is forgotten, and a collection never raises what is
/// known of a resource: it lowers the quantity by the amount, forgetting the
/// resource once nothing is left.
pub proof fn collection_and_depletion_lower_knowledge(b: BaseModel, position: Position, kind: ResourceKind, amount: u32)
    ensures
        !apply_spec(b, Message::ResourceDepleted { position, kind }).known_resources.contains_key(position),
        b.known_resources.contains_key(position) ==> {
            let after = apply_spec(b, Message::ResourceCollected { position, kind, amount });
            let before = b.known_resources[position];
            if before.quantity <= amount {
                !after.known_resources.contains_key(position)
            } else {
                after.known_resources[position].quantity == before.quantity - amount
            }
        },
{
}

} // verus!
