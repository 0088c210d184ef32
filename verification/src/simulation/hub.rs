//! Hub state and the decisions the hub takes on each robot message and tick.

use vstd::prelude::*;

use crate::communication::{HubToRobot, KnownResource, RobotId, RobotToHub};
use crate::robots::common::{CarriedResource, RobotKind, RobotSnapshot, RobotState};
use crate::tables::{PositionMap, PositionSet};
use crate::text::{coordinates, decimal, push_coordinates, push_decimal, resource_label, resource_label_spec};
use crate::utils::{manhattan_spec, Position};
use crate::world::map::{after_take, MapModel, WorldMap};
use crate::world::resource::Resource;
use crate::world::{ResourceKind, Tile};

verus! {

/// Number of events kept in the log.
pub const EVENT_LOG_LIMIT: usize = 10;

/// Distance within which a collector may collect a deposit.
pub const COLLECTION_RANGE: u32 = 3;

/// Resource displayable in the UI.
#[derive(Debug, Clone, Copy, PartialEq, Eq, Structural)]
pub struct ResourceView {
    pub position: Position,
    pub kind: ResourceKind,
    pub quantity: u32,
}

/// Displayable snapshot sent to the UI, which never touches the live
/// simulation.
#[derive(Debug, Clone)]
pub struct SimulationSnapshot {
    pub tick: u64,
    pub width: usize,
    pub height: usize,
    pub base: Position,
    pub obstacles: Vec<Position>,
    pub resources: Vec<ResourceView>,
    pub robots: Vec<RobotSnapshot>,
    pub collected_energy: u32,
    pub collected_crystals: u32,
    pub known_resources: usize,
    pub known_obstacles: usize,
    pub events: Vec<String>,
}

/// Simulation engine, configured before launch.
pub struct SimulationEngine {
    map: WorldMap,
    scout_count: usize,
    collector_count: usize,
}

impl SimulationEngine {
    pub fn new(map: WorldMap, scout_count: usize, collector_count: usize) -> (e: Self)
        ensures
            e.map_spec() == map,
            e.scout_count_spec() == scout_count,
            e.collector_count_spec() == collector_count,
    {
        Self { map, scout_count, collector_count }
    }

    pub closed spec fn map_spec(&self) -> WorldMap {
        self.map
    }

    pub closed spec fn scout_count_spec(&self) -> usize {
        self.scout_count
    }

    pub closed spec fn collector_count_spec(&self) -> usize {
        self.collector_count
    }

    /// The map, the number of scouts and the number of collectors.
    pub fn into_parts(self) -> (parts: (WorldMap, usize, usize))
        ensures
            parts == (self.map_spec(), self.scout_count_spec(), self.collector_count_spec()),
    {
        (self.map, self.scout_count, self.collector_count)
    }
}

/// The snapshot of a robot that starts at the base.
pub open spec fn initial_robot(i: int, scouts: nat, base: Position) -> RobotSnapshot {
    RobotSnapshot {
        id: RobotId(i as usize),
        kind: if i < scouts {
            RobotKind::Scout
        } else {
            RobotKind::Collector
        },
        position: base,
        cargo: None,
        state: if i < scouts {
            RobotState::Exploring
        } else {
            RobotState::Waiting
        },
    }
}

/// The robots of a new simulation: the scouts first, then the collectors,
/// numbered from 0, all at the base.
pub fn initial_robots(base: Position, scout_count: usize, collector_count: usize) -> (robots: Vec<
    RobotSnapshot,
>)
    requires
        scout_count + collector_count <= usize::MAX,
    ensures
        robots.len() == scout_count + collector_count,
        forall|i: int|
            0 <= i < robots.len() ==> #[trigger] robots@[i] == initial_robot(i, scout_count as nat, base),
{
    let total = scout_count + collector_count;
    let mut robots: Vec<RobotSnapshot> = Vec::new();
    let mut i: usize = 0;
    while i < total
        invariant
            total == scout_count + collector_count,
            i <= total,
            robots.len() == i,
            forall|k: int|
                0 <= k < i ==> #[trigger] robots@[k] == initial_robot(k, scout_count as nat, base),
        decreases total - i,
    {
        let scout = i < scout_count;
        robots.push(
            RobotSnapshot {
                id: RobotId(i),
                kind: if scout {
                    RobotKind::Scout
                } else {
                    RobotKind::Collector
                },
                position: base,
                cargo: None,
                state: if scout {
                    RobotState::Exploring
                } else {
                    RobotState::Waiting
                },
            },
        );
        i = i + 1;
    }
    robots
}

/// The seed of the random generator of the scout with the given index.
pub fn scout_seed(index: usize) -> (seed: u64)
    requires
        index <= u64::MAX - 0x5C0A_0000,
    ensures
        seed == 0x5C0A_0000 + index,
{
    0x5C0A_0000u64 + index as u64
}

/// The mathematical content of the hub.
#[verifier::ext_equal]
pub ghost struct HubModel {
    pub base: Position,
    pub width: nat,
    pub height: nat,
    pub obstacle_positions: Seq<Position>,
    pub known_resources: Map<Position, KnownResource>,
    pub known_obstacles: Set<Position>,
    pub robots: Seq<RobotSnapshot>,
    pub occupied: Map<Position, RobotId>,
    pub collected_energy: nat,
    pub collected_crystals: nat,
    pub events: Seq<Seq<char>>,
    pub tick: nat,
}

/// The event log after appending `e`, the oldest entry dropped past the limit.
pub open spec fn push_event_spec(events: Seq<Seq<char>>, e: Seq<char>) -> Seq<Seq<char>> {
    if events.len() + 1 > EVENT_LOG_LIMIT {
        events.push(e).drop_first()
    } else {
        events.push(e)
    }
}

/// The position the hub holds for a robot, if it knows the robot.
pub open spec fn robot_position(h: HubModel, id: RobotId) -> Option<Position> {
    if id.0 < h.robots.len() {
        Some(h.robots[id.0 as int].position)
    } else {
        None
    }
}

/// A robot's state after a granted move.
pub open spec fn moved_state(r: RobotSnapshot) -> RobotState {
    if r.kind == RobotKind::Scout {
        RobotState::Exploring
    } else if r.cargo is Some {
        RobotState::ReturningToBase
    } else {
        RobotState::Moving
    }
}

/// A robot's cargo after collecting one unit of `kind`.
pub open spec fn cargo_after_collect(cargo: Option<CarriedResource>, kind: ResourceKind) -> Option<CarriedResource> {
    match cargo {
        Some(c) => if c.kind == kind {
            Some(CarriedResource { kind, amount: (c.amount + 1) as u32 })
        } else {
            Some(CarriedResource { kind, amount: 1 })
        },
        None => Some(CarriedResource { kind, amount: 1 }),
    }
}

pub open spec fn discovery_text(id: RobotId, r: KnownResource) -> Seq<char> {
    "R"@ + decimal(id.0 as nat) + " decouvre "@ + decimal(r.quantity as nat) + " "@ + resource_label_spec(r.kind)
        + " en "@ + coordinates(r.position)
}

pub open spec fn obstacle_text(id: RobotId, p: Position) -> Seq<char> {
    "R"@ + decimal(id.0 as nat) + " signale un obstacle en "@ + coordinates(p)
}

pub open spec fn collect_text(id: RobotId, kind: ResourceKind, p: Position) -> Seq<char> {
    "R"@ + decimal(id.0 as nat) + " collecte 1 "@ + resource_label_spec(kind) + " en "@ + coordinates(p)
}

pub open spec fn depleted_text(kind: ResourceKind, p: Position) -> Seq<char> {
    "Depot de "@ + resource_label_spec(kind) + " epuise en "@ + coordinates(p)
}

pub open spec fn deposit_text(id: RobotId, amount: u32, kind: ResourceKind) -> Seq<char> {
    "R"@ + decimal(id.0 as nat) + " depose "@ + decimal(amount as nat) + " "@ + resource_label_spec(kind)
        + " a la base"@
}

pub open spec fn log_text(id: RobotId, text: Seq<char>) -> Seq<char> {
    "R"@ + decimal(id.0 as nat) + " "@ + text
}

/// Whether the hub can take the message without overflowing a counter: a
/// deposit must fit the delivered total, a collect the robot's cargo.
pub open spec fn message_fits(h: HubModel, msg: RobotToHub) -> bool {
    match msg {
        RobotToHub::Deposit { kind, amount, .. } => match kind {
            ResourceKind::Energy => h.collected_energy + amount <= u32::MAX,
            ResourceKind::Crystal => h.collected_crystals + amount <= u32::MAX,
        },
        RobotToHub::CollectRequested { robot_id, .. } => robot_id.0 < h.robots.len()
            ==> match h.robots[robot_id.0 as int].cargo {
            Some(c) => c.amount < u32::MAX,
            None => true,
        },
        _ => true,
    }
}

/// What the hub does with one robot message: its new state, the map after
/// the message, whether the shared knowledge changed, and the reply to the
/// robot, if any.
pub open spec fn hub_step(h: HubModel, m: MapModel, msg: RobotToHub) -> (HubModel, MapModel, bool, Option<(RobotId, HubToRobot)>) {
    match msg {
        RobotToHub::ResourceDiscovered { robot_id, position, .. } => match m.get(position) {
            Some(Tile::Resource(r)) => {
                let actual = KnownResource { position, kind: r.kind, quantity: r.quantity };
                let changed = !(h.known_resources.contains_key(position) && h.known_resources[position] == actual);
                let h1 = HubModel { known_resources: h.known_resources.insert(position, actual), ..h };
                let h2 = if changed {
                    HubModel { events: push_event_spec(h1.events, discovery_text(robot_id, actual)), ..h1 }
                } else {
                    h1
                };
                (h2, m, changed, None)
            },
            _ => (h, m, false, None),
        },
        RobotToHub::ObstacleDiscovered { robot_id, position } => {
            let changed = m.get(position) == Some(Tile::Obstacle) && !h.known_obstacles.contains(position);
            let h1 = if m.get(position) == Some(Tile::Obstacle) {
                HubModel { known_obstacles: h.known_obstacles.insert(position), ..h }
            } else {
                h
            };
            let h2 = if changed {
                HubModel { events: push_event_spec(h1.events, obstacle_text(robot_id, position)), ..h1 }
            } else {
                h1
            };
            (h2, m, changed, None)
        },
        RobotToHub::MoveRequested { robot_id, from, to } => {
            let current = match robot_position(h, robot_id) {
                Some(p) => p,
                None => from,
            };
            let valid = (current == to || manhattan_spec(current, to) == 1) && m.walkable(to);
            if valid {
                let occ1 = if current != h.base {
                    h.occupied.remove(current)
                } else {
                    h.occupied
                };
                let occ2 = if to != h.base {
                    occ1.insert(to, robot_id)
                } else {
                    occ1
                };
                let robots = if robot_id.0 < h.robots.len() {
                    let r = h.robots[robot_id.0 as int];
                    h.robots.update(
                        robot_id.0 as int,
                        RobotSnapshot { position: to, state: moved_state(r), ..r },
                    )
                } else {
                    h.robots
                };
                (HubModel { occupied: occ2, robots, ..h }, m, false, Some((robot_id, HubToRobot::MoveGranted { to })))
            } else {
                (h, m, false, Some((robot_id, HubToRobot::MoveDenied { attempted: to })))
            }
        },
        RobotToHub::CollectRequested { robot_id, position } => {
            let in_range = match robot_position(h, robot_id) {
                Some(c) => c == position || manhattan_spec(c, position) <= COLLECTION_RANGE,
                None => false,
            };
            if !in_range {
                (h, m, false, Some((robot_id, HubToRobot::CollectDenied { position })))
            } else {
                match m.get(position) {
                    Some(Tile::Resource(r)) if r.quantity > 0 => {
                        let remaining = (r.quantity - 1) as u32;
                        let known = if remaining == 0 {
                            h.known_resources.remove(position)
                        } else {
                            h.known_resources.insert(
                                position,
                                KnownResource { position, kind: r.kind, quantity: remaining },
                            )
                        };
                        let robot = h.robots[robot_id.0 as int];
                        let robots = h.robots.update(
                            robot_id.0 as int,
                            RobotSnapshot {
                                cargo: cargo_after_collect(robot.cargo, r.kind),
                                state: RobotState::Carrying,
                                ..robot
                            },
                        );
                        let events1 = push_event_spec(h.events, collect_text(robot_id, r.kind, position));
                        let events2 = if remaining == 0 {
                            push_event_spec(events1, depleted_text(r.kind, position))
                        } else {
                            events1
                        };
                        let changed = if remaining == 0 {
                            h.known_resources.contains_key(position)
                        } else {
                            !(h.known_resources.contains_key(position) && h.known_resources[position]
                                == KnownResource { position, kind: r.kind, quantity: remaining })
                        };
                        (
                            HubModel { known_resources: known, robots, events: events2, ..h },
                            m.with_tile(position, after_take(r)),
                            changed,
                            Some((robot_id, HubToRobot::CollectGranted { position, kind: r.kind, remaining })),
                        )
                    },
                    _ => (
                        HubModel { known_resources: h.known_resources.remove(position), ..h },
                        m,
                        h.known_resources.contains_key(position),
                        Some((robot_id, HubToRobot::CollectDenied { position })),
                    ),
                }
            }
        },
        RobotToHub::Deposit { robot_id, kind, amount } => {
            let h1 = match kind {
                ResourceKind::Energy => HubModel { collected_energy: h.collected_energy + amount as nat, ..h },
                ResourceKind::Crystal => HubModel { collected_crystals: h.collected_crystals + amount as nat, ..h },
            };
            let robots = if robot_id.0 < h.robots.len() {
                let r = h.robots[robot_id.0 as int];
                h.robots.update(
                    robot_id.0 as int,
                    RobotSnapshot { cargo: None, state: RobotState::Waiting, ..r },
                )
            } else {
                h.robots
            };
            (
                HubModel { robots, events: push_event_spec(h.events, deposit_text(robot_id, amount, kind)), ..h1 },
                m,
                false,
                None,
            )
        },
        RobotToHub::Log { robot_id, text } => (
            HubModel { events: push_event_spec(h.events, log_text(robot_id, text@)), ..h },
            m,
            false,
            None,
        ),
    }
}

/// The positions of the cells of `m` that hold tiles satisfying `pred`,
/// listed in row-major order.
pub open spec fn lists_cells(m: MapModel, cells: Seq<Position>, pred: spec_fn(Tile) -> bool) -> bool {
    &&& forall|k: int| 0 <= k < cells.len() ==> m.in_bounds(#[trigger] cells[k]) && pred(m.tile(cells[k]))
    &&& forall|p: Position| m.in_bounds(p) && pred(#[trigger] m.tile(p)) ==> cells.contains(p)
    &&& forall|i: int, j: int| 0 <= i < j < cells.len() ==> m.index_of(#[trigger] cells[i]) < m.index_of(#[trigger] cells[j])
}

/// The text of the first event of a new simulation.
pub open spec fn mission_start_text() -> Seq<char> {
    "Mission initialisee : robots deployes depuis la base"@
}

/// The positions of the obstacles of the map, in row-major order.
pub fn obstacle_positions(map: &WorldMap) -> (cells: Vec<Position>)
    requires
        map@.wf(),
    ensures
        lists_cells(map@, cells@, |t: Tile| t == Tile::Obstacle),
{
    let all = map.iter();
    let mut cells: Vec<Position> = Vec::new();
    let mut i: usize = 0;
    while i < all.len()
        invariant
            map@.wf(),
            all.len() == map@.tiles.len(),
            forall|k: int| 0 <= k < all.len() ==> #[trigger] all@[k] == (map@.position_of(k), map@.tiles[k]),
            i <= all.len(),
            forall|k: int| 0 <= k < cells.len() ==> map@.in_bounds(#[trigger] cells@[k]) && map@.tile(cells@[k]) == Tile::Obstacle
                && map@.index_of(cells@[k]) < i,
            forall|k: int| 0 <= k < i && map@.tiles[k] == Tile::Obstacle ==> cells@.contains(#[trigger] map@.position_of(k)),
            forall|a: int, b: int| 0 <= a < b < cells.len() ==> map@.index_of(#[trigger] cells@[a]) < map@.index_of(#[trigger] cells@[b]),
        decreases all.len() - i,
    {
        let (position, tile) = all[i];
        proof {
            crate::world::map::lemma_position_of(map@, i as int);
        }
        if tile == Tile::Obstacle {
            let ghost before = cells@;
            cells.push(position);
            proof {
                assert forall|k: int| 0 <= k < i + 1 && map@.tiles[k] == Tile::Obstacle implies cells@.contains(#[trigger] map@.position_of(k)) by {
                    if k < i {
                        let j = choose|j: int| 0 <= j < before.len() && before[j] == map@.position_of(k);
                        assert(cells@[j] == before[j]);
                    } else {
                        assert(cells@[cells.len() - 1] == position);
                    }
                }
            }
        }
        i = i + 1;
    }
    proof {
        assert forall|p: Position| map@.in_bounds(p) && (|t: Tile| t == Tile::Obstacle)(#[trigger] map@.tile(p)) implies cells@.contains(p) by {
            crate::world::map::lemma_index_of(map@, p);
            assert(map@.position_of(map@.index_of(p)) == p);
        }
    }
    cells
}

/// The deposits of the map as displayable views, in row-major order.
pub fn resource_views(map: &WorldMap) -> (views: Vec<ResourceView>)
    requires
        map@.wf(),
    ensures
        lists_cells(map@, views@.map_values(|v: ResourceView| v.position), |t: Tile| t is Resource),
        forall|k: int| 0 <= k < views.len() ==> map@.tile((#[trigger] views@[k]).position) == Tile::Resource(
            crate::world::resource::Resource { kind: views@[k].kind, quantity: views@[k].quantity },
        ),
{
    let all = map.iter();
    let mut views: Vec<ResourceView> = Vec::new();
    let mut i: usize = 0;
    while i < all.len()
        invariant
            map@.wf(),
            all.len() == map@.tiles.len(),
            forall|k: int| 0 <= k < all.len() ==> #[trigger] all@[k] == (map@.position_of(k), map@.tiles[k]),
            i <= all.len(),
            forall|k: int| 0 <= k < views.len() ==> map@.in_bounds((#[trigger] views@[k]).position)
                && map@.tile(views@[k].position) == Tile::Resource(
                crate::world::resource::Resource { kind: views@[k].kind, quantity: views@[k].quantity },
            ) && map@.index_of(views@[k].position) < i,
            forall|k: int| 0 <= k < i && map@.tiles[k] is Resource ==> views@.map_values(|v: ResourceView| v.position).contains(#[trigger] map@.position_of(k)),
            forall|a: int, b: int| 0 <= a < b < views.len() ==> map@.index_of((#[trigger] views@[a]).position) < map@.index_of((#[trigger] views@[b]).position),
        decreases all.len() - i,
    {
        let (position, tile) = all[i];
        proof {
            crate::world::map::lemma_position_of(map@, i as int);
        }
        match tile {
            Tile::Resource(r) => {
                let ghost before = views@.map_values(|v: ResourceView| v.position);
                views.push(ResourceView { position, kind: r.kind, quantity: r.quantity });
                proof {
                    let now = views@.map_values(|v: ResourceView| v.position);
                    assert forall|k: int| 0 <= k < i + 1 && map@.tiles[k] is Resource implies now.contains(#[trigger] map@.position_of(k)) by {
                        if k < i {
                            let j = choose|j: int| 0 <= j < before.len() && before[j] == map@.position_of(k);
                            assert(now[j] == before[j]);
                        } else {
                            assert(now[now.len() - 1] == position);
                        }
                    }
                }
            },
            _ => {},
        }
        i = i + 1;
    }
    proof {
        let pos = views@.map_values(|v: ResourceView| v.position);
        assert forall|p: Position| map@.in_bounds(p) && (|t: Tile| t is Resource)(#[trigger] map@.tile(p)) implies pos.contains(p) by {
            crate::world::map::lemma_index_of(map@, p);
            assert(map@.position_of(map@.index_of(p)) == p);
        }
        assert forall|k: int| 0 <= k < pos.len() implies map@.in_bounds(#[trigger] pos[k]) && (|t: Tile| t is Resource)(map@.tile(pos[k])) by {
            assert(pos[k] == views@[k].position);
        }
        assert forall|a: int, b: int| 0 <= a < b < pos.len() implies map@.index_of(#[trigger] pos[a]) < map@.index_of(#[trigger] pos[b]) by {
            assert(pos[a] == views@[a].position && pos[b] == views@[b].position);
        }
    }
    views
}

/// A copy of a list of strings.
pub fn copy_strings(v: &Vec<String>) -> (c: Vec<String>)
    ensures
        c@.map_values(|s: String| s@) == v@.map_values(|s: String| s@),
{
    let mut c: Vec<String> = Vec::new();
    let mut i: usize = 0;
    while i < v.len()
        invariant
            i <= v.len(),
            c.len() == i,
            forall|k: int| 0 <= k < i ==> (#[trigger] c@[k])@ == v@[k]@,
        decreases v.len() - i,
    {
        let s = v[i].clone();
        c.push(s);
        i = i + 1;
    }
    assert(c@.map_values(|s: String| s@) =~= v@.map_values(|s: String| s@));
    c
}

/// `snap` shows the hub state `h` over the map `m`.
pub open spec fn snapshot_of(h: HubModel, m: MapModel, snap: SimulationSnapshot) -> bool {
    &&& snap.tick == h.tick
    &&& snap.width == h.width
    &&& snap.height == h.height
    &&& snap.base == h.base
    &&& snap.obstacles@ == h.obstacle_positions
    &&& lists_cells(m, snap.resources@.map_values(|v: ResourceView| v.position), |t: Tile| t is Resource)
    &&& forall|k: int| 0 <= k < snap.resources.len() ==> m.tile((#[trigger] snap.resources@[k]).position)
        == Tile::Resource(crate::world::resource::Resource { kind: snap.resources@[k].kind, quantity: snap.resources@[k].quantity })
    &&& snap.robots@ == h.robots
    &&& snap.collected_energy == h.collected_energy
    &&& snap.collected_crystals == h.collected_crystals
    &&& snap.known_resources == h.known_resources.dom().len()
    &&& snap.known_obstacles == h.known_obstacles.len()
    &&& snap.events@.map_values(|s: String| s@) == h.events
}

/// `k` shares exactly the knowledge of the hub state `h`: each known resource
/// once and each known obstacle once.
pub open spec fn knowledge_of(h: HubModel, k: HubToRobot) -> bool {
    match k {
        HubToRobot::Knowledge { resources, obstacles } => {
            &&& forall|a: int, b: int| 0 <= a < b < resources.len() ==> (#[trigger] resources@[a]).position != (#[trigger] resources@[b]).position
            &&& forall|p: Position| h.known_resources.contains_key(p) <==> exists|i: int| 0 <= i < resources.len() && (#[trigger] resources@[i]).position == p
            &&& forall|i: int| 0 <= i < resources.len() ==> h.known_resources[(#[trigger] resources@[i]).position] == resources@[i]
            &&& obstacles@.no_duplicates()
            &&& obstacles@.to_set() == h.known_obstacles
        },
        _ => false,
    }
}

/// The global state owned by the hub.
pub struct HubState {
    base: Position,
    width: usize,
    height: usize,
    obstacle_positions: Vec<Position>,
    known_resources: PositionMap<KnownResource>,
    known_obstacles: PositionSet,
    robots: Vec<RobotSnapshot>,
    occupied: PositionMap<RobotId>,
    collected_energy: u32,
    collected_crystals: u32,
    events: Vec<String>,
    tick: u64,
}

impl View for HubState {
    type V = HubModel;

    closed spec fn view(&self) -> HubModel {
        HubModel {
            base: self.base,
            width: self.width as nat,
            height: self.height as nat,
            obstacle_positions: self.obstacle_positions@,
            known_resources: self.known_resources.map(),
            known_obstacles: self.known_obstacles.set(),
            robots: self.robots@,
            occupied: self.occupied.map(),
            collected_energy: self.collected_energy as nat,
            collected_crystals: self.collected_crystals as nat,
            events: self.events@.map_values(|s: String| s@),
            tick: self.tick as nat,
        }
    }
}

/// Robot `i` is filed at index `i`.
pub open spec fn robots_indexed(robots: Seq<RobotSnapshot>) -> bool {
    forall|i: int| 0 <= i < robots.len() ==> (#[trigger] robots[i]).id.0 == i
}

impl HubState {
    /// Well-formedness: the tables hold no repeated key, known resources are
    /// filed under their own position, robot `i` is filed at index `i` and the
    /// event log is within its limit.
    pub closed spec fn wf(&self) -> bool {
        &&& self.known_resources.wf()
        &&& forall|i: int|
            0 <= i < self.known_resources@.len() ==> (#[trigger] self.known_resources@[i]).1.position
                == self.known_resources@[i].0
        &&& self.known_obstacles.wf()
        &&& self.occupied.wf()
        &&& robots_indexed(self.robots@)
        &&& self.events.len() <= EVENT_LOG_LIMIT
    }

    /// Appends an event, dropping the oldest past the limit.
    fn push_event(&mut self, text: String)
        requires
            old(self).wf(),
        ensures
            final(self).wf(),
            final(self)@ == (HubModel { events: push_event_spec(old(self)@.events, text@), ..old(self)@ }),
    {
        let ghost before = self.events@;
        self.events.push(text);
        if self.events.len() > EVENT_LOG_LIMIT {
            self.events.remove(0);
        }
        assert(self@.events =~= push_event_spec(before.map_values(|s: String| s@), text@));
        assert(self@ =~= HubModel { events: push_event_spec(old(self)@.events, text@), ..old(self)@ });
    }

    fn on_resource_discovered(&mut self, map: &WorldMap, robot_id: RobotId, position: Position) -> (changed: bool)
        requires
            old(self).wf(),
            map@.wf(),
        ensures
            final(self).wf(),
            ({
                let step = hub_step(
                    old(self)@,
                    map@,
                    RobotToHub::ResourceDiscovered { robot_id, position, kind: ResourceKind::Energy, quantity: 0 },
                );
                final(self)@ == step.0 && changed == step.2
            }),
    {
        let resource = match map.get(position) {
            Some(t) => match *t {
                Tile::Resource(r) => r,
                _ => {
                    return false;
                },
            },
            None => {
                return false;
            },
        };
        let actual = KnownResource { position, kind: resource.kind, quantity: resource.quantity };
        let changed = match self.known_resources.get(position) {
            Some(k) => k != actual,
            None => true,
        };
        let ghost before = self.known_resources@;
        self.known_resources.insert(position, actual);
        proof {
            assert forall|i: int| 0 <= i < self.known_resources@.len() implies (#[trigger] self.known_resources@[i]).1.position
                == self.known_resources@[i].0 by {
                if i < before.len() && self.known_resources@[i] != before[i] {
                    assert(self.known_resources@[i] == (position, actual));
                }
            }
        }
        if changed {
            let mut text = Self::robot_prefix(robot_id);
            text.append(" decouvre ");
            push_decimal(&mut text, actual.quantity as u64);
            text.append(" ");
            text.append(resource_label(actual.kind));
            text.append(" en ");
            push_coordinates(&mut text, position);
            assert(text@ =~= discovery_text(robot_id, actual));
            self.push_event(text);
        }
        changed
    }

    fn on_obstacle_discovered(&mut self, map: &WorldMap, robot_id: RobotId, position: Position) -> (changed: bool)
        requires
            old(self).wf(),
            map@.wf(),
        ensures
            final(self).wf(),
            ({
                let step = hub_step(old(self)@, map@, RobotToHub::ObstacleDiscovered { robot_id, position });
                final(self)@ == step.0 && changed == step.2
            }),
    {
        let is_obstacle = match map.get(position) {
            Some(t) => matches!(*t, Tile::Obstacle),
            None => false,
        };
        let changed = is_obstacle && self.known_obstacles.insert(position);
        if changed {
            let mut text = Self::robot_prefix(robot_id);
            text.append(" signale un obstacle en ");
            push_coordinates(&mut text, position);
            assert(text@ =~= obstacle_text(robot_id, position));
            self.push_event(text);
        }
        proof {
            if is_obstacle && !changed {
                assert(self@.known_obstacles =~= old(self)@.known_obstacles.insert(position));
            }
        }
        changed
    }

    fn on_move_requested(&mut self, map: &WorldMap, robot_id: RobotId, from: Position, to: Position) -> (reply: HubToRobot)
        requires
            old(self).wf(),
            map@.wf(),
        ensures
            final(self).wf(),
            ({
                let step = hub_step(old(self)@, map@, RobotToHub::MoveRequested { robot_id, from, to });
                final(self)@ == step.0 && Some((robot_id, reply)) == step.3
            }),
    {
        let current = if robot_id.0 < self.robots.len() {
            self.robots[robot_id.0].position
        } else {
            from
        };
        let one_step = current == to || current.manhattan_distance(to) == 1;
        let walkable = map.is_walkable(to);
        if one_step && walkable {
            if current != self.base {
                self.occupied.remove(current);
            }
            if to != self.base {
                self.occupied.insert(to, robot_id);
            }
            if robot_id.0 < self.robots.len() {
                let r = self.robots[robot_id.0];
                let state = if r.kind == RobotKind::Scout {
                    RobotState::Exploring
                } else if r.cargo.is_some() {
                    RobotState::ReturningToBase
                } else {
                    RobotState::Moving
                };
                self.robots.set(robot_id.0, RobotSnapshot { position: to, state, ..r });
            }
            assert(self@ =~= hub_step(old(self)@, map@, RobotToHub::MoveRequested { robot_id, from, to }).0);
            HubToRobot::MoveGranted { to }
        } else {
            HubToRobot::MoveDenied { attempted: to }
        }
    }

    fn on_collect_requested(&mut self, map: &mut WorldMap, robot_id: RobotId, position: Position) -> (reply: (bool, HubToRobot))
        requires
            old(self).wf(),
            old(map)@.wf(),
            message_fits(old(self)@, RobotToHub::CollectRequested { robot_id, position }),
        ensures
            final(self).wf(),
            final(map)@.wf(),
            ({
                let step = hub_step(old(self)@, old(map)@, RobotToHub::CollectRequested { robot_id, position });
                &&& final(self)@ == step.0
                &&& final(map)@ == step.1
                &&& reply.0 == step.2
                &&& Some((robot_id, reply.1)) == step.3
            }),
    {
        let in_range = if robot_id.0 < self.robots.len() {
            let current = self.robots[robot_id.0].position;
            current == position || current.manhattan_distance(position) <= COLLECTION_RANGE as u64
        } else {
            false
        };
        if !in_range {
            return (false, HubToRobot::CollectDenied { position });
        }
        let prior = self.known_resources.get(position);
        let taken = map.take_resource_unit(position);
        match taken {
            None => {
                let ghost before = self.known_resources@;
                self.known_resources.remove(position);
                proof {
                    if crate::tables::has_key(before, position) {
                        let k = choose|i: int| 0 <= i < before.len() && #[trigger] before[i].0 == position;
                        crate::tables::lemma_find_spec(before, k);
                        assert forall|i: int| 0 <= i < self.known_resources@.len() implies (#[trigger] self.known_resources@[i]).1.position
                            == self.known_resources@[i].0 by {
                            assert(self.known_resources@[i] == before[if i < k { i } else { i + 1 }]);
                        }
                    }
                }
                assert(self@ =~= hub_step(old(self)@, old(map)@, RobotToHub::CollectRequested { robot_id, position }).0);
                (prior.is_some(), HubToRobot::CollectDenied { position })
            },
            Some((kind, remaining)) => {
                let ghost before = self.known_resources@;
                if remaining == 0 {
                    self.known_resources.remove(position);
                    proof {
                        if crate::tables::has_key(before, position) {
                            let k = choose|i: int| 0 <= i < before.len() && #[trigger] before[i].0 == position;
                            crate::tables::lemma_find_spec(before, k);
                            assert forall|i: int| 0 <= i < self.known_resources@.len() implies (#[trigger] self.known_resources@[i]).1.position
                                == self.known_resources@[i].0 by {
                                assert(self.known_resources@[i] == before[if i < k { i } else { i + 1 }]);
                            }
                        }
                    }
                } else {
                    self.known_resources.insert(position, KnownResource { position, kind, quantity: remaining });
                    proof {
                        assert forall|i: int| 0 <= i < self.known_resources@.len() implies (#[trigger] self.known_resources@[i]).1.position
                            == self.known_resources@[i].0 by {
                            if i < before.len() && self.known_resources@[i] != before[i] {
                                assert(self.known_resources@[i].0 == position);
                            }
                        }
                    }
                }
                self.add_cargo_to_snapshot(robot_id, kind);
                let mut text = Self::robot_prefix(robot_id);
                text.append(" collecte 1 ");
                text.append(resource_label(kind));
                text.append(" en ");
                push_coordinates(&mut text, position);
                assert(text@ =~= collect_text(robot_id, kind, position));
                self.push_event(text);
                if remaining == 0 {
                    let mut text = String::new();
                    text.append("Depot de ");
                    text.append(resource_label(kind));
                    text.append(" epuise en ");
                    push_coordinates(&mut text, position);
                    assert(text@ =~= depleted_text(kind, position));
                    self.push_event(text);
                }
                assert(self@ =~= hub_step(old(self)@, old(map)@, RobotToHub::CollectRequested { robot_id, position }).0);
                let changed = if remaining == 0 {
                    prior.is_some()
                } else {
                    match prior {
                        Some(k) => !(k == KnownResource { position, kind, quantity: remaining }),
                        None => true,
                    }
                };
                (changed, HubToRobot::CollectGranted { position, kind, remaining })
            },
        }
    }

    fn on_deposit(&mut self, robot_id: RobotId, kind: ResourceKind, amount: u32)
        requires
            old(self).wf(),
            message_fits(old(self)@, RobotToHub::Deposit { robot_id, kind, amount }),
        ensures
            final(self).wf(),
            forall|m: MapModel|
                final(self)@ == #[trigger] hub_step(old(self)@, m, RobotToHub::Deposit { robot_id, kind, amount }).0,
    {
        match kind {
            ResourceKind::Energy => self.collected_energy = self.collected_energy + amount,
            ResourceKind::Crystal => self.collected_crystals = self.collected_crystals + amount,
        }
        if robot_id.0 < self.robots.len() {
            let r = self.robots[robot_id.0];
            self.robots.set(robot_id.0, RobotSnapshot { cargo: None, state: RobotState::Waiting, ..r });
        }
        let mut text = Self::robot_prefix(robot_id);
        text.append(" depose ");
        push_decimal(&mut text, amount as u64);
        text.append(" ");
        text.append(resource_label(kind));
        text.append(" a la base");
        assert(text@ =~= deposit_text(robot_id, amount, kind));
        let ghost mid = self@;
        self.push_event(text);
        proof {
            assert forall|m: MapModel|
                final(self)@ == #[trigger] hub_step(old(self)@, m, RobotToHub::Deposit { robot_id, kind, amount }).0 by {
                assert(self@ =~= hub_step(old(self)@, m, RobotToHub::Deposit { robot_id, kind, amount }).0);
            }
        }
    }

    /// The hub of a new simulation on `map` with the given robots: nothing
    /// known, nothing delivered, one event, tick 0.
    pub fn new(map: &WorldMap, robots: Vec<RobotSnapshot>) -> (hub: Self)
        requires
            map@.wf(),
            robots_indexed(robots@),
        ensures
            hub.wf(),
            hub@.base == map@.base,
            hub@.width == map@.width,
            hub@.height == map@.height,
            lists_cells(map@, hub@.obstacle_positions, |t: Tile| t == Tile::Obstacle),
            hub@.known_resources == Map::<Position, KnownResource>::empty(),
            hub@.known_obstacles == Set::<Position>::empty(),
            hub@.robots == robots@,
            hub@.occupied == Map::<Position, RobotId>::empty(),
            hub@.collected_energy == 0,
            hub@.collected_crystals == 0,
            hub@.events == seq![mission_start_text()],
            hub@.tick == 0,
    {
        let mut events: Vec<String> = Vec::new();
        events.push(String::from_str("Mission initialisee : robots deployes depuis la base"));
        let hub = HubState {
            base: map.base(),
            width: map.width(),
            height: map.height(),
            obstacle_positions: obstacle_positions(map),
            known_resources: PositionMap::new(),
            known_obstacles: PositionSet::new(),
            robots,
            occupied: PositionMap::new(),
            collected_energy: 0,
            collected_crystals: 0,
            events,
            tick: 0,
        };
        assert(hub@.events =~= seq![mission_start_text()]);
        assert(hub@.known_obstacles =~= Set::<Position>::empty());
        hub
    }

    /// The snapshot the UI renders: the current state of the hub, the
    /// deposits left on the map, the robots in identifier order.
    pub fn build_snapshot(&self, map: &WorldMap) -> (snap: SimulationSnapshot)
        requires
            self.wf(),
            map@.wf(),
        ensures
            snapshot_of(self@, map@, snap),
            robots_indexed(snap.robots@),
            forall|a: int, b: int| 0 <= a < b < snap.robots.len() ==> (#[trigger] snap.robots@[a]).id.0 < (#[trigger] snap.robots@[b]).id.0,
    {
        proof {
            self.known_resources.lemma_len();
            self.known_obstacles@.unique_seq_to_set();
        }
        SimulationSnapshot {
            tick: self.tick,
            width: self.width,
            height: self.height,
            base: self.base,
            obstacles: self.obstacle_positions.clone(),
            resources: resource_views(map),
            robots: self.robots.clone(),
            collected_energy: self.collected_energy,
            collected_crystals: self.collected_crystals,
            known_resources: self.known_resources.len(),
            known_obstacles: self.known_obstacles.len(),
            events: copy_strings(&self.events),
        }
    }

    /// A new tick: the tick counter advances (wrapping), and the hub hands
    /// out the shared knowledge, the tick message and a snapshot.
    pub fn advance_tick(&mut self, map: &WorldMap) -> (out: (HubToRobot, HubToRobot, SimulationSnapshot))
        requires
            old(self).wf(),
            map@.wf(),
        ensures
            final(self).wf(),
            final(self)@ == (HubModel { tick: if old(self)@.tick == u64::MAX { 0 } else { old(self)@.tick + 1 }, ..old(self)@ }),
            knowledge_of(final(self)@, out.0),
            out.1 == HubToRobot::Tick(final(self)@.tick as u64),
            snapshot_of(final(self)@, map@, out.2),
            robots_indexed(out.2.robots@),
            forall|a: int, b: int| 0 <= a < b < out.2.robots.len() ==> (#[trigger] out.2.robots@[a]).id.0 < (#[trigger] out.2.robots@[b]).id.0,
    {
        self.tick = self.tick.wrapping_add(1);
        let knowledge = self.knowledge();
        let snapshot = self.build_snapshot(map);
        assert(self@ =~= (HubModel { tick: if old(self)@.tick == u64::MAX { 0 } else { old(self)@.tick + 1 }, ..old(self)@ }));
        (knowledge, HubToRobot::Tick(self.tick), snapshot)
    }

    /// The shared knowledge: every known resource and every known obstacle.
    pub fn knowledge(&self) -> (k: HubToRobot)
        requires
            self.wf(),
        ensures
            knowledge_of(self@, k),
    {
        let entries = self.known_resources.entries();
        let mut resources: Vec<KnownResource> = Vec::new();
        let mut i: usize = 0;
        while i < entries.len()
            invariant
                entries@ == self.known_resources@,
                self.wf(),
                i <= entries.len(),
                resources.len() == i,
                forall|k: int| 0 <= k < i ==> #[trigger] resources@[k] == entries@[k].1,
            decreases entries.len() - i,
        {
            resources.push(entries[i].1);
            i = i + 1;
        }
        let obstacles = self.known_obstacles.items().clone();
        proof {
            assert forall|a: int, b: int| 0 <= a < b < resources.len() implies (#[trigger] resources@[a]).position != (#[trigger] resources@[b]).position by {
                assert(entries@[a].0 != entries@[b].0);
            }
            assert forall|p: Position| self@.known_resources.contains_key(p) <==> exists|k: int| 0 <= k < resources.len() && (#[trigger] resources@[k]).position == p by {
                if self@.known_resources.contains_key(p) {
                    let k = choose|k: int| 0 <= k < entries@.len() && #[trigger] entries@[k].0 == p;
                    assert(resources@[k].position == p);
                }
                if exists|k: int| 0 <= k < resources.len() && (#[trigger] resources@[k]).position == p {
                    let k = choose|k: int| 0 <= k < resources.len() && (#[trigger] resources@[k]).position == p;
                    assert(entries@[k].0 == p);
                }
            }
            assert forall|k: int| 0 <= k < resources.len() implies self@.known_resources[(#[trigger] resources@[k]).position] == resources@[k] by {
                crate::tables::lemma_as_map_at(entries@, k);
            }
        }
        HubToRobot::Knowledge { resources, obstacles }
    }

    /// Whether the hub can take the message without overflowing a counter.
    pub fn accepts(&self, message: &RobotToHub) -> (ok: bool)
        ensures
            ok == message_fits(self@, *message),
    {
        match message {
            RobotToHub::Deposit { kind, amount, .. } => match kind {
                ResourceKind::Energy => self.collected_energy.checked_add(*amount).is_some(),
                ResourceKind::Crystal => self.collected_crystals.checked_add(*amount).is_some(),
            },
            RobotToHub::CollectRequested { robot_id, .. } => {
                if robot_id.0 < self.robots.len() {
                    match self.robots[robot_id.0].cargo {
                        Some(c) => c.amount < u32::MAX,
                        None => true,
                    }
                } else {
                    true
                }
            },
            _ => true,
        }
    }

    /// Handles a message sent by a robot: updates the hub state (and the map,
    /// on a granted collect), and returns whether the shared knowledge changed
    /// together with the reply to send to the robot, if any.
    pub fn handle_robot_message(&mut self, map: &mut WorldMap, message: RobotToHub) -> (out: (
        bool,
        Option<(RobotId, HubToRobot)>,
    ))
        requires
            old(self).wf(),
            old(map)@.wf(),
            message_fits(old(self)@, message),
        ensures
            final(self).wf(),
            final(map)@.wf(),
            ({
                let step = hub_step(old(self)@, old(map)@, message);
                &&& final(self)@ == step.0
                &&& final(map)@ == step.1
                &&& out.0 == step.2
                &&& out.1 == step.3
            }),
    {
        match message {
            RobotToHub::ResourceDiscovered { robot_id, position, .. } => {
                let changed = self.on_resource_discovered(map, robot_id, position);
                (changed, None)
            },
            RobotToHub::ObstacleDiscovered { robot_id, position } => {
                let changed = self.on_obstacle_discovered(map, robot_id, position);
                (changed, None)
            },
            RobotToHub::MoveRequested { robot_id, from, to } => {
                let reply = self.on_move_requested(map, robot_id, from, to);
                (false, Some((robot_id, reply)))
            },
            RobotToHub::CollectRequested { robot_id, position } => {
                let (changed, reply) = self.on_collect_requested(map, robot_id, position);
                (changed, Some((robot_id, reply)))
            },
            RobotToHub::Deposit { robot_id, kind, amount } => {
                self.on_deposit(robot_id, kind, amount);
                proof {
                    let _ = hub_step(old(self)@, old(map)@, message);
                }
                (false, None)
            },
            RobotToHub::Log { robot_id, text } => {
                let mut line = Self::robot_prefix(robot_id);
                line.append(" ");
                line.append(text.as_str());
                assert(line@ =~= log_text(robot_id, text@));
                self.push_event(line);
                (false, None)
            },
        }
    }

    /// Records one more unit of `kind` in the cargo of a known robot, which is
    /// now carrying.
    fn add_cargo_to_snapshot(&mut self, robot_id: RobotId, kind: ResourceKind)
        requires
            old(self).wf(),
            robot_id.0 < old(self)@.robots.len() ==> match old(self)@.robots[robot_id.0 as int].cargo {
                Some(c) => c.amount < u32::MAX,
                None => true,
            },
        ensures
            final(self).wf(),
            final(self)@ == (HubModel {
                robots: if robot_id.0 < old(self)@.robots.len() {
                    old(self)@.robots.update(
                        robot_id.0 as int,
                        RobotSnapshot {
                            cargo: cargo_after_collect(old(self)@.robots[robot_id.0 as int].cargo, kind),
                            state: RobotState::Carrying,
                            ..old(self)@.robots[robot_id.0 as int]
                        },
                    )
                } else {
                    old(self)@.robots
                },
                ..old(self)@
            }),
    {
        if robot_id.0 >= self.robots.len() {
            return;
        }
        let robot = self.robots[robot_id.0];
        let cargo = match robot.cargo {
            Some(c) => if c.kind == kind {
                Some(CarriedResource { kind, amount: c.amount + 1 })
            } else {
                Some(CarriedResource { kind, amount: 1 })
            },
            None => Some(CarriedResource { kind, amount: 1 }),
        };
        self.robots.set(robot_id.0, RobotSnapshot { cargo, state: RobotState::Carrying, ..robot });
        assert(self@ =~= (HubModel {
            robots: old(self)@.robots.update(
                robot_id.0 as int,
                RobotSnapshot {
                    cargo: cargo_after_collect(old(self)@.robots[robot_id.0 as int].cargo, kind),
                    state: RobotState::Carrying,
                    ..old(self)@.robots[robot_id.0 as int]
                },
            ),
            ..old(self)@
        }));
    }

    /// "R<id>" followed by the given suffix start.
    fn robot_prefix(id: RobotId) -> (s: String)
        ensures
            s@ == "R"@ + decimal(id.0 as nat),
    {
        let mut s = String::new();
        s.append("R");
        push_decimal(&mut s, id.0 as u64);
        assert(s@ =~= "R"@ + decimal(id.0 as nat));
        s
    }
}

/// The event log never holds more than `EVENT_LOG_LIMIT` entries.
pub proof fn event_log_is_bounded(hub: &HubState)
    requires
        hub.wf(),
    ensures
        hub@.events.len() <= EVENT_LOG_LIMIT,
{
    assert(hub@.events.len() == hub.events.len());
}

/// Robot `i` of the hub is the robot with identifier `i`, so the hub lists its
/// robots by increasing identifier.
pub proof fn hub_robots_are_indexed(hub: &HubState)
    requires
        hub.wf(),
    ensures
        robots_indexed(hub@.robots),
{
}

/// Appending an event to a log within the limit: the new event comes last,
/// the log grows by one until it reaches the limit, and past it the oldest
/// event is dropped; the events kept stay in their order.
pub proof fn event_log_appends(events: Seq<Seq<char>>, e: Seq<char>)
    requires
        events.len() <= EVENT_LOG_LIMIT,
    ensures
        push_event_spec(events, e).len() == if events.len() < EVENT_LOG_LIMIT {
            events.len() + 1
        } else {
            EVENT_LOG_LIMIT as nat
        },
        push_event_spec(events, e).last() == e,
        events.len() < EVENT_LOG_LIMIT ==> push_event_spec(events, e) == events.push(e),
        events.len() == EVENT_LOG_LIMIT ==> push_event_spec(events, e) == events.drop_first().push(e),
{
    if events.len() == EVENT_LOG_LIMIT {
        assert(events.push(e).drop_first() =~= events.drop_first().push(e));
    }
}

/// What the hub is handed, in order: a robot message, or a tick.
pub ghost enum HubInput {
    Message(RobotToHub),
    Tick,
}

/// The hub state and the map after the hub has handled `inputs` in order.
pub open spec fn hub_run(h: HubModel, m: MapModel, inputs: Seq<HubInput>) -> (HubModel, MapModel)
    decreases inputs.len(),
{
    if inputs.len() == 0 {
        (h, m)
    } else {
        let next = match inputs[0] {
            HubInput::Message(msg) => {
                let step = hub_step(h, m, msg);
                (step.0, step.1)
            },
            HubInput::Tick => (HubModel { tick: if h.tick == u64::MAX { 0 } else { h.tick + 1 }, ..h }, m),
        };
        hub_run(next.0, next.1, inputs.drop_first())
    }
}

/// Two lists of robots with the same identifiers and kinds, in the same order.
pub open spec fn same_fleet(a: Seq<RobotSnapshot>, b: Seq<RobotSnapshot>) -> bool {
    &&& a.len() == b.len()
    &&& forall|i: int| 0 <= i < a.len() ==> (#[trigger] a[i]).id == b[i].id && a[i].kind == b[i].kind
}

/// One robot message leaves the hub's fleet as it was: the same robots, with
/// the same identifiers and kinds, in the same order.
pub proof fn hub_step_keeps_the_fleet(h: HubModel, m: MapModel, msg: RobotToHub)
    ensures
        same_fleet(h.robots, hub_step(h, m, msg).0.robots),
{
}

/// Over a whole run of messages and ticks the fleet never changes: every
/// snapshot the hub shows afterwards lists the robots it started with, with
/// the same identifiers and kinds, in the same order.
pub proof fn runs_keep_the_fleet(h: HubModel, m: MapModel, inputs: Seq<HubInput>, m2: MapModel, snap: SimulationSnapshot)
    requires
        snapshot_of(hub_run(h, m, inputs).0, m2, snap),
    ensures
        same_fleet(h.robots, hub_run(h, m, inputs).0.robots),
        same_fleet(h.robots, snap.robots@),
{
    lemma_run_keeps_the_fleet(h, m, inputs);
}

proof fn lemma_run_keeps_the_fleet(h: HubModel, m: MapModel, inputs: Seq<HubInput>)
    ensures
        same_fleet(h.robots, hub_run(h, m, inputs).0.robots),
    decreases inputs.len(),
{
    if inputs.len() > 0 {
        let next = match inputs[0] {
            HubInput::Message(msg) => {
                hub_step_keeps_the_fleet(h, m, msg);
                let step = hub_step(h, m, msg);
                (step.0, step.1)
            },
            HubInput::Tick => (HubModel { tick: if h.tick == u64::MAX { 0 } else { h.tick + 1 }, ..h }, m),
        };
        lemma_run_keeps_the_fleet(next.0, next.1, inputs.drop_first());
    }
}

/// A granted collect moves exactly one unit of the deposit's kind from the map
/// into the collector's cargo: the map's total of that kind drops by one and
/// the cargo ends up holding that kind.
pub proof fn granted_collect_moves_one_unit(h: HubModel, m: MapModel, robot_id: RobotId, position: Position)
    requires
        m.wf(),
        hub_step(h, m, RobotToHub::CollectRequested { robot_id, position }).3 matches Some(
            (_, HubToRobot::CollectGranted { .. }),
        ),
    ensures
        ({
            let step = hub_step(h, m, RobotToHub::CollectRequested { robot_id, position });
            match step.3 {
                Some((_, HubToRobot::CollectGranted { kind, remaining, .. })) => {
                    &&& crate::world::map::total_units(step.1.tiles, kind) + 1 == crate::world::map::total_units(m.tiles, kind)
                    &&& m.get(position) matches Some(Tile::Resource(r)) && r.kind == kind && r.quantity == remaining + 1
                    &&& robot_id.0 < h.robots.len()
                    &&& step.0.robots[robot_id.0 as int].cargo matches Some(c) && c.kind == kind
                    &&& step.0.robots[robot_id.0 as int].state == RobotState::Carrying
                },
                _ => false,
            }
        }),
{
    match m.get(position) {
        Some(Tile::Resource(r)) => {
            if r.quantity > 0 {
                crate::world::map::take_removes_exactly_one_unit(m, position, r, r.kind);
            }
        },
        _ => {},
    }
}

/// A granted move takes the robot to a walkable cell at most one step from
/// where the hub last placed it, and never changes the map.
pub proof fn granted_moves_are_single_steps(h: HubModel, m: MapModel, robot_id: RobotId, from: Position, to: Position)
    requires
        hub_step(h, m, RobotToHub::MoveRequested { robot_id, from, to }).3 == Some(
            (robot_id, HubToRobot::MoveGranted { to }),
        ),
        robot_id.0 < h.robots.len(),
    ensures
        ({
            let step = hub_step(h, m, RobotToHub::MoveRequested { robot_id, from, to });
            &&& m.walkable(to)
            &&& manhattan_spec(h.robots[robot_id.0 as int].position, to) <= 1
            &&& step.0.robots[robot_id.0 as int].position == to
            &&& step.1 == m
        }),
{
}

/// Every message leaves the delivered counters where they were, except a
/// deposit, which adds exactly its amount to the counter of its kind.
pub proof fn only_deposits_add_to_stock(h: HubModel, m: MapModel, msg: RobotToHub)
    ensures
        ({
            let step = hub_step(h, m, msg);
            match msg {
                RobotToHub::Deposit { kind, amount, .. } => match kind {
                    ResourceKind::Energy => step.0.collected_energy == h.collected_energy + amount
                        && step.0.collected_crystals == h.collected_crystals,
                    ResourceKind::Crystal => step.0.collected_crystals == h.collected_crystals + amount
                        && step.0.collected_energy == h.collected_energy,
                },
                _ => step.0.collected_energy == h.collected_energy && step.0.collected_crystals
                    == h.collected_crystals,
            }
        }),
{
}

/// Only a granted collect changes the map.
pub proof fn only_granted_collects_change_the_map(h: HubModel, m: MapModel, msg: RobotToHub)
    ensures
        ({
            let step = hub_step(h, m, msg);
            step.1 != m ==> step.3 matches Some((_, HubToRobot::CollectGranted { .. }))
        }),
{
}


/// A move request of a robot the hub knows is granted exactly when the cell
/// asked for is walkable and at most one step from where the hub holds the
/// robot (the base included); the robot then stands there. Any other request
/// is denied and moves nothing.
pub proof fn moves_are_granted_exactly_when_one_walkable_step(
    h: HubModel,
    m: MapModel,
    robot_id: RobotId,
    from: Position,
    to: Position,
)
    requires
        robot_id.0 < h.robots.len(),
    ensures
        ({
            let current = h.robots[robot_id.0 as int].position;
            let step = hub_step(h, m, RobotToHub::MoveRequested { robot_id, from, to });
            if manhattan_spec(current, to) <= 1 && m.walkable(to) {
                &&& step.3 == Some((robot_id, HubToRobot::MoveGranted { to }))
                &&& step.0.robots[robot_id.0 as int].position == to
                &&& step.1 == m
            } else {
                &&& step.3 == Some((robot_id, HubToRobot::MoveDenied { attempted: to }))
                &&& step.0 == h
                &&& step.1 == m
            }
        }),
{
    let current = h.robots[robot_id.0 as int].position;
    assert(manhattan_spec(current, to) == 0 ==> current == to);
}

/// A collect request is granted only to a robot the hub knows standing within
/// `COLLECTION_RANGE` steps of the cell, on a deposit with units left; a
/// request that is not granted leaves the map as it was.
pub proof fn collects_are_granted_only_in_range_of_a_deposit(
    h: HubModel,
    m: MapModel,
    robot_id: RobotId,
    position: Position,
)
    ensures
        ({
            let step = hub_step(h, m, RobotToHub::CollectRequested { robot_id, position });
            &&& (step.3 matches Some((_, HubToRobot::CollectGranted { .. }))) ==> {
                &&& robot_id.0 < h.robots.len()
                &&& manhattan_spec(h.robots[robot_id.0 as int].position, position) <= COLLECTION_RANGE
                &&& (m.get(position) matches Some(Tile::Resource(r)) && r.quantity > 0)
            }
            &&& !(step.3 matches Some((_, HubToRobot::CollectGranted { .. }))) ==> step.1 == m
        }),
{
    if robot_id.0 < h.robots.len() {
        let current = h.robots[robot_id.0 as int].position;
        assert(current == position ==> manhattan_spec(current, position) == 0);
    }
}

/// A robot the hub knows, standing within `COLLECTION_RANGE` steps of a
/// deposit with units left, is granted one unit of it when it asks.
pub proof fn collects_in_range_of_a_deposit_are_granted(
    h: HubModel,
    m: MapModel,
    robot_id: RobotId,
    position: Position,
    r: Resource,
)
    requires
        robot_id.0 < h.robots.len(),
        manhattan_spec(h.robots[robot_id.0 as int].position, position) <= COLLECTION_RANGE,
        m.get(position) == Some(Tile::Resource(r)),
        r.quantity > 0,
    ensures
        hub_step(h, m, RobotToHub::CollectRequested { robot_id, position }).3 == Some(
            (robot_id, HubToRobot::CollectGranted { position, kind: r.kind, remaining: (r.quantity - 1) as u32 }),
        ),
{
}

} // verus!
