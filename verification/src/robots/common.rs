//! Types shared between scouts and collectors.

use vstd::prelude::*;

use crate::communication::{KnownResource, RobotId};
use crate::tables::{list_insert, table_insert, table_remove, PositionMap, PositionSet};
use crate::utils::{abs_int, Position};
use crate::world::map::WorldMap;
use crate::world::{ResourceKind, Tile};

verus! {

/// Robot business type.
#[derive(Debug, Clone, Copy, PartialEq, Eq, Structural)]
pub enum RobotKind {
    Scout,
    Collector,
}

/// Displayable robot activity.
#[derive(Debug, Clone, Copy, PartialEq, Eq, Structural)]
pub enum RobotState {
    Exploring,
    Waiting,
    Moving,
    ReturningToBase,
    Carrying,
}

impl RobotState {
    /// Short label shown in the UI.
    pub open spec fn label_spec(self) -> Seq<char> {
        match self {
            RobotState::Exploring => "exploring"@,
            RobotState::Waiting => "waiting"@,
            RobotState::Moving => "moving"@,
            RobotState::ReturningToBase => "to base"@,
            RobotState::Carrying => "carrying"@,
        }
    }

    /// Short label shown in the UI.
    pub fn label(self) -> (s: &'static str)
        ensures
            s@ == self.label_spec(),
    {
        match self {
            RobotState::Exploring => "exploring",
            RobotState::Waiting => "waiting",
            RobotState::Moving => "moving",
            RobotState::ReturningToBase => "to base",
            RobotState::Carrying => "carrying",
        }
    }
}

/// Resource carried by a collector.
#[derive(Debug, Clone, Copy, PartialEq, Eq, Structural)]
pub struct CarriedResource {
    pub kind: ResourceKind,
    pub amount: u32,
}

/// Displayable view of a robot.
#[derive(Debug, Clone, Copy, PartialEq, Eq, Structural)]
pub struct RobotSnapshot {
    pub id: RobotId,
    pub kind: RobotKind,
    pub position: Position,
    pub cargo: Option<CarriedResource>,
    pub state: RobotState,
}

/// The resources a sequence of reports leaves known: each report sets the
/// entry at its position, later reports winning.
pub open spec fn resources_of_reports(reports: Seq<KnownResource>) -> Map<Position, KnownResource>
    decreases reports.len(),
{
    if reports.len() == 0 {
        Map::empty()
    } else {
        resources_of_reports(reports.drop_last()).insert(reports.last().position, reports.last())
    }
}

/// The resource table a sequence of reports builds, each report set in turn.
pub open spec fn table_of_reports(reports: Seq<KnownResource>) -> Seq<(Position, KnownResource)>
    decreases reports.len(),
{
    if reports.len() == 0 {
        Seq::empty()
    } else {
        table_insert(table_of_reports(reports.drop_last()), reports.last().position, reports.last())
    }
}

/// The obstacle list a sequence of positions builds, each added in turn.
pub open spec fn list_of_positions(positions: Seq<Position>) -> Seq<Position>
    decreases positions.len(),
{
    if positions.len() == 0 {
        Seq::empty()
    } else {
        list_insert(list_of_positions(positions.drop_last()), positions.last())
    }
}

/// Local knowledge of a robot, learned from observations and hub broadcasts.
#[derive(Debug, Clone)]
pub struct LocalKnowledge {
    resources: PositionMap<KnownResource>,
    obstacles: PositionSet,
}

impl LocalKnowledge {
    /// Well-formedness: the tables hold no repeated key and every resource is
    /// filed under its own position.
    pub open spec fn wf(&self) -> bool {
        &&& self.resource_table().wf()
        &&& self.obstacle_table().wf()
        &&& forall|i: int|
            0 <= i < self.resource_table()@.len() ==> (#[trigger] self.resource_table()@[i]).1.position
                == self.resource_table()@[i].0
    }

    pub closed spec fn resource_table(&self) -> PositionMap<KnownResource> {
        self.resources
    }

    pub closed spec fn obstacle_table(&self) -> PositionSet {
        self.obstacles
    }

    /// The known resources, by position.
    pub open spec fn resource_map(&self) -> Map<Position, KnownResource> {
        self.resource_table().map()
    }

    /// The known obstacles.
    pub open spec fn obstacle_set(&self) -> Set<Position> {
        self.obstacle_table().set()
    }

    pub fn new() -> (k: Self)
        ensures
            k.wf(),
            k.resource_table()@ == Seq::<(Position, KnownResource)>::empty(),
            k.obstacle_table()@ == Seq::<Position>::empty(),
            k.resource_map() == Map::<Position, KnownResource>::empty(),
            k.obstacle_set() == Set::<Position>::empty(),
    {
        let k = LocalKnowledge { resources: PositionMap::new(), obstacles: PositionSet::new() };
        assert(k.obstacle_set() =~= Set::<Position>::empty());
        k
    }

    pub fn resources(&self) -> (t: &PositionMap<KnownResource>)
        ensures
            *t == self.resource_table(),
    {
        &self.resources
    }

    pub fn obstacles(&self) -> (t: &PositionSet)
        ensures
            *t == self.obstacle_table(),
    {
        &self.obstacles
    }

    pub fn remove_resource(&mut self, position: Position)
        requires
            old(self).wf(),
        ensures
            final(self).wf(),
            final(self).resource_map() == old(self).resource_map().remove(position),
            final(self).resource_table()@ == table_remove(old(self).resource_table()@, position),
            final(self).obstacle_table() == old(self).obstacle_table(),
    {
        let ghost before = self.resources@;
        self.resources.remove(position);
        proof {
            if has_key_at(before, position) {
                let k = choose|i: int| 0 <= i < before.len() && #[trigger] before[i].0 == position;
                assert forall|i: int| 0 <= i < self.resources@.len() implies (#[trigger] self.resources@[i]).1.position
                    == self.resources@[i].0 by {
                    assert(self.resources@[i] == before[if i < k { i } else { i + 1 }]);
                }
            }
        }
    }

    pub fn set_resource(&mut self, resource: KnownResource)
        requires
            old(self).wf(),
        ensures
            final(self).wf(),
            final(self).resource_map() == old(self).resource_map().insert(resource.position, resource),
            final(self).resource_table()@ == table_insert(old(self).resource_table()@, resource.position, resource),
            final(self).obstacle_table() == old(self).obstacle_table(),
    {
        self.resources.insert(resource.position, resource);
    }

    /// Replaces local knowledge with the hub's aggregated knowledge, which is
    /// the source of truth for known resources.
    pub fn replace_with(&mut self, resources: &[KnownResource], obstacles: &[Position])
        ensures
            final(self).wf(),
            final(self).resource_map() == resources_of_reports(resources@),
            final(self).obstacle_set() == obstacles@.to_set(),
            final(self).resource_table()@ == table_of_reports(resources@),
            final(self).obstacle_table()@ == list_of_positions(obstacles@),
    {
        let mut table: PositionMap<KnownResource> = PositionMap::new();
        let mut i: usize = 0;
        while i < resources.len()
            invariant
                i <= resources.len(),
                table.wf(),
                table.map() == resources_of_reports(resources@.take(i as int)),
                table@ == table_of_reports(resources@.take(i as int)),
                forall|k: int| 0 <= k < table@.len() ==> (#[trigger] table@[k]).1.position == table@[k].0,
            decreases resources.len() - i,
        {
            let r = resources[i];
            let ghost before = table@;
            table.insert(r.position, r);
            proof {
                assert(resources@.take(i + 1).drop_last() =~= resources@.take(i as int));
                assert forall|k: int| 0 <= k < table@.len() implies (#[trigger] table@[k]).1.position == table@[k].0 by {
                    if k < before.len() && table@[k] != before[k] {
                        assert(table@[k] == (r.position, r));
                    }
                }
            }
            i = i + 1;
        }
        assert(resources@.take(resources.len() as int) =~= resources@);
        let mut set = PositionSet::new();
        let mut j: usize = 0;
        while j < obstacles.len()
            invariant
                j <= obstacles.len(),
                set.wf(),
                set.set() == obstacles@.take(j as int).to_set(),
                set@ == list_of_positions(obstacles@.take(j as int)),
            decreases obstacles.len() - j,
        {
            set.insert(obstacles[j]);
            proof {
                assert(obstacles@.take(j + 1).drop_last() =~= obstacles@.take(j as int));
                assert(obstacles@.take(j + 1) =~= obstacles@.take(j as int).push(obstacles@[j as int]));
                obstacles@.take(j as int).lemma_push_to_set_commute(obstacles@[j as int]);
            }
            j = j + 1;
        }
        assert(obstacles@.take(obstacles.len() as int) =~= obstacles@);
        self.resources = table;
        self.obstacles = set;
    }

    /// Observes a cell. Returns the resource if it is new or updated, else None.
    pub fn observe_resource(&mut self, position: Position, tile: Tile) -> (reported: Option<KnownResource>)
        requires
            old(self).wf(),
        ensures
            final(self).wf(),
            final(self).obstacle_table() == old(self).obstacle_table(),
            match tile {
                Tile::Resource(resource) => {
                    let known = KnownResource { position, kind: resource.kind, quantity: resource.quantity };
                    &&& final(self).resource_map() == old(self).resource_map().insert(position, known)
                    &&& final(self).resource_table()@ == table_insert(old(self).resource_table()@, position, known)
                    &&& reported == if old(self).resource_map().contains_key(position)
                        && old(self).resource_map()[position] == known {
                        None
                    } else {
                        Some(known)
                    }
                },
                Tile::Empty | Tile::Base => {
                    &&& final(self).resource_map() == old(self).resource_map().remove(position)
                    &&& final(self).resource_table()@ == table_remove(old(self).resource_table()@, position)
                    &&& reported is None
                },
                Tile::Obstacle => {
                    &&& final(self).resource_table() == old(self).resource_table()
                    &&& reported is None
                },
            },
    {
        match tile {
            Tile::Resource(resource) => {
                let known = KnownResource { position, kind: resource.kind, quantity: resource.quantity };
                let changed = match self.resources.get(position) {
                    Some(k) => k != known,
                    None => true,
                };
                self.resources.insert(position, known);
                if changed {
                    Some(known)
                } else {
                    None
                }
            },
            Tile::Empty | Tile::Base => {
                self.remove_resource(position);
                None
            },
            Tile::Obstacle => None,
        }
    }

    /// Observes an obstacle; returns true if it is new information.
    pub fn observe_obstacle(&mut self, position: Position, tile: Tile) -> (added: bool)
        requires
            old(self).wf(),
        ensures
            final(self).wf(),
            final(self).resource_table() == old(self).resource_table(),
            added == (tile is Obstacle && !old(self).obstacle_set().contains(position)),
            final(self).obstacle_set() == if tile is Obstacle {
                old(self).obstacle_set().insert(position)
            } else {
                old(self).obstacle_set()
            },
            final(self).obstacle_table()@ == if tile is Obstacle {
                list_insert(old(self).obstacle_table()@, position)
            } else {
                old(self).obstacle_table()@
            },
    {
        if matches!(tile, Tile::Obstacle) {
            self.obstacles.insert(position)
        } else {
            false
        }
    }
}

impl Default for LocalKnowledge {
    fn default() -> (k: Self)
        ensures
            k.wf(),
            k.resource_map() == Map::<Position, KnownResource>::empty(),
            k.obstacle_set() == Set::<Position>::empty(),
    {
        LocalKnowledge::new()
    }
}

/// Whether some entry has key `p` (local alias).
pub open spec fn has_key_at(s: Seq<(Position, KnownResource)>, p: Position) -> bool {
    crate::tables::has_key(s, p)
}

/// Row-major order on positions.
pub open spec fn row_major_before(a: Position, b: Position) -> bool {
    a.y < b.y || (a.y == b.y && a.x < b.x)
}

/// Whether `p` lies in the square of half-side `radius` around `center`.
pub open spec fn in_square(center: Position, radius: int, p: Position) -> bool {
    abs_int(p.x - center.x) <= radius && abs_int(p.y - center.y) <= radius
}

/// Positions visible around `center` within a square of the given `radius`,
/// clamped to the map bounds, in row-major order.
pub fn visible_positions(center: Position, radius: i32, map: &WorldMap) -> (visible: Vec<Position>)
    requires
        map@.wf(),
    ensures
        forall|p: Position| #[trigger] visible@.contains(p) <==> (in_square(center, radius as int, p) && map@.in_bounds(p)),
        forall|i: int, j: int| 0 <= i < j < visible.len() ==> row_major_before(#[trigger] visible@[i], #[trigger] visible@[j]),
{
    let mut visible: Vec<Position> = Vec::new();
    let r: i64 = radius as i64;
    let w: i64 = map.width() as i64;
    let h: i64 = map.height() as i64;
    let mut dy: i64 = -r;
    while dy <= r
        invariant
            map@.wf(),
            r == radius,
            w == map@.width,
            h == map@.height,
            r >= 0 ==> -r <= dy <= r + 1,
            r < 0 ==> dy == -r,
            forall|k: int| 0 <= k < visible.len() ==> in_square(center, radius as int, #[trigger] visible@[k]) && map@.in_bounds(visible@[k]),
            forall|k: int| 0 <= k < visible.len() ==> (#[trigger] visible@[k]).y < center.y + dy,
            forall|i: int, j: int| 0 <= i < j < visible.len() ==> row_major_before(#[trigger] visible@[i], #[trigger] visible@[j]),
            forall|p: Position|
                in_square(center, radius as int, p) && map@.in_bounds(p) && p.y < center.y + dy ==> #[trigger] visible@.contains(p),
        decreases r + 1 - dy,
    {
        let mut dx: i64 = -r;
        while dx <= r
            invariant
                map@.wf(),
                r == radius,
                w == map@.width,
                h == map@.height,
                -r <= dy <= r,
                -r <= dx <= r + 1,
                forall|k: int| 0 <= k < visible.len() ==> in_square(center, radius as int, #[trigger] visible@[k]) && map@.in_bounds(visible@[k]),
                forall|k: int| 0 <= k < visible.len() ==> (#[trigger] visible@[k]).y < center.y + dy
                    || (visible@[k].y == center.y + dy && visible@[k].x < center.x + dx),
                forall|i: int, j: int| 0 <= i < j < visible.len() ==> row_major_before(#[trigger] visible@[i], #[trigger] visible@[j]),
                forall|p: Position|
                    in_square(center, radius as int, p) && map@.in_bounds(p) && (p.y < center.y + dy || (p.y == center.y + dy && p.x < center.x + dx)) ==> #[trigger] visible@.contains(p),
            decreases r + 1 - dx,
        {
            let x: i64 = center.x as i64 + dx;
            let y: i64 = center.y as i64 + dy;
            if 0 <= x && x < w && 0 <= y && y < h {
                let position = Position::new(x as i32, y as i32);
                let ghost before = visible@;
                visible.push(position);
                proof {
                    assert forall|p: Position|
                        in_square(center, radius as int, p) && map@.in_bounds(p) && (p.y < center.y + dy || (p.y == center.y + dy && p.x < center.x + dx + 1)) implies #[trigger] visible@.contains(p) by {
                        if p == position {
                            assert(visible@[visible.len() - 1] == p);
                        } else {
                            assert(before.contains(p));
                            let k = choose|k: int| 0 <= k < before.len() && before[k] == p;
                            assert(visible@[k] == p);
                        }
                    }
                }
            }
            dx = dx + 1;
        }
        dy = dy + 1;
    }
    proof {
        assert forall|p: Position| #[trigger] visible@.contains(p) implies (in_square(center, radius as int, p) && map@.in_bounds(p)) by {
            let k = choose|k: int| 0 <= k < visible.len() && visible@[k] == p;
        }
    }
    visible
}

} // verus!
