//! Collector robot.
//!
//! Receives known resources from the hub, picks a target, navigates with A*,
//! asks the hub to collect one unit, then returns to the exact base cell to
//! deposit it. The robot only decides: each hub message yields the messages
//! to send back, and the application carries them.

use vstd::prelude::*;

use crate::communication::message::{lemma_reports_push, report_of, reports_of, Report};
use crate::communication::{HubToRobot, KnownResource, RobotId, RobotToHub};
use crate::pathfinding::{next_step_avoiding, next_step_spec};
use crate::robots::common::{table_of_reports, CarriedResource, LocalKnowledge};
use crate::robots::planning::{
    best_collection_goal, best_goal, choose_target_among, chosen_target, is_chosen_entry, lemma_chosen_entry_exists,
    nearest_goal_len, qualifies, COLLECTION_RANGE,
};
use crate::tables::{list_insert, table_insert, table_remove, PositionSet};
use crate::text::{coordinates, decimal, push_coordinates, push_decimal, resource_label, resource_label_spec};
use crate::utils::{manhattan_spec, Position};
use crate::world::map::{MapModel, WorldMap};
use crate::world::ResourceKind;

verus! {

/// Capacity fixed to 1: collect one unit, then return to deposit it.
pub const DEFAULT_COLLECTOR_CAPACITY: u32 = 1;

/// Max number of cells temporarily avoided after move denials.
pub const TEMPORARY_BLOCK_LIMIT: usize = 12;

#[derive(Debug, Clone, Copy, PartialEq, Eq, Structural)]
pub enum CollectorState {
    Waiting,
    MovingToResource,
    Collecting,
    ReturningToBase,
}

/// The mathematical content of a collector.
pub ghost struct CollectorModel {
    pub id: RobotId,
    pub position: Position,
    /// The known resources, in table order.
    pub resources: Seq<(Position, KnownResource)>,
    /// The known obstacles, in table order.
    pub obstacles: Seq<Position>,
    pub target: Option<Position>,
    pub cargo: Option<CarriedResource>,
    pub capacity: u32,
    pub state: CollectorState,
    pub awaiting_move: bool,
    pub awaiting_collect: bool,
    /// Cells avoided after move denials, in insertion order.
    pub temporary_blocked: Seq<Position>,
}

pub open spec fn knows_text(n: nat) -> Seq<char> {
    "connait maintenant "@ + decimal(n) + " ressource(s)"@
}

pub open spec fn move_refused_text(p: Position) -> Seq<char> {
    "deplacement refuse vers "@ + coordinates(p)
}

pub open spec fn collected_text(kind: ResourceKind, p: Position) -> Seq<char> {
    "collecte 1 "@ + resource_label_spec(kind) + " en "@ + coordinates(p)
}

pub open spec fn returning_text() -> Seq<char> {
    "retourne a la base avec sa cargaison"@
}

pub open spec fn collect_refused_text(p: Position) -> Seq<char> {
    "collecte refusee en "@ + coordinates(p)
}

pub open spec fn aiming_text(p: Position) -> Seq<char> {
    "vise une ressource en "@ + coordinates(p)
}

pub open spec fn no_goal_text(p: Position) -> Seq<char> {
    "aucun point de collecte vers "@ + coordinates(p)
}

pub open spec fn no_route_text(p: Position) -> Seq<char> {
    "aucun chemin vers ressource "@ + coordinates(p)
}

pub open spec fn no_base_route_text(p: Position) -> Seq<char> {
    "chemin exact vers base introuvable "@ + coordinates(p)
}

pub open spec fn collect_request_text(p: Position) -> Seq<char> {
    "demande collecte en "@ + coordinates(p)
}

pub open spec fn deposit_log_text(amount: u32, kind: ResourceKind) -> Seq<char> {
    "depose "@ + decimal(amount as nat) + " "@ + resource_label_spec(kind) + " a la base"@
}

/// The cells the collector avoids when planning: temporary denials plus every
/// obstacle it knows about.
pub open spec fn blocked_set(c: CollectorModel) -> Set<Position> {
    c.temporary_blocked.to_set().union(c.obstacles.to_set())
}

/// The units carried.
pub open spec fn carried(c: CollectorModel) -> nat {
    match c.cargo {
        Some(cg) => cg.amount as nat,
        None => 0,
    }
}

/// The kind a collector prefers: energy for even identifiers, crystal for odd.
pub open spec fn preferred_kind_spec(id: RobotId) -> ResourceKind {
    if id.0 % 2 == 0 {
        ResourceKind::Energy
    } else {
        ResourceKind::Crystal
    }
}

/// The cargo after collecting one unit of `kind`.
pub open spec fn cargo_after(cargo: Option<CarriedResource>, kind: ResourceKind) -> Option<CarriedResource> {
    match cargo {
        Some(c) => if c.kind == kind {
            Some(CarriedResource { kind, amount: (c.amount + 1) as u32 })
        } else {
            Some(CarriedResource { kind, amount: 1 })
        },
        None => Some(CarriedResource { kind, amount: 1 }),
    }
}

pub open spec fn log(c: CollectorModel, text: Seq<char>) -> Report {
    Report::Log { robot_id: c.id, text }
}

/// Asks the hub to move to `next`.
pub open spec fn request_move_spec(c: CollectorModel, next: Position) -> (CollectorModel, Seq<Report>) {
    (
        CollectorModel { awaiting_move: true, ..c },
        seq![Report::MoveRequested { robot_id: c.id, from: c.position, to: next }],
    )
}

/// Asks the hub to collect at `p`.
pub open spec fn request_collect_spec(c: CollectorModel, p: Position) -> (CollectorModel, Seq<Report>) {
    (
        CollectorModel { awaiting_collect: true, state: CollectorState::Collecting, ..c },
        seq![log(c, collect_request_text(p)), Report::CollectRequested { robot_id: c.id, position: p }],
    )
}

/// Deposits the cargo at the base.
pub open spec fn deposit_spec(c: CollectorModel) -> (CollectorModel, Seq<Report>) {
    let c2 = CollectorModel { cargo: None, state: CollectorState::Waiting, temporary_blocked: Seq::empty(), ..c };
    match c.cargo {
        Some(cg) => (
            c2,
            seq![
                log(c, deposit_log_text(cg.amount, cg.kind)),
                Report::Deposit { robot_id: c.id, kind: cg.kind, amount: cg.amount },
            ],
        ),
        None => (c2, Seq::empty()),
    }
}

/// The next step towards `goal`, avoiding known obstacles and temporary
/// denials; when the denials seal every route they are dropped and the
/// search is retried. Also returns the denials kept.
pub open spec fn next_step_to_spec(c: CollectorModel, m: MapModel, goal: Position) -> (Option<Position>, Seq<Position>) {
    if c.position == goal {
        (None, c.temporary_blocked)
    } else {
        match next_step_spec(m, c.position, goal, blocked_set(c)) {
            Some(n) => (Some(n), c.temporary_blocked),
            None => if c.temporary_blocked.len() > 0 {
                (
                    next_step_spec(
                        m,
                        c.position,
                        goal,
                        blocked_set(CollectorModel { temporary_blocked: Seq::empty(), ..c }),
                    ),
                    Seq::empty(),
                )
            } else {
                (None, c.temporary_blocked)
            },
        }
    }
}

/// Heads for the exact base cell, depositing once there.
pub open spec fn move_to_base_spec(c: CollectorModel, m: MapModel) -> (CollectorModel, Seq<Report>) {
    if c.position == m.base {
        deposit_spec(c)
    } else {
        let (next, tb) = next_step_to_spec(c, m, m.base);
        let c2 = CollectorModel { temporary_blocked: tb, ..c };
        match next {
            Some(n) => request_move_spec(c2, n),
            None => (
                CollectorModel { temporary_blocked: Seq::empty(), ..c2 },
                seq![log(c, no_base_route_text(m.base))],
            ),
        }
    }
}

/// Heads for a collection cell within range of `target`.
pub open spec fn move_towards_resource_spec(c: CollectorModel, m: MapModel, target: Position) -> (CollectorModel, Seq<Report>) {
    let give_up = CollectorModel {
        target: None,
        state: CollectorState::Waiting,
        temporary_blocked: Seq::empty(),
        ..c
    };
    match best_goal(m, c.position, target, blocked_set(c)) {
        None => (give_up, seq![log(c, no_goal_text(target))]),
        Some(goal) => if goal == c.position {
            request_collect_spec(c, target)
        } else {
            let (next, tb) = next_step_to_spec(c, m, goal);
            match next {
                Some(n) => request_move_spec(CollectorModel { temporary_blocked: tb, ..c }, n),
                None => (give_up, seq![log(c, no_route_text(target))]),
            }
        },
    }
}

/// The known resource to aim for: the nearest of the preferred kind, else the
/// nearest of any kind.
pub open spec fn choose_target_spec(c: CollectorModel, m: MapModel) -> Option<Position> {
    match chosen_target(c.resources, m, c.position, blocked_set(c), Some(preferred_kind_spec(c.id))) {
        Some(t) => Some(t),
        None => chosen_target(c.resources, m, c.position, blocked_set(c), None),
    }
}

pub open spec fn in_collection_range(c: CollectorModel, t: Position) -> bool {
    manhattan_spec(c.position, t) <= COLLECTION_RANGE
}

/// Whether the target is still known with units left.
pub open spec fn target_known(c: CollectorModel, t: Position) -> bool {
    crate::tables::as_map(c.resources).contains_key(t) && crate::tables::as_map(c.resources)[t].quantity > 0
}

/// What the collector does on a tick.
pub open spec fn tick_spec(c: CollectorModel, m: MapModel) -> (CollectorModel, Seq<Report>) {
    if c.awaiting_move || c.awaiting_collect {
        (c, Seq::empty())
    } else if c.position == m.base && carried(c) > 0 {
        deposit_spec(c)
    } else if carried(c) > 0 {
        move_to_base_spec(CollectorModel { state: CollectorState::ReturningToBase, ..c }, m)
    } else {
        match c.target {
            Some(t) => if in_collection_range(c, t) {
                request_collect_spec(c, t)
            } else if target_known(c, t) {
                move_towards_resource_spec(CollectorModel { state: CollectorState::MovingToResource, ..c }, m, t)
            } else {
                (CollectorModel { target: None, state: CollectorState::Waiting, ..c }, Seq::empty())
            },
            None => match choose_target_spec(c, m) {
                Some(t) => {
                    let c1 = CollectorModel { target: Some(t), state: CollectorState::MovingToResource, ..c };
                    let next = if in_collection_range(c1, t) {
                        request_collect_spec(c1, t)
                    } else {
                        move_towards_resource_spec(c1, m, t)
                    };
                    (next.0, seq![log(c, aiming_text(t))] + next.1)
                },
                None => (CollectorModel { state: CollectorState::Waiting, ..c }, Seq::empty()),
            },
        }
    }
}

/// Whether the collector can take the message without overflowing its cargo.
pub open spec fn collector_accepts(c: CollectorModel, msg: HubToRobot) -> bool {
    match msg {
        HubToRobot::CollectGranted { kind, .. } => match c.cargo {
            Some(cg) => cg.kind == kind ==> cg.amount < u32::MAX,
            None => true,
        },
        _ => true,
    }
}

/// What the collector does with one hub message: its new state, the messages
/// it sends, and whether it stops.
pub open spec fn collector_step(c: CollectorModel, m: MapModel, msg: HubToRobot) -> (CollectorModel, Seq<Report>, bool) {
    match msg {
        HubToRobot::Tick(_) => {
            let (c2, r) = tick_spec(c, m);
            (c2, r, false)
        },
        HubToRobot::Knowledge { resources, obstacles } => {
            let table = table_of_reports(resources@);
            let c2 = CollectorModel { resources: table, obstacles: crate::robots::common::list_of_positions(obstacles@), ..c };
            if c.resources.len() == 0 && table.len() > 0 {
                (c2, seq![log(c, knows_text(table.len()))], false)
            } else {
                (c2, Seq::empty(), false)
            }
        },
        HubToRobot::MoveGranted { to } => (
            CollectorModel { position: to, awaiting_move: false, temporary_blocked: Seq::empty(), ..c },
            Seq::empty(),
            false,
        ),
        HubToRobot::MoveDenied { attempted } => {
            let tb = list_insert(c.temporary_blocked, attempted);
            (
                CollectorModel {
                    awaiting_move: false,
                    temporary_blocked: if tb.len() > TEMPORARY_BLOCK_LIMIT { Seq::empty() } else { tb },
                    ..c
                },
                seq![log(c, move_refused_text(attempted))],
                false,
            )
        },
        HubToRobot::CollectGranted { position, kind, remaining } => {
            let c1 = CollectorModel { awaiting_collect: false, cargo: cargo_after(c.cargo, kind), ..c };
            let c2 = if remaining == 0 {
                CollectorModel { resources: table_remove(c1.resources, position), target: None, ..c1 }
            } else {
                CollectorModel {
                    resources: table_insert(c1.resources, position, KnownResource { position, kind, quantity: remaining }),
                    ..c1
                }
            };
            if carried(c2) >= c2.capacity {
                (
                    CollectorModel {
                        state: CollectorState::ReturningToBase,
                        target: None,
                        temporary_blocked: Seq::empty(),
                        ..c2
                    },
                    seq![log(c, collected_text(kind, position)), log(c, returning_text())],
                    false,
                )
            } else {
                (c2, seq![log(c, collected_text(kind, position))], false)
            }
        },
        HubToRobot::CollectDenied { position } => (
            CollectorModel {
                awaiting_collect: false,
                resources: table_remove(c.resources, position),
                target: None,
                state: CollectorState::Waiting,
                ..c
            },
            seq![log(c, collect_refused_text(position))],
            false,
        ),
        HubToRobot::Shutdown => (c, Seq::empty(), true),
    }
}

pub struct CollectorRobot {
    id: RobotId,
    position: Position,
    knowledge: LocalKnowledge,
    target: Option<Position>,
    cargo: Option<CarriedResource>,
    capacity: u32,
    state: CollectorState,
    awaiting_move: bool,
    awaiting_collect: bool,
    temporary_blocked: PositionSet,
}

impl View for CollectorRobot {
    type V = CollectorModel;

    closed spec fn view(&self) -> CollectorModel {
        CollectorModel {
            id: self.id,
            position: self.position,
            resources: self.knowledge.resource_table()@,
            obstacles: self.knowledge.obstacle_table()@,
            target: self.target,
            cargo: self.cargo,
            capacity: self.capacity,
            state: self.state,
            awaiting_move: self.awaiting_move,
            awaiting_collect: self.awaiting_collect,
            temporary_blocked: self.temporary_blocked@,
        }
    }
}

impl CollectorRobot {
    /// Well-formedness of the tables behind the collector.
    pub closed spec fn wf(&self) -> bool {
        self.knowledge.wf() && self.temporary_blocked.wf()
    }

    pub fn new(id: RobotId, start: Position) -> (c: Self)
        ensures
            c.wf(),
            c@ == (CollectorModel {
                id,
                position: start,
                resources: Seq::empty(),
                obstacles: Seq::empty(),
                target: None,
                cargo: None,
                capacity: DEFAULT_COLLECTOR_CAPACITY,
                state: CollectorState::Waiting,
                awaiting_move: false,
                awaiting_collect: false,
                temporary_blocked: Seq::empty(),
            }),
    {
        Self {
            id,
            position: start,
            knowledge: LocalKnowledge::new(),
            target: None,
            cargo: None,
            capacity: DEFAULT_COLLECTOR_CAPACITY,
            state: CollectorState::Waiting,
            awaiting_move: false,
            awaiting_collect: false,
            temporary_blocked: PositionSet::new(),
        }
    }

    fn log(&self, out: &mut Vec<RobotToHub>, text: String)
        ensures
            reports_of(final(out)@) == reports_of(old(out)@).push(log(self@, text@)),
    {
        out.push(RobotToHub::Log { robot_id: self.id, text });
        assert(reports_of(out@) =~= reports_of(old(out)@).push(log(self@, text@)));
    }

    /// The cells avoided when planning.
    fn blocked_positions(&self) -> (blocked: Vec<Position>)
        ensures
            blocked@.to_set() == blocked_set(self@),
    {
        let mut blocked = self.temporary_blocked.items().clone();
        let obstacles = self.knowledge.obstacles().items();
        let mut i: usize = 0;
        let ghost tb = self.temporary_blocked@;
        assert(blocked@ == tb);
        while i < obstacles.len()
            invariant
                i <= obstacles.len(),
                blocked@ == tb + obstacles@.take(i as int),
            decreases obstacles.len() - i,
        {
            blocked.push(obstacles[i]);
            i = i + 1;
            assert(blocked@ =~= tb + obstacles@.take(i as int));
        }
        assert(obstacles@.take(obstacles.len() as int) =~= obstacles@);
        assert(obstacles@ == self@.obstacles);
        assert(blocked@.to_set() =~= blocked_set(self@)) by {
            assert forall|x: Position| #[trigger] blocked@.to_set().contains(x) <==> blocked_set(self@).contains(x) by {
                if blocked@.contains(x) {
                    let k = choose|k: int| 0 <= k < blocked@.len() && blocked@[k] == x;
                    if k < tb.len() {
                        assert(tb[k] == x);
                    } else {
                        assert(obstacles@[k - tb.len()] == x);
                    }
                }
                if tb.contains(x) {
                    let k = choose|k: int| 0 <= k < tb.len() && tb[k] == x;
                    assert(blocked@[k] == x);
                }
                if obstacles@.contains(x) {
                    let k = choose|k: int| 0 <= k < obstacles@.len() && obstacles@[k] == x;
                    assert(blocked@[tb.len() + k] == x);
                }
            }
        }
        blocked
    }

    fn request_move(&mut self, out: &mut Vec<RobotToHub>, next: Position)
        requires
            old(self).wf(),
        ensures
            final(self).wf(),
            final(self)@ == request_move_spec(old(self)@, next).0,
            reports_of(final(out)@) == reports_of(old(out)@) + request_move_spec(old(self)@, next).1,
    {
        self.awaiting_move = true;
        out.push(RobotToHub::MoveRequested { robot_id: self.id, from: self.position, to: next });
        assert(reports_of(out@) =~= reports_of(old(out)@) + request_move_spec(old(self)@, next).1);
    }

    fn request_collect(&mut self, out: &mut Vec<RobotToHub>, position: Position)
        requires
            old(self).wf(),
        ensures
            final(self).wf(),
            final(self)@ == request_collect_spec(old(self)@, position).0,
            reports_of(final(out)@) == reports_of(old(out)@) + request_collect_spec(old(self)@, position).1,
    {
        self.awaiting_collect = true;
        self.state = CollectorState::Collecting;
        let mut text = String::from_str("demande collecte en ");
        push_coordinates(&mut text, position);
        assert(text@ =~= collect_request_text(position));
        self.log(out, text);
        let ghost mid = out@;
        out.push(RobotToHub::CollectRequested { robot_id: self.id, position });
        proof {
            lemma_reports_push(mid, RobotToHub::CollectRequested { robot_id: self.id, position });
        }
        assert(reports_of(out@) =~= reports_of(old(out)@) + request_collect_spec(old(self)@, position).1);
    }

    fn deposit_at_base(&mut self, out: &mut Vec<RobotToHub>)
        requires
            old(self).wf(),
        ensures
            final(self).wf(),
            final(self)@ == deposit_spec(old(self)@).0,
            reports_of(final(out)@) == reports_of(old(out)@) + deposit_spec(old(self)@).1,
    {
        match self.cargo {
            Some(cargo) => {
                self.cargo = None;
                let mut text = String::from_str("depose ");
                push_decimal(&mut text, cargo.amount as u64);
                text.append(" ");
                text.append(resource_label(cargo.kind));
                text.append(" a la base");
                assert(text@ =~= deposit_log_text(cargo.amount, cargo.kind));
                self.log(out, text);
                let ghost mid = out@;
                out.push(RobotToHub::Deposit { robot_id: self.id, kind: cargo.kind, amount: cargo.amount });
                proof {
                    lemma_reports_push(mid, RobotToHub::Deposit { robot_id: self.id, kind: cargo.kind, amount: cargo.amount });
                }
            },
            None => {},
        }
        self.state = CollectorState::Waiting;
        self.temporary_blocked.clear();
        assert(reports_of(out@) =~= reports_of(old(out)@) + deposit_spec(old(self)@).1);
        assert(self@ == deposit_spec(old(self)@).0);
    }

    /// Next step towards a goal, avoiding known obstacles and temporary denials.
    fn next_step_to(&mut self, map: &WorldMap, goal: Position) -> (next: Option<Position>)
        requires
            old(self).wf(),
            map@.wf(),
            map@.searchable(),
        ensures
            final(self).wf(),
            next == next_step_to_spec(old(self)@, map@, goal).0,
            final(self)@ == (CollectorModel { temporary_blocked: next_step_to_spec(old(self)@, map@, goal).1, ..old(self)@ }),
    {
        if self.position == goal {
            return None;
        }
        let blocked = self.blocked_positions();
        match next_step_avoiding(map, self.position, goal, &blocked) {
            Some(next) => {
                return Some(next);
            },
            None => {},
        }
        if self.temporary_blocked.len() > 0 {
            self.temporary_blocked.clear();
            let blocked = self.blocked_positions();
            return next_step_avoiding(map, self.position, goal, &blocked);
        }
        None
    }

    /// Moves towards the exact base cell (required to deposit).
    fn request_move_to_base(&mut self, map: &WorldMap, out: &mut Vec<RobotToHub>)
        requires
            old(self).wf(),
            map@.wf(),
            map@.searchable(),
        ensures
            final(self).wf(),
            final(self)@ == move_to_base_spec(old(self)@, map@).0,
            reports_of(final(out)@) == reports_of(old(out)@) + move_to_base_spec(old(self)@, map@).1,
    {
        let base = map.base();
        if self.position == base {
            self.deposit_at_base(out);
            return;
        }
        let ghost c0 = self@;
        match self.next_step_to(map, base) {
            Some(next) => {
                self.request_move(out, next);
            },
            None => {
                let mut text = String::from_str("chemin exact vers base introuvable ");
                push_coordinates(&mut text, base);
                assert(text@ =~= no_base_route_text(base));
                self.log(out, text);
                self.temporary_blocked.clear();
                assert(reports_of(out@) =~= reports_of(old(out)@) + move_to_base_spec(c0, map@).1);
                assert(self@ == move_to_base_spec(c0, map@).0);
            },
        }
    }

    /// Moves towards a collection cell within range of the resource.
    fn request_move_towards_resource(&mut self, map: &WorldMap, target: Position, out: &mut Vec<RobotToHub>)
        requires
            old(self).wf(),
            map@.wf(),
            map@.searchable(),
        ensures
            final(self).wf(),
            final(self)@ == move_towards_resource_spec(old(self)@, map@, target).0,
            reports_of(final(out)@) == reports_of(old(out)@) + move_towards_resource_spec(old(self)@, map@, target).1,
    {
        let ghost c0 = self@;
        let blocked = self.blocked_positions();
        let goal = match best_collection_goal(map, self.position, target, &blocked) {
            Some(g) => g,
            None => {
                let mut text = String::from_str("aucun point de collecte vers ");
                push_coordinates(&mut text, target);
                assert(text@ =~= no_goal_text(target));
                self.log(out, text);
                self.target = None;
                self.state = CollectorState::Waiting;
                self.temporary_blocked.clear();
                assert(reports_of(out@) =~= reports_of(old(out)@) + move_towards_resource_spec(c0, map@, target).1);
                assert(self@ == move_towards_resource_spec(c0, map@, target).0);
                return;
            },
        };
        if goal == self.position {
            self.request_collect(out, target);
            return;
        }
        match self.next_step_to(map, goal) {
            Some(next) => {
                self.request_move(out, next);
            },
            None => {
                let mut text = String::from_str("aucun chemin vers ressource ");
                push_coordinates(&mut text, target);
                assert(text@ =~= no_route_text(target));
                self.log(out, text);
                self.target = None;
                self.state = CollectorState::Waiting;
                self.temporary_blocked.clear();
                assert(reports_of(out@) =~= reports_of(old(out)@) + move_towards_resource_spec(c0, map@, target).1);
                assert(self@ == move_towards_resource_spec(c0, map@, target).0);
            },
        }
    }

    fn preferred_kind(&self) -> (k: ResourceKind)
        ensures
            k == preferred_kind_spec(self@.id),
    {
        if self.id.0 % 2 == 0 {
            ResourceKind::Energy
        } else {
            ResourceKind::Crystal
        }
    }

    fn choose_target_for_kind(&self, map: &WorldMap, kind: ResourceKind) -> (t: Option<Position>)
        requires
            self.wf(),
            map@.wf(),
            map@.searchable(),
        ensures
            t == chosen_target(self@.resources, map@, self@.position, blocked_set(self@), Some(kind)),
    {
        let blocked = self.blocked_positions();
        choose_target_among(self.knowledge.resources().entries(), map, self.position, &blocked, Some(kind))
    }

    fn choose_any_target(&self, map: &WorldMap) -> (t: Option<Position>)
        requires
            self.wf(),
            map@.wf(),
            map@.searchable(),
        ensures
            t == chosen_target(self@.resources, map@, self@.position, blocked_set(self@), None),
    {
        let blocked = self.blocked_positions();
        choose_target_among(self.knowledge.resources().entries(), map, self.position, &blocked, None)
    }

    /// Picks a resource: prefer this collector's kind, else any reachable one.
    fn choose_target(&self, map: &WorldMap) -> (t: Option<Position>)
        requires
            self.wf(),
            map@.wf(),
            map@.searchable(),
        ensures
            t == choose_target_spec(self@, map@),
    {
        match self.choose_target_for_kind(map, self.preferred_kind()) {
            Some(t) => Some(t),
            None => self.choose_any_target(map),
        }
    }

    fn target_is_known(&self, target: Position) -> (b: bool)
        requires
            self.wf(),
        ensures
            b == target_known(self@, target),
    {
        match self.knowledge.resources().get(target) {
            Some(r) => r.quantity > 0,
            None => false,
        }
    }

    fn is_in_collection_range(&self, target: Position) -> (b: bool)
        ensures
            b == in_collection_range(self@, target),
    {
        self.position.manhattan_distance(target) <= COLLECTION_RANGE as u64
    }

    fn has_cargo(&self) -> (b: bool)
        ensures
            b == (carried(self@) > 0),
    {
        self.carried_amount() > 0
    }

    fn carried_amount(&self) -> (n: u32)
        ensures
            n == carried(self@),
    {
        match self.cargo {
            Some(c) => c.amount,
            None => 0,
        }
    }

    /// What the collector does on a tick.
    fn on_tick(&mut self, map: &WorldMap, out: &mut Vec<RobotToHub>)
        requires
            old(self).wf(),
            map@.wf(),
            map@.searchable(),
        ensures
            final(self).wf(),
            final(self)@ == tick_spec(old(self)@, map@).0,
            reports_of(final(out)@) == reports_of(old(out)@) + tick_spec(old(self)@, map@).1,
    {
        let ghost c0 = self@;
        if self.awaiting_move || self.awaiting_collect {
            assert(reports_of(out@) =~= reports_of(old(out)@) + tick_spec(c0, map@).1);
            return;
        }
        let base = map.base();
        if self.position == base && self.has_cargo() {
            self.deposit_at_base(out);
            return;
        }
        if self.has_cargo() {
            self.state = CollectorState::ReturningToBase;
            self.request_move_to_base(map, out);
            return;
        }
        match self.target {
            Some(target) => {
                if self.is_in_collection_range(target) {
                    self.request_collect(out, target);
                } else if self.target_is_known(target) {
                    self.state = CollectorState::MovingToResource;
                    self.request_move_towards_resource(map, target, out);
                } else {
                    self.target = None;
                    self.state = CollectorState::Waiting;
                    assert(reports_of(out@) =~= reports_of(old(out)@) + tick_spec(c0, map@).1);
                }
                return;
            },
            None => {},
        }
        match self.choose_target(map) {
            Some(target) => {
                self.target = Some(target);
                self.state = CollectorState::MovingToResource;
                let mut text = String::from_str("vise une ressource en ");
                push_coordinates(&mut text, target);
                assert(text@ =~= aiming_text(target));
                self.log(out, text);
                let ghost c1 = self@;
                let ghost mid = out@;
                if self.is_in_collection_range(target) {
                    self.request_collect(out, target);
                } else {
                    self.request_move_towards_resource(map, target, out);
                }
                assert(reports_of(out@) =~= reports_of(old(out)@) + tick_spec(c0, map@).1);
            },
            None => {
                self.state = CollectorState::Waiting;
                assert(reports_of(out@) =~= reports_of(old(out)@) + tick_spec(c0, map@).1);
            },
        }
    }

    /// Whether the collector can take the message without overflowing its cargo.
    pub fn accepts(&self, message: &HubToRobot) -> (ok: bool)
        ensures
            ok == collector_accepts(self@, *message),
    {
        match message {
            HubToRobot::CollectGranted { kind, .. } => match self.cargo {
                Some(cg) => cg.kind != *kind || cg.amount < u32::MAX,
                None => true,
            },
            _ => true,
        }
    }

    fn add_cargo(&mut self, kind: ResourceKind)
        requires
            collector_accepts(old(self)@, HubToRobot::CollectGranted { position: Position { x: 0, y: 0 }, kind, remaining: 0 }),
        ensures
            final(self)@ == (CollectorModel { cargo: cargo_after(old(self)@.cargo, kind), ..old(self)@ }),
            final(self).wf() == old(self).wf(),
    {
        let cargo = match self.cargo {
            Some(c) => if c.kind == kind {
                CarriedResource { kind, amount: c.amount + 1 }
            } else {
                CarriedResource { kind, amount: 1 }
            },
            None => CarriedResource { kind, amount: 1 },
        };
        self.cargo = Some(cargo);
    }

    /// Handles one message of the hub: returns the messages to send back and
    /// whether the robot stops.
    pub fn handle_message(&mut self, message: HubToRobot, map: &WorldMap) -> (result: (Vec<RobotToHub>, bool))
        requires
            old(self).wf(),
            map@.wf(),
            map@.searchable(),
            collector_accepts(old(self)@, message),
        ensures
            final(self).wf(),
            ({
                let step = collector_step(old(self)@, map@, message);
                &&& final(self)@ == step.0
                &&& reports_of(result.0@) == step.1
                &&& result.1 == step.2
            }),
    {
        let mut out: Vec<RobotToHub> = Vec::new();
        let ghost c0 = self@;
        match message {
            HubToRobot::Tick(_tick) => {
                self.on_tick(map, &mut out);
                assert(reports_of(out@) =~= tick_spec(c0, map@).1);
                (out, false)
            },
            HubToRobot::Knowledge { resources, obstacles } => {
                let previous_count = self.knowledge.resources().len();
                self.knowledge.replace_with(resources.as_slice(), obstacles.as_slice());
                let new_count = self.knowledge.resources().len();
                if previous_count == 0 && new_count > 0 {
                    let mut text = String::from_str("connait maintenant ");
                    push_decimal(&mut text, new_count as u64);
                    text.append(" ressource(s)");
                    assert(text@ =~= knows_text(new_count as nat));
                    self.log(&mut out, text);
                }
                assert(reports_of(out@) =~= collector_step(c0, map@, message).1);
                (out, false)
            },
            HubToRobot::MoveGranted { to } => {
                self.position = to;
                self.awaiting_move = false;
                self.temporary_blocked.clear();
                assert(reports_of(out@) =~= Seq::<Report>::empty());
                (out, false)
            },
            HubToRobot::MoveDenied { attempted } => {
                self.awaiting_move = false;
                let mut text = String::from_str("deplacement refuse vers ");
                push_coordinates(&mut text, attempted);
                assert(text@ =~= move_refused_text(attempted));
                self.log(&mut out, text);
                self.temporary_blocked.insert(attempted);
                if self.temporary_blocked.len() > TEMPORARY_BLOCK_LIMIT {
                    self.temporary_blocked.clear();
                }
                assert(reports_of(out@) =~= collector_step(c0, map@, message).1);
                (out, false)
            },
            HubToRobot::CollectGranted { position, kind, remaining } => {
                self.awaiting_collect = false;
                self.add_cargo(kind);
                let mut text = String::from_str("collecte 1 ");
                text.append(resource_label(kind));
                text.append(" en ");
                push_coordinates(&mut text, position);
                assert(text@ =~= collected_text(kind, position));
                self.log(&mut out, text);
                if remaining == 0 {
                    self.knowledge.remove_resource(position);
                    self.target = None;
                } else {
                    self.knowledge.set_resource(KnownResource { position, kind, quantity: remaining });
                }
                if self.carried_amount() >= self.capacity {
                    self.state = CollectorState::ReturningToBase;
                    self.target = None;
                    self.temporary_blocked.clear();
                    let text = String::from_str("retourne a la base avec sa cargaison");
                    self.log(&mut out, text);
                }
                assert(reports_of(out@) =~= collector_step(c0, map@, message).1);
                (out, false)
            },
            HubToRobot::CollectDenied { position } => {
                self.awaiting_collect = false;
                self.knowledge.remove_resource(position);
                self.target = None;
                self.state = CollectorState::Waiting;
                let mut text = String::from_str("collecte refusee en ");
                push_coordinates(&mut text, position);
                assert(text@ =~= collect_refused_text(position));
                self.log(&mut out, text);
                assert(reports_of(out@) =~= collector_step(c0, map@, message).1);
                (out, false)
            },
            HubToRobot::Shutdown => {
                assert(reports_of(out@) =~= Seq::<Report>::empty());
                (out, true)
            },
        }
    }
}

/// Once a granted collect fills the cargo to capacity, the collector drops
/// its target and heads back to the base.
pub proof fn full_collector_returns_to_base(c: CollectorModel, m: MapModel, position: Position, kind: ResourceKind, remaining: u32)
    requires
        carried(CollectorModel { cargo: cargo_after(c.cargo, kind), ..c }) >= c.capacity,
    ensures
        ({
            let after = collector_step(c, m, HubToRobot::CollectGranted { position, kind, remaining }).0;
            &&& after.state == CollectorState::ReturningToBase
            &&& after.target is None
            &&& after.cargo == cargo_after(c.cargo, kind)
        }),
{
}

/// A collector waiting for the answer to a move or a collect does nothing on
/// a tick.
pub proof fn waiting_collector_stays_put(c: CollectorModel, m: MapModel, tick: u64)
    requires
        c.awaiting_move || c.awaiting_collect,
    ensures
        collector_step(c, m, HubToRobot::Tick(tick)).0 == c,
        collector_step(c, m, HubToRobot::Tick(tick)).1 == Seq::<Report>::empty(),
{
}

/// A loaded collector never asks to collect on a tick: it either deposits at
/// the base or heads there.
pub proof fn loaded_collector_heads_home(c: CollectorModel, m: MapModel, tick: u64)
    requires
        !c.awaiting_move && !c.awaiting_collect,
        carried(c) > 0,
    ensures
        forall|i: int|
            0 <= i < collector_step(c, m, HubToRobot::Tick(tick)).1.len() ==> !(#[trigger] collector_step(c, m, HubToRobot::Tick(tick)).1[i] is CollectRequested),
{
    let s = collector_step(c, m, HubToRobot::Tick(tick)).1;
    if c.position != m.base {
        let c2 = CollectorModel { state: CollectorState::ReturningToBase, ..c };
        assert(s == move_to_base_spec(c2, m).1);
    }
}


/// Where a collector stands after handling `msgs` from `start`: each granted
/// move takes it to the cell granted, nothing else moves it, and nothing is
/// handled after a shutdown.
pub open spec fn granted_position(start: Position, msgs: Seq<HubToRobot>) -> Position
    decreases msgs.len(),
{
    if msgs.len() == 0 {
        start
    } else {
        match msgs[0] {
            HubToRobot::Shutdown => start,
            HubToRobot::MoveGranted { to } => granted_position(to, msgs.drop_first()),
            _ => granted_position(start, msgs.drop_first()),
        }
    }
}

/// A collector handling, in order, the messages of `steps` (each with the map
/// it reads), up to and including the first shutdown: its final state and all
/// it sends.
pub open spec fn collector_run(c: CollectorModel, steps: Seq<(MapModel, HubToRobot)>) -> (CollectorModel, Seq<Report>)
    decreases steps.len(),
{
    if steps.len() == 0 {
        (c, Seq::empty())
    } else {
        let s = collector_step(c, steps[0].0, steps[0].1);
        if s.2 {
            (s.0, s.1)
        } else {
            let r = collector_run(s.0, steps.drop_first());
            (r.0, s.1 + r.1)
        }
    }
}

/// One step of a collector keeps its identifier, moves it only on a granted
/// move (to the cell granted), keeps its list of avoided cells within the
/// limit, and stops exactly on a shutdown.
pub proof fn collector_step_moves_only_when_granted(c: CollectorModel, m: MapModel, msg: HubToRobot)
    ensures
        collector_step(c, m, msg).0.id == c.id,
        collector_step(c, m, msg).0.position == match msg {
            HubToRobot::MoveGranted { to } => to,
            _ => c.position,
        },
        c.temporary_blocked.len() <= TEMPORARY_BLOCK_LIMIT ==> collector_step(c, m, msg).0.temporary_blocked.len()
            <= TEMPORARY_BLOCK_LIMIT,
        collector_step(c, m, msg).2 <==> msg is Shutdown,
{
}

/// Over a whole run, a collector stands where the last granted move put it
/// (where it started if none was granted), keeps its identifier, and never
/// avoids more than `TEMPORARY_BLOCK_LIMIT` cells.
pub proof fn collectors_move_only_when_granted(c: CollectorModel, steps: Seq<(MapModel, HubToRobot)>)
    requires
        c.temporary_blocked.len() <= TEMPORARY_BLOCK_LIMIT,
    ensures
        collector_run(c, steps).0.id == c.id,
        collector_run(c, steps).0.position == granted_position(c.position, steps.map_values(|s: (MapModel, HubToRobot)| s.1)),
        collector_run(c, steps).0.temporary_blocked.len() <= TEMPORARY_BLOCK_LIMIT,
    decreases steps.len(),
{
    let msgs = steps.map_values(|s: (MapModel, HubToRobot)| s.1);
    if steps.len() > 0 {
        collector_step_moves_only_when_granted(c, steps[0].0, steps[0].1);
        let s = collector_step(c, steps[0].0, steps[0].1);
        assert(msgs[0] == steps[0].1);
        if !s.2 {
            let rest = steps.drop_first();
            collectors_move_only_when_granted(s.0, rest);
            assert(msgs.drop_first() =~= rest.map_values(|s: (MapModel, HubToRobot)| s.1));
        }
    }
}

/// A collector that knows a deposit with units left and a reachable
/// collection cell always picks a target. The target is a deposit it knows,
/// with units left and a reachable collection cell. When a deposit of its
/// preferred kind qualifies, the target is of that kind and no farther than
/// any such deposit; when none does, it falls back to any kind and the target
/// is no farther than any qualifying deposit.
pub proof fn collectors_aim_at_a_reachable_deposit(c: CollectorModel, m: MapModel, i: int)
    requires
        0 <= i < c.resources.len(),
        c.resources[i].1.quantity > 0,
        nearest_goal_len(m, c.position, c.resources[i].1.position, blocked_set(c)) is Some,
    ensures
        choose_target_spec(c, m) is Some,
        exists|j: int|
            {
                &&& 0 <= j < c.resources.len()
                &&& #[trigger] c.resources[j].1.position == choose_target_spec(c, m)->0
                &&& c.resources[j].1.quantity > 0
                &&& nearest_goal_len(m, c.position, c.resources[j].1.position, blocked_set(c)) is Some
                &&& c.resources[i].1.kind == preferred_kind_spec(c.id) ==> {
                    &&& c.resources[j].1.kind == preferred_kind_spec(c.id)
                    &&& nearest_goal_len(m, c.position, c.resources[j].1.position, blocked_set(c))->0
                        <= nearest_goal_len(m, c.position, c.resources[i].1.position, blocked_set(c))->0
                }
                &&& (forall|k: int|
                    0 <= k < c.resources.len() && c.resources[k].1.kind == preferred_kind_spec(c.id)
                        && c.resources[k].1.quantity > 0 ==> #[trigger] nearest_goal_len(
                        m,
                        c.position,
                        c.resources[k].1.position,
                        blocked_set(c),
                    ) is None) ==> nearest_goal_len(m, c.position, c.resources[j].1.position, blocked_set(c))->0
                    <= nearest_goal_len(m, c.position, c.resources[i].1.position, blocked_set(c))->0
            },
{
    let es = c.resources;
    let bs = blocked_set(c);
    let pref = Some(preferred_kind_spec(c.id));
    if exists|k: int| is_chosen_entry(es, m, c.position, bs, pref, k) {
        let j = choose|k: int| is_chosen_entry(es, m, c.position, bs, pref, k);
        assert(choose_target_spec(c, m) == Some(es[j].1.position));
        if es[i].1.kind == preferred_kind_spec(c.id) {
            assert(qualifies(es[i].1, pref));
        }
        assert(qualifies(es[j].1, pref));
    } else {
        if es[i].1.kind == preferred_kind_spec(c.id) {
            lemma_chosen_entry_exists(es, m, c.position, bs, pref, i);
        }
        assert(es[i].1.kind != preferred_kind_spec(c.id));
        lemma_chosen_entry_exists(es, m, c.position, bs, None, i);
        let j = choose|k: int| is_chosen_entry(es, m, c.position, bs, None, k);
        assert(choose_target_spec(c, m) == Some(es[j].1.position));
        assert(qualifies(es[i].1, None));
        assert forall|k: int|
            0 <= k < es.len() && es[k].1.kind == preferred_kind_spec(c.id) && es[k].1.quantity > 0
                implies #[trigger] nearest_goal_len(m, c.position, es[k].1.position, bs) is None by {
            if nearest_goal_len(m, c.position, es[k].1.position, bs) is Some {
                lemma_chosen_entry_exists(es, m, c.position, bs, pref, k);
            }
        }
    }
}

/// An idle collector (no cargo, no target, no answer awaited) that knows a
/// deposit with units left and a reachable collection cell acts on a tick:
/// its first message announces the deposit it aims for, one it knows with
/// units left.
pub proof fn idle_collectors_aim_on_a_tick(c: CollectorModel, m: MapModel, i: int, tick: u64)
    requires
        !c.awaiting_move,
        !c.awaiting_collect,
        carried(c) == 0,
        c.target is None,
        0 <= i < c.resources.len(),
        c.resources[i].1.quantity > 0,
        nearest_goal_len(m, c.position, c.resources[i].1.position, blocked_set(c)) is Some,
    ensures
        ({
            let reports = collector_step(c, m, HubToRobot::Tick(tick)).1;
            &&& reports.len() >= 1
            &&& exists|j: int|
                0 <= j < c.resources.len() && c.resources[j].1.quantity > 0 && reports[0] == #[trigger] log(
                    c,
                    aiming_text(c.resources[j].1.position),
                )
        }),
{
    collectors_aim_at_a_reachable_deposit(c, m, i);
    let t = choose_target_spec(c, m)->0;
    let j = choose|j: int|
        {
            &&& 0 <= j < c.resources.len()
            &&& #[trigger] c.resources[j].1.position == choose_target_spec(c, m)->0
            &&& c.resources[j].1.quantity > 0
            &&& nearest_goal_len(m, c.position, c.resources[j].1.position, blocked_set(c)) is Some
            &&& c.resources[i].1.kind == preferred_kind_spec(c.id) ==> {
                &&& c.resources[j].1.kind == preferred_kind_spec(c.id)
                &&& nearest_goal_len(m, c.position, c.resources[j].1.position, blocked_set(c))->0
                    <= nearest_goal_len(m, c.position, c.resources[i].1.position, blocked_set(c))->0
            }
            &&& (forall|k: int|
                0 <= k < c.resources.len() && c.resources[k].1.kind == preferred_kind_spec(c.id)
                    && c.resources[k].1.quantity > 0 ==> #[trigger] nearest_goal_len(
                    m,
                    c.position,
                    c.resources[k].1.position,
                    blocked_set(c),
                ) is None) ==> nearest_goal_len(m, c.position, c.resources[j].1.position, blocked_set(c))->0
                <= nearest_goal_len(m, c.position, c.resources[i].1.position, blocked_set(c))->0
        };
    let reports = collector_step(c, m, HubToRobot::Tick(tick)).1;
    let c1 = CollectorModel { target: Some(t), state: CollectorState::MovingToResource, ..c };
    let next = if in_collection_range(c1, t) {
        request_collect_spec(c1, t)
    } else {
        move_towards_resource_spec(c1, m, t)
    };
    assert(reports == seq![log(c, aiming_text(t))] + next.1);
    assert(reports[0] == log(c, aiming_text(c.resources[j].1.position)));
}

} // verus!
