//! Scout robot.
//!
//! Explores at random, observes its surroundings, reports resources and
//! obstacles to the hub, and never collects. The robot only decides: each hub
//! message yields the messages to send back, and the application carries them.

use vstd::prelude::*;

use rand::rngs::StdRng;

use crate::communication::message::{lemma_reports_push, report_of, reports_of, Report};
use crate::communication::{HubToRobot, KnownResource, RobotId, RobotToHub};
use crate::rng::{seeded_rng, shuffle_positions};
use crate::robots::common::{
    in_square, list_of_positions, row_major_before, table_of_reports, visible_positions, LocalKnowledge,
};
use crate::tables::{as_map, list_insert, table_insert, table_remove};
use crate::utils::{adjacent, Position};
use crate::world::map::{MapModel, WorldMap};
use crate::world::Tile;

verus! {

/// Local scan radius of the scout (kept small so knowledge stays local).
pub const SCOUT_SCAN_RADIUS: i32 = 2;

/// The mathematical content of a scout (its random generator aside).
pub ghost struct ScoutModel {
    pub id: RobotId,
    pub position: Position,
    pub resources: Seq<(Position, KnownResource)>,
    pub obstacles: Seq<Position>,
    pub awaiting_move: bool,
}

/// What observing tile `t` at `p` does to the knowledge tables, and the
/// reports it yields: a newly seen obstacle, a new or changed resource.
pub open spec fn observe_spec(
    resources: Seq<(Position, KnownResource)>,
    obstacles: Seq<Position>,
    id: RobotId,
    p: Position,
    t: Tile,
) -> (Seq<(Position, KnownResource)>, Seq<Position>, Seq<Report>) {
    let obstacles2 = if t is Obstacle {
        list_insert(obstacles, p)
    } else {
        obstacles
    };
    let obstacle_report = if t is Obstacle && !obstacles.contains(p) {
        seq![Report::ObstacleDiscovered { robot_id: id, position: p }]
    } else {
        Seq::empty()
    };
    match t {
        Tile::Resource(res) => {
            let known = KnownResource { position: p, kind: res.kind, quantity: res.quantity };
            let changed = !(as_map(resources).contains_key(p) && as_map(resources)[p] == known);
            (
                table_insert(resources, p, known),
                obstacles2,
                obstacle_report + if changed {
                    seq![Report::ResourceDiscovered { robot_id: id, position: p, kind: res.kind, quantity: res.quantity }]
                } else {
                    Seq::empty()
                },
            )
        },
        Tile::Empty | Tile::Base => (table_remove(resources, p), obstacles2, obstacle_report),
        Tile::Obstacle => (resources, obstacles2, obstacle_report),
    }
}

/// Observing the cells of `visible` in order.
pub open spec fn scan_spec(
    resources: Seq<(Position, KnownResource)>,
    obstacles: Seq<Position>,
    id: RobotId,
    m: MapModel,
    visible: Seq<Position>,
) -> (Seq<(Position, KnownResource)>, Seq<Position>, Seq<Report>)
    decreases visible.len(),
{
    if visible.len() == 0 {
        (resources, obstacles, Seq::empty())
    } else {
        let before = scan_spec(resources, obstacles, id, m, visible.drop_last());
        let after = observe_spec(before.0, before.1, id, visible.last(), m.tile(visible.last()));
        (after.0, after.1, before.2 + after.2)
    }
}

/// The cells a scout at `center` sees: in bounds, within the scan radius, in
/// row-major order.
pub open spec fn is_scan_of(m: MapModel, center: Position, visible: Seq<Position>) -> bool {
    &&& forall|p: Position| #[trigger] visible.contains(p) <==> (in_square(center, SCOUT_SCAN_RADIUS as int, p) && m.in_bounds(p))
    &&& forall|i: int, j: int| 0 <= i < j < visible.len() ==> row_major_before(#[trigger] visible[i], #[trigger] visible[j])
}

/// A cell the scout may step to: a walkable cardinal neighbour that it does
/// not know as an obstacle.
pub open spec fn move_candidate(s: ScoutModel, m: MapModel, q: Position) -> bool {
    adjacent(s.position, q) && m.walkable(q) && !s.obstacles.contains(q)
}

/// `s1` and `reports` are what a tick can make of scout `s0` on map `m`: it
/// scans what it sees, then, unless it waits for an answer to a move, asks to
/// step to one of its move candidates when it has any.
pub open spec fn is_tick_of(s0: ScoutModel, m: MapModel, s1: ScoutModel, reports: Seq<Report>) -> bool {
    exists|visible: Seq<Position>| {
        &&& #[trigger] is_scan_of(m, s0.position, visible)
        &&& {
            let sc = scan_spec(s0.resources, s0.obstacles, s0.id, m, visible);
            let scanned = ScoutModel { resources: sc.0, obstacles: sc.1, ..s0 };
            if !s0.awaiting_move && exists|q: Position| move_candidate(scanned, m, q) {
                exists|q: Position| {
                    &&& move_candidate(scanned, m, q)
                    &&& s1 == (ScoutModel { awaiting_move: true, ..scanned })
                    &&& reports == sc.2.push(Report::MoveRequested { robot_id: s0.id, from: s0.position, to: q })
                }
            } else {
                s1 == scanned && reports == sc.2
            }
        }
    }
}

/// `s1`, `reports` and `stop` are what scout `s0` can make of a hub message.
pub open spec fn is_scout_step(s0: ScoutModel, m: MapModel, msg: HubToRobot, s1: ScoutModel, reports: Seq<Report>, stop: bool) -> bool {
    match msg {
        HubToRobot::Tick(_) => is_tick_of(s0, m, s1, reports) && !stop,
        HubToRobot::Knowledge { resources, obstacles } => {
            &&& s1 == (ScoutModel {
                resources: table_of_reports(resources@),
                obstacles: list_of_positions(obstacles@),
                ..s0
            })
            &&& reports.len() == 0
            &&& !stop
        },
        HubToRobot::MoveGranted { to } => s1 == (ScoutModel { position: to, awaiting_move: false, ..s0 })
            && reports.len() == 0 && !stop,
        HubToRobot::MoveDenied { .. } => s1 == (ScoutModel { awaiting_move: false, ..s0 }) && reports.len() == 0 && !stop,
        HubToRobot::Shutdown => s1 == s0 && reports.len() == 0 && stop,
        _ => s1 == s0 && reports.len() == 0 && !stop,
    }
}

pub struct ScoutRobot {
    id: RobotId,
    position: Position,
    knowledge: LocalKnowledge,
    rng: StdRng,
    awaiting_move: bool,
}

impl View for ScoutRobot {
    type V = ScoutModel;

    closed spec fn view(&self) -> ScoutModel {
        ScoutModel {
            id: self.id,
            position: self.position,
            resources: self.knowledge.resource_table()@,
            obstacles: self.knowledge.obstacle_table()@,
            awaiting_move: self.awaiting_move,
        }
    }
}

impl ScoutRobot {
    /// Well-formedness of the tables behind the scout.
    pub closed spec fn wf(&self) -> bool {
        self.knowledge.wf()
    }

    /// A scout at `start` whose random moves follow the stream of `seed`.
    pub fn new(id: RobotId, start: Position, seed: u64) -> (s: Self)
        ensures
            s.wf(),
            s@ == (ScoutModel {
                id,
                position: start,
                resources: Seq::empty(),
                obstacles: Seq::empty(),
                awaiting_move: false,
            }),
    {
        Self { id, position: start, knowledge: LocalKnowledge::new(), rng: seeded_rng(seed), awaiting_move: false }
    }

    /// Observes every visible cell and reports what is new.
    fn scan_surroundings(&mut self, map: &WorldMap, out: &mut Vec<RobotToHub>)
        requires
            old(self).wf(),
            map@.wf(),
        ensures
            final(self).wf(),
            final(self)@.id == old(self)@.id,
            final(self)@.position == old(self)@.position,
            final(self)@.awaiting_move == old(self)@.awaiting_move,
            exists|visible: Seq<Position>| {
                &&& is_scan_of(map@, old(self)@.position, visible)
                &&& final(self)@.resources == scan_spec(old(self)@.resources, old(self)@.obstacles, old(self)@.id, map@, visible).0
                &&& final(self)@.obstacles == scan_spec(old(self)@.resources, old(self)@.obstacles, old(self)@.id, map@, visible).1
                &&& reports_of(final(out)@) == reports_of(old(out)@) + scan_spec(old(self)@.resources, old(self)@.obstacles, old(self)@.id, map@, visible).2
            },
    {
        let ghost s0 = self@;
        let visible = visible_positions(self.position, SCOUT_SCAN_RADIUS, map);
        assert forall|k: int| 0 <= k < visible.len() implies map@.in_bounds(#[trigger] visible@[k]) by {
            assert(visible@.contains(visible@[k]));
        }
        assert(visible@.take(0) =~= Seq::<Position>::empty());
        let mut i: usize = 0;
        while i < visible.len()
            invariant
                map@.wf(),
                self.wf(),
                self@.id == s0.id,
                self@.position == s0.position,
                self@.awaiting_move == s0.awaiting_move,
                i <= visible.len(),
                forall|k: int| 0 <= k < visible.len() ==> map@.in_bounds(#[trigger] visible@[k]),
                ({
                    let sc = scan_spec(s0.resources, s0.obstacles, s0.id, map@, visible@.take(i as int));
                    &&& self@.resources == sc.0
                    &&& self@.obstacles == sc.1
                    &&& reports_of(out@) == reports_of(old(out)@) + sc.2
                }),
            decreases visible.len() - i,
        {
            let position = visible[i];
            assert(visible@.contains(position));
            let tile = match map.get(position) {
                Some(t) => *t,
                None => Tile::Empty,
            };
            proof {
                assert(visible@.take(i + 1).drop_last() =~= visible@.take(i as int));
            }
            let ghost mid = out@;
            let ghost k0 = self@;
            if self.knowledge.observe_obstacle(position, tile) {
                out.push(RobotToHub::ObstacleDiscovered { robot_id: self.id, position });
                proof {
                    lemma_reports_push(mid, RobotToHub::ObstacleDiscovered { robot_id: self.id, position });
                }
            }
            let ghost mid2 = out@;
            match self.knowledge.observe_resource(position, tile) {
                Some(resource) => {
                    out.push(
                        RobotToHub::ResourceDiscovered {
                            robot_id: self.id,
                            position: resource.position,
                            kind: resource.kind,
                            quantity: resource.quantity,
                        },
                    );
                    proof {
                        lemma_reports_push(
                            mid2,
                            RobotToHub::ResourceDiscovered {
                                robot_id: self.id,
                                position: resource.position,
                                kind: resource.kind,
                                quantity: resource.quantity,
                            },
                        );
                    }
                },
                None => {},
            }
            proof {
                let ob = observe_spec(k0.resources, k0.obstacles, k0.id, position, tile);
                assert(reports_of(out@) =~= reports_of(mid) + ob.2);
            }
            i = i + 1;
        }
        assert(visible@.take(visible.len() as int) =~= visible@);
        assert(is_scan_of(map@, s0.position, visible@));
        let ghost sc = scan_spec(s0.resources, s0.obstacles, s0.id, map@, visible@);
        assert(self@.resources == sc.0 && self@.obstacles == sc.1 && reports_of(out@) == reports_of(old(out)@) + sc.2);
    }

    /// Asks the hub to move to a random walkable neighbour not known as an
    /// obstacle, if there is one.
    fn request_random_move(&mut self, map: &WorldMap, out: &mut Vec<RobotToHub>)
        requires
            old(self).wf(),
            map@.wf(),
        ensures
            final(self).wf(),
            (exists|q: Position| move_candidate(old(self)@, map@, q)) ==> exists|q: Position| {
                &&& move_candidate(old(self)@, map@, q)
                &&& final(self)@ == (ScoutModel { awaiting_move: true, ..old(self)@ })
                &&& reports_of(final(out)@) == reports_of(old(out)@).push(
                    Report::MoveRequested { robot_id: old(self)@.id, from: old(self)@.position, to: q },
                )
            },
            !(exists|q: Position| move_candidate(old(self)@, map@, q)) ==> {
                &&& final(self)@ == old(self)@
                &&& final(out)@ == old(out)@
            },
    {
        let mut candidates: Vec<Position> = Vec::new();
        let x = self.position.x as i64;
        let y = self.position.y as i64;
        let deltas: [(i64, i64); 4] = [(0, -1), (1, 0), (0, 1), (-1, 0)];
        let w = map.width() as i64;
        let h = map.height() as i64;
        let mut d: usize = 0;
        while d < 4
            invariant
                map@.wf(),
                self.wf(),
                w == map@.width,
                h == map@.height,
                x == self.position.x,
                y == self.position.y,
                deltas@ == seq![(0i64, -1i64), (1i64, 0i64), (0i64, 1i64), (-1i64, 0i64)],
                d <= 4,
                forall|k: int| 0 <= k < candidates.len() ==> move_candidate(self@, map@, #[trigger] candidates@[k]),
                forall|q: Position|
                    move_candidate(self@, map@, q) && (exists|k: int| 0 <= k < d && q.x == x + deltas@[k].0 && q.y == y + deltas@[k].1)
                        ==> #[trigger] candidates@.contains(q),
            decreases 4 - d,
        {
            let nx = x + deltas[d].0;
            let ny = y + deltas[d].1;
            if 0 <= nx && nx < w && 0 <= ny && ny < h {
                let q = Position::new(nx as i32, ny as i32);
                if map.is_walkable(q) && !self.knowledge.obstacles().contains(q) {
                    let ghost before = candidates@;
                    candidates.push(q);
                    proof {
                        assert forall|p: Position|
                            move_candidate(self@, map@, p) && (exists|k: int| 0 <= k < d + 1 && p.x == x + deltas@[k].0 && p.y == y + deltas@[k].1)
                            implies #[trigger] candidates@.contains(p) by {
                            if p == q {
                                assert(candidates@[candidates.len() - 1] == p);
                            } else {
                                let k = choose|k: int| 0 <= k < d + 1 && p.x == x + deltas@[k].0 && p.y == y + deltas@[k].1;
                                if k < d {
                                    assert(before.contains(p));
                                    let j = choose|j: int| 0 <= j < before.len() && before[j] == p;
                                    assert(candidates@[j] == p);
                                }
                            }
                        }
                    }
                }
            }
            d = d + 1;
        }
        proof {
            assert forall|q: Position| move_candidate(self@, map@, q) implies #[trigger] candidates@.contains(q) by {
                if q.x == x && q.y == y - 1 {
                    assert(q.x == x + deltas@[0].0 && q.y == y + deltas@[0].1);
                } else if q.x == x + 1 {
                    assert(q.x == x + deltas@[1].0 && q.y == y + deltas@[1].1);
                } else if q.x == x && q.y == y + 1 {
                    assert(q.x == x + deltas@[2].0 && q.y == y + deltas@[2].1);
                } else {
                    assert(q.x == x + deltas@[3].0 && q.y == y + deltas@[3].1);
                }
            }
        }
        let ghost unshuffled = candidates@;
        shuffle_positions(&mut self.rng, &mut candidates);
        if candidates.len() > 0 {
            let next = candidates[0];
            proof {
                assert(candidates@.to_multiset().count(next) > 0) by {
                    vstd::seq_lib::lemma_seq_contains_after_push(candidates@.drop_first(), next, next);
                    assert(candidates@.contains(next));
                    candidates@.to_multiset_ensures();
                }
                unshuffled.to_multiset_ensures();
                assert(unshuffled.contains(next));
            }
            self.awaiting_move = true;
            let ghost mid = out@;
            out.push(RobotToHub::MoveRequested { robot_id: self.id, from: self.position, to: next });
            proof {
                lemma_reports_push(mid, RobotToHub::MoveRequested { robot_id: self.id, from: self.position, to: next });
            }
        } else {
            proof {
                unshuffled.to_multiset_ensures();
                candidates@.to_multiset_ensures();
                if unshuffled.len() > 0 {
                    assert(unshuffled.to_multiset().count(unshuffled[0]) > 0);
                }
                assert forall|q: Position| !move_candidate(self@, map@, q) by {
                    if move_candidate(self@, map@, q) {
                        assert(unshuffled.contains(q));
                    }
                }
            }
        }
    }

    fn on_tick(&mut self, map: &WorldMap, out: &mut Vec<RobotToHub>)
        requires
            old(self).wf(),
            map@.wf(),
            old(out)@.len() == 0,
        ensures
            final(self).wf(),
            is_tick_of(old(self)@, map@, final(self)@, reports_of(final(out)@)),
    {
        let ghost s0 = self@;
        self.scan_surroundings(map, out);
        let ghost s1 = self@;
        let ghost r1 = out@;
        if !self.awaiting_move {
            self.request_random_move(map, out);
        }
        proof {
            let visible = choose|visible: Seq<Position>| {
                &&& is_scan_of(map@, s0.position, visible)
                &&& s1.resources == scan_spec(s0.resources, s0.obstacles, s0.id, map@, visible).0
                &&& s1.obstacles == scan_spec(s0.resources, s0.obstacles, s0.id, map@, visible).1
                &&& reports_of(r1) == reports_of(old(out)@) + scan_spec(s0.resources, s0.obstacles, s0.id, map@, visible).2
            };
            let sc = scan_spec(s0.resources, s0.obstacles, s0.id, map@, visible);
            assert(reports_of(old(out)@) =~= Seq::<Report>::empty());
            assert(reports_of(r1) =~= sc.2);
            assert(s1 == (ScoutModel { resources: sc.0, obstacles: sc.1, ..s0 }));
            assert(is_scan_of(map@, s0.position, visible));
        }
    }

    /// Handles one message of the hub: returns the messages to send back and
    /// whether the robot stops.
    pub fn handle_message(&mut self, message: HubToRobot, map: &WorldMap) -> (result: (Vec<RobotToHub>, bool))
        requires
            old(self).wf(),
            map@.wf(),
        ensures
            final(self).wf(),
            is_scout_step(old(self)@, map@, message, final(self)@, reports_of(result.0@), result.1),
    {
        let mut out: Vec<RobotToHub> = Vec::new();
        match message {
            HubToRobot::Tick(_tick) => {
                self.on_tick(map, &mut out);
                (out, false)
            },
            HubToRobot::Knowledge { resources, obstacles } => {
                self.knowledge.replace_with(resources.as_slice(), obstacles.as_slice());
                (out, false)
            },
            HubToRobot::MoveGranted { to } => {
                self.position = to;
                self.awaiting_move = false;
                (out, false)
            },
            HubToRobot::MoveDenied { .. } => {
                self.awaiting_move = false;
                (out, false)
            },
            HubToRobot::Shutdown => (out, true),
            HubToRobot::CollectGranted { .. } | HubToRobot::CollectDenied { .. } => {
                // A scout never collects.
                (out, false)
            },
        }
    }
}


/// A report a scout with identifier `id` standing at `position` may send: a
/// discovery in its own name, or a request to move from where it stands.
pub open spec fn scout_report_ok(id: RobotId, position: Position, r: Report) -> bool {
    match r {
        Report::ResourceDiscovered { robot_id, .. } => robot_id == id,
        Report::ObstacleDiscovered { robot_id, .. } => robot_id == id,
        Report::MoveRequested { robot_id, from, .. } => robot_id == id && from == position,
        _ => false,
    }
}

/// The scan reports only discoveries in the scout's name.
proof fn lemma_scan_reports(
    resources: Seq<(Position, KnownResource)>,
    obstacles: Seq<Position>,
    id: RobotId,
    m: MapModel,
    visible: Seq<Position>,
    position: Position,
)
    ensures
        forall|i: int|
            0 <= i < scan_spec(resources, obstacles, id, m, visible).2.len() ==> {
                let r = #[trigger] scan_spec(resources, obstacles, id, m, visible).2[i];
                &&& scout_report_ok(id, position, r)
                &&& !(r is MoveRequested)
            },
    decreases visible.len(),
{
    if visible.len() > 0 {
        lemma_scan_reports(resources, obstacles, id, m, visible.drop_last(), position);
    }
}

/// One step of a scout keeps its identifier, sends only discoveries in its
/// name and requests to move from where it stood, and sends nothing at all on
/// any message but a tick.
pub proof fn scout_step_reports(s0: ScoutModel, m: MapModel, msg: HubToRobot, s1: ScoutModel, reports: Seq<Report>, stop: bool)
    requires
        is_scout_step(s0, m, msg, s1, reports, stop),
    ensures
        s1.id == s0.id,
        forall|i: int| 0 <= i < reports.len() ==> scout_report_ok(s0.id, s0.position, #[trigger] reports[i]),
        !(msg is Tick) ==> reports.len() == 0,
        stop <==> msg is Shutdown,
{
    if msg is Tick {
        let visible = choose|visible: Seq<Position>| {
            &&& #[trigger] is_scan_of(m, s0.position, visible)
            &&& {
                let sc = scan_spec(s0.resources, s0.obstacles, s0.id, m, visible);
                let scanned = ScoutModel { resources: sc.0, obstacles: sc.1, ..s0 };
                if !s0.awaiting_move && exists|q: Position| move_candidate(scanned, m, q) {
                    exists|q: Position| {
                        &&& move_candidate(scanned, m, q)
                        &&& s1 == (ScoutModel { awaiting_move: true, ..scanned })
                        &&& reports == sc.2.push(Report::MoveRequested { robot_id: s0.id, from: s0.position, to: q })
                    }
                } else {
                    s1 == scanned && reports == sc.2
                }
            }
        };
        lemma_scan_reports(s0.resources, s0.obstacles, s0.id, m, visible, s0.position);
        let sc = scan_spec(s0.resources, s0.obstacles, s0.id, m, visible);
        assert forall|i: int| 0 <= i < reports.len() implies scout_report_ok(s0.id, s0.position, #[trigger] reports[i]) by {
            if i < sc.2.len() {
                assert(reports[i] == sc.2[i]);
            }
        }
    }
}

/// A run of a scout: each step takes the state the previous one left, and no
/// message is handled after the one that stops it. A step is the map it reads,
/// the message, the state after it, the reports it sends and whether it stops.
pub open spec fn is_scout_run(s0: ScoutModel, steps: Seq<(MapModel, HubToRobot, ScoutModel, Seq<Report>, bool)>) -> bool
    decreases steps.len(),
{
    steps.len() == 0 || {
        &&& is_scout_step(s0, steps[0].0, steps[0].1, steps[0].2, steps[0].3, steps[0].4)
        &&& (steps[0].4 ==> steps.len() == 1)
        &&& is_scout_run(steps[0].2, steps.drop_first())
    }
}

/// The state a scout holds before step `k` of a run.
pub open spec fn scout_state_before(s0: ScoutModel, steps: Seq<(MapModel, HubToRobot, ScoutModel, Seq<Report>, bool)>, k: int) -> ScoutModel {
    if k == 0 {
        s0
    } else {
        steps[k - 1].2
    }
}

/// Over a whole run, a scout never asks to collect or deposit: it sends only
/// discoveries in its own name and requests to move from where it stands, it
/// sends nothing in answer to any message but a tick, and it handles no
/// message after a shutdown.
pub proof fn scouts_only_explore(s0: ScoutModel, steps: Seq<(MapModel, HubToRobot, ScoutModel, Seq<Report>, bool)>)
    requires
        is_scout_run(s0, steps),
    ensures
        forall|k: int, i: int|
            0 <= k < steps.len() && 0 <= i < steps[k].3.len() ==> scout_report_ok(
                s0.id,
                scout_state_before(s0, steps, k).position,
                #[trigger] steps[k].3[i],
            ),
        forall|k: int| 0 <= k < steps.len() && !(#[trigger] steps[k].1 is Tick) ==> steps[k].3.len() == 0,
        forall|k: int| 0 <= k < steps.len() - 1 ==> !(#[trigger] steps[k].1 is Shutdown),
    decreases steps.len(),
{
    if steps.len() > 0 {
        let st = steps[0];
        scout_step_reports(s0, st.0, st.1, st.2, st.3, st.4);
        let rest = steps.drop_first();
        scouts_only_explore(st.2, rest);
        assert forall|k: int, i: int|
            0 <= k < steps.len() && 0 <= i < steps[k].3.len() implies scout_report_ok(
                s0.id,
                scout_state_before(s0, steps, k).position,
                #[trigger] steps[k].3[i],
            ) by {
            if k > 0 {
                assert(steps[k] == rest[k - 1]);
                assert(scout_state_before(s0, steps, k) == scout_state_before(st.2, rest, k - 1));
                assert(scout_report_ok(st.2.id, scout_state_before(st.2, rest, k - 1).position, rest[k - 1].3[i]));
            }
        }
        assert forall|k: int| 0 <= k < steps.len() && !(#[trigger] steps[k].1 is Tick) implies steps[k].3.len() == 0 by {
            if k > 0 {
                assert(steps[k] == rest[k - 1]);
            }
        }
        assert forall|k: int| 0 <= k < steps.len() - 1 implies !(#[trigger] steps[k].1 is Shutdown) by {
            if k > 0 {
                assert(steps[k] == rest[k - 1]);
            }
        }
    }
}

} // verus!
