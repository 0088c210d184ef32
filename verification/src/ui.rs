//! What the terminal view shows of a snapshot: the glyph of each map cell,
//! the remaining stock per kind, the size of the fleet, the fleet panel
//! labels and the tone of each event line. Drawing itself is left to the
//! application.

use vstd::prelude::*;

use crate::pathfinding::contains_position;
use crate::robots::common::{RobotKind, RobotSnapshot};
use crate::simulation::hub::{ResourceView, SimulationSnapshot};
use crate::text::{chars_of, contains_text, decimal, push_decimal, text_contains};
use crate::utils::{seq_count, seq_sum, Position};
use crate::world::ResourceKind;

verus! {

/// What a map cell shows, by priority: the base, then a robot, then a
/// deposit, then an obstacle.
#[derive(Debug, Clone, Copy, PartialEq, Eq, Structural)]
pub enum CellGlyph {
    Base,
    Robot(RobotKind),
    Resource(ResourceKind),
    Obstacle,
    Empty,
}

/// Units of `kind` over a list of deposit views.
pub open spec fn remaining_units(resources: Seq<ResourceView>, kind: ResourceKind) -> nat {
    seq_sum(resources, |r: ResourceView| if r.kind == kind { r.quantity as nat } else { 0 })
}

/// Sum of the remaining units of `kind` shown in the snapshot.
pub fn sum_remaining(snapshot: &SimulationSnapshot, kind: ResourceKind) -> (total: u32)
    requires
        remaining_units(snapshot.resources@, kind) <= u32::MAX,
    ensures
        total == remaining_units(snapshot.resources@, kind),
{
    let resources = &snapshot.resources;
    let mut total: u32 = 0;
    let mut i: usize = 0;
    while i < resources.len()
        invariant
            i <= resources.len(),
            total == remaining_units(resources@.take(i as int), kind),
            remaining_units(resources@, kind) <= u32::MAX,
        decreases resources.len() - i,
    {
        proof {
            crate::utils::lemma_prefix_step(resources@, i as int);
            crate::utils::lemma_sum_prefix_le(
                resources@,
                |r: ResourceView| if r.kind == kind { r.quantity as nat } else { 0 },
                i + 1,
            );
        }
        if resources[i].kind == kind {
            total = total + resources[i].quantity;
        }
        i = i + 1;
    }
    assert(resources@.take(i as int) =~= resources@);
    total
}

/// Short label of a resource kind: `E` or `C`.
pub fn resource_short_label(kind: ResourceKind) -> (s: &'static str)
    ensures
        s@ == match kind {
            ResourceKind::Energy => "E"@,
            ResourceKind::Crystal => "C"@,
        },
{
    match kind {
        ResourceKind::Energy => "E",
        ResourceKind::Crystal => "C",
    }
}

/// Number of robots of a kind in the snapshot.
pub fn count_robots(snapshot: &SimulationSnapshot, kind: RobotKind) -> (n: usize)
    ensures
        n == seq_count(snapshot.robots@, |r: crate::robots::common::RobotSnapshot| r.kind == kind),
{
    let robots = &snapshot.robots;
    let mut n: usize = 0;
    let mut i: usize = 0;
    while i < robots.len()
        invariant
            i <= robots.len(),
            n <= i,
            n == seq_count(robots@.take(i as int), |r: crate::robots::common::RobotSnapshot| r.kind == kind),
        decreases robots.len() - i,
    {
        proof {
            crate::utils::lemma_prefix_step(robots@, i as int);
        }
        if robots[i].kind == kind {
            n = n + 1;
        }
        i = i + 1;
    }
    assert(robots@.take(i as int) =~= robots@);
    n
}

/// The kind of the first robot standing at `p`.
pub open spec fn first_robot_kind(robots: Seq<RobotSnapshot>, p: Position) -> Option<RobotKind>
    decreases robots.len(),
{
    if robots.len() == 0 {
        None
    } else if robots[0].position == p {
        Some(robots[0].kind)
    } else {
        first_robot_kind(robots.drop_first(), p)
    }
}

/// The kind of the first deposit at `p`.
pub open spec fn first_resource_kind(resources: Seq<ResourceView>, p: Position) -> Option<ResourceKind>
    decreases resources.len(),
{
    if resources.len() == 0 {
        None
    } else if resources[0].position == p {
        Some(resources[0].kind)
    } else {
        first_resource_kind(resources.drop_first(), p)
    }
}

/// The glyph of a cell: the base first, then the first robot standing there,
/// then the first deposit there, then an obstacle, else empty ground.
pub open spec fn cell_glyph_spec(snapshot: SimulationSnapshot, p: Position) -> CellGlyph {
    if p == snapshot.base {
        CellGlyph::Base
    } else if first_robot_kind(snapshot.robots@, p) is Some {
        CellGlyph::Robot(first_robot_kind(snapshot.robots@, p)->0)
    } else if first_resource_kind(snapshot.resources@, p) is Some {
        CellGlyph::Resource(first_resource_kind(snapshot.resources@, p)->0)
    } else if snapshot.obstacles@.contains(p) {
        CellGlyph::Obstacle
    } else {
        CellGlyph::Empty
    }
}

/// The kind of the first robot standing at `p` is that of robot `k` when `k`
/// is the first index whose robot stands there, and there is none when no
/// robot stands there.
proof fn lemma_first_robot(robots: Seq<RobotSnapshot>, p: Position, k: int)
    requires
        0 <= k <= robots.len(),
        forall|j: int| 0 <= j < k ==> (#[trigger] robots[j]).position != p,
        k < robots.len() ==> robots[k].position == p,
    ensures
        first_robot_kind(robots, p) == if k < robots.len() {
            Some(robots[k].kind)
        } else {
            None::<RobotKind>
        },
    decreases robots.len(),
{
    if robots.len() > 0 && k > 0 {
        let rest = robots.drop_first();
        assert forall|j: int| 0 <= j < k - 1 implies (#[trigger] rest[j]).position != p by {
            assert(rest[j] == robots[j + 1]);
        }
        if k < robots.len() {
            assert(rest[k - 1] == robots[k]);
        }
        lemma_first_robot(rest, p, k - 1);
    }
}

/// The same for deposits.
proof fn lemma_first_resource(resources: Seq<ResourceView>, p: Position, k: int)
    requires
        0 <= k <= resources.len(),
        forall|j: int| 0 <= j < k ==> (#[trigger] resources[j]).position != p,
        k < resources.len() ==> resources[k].position == p,
    ensures
        first_resource_kind(resources, p) == if k < resources.len() {
            Some(resources[k].kind)
        } else {
            None::<ResourceKind>
        },
    decreases resources.len(),
{
    if resources.len() > 0 && k > 0 {
        let rest = resources.drop_first();
        assert forall|j: int| 0 <= j < k - 1 implies (#[trigger] rest[j]).position != p by {
            assert(rest[j] == resources[j + 1]);
        }
        if k < resources.len() {
            assert(rest[k - 1] == resources[k]);
        }
        lemma_first_resource(rest, p, k - 1);
    }
}

/// A robot is drawn over whatever lies under it: on a cell other than the
/// base where robots stand, the glyph is the robot first listed there, even
/// when a deposit or an obstacle lies on the cell.
pub proof fn robots_are_drawn_over_deposits(snapshot: SimulationSnapshot, p: Position, k: int)
    requires
        p != snapshot.base,
        0 <= k < snapshot.robots.len(),
        snapshot.robots@[k].position == p,
        forall|j: int| 0 <= j < k ==> (#[trigger] snapshot.robots@[j]).position != p,
    ensures
        cell_glyph_spec(snapshot, p) == CellGlyph::Robot(snapshot.robots@[k].kind),
{
    lemma_first_robot(snapshot.robots@, p, k);
}

/// Where no robot stands, a deposit is drawn over an obstacle: on a cell
/// other than the base with no robot, the glyph is the deposit first listed
/// there; with neither, an obstacle or empty ground as the obstacles say.
pub proof fn deposits_are_drawn_where_no_robot_stands(snapshot: SimulationSnapshot, p: Position, k: int)
    requires
        p != snapshot.base,
        forall|j: int| 0 <= j < snapshot.robots.len() ==> (#[trigger] snapshot.robots@[j]).position != p,
        0 <= k <= snapshot.resources.len(),
        forall|j: int| 0 <= j < k ==> (#[trigger] snapshot.resources@[j]).position != p,
        k < snapshot.resources.len() ==> snapshot.resources@[k].position == p,
    ensures
        cell_glyph_spec(snapshot, p) == if k < snapshot.resources.len() {
            CellGlyph::Resource(snapshot.resources@[k].kind)
        } else if snapshot.obstacles@.contains(p) {
            CellGlyph::Obstacle
        } else {
            CellGlyph::Empty
        },
{
    lemma_first_robot(snapshot.robots@, p, snapshot.robots.len() as int);
    lemma_first_resource(snapshot.resources@, p, k);
}

/// The base cell always shows the base.
pub proof fn the_base_is_always_drawn(snapshot: SimulationSnapshot)
    ensures
        cell_glyph_spec(snapshot, snapshot.base) == CellGlyph::Base,
{
}

/// What the map cell at `p` shows.
pub fn cell_glyph(snapshot: &SimulationSnapshot, p: Position) -> (g: CellGlyph)
    ensures
        g == cell_glyph_spec(*snapshot, p),
{
    if p == snapshot.base {
        return CellGlyph::Base;
    }
    let robots = &snapshot.robots;
    let n = robots.len();
    let mut i: usize = 0;
    assert(robots@.subrange(0, n as int) =~= robots@);
    while i < n
        invariant
            n == robots.len(),
            robots@ == snapshot.robots@,
            p != snapshot.base,
            i <= n,
            first_robot_kind(robots@, p) == first_robot_kind(robots@.subrange(i as int, n as int), p),
        decreases n - i,
    {
        assert(robots@.subrange(i as int, n as int).drop_first() =~= robots@.subrange(i + 1, n as int));
        assert(robots@.subrange(i as int, n as int)[0] == robots@[i as int]);
        if robots[i].position == p {
            assert(first_robot_kind(robots@.subrange(i as int, n as int), p) == Some(robots@[i as int].kind));
            return CellGlyph::Robot(robots[i].kind);
        }
        i = i + 1;
    }
    assert(robots@.subrange(n as int, n as int) =~= Seq::<RobotSnapshot>::empty());
    let resources = &snapshot.resources;
    let r = resources.len();
    let mut k: usize = 0;
    assert(resources@.subrange(0, r as int) =~= resources@);
    while k < r
        invariant
            r == resources.len(),
            robots@ == snapshot.robots@,
            resources@ == snapshot.resources@,
            p != snapshot.base,
            k <= r,
            first_robot_kind(robots@, p) is None,
            first_resource_kind(resources@, p) == first_resource_kind(resources@.subrange(k as int, r as int), p),
        decreases r - k,
    {
        assert(resources@.subrange(k as int, r as int).drop_first() =~= resources@.subrange(k + 1, r as int));
        assert(resources@.subrange(k as int, r as int)[0] == resources@[k as int]);
        if resources[k].position == p {
            assert(first_resource_kind(resources@.subrange(k as int, r as int), p) == Some(resources@[k as int].kind));
            return CellGlyph::Resource(resources[k].kind);
        }
        k = k + 1;
    }
    assert(resources@.subrange(r as int, r as int) =~= Seq::<ResourceView>::empty());
    if contains_position(&snapshot.obstacles, p) {
        CellGlyph::Obstacle
    } else {
        CellGlyph::Empty
    }
}


/// Short label of a resource kind: `E` or `C`.
pub open spec fn short_label_spec(kind: ResourceKind) -> Seq<char> {
    match kind {
        ResourceKind::Energy => "E"@,
        ResourceKind::Crystal => "C"@,
    }
}

/// The letter of a robot kind in the fleet panel: `S` or `C`.
pub open spec fn kind_letter(kind: RobotKind) -> Seq<char> {
    match kind {
        RobotKind::Scout => "S"@,
        RobotKind::Collector => "C"@,
    }
}

/// `text` right-aligned in a field of `width` characters: padded with
/// leading spaces when shorter, unchanged otherwise.
pub open spec fn right_aligned(text: Seq<char>, width: nat) -> Seq<char> {
    if text.len() >= width {
        text
    } else {
        Seq::new((width - text.len()) as nat, |i: int| ' ') + text
    }
}

/// The fleet panel label of a robot: `R<id> <kind> <state>` with the state
/// right-aligned on nine characters, then ` <kind><amount>` when it carries
/// something.
pub open spec fn robot_label_spec(robot: RobotSnapshot) -> Seq<char> {
    "R"@ + decimal(robot.id.0 as nat) + " "@ + kind_letter(robot.kind) + " "@ + right_aligned(
        robot.state.label_spec(),
        9,
    ) + match robot.cargo {
        Some(c) => " "@ + short_label_spec(c.kind) + decimal(c.amount as nat),
        None => Seq::<char>::empty(),
    }
}

/// The fleet panel label of a robot.
pub fn robot_short_label(robot: &RobotSnapshot) -> (s: String)
    ensures
        s@ == robot_label_spec(*robot),
{
    proof {
        reveal_strlit(" ");
    }
    let mut s = String::from_str("R");
    push_decimal(&mut s, robot.id.0 as u64);
    s.append(" ");
    s.append(match robot.kind {
        RobotKind::Scout => "S",
        RobotKind::Collector => "C",
    });
    s.append(" ");
    let label = robot.state.label();
    let len = label.unicode_len();
    let ghost before = s@;
    if len < 9 {
        let mut k: usize = len;
        while k < 9
            invariant
                len <= k <= 9,
                s@ == before + Seq::new((k - len) as nat, |i: int| ' '),
            decreases 9 - k,
        {
            proof {
                reveal_strlit(" ");
            }
            s.append(" ");
            k = k + 1;
            assert(s@ =~= before + Seq::new((k - len) as nat, |i: int| ' '));
        }
    }
    s.append(label);
    assert(s@ =~= before + right_aligned(robot.state.label_spec(), 9));
    let ghost mid = s@;
    match robot.cargo {
        Some(c) => {
            s.append(" ");
            s.append(resource_short_label(c.kind));
            push_decimal(&mut s, c.amount as u64);
            assert(s@ =~= mid + (" "@ + short_label_spec(c.kind) + decimal(c.amount as nat)));
        },
        None => {
            assert(s@ =~= mid + Seq::<char>::empty());
        },
    }
    assert(s@ =~= robot_label_spec(*robot));
    s
}

/// How an event line is highlighted.
#[derive(Debug, Clone, Copy, PartialEq, Eq, Structural)]
pub enum EventTone {
    Deposit,
    Collect,
    Discovery,
    Failure,
    Plain,
}

/// The tone of an event line, by the first of these words it contains:
/// `depose`, `collecte`, `decouvre`, then `refuse` or `aucun chemin`.
pub open spec fn event_tone_spec(event: Seq<char>) -> EventTone {
    if contains_text(event, "depose"@) {
        EventTone::Deposit
    } else if contains_text(event, "collecte"@) {
        EventTone::Collect
    } else if contains_text(event, "decouvre"@) {
        EventTone::Discovery
    } else if contains_text(event, "refuse"@) || contains_text(event, "aucun chemin"@) {
        EventTone::Failure
    } else {
        EventTone::Plain
    }
}

/// The tone of an event line.
pub fn event_tone(event: &str) -> (t: EventTone)
    ensures
        t == event_tone_spec(event@),
{
    let text = chars_of(event);
    if text_contains(&text, &chars_of("depose")) {
        EventTone::Deposit
    } else if text_contains(&text, &chars_of("collecte")) {
        EventTone::Collect
    } else if text_contains(&text, &chars_of("decouvre")) {
        EventTone::Discovery
    } else if text_contains(&text, &chars_of("refuse")) || text_contains(
        &text,
        &chars_of("aucun chemin"),
    ) {
        EventTone::Failure
    } else {
        EventTone::Plain
    }
}

/// The spinner frame shown for a tick: `|`, `/`, `-`, `\` in turn.
pub fn spinner_frame(tick: u64) -> (s: &'static str)
    ensures
        s@ == match tick % 4 {
            0 => "|"@,
            1 => "/"@,
            2 => "-"@,
            _ => "\\"@,
        },
{
    let phase = tick % 4;
    if phase == 0 {
        "|"
    } else if phase == 1 {
        "/"
    } else if phase == 2 {
        "-"
    } else {
        "\\"
    }
}

/// Robots listed by nondecreasing identifier.
pub open spec fn sorted_by_id(s: Seq<RobotSnapshot>) -> bool {
    forall|a: int, b: int| 0 <= a < b < s.len() ==> (#[trigger] s[a]).id.0 <= (#[trigger] s[b]).id.0
}

/// The robots of `robots` sorted by identifier.
pub fn robots_by_id(robots: &Vec<RobotSnapshot>) -> (sorted: Vec<RobotSnapshot>)
    ensures
        sorted@.to_multiset() == robots@.to_multiset(),
        sorted_by_id(sorted@),
{
    let mut out: Vec<RobotSnapshot> = Vec::new();
    let mut i: usize = 0;
    assert(robots@.take(0) =~= out@);
    while i < robots.len()
        invariant
            i <= robots.len(),
            sorted_by_id(out@),
            out@.to_multiset() == robots@.take(i as int).to_multiset(),
        decreases robots.len() - i,
    {
        let r = robots[i];
        let mut pos: usize = 0;
        while pos < out.len() && out[pos].id.0 <= r.id.0
            invariant
                pos <= out.len(),
                forall|k: int| 0 <= k < pos ==> (#[trigger] out@[k]).id.0 <= r.id.0,
            decreases out.len() - pos,
        {
            pos = pos + 1;
        }
        let ghost before = out@;
        out.insert(pos, r);
        proof {
            assert forall|a: int, b: int| 0 <= a < b < out@.len() implies (#[trigger] out@[a]).id.0 <= (
            #[trigger] out@[b]).id.0 by {
                if b < pos {
                } else if b == pos {
                } else if a < pos {
                    assert(out@[b] == before[b - 1]);
                    assert(before[pos as int].id.0 > r.id.0);
                    if pos < b - 1 {
                        assert(before[pos as int].id.0 <= before[b - 1].id.0);
                    }
                } else if a == pos {
                    assert(before[pos as int].id.0 > r.id.0);
                    if pos < b - 1 {
                        assert(before[pos as int].id.0 <= before[b - 1].id.0);
                    }
                } else {
                    assert(out@[a] == before[a - 1]);
                    assert(out@[b] == before[b - 1]);
                }
            }
            assert(out@.remove(pos as int) =~= before);
            assert(out@[pos as int] == r);
            assert(robots@.take(i + 1) =~= robots@.take(i as int).push(r));
            vstd::seq_lib::to_multiset_insert(before, pos as int, r);
            vstd::seq_lib::to_multiset_build(robots@.take(i as int), r);
        }
        i = i + 1;
    }
    assert(robots@.take(i as int) =~= robots@);
    out
}

/// The rows of the fleet panel: the robots two by two, in order, the last
/// row holding a single robot when their number is odd.
pub fn fleet_rows(robots: &Vec<RobotSnapshot>) -> (rows: Vec<(RobotSnapshot, Option<RobotSnapshot>)>)
    ensures
        rows.len() == (robots.len() + 1) / 2,
        forall|k: int|
            0 <= k < rows.len() ==> #[trigger] rows@[k] == (
                robots@[2 * k],
                if 2 * k + 1 < robots.len() {
                    Some(robots@[2 * k + 1])
                } else {
                    None
                },
            ),
{
    let mut rows: Vec<(RobotSnapshot, Option<RobotSnapshot>)> = Vec::new();
    let n = robots.len();
    let mut i: usize = 0;
    while i < n
        invariant
            n == robots.len(),
            i <= n,
            i < n ==> i == 2 * rows.len(),
            i == n ==> rows.len() == (n + 1) / 2,
            forall|k: int|
                0 <= k < rows.len() ==> #[trigger] rows@[k] == (
                    robots@[2 * k],
                    if 2 * k + 1 < robots.len() {
                        Some(robots@[2 * k + 1])
                    } else {
                        None
                    },
                ),
        decreases n - i,
    {
        if n - i > 1 {
            rows.push((robots[i], Some(robots[i + 1])));
            i = i + 2;
        } else {
            rows.push((robots[i], None));
            i = n;
        }
    }
    rows
}

} // verus!
