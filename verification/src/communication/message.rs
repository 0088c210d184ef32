//! Messages exchanged between robots, the hub and the UI.
//!
//! - `RobotToHub`: messages sent by a robot to the hub.
//! - `HubToRobot`: messages sent by the hub to a robot.
//! - `SimulationCommand`: commands sent by the UI to the simulation.
//! - `Message`: discoveries and deliveries recorded by the central base.

use vstd::prelude::*;

use crate::utils::Position;
use crate::world::ResourceKind;

verus! {

/// Unique identifier of a robot (e.g. R0 a scout, R4 a collector).
#[derive(Debug, Clone, Copy, PartialEq, Eq, Hash, PartialOrd, Ord, Structural)]
pub struct RobotId(pub usize);

/// A resource known by the hub or by a robot.
#[derive(Debug, Clone, Copy, PartialEq, Eq, Structural)]
pub struct KnownResource {
    pub position: Position,
    pub kind: ResourceKind,
    pub quantity: u32,
}

/// Messages sent by robots to the hub.
///
/// The hub owns the single official global state: robots request or report,
/// the hub decides.
#[derive(Debug, Clone)]
pub enum RobotToHub {
    /// A robot discovered a resource.
    ResourceDiscovered { robot_id: RobotId, position: Position, kind: ResourceKind, quantity: u32 },
    /// A robot discovered an obstacle.
    ObstacleDiscovered { robot_id: RobotId, position: Position },
    /// A robot requests a move; the hub accepts or rejects it.
    MoveRequested { robot_id: RobotId, from: Position, to: Position },
    /// A collector requests to collect one unit at a position.
    CollectRequested { robot_id: RobotId, position: Position },
    /// A collector deposits its cargo at the base.
    Deposit { robot_id: RobotId, kind: ResourceKind, amount: u32 },
    /// Free-form message for the event log.
    Log { robot_id: RobotId, text: String },
}

/// Messages sent by the hub to robots.
#[derive(Debug, Clone)]
pub enum HubToRobot {
    /// The hub signals a new tick; robots act in reaction to it.
    Tick(u64),
    /// The hub shares the aggregated global knowledge.
    Knowledge { resources: Vec<KnownResource>, obstacles: Vec<Position> },
    /// The hub accepts the requested move.
    MoveGranted { to: Position },
    /// The hub rejects the requested move.
    MoveDenied { attempted: Position },
    /// The hub allows collecting one unit.
    CollectGranted { position: Position, kind: ResourceKind, remaining: u32 },
    /// The hub denies the collect.
    CollectDenied { position: Position },
    /// Request a clean shutdown of the robot.
    Shutdown,
}

/// Commands sent by the UI to the simulation.
#[derive(Debug, Clone, Copy, PartialEq, Eq, Structural)]
pub enum SimulationCommand {
    Shutdown,
}

/// Discoveries and deliveries recorded by the central base.
#[derive(Debug, Clone, Copy, PartialEq, Eq, Structural)]
pub enum Message {
    ResourceFound { position: Position, kind: ResourceKind, quantity: u32 },
    ObstacleFound { position: Position },
    ResourceCollected { position: Position, kind: ResourceKind, amount: u32 },
    ResourceDepleted { position: Position, kind: ResourceKind },
    Deposit { kind: ResourceKind, amount: u32 },
}

/// The content of a robot message, its text taken as characters.
pub ghost enum Report {
    ResourceDiscovered { robot_id: RobotId, position: Position, kind: ResourceKind, quantity: u32 },
    ObstacleDiscovered { robot_id: RobotId, position: Position },
    MoveRequested { robot_id: RobotId, from: Position, to: Position },
    CollectRequested { robot_id: RobotId, position: Position },
    Deposit { robot_id: RobotId, kind: ResourceKind, amount: u32 },
    Log { robot_id: RobotId, text: Seq<char> },
}

/// The content of a robot message.
pub open spec fn report_of(m: RobotToHub) -> Report {
    match m {
        RobotToHub::ResourceDiscovered { robot_id, position, kind, quantity } => Report::ResourceDiscovered {
            robot_id,
            position,
            kind,
            quantity,
        },
        RobotToHub::ObstacleDiscovered { robot_id, position } => Report::ObstacleDiscovered { robot_id, position },
        RobotToHub::MoveRequested { robot_id, from, to } => Report::MoveRequested { robot_id, from, to },
        RobotToHub::CollectRequested { robot_id, position } => Report::CollectRequested { robot_id, position },
        RobotToHub::Deposit { robot_id, kind, amount } => Report::Deposit { robot_id, kind, amount },
        RobotToHub::Log { robot_id, text } => Report::Log { robot_id, text: text@ },
    }
}

/// The contents of a sequence of robot messages.
pub open spec fn reports_of(ms: Seq<RobotToHub>) -> Seq<Report> {
    ms.map_values(|m: RobotToHub| report_of(m))
}

/// The contents of messages after one more message.
pub proof fn lemma_reports_push(ms: Seq<RobotToHub>, m: RobotToHub)
    ensures
        reports_of(ms.push(m)) == reports_of(ms).push(report_of(m)),
{
    assert(reports_of(ms.push(m)) =~= reports_of(ms).push(report_of(m)));
}

} // verus!
