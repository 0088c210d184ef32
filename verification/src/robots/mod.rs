//! Autonomous simulation robots: scouts explore and report, collectors gather
//! resources and bring them back to the base. Each robot keeps a local
//! knowledge and reacts to the messages of the hub.

pub mod collector;
pub mod common;
pub mod planning;
pub mod scout;

pub use collector::{CollectorRobot, CollectorState};
pub use common::{CarriedResource, LocalKnowledge, RobotKind, RobotSnapshot, RobotState};
pub use scout::ScoutRobot;
