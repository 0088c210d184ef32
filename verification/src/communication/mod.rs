//! Communication relies on typed messages. Robots never mutate the global
//! state directly: they send messages to the simulation hub, which owns the
//! single official state, validates requests and shares what was learned.

pub mod base;
pub mod message;

pub use message::{HubToRobot, KnownResource, Message, RobotId, RobotToHub, SimulationCommand};
