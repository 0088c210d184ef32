//! The simulation hub: the single owner of the global state.
//!
//! Robots send requests and reports; the hub validates moves and collects,
//! keeps the aggregated knowledge, counts the delivered stock, logs events and
//! produces the snapshots the UI renders. The threads, channels and timing
//! around it live in the application.

pub mod hub;

pub use hub::{HubState, ResourceView, SimulationEngine, SimulationSnapshot};
