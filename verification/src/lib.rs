//! Mars Resource Ops: the verified core of a resource-collection simulation.
//!
//! Scouts explore a procedurally generated grid, collectors gather energy and
//! crystals and bring them back to a central base, and a hub validates every
//! request. This crate holds the grid, the path search, the knowledge tables
//! and the decision logic of the hub and of each robot; threads, channels,
//! terminal rendering and noise sampling live in the application around it.

pub mod utils;
pub mod rng;
pub mod world;
pub mod pathfinding;
pub mod tables;
pub mod communication;
pub mod robots;
pub mod text;
pub mod simulation;
pub mod ui;
