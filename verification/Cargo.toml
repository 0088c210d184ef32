[package]
name = "mars_resource_ops"
version = "0.1.0"
edition = "2021"
publish = false

[dependencies]
anyhow = "1"
crossbeam-channel = "0.5"
crossterm = "0.28"
noise = "0.9"
pathfinding = "4"
rand = "0.8"
ratatui = "0.29"
