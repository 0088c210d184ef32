# Mars Resource Ops

A terminal simulation in which scout robots explore a procedurally generated
map of Mars, report the deposits they find to a central hub, and collector
robots fetch one unit at a time back to the base.

## Layout

- `src/` — the library, verified with Verus:
  - `world/` the grid, its tiles and deposits, map building from an obstacle
    mask, and the placement of deposits on cells reachable from the base
    (a breadth-first search proved sound and complete);
  - `pathfinding.rs` the search graph handed to the `astar` function of the
    `pathfinding` crate, and the routes it yields;
  - `robots/` the scouts' and collectors' decisions, one hub message at a
    time, with the target choice of the collectors;
  - `simulation/hub.rs` the hub: every robot request is validated against the
    map, the shared knowledge and the delivered stock, and a snapshot is built
    for the interface;
  - `communication/` the messages, and the central base's record of
    discoveries and deliveries;
  - `ui.rs`, `text.rs` what the interface shows of a snapshot, and the event
    texts;
  - `tables.rs` small tables keyed by position, without repeated keys;
  - `rng.rs` the seeded generator of `rand` and the draws made from it.
- `app/` — the program: Perlin-noise map generation, the threads and channels
  of the concurrent engine, and the Ratatui/Crossterm terminal interface.
- `tests/` — tests of the library.
