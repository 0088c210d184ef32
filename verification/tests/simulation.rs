use std::collections::VecDeque;

use mars_resource_ops::communication::HubToRobot;
use mars_resource_ops::robots::{CollectorRobot, RobotKind, ScoutRobot};
use mars_resource_ops::simulation::hub::{initial_robots, scout_seed};
use mars_resource_ops::simulation::{HubState, SimulationEngine, SimulationSnapshot};
use mars_resource_ops::utils::Position;
use mars_resource_ops::world::resource::Resource;
use mars_resource_ops::world::{ResourceKind, Tile, WorldMap};
use noise::{NoiseFn, Perlin};

/// The map the application generates for a seed.
fn generate(width: usize, height: usize, seed: u32) -> WorldMap {
    let perlin = Perlin::new(seed);
    let mut mask = Vec::with_capacity(width * height);
    for y in 0..height {
        for x in 0..width {
            mask.push(perlin.get([x as f64 * 0.12, y as f64 * 0.12]) > 0.20);
        }
    }
    WorldMap::generate_from_mask(width, height, 2, &mask)
}

enum Robot {
    Scout(ScoutRobot),
    Collector(CollectorRobot),
}

/// The simulation of the engine, run in one thread: every round the hub
/// ticks, then every message is delivered until none is left.
struct Rounds {
    map: WorldMap,
    hub: HubState,
    robots: Vec<Robot>,
    inboxes: Vec<VecDeque<HubToRobot>>,
}

impl Rounds {
    fn start(engine: SimulationEngine) -> Self {
        let (map, scouts, collectors) = engine.into_parts();
        let base = map.base();
        let snapshots = initial_robots(base, scouts, collectors);
        let robots = (0..scouts + collectors)
            .map(|i| {
                if i < scouts {
                    Robot::Scout(ScoutRobot::new(snapshots[i].id, base, scout_seed(i)))
                } else {
                    Robot::Collector(CollectorRobot::new(snapshots[i].id, base))
                }
            })
            .collect::<Vec<_>>();
        let hub = HubState::new(&map, snapshots);
        let inboxes = (0..robots.len()).map(|_| VecDeque::new()).collect();
        Rounds { map, hub, robots, inboxes }
    }

    fn round(&mut self) -> SimulationSnapshot {
        let (knowledge, tick, snapshot) = self.hub.advance_tick(&self.map);
        for inbox in &mut self.inboxes {
            inbox.push_back(knowledge.clone());
            inbox.push_back(tick.clone());
        }
        loop {
            let mut delivered = false;
            for i in 0..self.robots.len() {
                while let Some(message) = self.inboxes[i].pop_front() {
                    delivered = true;
                    let (out, _) = match &mut self.robots[i] {
                        Robot::Scout(s) => s.handle_message(message, &self.map),
                        Robot::Collector(c) => {
                            assert!(c.accepts(&message));
                            c.handle_message(message, &self.map)
                        }
                    };
                    for report in out {
                        assert!(self.hub.accepts(&report));
                        let (_, reply) = self.hub.handle_robot_message(&mut self.map, report);
                        if let Some((id, reply)) = reply {
                            self.inboxes[id.0].push_back(reply);
                        }
                    }
                }
            }
            if !delivered {
                break;
            }
        }
        snapshot
    }
}

#[test]
fn rounds_emit_snapshots_with_the_configured_robots() {
    let mut map = generate(40, 18, 42);
    map.populate_resources(7);
    let mut sim = Rounds::start(SimulationEngine::new(map, 2, 2));
    let snapshot = sim.round();

    assert_eq!((snapshot.width, snapshot.height), (40, 18));
    assert_eq!(snapshot.robots.len(), 4);
    assert_eq!(snapshot.robots.iter().filter(|r| r.kind == RobotKind::Scout).count(), 2);
    assert_eq!(snapshot.robots.iter().filter(|r| r.kind == RobotKind::Collector).count(), 2);
    assert!(snapshot.resources.iter().any(|r| r.kind == ResourceKind::Energy));
    assert!(snapshot.resources.iter().any(|r| r.kind == ResourceKind::Crystal));
}

#[test]
fn rounds_advance_the_tick() {
    let mut map = generate(40, 18, 42);
    map.populate_resources(7);
    let mut sim = Rounds::start(SimulationEngine::new(map, 2, 2));
    let first = sim.round();
    let mut later = sim.round();
    for _ in 0..3 {
        later = sim.round();
    }
    assert_eq!(first.tick, 1);
    assert_eq!(later.tick, 5);
}

#[test]
fn rounds_collect_and_deposit_energy_and_crystal() {
    let mut map = WorldMap::empty(15, 15);
    let base = map.base();
    map.set(Position::new(base.x + 1, base.y), Tile::Resource(Resource::new(ResourceKind::Energy, 5)));
    map.set(Position::new(base.x - 1, base.y), Tile::Resource(Resource::new(ResourceKind::Crystal, 5)));

    let mut sim = Rounds::start(SimulationEngine::new(map, 1, 2));
    let mut snapshot = sim.round();
    for _ in 0..200 {
        if snapshot.collected_energy > 0 && snapshot.collected_crystals > 0 {
            break;
        }
        snapshot = sim.round();
    }
    assert!(snapshot.collected_energy > 0);
    assert!(snapshot.collected_crystals > 0);
    // Every unit delivered or carried left the map.
    let left: u32 = snapshot.resources.iter().map(|r| r.quantity).sum();
    let carried: u32 = snapshot.robots.iter().filter_map(|r| r.cargo).map(|c| c.amount).sum();
    assert_eq!(left + carried + snapshot.collected_energy + snapshot.collected_crystals, 10);
}
