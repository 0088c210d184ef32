use mars_resource_ops::communication::{HubToRobot, RobotId, RobotToHub};
use mars_resource_ops::robots::{RobotKind, RobotState};
use mars_resource_ops::simulation::hub::{initial_robots, scout_seed, EVENT_LOG_LIMIT};
use mars_resource_ops::simulation::{HubState, SimulationEngine};
use mars_resource_ops::text::resource_label;
use mars_resource_ops::ui::{cell_glyph, count_robots, resource_short_label, sum_remaining, CellGlyph};
use mars_resource_ops::utils::Position;
use mars_resource_ops::world::resource::Resource;
use mars_resource_ops::world::{ResourceKind, Tile, WorldMap};

fn setup() -> (WorldMap, HubState) {
    let mut map = WorldMap::empty(15, 15);
    let base = map.base();
    map.set(Position::new(base.x + 1, base.y), Tile::Resource(Resource::new(ResourceKind::Energy, 2)));
    map.set(Position::new(0, 0), Tile::Obstacle);
    let hub = HubState::new(&map, initial_robots(base, 1, 2));
    (map, hub)
}

fn last_event(hub: &HubState, map: &WorldMap) -> String {
    hub.build_snapshot(map).events.last().cloned().unwrap()
}

#[test]
fn new_hub_starts_with_one_event() {
    let (map, hub) = setup();
    let snap = hub.build_snapshot(&map);
    assert_eq!(snap.events, vec!["Mission initialisee : robots deployes depuis la base".to_string()]);
    assert_eq!(snap.tick, 0);
    assert_eq!(snap.obstacles, vec![Position::new(0, 0)]);
    assert_eq!(snap.robots.len(), 3);
    assert_eq!(snap.robots[0].kind, RobotKind::Scout);
    assert_eq!(snap.robots[2].state, RobotState::Waiting);
    assert_eq!(snap.resources.len(), 1);
    assert_eq!((snap.width, snap.height), (15, 15));
}

#[test]
fn discovery_is_logged_once_with_the_actual_content() {
    let (mut map, mut hub) = setup();
    let p = Position::new(8, 7);
    let msg = RobotToHub::ResourceDiscovered { robot_id: RobotId(0), position: p, kind: ResourceKind::Crystal, quantity: 99 };
    assert!(hub.accepts(&msg));
    let (changed, reply) = hub.handle_robot_message(&mut map, msg.clone());
    assert!(changed);
    assert!(reply.is_none());
    assert_eq!(last_event(&hub, &map), "R0 decouvre 2 energie en (8, 7)");
    let (changed, _) = hub.handle_robot_message(&mut map, msg);
    assert!(!changed);
    let (changed, _) = hub.handle_robot_message(
        &mut map,
        RobotToHub::ResourceDiscovered { robot_id: RobotId(0), position: Position::new(3, 3), kind: ResourceKind::Energy, quantity: 1 },
    );
    assert!(!changed);
    assert_eq!(hub.build_snapshot(&map).known_resources, 1);
}

#[test]
fn obstacle_reports_are_checked_against_the_map() {
    let (mut map, mut hub) = setup();
    let (changed, _) = hub.handle_robot_message(&mut map, RobotToHub::ObstacleDiscovered { robot_id: RobotId(1), position: Position::new(0, 0) });
    assert!(changed);
    assert_eq!(last_event(&hub, &map), "R1 signale un obstacle en (0, 0)");
    let (changed, _) = hub.handle_robot_message(&mut map, RobotToHub::ObstacleDiscovered { robot_id: RobotId(1), position: Position::new(1, 0) });
    assert!(!changed);
    assert_eq!(hub.build_snapshot(&map).known_obstacles, 1);
}

#[test]
fn moves_are_granted_one_step_at_a_time() {
    let (mut map, mut hub) = setup();
    let base = map.base();
    let one = Position::new(base.x, base.y + 1);
    let (_, reply) = hub.handle_robot_message(&mut map, RobotToHub::MoveRequested { robot_id: RobotId(0), from: base, to: one });
    assert!(matches!(reply, Some((RobotId(0), HubToRobot::MoveGranted { to })) if to == one));
    let two = Position::new(base.x, base.y + 3);
    let (_, reply) = hub.handle_robot_message(&mut map, RobotToHub::MoveRequested { robot_id: RobotId(0), from: one, to: two });
    assert!(matches!(reply, Some((RobotId(0), HubToRobot::MoveDenied { attempted })) if attempted == two));
    let (_, reply) = hub.handle_robot_message(&mut map, RobotToHub::MoveRequested { robot_id: RobotId(9), from: Position::new(1, 0), to: Position::new(0, 0) });
    assert!(matches!(reply, Some((RobotId(9), HubToRobot::MoveDenied { .. }))));
    let snap = hub.build_snapshot(&map);
    assert_eq!(snap.robots[0].position, one);
    assert_eq!(snap.robots[0].state, RobotState::Exploring);
}

#[test]
fn collecting_takes_one_unit_and_reports_depletion() {
    let (mut map, mut hub) = setup();
    let base = map.base();
    let deposit = Position::new(base.x + 1, base.y);
    let (changed, reply) = hub.handle_robot_message(&mut map, RobotToHub::CollectRequested { robot_id: RobotId(1), position: deposit });
    assert!(changed);
    assert!(matches!(reply, Some((RobotId(1), HubToRobot::CollectGranted { kind: ResourceKind::Energy, remaining: 1, .. }))));
    assert_eq!(map.sum_resource_quantity(ResourceKind::Energy), 1);
    assert_eq!(last_event(&hub, &map), "R1 collecte 1 energie en (8, 7)");
    let snap = hub.build_snapshot(&map);
    assert_eq!(snap.robots[1].cargo.map(|c| (c.kind, c.amount)), Some((ResourceKind::Energy, 1)));
    assert_eq!(snap.robots[1].state, RobotState::Carrying);
    let (_, _) = hub.handle_robot_message(&mut map, RobotToHub::CollectRequested { robot_id: RobotId(1), position: deposit });
    assert_eq!(last_event(&hub, &map), "Depot de energie epuise en (8, 7)");
    assert_eq!(map.get(deposit), Some(&Tile::Empty));
    // The exhausted deposit is no longer known: the denial changes no knowledge.
    let (changed, reply) = hub.handle_robot_message(&mut map, RobotToHub::CollectRequested { robot_id: RobotId(1), position: deposit });
    assert!(!changed);
    assert!(matches!(reply, Some((_, HubToRobot::CollectDenied { .. }))));
    let (changed, reply) = hub.handle_robot_message(&mut map, RobotToHub::CollectRequested { robot_id: RobotId(2), position: Position::new(0, 0) });
    assert!(!changed);
    assert!(matches!(reply, Some((_, HubToRobot::CollectDenied { .. }))));
}

#[test]
fn deposits_count_and_logs_are_bounded() {
    let (mut map, mut hub) = setup();
    let msg = RobotToHub::Deposit { robot_id: RobotId(2), kind: ResourceKind::Crystal, amount: 3 };
    assert!(hub.accepts(&msg));
    hub.handle_robot_message(&mut map, msg);
    assert_eq!(last_event(&hub, &map), "R2 depose 3 cristal a la base");
    let snap = hub.build_snapshot(&map);
    assert_eq!((snap.collected_energy, snap.collected_crystals), (0, 3));
    for i in 0..20 {
        hub.handle_robot_message(&mut map, RobotToHub::Log { robot_id: RobotId(2), text: format!("note {}", i) });
    }
    let snap = hub.build_snapshot(&map);
    assert_eq!(snap.events.len(), EVENT_LOG_LIMIT);
    assert_eq!(snap.events.last().unwrap(), "R2 note 19");
    assert_eq!(snap.events[0], "R2 note 10");
    let too_much = RobotToHub::Deposit { robot_id: RobotId(2), kind: ResourceKind::Crystal, amount: u32::MAX };
    assert!(!hub.accepts(&too_much));
}

#[test]
fn ticks_share_knowledge_and_snapshots() {
    let (mut map, mut hub) = setup();
    let base = map.base();
    hub.handle_robot_message(&mut map, RobotToHub::ResourceDiscovered { robot_id: RobotId(0), position: Position::new(base.x + 1, base.y), kind: ResourceKind::Energy, quantity: 2 });
    hub.handle_robot_message(&mut map, RobotToHub::ObstacleDiscovered { robot_id: RobotId(0), position: Position::new(0, 0) });
    let (knowledge, tick, snap) = hub.advance_tick(&map);
    match knowledge {
        HubToRobot::Knowledge { resources, obstacles } => {
            assert_eq!(resources.len(), 1);
            assert_eq!(resources[0].quantity, 2);
            assert_eq!(obstacles, vec![Position::new(0, 0)]);
        }
        other => panic!("expected knowledge, got {:?}", other),
    }
    assert!(matches!(tick, HubToRobot::Tick(1)));
    assert_eq!(snap.tick, 1);
    assert_eq!(snap.known_resources, 1);
    assert_eq!(snap.known_obstacles, 1);
}

#[test]
fn engine_and_fleet_setup() {
    let map = WorldMap::empty(5, 5);
    let engine = SimulationEngine::new(map, 2, 3);
    let (map, scouts, collectors) = engine.into_parts();
    assert_eq!((scouts, collectors), (2, 3));
    let robots = initial_robots(map.base(), scouts, collectors);
    assert_eq!(robots.len(), 5);
    assert_eq!(robots[1].kind, RobotKind::Scout);
    assert_eq!(robots[2].kind, RobotKind::Collector);
    assert_eq!(robots[4].id, RobotId(4));
    assert_eq!(scout_seed(3), 0x5C0A_0003);
}

#[test]
fn view_helpers() {
    let (map, hub) = setup();
    let snap = hub.build_snapshot(&map);
    let base = map.base();
    assert_eq!(cell_glyph(&snap, base), CellGlyph::Base);
    assert_eq!(cell_glyph(&snap, Position::new(base.x + 1, base.y)), CellGlyph::Resource(ResourceKind::Energy));
    assert_eq!(cell_glyph(&snap, Position::new(0, 0)), CellGlyph::Obstacle);
    assert_eq!(cell_glyph(&snap, Position::new(1, 0)), CellGlyph::Empty);
    assert_eq!(sum_remaining(&snap, ResourceKind::Energy), 2);
    assert_eq!(sum_remaining(&snap, ResourceKind::Crystal), 0);
    assert_eq!(count_robots(&snap, RobotKind::Collector), 2);
    assert_eq!(resource_short_label(ResourceKind::Crystal), "C");
    assert_eq!(resource_label(ResourceKind::Energy), "energie");
}

#[test]
fn collect_reports_a_knowledge_change_only_when_knowledge_changes() {
    let (mut map, mut hub) = setup();
    let base = map.base();
    let deposit = Position::new(base.x + 1, base.y);
    hub.handle_robot_message(
        &mut map,
        RobotToHub::ResourceDiscovered { robot_id: RobotId(0), position: deposit, kind: ResourceKind::Energy, quantity: 2 },
    );
    // The hub knows the deposit; once the cell is found empty, forgetting it is a change.
    map.set(deposit, Tile::Empty);
    let (changed, reply) = hub.handle_robot_message(&mut map, RobotToHub::CollectRequested { robot_id: RobotId(1), position: deposit });
    assert!(changed);
    assert!(matches!(reply, Some((_, HubToRobot::CollectDenied { .. }))));
    assert_eq!(hub.build_snapshot(&map).known_resources, 0);

    // A collect that leaves the quantity the hub already knows changes
    // nothing it knows; one that lowers it does.
    map.set(deposit, Tile::Resource(Resource::new(ResourceKind::Energy, 2)));
    hub.handle_robot_message(
        &mut map,
        RobotToHub::ResourceDiscovered { robot_id: RobotId(0), position: deposit, kind: ResourceKind::Energy, quantity: 2 },
    );
    map.set(deposit, Tile::Resource(Resource::new(ResourceKind::Energy, 3)));
    let (changed, reply) = hub.handle_robot_message(&mut map, RobotToHub::CollectRequested { robot_id: RobotId(1), position: deposit });
    assert!(!changed);
    assert!(matches!(reply, Some((_, HubToRobot::CollectGranted { remaining: 2, .. }))));
    let (changed, _) = hub.handle_robot_message(&mut map, RobotToHub::CollectRequested { robot_id: RobotId(1), position: deposit });
    assert!(changed);
    let snap = hub.build_snapshot(&map);
    let ids: Vec<usize> = snap.robots.iter().map(|r| r.id.0).collect();
    assert_eq!(ids, vec![0, 1, 2]);
}
