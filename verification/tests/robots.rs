use mars_resource_ops::communication::{HubToRobot, KnownResource, RobotId, RobotToHub};
use mars_resource_ops::robots::common::visible_positions;
use mars_resource_ops::robots::planning::{best_collection_goal, collection_positions, path_len_to_collection_range};
use mars_resource_ops::robots::{CollectorRobot, LocalKnowledge, RobotState, ScoutRobot};
use mars_resource_ops::utils::Position;
use mars_resource_ops::world::resource::Resource;
use mars_resource_ops::world::{ResourceKind, Tile, WorldMap};

fn logs(out: &[RobotToHub]) -> Vec<String> {
    out.iter()
        .filter_map(|m| match m {
            RobotToHub::Log { text, .. } => Some(text.clone()),
            _ => None,
        })
        .collect()
}

#[test]
fn state_labels() {
    assert_eq!(RobotState::Exploring.label(), "exploring");
    assert_eq!(RobotState::Waiting.label(), "waiting");
    assert_eq!(RobotState::Moving.label(), "moving");
    assert_eq!(RobotState::ReturningToBase.label(), "to base");
    assert_eq!(RobotState::Carrying.label(), "carrying");
}

#[test]
fn observing_resources_reports_only_changes() {
    let mut k = LocalKnowledge::default();
    let p = Position::new(3, 4);
    let tile = Tile::Resource(Resource::new(ResourceKind::Energy, 9));
    let first = k.observe_resource(p, tile);
    assert_eq!(first, Some(KnownResource { position: p, kind: ResourceKind::Energy, quantity: 9 }));
    assert_eq!(k.observe_resource(p, tile), None);
    let fewer = Tile::Resource(Resource::new(ResourceKind::Energy, 8));
    assert_eq!(k.observe_resource(p, fewer).map(|r| r.quantity), Some(8));
    assert_eq!(k.observe_resource(p, Tile::Obstacle), None);
    assert_eq!(k.resources().len(), 1);
    assert_eq!(k.observe_resource(p, Tile::Empty), None);
    assert_eq!(k.resources().len(), 0);
}

#[test]
fn observing_obstacles_reports_new_ones() {
    let mut k = LocalKnowledge::default();
    let p = Position::new(1, 1);
    assert!(!k.observe_obstacle(p, Tile::Empty));
    assert!(k.observe_obstacle(p, Tile::Obstacle));
    assert!(!k.observe_obstacle(p, Tile::Obstacle));
    assert_eq!(k.obstacles().len(), 1);
}

#[test]
fn replacing_knowledge_keeps_the_latest_report() {
    let mut k = LocalKnowledge::default();
    k.set_resource(KnownResource { position: Position::new(9, 9), kind: ResourceKind::Crystal, quantity: 3 });
    let p = Position::new(2, 2);
    let reports = vec![
        KnownResource { position: p, kind: ResourceKind::Energy, quantity: 5 },
        KnownResource { position: Position::new(4, 2), kind: ResourceKind::Crystal, quantity: 1 },
        KnownResource { position: p, kind: ResourceKind::Energy, quantity: 4 },
    ];
    let obstacles = vec![Position::new(0, 1), Position::new(0, 1)];
    k.replace_with(&reports, &obstacles);
    assert_eq!(k.resources().len(), 2);
    assert_eq!(k.resources().get(p).unwrap().quantity, 4);
    assert!(!k.resources().contains_key(Position::new(9, 9)));
    assert_eq!(k.obstacles().len(), 1);
    k.remove_resource(p);
    assert_eq!(k.resources().len(), 1);
}

#[test]
fn visible_positions_are_clamped_and_row_major() {
    let map = WorldMap::empty(10, 10);
    let v = visible_positions(Position::new(0, 0), 2, &map);
    assert_eq!(v.len(), 9);
    assert_eq!(v[0], Position::new(0, 0));
    assert_eq!(v[1], Position::new(1, 0));
    assert_eq!(v[3], Position::new(0, 1));
    assert_eq!(v[8], Position::new(2, 2));
    assert_eq!(visible_positions(Position::new(5, 5), 1, &map).len(), 9);
    assert!(visible_positions(Position::new(5, 5), -1, &map).is_empty());
}

#[test]
fn collector_aims_collects_and_returns() {
    let mut map = WorldMap::empty(15, 15);
    let base = map.base();
    let far = Position::new(base.x + 5, base.y);
    map.set(far, Tile::Resource(Resource::new(ResourceKind::Energy, 5)));
    let mut c = CollectorRobot::new(RobotId(4), base);

    let (out, stop) = c.handle_message(
        HubToRobot::Knowledge {
            resources: vec![KnownResource { position: far, kind: ResourceKind::Energy, quantity: 5 }],
            obstacles: vec![],
        },
        &map,
    );
    assert!(!stop);
    assert_eq!(logs(&out), vec!["connait maintenant 1 ressource(s)".to_string()]);

    let (out, _) = c.handle_message(HubToRobot::Tick(1), &map);
    assert_eq!(logs(&out), vec!["vise une ressource en (12, 7)".to_string()]);
    let to = match out.last() {
        Some(RobotToHub::MoveRequested { robot_id, from, to }) => {
            assert_eq!((*robot_id, *from), (RobotId(4), base));
            *to
        }
        other => panic!("expected a move request, got {:?}", other),
    };
    assert_eq!(to, Position::new(base.x + 1, base.y));

    // While waiting for the answer, a tick does nothing.
    let (out, _) = c.handle_message(HubToRobot::Tick(2), &map);
    assert!(out.is_empty());

    let (out, _) = c.handle_message(HubToRobot::MoveGranted { to }, &map);
    assert!(out.is_empty());
    // Four cells away: one more step brings the deposit within collection range.
    let (out, _) = c.handle_message(HubToRobot::Tick(3), &map);
    let second = Position::new(base.x + 2, base.y);
    assert!(matches!(out.last(), Some(RobotToHub::MoveRequested { to, .. }) if *to == second));
    let (_, _) = c.handle_message(HubToRobot::MoveGranted { to: second }, &map);
    let (out, _) = c.handle_message(HubToRobot::Tick(3), &map);
    assert!(matches!(out.last(), Some(RobotToHub::CollectRequested { position, .. }) if *position == far));
    assert_eq!(logs(&out), vec!["demande collecte en (12, 7)".to_string()]);

    let (out, _) = c.handle_message(
        HubToRobot::CollectGranted { position: far, kind: ResourceKind::Energy, remaining: 4 },
        &map,
    );
    assert_eq!(
        logs(&out),
        vec!["collecte 1 energie en (12, 7)".to_string(), "retourne a la base avec sa cargaison".to_string()]
    );

    let (out, _) = c.handle_message(HubToRobot::Tick(4), &map);
    assert!(matches!(out.last(), Some(RobotToHub::MoveRequested { to: t, .. }) if *t == to));
    let (_, _) = c.handle_message(HubToRobot::MoveGranted { to }, &map);
    let (out, _) = c.handle_message(HubToRobot::Tick(4), &map);
    assert!(matches!(out.last(), Some(RobotToHub::MoveRequested { to, .. }) if *to == base));
    let (_, _) = c.handle_message(HubToRobot::MoveGranted { to: base }, &map);
    let (out, _) = c.handle_message(HubToRobot::Tick(5), &map);
    assert_eq!(logs(&out), vec!["depose 1 energie a la base".to_string()]);
    assert!(matches!(
        out.last(),
        Some(RobotToHub::Deposit { robot_id: RobotId(4), kind: ResourceKind::Energy, amount: 1 })
    ));
    let (_, stop) = c.handle_message(HubToRobot::Shutdown, &map);
    assert!(stop);
}

#[test]
fn collector_logs_denials() {
    let map = WorldMap::empty(9, 9);
    let mut c = CollectorRobot::new(RobotId(5), map.base());
    let (out, _) = c.handle_message(HubToRobot::MoveDenied { attempted: Position::new(-2, 3) }, &map);
    assert_eq!(logs(&out), vec!["deplacement refuse vers (-2, 3)".to_string()]);
    let (out, _) = c.handle_message(HubToRobot::CollectDenied { position: Position::new(1, 0) }, &map);
    assert_eq!(logs(&out), vec!["collecte refusee en (1, 0)".to_string()]);
    assert!(c.accepts(&HubToRobot::Tick(0)));
}

#[test]
fn scout_reports_what_it_sees_and_moves_one_step() {
    let mut map = WorldMap::empty(9, 9);
    let base = map.base();
    let resource = Position::new(base.x + 1, base.y + 2);
    let wall = Position::new(base.x - 2, base.y);
    map.set(resource, Tile::Resource(Resource::new(ResourceKind::Crystal, 7)));
    map.set(wall, Tile::Obstacle);
    let mut s = ScoutRobot::new(RobotId(0), base, 42);
    let (out, stop) = s.handle_message(HubToRobot::Tick(1), &map);
    assert!(!stop);
    assert!(out.iter().any(|m| matches!(m, RobotToHub::ObstacleDiscovered { position, .. } if *position == wall)));
    assert!(out.iter().any(|m| matches!(m,
        RobotToHub::ResourceDiscovered { position, kind: ResourceKind::Crystal, quantity: 7, .. } if *position == resource)));
    match out.last() {
        Some(RobotToHub::MoveRequested { from, to, .. }) => {
            assert_eq!(*from, base);
            assert_eq!(from.manhattan(*to), 1);
            assert!(map.is_walkable(*to));
        }
        other => panic!("expected a move request, got {:?}", other),
    }
    // Nothing new on a second look, and no second move while waiting.
    let (out, _) = s.handle_message(HubToRobot::Tick(2), &map);
    assert!(out.is_empty());
}

#[test]
fn collection_cells_leave_out_the_base() {
    let map = WorldMap::empty(11, 11);
    let base = map.base();
    let target = Position::new(base.x + 1, base.y);
    let goals = collection_positions(&map, target);
    assert!(!goals.contains(&base));
    // The diamond of radius 3 around the target holds 25 cells, all in bounds
    // and walkable here; the base is one of them.
    assert_eq!(goals.len(), 24);
    assert_eq!(goals[0], Position::new(target.x, target.y - 3));
    for w in goals.windows(2) {
        assert!((w[0].y, w[0].x) < (w[1].y, w[1].x));
    }
    // From the base, the nearest goal is one step away.
    let best = best_collection_goal(&map, base, target, &Vec::new()).unwrap();
    assert_eq!(best.manhattan(base), 1);
    assert_eq!(path_len_to_collection_range(&map, base, target, &Vec::new()), Some(2));
}
