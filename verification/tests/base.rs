use mars_resource_ops::communication::base::Base;
use mars_resource_ops::communication::Message;
use mars_resource_ops::utils::Position;
use mars_resource_ops::world::ResourceKind;

#[test]
fn discovery_updates_known_resources() {
    let mut base = Base::new(Position::new(5, 5));
    let pos = Position::new(10, 3);
    base.apply(&Message::ResourceFound { position: pos, kind: ResourceKind::Energy, quantity: 120 });
    assert_eq!(base.known_resource_count(), 1);
    assert_eq!(base.known_resources().get(pos).unwrap().quantity, 120);
}

#[test]
fn deposit_increments_counters() {
    let mut base = Base::new(Position::new(0, 0));
    base.apply(&Message::Deposit { kind: ResourceKind::Energy, amount: 15 });
    base.apply(&Message::Deposit { kind: ResourceKind::Crystal, amount: 7 });
    assert_eq!(base.stored_energy(), 15);
    assert_eq!(base.stored_crystals(), 7);
}

#[test]
fn depleted_resource_is_removed() {
    let mut base = Base::new(Position::new(0, 0));
    let pos = Position::new(2, 2);
    base.apply(&Message::ResourceFound { position: pos, kind: ResourceKind::Crystal, quantity: 50 });
    base.apply(&Message::ResourceDepleted { position: pos, kind: ResourceKind::Crystal });
    assert_eq!(base.known_resource_count(), 0);
}

#[test]
fn collect_reduces_known_quantity() {
    let mut base = Base::new(Position::new(0, 0));
    let pos = Position::new(8, 4);
    base.apply(&Message::ResourceFound { position: pos, kind: ResourceKind::Energy, quantity: 100 });
    base.apply(&Message::ResourceCollected { position: pos, kind: ResourceKind::Energy, amount: 1 });
    assert_eq!(base.known_resources().get(pos).unwrap().quantity, 99);
}

#[test]
fn rediscovery_keeps_the_largest_quantity() {
    let mut base = Base::new(Position::new(0, 0));
    let pos = Position::new(1, 1);
    base.apply(&Message::ResourceFound { position: pos, kind: ResourceKind::Energy, quantity: 40 });
    base.apply(&Message::ResourceFound { position: pos, kind: ResourceKind::Crystal, quantity: 30 });
    let known = base.known_resources().get(pos).unwrap();
    assert_eq!((known.kind, known.quantity), (ResourceKind::Energy, 40));
    base.apply(&Message::ResourceFound { position: pos, kind: ResourceKind::Crystal, quantity: 60 });
    let known = base.known_resources().get(pos).unwrap();
    assert_eq!((known.kind, known.quantity), (ResourceKind::Energy, 60));
}

#[test]
fn collecting_everything_forgets_the_resource() {
    let mut base = Base::new(Position::new(0, 0));
    let pos = Position::new(3, 3);
    base.apply(&Message::ResourceFound { position: pos, kind: ResourceKind::Energy, quantity: 2 });
    base.apply(&Message::ResourceCollected { position: pos, kind: ResourceKind::Energy, amount: 5 });
    assert_eq!(base.known_resource_count(), 0);
    // A collection at an unknown cell records it with nothing left.
    let other = Position::new(4, 4);
    base.apply(&Message::ResourceCollected { position: other, kind: ResourceKind::Crystal, amount: 1 });
    let known = base.known_resources().get(other).unwrap();
    assert_eq!((known.kind, known.quantity), (ResourceKind::Crystal, 0));
}

#[test]
fn obstacles_are_recorded_once() {
    let mut base = Base::new(Position::new(6, 2));
    assert_eq!(base.position(), Position::new(6, 2));
    base.apply(&Message::ObstacleFound { position: Position::new(1, 0) });
    base.apply(&Message::ObstacleFound { position: Position::new(1, 0) });
    base.apply(&Message::ObstacleFound { position: Position::new(2, 0) });
    assert_eq!(base.known_obstacles().len(), 2);
    assert!(base.known_obstacles().contains(Position::new(2, 0)));
}
