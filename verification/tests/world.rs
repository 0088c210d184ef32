use mars_resource_ops::pathfinding::find_path;
use mars_resource_ops::utils::Position;
use mars_resource_ops::world::generator::is_in_safe_zone;
use mars_resource_ops::world::populate::PopulateParams;
use mars_resource_ops::world::resource::{Resource, RESOURCE_QTY_MAX, RESOURCE_QTY_MIN};
use mars_resource_ops::world::{ResourceKind, Tile, WorldMap};
use noise::{NoiseFn, Perlin};
use rand::SeedableRng;

/// The map the application generates: Perlin noise sampled at frequency 0.12
/// above the threshold 0.20 marks obstacles, a radius of 2 around the base
/// stays clear.
fn generate(width: usize, height: usize, seed: u32) -> WorldMap {
    let perlin = Perlin::new(seed);
    let mut mask = Vec::with_capacity(width * height);
    for y in 0..height {
        for x in 0..width {
            mask.push(perlin.get([x as f64 * 0.12, y as f64 * 0.12]) > 0.20);
        }
    }
    WorldMap::generate_from_mask(width, height, 2, &mask)
}

#[test]
fn empty_map_has_base_at_center() {
    let map = WorldMap::empty(10, 6);
    assert_eq!(map.base(), Position::new(5, 3));
    assert!(matches!(map.get(map.base()), Some(Tile::Base)));
}

#[test]
fn out_of_bounds_returns_none() {
    let map = WorldMap::empty(4, 4);
    assert!(map.get(Position::new(-1, 0)).is_none());
    assert!(map.get(Position::new(4, 0)).is_none());
}

#[test]
fn sum_resource_quantity_adds_remaining_units() {
    let mut map = WorldMap::empty(6, 6);
    map.set(Position::new(1, 1), Tile::Resource(Resource::new(ResourceKind::Energy, 50)));
    map.set(Position::new(2, 1), Tile::Resource(Resource::new(ResourceKind::Energy, 120)));
    map.set(Position::new(3, 1), Tile::Resource(Resource::new(ResourceKind::Crystal, 80)));
    assert_eq!(map.sum_resource_quantity(ResourceKind::Energy), 170);
    assert_eq!(map.sum_resource_quantity(ResourceKind::Crystal), 80);
}

#[test]
fn base_and_safe_zone_are_walkable() {
    let map = generate(40, 20, 7);
    let b = map.base();
    for dy in -2..=2 {
        for dx in -2..=2 {
            let p = Position::new(b.x + dx, b.y + dy);
            assert!(map.is_walkable(p), "cell {:?} must be free", p);
        }
    }
}

#[test]
fn deterministic_with_same_seed() {
    let a = generate(30, 15, 123);
    let b = generate(30, 15, 123);
    assert_eq!(a.count_obstacles(), b.count_obstacles());
}

#[test]
fn produces_some_obstacles() {
    let map = generate(60, 30, 42);
    assert!(map.count_obstacles() > 0);
}

#[test]
fn populate_places_resources() {
    let mut map = generate(50, 25, 1);
    let n = map.populate_resources(99);
    assert!(n > 0);
    assert!(map.count_resources(ResourceKind::Energy) > 0);
    assert!(map.count_resources(ResourceKind::Crystal) > 0);
}

#[test]
fn populate_is_deterministic() {
    let mut a = generate(40, 20, 5);
    let mut b = generate(40, 20, 5);
    a.populate_resources(77);
    b.populate_resources(77);
    assert_eq!(a.count_resources(ResourceKind::Energy), b.count_resources(ResourceKind::Energy));
    assert_eq!(a.count_resources(ResourceKind::Crystal), b.count_resources(ResourceKind::Crystal));
}

#[test]
fn populated_resources_are_reachable_from_base() {
    let mut map = generate(60, 25, 42);
    map.populate_resources(7);
    for (position, tile) in map.iter() {
        if matches!(tile, Tile::Resource(_)) {
            assert!(
                find_path(&map, map.base(), position).is_some(),
                "resource at {:?} should be reachable from base",
                position
            );
        }
    }
}

#[test]
fn full_mask_keeps_only_the_safe_zone_clear() {
    let mask = vec![true; 9 * 7];
    let map = WorldMap::generate_from_mask(9, 7, 1, &mask);
    let base = map.base();
    assert_eq!(base, Position::new(4, 3));
    assert_eq!(map.count_obstacles(), 9 * 7 - 9);
    for (p, tile) in map.iter() {
        let safe = is_in_safe_zone(p, base, 1);
        assert_eq!(tile == Tile::Obstacle, !safe);
    }
    assert_eq!(map.get(base), Some(&Tile::Base));
}

#[test]
fn safe_zone_is_a_square() {
    let base = Position::new(10, 10);
    assert!(is_in_safe_zone(Position::new(8, 12), base, 2));
    assert!(!is_in_safe_zone(Position::new(7, 10), base, 2));
    assert!(!is_in_safe_zone(Position::new(10, 10), base, -1));
}

#[test]
fn taking_units_empties_the_deposit() {
    let mut map = WorldMap::empty(5, 5);
    let p = Position::new(1, 2);
    map.set(p, Tile::Resource(Resource::new(ResourceKind::Crystal, 2)));
    assert_eq!(map.take_resource_unit(p), Some((ResourceKind::Crystal, 1)));
    assert_eq!(map.sum_resource_quantity(ResourceKind::Crystal), 1);
    assert_eq!(map.take_resource_unit(p), Some((ResourceKind::Crystal, 0)));
    assert_eq!(map.get(p), Some(&Tile::Empty));
    assert_eq!(map.take_resource_unit(p), None);
    assert_eq!(map.take_resource_unit(Position::new(9, 9)), None);
    assert_eq!(map.count_resources(ResourceKind::Crystal), 0);
}

#[test]
fn empty_deposit_yields_nothing() {
    let mut map = WorldMap::empty(3, 3);
    let p = Position::new(0, 0);
    map.set(p, Tile::Resource(Resource::new(ResourceKind::Energy, 0)));
    assert_eq!(map.take_resource_unit(p), None);
    assert_eq!(map.get(p), Some(&Tile::Resource(Resource::new(ResourceKind::Energy, 0))));
}

#[test]
fn iter_lists_cells_row_major() {
    let map = WorldMap::empty(3, 2);
    let cells = map.iter();
    assert_eq!(cells.len(), 6);
    assert_eq!(cells[0], (Position::new(0, 0), Tile::Empty));
    assert_eq!(cells[4], (Position::new(1, 1), Tile::Base));
    assert_eq!(cells[5].0, Position::new(2, 1));
    assert!(map.in_bounds(Position::new(2, 1)));
    assert!(!map.in_bounds(Position::new(3, 1)));
    assert_eq!((map.width(), map.height()), (3, 2));
}

#[test]
fn populate_counts_are_capped_by_reachable_cells() {
    // A 3x3 map whose base is walled in: no empty cell is reachable.
    let mut walled = WorldMap::empty(5, 5);
    for p in [Position::new(2, 1), Position::new(1, 2), Position::new(3, 2), Position::new(2, 3)] {
        walled.set(p, Tile::Obstacle);
    }
    assert_eq!(walled.populate_resources(3), 0);

    // Three reachable empty cells: two energy then one crystal.
    let mut small = WorldMap::empty(2, 2);
    let params = PopulateParams { energy_count: 2, crystal_count: 5, max_attempts_per_resource: 0 };
    assert_eq!(small.populate_resources_with(11, params), 3);
    assert_eq!(small.count_resources(ResourceKind::Energy), 2);
    assert_eq!(small.count_resources(ResourceKind::Crystal), 1);
    for (_, tile) in small.iter() {
        if let Tile::Resource(r) = tile {
            assert!(RESOURCE_QTY_MIN <= r.quantity && r.quantity <= RESOURCE_QTY_MAX);
        }
    }
    let defaults = PopulateParams::default();
    assert_eq!((defaults.energy_count, defaults.crystal_count, defaults.max_attempts_per_resource), (12, 8, 200));
}

#[test]
fn populated_deposits_stand_where_the_map_was_empty_and_reachable() {
    let mut map = generate(40, 18, 9);
    let before = map.clone();
    let placed = map.populate_resources(5);
    assert_eq!(placed, 20);
    let mut changed = 0;
    for ((p, old), (_, new)) in before.iter().into_iter().zip(map.iter()) {
        if old != new {
            changed += 1;
            assert_eq!(old, Tile::Empty);
            assert!(find_path(&before, before.base(), p).is_some());
        }
    }
    assert_eq!(changed, 20);
}

#[test]
fn random_deposits_hold_fifty_to_two_hundred_units() {
    let mut rng = rand::rngs::StdRng::seed_from_u64(3);
    let mut seen = std::collections::BTreeSet::new();
    for _ in 0..200 {
        let r = Resource::random(&mut rng, ResourceKind::Crystal);
        assert_eq!(r.kind, ResourceKind::Crystal);
        assert!((RESOURCE_QTY_MIN..=RESOURCE_QTY_MAX).contains(&r.quantity));
        seen.insert(r.quantity);
    }
    // The draw is not a constant.
    assert!(seen.len() > 1);
}
