use noise::NoiseFn;
use noise::Perlin;
use nova::entities::{ResourceType, World};
use nova::map::{MapError, TerrainType};

/// Samples the two coherent-noise fields exactly as the library expects
/// them: per-mille levels of the normalized noise value, row-major.
fn noise_levels(seed: u64, width: usize, height: usize) -> (Vec<u32>, Vec<u32>) {
    let terrain_noise = Perlin::new(seed as u32);
    let resource_noise = Perlin::new(seed.wrapping_add(42) as u32);
    let frequency = 0.1;
    let mut terrain_levels = Vec::new();
    let mut resource_levels = Vec::new();
    for y in 0..height {
        for x in 0..width {
            let tv = (terrain_noise.get([x as f64 * frequency, y as f64 * frequency]) + 1.0) / 2.0;
            terrain_levels.push((tv * 1000.0).floor() as u32);
            let rv = (resource_noise
                .get([x as f64 * frequency * 1.5, y as f64 * frequency * 1.5])
                + 1.0)
                / 2.0;
            resource_levels.push((rv * 1000.0).floor() as u32);
        }
    }
    (terrain_levels, resource_levels)
}

fn generate_world(width: usize, height: usize, seed: u64) -> World {
    let (terrain_levels, resource_levels) = noise_levels(seed, width, height);
    World::generate(width, height, seed, &terrain_levels, &resource_levels)
}

#[test]
fn test_map_creation() {
    let width = 20;
    let height = 15;
    let seed = 42;

    let map = generate_world(width, height, seed);

    assert_eq!(map.width, width);
    assert_eq!(map.height, height);
    assert_eq!(map.get_seed(), seed);

    assert!(!map.terrain.is_empty());
    assert_eq!(map.terrain.len(), height);
    assert_eq!(map.terrain[0].len(), width);

    assert!(!map.discovered.is_empty());
    assert_eq!(map.discovered.len(), height);
    assert_eq!(map.discovered[0].len(), width);

    assert!(map.resource_count() > 0);
}

#[test]
fn test_terrain_distribution() {
    let width = 50;
    let height = 50;
    let seed = 42;

    let map = generate_world(width, height, seed);

    let mut plains = 0;
    let mut hills = 0;
    let mut mountains = 0;
    let mut canyons = 0;

    for y in 0..height {
        for x in 0..width {
            match TerrainType::from(map.terrain[y][x]) {
                TerrainType::Plain => plains += 1,
                TerrainType::Hill => hills += 1,
                TerrainType::Mountain => mountains += 1,
                TerrainType::Canyon => canyons += 1,
            }
        }
    }

    let total = width * height;

    assert!(plains > 0);
    assert!(hills > 0);
    assert!(mountains > 0);
    assert!(canyons > 0);

    assert!((plains as f64 / total as f64) > 0.2);
    assert!((canyons as f64 / total as f64) < 0.3);
}

#[test]
fn test_resource_distribution() {
    // a world this size is comfortably past the point where the rarity
    // ordering of the three deposit kinds shows in the counts
    let width = 100;
    let height = 100;
    let seed = 42;

    let map = generate_world(width, height, seed);

    let mut energy = 0;
    let mut minerals = 0;
    let mut scientific = 0;

    for y in 0..height {
        for x in 0..width {
            match map.get_resource(x, y).unwrap() {
                Some((ResourceType::Energy, _)) => energy += 1,
                Some((ResourceType::Mineral, _)) => minerals += 1,
                Some((ResourceType::ScientificInterest, _)) => scientific += 1,
                None => {}
            }
        }
    }

    assert!(energy > 0);
    assert!(minerals > 0);
    assert!(scientific > 0);

    assert!(energy > minerals);
    assert!(minerals > scientific);
}

#[test]
fn test_map_reproducibility() {
    let width = 30;
    let height = 30;
    let seed = 12345;

    let map1 = generate_world(width, height, seed);
    let map2 = generate_world(width, height, seed);

    for y in 0..height {
        for x in 0..width {
            assert_eq!(map1.terrain[y][x], map2.terrain[y][x]);
        }
    }

    assert_eq!(map1.resource_count(), map2.resource_count());

    for y in 0..height {
        for x in 0..width {
            let r1 = map1.get_resource(x, y).unwrap();
            let r2 = map2.get_resource(x, y).unwrap();
            assert_eq!(r1, r2);
        }
    }
}

#[test]
fn test_resource_collection() {
    let width = 20;
    let height = 20;
    let seed = 42;

    let mut map = generate_world(width, height, seed);

    let mut resource_pos = None;
    'outer: for y in 0..height {
        for x in 0..width {
            if let Some((res_type, amount)) = map.get_resource(x, y).unwrap() {
                resource_pos = Some((x, y, res_type, amount));
                break 'outer;
            }
        }
    }

    assert!(resource_pos.is_some());

    let (x, y, res_type, amount) = resource_pos.unwrap();

    let collect_amount = amount / 2;
    let result = map.collect_resource(x, y, collect_amount);

    assert!(result.is_ok());
    let (collected_type, collected_amount) = result.unwrap();
    assert_eq!(collected_type, res_type);
    assert_eq!(collected_amount, collect_amount);

    let remaining = map.get_resource(x, y).unwrap().unwrap();
    assert_eq!(remaining.1, amount - collect_amount);

    let result = map.collect_resource(x, y, amount - collect_amount);
    assert!(result.is_ok());

    assert!(map.get_resource(x, y).unwrap().is_none());

    let result = map.collect_resource(x, y, 1);
    assert!(result.is_err());
}

#[test]
fn test_terrain_classification_thresholds() {
    // one level per class, exactly at the ascending thresholds
    let terrain_levels = vec![0, 399, 400, 699, 700, 849, 850, 1000];
    let resource_levels = vec![0; 8];
    let map = World::generate(8, 1, 7, &terrain_levels, &resource_levels);
    let classes: Vec<TerrainType> = (0..8).map(|x| map.get_terrain(x, 0).unwrap()).collect();
    assert_eq!(
        classes,
        vec![
            TerrainType::Plain,
            TerrainType::Plain,
            TerrainType::Hill,
            TerrainType::Hill,
            TerrainType::Mountain,
            TerrainType::Mountain,
            TerrainType::Canyon,
            TerrainType::Canyon,
        ]
    );
}

#[test]
fn test_resource_classification_thresholds() {
    // descending rarity: scientific first, then mineral, then energy
    let terrain_levels = vec![0; 6];
    let resource_levels = vec![600, 601, 700, 701, 850, 851];
    let map = World::generate(6, 1, 7, &terrain_levels, &resource_levels);
    assert!(map.get_resource(0, 0).unwrap().is_none());
    assert_eq!(map.get_resource(1, 0).unwrap().unwrap().0, ResourceType::Energy);
    assert_eq!(map.get_resource(2, 0).unwrap().unwrap().0, ResourceType::Energy);
    assert_eq!(map.get_resource(3, 0).unwrap().unwrap().0, ResourceType::Mineral);
    assert_eq!(map.get_resource(4, 0).unwrap().unwrap().0, ResourceType::Mineral);
    assert_eq!(
        map.get_resource(5, 0).unwrap().unwrap().0,
        ResourceType::ScientificInterest
    );
}

#[test]
fn test_amount_rolls_depend_on_seed_and_stay_in_range() {
    // same levels, two seeds: the deposit cells agree, the rolled amounts
    // lie in the documented ranges and differ somewhere between the seeds
    let terrain_levels = vec![0; 400];
    let resource_levels = vec![700; 400];
    let map1 = World::generate(20, 20, 1, &terrain_levels, &resource_levels);
    let map2 = World::generate(20, 20, 2, &terrain_levels, &resource_levels);
    let mut some_difference = false;
    for y in 0..20 {
        for x in 0..20 {
            let (k1, a1) = map1.get_resource(x, y).unwrap().unwrap();
            let (k2, a2) = map2.get_resource(x, y).unwrap().unwrap();
            assert_eq!(k1, ResourceType::Energy);
            assert_eq!(k2, ResourceType::Energy);
            assert!((30..=100).contains(&a1));
            assert!((30..=100).contains(&a2));
            if a1 != a2 {
                some_difference = true;
            }
        }
    }
    assert!(some_difference);
}

#[test]
fn test_collection_error_variants() {
    let mut map = World::new_test_map(5, 5);
    assert_eq!(map.collect_resource(9, 2, 1), Err(MapError::OutOfBounds(9, 2)));
    assert_eq!(map.get_resource(5, 0), Err(MapError::OutOfBounds(5, 0)));
    assert_eq!(
        map.collect_resource(2, 2, 1),
        Err(MapError::NoResourceAtPosition(2, 2))
    );
    map.set_resource(2, 2, ResourceType::Mineral, 10).unwrap();
    assert_eq!(
        map.collect_resource(2, 2, 11),
        Err(MapError::InsufficientResources)
    );
    // the failed calls left the deposit untouched
    assert_eq!(
        map.get_resource(2, 2).unwrap(),
        Some((ResourceType::Mineral, 10))
    );
}

#[test]
fn test_discovery_is_monotonic() {
    let mut map = World::new_test_map(4, 4);
    assert_eq!(map.is_discovered(1, 2).unwrap(), false);
    map.discover(1, 2).unwrap();
    assert_eq!(map.is_discovered(1, 2).unwrap(), true);
    map.discover(1, 2).unwrap();
    assert_eq!(map.is_discovered(1, 2).unwrap(), true);
    assert_eq!(map.is_discovered(0, 0).unwrap(), false);
    assert_eq!(map.discover(4, 0), Err(MapError::OutOfBounds(4, 0)));
}

#[test]
fn test_movement_cost_and_traversability() {
    let map = World::new_test_map(3, 3);
    assert_eq!(map.movement_cost(TerrainType::Plain), 1);
    assert_eq!(map.movement_cost(TerrainType::Hill), 2);
    assert_eq!(map.movement_cost(TerrainType::Mountain), 3);
    assert_eq!(map.movement_cost(TerrainType::Canyon), 4);
    assert_eq!(map.is_traversable(1, 1).unwrap(), true);
    assert!(map.is_traversable(3, 1).is_err());
}

#[test]
fn test_from_parts_validates_shapes_and_bounds() {
    let terrain = vec![vec![0u8, 1], vec![2, 3]];
    let discovered = vec![vec![false, true], vec![true, false]];
    let resources = vec![((1usize, 0usize), (ResourceType::Energy, 55u32))];
    let world =
        World::from_parts(2, 2, 9, terrain.clone(), resources.clone(), discovered.clone())
            .unwrap();
    assert_eq!(world.get_terrain(1, 1).unwrap(), TerrainType::Canyon);
    assert_eq!(world.is_discovered(1, 0).unwrap(), true);
    assert_eq!(
        world.get_resource(1, 0).unwrap(),
        Some((ResourceType::Energy, 55))
    );
    assert_eq!(world.get_seed(), 9);

    // a ragged grid is rejected
    let bad = World::from_parts(
        2,
        2,
        9,
        vec![vec![0u8], vec![2, 3]],
        resources.clone(),
        discovered.clone(),
    );
    assert_eq!(bad.err().unwrap(), MapError::SerializationFailure);

    // an out-of-bounds deposit is rejected
    let bad = World::from_parts(
        2,
        2,
        9,
        terrain,
        vec![((2usize, 0usize), (ResourceType::Energy, 5u32))],
        discovered,
    );
    assert_eq!(bad.err().unwrap(), MapError::SerializationFailure);
}

#[test]
fn test_unknown_terrain_ordinal_defaults_to_plain() {
    assert_eq!(TerrainType::from(0u8), TerrainType::Plain);
    assert_eq!(TerrainType::from(1u8), TerrainType::Hill);
    assert_eq!(TerrainType::from(2u8), TerrainType::Mountain);
    assert_eq!(TerrainType::from(3u8), TerrainType::Canyon);
    assert_eq!(TerrainType::from(7u8), TerrainType::Plain);
    assert_eq!(TerrainType::from(255u8), TerrainType::Plain);
}
