use noise::{NoiseFn, Perlin};
use voxel_world::config::{Config, ConfigError};
use voxel_world::mesh::chunk_load_job;
use voxel_world::position::Position;
use voxel_world::streaming::{
    apply_load, compute_intents, integrate_result, required_positions, required_positions_flood,
    IntegrateAction, LoadedChunks,
};

fn pos(x: i32, y: i32, z: i32) -> Position {
    Position { x, y, z }
}

/// The terrain height of every padded-local column of a chunk, computed by
/// the outside noise generator from the world seed.
fn noise_heights(seed: u32, position: &Position, edge: usize) -> Vec<i64> {
    let perlin = Perlin::new(seed);
    let dim = edge + 2;
    let mut heights = vec![0i64; dim * dim];
    for z in 0..dim {
        for x in 0..dim {
            let wx = position.x as i64 * edge as i64 + x as i64;
            let wz = position.z as i64 * edge as i64 + z as i64;
            let (xf, zf) = (wx as f64, wz as f64);
            let val = perlin.get([xf * 0.1, zf * 0.1])
                + perlin.get([xf * 0.01, zf * 0.01])
                + perlin.get([xf * 0.001, zf * 0.001]);
            heights[x + dim * z] = (val * 5.0) as i64;
        }
    }
    heights
}

#[test]
fn distance_squared_exact_values() {
    assert_eq!(pos(0, 0, 0).distance_squared(&pos(1, 2, 3)), 14);
    assert_eq!(pos(-1, -2, -3).distance_squared(&pos(1, 2, 3)), 4 + 16 + 36);
    assert_eq!(pos(5, 5, 5).distance_squared(&pos(5, 5, 5)), 0);
    // The full coordinate range must not overflow.
    let d = (i32::MAX as i128 - i32::MIN as i128) as u128;
    assert_eq!(
        pos(i32::MIN, 0, 0).distance_squared(&pos(i32::MAX, 0, 0)),
        d * d
    );
}

#[test]
fn within_distance_boundary() {
    let c = pos(0, 0, 0);
    assert!(pos(0, 0, 2).within_distance(&c, 2));
    assert!(pos(1, 1, 1).within_distance(&c, 2));
    assert!(!pos(1, 1, 2).within_distance(&c, 2));
    assert!(!pos(3, 0, 0).within_distance(&c, 2));
}

#[test]
fn required_positions_radius_one_is_seven_coordinates() {
    // The admitted set is the Euclidean ball, so at distance one only the
    // six face neighbors join the center; edge and corner coordinates of
    // the surrounding cube lie farther than one away.
    let r = required_positions(pos(0, 0, 0), 1);
    assert_eq!(r.len(), 7);
    for expected in [
        pos(0, 0, 0),
        pos(-1, 0, 0),
        pos(1, 0, 0),
        pos(0, -1, 0),
        pos(0, 1, 0),
        pos(0, 0, -1),
        pos(0, 0, 1),
    ] {
        assert!(r.contains(&expected));
    }
}

#[test]
fn required_positions_match_brute_force() {
    let center = pos(5, -3, 7);
    let radius = 2;
    let r = required_positions(center, radius);
    let mut expected = Vec::new();
    for x in center.x - radius..=center.x + radius {
        for y in center.y - radius..=center.y + radius {
            for z in center.z - radius..=center.z + radius {
                let p = pos(x, y, z);
                if center.distance_squared(&p) <= (radius as u128) * (radius as u128) {
                    expected.push(p);
                }
            }
        }
    }
    assert_eq!(r.len(), expected.len());
    for p in expected {
        assert!(r.contains(&p));
    }
}

#[test]
fn flood_fill_agrees_with_enumeration() {
    // The two admitted-set policies produce the same Euclidean ball.
    for &(center, radius) in &[(pos(0, 0, 0), 1), (pos(5, -3, 7), 3), (pos(-2, 4, 0), 0)] {
        let enumerated = required_positions(center, radius);
        let flooded = required_positions_flood(center, radius);
        assert_eq!(enumerated.len(), flooded.len());
        for p in &enumerated {
            assert!(flooded.contains(p));
        }
    }
}

#[test]
fn intents_split_required_and_stale() {
    let mut loaded = LoadedChunks::new();
    apply_load(&mut loaded, pos(0, 0, 0), 1);
    apply_load(&mut loaded, pos(100, 0, 0), 2);
    let (loads, unloads) = compute_intents(&loaded, pos(0, 0, 0), 1);
    // The center is already tracked; its six neighbors are not.
    assert_eq!(loads.len(), 6);
    assert!(!loads.contains(&pos(0, 0, 0)));
    assert!(loads.contains(&pos(0, 1, 0)));
    // The far chunk generates exactly one unload intent.
    assert_eq!(unloads.len(), 1);
    assert_eq!(unloads[0], pos(100, 0, 0));
}

#[test]
fn unloaded_chunk_is_removed_exactly_once() {
    let mut loaded = LoadedChunks::new();
    apply_load(&mut loaded, pos(100, 0, 0), 2);
    let (_, unloads) = compute_intents(&loaded, pos(0, 0, 0), 1);
    assert_eq!(unloads.iter().filter(|&&p| p == pos(100, 0, 0)).count(), 1);
    assert_eq!(loaded.remove(pos(100, 0, 0)), Some(2));
    assert!(!loaded.contains(&pos(100, 0, 0)));
    // A second tick sees nothing left to unload.
    let (_, unloads_again) = compute_intents(&loaded, pos(0, 0, 0), 1);
    assert!(unloads_again.is_empty());
}

#[test]
fn duplicate_loads_are_suppressed() {
    let mut loaded = LoadedChunks::new();
    assert!(apply_load(&mut loaded, pos(1, 2, 3), 7));
    assert!(!apply_load(&mut loaded, pos(1, 2, 3), 8));
    assert_eq!(loaded.len(), 1);
    assert_eq!(loaded.get(&pos(1, 2, 3)), Some(7));
    // A tracked coordinate never reappears among the load intents.
    let (loads, _) = compute_intents(&loaded, pos(1, 2, 3), 1);
    assert!(!loads.contains(&pos(1, 2, 3)));
}

#[test]
fn loaded_chunks_map_operations() {
    let mut loaded = LoadedChunks::new();
    assert_eq!(loaded.len(), 0);
    loaded.insert(pos(1, 1, 1), 10);
    loaded.insert(pos(2, 2, 2), 20);
    assert_eq!(loaded.get(&pos(1, 1, 1)), Some(10));
    assert_eq!(loaded.get(&pos(2, 2, 2)), Some(20));
    assert_eq!(loaded.get(&pos(3, 3, 3)), None);
    loaded.insert(pos(1, 1, 1), 11);
    assert_eq!(loaded.len(), 2);
    assert_eq!(loaded.get(&pos(1, 1, 1)), Some(11));
    assert_eq!(loaded.remove(pos(1, 1, 1)), Some(11));
    assert_eq!(loaded.remove(pos(1, 1, 1)), None);
    assert_eq!(loaded.len(), 1);
}

#[test]
fn stale_result_is_discarded() {
    let mut loaded = LoadedChunks::new();
    let a = integrate_result(&mut loaded, pos(4, 4, 4), true);
    assert_eq!(a, IntegrateAction::Discard);
    assert_eq!(loaded.len(), 0);
}

#[test]
fn finished_mesh_is_registered() {
    let mut loaded = LoadedChunks::new();
    apply_load(&mut loaded, pos(4, 4, 4), 9);
    let a = integrate_result(&mut loaded, pos(4, 4, 4), true);
    assert_eq!(a, IntegrateAction::Register(9));
    assert!(loaded.contains(&pos(4, 4, 4)));
}

#[test]
fn empty_result_despawns_and_removes() {
    let mut loaded = LoadedChunks::new();
    apply_load(&mut loaded, pos(4, 4, 4), 9);
    let a = integrate_result(&mut loaded, pos(4, 4, 4), false);
    assert_eq!(a, IntegrateAction::Despawn(9));
    assert!(!loaded.contains(&pos(4, 4, 4)));
}

#[test]
fn config_rejects_invalid_values() {
    assert_eq!(Config::new(0, 12, 1), Err(ConfigError::InvalidChunkSize));
    assert_eq!(Config::new(257, 12, 1), Err(ConfigError::InvalidChunkSize));
    assert_eq!(Config::new(8, 0, 1), Err(ConfigError::InvalidRenderDistance));
    assert_eq!(Config::new(8, -3, 1), Err(ConfigError::InvalidRenderDistance));
    assert_eq!(Config::new(8, 65, 1), Err(ConfigError::InvalidRenderDistance));
    let c = Config::new(8, 1, 1).expect("a valid configuration");
    assert_eq!(c.chunk_edge_voxels, 8);
    assert_eq!(c.render_distance, 1);
    assert_eq!(c.seed, 1);
    // Both maxima are still accepted.
    assert!(Config::new(256, 64, 0).is_ok());
}

#[test]
fn end_to_end_seed_one() {
    // Seed 1, chunks of 8 voxels, observer at the world origin, render
    // distance 1: the required set is the Euclidean ball of radius one,
    // the seven coordinates asserted below.
    let config = Config::new(8, 1, 1).expect("a valid configuration");
    let observer_chunk = pos(0, 0, 0);
    let mut loaded = LoadedChunks::new();

    let (loads, unloads) = compute_intents(&loaded, observer_chunk, config.render_distance);
    assert!(unloads.is_empty());
    assert_eq!(loads.len(), 7);
    for p in [
        pos(0, 0, 0),
        pos(-1, 0, 0),
        pos(1, 0, 0),
        pos(0, -1, 0),
        pos(0, 1, 0),
        pos(0, 0, -1),
        pos(0, 0, 1),
    ] {
        assert!(loads.contains(&p));
    }

    // Run every job synchronously and integrate its result.
    let mut next_handle = 1u64;
    let mut with_mesh = Vec::new();
    let mut without_mesh = Vec::new();
    for &p in loads.iter() {
        assert!(apply_load(&mut loaded, p, next_handle));
        let heights = noise_heights(config.seed, &p, config.chunk_edge_voxels);
        let result = chunk_load_job(p, config.chunk_edge_voxels, &heights);
        let has_mesh = result.is_some();
        // A chunk has geometry exactly when some interior column's terrain
        // height reaches the chunk's lowest interior cell.
        let edge = config.chunk_edge_voxels;
        let dim = edge + 2;
        let floor_height = p.y as i64 * edge as i64 + 1;
        let any_solid = (1..=edge)
            .any(|z| (1..=edge).any(|x| heights[x + dim * z] >= floor_height));
        assert_eq!(has_mesh, any_solid);
        if let Some(b) = &result {
            assert!(!b.positions.is_empty());
            assert_eq!(b.positions.len(), b.normals.len());
            assert_eq!(b.positions.len(), b.colors.len());
            assert!(b.indices.iter().all(|&i| (i as usize) < b.positions.len()));
        }
        let action = integrate_result(&mut loaded, p, has_mesh);
        if has_mesh {
            assert_eq!(action, IntegrateAction::Register(next_handle));
            with_mesh.push(p);
        } else {
            assert_eq!(action, IntegrateAction::Despawn(next_handle));
            without_mesh.push(p);
        }
        next_handle += 1;
    }

    assert_eq!(with_mesh.len() + without_mesh.len(), 7);

    // Every chunk with geometry stays tracked; a second tick only asks
    // again for coordinates whose result was empty, never for tracked ones.
    let (loads_again, unloads_again) =
        compute_intents(&loaded, observer_chunk, config.render_distance);
    assert!(unloads_again.is_empty());
    for p in &with_mesh {
        assert!(loaded.contains(p));
        assert!(!loads_again.contains(p));
    }
    for p in &without_mesh {
        assert!(!loaded.contains(p));
        assert!(loads_again.contains(p));
    }

    // The observer moves two chunks along x: the chunk at (-1, 0, 0) falls
    // out of range and receives exactly one unload intent.
    let (_, unloads_moved) = compute_intents(&loaded, pos(2, 0, 0), config.render_distance);
    if loaded.contains(&pos(-1, 0, 0)) {
        assert_eq!(unloads_moved.iter().filter(|&&p| p == pos(-1, 0, 0)).count(), 1);
    }
}
