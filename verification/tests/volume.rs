use noise::{NoiseFn, Perlin};
use voxel_world::chunk::ChunkMesh;
use voxel_world::color::Color;
use voxel_world::mesh::{chunk_load_job, mesh_volume};
use voxel_world::position::Position;
use voxel_world::voxel::Voxel;

/// The terrain height of every padded-local column of a chunk, as the
/// outside noise generator computes it: three octaves of seeded gradient
/// noise over the world-space column coordinates, scaled by five.
fn column_heights(seed: u32, position: &Position, edge: usize) -> Vec<i64> {
    let perlin = Perlin::new(seed);
    let dim = edge + 2;
    let mut heights = vec![0i64; dim * dim];
    for z in 0..dim {
        for x in 0..dim {
            let wx = position.x as i64 * edge as i64 + x as i64;
            let wz = position.z as i64 * edge as i64 + z as i64;
            let (xf, zf) = (wx as f64, wz as f64);
            let val = perlin.get([xf * 0.1, zf * 0.1])
                + perlin.get([xf * 0.01, zf * 0.01])
                + perlin.get([xf * 0.001, zf * 0.001]);
            heights[x + dim * z] = (val * 5.0) as i64;
        }
    }
    heights
}

fn pos(x: i32, y: i32, z: i32) -> Position {
    Position { x, y, z }
}

#[test]
fn linearize_delinearize_roundtrip() {
    let chunk = ChunkMesh::new(pos(0, 0, 0), 8);
    for &(x, y, z) in &[(0, 0, 0), (7, 3, 9), (9, 9, 9), (1, 0, 5), (4, 8, 2)] {
        let i = chunk.linearize(x, y, z);
        assert_eq!(chunk.delinearize(i), (x, y, z));
    }
}

#[test]
fn linearize_exact_formula() {
    let chunk = ChunkMesh::new(pos(0, 0, 0), 8);
    // dim is 10, so the index of (7, 3, 9) is 7 + 10 * (3 + 10 * 9).
    assert_eq!(chunk.linearize(7, 3, 9), 937);
    assert_eq!(chunk.delinearize(937), (7, 3, 9));
}

#[test]
fn largest_chunk_indexing() {
    // The largest supported edge length still indexes and allocates cleanly.
    let chunk = ChunkMesh::new(pos(0, 0, 0), 256);
    assert_eq!(chunk.size(), 258 * 258 * 258);
    assert!(chunk.is_empty());
    let i = chunk.linearize(257, 257, 257);
    assert_eq!(i, chunk.size() - 1);
    assert_eq!(chunk.delinearize(i), (257, 257, 257));
}

#[test]
fn new_chunk_is_all_air() {
    let chunk = ChunkMesh::new(pos(1, 2, 3), 4);
    assert!(chunk.is_empty());
    assert!(chunk.get(3, 3, 3) == Voxel::Empty);
    assert_eq!(chunk.size(), 6 * 6 * 6);
}

#[test]
fn all_empty_chunk_yields_no_mesh() {
    // Terrain far below the chunk leaves every cell empty.
    let mut chunk = ChunkMesh::new(pos(0, 0, 0), 4);
    let heights = vec![-100i64; 36];
    chunk.populate(&heights);
    assert!(chunk.is_empty());
    let groups = chunk.generate_mesh();
    assert!(groups.is_empty());
    assert!(mesh_volume(&chunk).is_none());
}

#[test]
fn solid_chunk_emits_exactly_its_shell() {
    // Terrain far above the chunk makes every interior cell solid, and at
    // this chunk height all of them fall in the same palette band.
    let edge = 4;
    let mut chunk = ChunkMesh::new(pos(0, 2, 0), edge);
    let heights = vec![100i64; 36];
    chunk.populate(&heights);
    assert!(!chunk.is_empty());
    let groups = chunk.generate_mesh();
    let mut total = 0;
    for group in groups.groups.iter() {
        assert_eq!(group.len(), edge * edge);
        total += group.len();
    }
    assert_eq!(total, 6 * edge * edge);
    // Every emitted quad sits on the interior boundary of its side.
    assert!(groups.groups[0].iter().all(|q| q.voxel[0] == 1));
    assert!(groups.groups[1].iter().all(|q| q.voxel[0] == edge));
    assert!(groups.groups[2].iter().all(|q| q.voxel[1] == 1));
    assert!(groups.groups[3].iter().all(|q| q.voxel[1] == edge));
    assert!(groups.groups[4].iter().all(|q| q.voxel[2] == 1));
    assert!(groups.groups[5].iter().all(|q| q.voxel[2] == edge));
}

#[test]
fn solid_chunk_buffers_are_consistent() {
    let edge = 4;
    let mut chunk = ChunkMesh::new(pos(0, 2, 0), edge);
    let heights = vec![100i64; 36];
    chunk.populate(&heights);
    let b = mesh_volume(&chunk).expect("a solid chunk has faces");
    let quads = 6 * edge * edge;
    assert_eq!(b.positions.len(), 4 * quads);
    assert_eq!(b.normals.len(), 4 * quads);
    assert_eq!(b.colors.len(), 4 * quads);
    assert_eq!(b.indices.len(), 6 * quads);
    assert!(b.indices.iter().all(|&i| (i as usize) < b.positions.len()));
}

#[test]
fn populate_band_colors() {
    // A chunk resting at the world floor: absolute heights 1..=8.
    let mut chunk = ChunkMesh::new(pos(0, 0, 0), 8);
    let heights = vec![100i64; 100];
    chunk.populate(&heights);
    let low = Color::new(242, 231, 122);
    let mid = Color::new(146, 142, 133);
    assert!(chunk.get(1, 1, 1) == Voxel::Opaque(low));
    assert!(chunk.get(1, 3, 1) == Voxel::Opaque(low));
    assert!(chunk.get(1, 4, 1) == Voxel::Opaque(mid));
    assert!(chunk.get(1, 8, 1) == Voxel::Opaque(mid));
    // A chunk high up: absolute heights 25..=32 fall in the high band.
    let mut high_chunk = ChunkMesh::new(pos(0, 3, 0), 8);
    high_chunk.populate(&heights);
    let high = Color::new(255, 250, 250);
    assert!(high_chunk.get(1, 1, 1) == Voxel::Opaque(high));
}

#[test]
fn populate_leaves_padding_empty() {
    let mut chunk = ChunkMesh::new(pos(0, 0, 0), 4);
    let heights = vec![100i64; 36];
    chunk.populate(&heights);
    for a in 0..6 {
        for b in 0..6 {
            assert!(chunk.get(0, a, b) == Voxel::Empty);
            assert!(chunk.get(5, a, b) == Voxel::Empty);
            assert!(chunk.get(a, 0, b) == Voxel::Empty);
            assert!(chunk.get(a, 5, b) == Voxel::Empty);
            assert!(chunk.get(a, b, 0) == Voxel::Empty);
            assert!(chunk.get(a, b, 5) == Voxel::Empty);
        }
    }
}

#[test]
fn populate_matches_noise_heights() {
    // Populate a chunk from real noise columns and hold each interior cell
    // against the height its column was given.
    let position = pos(0, 0, 0);
    let edge = 8;
    let heights = column_heights(1, &position, edge);
    let mut chunk = ChunkMesh::new(position, edge);
    chunk.populate(&heights);
    for z in 1..=edge {
        for x in 1..=edge {
            let h = heights[x + (edge + 2) * z];
            for y in 1..=edge {
                let wy = y as i64;
                let cell = chunk.get(x, y, z);
                if wy <= h {
                    assert!(matches!(cell, Voxel::Opaque(_)), "solid below the surface");
                } else {
                    assert!(cell == Voxel::Empty, "air above the surface");
                }
            }
        }
    }
}

#[test]
fn airborne_chunk_job_yields_no_mesh() {
    // Ten chunks up, every column's height (clamped noise stays within
    // -15..=15) lies far below the chunk: the job reports no mesh.
    let position = pos(0, 10, 0);
    let edge = 8;
    let heights = column_heights(1, &position, edge);
    assert!(heights.iter().all(|&h| h <= 15 && h >= -15));
    assert!(chunk_load_job(position, edge, &heights).is_none());
}

#[test]
fn underground_chunk_job_yields_closed_shell() {
    // Ten chunks down, every interior cell is solid, so the job produces
    // exactly the shell geometry.
    let position = pos(0, -10, 0);
    let edge = 8;
    let heights = column_heights(1, &position, edge);
    let b = chunk_load_job(position, edge, &heights).expect("a buried chunk is solid");
    assert_eq!(b.positions.len(), 4 * 6 * edge * edge);
    assert_eq!(b.indices.len(), 6 * 6 * edge * edge);
}
