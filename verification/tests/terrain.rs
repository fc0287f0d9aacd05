use bracket_noise::prelude::{FastNoise, FractalType, NoiseType};
use minecrust::block_types::{block_is_solid, block_type};
use minecrust::voxel_data::Config;
use minecrust::voxel_map::{HeightField, VoxelMap};
use minecrust::world::ChunkCoord;
use splines::{Interpolation, Key, Spline};

fn cfg(chunk_size: usize, wsc: usize, whc: usize, rd: usize) -> Config {
    Config::new(chunk_size, wsc, whc, rd).unwrap()
}

fn flat_heights(size: usize, h: u16) -> HeightField {
    HeightField::new(size, h)
}

/// Height field sampled the way the host application samples it: layered
/// simplex noise remapped through the fixed control curve.
fn noise_heights(size: usize) -> HeightField {
    let mut noise = FastNoise::new();
    noise.set_noise_type(NoiseType::SimplexFractal);
    noise.set_fractal_type(FractalType::FBM);
    noise.set_fractal_octaves(4);
    noise.set_fractal_gain(0.6);
    noise.set_fractal_lacunarity(2.0);
    noise.set_frequency(2.0);
    let scale = 500.0f32;
    let start = Key::new(-1.0f32, 5.0f32, Interpolation::Linear);
    let point1 = Key::new(-0.8, 10.0, Interpolation::Linear);
    let point3 = Key::new(-0.4, 40.0, Interpolation::Linear);
    let point4 = Key::new(-0.3, 40.0, Interpolation::Linear);
    let point5 = Key::new(0.0, 80.0, Interpolation::Linear);
    let point6 = Key::new(-0.1, 80.0, Interpolation::Linear);
    let end = Key::new(1.0, 127.0, Interpolation::default());
    let spline = Spline::from_vec(vec![start, point1, point3, point4, point5, point6, end]);
    let mut hf = HeightField::new(size, 0);
    for x in 0..size {
        for z in 0..size {
            let nv = noise.get_noise(x as f32 / scale, z as f32 / scale);
            let t = spline.sample(nv).unwrap().floor() as u16;
            hf.set(x, z, t);
        }
    }
    hf
}

#[test]
fn config_standard_dimensions() {
    let c = Config::standard();
    assert_eq!(c.chunk_size, 32);
    assert_eq!(c.world_size_in_chunks, 32);
    assert_eq!(c.world_height_in_chunks, 5);
    assert_eq!(c.render_distance, 4);
    assert_eq!(c.world_size(), 1024);
    assert_eq!(c.world_height(), 160);
}

#[test]
fn config_rejects_inconsistent_dimensions() {
    assert!(Config::new(0, 4, 1, 1).is_none());
    assert!(Config::new(4, 3, 1, 1).is_some()); // odd world sizes are fine
    assert!(Config::new(4, 4, 0, 1).is_none());
    assert!(Config::new(4, 4, 1, 0).is_none());
    // render neighborhood wider than the world
    assert!(Config::new(4, 4, 1, 2).is_none());
    assert!(Config::new(4, 4, 1, 1).is_some());
}

#[test]
fn block_registry_invariants() {
    let air = block_type(0);
    assert!(!air.is_solid);
    assert!(air.texture_id.is_none());
    assert_eq!(air.name, "air");
    for id in 1..=5u8 {
        let b = block_type(id);
        assert!(b.is_solid);
        assert!(b.texture_id.is_some());
    }
    assert_eq!(block_type(3).texture_id.unwrap(), [3, 3, 0, 1, 2, 3]);
    assert!(!block_is_solid(0));
    assert!(block_is_solid(1));
    assert!(!block_is_solid(6));
}

#[test]
fn populate_is_deterministic_across_fresh_volumes() {
    let c = cfg(4, 4, 2, 1);
    let hf_a = noise_heights(16);
    let hf_b = noise_heights(16);
    let mut va = VoxelMap::new(c);
    let mut vb = VoxelMap::new(c);
    let pos = ChunkCoord { x: 0, y: 0, z: 0 };
    let fa = va.populate_voxel_map(pos, &hf_a);
    let fb = vb.populate_voxel_map(pos, &hf_b);
    assert_eq!(fa, fb);
    assert_eq!(va.voxels, vb.voxels);
}

#[test]
fn populate_twice_is_idempotent() {
    let c = cfg(4, 4, 2, 1);
    let hf = noise_heights(16);
    let mut v = VoxelMap::new(c);
    let pos = ChunkCoord { x: -1, y: 1, z: 0 };
    v.populate_voxel_map(pos, &hf);
    let snapshot = v.voxels.clone();
    v.populate_voxel_map(pos, &hf);
    assert_eq!(v.voxels, snapshot);
}

#[test]
fn column_profile_is_one_contiguous_span() {
    // Threshold 2 everywhere: bedrock at the floor, dirt one below the
    // surface, grass on it, air above.
    let c = cfg(4, 4, 2, 1);
    let hf = flat_heights(16, 2);
    let mut v = VoxelMap::new(c);
    for cy in 0..2 {
        v.populate_voxel_map(ChunkCoord { x: 0, y: cy, z: 0 }, &hf);
    }
    // chunk (0, _, 0) covers global x and z in 8..12
    for x in 8..12usize {
        for z in 8..12usize {
            assert_eq!(v.get_voxel(x, 0, z), 2, "world floor is bedrock");
            assert_eq!(v.get_voxel(x, 1, z), 4, "one below the surface is dirt");
            assert_eq!(v.get_voxel(x, 2, z), 3, "the surface is grass");
            for y in 3..8usize {
                assert_eq!(v.get_voxel(x, y, z), 0, "above the surface is air");
            }
            // single contiguous solid span from the floor up
            for y in 0..8usize {
                assert_eq!(block_is_solid(v.get_voxel(x, y, z)), y <= 2);
            }
        }
    }
}

#[test]
fn varied_heights_follow_their_columns() {
    let c = cfg(4, 4, 2, 1);
    let mut hf = flat_heights(16, 0);
    hf.set(9, 9, 5);
    hf.set(10, 9, 1);
    let mut v = VoxelMap::new(c);
    for cy in 0..2 {
        v.populate_voxel_map(ChunkCoord { x: 0, y: cy, z: 0 }, &hf);
    }
    assert_eq!(v.get_voxel(9, 5, 9), 3);
    assert_eq!(v.get_voxel(9, 6, 9), 0);
    assert_eq!(v.get_voxel(9, 4, 9), 4);
    assert_eq!(v.get_voxel(10, 1, 9), 3);
    assert_eq!(v.get_voxel(10, 2, 9), 0);
    // threshold 0: the floor cell itself is the grass surface
    assert_eq!(v.get_voxel(8, 0, 8), 3);
    assert_eq!(v.get_voxel(8, 1, 8), 0);
}

#[test]
fn is_full_reflects_chunk_contents() {
    let c = cfg(4, 4, 2, 1);
    let mut v = VoxelMap::new(c);
    // Threshold above the top of chunk y=0: its 4x4x4 cells are all solid.
    let tall = flat_heights(16, 9);
    let full = v.populate_voxel_map(ChunkCoord { x: 0, y: 0, z: 0 }, &tall);
    assert!(full);
    assert!(v.is_chunk_full(ChunkCoord { x: 0, y: 0, z: 0 }));
    // A low threshold leaves air in the chunk.
    let mut v2 = VoxelMap::new(c);
    let low = flat_heights(16, 1);
    let full2 = v2.populate_voxel_map(ChunkCoord { x: 0, y: 0, z: 0 }, &low);
    assert!(!full2);
    assert!(!v2.is_chunk_full(ChunkCoord { x: 0, y: 0, z: 0 }));
}

#[test]
fn odd_world_sizes_align_chunks_with_the_grid() {
    // A 3x3-chunk world: chunk (-1, 0, -1) starts at the world origin,
    // (1, 0, 1) ends exactly at the world's far corner.
    let c = cfg(4, 3, 1, 1);
    let hf = flat_heights(12, 1);
    let mut v = VoxelMap::new(c);
    v.populate_voxel_map(ChunkCoord { x: -1, y: 0, z: -1 }, &hf);
    v.populate_voxel_map(ChunkCoord { x: 1, y: 0, z: 1 }, &hf);
    assert_eq!(v.get_voxel(0, 0, 0), 2);
    assert_eq!(v.get_voxel(0, 1, 0), 3);
    assert_eq!(v.get_voxel(11, 0, 11), 2);
    assert_eq!(v.get_voxel(11, 1, 11), 3);
    assert_eq!(v.get_voxel(11, 2, 11), 0);
}

#[test]
fn out_of_world_columns_are_silently_skipped() {
    // Chunk at the world's eastern edge: its +x halo column falls outside
    // the world and is skipped, not an error.
    let c = cfg(4, 4, 1, 1);
    let hf = flat_heights(16, 2);
    let mut v = VoxelMap::new(c);
    let edge = ChunkCoord { x: 1, y: 0, z: 0 };
    v.populate_voxel_map(edge, &hf);
    // the chunk's own cells are filled (global x 12..16)
    assert_eq!(v.get_voxel(15, 0, 8), 2);
    // and the westmost halo column of the neighbor chunk was filled too
    assert_eq!(v.get_voxel(11, 0, 8), 2);
}
