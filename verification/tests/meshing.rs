use minecrust::mesh::{add_texture, check_voxel, create_mesh};
use minecrust::voxel_data::Config;
use minecrust::voxel_map::VoxelMap;
use minecrust::world::ChunkCoord;

fn cfg(chunk_size: usize, wsc: usize, whc: usize, rd: usize) -> Config {
    Config::new(chunk_size, wsc, whc, rd).unwrap()
}

/// Write a block id straight into the volume's flat cell array.
fn put(v: &mut VoxelMap, x: usize, y: usize, z: usize, id: u8) {
    let ws = v.config.world_size_in_chunks * v.config.chunk_size;
    let wh = v.config.world_height_in_chunks * v.config.chunk_size;
    assert!(x < ws && y < wh && z < ws);
    v.voxels[(x * wh + y) * ws + z] = id;
}

#[test]
fn check_voxel_handles_bounds_and_solidity() {
    let c = cfg(3, 4, 1, 1);
    let mut v = VoxelMap::new(c);
    put(&mut v, 1, 1, 1, 1);
    assert!(check_voxel(1, 1, 1, &v));
    assert!(!check_voxel(0, 0, 0, &v));
    assert!(!check_voxel(-1, 0, 0, &v));
    assert!(!check_voxel(0, 3, 0, &v), "above the world is empty");
    assert!(!check_voxel(6, 0, 0, &v), "beyond the world is empty");
}

#[test]
fn isolated_voxel_emits_exactly_six_faces() {
    // A single stone voxel with air on all six sides: 6 faces, 24 vertices,
    // 12 triangles.
    let c = cfg(3, 4, 1, 1);
    let mut v = VoxelMap::new(c);
    put(&mut v, 1, 1, 1, 1);
    let chunk = ChunkCoord { x: -2, y: 0, z: -2 }; // covers cells 0..3
    let m = create_mesh(&chunk, &v);
    assert_eq!(m.positions.len(), 24);
    assert_eq!(m.normals.len(), 24);
    assert_eq!(m.uvs.len(), 24);
    assert_eq!(m.indices.len(), 36);
}

#[test]
fn enclosed_voxel_emits_no_faces() {
    // A solid 3x3x3 block: only the outer shell is meshed, 54 quads; the
    // fully enclosed center voxel contributes nothing.
    let c = cfg(3, 4, 3, 1);
    let mut v = VoxelMap::new(c);
    for x in 0..3 {
        for y in 3..6 {
            for z in 0..3 {
                put(&mut v, x, y, z, 1);
            }
        }
    }
    let mut m_all = Vec::new();
    for cy in 0..3 {
        let m = create_mesh(&ChunkCoord { x: -2, y: cy, z: -2 }, &v);
        m_all.push(m);
    }
    let quads: usize = m_all.iter().map(|m| m.positions.len() / 4).sum();
    assert_eq!(quads, 54);
}

#[test]
fn world_edge_voxel_is_capped() {
    // A voxel in the world's bottom corner: no neighbor cells exist on
    // three sides, yet all six faces are drawn.
    let c = cfg(3, 4, 1, 1);
    let mut v = VoxelMap::new(c);
    put(&mut v, 0, 0, 0, 1);
    let m = create_mesh(&ChunkCoord { x: -2, y: 0, z: -2 }, &v);
    assert_eq!(m.positions.len(), 24);
    // the westward cap exists: a quad with normal (-1, 0, 0)
    assert!(m.normals.contains(&(-1, 0, 0)));
    // the downward cap exists despite there being no cell below the world
    assert!(m.normals.contains(&(0, -1, 0)));
}

#[test]
fn single_voxel_mesh_layout_is_deterministic() {
    let c = cfg(3, 4, 1, 1);
    let mut v = VoxelMap::new(c);
    put(&mut v, 1, 1, 1, 1);
    let m = create_mesh(&ChunkCoord { x: -2, y: 0, z: -2 }, &v);
    // Faces come in fixed direction order; the first quad is the -x face,
    // whose corners follow the fixed template offset by the voxel's local
    // position (1, 1, 1).
    assert_eq!(m.positions[0], (1, 1, 1));
    assert_eq!(m.positions[1], (1, 2, 1));
    assert_eq!(m.positions[2], (1, 2, 2));
    assert_eq!(m.positions[3], (1, 1, 2));
    let first_quad: [u32; 6] = [0, 2, 1, 0, 3, 2];
    assert_eq!(&m.indices[0..6], &first_quad);
    // the second quad's triangles are offset by its first corner index
    let second_quad: [u32; 6] = [4, 6, 5, 4, 7, 6];
    assert_eq!(&m.indices[6..12], &second_quad);
}

#[test]
fn grass_uses_distinct_tiles_per_face() {
    // Grass (id 3): side tile 3, top tile 0, bottom tile 1.
    let c = cfg(3, 4, 1, 1);
    let mut v = VoxelMap::new(c);
    put(&mut v, 1, 1, 1, 3);
    let m = create_mesh(&ChunkCoord { x: -2, y: 0, z: -2 }, &v);
    // quad 0 is the -x side: tile 3 sits at atlas column 3, row 0
    let side: [(u32, u32); 4] = [(3, 1), (3, 0), (4, 0), (4, 1)];
    assert_eq!(&m.uvs[0..4], &side);
    // quad 2 is the +y top: tile 0
    let top: [(u32, u32); 4] = [(0, 1), (0, 0), (1, 0), (1, 1)];
    assert_eq!(&m.uvs[8..12], &top);
    // quad 3 is the -y bottom: tile 1
    let bottom: [(u32, u32); 4] = [(1, 1), (1, 0), (2, 0), (2, 1)];
    assert_eq!(&m.uvs[12..16], &bottom);
}

#[test]
fn add_texture_maps_tiles_into_the_atlas_grid() {
    // Tile 0: the atlas origin.
    assert_eq!(add_texture(0), ((0, 1), (0, 0), (1, 0), (1, 1)));
    // Tile 9 (bedrock): column 9, row 0.
    assert_eq!(add_texture(9), ((9, 1), (9, 0), (10, 0), (10, 1)));
    // Tile 207 (water): column 15, row 12.
    assert_eq!(add_texture(207), ((15, 13), (15, 12), (16, 12), (16, 13)));
}

#[test]
fn hidden_interior_faces_are_culled_between_neighbors() {
    // Two adjacent stone voxels share one hidden pair of faces:
    // 2 * 6 - 2 = 10 quads.
    let c = cfg(3, 4, 1, 1);
    let mut v = VoxelMap::new(c);
    put(&mut v, 1, 1, 1, 1);
    put(&mut v, 1, 1, 2, 1);
    let m = create_mesh(&ChunkCoord { x: -2, y: 0, z: -2 }, &v);
    assert_eq!(m.positions.len() / 4, 10);
}
