use vstd::prelude::*;

use crate::block_types::{block_is_solid, spec_block_is_solid, spec_texture_id, texture_for_face};
use crate::voxel_data::{Config, TEXTURE_ATLAS_SIZE_IN_BLOCKS};
use crate::voxel_map::{
    in_column_footprint, lemma_chunk_base_bounds, spec_chunk_base_x, spec_chunk_base_y,
    spec_chunk_base_z, spec_in_world, y_in_chunk_extent, VoxelMap,
};
use crate::world::{spec_chunk_in_world, ChunkCoord};

verus! {

/// Triangle-soup output of the mesh extractor. Positions are corner
/// coordinates local to the chunk, normals are unit axis vectors, texture
/// coordinates are in atlas-tile units (the display layer divides by the
/// atlas size), and indices address the position list in emission order.
pub struct MeshBuffer {
    pub positions: Vec<(u32, u32, u32)>,
    pub normals: Vec<(i32, i32, i32)>,
    pub uvs: Vec<(u32, u32)>,
    pub indices: Vec<u32>,
}

/// Unit offset toward the neighbor checked for face direction d
/// (0: -x, 1: +x, 2: +y, 3: -y, 4: +z, 5: -z).
pub open spec fn spec_face_check(d: int) -> (int, int, int) {
    if d == 0 {
        (-1, 0, 0)
    } else if d == 1 {
        (1, 0, 0)
    } else if d == 2 {
        (0, 1, 0)
    } else if d == 3 {
        (0, -1, 0)
    } else if d == 4 {
        (0, 0, 1)
    } else {
        (0, 0, -1)
    }
}

/// Corner j (0..4) of the quad for face direction d, as offsets from the
/// voxel's own corner, in the fixed winding the index template expects.
pub open spec fn spec_face_vertex(d: int, j: int) -> (int, int, int) {
    if d == 0 {
        if j == 0 {
            (0, 0, 0)
        } else if j == 1 {
            (0, 1, 0)
        } else if j == 2 {
            (0, 1, 1)
        } else {
            (0, 0, 1)
        }
    } else if d == 1 {
        if j == 0 {
            (1, 0, 1)
        } else if j == 1 {
            (1, 1, 1)
        } else if j == 2 {
            (1, 1, 0)
        } else {
            (1, 0, 0)
        }
    } else if d == 2 {
        if j == 0 {
            (0, 1, 0)
        } else if j == 1 {
            (1, 1, 0)
        } else if j == 2 {
            (1, 1, 1)
        } else {
            (0, 1, 1)
        }
    } else if d == 3 {
        if j == 0 {
            (1, 0, 0)
        } else if j == 1 {
            (0, 0, 0)
        } else if j == 2 {
            (0, 0, 1)
        } else {
            (1, 0, 1)
        }
    } else if d == 4 {
        if j == 0 {
            (0, 0, 1)
        } else if j == 1 {
            (0, 1, 1)
        } else if j == 2 {
            (1, 1, 1)
        } else {
            (1, 0, 1)
        }
    } else {
        if j == 0 {
            (1, 0, 0)
        } else if j == 1 {
            (1, 1, 0)
        } else if j == 2 {
            (0, 1, 0)
        } else {
            (0, 0, 0)
        }
    }
}

/// Unit normal recorded for the quads of face direction d. The two
/// z-facing directions record mirrored normals; the fixed table is kept
/// exactly as the renderer expects it.
pub open spec fn spec_face_normal(d: int) -> (i32, i32, i32) {
    if d == 0 {
        (-1i32, 0i32, 0i32)
    } else if d == 1 {
        (1i32, 0i32, 0i32)
    } else if d == 2 {
        (0i32, 1i32, 0i32)
    } else if d == 3 {
        (0i32, -1i32, 0i32)
    } else if d == 4 {
        (0i32, 0i32, -1i32)
    } else {
        (0i32, 0i32, 1i32)
    }
}

/// Texture coordinate of corner j for atlas tile `t`, in tile units: the
/// tile sits at column t mod atlas, row t div atlas, and the four corners
/// wind to match the position template.
pub open spec fn spec_face_uv(t: u32, j: int) -> (u32, u32) {
    let col = (t as int) % (TEXTURE_ATLAS_SIZE_IN_BLOCKS as int);
    let row = (t as int) / (TEXTURE_ATLAS_SIZE_IN_BLOCKS as int);
    if j == 0 {
        (col as u32, (row + 1) as u32)
    } else if j == 1 {
        (col as u32, row as u32)
    } else if j == 2 {
        ((col + 1) as u32, row as u32)
    } else {
        ((col + 1) as u32, (row + 1) as u32)
    }
}

/// There is a solid voxel at world cell (x, y, z); cells outside the world
/// count as empty, so world edges are capped with faces.
pub open spec fn spec_voxel_solid(v: VoxelMap, x: int, y: int, z: int) -> bool {
    spec_in_world(v.config, x, y, z) && spec_block_is_solid(v.spec_cell(x, y, z))
}

pub fn check_voxel(x: i32, y: i32, z: i32, voxel_map: &VoxelMap) -> (r: bool)
    requires
        voxel_map.wf(),
    ensures
        r == spec_voxel_solid(*voxel_map, x as int, y as int, z as int),
{
    let ws: i32 = voxel_map.config.world_size() as i32;
    let wh: i32 = voxel_map.config.world_height() as i32;
    if x > ws - 1 || x < 0 || y > wh - 1 || y < 0 || z > ws - 1 || z < 0 {
        return false;
    }
    block_is_solid(voxel_map.get_voxel(x as usize, y as usize, z as usize))
}

/// Linear face counter: voxels enumerate x-major, then y, then z inside the
/// chunk, with the six face directions innermost.
pub open spec fn spec_fid(cfg: Config, lx: int, ly: int, lz: int, d: int) -> int {
    ((lx * cfg.chunk_size + ly) * cfg.chunk_size + lz) * 6 + d
}

pub open spec fn spec_fid_d(cfg: Config, k: int) -> int {
    k % 6
}

pub open spec fn spec_fid_lz(cfg: Config, k: int) -> int {
    (k / 6) % (cfg.chunk_size as int)
}

pub open spec fn spec_fid_ly(cfg: Config, k: int) -> int {
    ((k / 6) / (cfg.chunk_size as int)) % (cfg.chunk_size as int)
}

pub open spec fn spec_fid_lx(cfg: Config, k: int) -> int {
    (((k / 6) / (cfg.chunk_size as int))) / (cfg.chunk_size as int)
}

pub open spec fn spec_total_faces(cfg: Config) -> int {
    cfg.chunk_size * cfg.chunk_size * cfg.chunk_size * 6
}

/// The face counter decomposes uniquely into voxel and direction.
pub proof fn lemma_fid_decode(cfg: Config, lx: int, ly: int, lz: int, d: int)
    requires
        cfg.wf(),
        0 <= lx < cfg.chunk_size,
        0 <= ly < cfg.chunk_size,
        0 <= lz < cfg.chunk_size,
        0 <= d < 6,
    ensures
        spec_fid_d(cfg, spec_fid(cfg, lx, ly, lz, d)) == d,
        spec_fid_lz(cfg, spec_fid(cfg, lx, ly, lz, d)) == lz,
        spec_fid_ly(cfg, spec_fid(cfg, lx, ly, lz, d)) == ly,
        spec_fid_lx(cfg, spec_fid(cfg, lx, ly, lz, d)) == lx,
{
    let cs = cfg.chunk_size as int;
    let b = lx * cs + ly;
    let a = b * cs + lz;
    let k = a * 6 + d;
    vstd::arithmetic::div_mod::lemma_fundamental_div_mod_converse(k, 6, a, d);
    vstd::arithmetic::div_mod::lemma_fundamental_div_mod_converse(a, cs, b, lz);
    vstd::arithmetic::div_mod::lemma_fundamental_div_mod_converse(b, cs, lx, ly);
}

/// Face counters below the total decode to in-range voxel coordinates and
/// directions.
pub proof fn lemma_fid_range(cfg: Config, k: int)
    requires
        cfg.wf(),
        0 <= k < spec_total_faces(cfg),
    ensures
        0 <= spec_fid_d(cfg, k) < 6,
        0 <= spec_fid_lz(cfg, k) < cfg.chunk_size,
        0 <= spec_fid_ly(cfg, k) < cfg.chunk_size,
        0 <= spec_fid_lx(cfg, k) < cfg.chunk_size,
{
    let cs = cfg.chunk_size as int;
    vstd::arithmetic::div_mod::lemma_mod_division_less_than_divisor(k, 6);
    vstd::arithmetic::div_mod::lemma_fundamental_div_mod(k, 6);
    let q1 = k / 6;
    vstd::arithmetic::div_mod::lemma_div_pos_is_pos(k, 6);
    assert(k < cs * cs * cs * 6);
    assert(q1 < cs * cs * cs) by (nonlinear_arith)
        requires
            6 * q1 <= k,
            k < (cs * cs * cs) * 6,
    ;
    vstd::arithmetic::div_mod::lemma_mod_division_less_than_divisor(q1, cs);
    vstd::arithmetic::div_mod::lemma_fundamental_div_mod(q1, cs);
    let q2 = q1 / cs;
    vstd::arithmetic::div_mod::lemma_div_pos_is_pos(q1, cs);
    assert(q2 < cs * cs) by (nonlinear_arith)
        requires
            cs * q2 <= q1,
            q1 < (cs * cs) * cs,
            1 <= cs,
    ;
    vstd::arithmetic::div_mod::lemma_mod_division_less_than_divisor(q2, cs);
    vstd::arithmetic::div_mod::lemma_fundamental_div_mod(q2, cs);
    let q3 = q2 / cs;
    vstd::arithmetic::div_mod::lemma_div_pos_is_pos(q2, cs);
    assert(q3 < cs) by (nonlinear_arith)
        requires
            cs * q3 <= q2,
            q2 < cs * cs,
            1 <= cs,
    ;
}

/// Face d of the voxel at local position (lx, ly, lz) of chunk `c` is part
/// of the visible surface: the voxel is solid and the neighbor the face
/// looks at is not (cells beyond the world's edge count as empty).
pub open spec fn spec_face_visible(
    v: VoxelMap,
    c: ChunkCoord,
    lx: int,
    ly: int,
    lz: int,
    d: int,
) -> bool {
    let gx = spec_chunk_base_x(v.config, c) + lx;
    let gy = spec_chunk_base_y(v.config, c) + ly;
    let gz = spec_chunk_base_z(v.config, c) + lz;
    let off = spec_face_check(d);
    spec_voxel_solid(v, gx, gy, gz) && !spec_voxel_solid(v, gx + off.0, gy + off.1, gz + off.2)
}

pub open spec fn spec_fid_visible(v: VoxelMap, c: ChunkCoord, k: int) -> bool {
    spec_face_visible(
        v,
        c,
        spec_fid_lx(v.config, k),
        spec_fid_ly(v.config, k),
        spec_fid_lz(v.config, k),
        spec_fid_d(v.config, k),
    )
}

/// Corner j of the quad for face k, local to the chunk.
pub open spec fn spec_face_corner(cfg: Config, k: int, j: int) -> (u32, u32, u32) {
    let off = spec_face_vertex(spec_fid_d(cfg, k), j);
    (
        (spec_fid_lx(cfg, k) + off.0) as u32,
        (spec_fid_ly(cfg, k) + off.1) as u32,
        (spec_fid_lz(cfg, k) + off.2) as u32,
    )
}

pub open spec fn spec_face_positions(cfg: Config, k: int) -> Seq<(u32, u32, u32)> {
    seq![
        spec_face_corner(cfg, k, 0),
        spec_face_corner(cfg, k, 1),
        spec_face_corner(cfg, k, 2),
        spec_face_corner(cfg, k, 3),
    ]
}

pub open spec fn spec_face_normals(cfg: Config, k: int) -> Seq<(i32, i32, i32)> {
    let n = spec_face_normal(spec_fid_d(cfg, k));
    seq![n, n, n, n]
}

/// Atlas tile drawn on face k: the tile of the face's direction for the
/// block stored at the face's voxel.
pub open spec fn spec_face_tex(v: VoxelMap, c: ChunkCoord, k: int) -> u32 {
    spec_texture_id(
        v.spec_cell(
            spec_chunk_base_x(v.config, c) + spec_fid_lx(v.config, k),
            spec_chunk_base_y(v.config, c) + spec_fid_ly(v.config, k),
            spec_chunk_base_z(v.config, c) + spec_fid_lz(v.config, k),
        ),
        spec_fid_d(v.config, k),
    )
}

pub open spec fn spec_face_uvs(v: VoxelMap, c: ChunkCoord, k: int) -> Seq<(u32, u32)> {
    let t = spec_face_tex(v, c, k);
    seq![spec_face_uv(t, 0), spec_face_uv(t, 1), spec_face_uv(t, 2), spec_face_uv(t, 3)]
}

/// The six triangle indices of one quad whose first corner sits at position
/// `base` of the position buffer.
pub open spec fn spec_face_index_seq(base: int) -> Seq<u32> {
    seq![
        (base + 0) as u32,
        (base + 2) as u32,
        (base + 1) as u32,
        (base + 0) as u32,
        (base + 3) as u32,
        (base + 2) as u32,
    ]
}

/// How many of the first n faces are visible.
pub open spec fn spec_visible_count(v: VoxelMap, c: ChunkCoord, n: int) -> int
    decreases n,
{
    if n <= 0 {
        0
    } else {
        spec_visible_count(v, c, n - 1) + if spec_fid_visible(v, c, n - 1) {
            1int
        } else {
            0int
        }
    }
}

/// The position buffer after the first n faces have been considered: the
/// four corners of every visible face, in face order.
pub open spec fn spec_mesh_positions(v: VoxelMap, c: ChunkCoord, n: int) -> Seq<(u32, u32, u32)>
    decreases n,
{
    if n <= 0 {
        Seq::empty()
    } else {
        spec_mesh_positions(v, c, n - 1) + if spec_fid_visible(v, c, n - 1) {
            spec_face_positions(v.config, n - 1)
        } else {
            Seq::empty()
        }
    }
}

pub open spec fn spec_mesh_normals(v: VoxelMap, c: ChunkCoord, n: int) -> Seq<(i32, i32, i32)>
    decreases n,
{
    if n <= 0 {
        Seq::empty()
    } else {
        spec_mesh_normals(v, c, n - 1) + if spec_fid_visible(v, c, n - 1) {
            spec_face_normals(v.config, n - 1)
        } else {
            Seq::empty()
        }
    }
}

pub open spec fn spec_mesh_uvs(v: VoxelMap, c: ChunkCoord, n: int) -> Seq<(u32, u32)>
    decreases n,
{
    if n <= 0 {
        Seq::empty()
    } else {
        spec_mesh_uvs(v, c, n - 1) + if spec_fid_visible(v, c, n - 1) {
            spec_face_uvs(v, c, n - 1)
        } else {
            Seq::empty()
        }
    }
}

pub open spec fn spec_mesh_indices(v: VoxelMap, c: ChunkCoord, n: int) -> Seq<u32>
    decreases n,
{
    if n <= 0 {
        Seq::empty()
    } else {
        spec_mesh_indices(v, c, n - 1) + if spec_fid_visible(v, c, n - 1) {
            spec_face_index_seq(4 * spec_visible_count(v, c, n - 1))
        } else {
            Seq::empty()
        }
    }
}

/// Every buffer grows four (respectively six) entries per visible face.
pub proof fn lemma_mesh_lengths(v: VoxelMap, c: ChunkCoord, n: int)
    requires
        n >= 0,
    ensures
        0 <= spec_visible_count(v, c, n) <= n,
        spec_mesh_positions(v, c, n).len() == 4 * spec_visible_count(v, c, n),
        spec_mesh_normals(v, c, n).len() == 4 * spec_visible_count(v, c, n),
        spec_mesh_uvs(v, c, n).len() == 4 * spec_visible_count(v, c, n),
        spec_mesh_indices(v, c, n).len() == 6 * spec_visible_count(v, c, n),
    decreases n,
{
    if n > 0 {
        lemma_mesh_lengths(v, c, n - 1);
    }
}

/// The four texture coordinates of one face quad, in atlas-tile units.
pub fn add_texture(texture_id: u32) -> (r: ((u32, u32), (u32, u32), (u32, u32), (u32, u32)))
    requires
        texture_id < TEXTURE_ATLAS_SIZE_IN_BLOCKS * TEXTURE_ATLAS_SIZE_IN_BLOCKS,
    ensures
        r.0 == spec_face_uv(texture_id, 0),
        r.1 == spec_face_uv(texture_id, 1),
        r.2 == spec_face_uv(texture_id, 2),
        r.3 == spec_face_uv(texture_id, 3),
{
    let x: u32 = texture_id % TEXTURE_ATLAS_SIZE_IN_BLOCKS;
    let y: u32 = texture_id / TEXTURE_ATLAS_SIZE_IN_BLOCKS;
    ((x, y + 1), (x, y), (x + 1, y), (x + 1, y + 1))
}

fn face_check(d: usize) -> (r: (i32, i32, i32))
    requires
        d < 6,
    ensures
        r.0 == spec_face_check(d as int).0,
        r.1 == spec_face_check(d as int).1,
        r.2 == spec_face_check(d as int).2,
{
    if d == 0 {
        (-1, 0, 0)
    } else if d == 1 {
        (1, 0, 0)
    } else if d == 2 {
        (0, 1, 0)
    } else if d == 3 {
        (0, -1, 0)
    } else if d == 4 {
        (0, 0, 1)
    } else {
        (0, 0, -1)
    }
}

fn face_vertex(d: usize, j: usize) -> (r: (u32, u32, u32))
    requires
        d < 6,
        j < 4,
    ensures
        r.0 == spec_face_vertex(d as int, j as int).0,
        r.1 == spec_face_vertex(d as int, j as int).1,
        r.2 == spec_face_vertex(d as int, j as int).2,
{
    if d == 0 {
        if j == 0 {
            (0, 0, 0)
        } else if j == 1 {
            (0, 1, 0)
        } else if j == 2 {
            (0, 1, 1)
        } else {
            (0, 0, 1)
        }
    } else if d == 1 {
        if j == 0 {
            (1, 0, 1)
        } else if j == 1 {
            (1, 1, 1)
        } else if j == 2 {
            (1, 1, 0)
        } else {
            (1, 0, 0)
        }
    } else if d == 2 {
        if j == 0 {
            (0, 1, 0)
        } else if j == 1 {
            (1, 1, 0)
        } else if j == 2 {
            (1, 1, 1)
        } else {
            (0, 1, 1)
        }
    } else if d == 3 {
        if j == 0 {
            (1, 0, 0)
        } else if j == 1 {
            (0, 0, 0)
        } else if j == 2 {
            (0, 0, 1)
        } else {
            (1, 0, 1)
        }
    } else if d == 4 {
        if j == 0 {
            (0, 0, 1)
        } else if j == 1 {
            (0, 1, 1)
        } else if j == 2 {
            (1, 1, 1)
        } else {
            (1, 0, 1)
        }
    } else {
        if j == 0 {
            (1, 0, 0)
        } else if j == 1 {
            (1, 1, 0)
        } else if j == 2 {
            (0, 1, 0)
        } else {
            (0, 0, 0)
        }
    }
}

fn face_normal(d: usize) -> (r: (i32, i32, i32))
    requires
        d < 6,
    ensures
        r == spec_face_normal(d as int),
{
    if d == 0 {
        (-1, 0, 0)
    } else if d == 1 {
        (1, 0, 0)
    } else if d == 2 {
        (0, 1, 0)
    } else if d == 3 {
        (0, -1, 0)
    } else if d == 4 {
        (0, 0, -1)
    } else {
        (0, 0, 1)
    }
}

/// All the buffers the first n faces produce, at once.
pub open spec fn mesh_matches(m: MeshBuffer, v: VoxelMap, c: ChunkCoord, n: int) -> bool {
    &&& m.positions@ == spec_mesh_positions(v, c, n)
    &&& m.normals@ == spec_mesh_normals(v, c, n)
    &&& m.uvs@ == spec_mesh_uvs(v, c, n)
    &&& m.indices@ == spec_mesh_indices(v, c, n)
}

/// Extract the visible surface of chunk `chunk_pos` from the voxel volume:
/// one quad for every face of a solid voxel whose neighbor on that side is
/// empty or beyond the world's edge, in a fixed deterministic order.
#[verifier::rlimit(100)]
#[verifier::loop_isolation(false)]
pub fn create_mesh(chunk_pos: &ChunkCoord, voxel_map: &VoxelMap) -> (r: MeshBuffer)
    requires
        voxel_map.wf(),
        spec_chunk_in_world(voxel_map.config, *chunk_pos),
    ensures
        mesh_matches(r, *voxel_map, *chunk_pos, spec_total_faces(voxel_map.config)),
{
    let ghost cfg = voxel_map.config;
    let ghost v = *voxel_map;
    let ghost c = *chunk_pos;
    proof {
        crate::voxel_map::lemma_chunk_base_bounds(cfg, c);
        assert(cfg.chunk_size * cfg.chunk_size * cfg.chunk_size * 6 <= 0x6000000)
            by (nonlinear_arith)
            requires
                1 <= cfg.chunk_size <= 256,
        ;
    }
    let cs: usize = voxel_map.config.chunk_size;
    let half: i64 = (voxel_map.config.world_size_in_chunks / 2) as i64;
    let base_x: usize = ((chunk_pos.x as i64 + half) * cs as i64) as usize;
    let base_z: usize = ((chunk_pos.z as i64 + half) * cs as i64) as usize;
    let base_y: usize = (chunk_pos.y as usize) * cs;
    let mut positions: Vec<(u32, u32, u32)> = Vec::new();
    let mut normals: Vec<(i32, i32, i32)> = Vec::new();
    let mut uvs: Vec<(u32, u32)> = Vec::new();
    let mut indices: Vec<u32> = Vec::new();
    let mut index: u32 = 0;
    let mut lx: usize = 0;
    while lx < cs
        invariant
            lx <= cs,
            positions@ == spec_mesh_positions(v, c, spec_fid(cfg, lx as int, 0, 0, 0)),
            normals@ == spec_mesh_normals(v, c, spec_fid(cfg, lx as int, 0, 0, 0)),
            uvs@ == spec_mesh_uvs(v, c, spec_fid(cfg, lx as int, 0, 0, 0)),
            indices@ == spec_mesh_indices(v, c, spec_fid(cfg, lx as int, 0, 0, 0)),
            index == 4 * spec_visible_count(v, c, spec_fid(cfg, lx as int, 0, 0, 0)),
        decreases cs - lx,
    {
        proof {
            assert(spec_fid(cfg, lx as int, 0, 0, 0) <= spec_total_faces(cfg))
                by (nonlinear_arith)
                requires
                    0 <= (lx as int) && (lx as int) <= cfg.chunk_size,
            ;
        }
        let mut ly: usize = 0;
        while ly < cs
            invariant
                ly <= cs,
                positions@ == spec_mesh_positions(v, c, spec_fid(cfg, lx as int, ly as int, 0, 0)),
                normals@ == spec_mesh_normals(v, c, spec_fid(cfg, lx as int, ly as int, 0, 0)),
                uvs@ == spec_mesh_uvs(v, c, spec_fid(cfg, lx as int, ly as int, 0, 0)),
                indices@ == spec_mesh_indices(v, c, spec_fid(cfg, lx as int, ly as int, 0, 0)),
                index == 4 * spec_visible_count(v, c, spec_fid(cfg, lx as int, ly as int, 0, 0)),
            decreases cs - ly,
        {
            let mut lz: usize = 0;
            while lz < cs
                invariant
                    lz <= cs,
                    positions@ == spec_mesh_positions(
                        v,
                        c,
                        spec_fid(cfg, lx as int, ly as int, lz as int, 0),
                    ),
                    normals@ == spec_mesh_normals(
                        v,
                        c,
                        spec_fid(cfg, lx as int, ly as int, lz as int, 0),
                    ),
                    uvs@ == spec_mesh_uvs(
                        v,
                        c,
                        spec_fid(cfg, lx as int, ly as int, lz as int, 0),
                    ),
                    indices@ == spec_mesh_indices(
                        v,
                        c,
                        spec_fid(cfg, lx as int, ly as int, lz as int, 0),
                    ),
                    index == 4 * spec_visible_count(
                        v,
                        c,
                        spec_fid(cfg, lx as int, ly as int, lz as int, 0),
                    ),
                decreases cs - lz,
            {
                let mut d: usize = 0;
                while d < 6
                    invariant
                        d <= 6,
                        positions@ == spec_mesh_positions(
                            v,
                            c,
                            spec_fid(cfg, lx as int, ly as int, lz as int, d as int),
                        ),
                        normals@ == spec_mesh_normals(
                            v,
                            c,
                            spec_fid(cfg, lx as int, ly as int, lz as int, d as int),
                        ),
                        uvs@ == spec_mesh_uvs(
                            v,
                            c,
                            spec_fid(cfg, lx as int, ly as int, lz as int, d as int),
                        ),
                        indices@ == spec_mesh_indices(
                            v,
                            c,
                            spec_fid(cfg, lx as int, ly as int, lz as int, d as int),
                        ),
                        index == 4 * spec_visible_count(
                            v,
                            c,
                            spec_fid(cfg, lx as int, ly as int, lz as int, d as int),
                        ),
                    decreases 6 - d,
                {
                    let ghost k = spec_fid(cfg, lx as int, ly as int, lz as int, d as int);
                    proof {
                        lemma_fid_decode(cfg, lx as int, ly as int, lz as int, d as int);
                        lemma_mesh_lengths(v, c, k);
                        assert(0 <= k && k + 1 <= spec_total_faces(cfg)) by (nonlinear_arith)
                            requires
                                k == spec_fid(cfg, lx as int, ly as int, lz as int, d as int),
                                0 <= (lx as int) && (lx as int) < cfg.chunk_size,
                                0 <= (ly as int) && (ly as int) < cfg.chunk_size,
                                0 <= (lz as int) && (lz as int) < cfg.chunk_size,
                                0 <= (d as int) && (d as int) < 6,
                        ;
                    }
                    let gx: usize = base_x + lx;
                    let gy: usize = base_y + ly;
                    let gz: usize = base_z + lz;
                    let off = face_check(d);
                    let solid_here = check_voxel(gx as i32, gy as i32, gz as i32, voxel_map);
                    let solid_there = check_voxel(
                        gx as i32 + off.0,
                        gy as i32 + off.1,
                        gz as i32 + off.2,
                        voxel_map,
                    );
                    if solid_here && !solid_there {
                        assert(spec_fid_visible(v, c, k));
                        let id = voxel_map.get_voxel(gx, gy, gz);
                        let tex = texture_for_face(id, d);
                        assert(tex == spec_face_tex(v, c, k));
                        let p0 = face_vertex(d, 0);
                        let p1 = face_vertex(d, 1);
                        let p2 = face_vertex(d, 2);
                        let p3 = face_vertex(d, 3);
                        positions.push((lx as u32 + p0.0, ly as u32 + p0.1, lz as u32 + p0.2));
                        positions.push((lx as u32 + p1.0, ly as u32 + p1.1, lz as u32 + p1.2));
                        positions.push((lx as u32 + p2.0, ly as u32 + p2.1, lz as u32 + p2.2));
                        positions.push((lx as u32 + p3.0, ly as u32 + p3.1, lz as u32 + p3.2));
                        let nrm = face_normal(d);
                        normals.push(nrm);
                        normals.push(nrm);
                        normals.push(nrm);
                        normals.push(nrm);
                        let uv = add_texture(tex);
                        uvs.push(uv.0);
                        uvs.push(uv.1);
                        uvs.push(uv.2);
                        uvs.push(uv.3);
                        indices.push(index + 0);
                        indices.push(index + 2);
                        indices.push(index + 1);
                        indices.push(index + 0);
                        indices.push(index + 3);
                        indices.push(index + 2);
                        index = index + 4;
                        proof {
                            assert(positions@ =~= spec_mesh_positions(v, c, k + 1));
                            assert(normals@ =~= spec_mesh_normals(v, c, k + 1));
                            assert(uvs@ =~= spec_mesh_uvs(v, c, k + 1));
                            assert(indices@ =~= spec_mesh_indices(v, c, k + 1));
                        }
                    } else {
                        proof {
                            assert(!spec_fid_visible(v, c, k));
                            assert(positions@ =~= spec_mesh_positions(v, c, k + 1));
                            assert(normals@ =~= spec_mesh_normals(v, c, k + 1));
                            assert(uvs@ =~= spec_mesh_uvs(v, c, k + 1));
                            assert(indices@ =~= spec_mesh_indices(v, c, k + 1));
                        }
                    }
                    d = d + 1;
                }
                lz = lz + 1;
            }
            proof {
                assert(spec_fid(cfg, lx as int, ly as int, cs as int, 0) == spec_fid(
                    cfg,
                    lx as int,
                    ly as int + 1,
                    0,
                    0,
                )) by (nonlinear_arith)
                    requires
                        cs == cfg.chunk_size,
                ;
            }
            ly = ly + 1;
        }
        proof {
            assert(spec_fid(cfg, lx as int, cs as int, 0, 0) == spec_fid(
                cfg,
                lx as int + 1,
                0,
                0,
                0,
            )) by (nonlinear_arith)
                requires
                    cs == cfg.chunk_size,
            ;
        }
        lx = lx + 1;
    }
    proof {
        assert(spec_fid(cfg, cs as int, 0, 0, 0) == spec_total_faces(cfg)) by (nonlinear_arith)
            requires
                cs == cfg.chunk_size,
        ;
    }
    MeshBuffer { positions, normals, uvs, indices }
}

/// Every cell the extractor reads for chunk c lies inside the chunk's
/// generation region (footprint columns, vertical extent), so two volumes
/// that agree there produce the same surface, buffer for buffer.
pub proof fn lemma_mesh_congruent(v1: VoxelMap, v2: VoxelMap, c: ChunkCoord, n: int)
    requires
        v1.config == v2.config,
        v1.config.wf(),
        spec_chunk_in_world(v1.config, c),
        0 <= n <= spec_total_faces(v1.config),
        forall|x: int, y: int, z: int|
            in_column_footprint(v1.config, c, x, z) && y_in_chunk_extent(v1.config, c, y)
                ==> v1.spec_cell(x, y, z) == v2.spec_cell(x, y, z),
    ensures
        spec_visible_count(v1, c, n) == spec_visible_count(v2, c, n),
        spec_mesh_positions(v1, c, n) == spec_mesh_positions(v2, c, n),
        spec_mesh_normals(v1, c, n) == spec_mesh_normals(v2, c, n),
        spec_mesh_uvs(v1, c, n) == spec_mesh_uvs(v2, c, n),
        spec_mesh_indices(v1, c, n) == spec_mesh_indices(v2, c, n),
    decreases n,
{
    if n > 0 {
        lemma_mesh_congruent(v1, v2, c, n - 1);
        let cfg = v1.config;
        let k = n - 1;
        lemma_fid_range(cfg, k);
        lemma_chunk_base_bounds(cfg, c);
        let lx = spec_fid_lx(cfg, k);
        let ly = spec_fid_ly(cfg, k);
        let lz = spec_fid_lz(cfg, k);
        let d = spec_fid_d(cfg, k);
        let gx = spec_chunk_base_x(cfg, c) + lx;
        let gy = spec_chunk_base_y(cfg, c) + ly;
        let gz = spec_chunk_base_z(cfg, c) + lz;
        assert(in_column_footprint(cfg, c, gx, gz) && y_in_chunk_extent(cfg, c, gy));
        assert(v1.spec_cell(gx, gy, gz) == v2.spec_cell(gx, gy, gz));
        let off = spec_face_check(d);
        let nx = gx + off.0;
        let ny = gy + off.1;
        let nz = gz + off.2;
        if spec_in_world(cfg, nx, ny, nz) {
            assert(in_column_footprint(cfg, c, nx, nz) && y_in_chunk_extent(cfg, c, ny));
            assert(v1.spec_cell(nx, ny, nz) == v2.spec_cell(nx, ny, nz));
        }
        assert(spec_fid_visible(v1, c, k) == spec_fid_visible(v2, c, k));
        assert(spec_face_tex(v1, c, k) == spec_face_tex(v2, c, k));
        assert(spec_mesh_positions(v1, c, n) =~= spec_mesh_positions(v2, c, n));
        assert(spec_mesh_normals(v1, c, n) =~= spec_mesh_normals(v2, c, n));
        assert(spec_mesh_uvs(v1, c, n) =~= spec_mesh_uvs(v2, c, n));
        assert(spec_mesh_indices(v1, c, n) =~= spec_mesh_indices(v2, c, n));
    }
}

/// Mesh closedness law, hidden half: a solid voxel whose six neighbors are
/// all solid contributes no face to the surface.
pub proof fn lemma_enclosed_voxel_hidden(v: VoxelMap, c: ChunkCoord, lx: int, ly: int, lz: int)
    requires
        spec_voxel_solid(
            v,
            spec_chunk_base_x(v.config, c) + lx - 1,
            spec_chunk_base_y(v.config, c) + ly,
            spec_chunk_base_z(v.config, c) + lz,
        ),
        spec_voxel_solid(
            v,
            spec_chunk_base_x(v.config, c) + lx + 1,
            spec_chunk_base_y(v.config, c) + ly,
            spec_chunk_base_z(v.config, c) + lz,
        ),
        spec_voxel_solid(
            v,
            spec_chunk_base_x(v.config, c) + lx,
            spec_chunk_base_y(v.config, c) + ly - 1,
            spec_chunk_base_z(v.config, c) + lz,
        ),
        spec_voxel_solid(
            v,
            spec_chunk_base_x(v.config, c) + lx,
            spec_chunk_base_y(v.config, c) + ly + 1,
            spec_chunk_base_z(v.config, c) + lz,
        ),
        spec_voxel_solid(
            v,
            spec_chunk_base_x(v.config, c) + lx,
            spec_chunk_base_y(v.config, c) + ly,
            spec_chunk_base_z(v.config, c) + lz - 1,
        ),
        spec_voxel_solid(
            v,
            spec_chunk_base_x(v.config, c) + lx,
            spec_chunk_base_y(v.config, c) + ly,
            spec_chunk_base_z(v.config, c) + lz + 1,
        ),
    ensures
        forall|d: int| 0 <= d < 6 ==> !spec_face_visible(v, c, lx, ly, lz, d),
{
}

/// Mesh closedness law, exposed half: a solid voxel none of whose six
/// neighbor cells holds a solid block shows all six of its faces.
pub proof fn lemma_isolated_voxel_exposed(v: VoxelMap, c: ChunkCoord, lx: int, ly: int, lz: int)
    requires
        spec_voxel_solid(
            v,
            spec_chunk_base_x(v.config, c) + lx,
            spec_chunk_base_y(v.config, c) + ly,
            spec_chunk_base_z(v.config, c) + lz,
        ),
        !spec_voxel_solid(
            v,
            spec_chunk_base_x(v.config, c) + lx - 1,
            spec_chunk_base_y(v.config, c) + ly,
            spec_chunk_base_z(v.config, c) + lz,
        ),
        !spec_voxel_solid(
            v,
            spec_chunk_base_x(v.config, c) + lx + 1,
            spec_chunk_base_y(v.config, c) + ly,
            spec_chunk_base_z(v.config, c) + lz,
        ),
        !spec_voxel_solid(
            v,
            spec_chunk_base_x(v.config, c) + lx,
            spec_chunk_base_y(v.config, c) + ly - 1,
            spec_chunk_base_z(v.config, c) + lz,
        ),
        !spec_voxel_solid(
            v,
            spec_chunk_base_x(v.config, c) + lx,
            spec_chunk_base_y(v.config, c) + ly + 1,
            spec_chunk_base_z(v.config, c) + lz,
        ),
        !spec_voxel_solid(
            v,
            spec_chunk_base_x(v.config, c) + lx,
            spec_chunk_base_y(v.config, c) + ly,
            spec_chunk_base_z(v.config, c) + lz - 1,
        ),
        !spec_voxel_solid(
            v,
            spec_chunk_base_x(v.config, c) + lx,
            spec_chunk_base_y(v.config, c) + ly,
            spec_chunk_base_z(v.config, c) + lz + 1,
        ),
    ensures
        forall|d: int| 0 <= d < 6 ==> spec_face_visible(v, c, lx, ly, lz, d),
{
    assert forall|d: int| 0 <= d < 6 implies spec_face_visible(v, c, lx, ly, lz, d) by {
        if d == 0 {
        } else if d == 1 {
        } else if d == 2 {
        } else if d == 3 {
        } else if d == 4 {
        } else {
        }
    }
}

/// World-edge capping law: a solid voxel whose neighbor cell on side d lies
/// beyond the world's edge shows its face on that side, even though no
/// neighbor cell exists there.
pub proof fn lemma_world_edge_capped(
    v: VoxelMap,
    c: ChunkCoord,
    lx: int,
    ly: int,
    lz: int,
    d: int,
)
    requires
        0 <= d < 6,
        spec_voxel_solid(
            v,
            spec_chunk_base_x(v.config, c) + lx,
            spec_chunk_base_y(v.config, c) + ly,
            spec_chunk_base_z(v.config, c) + lz,
        ),
        !spec_in_world(
            v.config,
            spec_chunk_base_x(v.config, c) + lx + spec_face_check(d).0,
            spec_chunk_base_y(v.config, c) + ly + spec_face_check(d).1,
            spec_chunk_base_z(v.config, c) + lz + spec_face_check(d).2,
        ),
    ensures
        spec_face_visible(v, c, lx, ly, lz, d),
{
}

/// Faces none of which is visible contribute nothing: over such a span the
/// buffers do not grow.
pub proof fn lemma_invisible_span(v: VoxelMap, c: ChunkCoord, n0: int, n1: int)
    requires
        0 <= n0 <= n1,
        forall|k: int| n0 <= k < n1 ==> !spec_fid_visible(v, c, k),
    ensures
        spec_visible_count(v, c, n1) == spec_visible_count(v, c, n0),
        spec_mesh_positions(v, c, n1) == spec_mesh_positions(v, c, n0),
        spec_mesh_normals(v, c, n1) == spec_mesh_normals(v, c, n0),
        spec_mesh_uvs(v, c, n1) == spec_mesh_uvs(v, c, n0),
        spec_mesh_indices(v, c, n1) == spec_mesh_indices(v, c, n0),
    decreases n1 - n0,
{
    if n1 > n0 {
        lemma_invisible_span(v, c, n0, n1 - 1);
        assert(spec_mesh_positions(v, c, n1) =~= spec_mesh_positions(v, c, n1 - 1));
        assert(spec_mesh_normals(v, c, n1) =~= spec_mesh_normals(v, c, n1 - 1));
        assert(spec_mesh_uvs(v, c, n1) =~= spec_mesh_uvs(v, c, n1 - 1));
        assert(spec_mesh_indices(v, c, n1) =~= spec_mesh_indices(v, c, n1 - 1));
    }
}

/// Faces all of which are visible each contribute one quad: over such a
/// span the visible count grows by the span's length.
pub proof fn lemma_visible_span_count(v: VoxelMap, c: ChunkCoord, n0: int, n1: int)
    requires
        0 <= n0 <= n1,
        forall|k: int| n0 <= k < n1 ==> spec_fid_visible(v, c, k),
    ensures
        spec_visible_count(v, c, n1) == spec_visible_count(v, c, n0) + (n1 - n0),
    decreases n1 - n0,
{
    if n1 > n0 {
        lemma_visible_span_count(v, c, n0, n1 - 1);
    }
}

/// Mesh closedness law at the buffer level: across the six face slots of a
/// voxel whose neighbors are all solid, none of the output buffers grows.
pub proof fn lemma_enclosed_voxel_adds_nothing(
    v: VoxelMap,
    c: ChunkCoord,
    lx: int,
    ly: int,
    lz: int,
)
    requires
        v.config.wf(),
        0 <= lx < v.config.chunk_size,
        0 <= ly < v.config.chunk_size,
        0 <= lz < v.config.chunk_size,
        forall|d: int| 0 <= d < 6 ==> !spec_face_visible(v, c, lx, ly, lz, d),
    ensures
        spec_mesh_positions(v, c, spec_fid(v.config, lx, ly, lz, 6)) == spec_mesh_positions(
            v,
            c,
            spec_fid(v.config, lx, ly, lz, 0),
        ),
        spec_mesh_indices(v, c, spec_fid(v.config, lx, ly, lz, 6)) == spec_mesh_indices(
            v,
            c,
            spec_fid(v.config, lx, ly, lz, 0),
        ),
        spec_visible_count(v, c, spec_fid(v.config, lx, ly, lz, 6)) == spec_visible_count(
            v,
            c,
            spec_fid(v.config, lx, ly, lz, 0),
        ),
{
    let cfg = v.config;
    let k0 = spec_fid(cfg, lx, ly, lz, 0);
    assert forall|k: int| k0 <= k < k0 + 6 implies !spec_fid_visible(v, c, k) by {
        let d = k - k0;
        assert(k == spec_fid(cfg, lx, ly, lz, d));
        lemma_fid_decode(cfg, lx, ly, lz, d);
    }
    assert(0 <= ((lx * cfg.chunk_size + ly) * cfg.chunk_size + lz) * 6) by (nonlinear_arith)
        requires
            0 <= lx,
            0 <= ly,
            0 <= lz,
            0 <= cfg.chunk_size,
    ;
    assert(0 <= k0);
    lemma_invisible_span(v, c, k0, k0 + 6);
    assert(spec_fid(cfg, lx, ly, lz, 6) == k0 + 6);
}

/// Mesh closedness law at the buffer level, exposed half: across the six
/// face slots of a voxel all of whose faces are visible, exactly six quads
/// are emitted: 24 vertices and 12 triangles.
pub proof fn lemma_isolated_voxel_adds_six_faces(
    v: VoxelMap,
    c: ChunkCoord,
    lx: int,
    ly: int,
    lz: int,
)
    requires
        v.config.wf(),
        0 <= lx < v.config.chunk_size,
        0 <= ly < v.config.chunk_size,
        0 <= lz < v.config.chunk_size,
        forall|d: int| 0 <= d < 6 ==> spec_face_visible(v, c, lx, ly, lz, d),
    ensures
        spec_visible_count(v, c, spec_fid(v.config, lx, ly, lz, 6)) == spec_visible_count(
            v,
            c,
            spec_fid(v.config, lx, ly, lz, 0),
        ) + 6,
        spec_mesh_positions(v, c, spec_fid(v.config, lx, ly, lz, 6)).len()
            == spec_mesh_positions(v, c, spec_fid(v.config, lx, ly, lz, 0)).len() + 24,
        spec_mesh_indices(v, c, spec_fid(v.config, lx, ly, lz, 6)).len() == spec_mesh_indices(
            v,
            c,
            spec_fid(v.config, lx, ly, lz, 0),
        ).len() + 36,
{
    let cfg = v.config;
    let k0 = spec_fid(cfg, lx, ly, lz, 0);
    assert forall|k: int| k0 <= k < k0 + 6 implies spec_fid_visible(v, c, k) by {
        let d = k - k0;
        assert(k == spec_fid(cfg, lx, ly, lz, d));
        lemma_fid_decode(cfg, lx, ly, lz, d);
    }
    assert(0 <= ((lx * cfg.chunk_size + ly) * cfg.chunk_size + lz) * 6) by (nonlinear_arith)
        requires
            0 <= lx,
            0 <= ly,
            0 <= lz,
            0 <= cfg.chunk_size,
    ;
    assert(0 <= k0);
    lemma_visible_span_count(v, c, k0, k0 + 6);
    lemma_mesh_lengths(v, c, k0);
    lemma_mesh_lengths(v, c, k0 + 6);
    assert(spec_fid(cfg, lx, ly, lz, 6) == k0 + 6);
}

} // verus!
