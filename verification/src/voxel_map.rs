use vstd::prelude::*;

use crate::block_types::spec_block_is_solid;
use crate::voxel_data::Config;
use crate::world::{spec_chunk_in_world, ChunkCoord};

verus! {

/// Terrain height thresholds, one per world column (x, z), in blocks.
/// The host samples its noise source into this grid once; everything the
/// generator does is a deterministic function of it.
pub struct HeightField {
    pub heights: Vec<u16>,
    pub size: usize,
}

impl HeightField {
    pub open spec fn wf(self) -> bool {
        &&& self.heights@.len() == self.size * self.size
        &&& self.size <= 0x10000
        &&& self.size * self.size <= 0x7fff_ffff
    }

    /// Threshold of column (x, z).
    pub open spec fn spec_height_at(self, x: int, z: int) -> int {
        self.heights@[x * self.size + z] as int
    }

    /// A field of `size` x `size` columns, all at threshold `h`.
    pub fn new(size: usize, h: u16) -> (r: HeightField)
        requires
            size <= 0x10000,
            size * size <= 0x7fff_ffff,
        ensures
            r.wf(),
            r.size == size,
            forall|x: int, z: int|
                0 <= x < size && 0 <= z < size ==> r.spec_height_at(x, z) == h,
    {
        let n: usize = size * size;
        let mut heights: Vec<u16> = Vec::new();
        let mut i: usize = 0;
        while i < n
            invariant
                i <= n,
                heights@.len() == i,
                forall|j: int| 0 <= j < i ==> heights@[j] == h,
            decreases n - i,
        {
            heights.push(h);
            i = i + 1;
        }
        let r = HeightField { heights, size };
        proof {
            assert forall|x: int, z: int|
                0 <= x < size && 0 <= z < size implies r.spec_height_at(x, z) == h by {
                lemma_column_index_bounds(size as int, x, z);
            }
        }
        r
    }

    /// Overwrite the threshold of one column.
    pub fn set(&mut self, x: usize, z: usize, h: u16)
        requires
            old(self).wf(),
            x < old(self).size,
            z < old(self).size,
        ensures
            final(self).wf(),
            final(self).size == old(self).size,
            final(self).spec_height_at(x as int, z as int) == h,
            forall|x2: int, z2: int|
                0 <= x2 < old(self).size && 0 <= z2 < old(self).size && !(x2 == x && z2 == z)
                    ==> final(self).spec_height_at(x2, z2) == old(self).spec_height_at(x2, z2),
    {
        proof {
            lemma_column_index_bounds(self.size as int, x as int, z as int);
        }
        let idx: usize = x * self.size + z;
        self.heights.set(idx, h);
        proof {
            assert forall|x2: int, z2: int|
                0 <= x2 < self.size && 0 <= z2 < self.size && !(x2 == x && z2 == z)
                    implies final(self).spec_height_at(x2, z2) == old(self).spec_height_at(
                    x2,
                    z2,
                ) by {
                lemma_column_index_bounds(self.size as int, x2, z2);
                if x2 * self.size + z2 == x * self.size + z {
                    lemma_column_index_injective(self.size as int, x as int, z as int, x2, z2);
                }
            }
        }
    }

    /// Threshold of column (x, z), as the executable sees it.
    pub fn height_at(&self, x: usize, z: usize) -> (r: u16)
        requires
            self.wf(),
            x < self.size,
            z < self.size,
        ensures
            r as int == self.spec_height_at(x as int, z as int),
    {
        proof {
            lemma_column_index_bounds(self.size as int, x as int, z as int);
        }
        self.heights[x * self.size + z]
    }
}

proof fn lemma_column_index_bounds(size: int, x: int, z: int)
    requires
        0 <= x < size,
        0 <= z < size,
    ensures
        0 <= x * size + z < size * size,
{
    assert(0 <= x * size + z < size * size) by (nonlinear_arith)
        requires
            0 <= x < size,
            0 <= z < size,
    ;
}

proof fn lemma_column_index_injective(size: int, x1: int, z1: int, x2: int, z2: int)
    requires
        0 <= x1 < size,
        0 <= z1 < size,
        0 <= x2 < size,
        0 <= z2 < size,
        x1 * size + z1 == x2 * size + z2,
    ensures
        x1 == x2 && z1 == z2,
{
    assert(x1 == x2 && z1 == z2) by (nonlinear_arith)
        requires
            0 <= x1 < size,
            0 <= z1 < size,
            0 <= x2 < size,
            0 <= z2 < size,
            x1 * size + z1 == x2 * size + z2,
    ;
}

/// Flat index of world cell (x, y, z) in the dense voxel array: x strides
/// over whole (height x size) slabs, y over rows of length size.
pub open spec fn spec_cell_index(cfg: Config, x: int, y: int, z: int) -> int {
    (x * cfg.spec_world_height() + y) * cfg.spec_world_size() + z
}

/// Cell (x, y, z) lies inside the world's block grid.
pub open spec fn spec_in_world(cfg: Config, x: int, y: int, z: int) -> bool {
    &&& 0 <= x < cfg.spec_world_size()
    &&& 0 <= y < cfg.spec_world_height()
    &&& 0 <= z < cfg.spec_world_size()
}

pub proof fn lemma_cell_index_bounds(cfg: Config, x: int, y: int, z: int)
    requires
        cfg.wf(),
        spec_in_world(cfg, x, y, z),
    ensures
        0 <= spec_cell_index(cfg, x, y, z) < cfg.spec_world_size() * cfg.spec_world_size()
            * cfg.spec_world_height(),
{
    let ws = cfg.spec_world_size();
    let wh = cfg.spec_world_height();
    assert(0 <= (x * wh + y) * ws + z < ws * ws * wh) by (nonlinear_arith)
        requires
            0 <= x < ws,
            0 <= y < wh,
            0 <= z < ws,
    ;
}

pub proof fn lemma_cell_index_injective(
    cfg: Config,
    x1: int,
    y1: int,
    z1: int,
    x2: int,
    y2: int,
    z2: int,
)
    requires
        cfg.wf(),
        spec_in_world(cfg, x1, y1, z1),
        spec_in_world(cfg, x2, y2, z2),
        spec_cell_index(cfg, x1, y1, z1) == spec_cell_index(cfg, x2, y2, z2),
    ensures
        x1 == x2 && y1 == y2 && z1 == z2,
{
    let ws = cfg.spec_world_size();
    let wh = cfg.spec_world_height();
    assert(x1 * wh + y1 == x2 * wh + y2 && z1 == z2) by (nonlinear_arith)
        requires
            0 <= y1 < wh,
            0 <= y2 < wh,
            0 <= z1 < ws,
            0 <= z2 < ws,
            (x1 * wh + y1) * ws + z1 == (x2 * wh + y2) * ws + z2,
    ;
    assert(x1 == x2 && y1 == y2) by (nonlinear_arith)
        requires
            0 <= y1 < wh,
            0 <= y2 < wh,
            x1 * wh + y1 == x2 * wh + y2,
    ;
}

/// The dense voxel volume backing the whole addressable world. One shared
/// grid of block ids, so neighboring chunks see consistent data at their
/// shared boundaries.
pub struct VoxelMap {
    pub voxels: Vec<u8>,
    pub config: Config,
}

impl VoxelMap {
    pub open spec fn wf(self) -> bool {
        &&& self.config.wf()
        &&& self.voxels@.len() == self.config.spec_world_size() * self.config.spec_world_size()
            * self.config.spec_world_height()
    }

    /// Block id stored at world cell (x, y, z).
    pub open spec fn spec_cell(self, x: int, y: int, z: int) -> u8 {
        self.voxels@[spec_cell_index(self.config, x, y, z)]
    }

    /// A fresh volume: every cell is air.
    pub fn new(config: Config) -> (r: VoxelMap)
        requires
            config.wf(),
        ensures
            r.wf(),
            r.config == config,
            forall|x: int, y: int, z: int|
                spec_in_world(config, x, y, z) ==> r.spec_cell(x, y, z) == 0,
    {
        let ws: usize = config.world_size();
        let wh: usize = config.world_height();
        proof {
            assert(ws * ws <= ws * ws * wh) by (nonlinear_arith)
                requires
                    1 <= wh,
                    0 <= ws,
            ;
            assert((ws * ws) * wh == ws * ws * wh);
        }
        let n: usize = ws * ws * wh;
        let mut voxels: Vec<u8> = Vec::new();
        let mut i: usize = 0;
        while i < n
            invariant
                i <= n,
                voxels@.len() == i,
                forall|j: int| 0 <= j < i ==> voxels@[j] == 0,
            decreases n - i,
        {
            voxels.push(0);
            i = i + 1;
        }
        let r = VoxelMap { voxels, config };
        proof {
            assert forall|x: int, y: int, z: int|
                spec_in_world(config, x, y, z) implies r.spec_cell(x, y, z) == 0 by {
                lemma_cell_index_bounds(config, x, y, z);
            }
        }
        r
    }

    /// Block id at (x, y, z), as the executable sees it.
    pub fn get_voxel(&self, x: usize, y: usize, z: usize) -> (r: u8)
        requires
            self.wf(),
            spec_in_world(self.config, x as int, y as int, z as int),
        ensures
            r == self.spec_cell(x as int, y as int, z as int),
    {
        proof {
            lemma_cell_index_bounds(self.config, x as int, y as int, z as int);
            lemma_cell_index_fits(self.config, x as int, y as int, z as int);
        }
        let wh: usize = self.config.world_height();
        let ws: usize = self.config.world_size();
        let idx: usize = (x * wh + y) * ws + z;
        self.voxels[idx]
    }

    /// Store block id `v` at (x, y, z), leaving every other cell unchanged.
    fn set_voxel(&mut self, x: usize, y: usize, z: usize, v: u8)
        requires
            old(self).wf(),
            spec_in_world(old(self).config, x as int, y as int, z as int),
        ensures
            final(self).wf(),
            final(self).config == old(self).config,
            final(self).spec_cell(x as int, y as int, z as int) == v,
            forall|x2: int, y2: int, z2: int|
                spec_in_world(old(self).config, x2, y2, z2) && !(x2 == x && y2 == y && z2 == z)
                    ==> final(self).spec_cell(x2, y2, z2) == old(self).spec_cell(x2, y2, z2),
    {
        proof {
            lemma_cell_index_bounds(self.config, x as int, y as int, z as int);
            lemma_cell_index_fits(self.config, x as int, y as int, z as int);
        }
        let wh: usize = self.config.world_height();
        let ws: usize = self.config.world_size();
        let idx: usize = (x * wh + y) * ws + z;
        self.voxels.set(idx, v);
        proof {
            assert forall|x2: int, y2: int, z2: int|
                spec_in_world(old(self).config, x2, y2, z2) && !(x2 == x && y2 == y && z2 == z)
                    implies final(self).spec_cell(x2, y2, z2) == old(self).spec_cell(
                    x2,
                    y2,
                    z2,
                ) by {
                lemma_cell_index_bounds(self.config, x2, y2, z2);
                if spec_cell_index(self.config, x2, y2, z2) == spec_cell_index(
                    self.config,
                    x as int,
                    y as int,
                    z as int,
                ) {
                    lemma_cell_index_injective(
                        self.config,
                        x2,
                        y2,
                        z2,
                        x as int,
                        y as int,
                        z as int,
                    );
                }
            }
        }
    }
}

/// World x of the chunk's westmost column proper (its halo starts one
/// west): the chunk-space storage shift of half the world, scaled to blocks.
pub open spec fn spec_chunk_base_x(cfg: Config, c: ChunkCoord) -> int {
    (c.x + cfg.world_size_in_chunks / 2) * cfg.chunk_size
}

pub open spec fn spec_chunk_base_z(cfg: Config, c: ChunkCoord) -> int {
    (c.z + cfg.world_size_in_chunks / 2) * cfg.chunk_size
}

pub open spec fn spec_chunk_base_y(cfg: Config, c: ChunkCoord) -> int {
    c.y * cfg.chunk_size
}

/// A chunk that lies in the world occupies block coordinates that lie in the
/// world as well.
pub proof fn lemma_chunk_base_bounds(cfg: Config, c: ChunkCoord)
    requires
        cfg.wf(),
        spec_chunk_in_world(cfg, c),
    ensures
        0 <= spec_chunk_base_x(cfg, c),
        spec_chunk_base_x(cfg, c) + cfg.chunk_size <= cfg.spec_world_size(),
        0 <= spec_chunk_base_z(cfg, c),
        spec_chunk_base_z(cfg, c) + cfg.chunk_size <= cfg.spec_world_size(),
        0 <= spec_chunk_base_y(cfg, c),
        spec_chunk_base_y(cfg, c) + cfg.chunk_size <= cfg.spec_world_height(),
{
    let cs = cfg.chunk_size as int;
    let wsc = cfg.world_size_in_chunks as int;
    let whc = cfg.world_height_in_chunks as int;
    let k = wsc / 2;
    assert(0 <= (c.x + k) * cs && (c.x + k) * cs + cs <= wsc * cs) by (nonlinear_arith)
        requires
            0 <= c.x + k <= wsc - 1,
            1 <= cs,
    ;
    assert(0 <= (c.z + k) * cs && (c.z + k) * cs + cs <= wsc * cs) by (nonlinear_arith)
        requires
            0 <= c.z + k <= wsc - 1,
            1 <= cs,
    ;
    assert(0 <= c.y * cs && c.y * cs + cs <= whc * cs) by (nonlinear_arith)
        requires
            0 <= c.y <= whc - 1,
            1 <= cs,
    ;
}

/// Column (x, z) is touched when chunk `c` is generated: the chunk's own
/// footprint plus a one-column halo in x and z, clipped to the world.
pub open spec fn in_column_footprint(cfg: Config, c: ChunkCoord, x: int, z: int) -> bool {
    &&& spec_chunk_base_x(cfg, c) - 1 <= x <= spec_chunk_base_x(cfg, c) + cfg.chunk_size
    &&& spec_chunk_base_z(cfg, c) - 1 <= z <= spec_chunk_base_z(cfg, c) + cfg.chunk_size
    &&& 0 <= x < cfg.spec_world_size()
    &&& 0 <= z < cfg.spec_world_size()
}

/// Row y is touched when chunk `c` is generated: the chunk's own vertical
/// extent plus a one-row halo, clipped to the world.
pub open spec fn y_in_chunk_extent(cfg: Config, c: ChunkCoord, y: int) -> bool {
    &&& spec_chunk_base_y(cfg, c) - 1 <= y <= spec_chunk_base_y(cfg, c) + cfg.chunk_size
    &&& 0 <= y < cfg.spec_world_height()
}

/// The block the generator writes at height y in a column whose terrain
/// threshold is t, for y at or below the threshold: grass at the surface,
/// bedrock at the world floor, dirt one layer under the surface, else stone.
pub open spec fn spec_terrain_block(y: int, t: int) -> u8 {
    if y == t {
        3
    } else if y == 0 {
        2
    } else if t - y == 1 {
        4
    } else {
        1
    }
}

/// What a touched cell holds after generation: terrain at or below the
/// column's threshold, and whatever it held before above it.
pub open spec fn spec_generated_cell(prev: u8, y: int, t: int) -> u8 {
    if y <= t {
        spec_terrain_block(y, t)
    } else {
        prev
    }
}

/// Relation between the volume before and after generating chunk `c` from
/// the height field `hf`: touched cells follow the terrain formula, every
/// other cell is untouched.
pub open spec fn populate_rel(
    pre: VoxelMap,
    post: VoxelMap,
    c: ChunkCoord,
    hf: HeightField,
) -> bool {
    &&& post.config == pre.config
    &&& post.voxels@.len() == pre.voxels@.len()
    &&& forall|x: int, y: int, z: int|
        #![trigger post.spec_cell(x, y, z)]
        #![trigger pre.spec_cell(x, y, z)]
        spec_in_world(pre.config, x, y, z) ==> post.spec_cell(x, y, z) == (
        if in_column_footprint(pre.config, c, x, z) && y_in_chunk_extent(pre.config, c, y) {
            spec_generated_cell(pre.spec_cell(x, y, z), y, hf.spec_height_at(x, z))
        } else {
            pre.spec_cell(x, y, z)
        })
}

/// Every cell of chunk `c` proper (halo excluded) holds a solid block.
pub open spec fn spec_chunk_full(v: VoxelMap, c: ChunkCoord) -> bool {
    forall|x: int, y: int, z: int|
        spec_chunk_base_x(v.config, c) <= x < spec_chunk_base_x(v.config, c) + v.config.chunk_size
            && spec_chunk_base_y(v.config, c) <= y < spec_chunk_base_y(v.config, c)
            + v.config.chunk_size && spec_chunk_base_z(v.config, c) <= z < spec_chunk_base_z(
            v.config,
            c,
        ) + v.config.chunk_size ==> spec_block_is_solid(#[trigger] v.spec_cell(x, y, z))
}

/// Two volumes that agree on every cell of chunk c's generation region
/// agree on whether the chunk is fully solid: the chunk proper lies inside
/// its own footprint and vertical extent.
pub proof fn lemma_chunk_full_congruent(v1: VoxelMap, v2: VoxelMap, c: ChunkCoord)
    requires
        v1.config == v2.config,
        v1.config.wf(),
        spec_chunk_in_world(v1.config, c),
        forall|x: int, y: int, z: int|
            in_column_footprint(v1.config, c, x, z) && y_in_chunk_extent(v1.config, c, y)
                ==> v1.spec_cell(x, y, z) == v2.spec_cell(x, y, z),
    ensures
        spec_chunk_full(v1, c) == spec_chunk_full(v2, c),
{
    let cfg = v1.config;
    lemma_chunk_base_bounds(cfg, c);
    assert forall|x: int, y: int, z: int|
        spec_chunk_base_x(cfg, c) <= x < spec_chunk_base_x(cfg, c) + cfg.chunk_size
            && spec_chunk_base_y(cfg, c) <= y < spec_chunk_base_y(cfg, c) + cfg.chunk_size
            && spec_chunk_base_z(cfg, c) <= z < spec_chunk_base_z(cfg, c)
            + cfg.chunk_size implies v1.spec_cell(x, y, z) == v2.spec_cell(x, y, z) by {
        assert(in_column_footprint(cfg, c, x, z) && y_in_chunk_extent(cfg, c, y));
    }
    if spec_chunk_full(v1, c) {
        assert forall|x: int, y: int, z: int|
            spec_chunk_base_x(cfg, c) <= x < spec_chunk_base_x(cfg, c) + cfg.chunk_size
                && spec_chunk_base_y(cfg, c) <= y < spec_chunk_base_y(cfg, c) + cfg.chunk_size
                && spec_chunk_base_z(cfg, c) <= z < spec_chunk_base_z(cfg, c)
                + cfg.chunk_size implies spec_block_is_solid(#[trigger] v2.spec_cell(x, y, z)) by {
            assert(spec_block_is_solid(v1.spec_cell(x, y, z)));
        }
    }
    if spec_chunk_full(v2, c) {
        assert forall|x: int, y: int, z: int|
            spec_chunk_base_x(cfg, c) <= x < spec_chunk_base_x(cfg, c) + cfg.chunk_size
                && spec_chunk_base_y(cfg, c) <= y < spec_chunk_base_y(cfg, c) + cfg.chunk_size
                && spec_chunk_base_z(cfg, c) <= z < spec_chunk_base_z(cfg, c)
                + cfg.chunk_size implies spec_block_is_solid(#[trigger] v1.spec_cell(x, y, z)) by {
            assert(spec_block_is_solid(v2.spec_cell(x, y, z)));
        }
    }
}

/// Intermediate shape of the volume while generation sweeps the footprint:
/// all touched columns strictly west of column x = bx are filled, as are
/// those at x == bx strictly north of z = bz; the rest is untouched.
pub open spec fn filled_through(
    pre: VoxelMap,
    post: VoxelMap,
    c: ChunkCoord,
    hf: HeightField,
    bx: int,
    bz: int,
) -> bool {
    &&& post.config == pre.config
    &&& post.voxels@.len() == pre.voxels@.len()
    &&& forall|x: int, y: int, z: int|
        #![trigger post.spec_cell(x, y, z)]
        #![trigger pre.spec_cell(x, y, z)]
        spec_in_world(pre.config, x, y, z) ==> post.spec_cell(x, y, z) == (
        if in_column_footprint(pre.config, c, x, z) && y_in_chunk_extent(pre.config, c, y) && (x
            < bx || (x == bx && z < bz)) {
            spec_generated_cell(pre.spec_cell(x, y, z), y, hf.spec_height_at(x, z))
        } else {
            pre.spec_cell(x, y, z)
        })
}

/// Executable twin of `spec_terrain_block`.
fn terrain_block(y: usize, t: usize) -> (r: u8)
    requires
        y <= t,
    ensures
        r == spec_terrain_block(y as int, t as int),
{
    if y == t {
        3
    } else if y == 0 {
        2
    } else if t - y == 1 {
        4
    } else {
        1
    }
}

impl VoxelMap {
    /// Write the terrain of one column into rows [y_lo, y_hi), leaving every
    /// cell outside that span untouched.
    #[verifier::loop_isolation(false)]
    fn fill_column(&mut self, gx: usize, gz: usize, y_lo: usize, y_hi: usize, t: usize)
        requires
            old(self).wf(),
            gx < old(self).config.spec_world_size(),
            gz < old(self).config.spec_world_size(),
            y_hi <= old(self).config.spec_world_height(),
        ensures
            final(self).wf(),
            final(self).config == old(self).config,
            final(self).voxels@.len() == old(self).voxels@.len(),
            forall|x: int, y: int, z: int|
                #![trigger final(self).spec_cell(x, y, z)]
                #![trigger old(self).spec_cell(x, y, z)]
                spec_in_world(old(self).config, x, y, z) ==> final(self).spec_cell(x, y, z) == (
                if x == gx && z == gz && y_lo <= y < y_hi {
                    spec_generated_cell(old(self).spec_cell(x, y, z), y, t as int)
                } else {
                    old(self).spec_cell(x, y, z)
                }),
    {
        let mut y: usize = y_lo;
        while y < y_hi
            invariant
                y_lo <= y,
                y <= y_hi || y == y_lo,
                self.wf(),
                self.config == old(self).config,
                self.voxels@.len() == old(self).voxels@.len(),
                forall|x2: int, y2: int, z2: int|
                    #![trigger self.spec_cell(x2, y2, z2)]
                    #![trigger old(self).spec_cell(x2, y2, z2)]
                    spec_in_world(old(self).config, x2, y2, z2) ==> self.spec_cell(x2, y2, z2)
                        == (if x2 == gx && z2 == gz && y_lo <= y2 < y {
                        spec_generated_cell(old(self).spec_cell(x2, y2, z2), y2, t as int)
                    } else {
                        old(self).spec_cell(x2, y2, z2)
                    }),
            decreases y_hi - y,
        {
            if y <= t {
                let v = terrain_block(y, t);
                self.set_voxel(gx, y, gz, v);
            }
            y = y + 1;
        }
    }

    /// Generate the terrain of chunk `chunk_pos` into the shared volume:
    /// for every column of the chunk's footprint (one-column halo included),
    /// fill the chunk's vertical extent from the column's height threshold.
    /// Returns whether every cell of the chunk proper came out solid, the
    /// caller's fast path for skipping the display of buried chunks.
    #[verifier::loop_isolation(false)]
    pub fn populate_voxel_map(&mut self, chunk_pos: ChunkCoord, heights: &HeightField) -> (is_full:
        bool)
        requires
            old(self).wf(),
            spec_chunk_in_world(old(self).config, chunk_pos),
            heights.wf(),
            heights.size == old(self).config.spec_world_size(),
        ensures
            final(self).wf(),
            final(self).config == old(self).config,
            populate_rel(*old(self), *final(self), chunk_pos, *heights),
            is_full == spec_chunk_full(*final(self), chunk_pos),
    {
        let ghost cfg = self.config;
        proof {
            lemma_chunk_base_bounds(cfg, chunk_pos);
        }
        let cs: usize = self.config.chunk_size;
        let ws: usize = self.config.world_size();
        let wh: usize = self.config.world_height();
        let half: i64 = (self.config.world_size_in_chunks / 2) as i64;
        let base_x: i64 = (chunk_pos.x as i64 + half) * cs as i64;
        let base_z: i64 = (chunk_pos.z as i64 + half) * cs as i64;
        let base_y: usize = (chunk_pos.y as usize) * cs;
        let y_lo: usize = if base_y == 0 {
            0
        } else {
            base_y - 1
        };
        let y_hi: usize = if base_y + cs + 1 > wh {
            wh
        } else {
            base_y + cs + 1
        };
        assert(forall|y: int|
            y_in_chunk_extent(cfg, chunk_pos, y) <==> y_lo <= y < y_hi);
        let mut dx: usize = 0;
        while dx < cs + 2
            invariant
                dx <= cs + 2,
                self.wf(),
                self.config == cfg,
                filled_through(*old(self), *self, chunk_pos, *heights, base_x - 1 + dx, base_z - 1),
            decreases cs + 2 - dx,
        {
            let gxi: i64 = base_x - 1 + dx as i64;
            if 0 <= gxi && gxi < ws as i64 {
                let gx: usize = gxi as usize;
                let mut dz: usize = 0;
                while dz < cs + 2
                    invariant
                        dz <= cs + 2,
                        self.wf(),
                        self.config == cfg,
                        filled_through(
                            *old(self),
                            *self,
                            chunk_pos,
                            *heights,
                            base_x - 1 + dx,
                            base_z - 1 + dz,
                        ),
                    decreases cs + 2 - dz,
                {
                    let gzi: i64 = base_z - 1 + dz as i64;
                    if 0 <= gzi && gzi < ws as i64 {
                        let gz: usize = gzi as usize;
                        let t: u16 = heights.height_at(gx, gz);
                        let ghost mid = *self;
                        self.fill_column(gx, gz, y_lo, y_hi, t as usize);
                        proof {
                            assert forall|x: int, y: int, z: int|
                                #![trigger self.spec_cell(x, y, z)]
                                #![trigger old(self).spec_cell(x, y, z)]
                                spec_in_world(cfg, x, y, z) implies self.spec_cell(x, y, z) == (
                            if in_column_footprint(cfg, chunk_pos, x, z) && y_in_chunk_extent(
                                cfg,
                                chunk_pos,
                                y,
                            ) && (x < base_x - 1 + dx || (x == base_x - 1 + dx && z < base_z
                                + dz)) {
                                spec_generated_cell(
                                    old(self).spec_cell(x, y, z),
                                    y,
                                    heights.spec_height_at(x, z),
                                )
                            } else {
                                old(self).spec_cell(x, y, z)
                            }) by {
                                assert(mid.spec_cell(x, y, z) == (
                                if in_column_footprint(cfg, chunk_pos, x, z) && y_in_chunk_extent(
                                    cfg,
                                    chunk_pos,
                                    y,
                                ) && (x < base_x - 1 + dx || (x == base_x - 1 + dx && z < base_z - 1
                                    + dz)) {
                                    spec_generated_cell(
                                        old(self).spec_cell(x, y, z),
                                        y,
                                        heights.spec_height_at(x, z),
                                    )
                                } else {
                                    old(self).spec_cell(x, y, z)
                                }));
                            }
                        }
                    } else {
                        proof {
                            assert(filled_through(
                                *old(self),
                                *self,
                                chunk_pos,
                                *heights,
                                base_x - 1 + dx,
                                base_z + dz,
                            ));
                        }
                    }
                    dz = dz + 1;
                }
                proof {
                    assert(filled_through(
                        *old(self),
                        *self,
                        chunk_pos,
                        *heights,
                        base_x + dx,
                        base_z - 1,
                    ));
                }
            } else {
                proof {
                    assert(filled_through(
                        *old(self),
                        *self,
                        chunk_pos,
                        *heights,
                        base_x + dx,
                        base_z - 1,
                    ));
                }
            }
            dx = dx + 1;
        }
        proof {
            assert(populate_rel(*old(self), *self, chunk_pos, *heights));
        }
        self.is_chunk_full(chunk_pos)
    }

    /// Scan chunk `c` proper and report whether every one of its cells holds
    /// a solid block.
    #[verifier::loop_isolation(false)]
    pub fn is_chunk_full(&self, c: ChunkCoord) -> (r: bool)
        requires
            self.wf(),
            spec_chunk_in_world(self.config, c),
        ensures
            r == spec_chunk_full(*self, c),
    {
        proof {
            lemma_chunk_base_bounds(self.config, c);
        }
        let cs: usize = self.config.chunk_size;
        let half: i64 = (self.config.world_size_in_chunks / 2) as i64;
        let base_x: usize = ((c.x as i64 + half) * cs as i64) as usize;
        let base_z: usize = ((c.z as i64 + half) * cs as i64) as usize;
        let base_y: usize = (c.y as usize) * cs;
        let mut lx: usize = 0;
        while lx < cs
            invariant
                lx <= cs,
                forall|x: int, y: int, z: int|
                    base_x <= x < base_x + lx && base_y <= y < base_y + cs && base_z <= z < base_z
                        + cs ==> spec_block_is_solid(#[trigger] self.spec_cell(x, y, z)),
            decreases cs - lx,
        {
            let mut ly: usize = 0;
            while ly < cs
                invariant
                    ly <= cs,
                    forall|x: int, y: int, z: int|
                        base_x <= x < base_x + lx && base_y <= y < base_y + cs && base_z <= z
                            < base_z + cs ==> spec_block_is_solid(
                            #[trigger] self.spec_cell(x, y, z),
                        ),
                    forall|y: int, z: int|
                        base_y <= y < base_y + ly && base_z <= z < base_z + cs
                            ==> spec_block_is_solid(
                            #[trigger] self.spec_cell(base_x + lx, y, z),
                        ),
                decreases cs - ly,
            {
                let mut lz: usize = 0;
                while lz < cs
                    invariant
                        lz <= cs,
                        forall|z: int|
                            base_z <= z < base_z + lz ==> spec_block_is_solid(
                                #[trigger] self.spec_cell(base_x + lx, base_y + ly, z),
                            ),
                    decreases cs - lz,
                {
                    let id = self.get_voxel(base_x + lx, base_y + ly, base_z + lz);
                    if !crate::block_types::block_is_solid(id) {
                        return false;
                    }
                    lz = lz + 1;
                }
                ly = ly + 1;
            }
            lx = lx + 1;
        }
        true
    }
}

/// Determinism law: what generation writes depends only on the prior cell
/// contents, the chunk coordinate and the height field. Two volumes with
/// identical contents come out with identical contents, cell for cell.
pub proof fn lemma_populate_deterministic(
    a0: VoxelMap,
    a1: VoxelMap,
    b0: VoxelMap,
    b1: VoxelMap,
    c: ChunkCoord,
    hf: HeightField,
)
    requires
        a0.config == b0.config,
        forall|x: int, y: int, z: int|
            spec_in_world(a0.config, x, y, z) ==> a0.spec_cell(x, y, z) == b0.spec_cell(x, y, z),
        populate_rel(a0, a1, c, hf),
        populate_rel(b0, b1, c, hf),
    ensures
        forall|x: int, y: int, z: int|
            spec_in_world(a0.config, x, y, z) ==> a1.spec_cell(x, y, z) == b1.spec_cell(x, y, z),
{
    assert forall|x: int, y: int, z: int|
        spec_in_world(a0.config, x, y, z) implies a1.spec_cell(x, y, z) == b1.spec_cell(
        x,
        y,
        z,
    ) by {
        assert(a0.spec_cell(x, y, z) == b0.spec_cell(x, y, z));
    }
}

/// Idempotence law: generating a chunk a second time from the same height
/// field rewrites only values that are already there; the volume's contents
/// do not change.
pub proof fn lemma_populate_idempotent(
    v0: VoxelMap,
    v1: VoxelMap,
    v2: VoxelMap,
    c: ChunkCoord,
    hf: HeightField,
)
    requires
        populate_rel(v0, v1, c, hf),
        populate_rel(v1, v2, c, hf),
    ensures
        forall|x: int, y: int, z: int|
            spec_in_world(v0.config, x, y, z) ==> v2.spec_cell(x, y, z) == v1.spec_cell(x, y, z),
{
    assert forall|x: int, y: int, z: int|
        spec_in_world(v0.config, x, y, z) implies v2.spec_cell(x, y, z) == v1.spec_cell(
        x,
        y,
        z,
    ) by {
        assert(v1.spec_cell(x, y, z) == (
        if in_column_footprint(v0.config, c, x, z) && y_in_chunk_extent(v0.config, c, y) {
            spec_generated_cell(v0.spec_cell(x, y, z), y, hf.spec_height_at(x, z))
        } else {
            v0.spec_cell(x, y, z)
        }));
    }
}

/// Column monotonicity law: on a fresh, all-air volume, a generated column
/// is one contiguous solid span. Below the threshold lies solid ground,
/// the threshold row itself is grass, and everything above stays air; a cell
/// is solid exactly when it sits at or below the threshold.
pub proof fn lemma_column_profile(
    v0: VoxelMap,
    v1: VoxelMap,
    c: ChunkCoord,
    hf: HeightField,
    x: int,
    z: int,
)
    requires
        populate_rel(v0, v1, c, hf),
        in_column_footprint(v0.config, c, x, z),
        forall|x2: int, y2: int, z2: int|
            spec_in_world(v0.config, x2, y2, z2) ==> v0.spec_cell(x2, y2, z2) == 0,
    ensures
        forall|y: int|
            #![trigger v1.spec_cell(x, y, z)]
            y_in_chunk_extent(v0.config, c, y) ==> {
                &&& (y < hf.spec_height_at(x, z) ==> spec_block_is_solid(v1.spec_cell(x, y, z)))
                &&& (y == hf.spec_height_at(x, z) ==> v1.spec_cell(x, y, z) == 3)
                &&& (y > hf.spec_height_at(x, z) ==> v1.spec_cell(x, y, z) == 0)
                &&& (spec_block_is_solid(v1.spec_cell(x, y, z)) <==> y <= hf.spec_height_at(x, z))
            },
{
    assert forall|y: int|
        #![trigger v1.spec_cell(x, y, z)]
        y_in_chunk_extent(v0.config, c, y) implies {
        &&& (y < hf.spec_height_at(x, z) ==> spec_block_is_solid(v1.spec_cell(x, y, z)))
        &&& (y == hf.spec_height_at(x, z) ==> v1.spec_cell(x, y, z) == 3)
        &&& (y > hf.spec_height_at(x, z) ==> v1.spec_cell(x, y, z) == 0)
        &&& (spec_block_is_solid(v1.spec_cell(x, y, z)) <==> y <= hf.spec_height_at(x, z))
    } by {
        assert(spec_in_world(v0.config, x, y, z));
        assert(v0.spec_cell(x, y, z) == 0);
    }
}

/// The executable index computation `(x * wh + y) * ws + z` stays within
/// usize on every step.
proof fn lemma_cell_index_fits(cfg: Config, x: int, y: int, z: int)
    requires
        cfg.wf(),
        spec_in_world(cfg, x, y, z),
    ensures
        x * cfg.spec_world_height() + y <= cfg.spec_world_size() * cfg.spec_world_height(),
        cfg.spec_world_size() * cfg.spec_world_height() <= 0x7fff_ffff,
        (x * cfg.spec_world_height() + y) * cfg.spec_world_size() + z <= 0x7fff_ffff,
{
    let ws = cfg.spec_world_size();
    let wh = cfg.spec_world_height();
    assert(x * wh + y <= ws * wh) by (nonlinear_arith)
        requires
            0 <= x < ws,
            0 <= y < wh,
    ;
    assert(ws * wh <= ws * ws * wh) by (nonlinear_arith)
        requires
            1 <= ws,
            0 <= wh,
    ;
    lemma_cell_index_bounds(cfg, x, y, z);
}

} // verus!
