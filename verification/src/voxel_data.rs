use vstd::prelude::*;

verus! {

/// Default dimensions: a chunk is a cube of `CHUNK_SIZE` blocks, the world a
/// square of `WORLD_SIZE_IN_CHUNKS` chunks, `WORLD_HEIGHT_IN_CHUNKS` high.
pub const CHUNK_SIZE: usize = 32;

pub const WORLD_SIZE_IN_CHUNKS: usize = 32;

pub const WORLD_HEIGHT_IN_CHUNKS: usize = 5;

pub const RENDER_DISTANCE: usize = 4;

/// The texture atlas is a square grid of this many tiles per side.
pub const TEXTURE_ATLAS_SIZE_IN_BLOCKS: u32 = 16;

/// Runtime configuration of the world's dimensions, so that tests and hosts
/// can pick small worlds without recompiling.
#[derive(Clone, Copy, PartialEq, Eq, Structural)]
pub struct Config {
    /// Blocks per chunk edge.
    pub chunk_size: usize,
    /// Chunks per world edge in x and z.
    pub world_size_in_chunks: usize,
    /// Chunks of world height.
    pub world_height_in_chunks: usize,
    /// Radius, in chunks, of the square neighborhood kept active around the
    /// observer.
    pub render_distance: usize,
}

impl Config {
    /// World edge length in blocks.
    pub open spec fn spec_world_size(self) -> int {
        self.world_size_in_chunks * self.chunk_size
    }

    /// World height in blocks.
    pub open spec fn spec_world_height(self) -> int {
        self.world_height_in_chunks * self.chunk_size
    }

    /// A configuration the library can run with: non-degenerate dimensions,
    /// small enough that every index computation fits comfortably in the
    /// machine's integers, and a render neighborhood that fits in the world.
    pub open spec fn wf(self) -> bool {
        &&& 1 <= self.chunk_size <= 256
        &&& 1 <= self.world_size_in_chunks <= 4096
        &&& 1 <= self.world_height_in_chunks <= 4096
        &&& 1 <= self.spec_world_size() <= 0x10000
        &&& 1 <= self.spec_world_height() <= 0x10000
        &&& self.spec_world_size() * self.spec_world_size() * self.spec_world_height()
            <= 0x7fff_ffff
        &&& 1 <= self.render_distance
        &&& 2 * self.render_distance + 1 <= self.world_size_in_chunks
    }

    /// Validated constructor: returns the configuration only when it is
    /// consistent, refusing to run otherwise.
    pub fn new(
        chunk_size: usize,
        world_size_in_chunks: usize,
        world_height_in_chunks: usize,
        render_distance: usize,
    ) -> (r: Option<Config>)
        ensures
            r.is_some() <==> (Config {
                chunk_size,
                world_size_in_chunks,
                world_height_in_chunks,
                render_distance,
            }).wf(),
            r.is_some() ==> r.unwrap() == (Config {
                chunk_size,
                world_size_in_chunks,
                world_height_in_chunks,
                render_distance,
            }),
    {
        if 1 <= chunk_size && chunk_size <= 256 && 1 <= world_size_in_chunks
            && world_size_in_chunks <= 4096 && 1 <= world_height_in_chunks
            && world_height_in_chunks <= 4096 {
            proof {
                assert(world_size_in_chunks * chunk_size <= 4096 * 256) by (nonlinear_arith)
                    requires
                        world_size_in_chunks <= 4096,
                        chunk_size <= 256,
                ;
                assert(world_height_in_chunks * chunk_size <= 4096 * 256) by (nonlinear_arith)
                    requires
                        world_height_in_chunks <= 4096,
                        chunk_size <= 256,
                ;
            }
            let ws: u64 = (world_size_in_chunks as u64) * (chunk_size as u64);
            let wh: u64 = (world_height_in_chunks as u64) * (chunk_size as u64);
            proof {
                assert(ws * ws <= 0x100000 * 0x100000) by (nonlinear_arith)
                    requires
                        0 <= ws <= 0x100000,
                ;
                assert((ws * ws) * wh <= (0x100000 * 0x100000) * 0x100000) by (nonlinear_arith)
                    requires
                        0 <= ws * ws <= 0x100000 * 0x100000,
                        0 <= wh <= 0x100000,
                ;
            }
            if 1 <= ws && ws <= 0x10000 && 1 <= wh && wh <= 0x10000 && ws * ws * wh
                <= 0x7fff_ffff && 1
                <= render_distance && render_distance <= (world_size_in_chunks - 1) / 2 {
                Some(
                    Config {
                        chunk_size,
                        world_size_in_chunks,
                        world_height_in_chunks,
                        render_distance,
                    },
                )
            } else {
                None
            }
        } else {
            None
        }
    }

    /// The dimensions the full-size world runs with.
    pub fn standard() -> (r: Config)
        ensures
            r.wf(),
            r == (Config {
                chunk_size: CHUNK_SIZE,
                world_size_in_chunks: WORLD_SIZE_IN_CHUNKS,
                world_height_in_chunks: WORLD_HEIGHT_IN_CHUNKS,
                render_distance: RENDER_DISTANCE,
            }),
    {
        let c = Config {
            chunk_size: CHUNK_SIZE,
            world_size_in_chunks: WORLD_SIZE_IN_CHUNKS,
            world_height_in_chunks: WORLD_HEIGHT_IN_CHUNKS,
            render_distance: RENDER_DISTANCE,
        };
        assert(c.wf()) by {
            assert(c.spec_world_size() == 1024) by (nonlinear_arith)
                requires
                    c.world_size_in_chunks == 32,
                    c.chunk_size == 32,
            ;
            assert(c.spec_world_height() == 160) by (nonlinear_arith)
                requires
                    c.world_height_in_chunks == 5,
                    c.chunk_size == 32,
            ;
        }
        c
    }

    /// World edge length in blocks, as the executable sees it.
    pub fn world_size(&self) -> (r: usize)
        requires
            self.wf(),
        ensures
            r == self.spec_world_size(),
    {
        self.world_size_in_chunks * self.chunk_size
    }

    /// World height in blocks, as the executable sees it.
    pub fn world_height(&self) -> (r: usize)
        requires
            self.wf(),
        ensures
            r == self.spec_world_height(),
    {
        self.world_height_in_chunks * self.chunk_size
    }
}

} // verus!
