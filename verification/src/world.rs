use vstd::prelude::*;

use crate::chunk::Chunk;
use crate::voxel_data::Config;

verus! {

/// Position of a chunk in chunk units. (0, 0, 0) is the center column of the
/// world; storage indices shift x and z by half the world's extent.
#[derive(Clone, Copy, Debug, PartialEq, Eq, Structural)]
pub struct ChunkCoord {
    pub x: i32,
    pub y: i32,
    pub z: i32,
}

impl ChunkCoord {
    /// Equality on the horizontal plane only: vertical movement within a
    /// column does not count as a chunk change for streaming purposes.
    pub fn equals2d(self, other: ChunkCoord) -> (r: bool)
        ensures
            r == (other.x == self.x && other.z == self.z),
    {
        other.x == self.x && other.z == self.z
    }
}

/// A chunk coordinate is in the world exactly when its shifted indices lie
/// inside the world's chunk grid.
pub open spec fn spec_chunk_in_world(cfg: Config, c: ChunkCoord) -> bool {
    &&& 0 <= c.x + cfg.world_size_in_chunks / 2 < cfg.world_size_in_chunks
    &&& 0 <= c.y < cfg.world_height_in_chunks
    &&& 0 <= c.z + cfg.world_size_in_chunks / 2 < cfg.world_size_in_chunks
}

pub fn is_chunk_in_world(chunk_pos: &ChunkCoord, config: &Config) -> (r: bool)
    requires
        config.wf(),
    ensures
        r == spec_chunk_in_world(*config, *chunk_pos),
{
    let half: i64 = (config.world_size_in_chunks / 2) as i64;
    let wsc: i64 = config.world_size_in_chunks as i64;
    let x: i64 = chunk_pos.x as i64;
    let y: i64 = chunk_pos.y as i64;
    let z: i64 = chunk_pos.z as i64;
    0 <= x + half && x + half < wsc && 0 <= y && y < config.world_height_in_chunks as i64 && 0
        <= z + half && z + half < wsc
}

/// The chunks currently inside render distance, as an order-agnostic list
/// with swap-remove semantics.
pub struct ActiveChunks(pub Vec<ChunkCoord>);

/// The chunk column the observer sat in when streaming last ran.
pub struct PlayerLastChunk(pub ChunkCoord);

impl PlayerLastChunk {
    /// Before the first tick the observer is taken to sit at the origin.
    pub fn new() -> (r: PlayerLastChunk)
        ensures
            r.0 == (ChunkCoord { x: 0, y: 0, z: 0 }),
    {
        PlayerLastChunk(ChunkCoord { x: 0, y: 0, z: 0 })
    }
}

/// Coordinates awaiting terrain generation and meshing, drained LIFO so the
/// chunks enqueued nearest the observer appear first.
pub struct ChunkToGenerateQueue(pub Vec<ChunkCoord>);

/// Coordinates with geometry ready, awaiting hand-off to the display layer,
/// paired with the chunk's fullness flag.
pub struct ChunkToSpawnQueue(pub Vec<(ChunkCoord, bool)>);

/// Dense per-coordinate chunk storage: one slot per possible chunk position
/// holding the chunk record, if generated, and its display handle, if the
/// chunk is currently shown. Display handles are issued from `next_handle`,
/// counting up, so every live handle is unique.
pub struct ChunkMap {
    pub slots: Vec<(Option<Chunk>, Option<u64>)>,
    pub next_handle: u64,
    pub config: Config,
}

/// Flat index of a chunk coordinate in the chunk grid.
pub open spec fn spec_chunk_slot_index(cfg: Config, c: ChunkCoord) -> int {
    ((c.x + cfg.world_size_in_chunks / 2) * cfg.world_height_in_chunks + c.y)
        * cfg.world_size_in_chunks + (c.z + cfg.world_size_in_chunks / 2)
}

/// The chunk grid has no more slots than the world has blocks, so the flat
/// index fits comfortably in usize.
pub proof fn lemma_chunk_grid_bounds(cfg: Config)
    requires
        cfg.wf(),
    ensures
        cfg.world_size_in_chunks * cfg.world_height_in_chunks * cfg.world_size_in_chunks
            <= 0x7fff_ffff,
{
    let wsc = cfg.world_size_in_chunks as int;
    let whc = cfg.world_height_in_chunks as int;
    let cs = cfg.chunk_size as int;
    assert(wsc * whc * wsc <= (wsc * cs) * (wsc * cs) * (whc * cs)) by (nonlinear_arith)
        requires
            1 <= cs,
            1 <= wsc,
            1 <= whc,
    ;
    assert((wsc * cs) * (wsc * cs) * (whc * cs) == cfg.spec_world_size() * cfg.spec_world_size()
        * cfg.spec_world_height()) by (nonlinear_arith)
        requires
            cfg.spec_world_size() == wsc * cs,
            cfg.spec_world_height() == whc * cs,
    ;
}

pub proof fn lemma_chunk_slot_index_bounds(cfg: Config, c: ChunkCoord)
    requires
        cfg.wf(),
        spec_chunk_in_world(cfg, c),
    ensures
        0 <= spec_chunk_slot_index(cfg, c) < cfg.world_size_in_chunks * cfg.world_height_in_chunks
            * cfg.world_size_in_chunks,
{
    let wsc = cfg.world_size_in_chunks as int;
    let whc = cfg.world_height_in_chunks as int;
    let sx = c.x + wsc / 2;
    let sz = c.z + wsc / 2;
    assert(0 <= (sx * whc + c.y) * wsc + sz < wsc * whc * wsc) by (nonlinear_arith)
        requires
            0 <= sx < wsc,
            0 <= c.y < whc,
            0 <= sz < wsc,
    ;
}

pub proof fn lemma_chunk_slot_index_injective(cfg: Config, c1: ChunkCoord, c2: ChunkCoord)
    requires
        cfg.wf(),
        spec_chunk_in_world(cfg, c1),
        spec_chunk_in_world(cfg, c2),
        spec_chunk_slot_index(cfg, c1) == spec_chunk_slot_index(cfg, c2),
    ensures
        c1.x == c2.x && c1.y == c2.y && c1.z == c2.z,
{
    let wsc = cfg.world_size_in_chunks as int;
    let whc = cfg.world_height_in_chunks as int;
    let sx1 = c1.x + wsc / 2;
    let sz1 = c1.z + wsc / 2;
    let sx2 = c2.x + wsc / 2;
    let sz2 = c2.z + wsc / 2;
    assert(sx1 * whc + c1.y == sx2 * whc + c2.y && sz1 == sz2) by (nonlinear_arith)
        requires
            0 <= c1.y < whc,
            0 <= c2.y < whc,
            0 <= sz1 < wsc,
            0 <= sz2 < wsc,
            (sx1 * whc + c1.y) * wsc + sz1 == (sx2 * whc + c2.y) * wsc + sz2,
    ;
    assert(sx1 == sx2 && c1.y == c2.y) by (nonlinear_arith)
        requires
            0 <= c1.y < whc,
            0 <= c2.y < whc,
            sx1 * whc + c1.y == sx2 * whc + c2.y,
    ;
}

impl ChunkMap {
    pub open spec fn wf(self) -> bool {
        &&& self.config.wf()
        &&& self.slots@.len() == self.config.world_size_in_chunks
            * self.config.world_height_in_chunks * self.config.world_size_in_chunks
    }

    /// The chunk record stored for coordinate c, if any.
    pub open spec fn spec_chunk_at(self, c: ChunkCoord) -> Option<Chunk> {
        self.slots@[spec_chunk_slot_index(self.config, c)].0
    }

    /// The display handle stored for coordinate c, if any.
    pub open spec fn spec_handle_at(self, c: ChunkCoord) -> Option<u64> {
        self.slots@[spec_chunk_slot_index(self.config, c)].1
    }

    /// An empty map: no chunk generated, nothing displayed.
    pub fn new(config: Config) -> (r: ChunkMap)
        requires
            config.wf(),
        ensures
            r.wf(),
            r.config == config,
            r.next_handle == 0,
            forall|c: ChunkCoord|
                spec_chunk_in_world(config, c) ==> #[trigger] r.spec_chunk_at(c).is_none(),
            forall|c: ChunkCoord|
                spec_chunk_in_world(config, c) ==> #[trigger] r.spec_handle_at(c).is_none(),
    {
        proof {
            lemma_chunk_grid_bounds(config);
            assert(config.world_size_in_chunks * config.world_height_in_chunks
                * config.world_size_in_chunks >= 0) by (nonlinear_arith)
                requires
                    config.world_size_in_chunks >= 1,
                    config.world_height_in_chunks >= 1,
            ;
        }
        let wsc: usize = config.world_size_in_chunks;
        let whc: usize = config.world_height_in_chunks;
        proof {
            assert(0 <= wsc * whc <= wsc * whc * wsc) by (nonlinear_arith)
                requires
                    1 <= wsc,
                    1 <= whc,
            ;
        }
        let n: usize = wsc * whc * wsc;
        let mut slots: Vec<(Option<Chunk>, Option<u64>)> = Vec::new();
        let mut i: usize = 0;
        while i < n
            invariant
                i <= n,
                slots@.len() == i,
                forall|j: int|
                    0 <= j < i ==> slots@[j].0.is_none() && slots@[j].1.is_none(),
            decreases n - i,
        {
            slots.push((None, None));
            i = i + 1;
        }
        let r = ChunkMap { slots, next_handle: 0, config };
        proof {
            assert forall|c: ChunkCoord| spec_chunk_in_world(config, c) implies #[trigger] r
                .spec_chunk_at(c).is_none() by {
                lemma_chunk_slot_index_bounds(config, c);
            }
            assert forall|c: ChunkCoord| spec_chunk_in_world(config, c) implies #[trigger] r
                .spec_handle_at(c).is_none() by {
                lemma_chunk_slot_index_bounds(config, c);
            }
        }
        r
    }

    fn slot_index(&self, c: ChunkCoord) -> (r: usize)
        requires
            self.wf(),
            spec_chunk_in_world(self.config, c),
        ensures
            r == spec_chunk_slot_index(self.config, c),
            r < self.slots@.len(),
    {
        proof {
            lemma_chunk_slot_index_bounds(self.config, c);
            lemma_chunk_grid_bounds(self.config);
            let wsci = self.config.world_size_in_chunks as int;
            let whci = self.config.world_height_in_chunks as int;
            let sx = c.x + wsci / 2;
            assert(0 <= sx * whci + c.y <= 0x1000000) by (nonlinear_arith)
                requires
                    0 <= sx < wsci,
                    wsci <= 4096,
                    0 <= c.y < whci,
                    whci <= 4096,
            ;
        }
        let wsc: i64 = self.config.world_size_in_chunks as i64;
        let whc: i64 = self.config.world_height_in_chunks as i64;
        let half: i64 = wsc / 2;
        (((c.x as i64 + half) * whc + c.y as i64) * wsc + (c.z as i64 + half)) as usize
    }

    /// There is a generated chunk record at c.
    pub fn has_chunk(&self, c: ChunkCoord) -> (r: bool)
        requires
            self.wf(),
            spec_chunk_in_world(self.config, c),
        ensures
            r == self.spec_chunk_at(c).is_some(),
    {
        let i = self.slot_index(c);
        self.slots[i].0.is_some()
    }

    /// The fullness flag recorded for the chunk at c.
    pub fn chunk_is_full(&self, c: ChunkCoord) -> (r: bool)
        requires
            self.wf(),
            spec_chunk_in_world(self.config, c),
            self.spec_chunk_at(c).is_some(),
        ensures
            r == self.spec_chunk_at(c).unwrap().is_full,
    {
        let i = self.slot_index(c);
        self.slots[i].0.as_ref().unwrap().is_full
    }

    /// Borrow the chunk record at c, for reading its geometry.
    pub fn chunk_ref(&self, c: ChunkCoord) -> (r: &Chunk)
        requires
            self.wf(),
            spec_chunk_in_world(self.config, c),
            self.spec_chunk_at(c).is_some(),
        ensures
            *r == self.spec_chunk_at(c).unwrap(),
    {
        let i = self.slot_index(c);
        self.slots[i].0.as_ref().unwrap()
    }

    /// The display handle at c, if the chunk is currently shown.
    pub fn get_handle(&self, c: ChunkCoord) -> (r: Option<u64>)
        requires
            self.wf(),
            spec_chunk_in_world(self.config, c),
        ensures
            r == self.spec_handle_at(c),
    {
        let i = self.slot_index(c);
        self.slots[i].1
    }

    /// Store a chunk record at c, leaving every other slot unchanged.
    pub(crate) fn set_chunk(&mut self, c: ChunkCoord, chunk: Chunk)
        requires
            old(self).wf(),
            spec_chunk_in_world(old(self).config, c),
        ensures
            final(self).wf(),
            final(self).config == old(self).config,
            final(self).next_handle == old(self).next_handle,
            final(self).spec_chunk_at(c) == Some(chunk),
            final(self).spec_handle_at(c) == old(self).spec_handle_at(c),
            forall|c2: ChunkCoord|
                spec_chunk_in_world(old(self).config, c2) && c2 != c ==> #[trigger] final(self).spec_chunk_at(c2) == old(self).spec_chunk_at(c2),
            forall|c2: ChunkCoord|
                spec_chunk_in_world(old(self).config, c2) ==> #[trigger] final(self).spec_handle_at(c2) == old(self).spec_handle_at(c2),
    {
        let i = self.slot_index(c);
        let h = self.slots[i].1;
        self.slots.set(i, (Some(chunk), h));
        proof {
            assert forall|c2: ChunkCoord|
                spec_chunk_in_world(old(self).config, c2) implies (c2 != c ==> final(self).spec_chunk_at(c2) == old(self).spec_chunk_at(c2)) && final(self).spec_handle_at(c2)
                == old(self).spec_handle_at(c2) by {
                lemma_chunk_slot_index_bounds(old(self).config, c2);
                if c2 != c && spec_chunk_slot_index(old(self).config, c2)
                    == spec_chunk_slot_index(old(self).config, c) {
                    lemma_chunk_slot_index_injective(old(self).config, c2, c);
                }
            }
        }
    }

    /// Store (or clear) the display handle at c, leaving every other slot
    /// unchanged.
    pub(crate) fn set_handle(&mut self, c: ChunkCoord, h: Option<u64>)
        requires
            old(self).wf(),
            spec_chunk_in_world(old(self).config, c),
        ensures
            final(self).wf(),
            final(self).config == old(self).config,
            final(self).next_handle == old(self).next_handle,
            final(self).spec_handle_at(c) == h,
            final(self).spec_chunk_at(c) == old(self).spec_chunk_at(c),
            forall|c2: ChunkCoord|
                spec_chunk_in_world(old(self).config, c2) && c2 != c ==> #[trigger] final(self).spec_handle_at(c2) == old(self).spec_handle_at(c2),
            forall|c2: ChunkCoord|
                spec_chunk_in_world(old(self).config, c2) ==> #[trigger] final(self).spec_chunk_at(c2) == old(self).spec_chunk_at(c2),
    {
        let i = self.slot_index(c);
        let stored = self.slots.remove(i);
        self.slots.insert(i, (stored.0, h));
        proof {
            assert(self.slots@ =~= old(self).slots@.update(
                spec_chunk_slot_index(old(self).config, c),
                (old(self).spec_chunk_at(c), h),
            ));
            assert forall|c2: ChunkCoord|
                spec_chunk_in_world(old(self).config, c2) implies (c2 != c ==> final(self).spec_handle_at(c2) == old(self).spec_handle_at(c2)) && final(self).spec_chunk_at(c2)
                == old(self).spec_chunk_at(c2) by {
                lemma_chunk_slot_index_bounds(old(self).config, c2);
                if c2 != c && spec_chunk_slot_index(old(self).config, c2)
                    == spec_chunk_slot_index(old(self).config, c) {
                    lemma_chunk_slot_index_injective(old(self).config, c2, c);
                }
            }
        }
    }
}

/// The sequence holds coordinate c somewhere.
pub open spec fn coords_contain(s: Seq<ChunkCoord>, c: ChunkCoord) -> bool {
    exists|i: int| 0 <= i < s.len() && s[i] == c
}

/// No coordinate appears twice.
pub open spec fn coords_distinct(s: Seq<ChunkCoord>) -> bool {
    forall|i: int, j: int| 0 <= i < j < s.len() ==> s[i] != s[j]
}

/// The spawn queue holds an entry for coordinate c.
pub open spec fn spawn_contains(s: Seq<(ChunkCoord, bool)>, c: ChunkCoord) -> bool {
    exists|i: int| 0 <= i < s.len() && (#[trigger] s[i]).0 == c
}

/// No spawn-queue coordinate appears twice.
pub open spec fn spawn_coords_distinct(s: Seq<(ChunkCoord, bool)>) -> bool {
    forall|i: int, j: int| 0 <= i < j < s.len() ==> (#[trigger] s[i]).0 != (#[trigger] s[j]).0
}

/// Chunk c lies within render distance of `center` on the horizontal plane
/// (a square neighborhood; the vertical axis never limits streaming).
pub open spec fn in_range2d(cfg: Config, c: ChunkCoord, center: ChunkCoord) -> bool {
    &&& center.x - cfg.render_distance <= c.x <= center.x + cfg.render_distance
    &&& center.z - cfg.render_distance <= c.z <= center.z + cfg.render_distance
}

/// The chunk at c has geometry worth displaying: a record exists, the chunk
/// is not fully solid (those are never displayed), and its surface is not
/// empty (fully-air chunks have nothing to show).
pub open spec fn spec_displayable(map: ChunkMap, c: ChunkCoord) -> bool {
    &&& map.spec_chunk_at(c).is_some()
    &&& !map.spec_chunk_at(c).unwrap().is_full
    &&& map.spec_chunk_at(c).unwrap().mesh.indices@.len() > 0
}

/// The invariant tying the streaming state together. It holds at every
/// tick boundary and between the drain steps of one tick:
/// every in-range coordinate is active or queued for generation; active
/// chunks lie in range, in the world, exactly once, and have records;
/// a display handle exists only for an active, displayable chunk and is
/// unique; a displayable active chunk is either displayed already or
/// awaiting hand-off in the spawn queue; queue entries are consistent.
pub open spec fn streaming_wf(
    map: ChunkMap,
    active: ActiveChunks,
    gen_q: ChunkToGenerateQueue,
    spawn_q: ChunkToSpawnQueue,
    last: PlayerLastChunk,
) -> bool {
    let cfg = map.config;
    &&& map.wf()
    &&& coords_distinct(active.0@)
    &&& forall|i: int|
        0 <= i < active.0@.len() ==> spec_chunk_in_world(cfg, #[trigger] active.0@[i])
            && in_range2d(cfg, active.0@[i], last.0) && map.spec_chunk_at(
            active.0@[i],
        ).is_some()
    &&& forall|c: ChunkCoord|
        spec_chunk_in_world(cfg, c) && in_range2d(cfg, c, last.0) ==> coords_contain(
            active.0@,
            c,
        ) || coords_contain(gen_q.0@, c)
    &&& forall|c: ChunkCoord|
        spec_chunk_in_world(cfg, c) && (#[trigger] map.spec_handle_at(c)).is_some()
            ==> coords_contain(active.0@, c) && spec_displayable(map, c)
            && map.spec_handle_at(c).unwrap() < map.next_handle
    &&& forall|c1: ChunkCoord, c2: ChunkCoord|
        spec_chunk_in_world(cfg, c1) && spec_chunk_in_world(cfg, c2) && c1 != c2 && (
        #[trigger] map.spec_handle_at(c1)).is_some() && (#[trigger] map.spec_handle_at(
            c2,
        )).is_some() ==> map.spec_handle_at(c1).unwrap() != map.spec_handle_at(c2).unwrap()
    &&& forall|c: ChunkCoord|
        spec_chunk_in_world(cfg, c) && #[trigger] coords_contain(active.0@, c)
            && spec_displayable(map, c) ==> map.spec_handle_at(c).is_some() || spawn_contains(
            spawn_q.0@,
            c,
        )
    &&& coords_distinct(gen_q.0@)
    &&& forall|i: int|
        0 <= i < gen_q.0@.len() ==> spec_chunk_in_world(cfg, #[trigger] gen_q.0@[i])
            && in_range2d(cfg, gen_q.0@[i], last.0) && !coords_contain(
            active.0@,
            gen_q.0@[i],
        )
    &&& spawn_coords_distinct(spawn_q.0@)
    &&& forall|i: int|
        0 <= i < spawn_q.0@.len() ==> spec_chunk_in_world(cfg, (#[trigger] spawn_q.0@[i]).0)
            && coords_contain(active.0@, spawn_q.0@[i].0) && map.spec_chunk_at(
            spawn_q.0@[i].0,
        ).is_some() && map.spec_handle_at(spawn_q.0@[i].0).is_none() && spawn_q.0@[i].1
            == map.spec_chunk_at(spawn_q.0@[i].0).unwrap().is_full
}

/// Streaming invariant law: once both queues are drained, the active set is
/// exactly the in-world neighborhood of the observer's last processed chunk,
/// and a coordinate carries a display handle exactly when it is in range
/// with displayable geometry.
pub proof fn lemma_streaming_settled(
    map: ChunkMap,
    active: ActiveChunks,
    gen_q: ChunkToGenerateQueue,
    spawn_q: ChunkToSpawnQueue,
    last: PlayerLastChunk,
)
    requires
        streaming_wf(map, active, gen_q, spawn_q, last),
        gen_q.0@.len() == 0,
        spawn_q.0@.len() == 0,
    ensures
        forall|c: ChunkCoord|
            spec_chunk_in_world(map.config, c) ==> (#[trigger] coords_contain(active.0@, c)
                <==> in_range2d(map.config, c, last.0)),
        forall|c: ChunkCoord|
            spec_chunk_in_world(map.config, c) ==> ((#[trigger] map.spec_handle_at(c)).is_some()
                <==> in_range2d(map.config, c, last.0) && spec_displayable(map, c)),
{
    let cfg = map.config;
    assert forall|c: ChunkCoord| spec_chunk_in_world(cfg, c) implies (#[trigger] coords_contain(
        active.0@,
        c,
    ) <==> in_range2d(cfg, c, last.0)) by {
        if coords_contain(active.0@, c) {
            let i = choose|i: int| 0 <= i < active.0@.len() && active.0@[i] == c;
            assert(in_range2d(cfg, active.0@[i], last.0));
        }
        if in_range2d(cfg, c, last.0) {
            assert(coords_contain(active.0@, c) || coords_contain(gen_q.0@, c));
            if coords_contain(gen_q.0@, c) {
                let i = choose|i: int| 0 <= i < gen_q.0@.len() && gen_q.0@[i] == c;
            }
        }
    }
    assert forall|c: ChunkCoord| spec_chunk_in_world(cfg, c) implies ((
    #[trigger] map.spec_handle_at(c)).is_some() <==> in_range2d(cfg, c, last.0)
        && spec_displayable(map, c)) by {
        if map.spec_handle_at(c).is_some() {
            let i = choose|i: int| 0 <= i < active.0@.len() && active.0@[i] == c;
            assert(in_range2d(cfg, active.0@[i], last.0));
        }
        if in_range2d(cfg, c, last.0) && spec_displayable(map, c) {
            assert(coords_contain(active.0@, c));
            if spawn_contains(spawn_q.0@, c) {
                let i = choose|i: int| 0 <= i < spawn_q.0@.len() && spawn_q.0@[i].0 == c;
            }
        }
    }
}

/// Chebyshev distance of a chunk column from the origin: the ring of the
/// square neighborhood it sits on.
pub open spec fn spec_ring(c: ChunkCoord) -> int {
    let ax = if c.x >= 0 {
        c.x as int
    } else {
        -(c.x as int)
    };
    let az = if c.z >= 0 {
        c.z as int
    } else {
        -(c.z as int)
    };
    if ax >= az {
        ax
    } else {
        az
    }
}

/// Coordinate c belongs to the initial load: every chunk whose column lies
/// within render distance of the origin, at every height.
pub open spec fn in_initial_load(cfg: Config, c: ChunkCoord) -> bool {
    &&& -(cfg.render_distance as int) <= c.x <= cfg.render_distance
    &&& -(cfg.render_distance as int) <= c.z <= cfg.render_distance
    &&& 0 <= c.y < cfg.world_height_in_chunks
}

/// Every chunk of the initial load lies in the world: the render
/// neighborhood fits inside the world by configuration validity.
pub proof fn lemma_initial_load_in_world(cfg: Config, c: ChunkCoord)
    requires
        cfg.wf(),
        in_initial_load(cfg, c),
    ensures
        spec_chunk_in_world(cfg, c),
{
}

/// Seed the generate queue for the initial world load: all chunks within
/// render distance of the origin, pushed outermost ring first, so that the
/// LIFO queue pops the chunks nearest the observer before distant ones.
#[verifier::loop_isolation(false)]
pub fn spawn_world(
    chunk_queue: &mut ChunkToGenerateQueue,
    chunk_map: &ChunkMap,
    active_chunks: &ActiveChunks,
    spawn_queue: &ChunkToSpawnQueue,
    player_last_chunk: &PlayerLastChunk,
)
    requires
        chunk_map.wf(),
        old(chunk_queue).0@.len() == 0,
        active_chunks.0@.len() == 0,
        spawn_queue.0@.len() == 0,
        player_last_chunk.0 == (ChunkCoord { x: 0, y: 0, z: 0 }),
        forall|c: ChunkCoord|
            spec_chunk_in_world(chunk_map.config, c) ==> (#[trigger] chunk_map.spec_chunk_at(
                c,
            )).is_none(),
        forall|c: ChunkCoord|
            spec_chunk_in_world(chunk_map.config, c) ==> (#[trigger] chunk_map.spec_handle_at(
                c,
            )).is_none(),
    ensures
        coords_distinct(final(chunk_queue).0@),
        forall|c: ChunkCoord|
            #[trigger] coords_contain(final(chunk_queue).0@, c) <==> in_initial_load(
                chunk_map.config,
                c,
            ),
        forall|i: int, j: int|
            0 <= i <= j < final(chunk_queue).0@.len() ==> spec_ring(final(chunk_queue).0@[i])
                >= spec_ring(final(chunk_queue).0@[j]),
        streaming_wf(*chunk_map, *active_chunks, *final(chunk_queue), *spawn_queue, *player_last_chunk),
{
    let ghost cfg = chunk_map.config;
    let rd: usize = chunk_map.config.render_distance;
    let whc: usize = chunk_map.config.world_height_in_chunks;
    let side: usize = 2 * rd + 1;
    let mut r: usize = rd + 1;
    while r > 0
        invariant
            r <= rd + 1,
            coords_distinct(chunk_queue.0@),
            forall|c: ChunkCoord|
                #[trigger] coords_contain(chunk_queue.0@, c) <==> in_initial_load(cfg, c)
                    && spec_ring(c) >= r,
            forall|i: int, j: int|
                0 <= i <= j < chunk_queue.0@.len() ==> spec_ring(chunk_queue.0@[i]) >= spec_ring(
                    chunk_queue.0@[j],
                ),
            forall|i: int| 0 <= i < chunk_queue.0@.len() ==> spec_ring(chunk_queue.0@[i]) >= r,
        decreases r,
    {
        let rr: usize = r - 1;
        let mut dx: usize = 0;
        while dx < side
            invariant
                dx <= side,
                coords_distinct(chunk_queue.0@),
                forall|c: ChunkCoord|
                    #[trigger] coords_contain(chunk_queue.0@, c) <==> in_initial_load(cfg, c) && (
                    spec_ring(c) >= r || (spec_ring(c) == rr && c.x < dx as int - rd)),
                forall|i: int, j: int|
                    0 <= i <= j < chunk_queue.0@.len() ==> spec_ring(chunk_queue.0@[i])
                        >= spec_ring(chunk_queue.0@[j]),
                forall|i: int|
                    0 <= i < chunk_queue.0@.len() ==> spec_ring(chunk_queue.0@[i]) >= rr,
            decreases side - dx,
        {
            let x: i64 = dx as i64 - rd as i64;
            let ax: i64 = if x >= 0 {
                x
            } else {
                -x
            };
            let mut dz: usize = 0;
            while dz < side
                invariant
                    dz <= side,
                    coords_distinct(chunk_queue.0@),
                    forall|c: ChunkCoord|
                        #[trigger] coords_contain(chunk_queue.0@, c) <==> in_initial_load(cfg, c)
                            && (spec_ring(c) >= r || (spec_ring(c) == rr && (c.x < x || (c.x == x
                            && c.z < dz as int - rd)))),
                    forall|i: int, j: int|
                        0 <= i <= j < chunk_queue.0@.len() ==> spec_ring(chunk_queue.0@[i])
                            >= spec_ring(chunk_queue.0@[j]),
                    forall|i: int|
                        0 <= i < chunk_queue.0@.len() ==> spec_ring(chunk_queue.0@[i]) >= rr,
                decreases side - dz,
            {
                let z: i64 = dz as i64 - rd as i64;
                let az: i64 = if z >= 0 {
                    z
                } else {
                    -z
                };
                let m: i64 = if ax >= az {
                    ax
                } else {
                    az
                };
                if m == rr as i64 {
                    let mut y: usize = 0;
                    while y < whc
                        invariant
                            y <= whc,
                            coords_distinct(chunk_queue.0@),
                            forall|c: ChunkCoord|
                                #[trigger] coords_contain(chunk_queue.0@, c) <==> in_initial_load(
                                    cfg,
                                    c,
                                ) && (spec_ring(c) >= r || (spec_ring(c) == rr && (c.x < x || (c.x
                                    == x && (c.z < z || (c.z == z && c.y < y)))))),
                            forall|i: int, j: int|
                                0 <= i <= j < chunk_queue.0@.len() ==> spec_ring(
                                    chunk_queue.0@[i],
                                ) >= spec_ring(chunk_queue.0@[j]),
                            forall|i: int|
                                0 <= i < chunk_queue.0@.len() ==> spec_ring(chunk_queue.0@[i])
                                    >= rr,
                        decreases whc - y,
                    {
                        let c = ChunkCoord { x: x as i32, y: y as i32, z: z as i32 };
                        proof {
                            assert(c.x == x && c.z == z && c.y == y);
                            assert(spec_ring(c) == rr);
                        }
                        let ghost pre = chunk_queue.0@;
                        assert(!coords_contain(pre, c));
                        chunk_queue.0.push(c);
                        proof {
                            assert forall|c2: ChunkCoord| #[trigger] coords_contain(
                                chunk_queue.0@,
                                c2,
                            ) <==> in_initial_load(cfg, c2) && (spec_ring(c2) >= r || (spec_ring(
                                c2,
                            ) == rr && (c2.x < x || (c2.x == x && (c2.z < z || (c2.z == z && c2.y
                                < y + 1)))))) by {
                                if coords_contain(chunk_queue.0@, c2) {
                                    let i = choose|i: int|
                                        0 <= i < chunk_queue.0@.len() && chunk_queue.0@[i] == c2;
                                    if i < pre.len() {
                                        assert(pre[i] == c2);
                                        assert(coords_contain(pre, c2));
                                    } else {
                                        assert(c2 == c);
                                    }
                                }
                                if in_initial_load(cfg, c2) && (spec_ring(c2) >= r || (spec_ring(
                                    c2,
                                ) == rr && (c2.x < x || (c2.x == x && (c2.z < z || (c2.z == z
                                    && c2.y < y + 1)))))) {
                                    if spec_ring(c2) >= r || (spec_ring(c2) == rr && (c2.x < x || (
                                    c2.x == x && (c2.z < z || (c2.z == z && c2.y < y))))) {
                                        assert(coords_contain(pre, c2));
                                        let i = choose|i: int|
                                            0 <= i < pre.len() && pre[i] == c2;
                                        assert(chunk_queue.0@[i] == c2);
                                        assert(coords_contain(chunk_queue.0@, c2));
                                    } else {
                                        assert(c2 == c);
                                        assert(chunk_queue.0@[pre.len() as int] == c);
                                        assert(coords_contain(chunk_queue.0@, c2));
                                    }
                                }
                            }
                        }
                        y = y + 1;
                    }
                }
                dz = dz + 1;
            }
            dx = dx + 1;
        }
        r = rr;
    }
    proof {
        assert forall|c: ChunkCoord|
            spec_chunk_in_world(cfg, c) && in_range2d(cfg, c, player_last_chunk.0) implies
            coords_contain(chunk_queue.0@, c) by {
            assert(in_initial_load(cfg, c));
        }
        assert forall|i: int| 0 <= i < chunk_queue.0@.len() implies spec_chunk_in_world(
            cfg,
            #[trigger] chunk_queue.0@[i],
        ) && in_range2d(cfg, chunk_queue.0@[i], player_last_chunk.0) && !coords_contain(
            active_chunks.0@,
            chunk_queue.0@[i],
        ) by {
            assert(coords_contain(chunk_queue.0@, chunk_queue.0@[i]));
            lemma_initial_load_in_world(cfg, chunk_queue.0@[i]);
        }
    }
}

/// Per-tick streaming step, run when the observer's position was read. If
/// the observer still sits in the chunk column processed last tick, nothing
/// happens. Otherwise every in-world chunk of the new render neighborhood
/// that is not already active is queued for generation, every active chunk
/// that fell out of the neighborhood is evicted (its display handle, if
/// any, is released and returned for the display layer to destroy), and the
/// observer's column is recorded.
#[verifier::loop_isolation(false)]
pub fn check_render_distance(
    player_chunk_pos: ChunkCoord,
    chunk_map: &mut ChunkMap,
    chunk_queue: &mut ChunkToGenerateQueue,
    active_chunks: &mut ActiveChunks,
    player_last_chunk: &mut PlayerLastChunk,
    spawn_queue: &ChunkToSpawnQueue,
) -> (released: Vec<u64>)
    requires
        streaming_wf(
            *old(chunk_map),
            *old(active_chunks),
            *old(chunk_queue),
            *spawn_queue,
            *old(player_last_chunk),
        ),
        old(chunk_queue).0@.len() == 0,
        spawn_queue.0@.len() == 0,
    ensures
        streaming_wf(
            *final(chunk_map),
            *final(active_chunks),
            *final(chunk_queue),
            *spawn_queue,
            *final(player_last_chunk),
        ),
        final(chunk_map).config == old(chunk_map).config,
        final(chunk_map).next_handle == old(chunk_map).next_handle,
        forall|c: ChunkCoord|
            spec_chunk_in_world(old(chunk_map).config, c) ==> #[trigger] final(chunk_map).spec_chunk_at(c) == old(chunk_map).spec_chunk_at(c),
        (player_chunk_pos.x == old(player_last_chunk).0.x && player_chunk_pos.z == old(
            player_last_chunk,
        ).0.z) ==> {
            &&& *final(chunk_map) == *old(chunk_map)
            &&& final(active_chunks).0@ == old(active_chunks).0@
            &&& final(chunk_queue).0@ == old(chunk_queue).0@
            &&& final(player_last_chunk).0 == old(player_last_chunk).0
            &&& released@.len() == 0
        },
        !(player_chunk_pos.x == old(player_last_chunk).0.x && player_chunk_pos.z == old(
            player_last_chunk,
        ).0.z) ==> {
            &&& final(player_last_chunk).0 == player_chunk_pos
            &&& forall|c: ChunkCoord|
                #[trigger] coords_contain(final(active_chunks).0@, c) <==> coords_contain(
                    old(active_chunks).0@,
                    c,
                ) && in_range2d(old(chunk_map).config, c, player_chunk_pos)
            &&& forall|c: ChunkCoord|
                #[trigger] coords_contain(final(chunk_queue).0@, c) <==> spec_chunk_in_world(
                    old(chunk_map).config,
                    c,
                ) && in_range2d(old(chunk_map).config, c, player_chunk_pos) && !coords_contain(
                    old(active_chunks).0@,
                    c,
                )
            &&& forall|c: ChunkCoord|
                spec_chunk_in_world(old(chunk_map).config, c) ==> #[trigger] final(chunk_map).spec_handle_at(c) == (if old(chunk_map).spec_handle_at(c).is_some()
                    && !in_range2d(old(chunk_map).config, c, player_chunk_pos) {
                    None
                } else {
                    old(chunk_map).spec_handle_at(c)
                })
            &&& forall|h: u64|
                #[trigger] released@.contains(h) <==> exists|c: ChunkCoord|
                    spec_chunk_in_world(old(chunk_map).config, c) && #[trigger] old(
                        chunk_map,
                    ).spec_handle_at(c) == Some(h) && !in_range2d(
                        old(chunk_map).config,
                        c,
                        player_chunk_pos,
                    )
        },
        forall|i: int, j: int| 0 <= i < j < released@.len() ==> released@[i] != released@[j],
{
    let ghost cfg = chunk_map.config;
    let ghost act0 = active_chunks.0@;
    let ghost map0 = *chunk_map;
    if player_chunk_pos.equals2d(player_last_chunk.0) {
        return Vec::new();
    }
    let rd: usize = chunk_map.config.render_distance;
    let whc: usize = chunk_map.config.world_height_in_chunks;
    let wsc: i64 = chunk_map.config.world_size_in_chunks as i64;
    let half: i64 = wsc / 2;
    let side: usize = 2 * rd + 1;
    let px: i64 = player_chunk_pos.x as i64;
    let pz: i64 = player_chunk_pos.z as i64;
    let mut dx: usize = 0;
    while dx < side
        invariant
            dx <= side,
            coords_distinct(chunk_queue.0@),
            forall|c: ChunkCoord|
                #[trigger] coords_contain(chunk_queue.0@, c) <==> spec_chunk_in_world(cfg, c)
                    && in_range2d(cfg, c, player_chunk_pos) && !coords_contain(act0, c) && c.x
                    < px - rd + dx,
        decreases side - dx,
    {
        let x: i64 = px - rd as i64 + dx as i64;
        let mut yy: usize = 0;
        while yy < whc
            invariant
                yy <= whc,
                coords_distinct(chunk_queue.0@),
                forall|c: ChunkCoord|
                    #[trigger] coords_contain(chunk_queue.0@, c) <==> spec_chunk_in_world(cfg, c)
                        && in_range2d(cfg, c, player_chunk_pos) && !coords_contain(act0, c) && (c.x
                        < x || (c.x == x && c.y < yy)),
            decreases whc - yy,
        {
            let mut dz: usize = 0;
            while dz < side
                invariant
                    dz <= side,
                    coords_distinct(chunk_queue.0@),
                    forall|c: ChunkCoord|
                        #[trigger] coords_contain(chunk_queue.0@, c) <==> spec_chunk_in_world(
                            cfg,
                            c,
                        ) && in_range2d(cfg, c, player_chunk_pos) && !coords_contain(act0, c) && (
                        c.x < x || (c.x == x && (c.y < yy || (c.y == yy && c.z < pz - rd
                            + dz)))),
                decreases side - dz,
            {
                let z: i64 = pz - rd as i64 + dz as i64;
                if 0 <= x + half && x + half < wsc && 0 <= z + half && z + half < wsc {
                    let c = ChunkCoord { x: x as i32, y: yy as i32, z: z as i32 };
                    proof {
                        assert(c.x == x && c.y == yy && c.z == z);
                        assert(spec_chunk_in_world(cfg, c));
                    }
                    if !active_contains(active_chunks, c) {
                        let ghost pre = chunk_queue.0@;
                        assert(!coords_contain(pre, c));
                        chunk_queue.0.push(c);
                        proof {
                            assert forall|c2: ChunkCoord| #[trigger] coords_contain(
                                chunk_queue.0@,
                                c2,
                            ) <==> spec_chunk_in_world(cfg, c2) && in_range2d(
                                cfg,
                                c2,
                                player_chunk_pos,
                            ) && !coords_contain(act0, c2) && (c2.x < x || (c2.x == x && (c2.y
                                < yy || (c2.y == yy && c2.z < z + 1)))) by {
                                if coords_contain(chunk_queue.0@, c2) {
                                    let i = choose|i: int|
                                        0 <= i < chunk_queue.0@.len() && chunk_queue.0@[i] == c2;
                                    if i < pre.len() {
                                        assert(pre[i] == c2);
                                        assert(coords_contain(pre, c2));
                                    } else {
                                        assert(c2 == c);
                                    }
                                }
                                if spec_chunk_in_world(cfg, c2) && in_range2d(
                                    cfg,
                                    c2,
                                    player_chunk_pos,
                                ) && !coords_contain(act0, c2) && (c2.x < x || (c2.x == x && (c2.y
                                    < yy || (c2.y == yy && c2.z < z + 1)))) {
                                    if c2.x < x || (c2.x == x && (c2.y < yy || (c2.y == yy && c2.z
                                        < z))) {
                                        assert(coords_contain(pre, c2));
                                        let i = choose|i: int| 0 <= i < pre.len() && pre[i] == c2;
                                        assert(chunk_queue.0@[i] == c2);
                                    } else {
                                        assert(c2 == c);
                                        assert(chunk_queue.0@[pre.len() as int] == c);
                                    }
                                }
                            }
                        }
                    } else {
                        proof {
                            assert forall|c2: ChunkCoord| #[trigger] coords_contain(
                                chunk_queue.0@,
                                c2,
                            ) <==> spec_chunk_in_world(cfg, c2) && in_range2d(
                                cfg,
                                c2,
                                player_chunk_pos,
                            ) && !coords_contain(act0, c2) && (c2.x < x || (c2.x == x && (c2.y
                                < yy || (c2.y == yy && c2.z < z + 1)))) by {}
                        }
                    }
                } else {
                    proof {
                        assert forall|c2: ChunkCoord| #[trigger] coords_contain(
                            chunk_queue.0@,
                            c2,
                        ) <==> spec_chunk_in_world(cfg, c2) && in_range2d(
                            cfg,
                            c2,
                            player_chunk_pos,
                        ) && !coords_contain(act0, c2) && (c2.x < x || (c2.x == x && (c2.y < yy || (
                        c2.y == yy && c2.z < z + 1)))) by {
                            if c2.x == x && c2.y == yy && c2.z == z {
                                assert(!spec_chunk_in_world(cfg, c2));
                            }
                        }
                    }
                }
                dz = dz + 1;
            }
            yy = yy + 1;
        }
        dx = dx + 1;
    }
    let mut released: Vec<u64> = Vec::new();
    let mut i: usize = active_chunks.0.len();
    while i > 0
        invariant
            i <= active_chunks.0@.len(),
            active_chunks.0@.len() <= act0.len(),
            i <= act0.len(),
            chunk_map.wf(),
            chunk_map.config == cfg,
            chunk_map.next_handle == map0.next_handle,
            forall|c: ChunkCoord|
                spec_chunk_in_world(cfg, c) ==> #[trigger] chunk_map.spec_chunk_at(c)
                    == map0.spec_chunk_at(c),
            active_chunks.0@.subrange(0, i as int) == act0.subrange(0, i as int),
            forall|j: int|
                i <= j < active_chunks.0@.len() ==> in_range2d(
                    cfg,
                    #[trigger] active_chunks.0@[j],
                    player_chunk_pos,
                ),
            coords_distinct(active_chunks.0@),
            forall|c: ChunkCoord|
                #[trigger] coords_contain(active_chunks.0@, c) <==> coords_contain(act0, c) && (
                in_range2d(cfg, c, player_chunk_pos) || exists|j: int|
                    0 <= j < i && act0[j] == c),
            forall|c: ChunkCoord|
                spec_chunk_in_world(cfg, c) ==> #[trigger] chunk_map.spec_handle_at(c) == (
                if map0.spec_handle_at(c).is_some() && !in_range2d(cfg, c, player_chunk_pos) && !(
                exists|j: int| 0 <= j < i && act0[j] == c) {
                    None
                } else {
                    map0.spec_handle_at(c)
                }),
            forall|h: u64|
                #[trigger] released@.contains(h) <==> exists|c: ChunkCoord|
                    spec_chunk_in_world(cfg, c) && #[trigger] map0.spec_handle_at(c) == Some(h)
                        && !in_range2d(cfg, c, player_chunk_pos) && !(exists|j: int|
                        0 <= j < i && act0[j] == c) && coords_contain(act0, c),
            forall|i2: int, j2: int|
                0 <= i2 < j2 < released@.len() ==> released@[i2] != released@[j2],
        decreases i,
    {
        i = i - 1;
        let cc = active_chunks.0[i];
        proof {
            assert(active_chunks.0@.subrange(0, i as int + 1)[i as int] == act0.subrange(
                0,
                i as int + 1,
            )[i as int]);
            assert(active_chunks.0@[i as int] == act0[i as int]);
            assert(coords_contain(act0, cc));
            assert(coords_contain(active_chunks.0@, cc));
            assert(spec_chunk_in_world(cfg, cc));
        }
        let ccx: i64 = cc.x as i64;
        let ccz: i64 = cc.z as i64;
        if ccx < px - rd as i64 || ccx > px + rd as i64 || ccz < pz - rd as i64 || ccz > pz
            + rd as i64 {
            assert(!in_range2d(cfg, cc, player_chunk_pos));
            let h = chunk_map.get_handle(cc);
            if h.is_some() {
                let hv = h.unwrap();
                chunk_map.set_handle(cc, None);
                let ghost rel_pre = released@;
                proof {
                    assert(map0.spec_handle_at(cc) == Some(hv));
                    assert(!rel_pre.contains(hv)) by {
                        if rel_pre.contains(hv) {
                            let c2 = choose|c2: ChunkCoord|
                                spec_chunk_in_world(cfg, c2) && #[trigger] map0.spec_handle_at(c2)
                                    == Some(hv) && !in_range2d(cfg, c2, player_chunk_pos) && !(
                                exists|j: int| 0 <= j < i + 1 && act0[j] == c2) && coords_contain(
                                    act0,
                                    c2,
                                );
                            assert(c2 == cc);
                            assert(act0[i as int] == cc);
                        }
                    }
                }
                released.push(hv);
                proof {
                    assert(forall|i2: int, j2: int|
                        0 <= i2 < j2 < released@.len() ==> released@[i2] != released@[j2]) by {
                        assert(forall|j2: int|
                            0 <= j2 < rel_pre.len() ==> rel_pre[j2] != hv) by {
                            assert(!rel_pre.contains(hv));
                        }
                    }
                    assert(map0.spec_handle_at(cc) == Some(hv));
                    assert forall|h2: u64| #[trigger] released@.contains(h2) <==> exists|
                        c: ChunkCoord,
                    |
                        spec_chunk_in_world(cfg, c) && #[trigger] map0.spec_handle_at(c) == Some(
                            h2,
                        ) && !in_range2d(cfg, c, player_chunk_pos) && !(exists|j: int|
                            0 <= j < i && act0[j] == c) && coords_contain(act0, c) by {
                        if released@.contains(h2) {
                            if rel_pre.contains(h2) {
                                let c2 = choose|c2: ChunkCoord|
                                    spec_chunk_in_world(cfg, c2) && #[trigger] map0.spec_handle_at(
                                        c2,
                                    ) == Some(h2) && !in_range2d(cfg, c2, player_chunk_pos) && !(
                                    exists|j: int| 0 <= j < i + 1 && act0[j] == c2)
                                        && coords_contain(act0, c2);
                                assert(!(exists|j: int| 0 <= j < i && act0[j] == c2));
                            } else {
                                assert(h2 == hv);
                                assert(!(exists|j: int| 0 <= j < i && act0[j] == cc)) by {
                                    if exists|j: int| 0 <= j < i && act0[j] == cc {
                                        let j = choose|j: int| 0 <= j < i && act0[j] == cc;
                                        assert(act0[j] == act0[i as int]);
                                    }
                                }
                            }
                        }
                        if exists|c: ChunkCoord|
                            spec_chunk_in_world(cfg, c) && #[trigger] map0.spec_handle_at(c)
                                == Some(h2) && !in_range2d(cfg, c, player_chunk_pos) && !(exists|
                                j: int,
                            | 0 <= j < i && act0[j] == c) && coords_contain(act0, c) {
                            let c2 = choose|c2: ChunkCoord|
                                spec_chunk_in_world(cfg, c2) && #[trigger] map0.spec_handle_at(c2)
                                    == Some(h2) && !in_range2d(cfg, c2, player_chunk_pos) && !(
                                exists|j: int| 0 <= j < i && act0[j] == c2) && coords_contain(
                                    act0,
                                    c2,
                                );
                            if c2 == cc {
                                assert(released@[released@.len() - 1] == hv);
                                assert(released@.contains(h2));
                            } else {
                                assert(!(exists|j: int| 0 <= j < i + 1 && act0[j] == c2)) by {
                                    if exists|j: int| 0 <= j < i + 1 && act0[j] == c2 {
                                        let j = choose|j: int| 0 <= j < i + 1 && act0[j] == c2;
                                        assert(act0[j] == act0[i as int]);
                                        assert(c2 == cc);
                                    }
                                }
                                assert(rel_pre.contains(h2));
                                let j = choose|j: int|
                                    0 <= j < rel_pre.len() && rel_pre[j] == h2;
                                assert(released@[j] == h2);
                                assert(released@.contains(h2));
                            }
                        }
                    }
                }
            } else {
                proof {
                    assert forall|h2: u64| #[trigger] released@.contains(h2) <==> exists|
                        c: ChunkCoord,
                    |
                        spec_chunk_in_world(cfg, c) && #[trigger] map0.spec_handle_at(c) == Some(
                            h2,
                        ) && !in_range2d(cfg, c, player_chunk_pos) && !(exists|j: int|
                            0 <= j < i && act0[j] == c) && coords_contain(act0, c) by {
                        if released@.contains(h2) {
                            let c2 = choose|c2: ChunkCoord|
                                spec_chunk_in_world(cfg, c2) && #[trigger] map0.spec_handle_at(c2)
                                    == Some(h2) && !in_range2d(cfg, c2, player_chunk_pos) && !(
                                exists|j: int| 0 <= j < i + 1 && act0[j] == c2) && coords_contain(
                                    act0,
                                    c2,
                                );
                            assert(!(exists|j: int| 0 <= j < i && act0[j] == c2));
                        }
                        if exists|c: ChunkCoord|
                            spec_chunk_in_world(cfg, c) && #[trigger] map0.spec_handle_at(c)
                                == Some(h2) && !in_range2d(cfg, c, player_chunk_pos) && !(exists|
                                j: int,
                            | 0 <= j < i && act0[j] == c) && coords_contain(act0, c) {
                            let c2 = choose|c2: ChunkCoord|
                                spec_chunk_in_world(cfg, c2) && #[trigger] map0.spec_handle_at(c2)
                                    == Some(h2) && !in_range2d(cfg, c2, player_chunk_pos) && !(
                                exists|j: int| 0 <= j < i && act0[j] == c2) && coords_contain(
                                    act0,
                                    c2,
                                );
                            if c2 == cc {
                                assert(map0.spec_handle_at(cc) == chunk_map.spec_handle_at(cc));
                                assert(false);
                            } else {
                                assert(!(exists|j: int| 0 <= j < i + 1 && act0[j] == c2)) by {
                                    if exists|j: int| 0 <= j < i + 1 && act0[j] == c2 {
                                        let j = choose|j: int| 0 <= j < i + 1 && act0[j] == c2;
                                        assert(act0[j] == act0[i as int]);
                                        assert(c2 == cc);
                                    }
                                }
                            }
                        }
                    }
                }
            }
            let ghost apre = active_chunks.0@;
            active_chunks.0.swap_remove(i);
            proof {
                assert(apre[i as int] == cc);
                assert forall|c2: ChunkCoord| #[trigger] coords_contain(active_chunks.0@, c2)
                    <==> coords_contain(act0, c2) && (in_range2d(cfg, c2, player_chunk_pos) || (
                exists|j: int| 0 <= j < i && act0[j] == c2)) by {
                    if coords_contain(active_chunks.0@, c2) {
                        let j = choose|j: int|
                            0 <= j < active_chunks.0@.len() && active_chunks.0@[j] == c2;
                        if j == i {
                            assert(active_chunks.0@[j] == apre[apre.len() - 1]);
                            assert(coords_contain(apre, c2));
                        } else {
                            assert(apre[j] == c2);
                            assert(coords_contain(apre, c2));
                        }
                        assert(c2 != cc) by {
                            if c2 == cc {
                                let j2 = choose|j2: int|
                                    0 <= j2 < apre.len() && apre[j2] == c2 && j2 != i;
                                assert(apre[j2] == apre[i as int]);
                            }
                        }
                        assert(!(exists|j: int| 0 <= j < i + 1 && act0[j] == c2) <==> !(exists|
                            j: int,
                        | 0 <= j < i && act0[j] == c2)) by {
                            if exists|j: int| 0 <= j < i + 1 && act0[j] == c2 {
                                let j = choose|j: int| 0 <= j < i + 1 && act0[j] == c2;
                                if j == i {
                                    assert(c2 == cc);
                                }
                            }
                        }
                    }
                    if coords_contain(act0, c2) && (in_range2d(cfg, c2, player_chunk_pos) || (
                    exists|j: int| 0 <= j < i && act0[j] == c2)) {
                        assert(coords_contain(apre, c2));
                        let j = choose|j: int| 0 <= j < apre.len() && apre[j] == c2;
                        assert(c2 != cc) by {
                            if c2 == cc {
                                if in_range2d(cfg, c2, player_chunk_pos) {
                                } else {
                                    let j2 = choose|j2: int| 0 <= j2 < i && act0[j2] == c2;
                                    assert(act0[j2] == act0[i as int]);
                                }
                            }
                        }
                        if j == apre.len() - 1 {
                            if i < apre.len() - 1 {
                                assert(active_chunks.0@[i as int] == c2);
                            } else {
                                assert(j == i);
                                assert(false);
                            }
                        } else {
                            assert(j != i);
                            assert(active_chunks.0@[j] == c2);
                        }
                    }
                }
                assert(active_chunks.0@.subrange(0, i as int) =~= act0.subrange(0, i as int));
            }
        } else {
            proof {
                assert(in_range2d(cfg, cc, player_chunk_pos));
                assert forall|c2: ChunkCoord| #[trigger] coords_contain(active_chunks.0@, c2)
                    <==> coords_contain(act0, c2) && (in_range2d(cfg, c2, player_chunk_pos) || (
                exists|j: int| 0 <= j < i && act0[j] == c2)) by {
                    if coords_contain(act0, c2) && !in_range2d(cfg, c2, player_chunk_pos) && (
                    exists|j: int| 0 <= j < i + 1 && act0[j] == c2) {
                        let j = choose|j: int| 0 <= j < i + 1 && act0[j] == c2;
                        if j == i {
                            assert(c2 == cc);
                            assert(false);
                        }
                    }
                    if coords_contain(act0, c2) && !in_range2d(cfg, c2, player_chunk_pos) && (
                    exists|j: int| 0 <= j < i && act0[j] == c2) {
                        assert(exists|j: int| 0 <= j < i + 1 && act0[j] == c2);
                    }
                }
                assert forall|h2: u64| #[trigger] released@.contains(h2) <==> exists|
                    c: ChunkCoord,
                |
                    spec_chunk_in_world(cfg, c) && #[trigger] map0.spec_handle_at(c) == Some(h2)
                        && !in_range2d(cfg, c, player_chunk_pos) && !(exists|j: int|
                        0 <= j < i && act0[j] == c) && coords_contain(act0, c) by {
                    if released@.contains(h2) {
                        let c2 = choose|c2: ChunkCoord|
                            spec_chunk_in_world(cfg, c2) && #[trigger] map0.spec_handle_at(c2)
                                == Some(h2) && !in_range2d(cfg, c2, player_chunk_pos) && !(exists|
                                j: int,
                            | 0 <= j < i + 1 && act0[j] == c2) && coords_contain(act0, c2);
                        assert(!(exists|j: int| 0 <= j < i && act0[j] == c2));
                    }
                    if exists|c: ChunkCoord|
                        spec_chunk_in_world(cfg, c) && #[trigger] map0.spec_handle_at(c) == Some(
                            h2,
                        ) && !in_range2d(cfg, c, player_chunk_pos) && !(exists|j: int|
                            0 <= j < i && act0[j] == c) && coords_contain(act0, c) {
                        let c2 = choose|c2: ChunkCoord|
                            spec_chunk_in_world(cfg, c2) && #[trigger] map0.spec_handle_at(c2)
                                == Some(h2) && !in_range2d(cfg, c2, player_chunk_pos) && !(exists|
                                j: int,
                            | 0 <= j < i && act0[j] == c2) && coords_contain(act0, c2);
                        assert(c2 != cc);
                        assert(!(exists|j: int| 0 <= j < i + 1 && act0[j] == c2)) by {
                            if exists|j: int| 0 <= j < i + 1 && act0[j] == c2 {
                                let j = choose|j: int| 0 <= j < i + 1 && act0[j] == c2;
                                assert(act0[j] == act0[i as int]);
                            }
                        }
                    }
                }
                assert forall|c: ChunkCoord| spec_chunk_in_world(cfg, c) implies #[trigger]
                chunk_map.spec_handle_at(c) == (if map0.spec_handle_at(c).is_some()
                    && !in_range2d(cfg, c, player_chunk_pos) && !(exists|j: int|
                    0 <= j < i && act0[j] == c) {
                    None
                } else {
                    map0.spec_handle_at(c)
                }) by {
                    if map0.spec_handle_at(c).is_some() && !in_range2d(
                        cfg,
                        c,
                        player_chunk_pos,
                    ) {
                        assert((exists|j: int| 0 <= j < i + 1 && act0[j] == c) <==> (exists|
                            j: int,
                        | 0 <= j < i && act0[j] == c)) by {
                            if exists|j: int| 0 <= j < i + 1 && act0[j] == c {
                                let j = choose|j: int| 0 <= j < i + 1 && act0[j] == c;
                                if j == i {
                                    assert(c == cc);
                                    assert(false);
                                }
                            }
                        }
                    }
                }
            }
        }
    }
    player_last_chunk.0 = player_chunk_pos;
    proof {
        assert forall|c: ChunkCoord|
            spec_chunk_in_world(cfg, c) && in_range2d(cfg, c, player_chunk_pos) implies
            coords_contain(active_chunks.0@, c) || coords_contain(chunk_queue.0@, c) by {
            if coords_contain(act0, c) {
                assert(coords_contain(active_chunks.0@, c));
            } else {
                assert(coords_contain(chunk_queue.0@, c));
            }
        }
        assert forall|i2: int| 0 <= i2 < active_chunks.0@.len() implies spec_chunk_in_world(
            cfg,
            #[trigger] active_chunks.0@[i2],
        ) && in_range2d(cfg, active_chunks.0@[i2], player_chunk_pos) && chunk_map.spec_chunk_at(
            active_chunks.0@[i2],
        ).is_some() by {
            let c = active_chunks.0@[i2];
            assert(coords_contain(active_chunks.0@, c));
            assert(coords_contain(act0, c));
            let j = choose|j: int| 0 <= j < act0.len() && act0[j] == c;
        }
        assert forall|i2: int| 0 <= i2 < chunk_queue.0@.len() implies spec_chunk_in_world(
            cfg,
            #[trigger] chunk_queue.0@[i2],
        ) && in_range2d(cfg, chunk_queue.0@[i2], player_chunk_pos) && !coords_contain(
            active_chunks.0@,
            chunk_queue.0@[i2],
        ) by {
            let c = chunk_queue.0@[i2];
            assert(coords_contain(chunk_queue.0@, c));
        }
        assert forall|c: ChunkCoord|
            spec_chunk_in_world(cfg, c) && (#[trigger] chunk_map.spec_handle_at(c)).is_some()
            implies coords_contain(active_chunks.0@, c) && spec_displayable(*chunk_map, c)
            && chunk_map.spec_handle_at(c).unwrap() < chunk_map.next_handle by {
            assert(chunk_map.spec_handle_at(c) == map0.spec_handle_at(c));
            assert(map0.spec_handle_at(c).is_some());
            assert(coords_contain(act0, c));
            assert(in_range2d(cfg, c, player_chunk_pos));
            assert(spec_displayable(map0, c));
            assert(chunk_map.spec_chunk_at(c) == map0.spec_chunk_at(c));
        }
        assert forall|c: ChunkCoord|
            spec_chunk_in_world(cfg, c) && #[trigger] coords_contain(active_chunks.0@, c)
                && spec_displayable(*chunk_map, c) implies chunk_map.spec_handle_at(c).is_some()
            || spawn_contains(spawn_queue.0@, c) by {
            assert(coords_contain(act0, c));
            assert(in_range2d(cfg, c, player_chunk_pos));
            assert(chunk_map.spec_chunk_at(c) == map0.spec_chunk_at(c));
            assert(spec_displayable(map0, c));
            assert(map0.spec_handle_at(c).is_some());
            assert(chunk_map.spec_handle_at(c) == map0.spec_handle_at(c));
        }
    }
    released
}

/// Membership in a suffix of a sequence is membership at some index past
/// the cut.
pub proof fn lemma_coords_contain_skip(s: Seq<ChunkCoord>, n: int, c: ChunkCoord)
    requires
        0 <= n <= s.len(),
    ensures
        coords_contain(s.skip(n), c) <==> exists|j: int| n <= j < s.len() && s[j] == c,
{
    if coords_contain(s.skip(n), c) {
        let i = choose|i: int| 0 <= i < s.skip(n).len() && s.skip(n)[i] == c;
        assert(s[i + n] == c);
    }
    if exists|j: int| n <= j < s.len() && s[j] == c {
        let j = choose|j: int| n <= j < s.len() && s[j] == c;
        assert(s.skip(n)[j - n] == c);
    }
}

/// Linear scan of the active list.
pub fn active_contains(active: &ActiveChunks, c: ChunkCoord) -> (r: bool)
    ensures
        r == coords_contain(active.0@, c),
{
    let n = active.0.len();
    let mut i: usize = 0;
    while i < n
        invariant
            i <= n,
            n == active.0@.len(),
            forall|j: int| 0 <= j < i ==> active.0@[j] != c,
        decreases n - i,
    {
        let cc = active.0[i];
        if cc.x == c.x && cc.y == c.y && cc.z == c.z {
            assert(active.0@[i as int] == c);
            return true;
        }
        i = i + 1;
    }
    false
}

} // verus!
