use minecrust::chunk::{generate_chunk, spawn_chunk};
use minecrust::voxel_data::Config;
use minecrust::voxel_map::{HeightField, VoxelMap};
use minecrust::world::{
    active_contains, check_render_distance, is_chunk_in_world, spawn_world, ActiveChunks,
    ChunkCoord, ChunkMap, ChunkToGenerateQueue, ChunkToSpawnQueue, PlayerLastChunk,
};

struct World {
    config: Config,
    voxels: VoxelMap,
    map: ChunkMap,
    gen_q: ChunkToGenerateQueue,
    spawn_q: ChunkToSpawnQueue,
    active: ActiveChunks,
    last: PlayerLastChunk,
    heights: HeightField,
}

fn world(chunk_size: usize, wsc: usize, whc: usize, rd: usize, h: u16) -> World {
    let config = Config::new(chunk_size, wsc, whc, rd).unwrap();
    let heights = HeightField::new(config.world_size(), h);
    World {
        config,
        voxels: VoxelMap::new(config),
        map: ChunkMap::new(config),
        gen_q: ChunkToGenerateQueue(Vec::new()),
        spawn_q: ChunkToSpawnQueue(Vec::new()),
        active: ActiveChunks(Vec::new()),
        last: PlayerLastChunk::new(),
        heights,
    }
}

fn drain(w: &mut World) -> Vec<(ChunkCoord, u64)> {
    generate_chunk(
        &mut w.gen_q,
        &mut w.spawn_q,
        &mut w.voxels,
        &mut w.map,
        &mut w.active,
        &w.heights,
        &w.last,
    );
    spawn_chunk(&mut w.map, &mut w.spawn_q, &w.active, &w.gen_q, &w.last)
}

#[test]
fn equals2d_ignores_the_vertical_axis() {
    let a = ChunkCoord { x: 1, y: 0, z: -2 };
    let b = ChunkCoord { x: 1, y: 7, z: -2 };
    let c = ChunkCoord { x: 2, y: 0, z: -2 };
    assert!(a.equals2d(b));
    assert!(!a.equals2d(c));
}

#[test]
fn chunk_world_bounds() {
    let config = Config::new(16, 8, 1, 1).unwrap();
    assert!(is_chunk_in_world(&ChunkCoord { x: -4, y: 0, z: 3 }, &config));
    assert!(!is_chunk_in_world(&ChunkCoord { x: -5, y: 0, z: 0 }, &config));
    assert!(!is_chunk_in_world(&ChunkCoord { x: 4, y: 0, z: 0 }, &config));
    assert!(!is_chunk_in_world(&ChunkCoord { x: 0, y: 1, z: 0 }, &config));
    assert!(!is_chunk_in_world(&ChunkCoord { x: 0, y: -1, z: 0 }, &config));
}

#[test]
fn initial_load_is_the_three_by_three_neighborhood() {
    // Observer at the origin, render distance 1, chunks of 16: the initial
    // load enqueues exactly the 3x3 neighborhood around chunk (0, 0).
    let mut w = world(16, 8, 1, 1, 3);
    spawn_world(&mut w.gen_q, &w.map, &w.active, &w.spawn_q, &w.last);
    assert_eq!(w.gen_q.0.len(), 9);
    for x in -1..=1 {
        for z in -1..=1 {
            let c = ChunkCoord { x, y: 0, z };
            assert_eq!(w.gen_q.0.iter().filter(|q| **q == c).count(), 1);
        }
    }
    // LIFO pops the innermost chunk first: the origin was pushed last.
    assert!(w.gen_q.0.last().unwrap().equals2d(ChunkCoord { x: 0, y: 0, z: 0 }));
    // rings are pushed outermost first
    let ring = |c: &ChunkCoord| c.x.abs().max(c.z.abs());
    for i in 1..w.gen_q.0.len() {
        assert!(ring(&w.gen_q.0[i - 1]) >= ring(&w.gen_q.0[i]));
    }
    // After one full drain every chunk is active and displayed (threshold 3
    // leaves every chunk partially air with visible geometry).
    let spawned = drain(&mut w);
    assert_eq!(w.active.0.len(), 9);
    assert_eq!(spawned.len(), 9);
    assert!(w.gen_q.0.is_empty());
    assert!(w.spawn_q.0.is_empty());
    for x in -1..=1 {
        for z in -1..=1 {
            let c = ChunkCoord { x, y: 0, z };
            assert!(active_contains(&w.active, c));
            assert!(w.map.has_chunk(c));
            assert!(w.map.get_handle(c).is_some());
        }
    }
    assert!(w.map.get_handle(ChunkCoord { x: 2, y: 0, z: 0 }).is_none());
}

#[test]
fn fully_air_and_fully_solid_chunks_have_null_handles() {
    // Height 0 puts grass only in the bottom layer: chunks above are pure
    // air, mesh nothing, and are defined to have null handles. A towering
    // height makes the bottom chunk fully solid: also never displayed.
    let mut w = world(4, 4, 2, 1, 0);
    spawn_world(&mut w.gen_q, &w.map, &w.active, &w.spawn_q, &w.last);
    drain(&mut w);
    let ground = ChunkCoord { x: 0, y: 0, z: 0 };
    let sky = ChunkCoord { x: 0, y: 1, z: 0 };
    assert!(w.map.get_handle(ground).is_some());
    assert!(w.map.has_chunk(sky));
    assert!(w.map.get_handle(sky).is_none(), "air chunk is not displayed");

    let mut w2 = world(4, 4, 2, 1, 9);
    spawn_world(&mut w2.gen_q, &w2.map, &w2.active, &w2.spawn_q, &w2.last);
    drain(&mut w2);
    assert!(w2.map.has_chunk(ground));
    assert!(w2.map.chunk_is_full(ground));
    assert!(
        w2.map.get_handle(ground).is_none(),
        "fully solid chunk is not displayed"
    );
}

#[test]
fn moving_one_chunk_swaps_exactly_one_column() {
    // Observer moves from chunk (0,0) to (1,0) with render distance 2:
    // exactly the column at x = -2 is evicted and exactly the column at
    // x = 3 is enqueued; everything else is untouched.
    let mut w = world(16, 12, 1, 2, 3);
    spawn_world(&mut w.gen_q, &w.map, &w.active, &w.spawn_q, &w.last);
    drain(&mut w);
    assert_eq!(w.active.0.len(), 25);
    let handle_before = w.map.get_handle(ChunkCoord { x: 0, y: 0, z: 0 });
    let released = check_render_distance(
        ChunkCoord { x: 1, y: 0, z: 0 },
        &mut w.map,
        &mut w.gen_q,
        &mut w.active,
        &mut w.last,
        &w.spawn_q,
    );
    // the five chunks of column x = -2 were evicted and their handles freed
    assert_eq!(released.len(), 5);
    for z in -2..=2 {
        let gone = ChunkCoord { x: -2, y: 0, z };
        assert!(!active_contains(&w.active, gone));
        assert!(w.map.get_handle(gone).is_none());
        assert!(w.map.has_chunk(gone), "terrain is never thrown away");
    }
    // exactly the five chunks of column x = 3 are queued for generation
    assert_eq!(w.gen_q.0.len(), 5);
    for z in -2..=2 {
        let newc = ChunkCoord { x: 3, y: 0, z };
        assert_eq!(w.gen_q.0.iter().filter(|q| **q == newc).count(), 1);
    }
    // chunks that stayed in range kept their handles
    assert_eq!(w.map.get_handle(ChunkCoord { x: 0, y: 0, z: 0 }), handle_before);
    // drain the queues: the streaming settles on the new neighborhood
    drain(&mut w);
    assert_eq!(w.active.0.len(), 25);
    for x in -1..=3 {
        for z in -2..=2 {
            let c = ChunkCoord { x, y: 0, z };
            assert!(active_contains(&w.active, c));
            assert!(w.map.get_handle(c).is_some());
        }
    }
}

#[test]
fn stored_fullness_flags_match_the_terrain() {
    // The drain records per chunk whether its cells all came out solid;
    // the flags must agree with a fresh scan of the volume itself.
    let mut w = world(4, 6, 2, 1, 4);
    spawn_world(&mut w.gen_q, &w.map, &w.active, &w.spawn_q, &w.last);
    drain(&mut w);
    for x in -1..=1 {
        for y in 0..2 {
            for z in -1..=1 {
                let c = ChunkCoord { x, y, z };
                assert!(w.map.has_chunk(c));
                assert_eq!(w.map.chunk_is_full(c), w.voxels.is_chunk_full(c));
            }
        }
    }
    // threshold 4: the bottom chunk layer is fully solid, the top is not
    assert!(w.map.chunk_is_full(ChunkCoord { x: 0, y: 0, z: 0 }));
    assert!(!w.map.chunk_is_full(ChunkCoord { x: 0, y: 1, z: 0 }));
}

#[test]
fn standing_still_changes_nothing() {
    let mut w = world(16, 8, 1, 1, 3);
    spawn_world(&mut w.gen_q, &w.map, &w.active, &w.spawn_q, &w.last);
    drain(&mut w);
    let active_before = w.active.0.clone();
    // Same column, different height: vertical movement does not retrigger
    // streaming.
    let released = check_render_distance(
        ChunkCoord { x: 0, y: 7, z: 0 },
        &mut w.map,
        &mut w.gen_q,
        &mut w.active,
        &mut w.last,
        &w.spawn_q,
    );
    assert!(released.is_empty());
    assert!(w.gen_q.0.is_empty());
    assert_eq!(w.active.0, active_before);
}

#[test]
fn reentering_chunks_are_redisplayed_without_regeneration() {
    let mut w = world(8, 8, 1, 1, 3);
    spawn_world(&mut w.gen_q, &w.map, &w.active, &w.spawn_q, &w.last);
    drain(&mut w);
    let far = ChunkCoord { x: 3, y: 0, z: 0 };
    // walk east until (-1, _, _) leaves range
    check_render_distance(
        far,
        &mut w.map,
        &mut w.gen_q,
        &mut w.active,
        &mut w.last,
        &w.spawn_q,
    );
    drain(&mut w);
    let home = ChunkCoord { x: 0, y: 0, z: 0 };
    assert!(!active_contains(&w.active, home));
    assert!(w.map.get_handle(home).is_none());
    assert!(w.map.has_chunk(home));
    let voxels_snapshot = w.voxels.voxels.clone();
    // walk back: the old chunks re-enter the active set and get fresh
    // handles, and the voxel volume is byte-identical (no regeneration)
    check_render_distance(
        ChunkCoord { x: 0, y: 0, z: 0 },
        &mut w.map,
        &mut w.gen_q,
        &mut w.active,
        &mut w.last,
        &w.spawn_q,
    );
    drain(&mut w);
    assert!(active_contains(&w.active, home));
    assert!(w.map.get_handle(home).is_some());
    assert_eq!(w.voxels.voxels, voxels_snapshot);
}

#[test]
fn settled_state_matches_the_render_neighborhood() {
    // The streaming invariant, sampled: once both queues are empty, the
    // active set is exactly the in-world neighborhood of the last processed
    // chunk, and handles exist exactly for displayable in-range chunks.
    let mut w = world(8, 6, 1, 1, 3);
    spawn_world(&mut w.gen_q, &w.map, &w.active, &w.spawn_q, &w.last);
    drain(&mut w);
    check_render_distance(
        ChunkCoord { x: 2, y: 0, z: 1 },
        &mut w.map,
        &mut w.gen_q,
        &mut w.active,
        &mut w.last,
        &w.spawn_q,
    );
    drain(&mut w);
    for x in -3..4 {
        for z in -3..4 {
            let c = ChunkCoord { x, y: 0, z };
            if !is_chunk_in_world(&c, &w.config) {
                continue;
            }
            let in_range = (1..=3).contains(&x) && (0..=2).contains(&z);
            assert_eq!(active_contains(&w.active, c), in_range, "active set at {x},{z}");
            assert_eq!(w.map.get_handle(c).is_some(), in_range, "handle at {x},{z}");
        }
    }
}
