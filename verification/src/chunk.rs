use vstd::prelude::*;

use crate::mesh::{
    create_mesh, lemma_mesh_congruent, mesh_matches, spec_total_faces, MeshBuffer,
};
use crate::voxel_data::Config;
use crate::voxel_map::{
    in_column_footprint, lemma_chunk_full_congruent, spec_chunk_full, spec_generated_cell,
    spec_in_world, y_in_chunk_extent, HeightField, VoxelMap,
};
use crate::world::{
    coords_contain, in_range2d, spawn_contains, spec_chunk_in_world, spec_displayable,
    streaming_wf,
    ActiveChunks, ChunkCoord, ChunkMap, ChunkToGenerateQueue, ChunkToSpawnQueue, PlayerLastChunk,
};

verus! {

/// Everything the streaming layer remembers about one generated chunk: its
/// coordinate, whether every cell of it is solid (the fast path that skips
/// display), and the extracted surface geometry.
pub struct Chunk {
    pub position: ChunkCoord,
    pub is_full: bool,
    pub mesh: MeshBuffer,
}

/// Cell (x, y, z) lies in the write region of a queue entry at index `lo`
/// or beyond whose coordinate has no chunk record in `map`: exactly the
/// chunks a drain of the queue's tail will generate. Entries that already
/// have records are left alone, so their footprints are not in the region.
pub open spec fn generated_region(
    cfg: Config,
    map: ChunkMap,
    q: Seq<ChunkCoord>,
    lo: int,
    x: int,
    y: int,
    z: int,
) -> bool {
    exists|j: int|
        lo <= j < q.len() && map.spec_chunk_at(#[trigger] q[j]).is_none()
            && in_column_footprint(cfg, q[j], x, z) && y_in_chunk_extent(cfg, q[j], y)
}

/// Drain the generate queue completely. Each popped coordinate that has no
/// chunk record yet gets its terrain generated into the shared volume and
/// its surface extracted and stored; one that was generated before is left
/// as it is (double generation is a no-op). Either way the coordinate is
/// handed to the spawn queue and becomes active.
#[verifier::loop_isolation(false)]
pub fn generate_chunk(
    chunk_to_generate_queue: &mut ChunkToGenerateQueue,
    chunk_to_spawn_queue: &mut ChunkToSpawnQueue,
    voxel_map: &mut VoxelMap,
    chunk_map: &mut ChunkMap,
    active_chunks: &mut ActiveChunks,
    heights: &HeightField,
    player_last_chunk: &PlayerLastChunk,
)
    requires
        streaming_wf(
            *old(chunk_map),
            *old(active_chunks),
            *old(chunk_to_generate_queue),
            *old(chunk_to_spawn_queue),
            *player_last_chunk,
        ),
        old(voxel_map).wf(),
        old(voxel_map).config == old(chunk_map).config,
        heights.wf(),
        heights.size == old(voxel_map).config.spec_world_size(),
    ensures
        streaming_wf(
            *final(chunk_map),
            *final(active_chunks),
            *final(chunk_to_generate_queue),
            *final(chunk_to_spawn_queue),
            *player_last_chunk,
        ),
        final(chunk_to_generate_queue).0@.len() == 0,
        final(voxel_map).wf(),
        final(voxel_map).config == old(voxel_map).config,
        final(chunk_map).config == old(chunk_map).config,
        final(chunk_map).next_handle == old(chunk_map).next_handle,
        forall|c: ChunkCoord|
            spec_chunk_in_world(old(chunk_map).config, c) ==> ((#[trigger] final(chunk_map).spec_chunk_at(c)).is_some() <==> old(chunk_map).spec_chunk_at(c).is_some()
                || coords_contain(old(chunk_to_generate_queue).0@, c)),
        forall|c: ChunkCoord|
            spec_chunk_in_world(old(chunk_map).config, c) && old(chunk_map).spec_chunk_at(
                c,
            ).is_some() ==> #[trigger] final(chunk_map).spec_chunk_at(c) == old(
                chunk_map,
            ).spec_chunk_at(c),
        forall|c: ChunkCoord|
            spec_chunk_in_world(old(chunk_map).config, c) && (#[trigger] final(chunk_map).spec_chunk_at(c)).is_some() && old(chunk_map).spec_chunk_at(c).is_none() ==> final(chunk_map).spec_chunk_at(c).unwrap().position == c,
        forall|c: ChunkCoord|
            spec_chunk_in_world(old(chunk_map).config, c) ==> #[trigger] final(chunk_map).spec_handle_at(c) == old(chunk_map).spec_handle_at(c),
        forall|c: ChunkCoord|
            #[trigger] coords_contain(final(active_chunks).0@, c) <==> coords_contain(
                old(active_chunks).0@,
                c,
            ) || coords_contain(old(chunk_to_generate_queue).0@, c),
        final(chunk_to_spawn_queue).0@.len() == old(chunk_to_spawn_queue).0@.len() + old(
            chunk_to_generate_queue,
        ).0@.len(),
        forall|j: int|
            0 <= j < old(chunk_to_spawn_queue).0@.len() ==> #[trigger] final(chunk_to_spawn_queue).0@[j] == old(chunk_to_spawn_queue).0@[j],
        forall|j: int|
            0 <= j < old(chunk_to_generate_queue).0@.len() ==> (#[trigger] final(chunk_to_spawn_queue).0@[old(chunk_to_spawn_queue).0@.len() + j]).0 == old(
                chunk_to_generate_queue,
            ).0@[old(chunk_to_generate_queue).0@.len() - 1 - j],
        forall|x: int, y: int, z: int|
            #![trigger final(voxel_map).spec_cell(x, y, z)]
            #![trigger old(voxel_map).spec_cell(x, y, z)]
            spec_in_world(old(voxel_map).config, x, y, z) ==> final(voxel_map).spec_cell(x, y, z)
                == (if generated_region(
                old(voxel_map).config,
                *old(chunk_map),
                old(chunk_to_generate_queue).0@,
                0,
                x,
                y,
                z,
            ) {
                spec_generated_cell(
                    old(voxel_map).spec_cell(x, y, z),
                    y,
                    heights.spec_height_at(x, z),
                )
            } else {
                old(voxel_map).spec_cell(x, y, z)
            }),
        forall|c: ChunkCoord|
            spec_chunk_in_world(old(chunk_map).config, c) && coords_contain(
                old(chunk_to_generate_queue).0@,
                c,
            ) && old(chunk_map).spec_chunk_at(c).is_none() ==> (#[trigger] final(chunk_map).spec_chunk_at(c)).unwrap().is_full == spec_chunk_full(*final(voxel_map), c)
                && mesh_matches(
                final(chunk_map).spec_chunk_at(c).unwrap().mesh,
                *final(voxel_map),
                c,
                spec_total_faces(old(chunk_map).config),
            ),
{
    let ghost cfg = chunk_map.config;
    let ghost g0 = chunk_to_generate_queue.0@;
    let ghost s0 = chunk_to_spawn_queue.0@;
    let ghost a0 = active_chunks.0@;
    let ghost map0 = *chunk_map;
    let ghost vox0 = *voxel_map;
    while chunk_to_generate_queue.0.len() > 0
        invariant
            streaming_wf(
                *chunk_map,
                *active_chunks,
                *chunk_to_generate_queue,
                *chunk_to_spawn_queue,
                *player_last_chunk,
            ),
            voxel_map.wf(),
            voxel_map.config == cfg,
            chunk_map.config == cfg,
            chunk_map.next_handle == map0.next_handle,
            chunk_to_generate_queue.0@.len() <= g0.len(),
            chunk_to_generate_queue.0@ == g0.take(chunk_to_generate_queue.0@.len() as int),
            forall|c: ChunkCoord|
                spec_chunk_in_world(cfg, c) ==> ((#[trigger] chunk_map.spec_chunk_at(c)).is_some()
                    <==> map0.spec_chunk_at(c).is_some() || coords_contain(
                    g0.skip(chunk_to_generate_queue.0@.len() as int),
                    c,
                )),
            forall|c: ChunkCoord|
                spec_chunk_in_world(cfg, c) && map0.spec_chunk_at(c).is_some() ==> #[trigger]
                chunk_map.spec_chunk_at(c) == map0.spec_chunk_at(c),
            forall|c: ChunkCoord|
                spec_chunk_in_world(cfg, c) && (#[trigger] chunk_map.spec_chunk_at(c)).is_some()
                    && map0.spec_chunk_at(c).is_none() ==> chunk_map.spec_chunk_at(
                    c,
                ).unwrap().position == c,
            forall|c: ChunkCoord|
                spec_chunk_in_world(cfg, c) ==> #[trigger] chunk_map.spec_handle_at(c)
                    == map0.spec_handle_at(c),
            forall|c: ChunkCoord|
                #[trigger] coords_contain(active_chunks.0@, c) <==> coords_contain(a0, c)
                    || coords_contain(g0.skip(chunk_to_generate_queue.0@.len() as int), c),
            chunk_to_spawn_queue.0@.len() == s0.len() + g0.len()
                - chunk_to_generate_queue.0@.len(),
            forall|j: int|
                0 <= j < s0.len() ==> #[trigger] chunk_to_spawn_queue.0@[j] == s0[j],
            forall|j: int|
                0 <= j < g0.len() - chunk_to_generate_queue.0@.len() ==> (
                #[trigger] chunk_to_spawn_queue.0@[s0.len() + j]).0 == g0[g0.len() - 1 - j],
            forall|x: int, y: int, z: int|
                #![trigger voxel_map.spec_cell(x, y, z)]
                #![trigger vox0.spec_cell(x, y, z)]
                spec_in_world(cfg, x, y, z) ==> voxel_map.spec_cell(x, y, z) == (
                if generated_region(
                    cfg,
                    map0,
                    g0,
                    chunk_to_generate_queue.0@.len() as int,
                    x,
                    y,
                    z,
                ) {
                    spec_generated_cell(
                        vox0.spec_cell(x, y, z),
                        y,
                        heights.spec_height_at(x, z),
                    )
                } else {
                    vox0.spec_cell(x, y, z)
                }),
            forall|c: ChunkCoord|
                spec_chunk_in_world(cfg, c) && (#[trigger] chunk_map.spec_chunk_at(c)).is_some()
                    && map0.spec_chunk_at(c).is_none() ==> chunk_map.spec_chunk_at(
                    c,
                ).unwrap().is_full == spec_chunk_full(*voxel_map, c) && mesh_matches(
                    chunk_map.spec_chunk_at(c).unwrap().mesh,
                    *voxel_map,
                    c,
                    spec_total_faces(cfg),
                ),
        decreases chunk_to_generate_queue.0@.len(),
    {
        let ghost gpre = chunk_to_generate_queue.0@;
        let ghost mpre = *chunk_map;
        let ghost vpre = *voxel_map;
        let ghost apre = active_chunks.0@;
        let ghost apre_s = *active_chunks;
        let ghost gpre_s = *chunk_to_generate_queue;
        let ghost spre_s = *chunk_to_spawn_queue;
        let ghost spre = chunk_to_spawn_queue.0@;
        let chunk_pos = chunk_to_generate_queue.0.pop().unwrap();
        let ghost m = chunk_to_generate_queue.0@.len() as int;
        proof {
            assert(gpre[m] == g0.take(m + 1)[m]);
            assert(chunk_pos == g0[m]);
            assert(chunk_to_generate_queue.0@ =~= g0.take(m));
            assert(spec_chunk_in_world(cfg, gpre[m]));
            assert(!coords_contain(apre, chunk_pos));
        }
        let is_full: bool;
        if !chunk_map.has_chunk(chunk_pos) {
            proof {
                assert(map0.spec_chunk_at(chunk_pos).is_none());
            }
            is_full = voxel_map.populate_voxel_map(chunk_pos, heights);
            let mesh = create_mesh(&chunk_pos, voxel_map);
            let ghost mesh_snap = mesh;
            chunk_map.set_chunk(chunk_pos, Chunk { position: chunk_pos, is_full, mesh });
            proof {
                assert(spec_total_faces(cfg) >= 6) by (nonlinear_arith)
                    requires
                        1 <= cfg.chunk_size,
                ;
                assert(chunk_map.spec_chunk_at(chunk_pos) == Some(
                    Chunk { position: chunk_pos, is_full, mesh: mesh_snap },
                ));
                assert forall|x: int, y: int, z: int|
                    #![trigger voxel_map.spec_cell(x, y, z)]
                    #![trigger vox0.spec_cell(x, y, z)]
                    spec_in_world(cfg, x, y, z) implies voxel_map.spec_cell(x, y, z) == (
                if generated_region(cfg, map0, g0, m, x, y, z) {
                    spec_generated_cell(vox0.spec_cell(x, y, z), y, heights.spec_height_at(x, z))
                } else {
                    vox0.spec_cell(x, y, z)
                }) by {
                    if in_column_footprint(cfg, chunk_pos, x, z) && y_in_chunk_extent(
                        cfg,
                        chunk_pos,
                        y,
                    ) {
                        assert(voxel_map.spec_cell(x, y, z) == spec_generated_cell(
                            vpre.spec_cell(x, y, z),
                            y,
                            heights.spec_height_at(x, z),
                        ));
                        assert(generated_region(cfg, map0, g0, m, x, y, z)) by {
                            assert(m <= m < g0.len() && map0.spec_chunk_at(g0[m]).is_none()
                                && in_column_footprint(cfg, g0[m], x, z) && y_in_chunk_extent(
                                cfg,
                                g0[m],
                                y,
                            ));
                        }
                    } else {
                        assert(voxel_map.spec_cell(x, y, z) == vpre.spec_cell(x, y, z));
                        assert(generated_region(cfg, map0, g0, m, x, y, z)
                            == generated_region(cfg, map0, g0, m + 1, x, y, z)) by {
                            if generated_region(cfg, map0, g0, m, x, y, z) {
                                let j = choose|j: int|
                                    m <= j < g0.len() && map0.spec_chunk_at(
                                        #[trigger] g0[j],
                                    ).is_none() && in_column_footprint(cfg, g0[j], x, z)
                                        && y_in_chunk_extent(cfg, g0[j], y);
                                assert(j != m);
                                assert(generated_region(cfg, map0, g0, m + 1, x, y, z));
                            }
                            if generated_region(cfg, map0, g0, m + 1, x, y, z) {
                                let j = choose|j: int|
                                    m + 1 <= j < g0.len() && map0.spec_chunk_at(
                                        #[trigger] g0[j],
                                    ).is_none() && in_column_footprint(cfg, g0[j], x, z)
                                        && y_in_chunk_extent(cfg, g0[j], y);
                                assert(generated_region(cfg, map0, g0, m, x, y, z));
                            }
                        }
                    }
                }
                assert forall|c: ChunkCoord|
                    spec_chunk_in_world(cfg, c) && (#[trigger] chunk_map.spec_chunk_at(
                        c,
                    )).is_some() && map0.spec_chunk_at(c).is_none() implies chunk_map.spec_chunk_at(
                    c,
                ).unwrap().is_full == spec_chunk_full(*voxel_map, c) && mesh_matches(
                    chunk_map.spec_chunk_at(c).unwrap().mesh,
                    *voxel_map,
                    c,
                    spec_total_faces(cfg),
                ) by {
                    if c == chunk_pos {
                        assert(chunk_map.spec_chunk_at(c).unwrap().is_full == is_full);
                        assert(chunk_map.spec_chunk_at(c).unwrap().mesh == mesh_snap);
                    } else {
                        assert(chunk_map.spec_chunk_at(c) == mpre.spec_chunk_at(c));
                        assert(mpre.spec_chunk_at(c).unwrap().is_full == spec_chunk_full(
                            vpre,
                            c,
                        ));
                        assert(mesh_matches(
                            mpre.spec_chunk_at(c).unwrap().mesh,
                            vpre,
                            c,
                            spec_total_faces(cfg),
                        ));
                        crate::world::lemma_coords_contain_skip(g0, m + 1, c);
                        assert(coords_contain(g0.skip(m + 1), c));
                        let j = choose|j: int| m + 1 <= j < g0.len() && g0[j] == c;
                        assert forall|x: int, y: int, z: int|
                            in_column_footprint(cfg, c, x, z) && y_in_chunk_extent(
                                cfg,
                                c,
                                y,
                            ) implies vpre.spec_cell(x, y, z) == voxel_map.spec_cell(x, y, z) by {
                            assert(spec_in_world(cfg, x, y, z));
                            assert(map0.spec_chunk_at(g0[j]).is_none());
                            assert(generated_region(cfg, map0, g0, m + 1, x, y, z));
                            assert(generated_region(cfg, map0, g0, m, x, y, z));
                        }
                        lemma_chunk_full_congruent(vpre, *voxel_map, c);
                        lemma_mesh_congruent(vpre, *voxel_map, c, spec_total_faces(cfg));
                    }
                }
            }
        } else {
            is_full = chunk_map.chunk_is_full(chunk_pos);
            proof {
                assert(map0.spec_chunk_at(chunk_pos).is_some()) by {
                    if map0.spec_chunk_at(chunk_pos).is_none() {
                        crate::world::lemma_coords_contain_skip(g0, m + 1, chunk_pos);
                        let j = choose|j: int| m + 1 <= j < g0.len() && g0[j] == chunk_pos;
                        assert(g0[j] == g0[m]);
                    }
                }
                assert forall|x: int, y: int, z: int|
                    #![trigger voxel_map.spec_cell(x, y, z)]
                    #![trigger vox0.spec_cell(x, y, z)]
                    spec_in_world(cfg, x, y, z) implies voxel_map.spec_cell(x, y, z) == (
                if generated_region(cfg, map0, g0, m, x, y, z) {
                    spec_generated_cell(vox0.spec_cell(x, y, z), y, heights.spec_height_at(x, z))
                } else {
                    vox0.spec_cell(x, y, z)
                }) by {
                    assert(generated_region(cfg, map0, g0, m, x, y, z) == generated_region(
                        cfg,
                        map0,
                        g0,
                        m + 1,
                        x,
                        y,
                        z,
                    )) by {
                        if generated_region(cfg, map0, g0, m, x, y, z) {
                            let j = choose|j: int|
                                m <= j < g0.len() && map0.spec_chunk_at(
                                    #[trigger] g0[j],
                                ).is_none() && in_column_footprint(cfg, g0[j], x, z)
                                    && y_in_chunk_extent(cfg, g0[j], y);
                            assert(j != m);
                            assert(generated_region(cfg, map0, g0, m + 1, x, y, z));
                        }
                        if generated_region(cfg, map0, g0, m + 1, x, y, z) {
                            let j = choose|j: int|
                                m + 1 <= j < g0.len() && map0.spec_chunk_at(
                                    #[trigger] g0[j],
                                ).is_none() && in_column_footprint(cfg, g0[j], x, z)
                                    && y_in_chunk_extent(cfg, g0[j], y);
                            assert(generated_region(cfg, map0, g0, m, x, y, z));
                        }
                    }
                }
            }
        }
        chunk_to_spawn_queue.0.push((chunk_pos, is_full));
        active_chunks.0.push(chunk_pos);
        proof {
            assert(active_chunks.0@ == apre.push(chunk_pos));
            assert forall|c: ChunkCoord| #[trigger] coords_contain(active_chunks.0@, c)
                <==> coords_contain(a0, c) || coords_contain(g0.skip(m), c) by {
                crate::world::lemma_coords_contain_skip(g0, m, c);
                crate::world::lemma_coords_contain_skip(g0, m + 1, c);
                if coords_contain(active_chunks.0@, c) {
                    let i = choose|i: int|
                        0 <= i < active_chunks.0@.len() && active_chunks.0@[i] == c;
                    if i < apre.len() {
                        assert(apre[i] == c);
                        assert(coords_contain(apre, c));
                    } else {
                        assert(c == chunk_pos);
                        assert(g0[m] == c);
                    }
                }
                if coords_contain(a0, c) {
                    assert(coords_contain(apre, c));
                    let i = choose|i: int| 0 <= i < apre.len() && apre[i] == c;
                    assert(active_chunks.0@[i] == c);
                    assert(coords_contain(active_chunks.0@, c));
                }
                if coords_contain(g0.skip(m), c) {
                    let j = choose|j: int| m <= j < g0.len() && g0[j] == c;
                    if j == m {
                        assert(c == chunk_pos);
                        assert(active_chunks.0@[apre.len() as int] == c);
                        assert(coords_contain(active_chunks.0@, c));
                    } else {
                        assert(coords_contain(g0.skip(m + 1), c));
                        assert(coords_contain(apre, c));
                        let i = choose|i: int| 0 <= i < apre.len() && apre[i] == c;
                        assert(active_chunks.0@[i] == c);
                    }
                }
            }
            assert forall|c: ChunkCoord| spec_chunk_in_world(cfg, c) implies ((
            #[trigger] chunk_map.spec_chunk_at(c)).is_some() <==> map0.spec_chunk_at(c).is_some()
                || coords_contain(g0.skip(m), c)) by {
                crate::world::lemma_coords_contain_skip(g0, m, c);
                crate::world::lemma_coords_contain_skip(g0, m + 1, c);
                if c == chunk_pos {
                    assert(g0[m] == c);
                    assert(coords_contain(g0.skip(m), c));
                    assert(chunk_map.spec_chunk_at(c).is_some());
                } else {
                    assert(chunk_map.spec_chunk_at(c) == mpre.spec_chunk_at(c));
                    assert(coords_contain(g0.skip(m), c) <==> coords_contain(g0.skip(m + 1), c))
                        by {
                        if coords_contain(g0.skip(m), c) {
                            let j = choose|j: int| m <= j < g0.len() && g0[j] == c;
                            assert(j != m);
                        }
                    }
                }
            }
            let gq = chunk_to_generate_queue.0@;
            let act = active_chunks.0@;
            let sq = chunk_to_spawn_queue.0@;
            assert(streaming_wf(mpre, apre_s, gpre_s, spre_s, *player_last_chunk));
            assert(chunk_map.spec_handle_at(chunk_pos).is_none()) by {
                assert(chunk_map.spec_handle_at(chunk_pos) == mpre.spec_handle_at(chunk_pos));
                if mpre.spec_handle_at(chunk_pos).is_some() {
                    assert(coords_contain(apre, chunk_pos));
                }
            }
            assert forall|c: ChunkCoord|
                spec_chunk_in_world(cfg, c) && in_range2d(cfg, c, player_last_chunk.0) implies
                coords_contain(act, c) || coords_contain(gq, c) by {
                if !coords_contain(act, c) {
                    assert(!coords_contain(apre, c)) by {
                        if coords_contain(apre, c) {
                            let i = choose|i: int| 0 <= i < apre.len() && apre[i] == c;
                            assert(act[i] == c);
                        }
                    }
                    assert(coords_contain(gpre, c));
                    let j = choose|j: int| 0 <= j < gpre.len() && gpre[j] == c;
                    if j == m {
                        assert(c == chunk_pos);
                        assert(act[apre.len() as int] == c);
                    } else {
                        assert(gq[j] == gpre[j]);
                        assert(coords_contain(gq, c));
                    }
                }
            }
            assert forall|i: int| 0 <= i < gq.len() implies spec_chunk_in_world(
                cfg,
                #[trigger] gq[i],
            ) && in_range2d(cfg, gq[i], player_last_chunk.0) && !coords_contain(act, gq[i]) by {
                assert(gq[i] == gpre[i]);
                if coords_contain(act, gq[i]) {
                    let k = choose|k: int| 0 <= k < act.len() && act[k] == gq[i];
                    if k < apre.len() {
                        assert(apre[k] == gq[i]);
                        assert(coords_contain(apre, gpre[i]));
                    } else {
                        assert(gq[i] == chunk_pos);
                        assert(gpre[i] == gpre[m]);
                    }
                }
            }
            assert forall|c: ChunkCoord|
                spec_chunk_in_world(cfg, c) && (#[trigger] chunk_map.spec_handle_at(
                    c,
                )).is_some() implies coords_contain(act, c) && spec_displayable(*chunk_map, c)
                && chunk_map.spec_handle_at(c).unwrap() < chunk_map.next_handle by {
                assert(chunk_map.spec_handle_at(c) == mpre.spec_handle_at(c));
                assert(coords_contain(apre, c));
                assert(c != chunk_pos);
                assert(chunk_map.spec_chunk_at(c) == mpre.spec_chunk_at(c));
                let i = choose|i: int| 0 <= i < apre.len() && apre[i] == c;
                assert(act[i] == c);
            }
            assert forall|c: ChunkCoord|
                spec_chunk_in_world(cfg, c) && #[trigger] coords_contain(act, c)
                    && spec_displayable(*chunk_map, c) implies chunk_map.spec_handle_at(
                c,
            ).is_some() || spawn_contains(sq, c) by {
                if c == chunk_pos {
                    assert(sq[spre.len() as int].0 == chunk_pos);
                    assert(spawn_contains(sq, c));
                } else {
                    let i = choose|i: int| 0 <= i < act.len() && act[i] == c;
                    assert(i < apre.len());
                    assert(apre[i] == c);
                    assert(coords_contain(apre, c));
                    assert(chunk_map.spec_chunk_at(c) == mpre.spec_chunk_at(c));
                    assert(spec_displayable(mpre, c));
                    if !mpre.spec_handle_at(c).is_some() {
                        assert(spawn_contains(spre, c));
                        let k = choose|k: int| 0 <= k < spre.len() && (#[trigger] spre[k]).0 == c;
                        assert(sq[k].0 == c);
                        assert(spawn_contains(sq, c));
                    }
                }
            }
            assert(crate::world::spawn_coords_distinct(sq)) by {
                assert forall|i: int, j: int| 0 <= i < j < sq.len() implies (#[trigger] sq[i]).0
                    != (#[trigger] sq[j]).0 by {
                    if j == sq.len() - 1 {
                        assert(sq[i] == spre[i]);
                        assert(sq[j].0 == chunk_pos);
                        assert(coords_contain(apre, spre[i].0));
                    } else {
                        assert(sq[i] == spre[i] && sq[j] == spre[j]);
                    }
                }
            }
            assert forall|i: int| 0 <= i < sq.len() implies spec_chunk_in_world(
                cfg,
                (#[trigger] sq[i]).0,
            ) && coords_contain(act, sq[i].0) && chunk_map.spec_chunk_at(sq[i].0).is_some()
                && chunk_map.spec_handle_at(sq[i].0).is_none() && sq[i].1 == chunk_map.spec_chunk_at(
                sq[i].0,
            ).unwrap().is_full by {
                if i < spre.len() {
                    assert(sq[i] == spre[i]);
                    let c = spre[i].0;
                    assert(coords_contain(apre, c));
                    assert(c != chunk_pos);
                    assert(chunk_map.spec_chunk_at(c) == mpre.spec_chunk_at(c));
                    assert(chunk_map.spec_handle_at(c) == mpre.spec_handle_at(c));
                    let k = choose|k: int| 0 <= k < apre.len() && apre[k] == c;
                    assert(act[k] == c);
                } else {
                    assert(sq[i] == (chunk_pos, is_full));
                    assert(act[apre.len() as int] == chunk_pos);
                }
            }
        }
    }
    proof {
        assert(g0.skip(0) =~= g0);
    }
}

/// Drain the spawn queue completely. Each popped chunk that is not fully
/// solid and has visible geometry is assigned a fresh display handle,
/// recorded in the chunk map; the returned list tells the display layer
/// which chunks to realize under which handle. Fully solid chunks and
/// chunks whose surface is empty are deliberately never displayed.
#[verifier::loop_isolation(false)]
pub fn spawn_chunk(
    chunk_map: &mut ChunkMap,
    chunk_to_spawn_queue: &mut ChunkToSpawnQueue,
    active_chunks: &ActiveChunks,
    chunk_queue: &ChunkToGenerateQueue,
    player_last_chunk: &PlayerLastChunk,
) -> (spawned: Vec<(ChunkCoord, u64)>)
    requires
        streaming_wf(
            *old(chunk_map),
            *active_chunks,
            *chunk_queue,
            *old(chunk_to_spawn_queue),
            *player_last_chunk,
        ),
        old(chunk_map).next_handle + old(chunk_to_spawn_queue).0@.len() <= u64::MAX,
    ensures
        streaming_wf(
            *final(chunk_map),
            *active_chunks,
            *chunk_queue,
            *final(chunk_to_spawn_queue),
            *player_last_chunk,
        ),
        final(chunk_to_spawn_queue).0@.len() == 0,
        final(chunk_map).config == old(chunk_map).config,
        old(chunk_map).next_handle <= final(chunk_map).next_handle <= old(chunk_map).next_handle
            + old(chunk_to_spawn_queue).0@.len(),
        forall|c: ChunkCoord|
            spec_chunk_in_world(old(chunk_map).config, c) ==> #[trigger] final(chunk_map).spec_chunk_at(c) == old(chunk_map).spec_chunk_at(c),
        forall|c: ChunkCoord|
            spec_chunk_in_world(old(chunk_map).config, c) && spawn_contains(
                old(chunk_to_spawn_queue).0@,
                c,
            ) && spec_displayable(*old(chunk_map), c) ==> (#[trigger] final(chunk_map).spec_handle_at(c)).is_some(),
        forall|c: ChunkCoord|
            spec_chunk_in_world(old(chunk_map).config, c) && !(spawn_contains(
                old(chunk_to_spawn_queue).0@,
                c,
            ) && spec_displayable(*old(chunk_map), c)) ==> #[trigger] final(chunk_map).spec_handle_at(c) == old(chunk_map).spec_handle_at(c),
        forall|j: int|
            0 <= j < spawned@.len() ==> spec_chunk_in_world(
                old(chunk_map).config,
                (#[trigger] spawned@[j]).0,
            ) && final(chunk_map).spec_handle_at(spawned@[j].0) == Some(spawned@[j].1)
                && spawn_contains(old(chunk_to_spawn_queue).0@, spawned@[j].0)
                && spec_displayable(*old(chunk_map), spawned@[j].0),
        forall|c: ChunkCoord|
            spec_chunk_in_world(old(chunk_map).config, c) && #[trigger] spawn_contains(
                old(chunk_to_spawn_queue).0@,
                c,
            ) && spec_displayable(*old(chunk_map), c) ==> exists|j: int|
                0 <= j < spawned@.len() && (#[trigger] spawned@[j]).0 == c,
        forall|i: int, j: int|
            0 <= i < j < spawned@.len() ==> (#[trigger] spawned@[i]).0 != (
            #[trigger] spawned@[j]).0 && spawned@[i].1 != spawned@[j].1,
{
    let ghost cfg = chunk_map.config;
    let ghost s0 = chunk_to_spawn_queue.0@;
    let ghost map0 = *chunk_map;
    let mut spawned: Vec<(ChunkCoord, u64)> = Vec::new();
    while chunk_to_spawn_queue.0.len() > 0
        invariant
            streaming_wf(
                *chunk_map,
                *active_chunks,
                *chunk_queue,
                *chunk_to_spawn_queue,
                *player_last_chunk,
            ),
            chunk_map.config == cfg,
            chunk_to_spawn_queue.0@.len() <= s0.len(),
            chunk_to_spawn_queue.0@ == s0.take(chunk_to_spawn_queue.0@.len() as int),
            map0.next_handle <= chunk_map.next_handle,
            chunk_map.next_handle - map0.next_handle <= s0.len()
                - chunk_to_spawn_queue.0@.len(),
            forall|c: ChunkCoord|
                spec_chunk_in_world(cfg, c) ==> #[trigger] chunk_map.spec_chunk_at(c)
                    == map0.spec_chunk_at(c),
            forall|c: ChunkCoord|
                spec_chunk_in_world(cfg, c) && (exists|j: int|
                    chunk_to_spawn_queue.0@.len() <= j < s0.len() && (#[trigger] s0[j]).0 == c)
                    && spec_displayable(map0, c) ==> (#[trigger] chunk_map.spec_handle_at(
                    c,
                )).is_some(),
            forall|c: ChunkCoord|
                spec_chunk_in_world(cfg, c) && !((exists|j: int|
                    chunk_to_spawn_queue.0@.len() <= j < s0.len() && (#[trigger] s0[j]).0 == c)
                    && spec_displayable(map0, c)) ==> #[trigger] chunk_map.spec_handle_at(c)
                    == map0.spec_handle_at(c),
            forall|j: int|
                0 <= j < spawned@.len() ==> spec_chunk_in_world(
                    cfg,
                    (#[trigger] spawned@[j]).0,
                ) && chunk_map.spec_handle_at(spawned@[j].0) == Some(spawned@[j].1) && (exists|
                    k: int,
                |
                    chunk_to_spawn_queue.0@.len() <= k < s0.len() && (#[trigger] s0[k]).0
                        == spawned@[j].0) && spec_displayable(map0, spawned@[j].0),
            forall|c: ChunkCoord|
                spec_chunk_in_world(cfg, c) && (exists|j: int|
                    chunk_to_spawn_queue.0@.len() <= j < s0.len() && (#[trigger] s0[j]).0 == c)
                    && spec_displayable(map0, c) ==> exists|j: int|
                    0 <= j < spawned@.len() && (#[trigger] spawned@[j]).0 == c,
            forall|i: int, j: int|
                0 <= i < j < spawned@.len() ==> (#[trigger] spawned@[i]).1 < (
                #[trigger] spawned@[j]).1,
            forall|j: int| 0 <= j < spawned@.len() ==> (#[trigger] spawned@[j]).1 < chunk_map.next_handle,
            forall|i: int, j: int|
                0 <= i < j < spawned@.len() ==> (#[trigger] spawned@[i]).0 != (
                #[trigger] spawned@[j]).0,
        decreases chunk_to_spawn_queue.0@.len(),
    {
        let ghost spre = chunk_to_spawn_queue.0@;
        let ghost mpre = *chunk_map;
        let ghost wpre = spawned@;
        let entry = chunk_to_spawn_queue.0.pop().unwrap();
        let chunk_pos = entry.0;
        let is_full = entry.1;
        let ghost m = chunk_to_spawn_queue.0@.len() as int;
        proof {
            assert(spre[m] == s0.take(m + 1)[m]);
            assert(entry == s0[m]);
            assert(chunk_to_spawn_queue.0@ =~= s0.take(m));
            assert(spec_chunk_in_world(cfg, chunk_pos));
            assert(chunk_map.spec_chunk_at(chunk_pos).is_some());
            assert(chunk_map.spec_handle_at(chunk_pos).is_none());
            assert(is_full == chunk_map.spec_chunk_at(chunk_pos).unwrap().is_full);
        }
        if !is_full {
            let has_surface = chunk_map.chunk_ref(chunk_pos).mesh.indices.len() > 0;
            if has_surface {
                assert(spec_displayable(*chunk_map, chunk_pos));
                assert(spec_displayable(map0, chunk_pos));
                let hv = chunk_map.next_handle;
                proof {
                    assert forall|j: int| 0 <= j < spawned@.len() implies (
                    #[trigger] spawned@[j]).0 != chunk_pos by {
                        let k = choose|k: int|
                            m + 1 <= k < s0.len() && (#[trigger] s0[k]).0 == spawned@[j].0;
                        if spawned@[j].0 == chunk_pos {
                            assert(s0[k].0 == s0[m].0);
                            assert(crate::world::spawn_coords_distinct(s0));
                        }
                    }
                }
                chunk_map.set_handle(chunk_pos, Some(hv));
                let ghost mid = *chunk_map;
                chunk_map.next_handle = hv + 1;
                spawned.push((chunk_pos, hv));
                proof {
                    assert(chunk_map.slots == mid.slots && chunk_map.config == mid.config);
                    assert forall|c: ChunkCoord|
                        #![trigger chunk_map.spec_handle_at(c)]
                        #![trigger chunk_map.spec_chunk_at(c)]
                        chunk_map.spec_handle_at(c) == mid.spec_handle_at(c)
                            && chunk_map.spec_chunk_at(c) == mid.spec_chunk_at(c) by {
                        assert(chunk_map.spec_handle_at(c) == mid.spec_handle_at(c));
                        assert(chunk_map.spec_chunk_at(c) == mid.spec_chunk_at(c));
                    }
                    assert forall|c: ChunkCoord|
                        spec_chunk_in_world(cfg, c) && (#[trigger] chunk_map.spec_handle_at(
                            c,
                        )).is_some() implies coords_contain(active_chunks.0@, c)
                        && spec_displayable(*chunk_map, c) && chunk_map.spec_handle_at(c).unwrap()
                        < chunk_map.next_handle by {
                        if c != chunk_pos {
                            assert(mid.spec_handle_at(c) == mpre.spec_handle_at(c));
                            assert(chunk_map.spec_handle_at(c) == mpre.spec_handle_at(c));
                            assert(spec_displayable(mpre, c));
                        }
                        assert(mid.spec_chunk_at(c) == mpre.spec_chunk_at(c));
                        assert(chunk_map.spec_chunk_at(c) == mpre.spec_chunk_at(c));
                    }
                    assert forall|c1: ChunkCoord, c2: ChunkCoord|
                        spec_chunk_in_world(cfg, c1) && spec_chunk_in_world(cfg, c2) && c1 != c2
                            && (#[trigger] chunk_map.spec_handle_at(c1)).is_some() && (
                        #[trigger] chunk_map.spec_handle_at(c2)).is_some() implies
                        chunk_map.spec_handle_at(c1).unwrap() != chunk_map.spec_handle_at(
                        c2,
                    ).unwrap() by {
                        if c1 != chunk_pos && c2 != chunk_pos {
                            assert(mid.spec_handle_at(c1) == mpre.spec_handle_at(c1));
                            assert(mid.spec_handle_at(c2) == mpre.spec_handle_at(c2));
                        } else if c1 == chunk_pos {
                            assert(mid.spec_handle_at(c2) == mpre.spec_handle_at(c2));
                            assert(mpre.spec_handle_at(c2).unwrap() < mpre.next_handle);
                        } else {
                            assert(mid.spec_handle_at(c1) == mpre.spec_handle_at(c1));
                            assert(mpre.spec_handle_at(c1).unwrap() < mpre.next_handle);
                        }
                    }
                    assert forall|i: int| 0 <= i < chunk_to_spawn_queue.0@.len() implies
                        spec_chunk_in_world(cfg, (#[trigger] chunk_to_spawn_queue.0@[i]).0)
                        && coords_contain(active_chunks.0@, chunk_to_spawn_queue.0@[i].0)
                        && chunk_map.spec_chunk_at(chunk_to_spawn_queue.0@[i].0).is_some()
                        && chunk_map.spec_handle_at(chunk_to_spawn_queue.0@[i].0).is_none()
                        && chunk_to_spawn_queue.0@[i].1 == chunk_map.spec_chunk_at(
                        chunk_to_spawn_queue.0@[i].0,
                    ).unwrap().is_full by {
                        assert(chunk_to_spawn_queue.0@[i] == spre[i]);
                        assert(spre[i].0 != chunk_pos);
                        assert(mid.spec_handle_at(spre[i].0) == mpre.spec_handle_at(spre[i].0));
                        assert(chunk_map.spec_handle_at(spre[i].0) == mpre.spec_handle_at(
                            spre[i].0,
                        ));
                        assert(mid.spec_chunk_at(spre[i].0) == mpre.spec_chunk_at(spre[i].0));
                        assert(chunk_map.spec_chunk_at(spre[i].0) == mpre.spec_chunk_at(
                            spre[i].0,
                        ));
                    }
                }
            }
        }
        proof {
            assert forall|c: ChunkCoord|
                spec_chunk_in_world(cfg, c) && (exists|j: int|
                    m <= j < s0.len() && (#[trigger] s0[j]).0 == c) && spec_displayable(
                    map0,
                    c,
                ) implies (#[trigger] chunk_map.spec_handle_at(c)).is_some() by {
                let j = choose|j: int| m <= j < s0.len() && (#[trigger] s0[j]).0 == c;
                if j == m {
                    assert(c == chunk_pos);
                    if !is_full && spec_displayable(map0, c) {
                        assert(mpre.spec_chunk_at(c) == map0.spec_chunk_at(c));
                        assert(chunk_map.spec_handle_at(c).is_some());
                    }
                    if is_full {
                        assert(mpre.spec_chunk_at(c) == map0.spec_chunk_at(c));
                        assert(!spec_displayable(map0, c));
                    }
                } else {
                    assert(exists|k: int| m + 1 <= k < s0.len() && (#[trigger] s0[k]).0 == c);
                    assert(mpre.spec_handle_at(c).is_some());
                    if c != chunk_pos {
                        assert(chunk_map.spec_handle_at(c) == mpre.spec_handle_at(c));
                    }
                }
            }
            assert forall|c: ChunkCoord|
                spec_chunk_in_world(cfg, c) && !((exists|j: int|
                    m <= j < s0.len() && (#[trigger] s0[j]).0 == c) && spec_displayable(
                    map0,
                    c,
                )) implies #[trigger] chunk_map.spec_handle_at(c) == map0.spec_handle_at(c) by {
                if c == chunk_pos {
                    assert(s0[m].0 == c);
                    assert(exists|j: int| m <= j < s0.len() && (#[trigger] s0[j]).0 == c);
                    assert(!spec_displayable(map0, c));
                    assert(mpre.spec_chunk_at(c) == map0.spec_chunk_at(c));
                    assert(chunk_map.spec_handle_at(c) == mpre.spec_handle_at(c));
                    assert(!(exists|j: int|
                        m + 1 <= j < s0.len() && (#[trigger] s0[j]).0 == c)
                        || !spec_displayable(map0, c));
                } else {
                    assert(chunk_map.spec_handle_at(c) == mpre.spec_handle_at(c));
                    if exists|j: int| m + 1 <= j < s0.len() && (#[trigger] s0[j]).0 == c {
                        let j = choose|j: int|
                            m + 1 <= j < s0.len() && (#[trigger] s0[j]).0 == c;
                        assert(exists|k: int| m <= k < s0.len() && (#[trigger] s0[k]).0 == c);
                    }
                }
            }
            assert forall|c: ChunkCoord|
                spec_chunk_in_world(cfg, c) && (exists|j: int|
                    m <= j < s0.len() && (#[trigger] s0[j]).0 == c) && spec_displayable(
                    map0,
                    c,
                ) implies exists|j: int|
                0 <= j < spawned@.len() && (#[trigger] spawned@[j]).0 == c by {
                let j = choose|j: int| m <= j < s0.len() && (#[trigger] s0[j]).0 == c;
                if j == m {
                    assert(c == chunk_pos);
                    assert(mpre.spec_chunk_at(c) == map0.spec_chunk_at(c));
                    assert(!is_full);
                    assert(spawned@[spawned@.len() - 1].0 == c);
                } else {
                    assert(exists|k: int| m + 1 <= k < s0.len() && (#[trigger] s0[k]).0 == c);
                    let i = choose|i: int| 0 <= i < wpre.len() && (#[trigger] wpre[i]).0 == c;
                    assert(spawned@[i].0 == c);
                }
            }
            assert forall|j: int| 0 <= j < spawned@.len() implies spec_chunk_in_world(
                cfg,
                (#[trigger] spawned@[j]).0,
            ) && chunk_map.spec_handle_at(spawned@[j].0) == Some(spawned@[j].1) && (exists|
                k: int,
            | m <= k < s0.len() && (#[trigger] s0[k]).0 == spawned@[j].0) && spec_displayable(
                map0,
                spawned@[j].0,
            ) by {
                if j < wpre.len() {
                    assert(spawned@[j] == wpre[j]);
                    let k = choose|k: int|
                        m + 1 <= k < s0.len() && (#[trigger] s0[k]).0 == wpre[j].0;
                    assert(exists|k2: int|
                        m <= k2 < s0.len() && (#[trigger] s0[k2]).0 == spawned@[j].0);
                    if wpre[j].0 != chunk_pos {
                        assert(chunk_map.spec_handle_at(spawned@[j].0) == mpre.spec_handle_at(
                            spawned@[j].0,
                        ));
                    } else {
                        assert(s0[k].0 == s0[m].0);
                        assert(crate::world::spawn_coords_distinct(s0));
                        assert(false);
                    }
                } else {
                    assert(spawned@[j].0 == chunk_pos);
                    assert(s0[m].0 == chunk_pos);
                }
            }
        }
    }
    proof {
        assert forall|c: ChunkCoord|
            spec_chunk_in_world(cfg, c) && #[trigger] spawn_contains(s0, c) implies exists|
            j: int,
        | 0 <= j < s0.len() && (#[trigger] s0[j]).0 == c by {}
        assert forall|c: ChunkCoord|
            spec_chunk_in_world(cfg, c) && (exists|j: int|
                0 <= j < s0.len() && (#[trigger] s0[j]).0 == c) implies spawn_contains(
            s0,
            c,
        ) by {}
    }
    spawned
}

} // verus!
