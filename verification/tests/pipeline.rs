use tilemap_render::{
    pack_color, prepare_tilemaps, queue_batches, AssetEvent, BindGroup, ChunkDraw, ChunkKey,
    ChunkMeta, Color, Entity, ExtractedChunk, ExtractedTile, ExtractedTilemap, ExtractedTilemaps,
    IVec2, IVec3, ImageBindGroups, Mat4, Rect, TileFlags, TilemapAssetEvents, TilemapMeta, UVec2,
};

fn red() -> Color {
    Color { r: 255, g: 0, b: 0, a: 255 }
}

fn blue() -> Color {
    Color { r: 0, g: 0, b: 255, a: 255 }
}

fn tile(x: i32, y: i32, color: Color) -> ExtractedTile {
    ExtractedTile {
        pos: IVec2 { x, y },
        rect: Rect { min: UVec2 { x: 0, y: 0 }, max: UVec2 { x: 16, y: 16 } },
        color,
        flags: TileFlags { bits: 0 },
    }
}

fn chunk(ox: i32, tiles: Vec<ExtractedTile>, at: u64) -> ExtractedChunk {
    ExtractedChunk { origin: IVec3 { x: ox, y: 0, z: 0 }, tiles, last_change_at: at }
}

fn tilemap(entity: u64, image: u64, chunks: Vec<ExtractedChunk>) -> ExtractedTilemap {
    let visible: Vec<IVec3> = chunks.iter().map(|c| c.origin).collect();
    ExtractedTilemap {
        entity: Entity { bits: entity },
        transform: Mat4 { words: [0; 16] },
        image_handle_id: image,
        tile_size: UVec2 { x: 16, y: 16 },
        atlas_size: UVec2 { x: 256, y: 256 },
        chunks,
        visible_chunks: visible,
    }
}

fn snapshot(tilemaps: Vec<ExtractedTilemap>) -> ExtractedTilemaps {
    ExtractedTilemaps { tilemaps }
}

fn cache_with(ids: &[u64]) -> ImageBindGroups {
    let mut images = ImageBindGroups::default();
    for (i, id) in ids.iter().enumerate() {
        images.insert(*id, BindGroup { id: 100 + i as u64 });
    }
    images
}

fn entry_vertices(meta: &TilemapMeta, key: &ChunkKey) -> Vec<u32> {
    for (k, m) in &meta.chunks {
        if k == key {
            return m.vertices.iter().map(|v| v.color).collect();
        }
    }
    panic!("no entry for key");
}

#[test]
fn dirty_propagation_rebuilds_changed_chunk() {
    let mut meta = TilemapMeta::default();
    let key: ChunkKey = (Entity { bits: 1 }, IVec3 { x: 0, y: 0, z: 0 });

    let s1 = snapshot(vec![tilemap(1, 7, vec![chunk(0, vec![tile(0, 0, red())], 1)])]);
    let f1 = prepare_tilemaps(&mut meta, &s1);
    assert_eq!(f1.rebuilt, vec![key]);

    let s2 = snapshot(vec![tilemap(
        1,
        7,
        vec![chunk(0, vec![tile(0, 0, red()), tile(1, 0, blue())], 2)],
    )]);
    let f2 = prepare_tilemaps(&mut meta, &s2);
    assert_eq!(f2.rebuilt, vec![key]);
    assert_eq!(f2.draws.len(), 1);
    assert_eq!(f2.draws[0].vertex_count, 8);

    let colors = entry_vertices(&meta, &key);
    assert_eq!(colors.len(), 8);
    for c in &colors[0..4] {
        assert_eq!(*c, pack_color(red()));
    }
    for c in &colors[4..8] {
        assert_eq!(*c, pack_color(blue()));
    }
}

#[test]
fn timestamp_gating_skips_unchanged_chunk() {
    let mut meta = TilemapMeta::default();
    let s = snapshot(vec![tilemap(1, 7, vec![chunk(0, vec![tile(0, 0, red())], 9)])]);
    let f1 = prepare_tilemaps(&mut meta, &s);
    assert_eq!(f1.rebuilt.len(), 1);
    let before = meta.chunks.clone();

    let f2 = prepare_tilemaps(&mut meta, &s);
    assert_eq!(f2.rebuilt.len(), 0);
    assert_eq!(meta.chunks, before);
    assert_eq!(f2.draws, f1.draws);
}

#[test]
fn stale_timestamp_triggers_rebuild_even_with_same_tiles() {
    let mut meta = TilemapMeta::default();
    let s1 = snapshot(vec![tilemap(1, 7, vec![chunk(0, vec![tile(0, 0, red())], 1)])]);
    prepare_tilemaps(&mut meta, &s1);
    let s2 = snapshot(vec![tilemap(1, 7, vec![chunk(0, vec![tile(0, 0, red())], 2)])]);
    let f2 = prepare_tilemaps(&mut meta, &s2);
    assert_eq!(f2.rebuilt.len(), 1);
}

#[test]
fn batch_coalescing_merges_consecutive_same_texture_chunks() {
    let images = cache_with(&[7, 9]);
    let key = |e: u64, x: i32| (Entity { bits: e }, IVec3 { x, y: 0, z: 0 });
    let draws = vec![
        ChunkDraw { chunk_key: key(1, 0), image_handle_id: 7, vertex_count: 4, uniform_offset: 0 },
        ChunkDraw { chunk_key: key(1, 1), image_handle_id: 7, vertex_count: 8, uniform_offset: 1 },
        ChunkDraw { chunk_key: key(1, 2), image_handle_id: 7, vertex_count: 4, uniform_offset: 2 },
        ChunkDraw { chunk_key: key(2, 0), image_handle_id: 9, vertex_count: 4, uniform_offset: 3 },
    ];
    let batches = queue_batches(&draws, &images);
    assert_eq!(batches.len(), 2);
    assert_eq!(batches[0].image_handle_id, 7);
    assert_eq!(batches[0].range.start, 0);
    assert_eq!(batches[0].range.end, 16);
    assert_eq!(batches[0].chunk_key, key(1, 0));
    assert_eq!(batches[1].image_handle_id, 9);
    assert_eq!(batches[1].range.start, 16);
    assert_eq!(batches[1].range.end, 20);
    assert_eq!(batches[1].chunk_key, key(2, 0));
}

#[test]
fn texture_change_closes_batch_and_order_is_kept() {
    let images = cache_with(&[7, 9]);
    let key = |e: u64, x: i32| (Entity { bits: e }, IVec3 { x, y: 0, z: 0 });
    let draws = vec![
        ChunkDraw { chunk_key: key(1, 0), image_handle_id: 7, vertex_count: 4, uniform_offset: 0 },
        ChunkDraw { chunk_key: key(2, 0), image_handle_id: 9, vertex_count: 4, uniform_offset: 1 },
        ChunkDraw { chunk_key: key(3, 0), image_handle_id: 7, vertex_count: 4, uniform_offset: 2 },
    ];
    let batches = queue_batches(&draws, &images);
    let images_seen: Vec<u64> = batches.iter().map(|b| b.image_handle_id).collect();
    assert_eq!(images_seen, vec![7, 9, 7]);
    let ranges: Vec<(u32, u32)> = batches.iter().map(|b| (b.range.start, b.range.end)).collect();
    assert_eq!(ranges, vec![(0, 4), (4, 8), (8, 12)]);
}

#[test]
fn not_ready_texture_is_excluded_without_breaking_runs() {
    // texture 9 has no cached bind group: its chunk is dropped, and the
    // chunks around it still coalesce into a single contiguous batch
    let images = cache_with(&[7]);
    let key = |e: u64, x: i32| (Entity { bits: e }, IVec3 { x, y: 0, z: 0 });
    let c5 = key(2, 0);
    let draws = vec![
        ChunkDraw { chunk_key: key(1, 0), image_handle_id: 7, vertex_count: 4, uniform_offset: 0 },
        ChunkDraw { chunk_key: c5, image_handle_id: 9, vertex_count: 4, uniform_offset: 1 },
        ChunkDraw { chunk_key: key(1, 1), image_handle_id: 7, vertex_count: 4, uniform_offset: 2 },
    ];
    let batches = queue_batches(&draws, &images);
    assert_eq!(batches.len(), 1);
    assert_eq!(batches[0].image_handle_id, 7);
    assert_eq!(batches[0].range.start, 0);
    assert_eq!(batches[0].range.end, 8);
    for b in &batches {
        assert_ne!(b.chunk_key, c5);
        assert_ne!(b.image_handle_id, 9);
    }
}

#[test]
fn not_ready_texture_chunk_still_gets_built_resources() {
    // the vertex build and uniform record may still happen for a pending
    // texture; only the batch output must exclude it
    let mut meta = TilemapMeta::default();
    let s = snapshot(vec![tilemap(1, 9, vec![chunk(0, vec![tile(0, 0, red())], 1)])]);
    let frame = prepare_tilemaps(&mut meta, &s);
    assert_eq!(frame.draws.len(), 1);
    assert_eq!(meta.tilemap_gpu_data.len(), 1);
    let images = ImageBindGroups::default();
    let batches = queue_batches(&frame.draws, &images);
    assert_eq!(batches.len(), 0);
}

#[test]
fn empty_chunk_produces_no_batch() {
    let mut meta = TilemapMeta::default();
    let s = snapshot(vec![tilemap(1, 7, vec![chunk(0, vec![], 1)])]);
    let frame = prepare_tilemaps(&mut meta, &s);
    assert_eq!(frame.draws.len(), 1);
    assert_eq!(frame.draws[0].vertex_count, 0);
    let images = cache_with(&[7]);
    let batches = queue_batches(&frame.draws, &images);
    assert_eq!(batches.len(), 0);
}

#[test]
fn modified_event_invalidates_cache_entry() {
    let mut images = ImageBindGroups::default();
    images.insert(7, BindGroup { id: 1 });
    images.insert(9, BindGroup { id: 2 });
    let events = TilemapAssetEvents { images: vec![AssetEvent::Modified { id: 7 }] };
    images.process_events(&events);
    assert_eq!(images.get(7), None);
    assert_eq!(images.get(9), Some(BindGroup { id: 2 }));
    // the next lookup-or-create builds a fresh descriptor, not the old one
    images.insert(7, BindGroup { id: 3 });
    assert_eq!(images.get(7), Some(BindGroup { id: 3 }));
}

#[test]
fn removed_event_evicts_and_created_is_lazy() {
    let mut images = ImageBindGroups::default();
    images.insert(7, BindGroup { id: 1 });
    let events = TilemapAssetEvents {
        images: vec![AssetEvent::Removed { id: 7 }, AssetEvent::Created { id: 11 }],
    };
    images.process_events(&events);
    assert_eq!(images.get(7), None);
    // Created builds nothing eagerly
    assert_eq!(images.get(11), None);
}

#[test]
fn created_event_keeps_existing_entry() {
    let mut images = ImageBindGroups::default();
    images.insert(7, BindGroup { id: 1 });
    let events = TilemapAssetEvents { images: vec![AssetEvent::Created { id: 7 }] };
    images.process_events(&events);
    assert_eq!(images.get(7), Some(BindGroup { id: 1 }));
}

#[test]
fn idempotent_reextraction_gives_identical_batches() {
    let mut meta = TilemapMeta::default();
    let s = snapshot(vec![
        tilemap(1, 7, vec![chunk(0, vec![tile(0, 0, red())], 1), chunk(1, vec![tile(0, 0, blue())], 4)]),
        tilemap(2, 9, vec![chunk(0, vec![tile(2, 2, red())], 2)]),
    ]);
    let images = cache_with(&[7, 9]);
    let f1 = prepare_tilemaps(&mut meta, &s);
    let b1 = queue_batches(&f1.draws, &images);
    let f2 = prepare_tilemaps(&mut meta, &s);
    let b2 = queue_batches(&f2.draws, &images);
    assert_eq!(f1.draws, f2.draws);
    assert_eq!(b1, b2);
    assert_eq!(f2.rebuilt.len(), 0);
}

#[test]
fn deterministic_pipeline_from_equal_inputs() {
    let s = snapshot(vec![
        tilemap(1, 7, vec![chunk(0, vec![tile(0, 0, red()), tile(1, 1, blue())], 3)]),
        tilemap(2, 7, vec![chunk(5, vec![tile(0, 0, blue())], 8)]),
    ]);
    let images = cache_with(&[7]);

    let mut meta_a = TilemapMeta::default();
    let fa = prepare_tilemaps(&mut meta_a, &s);
    let ba = queue_batches(&fa.draws, &images);

    let mut meta_b = TilemapMeta::default();
    let fb = prepare_tilemaps(&mut meta_b, &s);
    let bb = queue_batches(&fb.draws, &images);

    assert_eq!(fa.draws, fb.draws);
    assert_eq!(fa.rebuilt, fb.rebuilt);
    assert_eq!(meta_a.tilemap_gpu_data, meta_b.tilemap_gpu_data);
    assert_eq!(meta_a.chunks, meta_b.chunks);
    assert_eq!(ba, bb);
}

#[test]
fn visible_origin_without_chunk_data_is_skipped() {
    let mut meta = TilemapMeta::default();
    let mut tm = tilemap(1, 7, vec![chunk(0, vec![tile(0, 0, red())], 1)]);
    tm.visible_chunks.push(IVec3 { x: 99, y: 0, z: 0 });
    let s = snapshot(vec![tm]);
    let frame = prepare_tilemaps(&mut meta, &s);
    assert_eq!(frame.draws.len(), 1);
    assert_eq!(meta.tilemap_gpu_data.len(), 1);
    assert_eq!(meta.chunks.len(), 1);
}

#[test]
fn invisible_chunk_is_not_processed() {
    let mut meta = TilemapMeta::default();
    let mut tm = tilemap(1, 7, vec![chunk(0, vec![tile(0, 0, red())], 1), chunk(1, vec![], 1)]);
    tm.visible_chunks = vec![IVec3 { x: 0, y: 0, z: 0 }];
    let s = snapshot(vec![tm]);
    let frame = prepare_tilemaps(&mut meta, &s);
    assert_eq!(frame.draws.len(), 1);
    assert_eq!(meta.chunks.len(), 1);
}

#[test]
fn uniform_offsets_are_fresh_and_in_order() {
    let mut meta = TilemapMeta::default();
    let s = snapshot(vec![
        tilemap(1, 7, vec![chunk(0, vec![tile(0, 0, red())], 1), chunk(1, vec![], 2)]),
        tilemap(2, 9, vec![chunk(0, vec![], 3)]),
    ]);
    let frame = prepare_tilemaps(&mut meta, &s);
    assert_eq!(frame.draws.len(), 3);
    for (i, d) in frame.draws.iter().enumerate() {
        assert_eq!(d.uniform_offset, i);
    }
    assert_eq!(meta.tilemap_gpu_data.len(), 3);
    assert_eq!(meta.tilemap_gpu_data[0].tile_size, UVec2 { x: 16, y: 16 });
    assert_eq!(meta.tilemap_gpu_data[0].texture_size, UVec2 { x: 256, y: 256 });
    // the uniform region is fully repopulated every frame
    let f2 = prepare_tilemaps(&mut meta, &s);
    assert_eq!(meta.tilemap_gpu_data.len(), 3);
    assert_eq!(f2.draws.len(), 3);
}

#[test]
fn unvisited_table_entries_are_preserved() {
    let mut meta = TilemapMeta::default();
    let s1 = snapshot(vec![tilemap(1, 7, vec![chunk(0, vec![tile(0, 0, red())], 1)])]);
    prepare_tilemaps(&mut meta, &s1);
    let s2 = snapshot(vec![tilemap(2, 9, vec![chunk(0, vec![tile(0, 0, blue())], 1)])]);
    prepare_tilemaps(&mut meta, &s2);
    // the first key's entry is still in the table (no automatic eviction)
    assert_eq!(meta.chunks.len(), 2);
    let key1: ChunkKey = (Entity { bits: 1 }, IVec3 { x: 0, y: 0, z: 0 });
    assert!(meta.chunks.iter().any(|(k, _)| *k == key1));
}

#[test]
fn default_resources_start_empty() {
    let m = ChunkMeta::default();
    assert_eq!(m.vertices.len(), 0);
    assert_eq!(m.last_change_at, 0);
    assert_eq!(m.texture_size, UVec2 { x: 0, y: 0 });
    assert_eq!(m.tile_size, UVec2 { x: 0, y: 0 });
    assert_eq!(m.uniform_offset, 0);
    assert_eq!(m.tilemap_gpu_data_bind_group, None);
    let t = TilemapMeta::default();
    assert_eq!(t.chunks.len(), 0);
    assert_eq!(t.tilemap_gpu_data.len(), 0);
    assert_eq!(t.view_bind_group, None);
    assert_eq!(ExtractedTilemaps::default().tilemaps.len(), 0);
    assert_eq!(TilemapAssetEvents::default().images.len(), 0);
    assert_eq!(ImageBindGroups::default().values.len(), 0);
}

#[test]
fn eviction_sweep_drops_vanished_keys_and_keeps_live_ones() {
    let mut meta = TilemapMeta::default();
    let s1 = snapshot(vec![
        tilemap(1, 7, vec![chunk(0, vec![tile(0, 0, red())], 1)]),
        tilemap(2, 9, vec![chunk(0, vec![tile(0, 0, blue())], 1)]),
    ]);
    prepare_tilemaps(&mut meta, &s1);
    assert_eq!(meta.chunks.len(), 2);

    // the second tilemap disappears; the sweep takes the frame's drawn keys
    let s2 = snapshot(vec![tilemap(1, 7, vec![chunk(0, vec![tile(0, 0, red())], 1)])]);
    let frame = prepare_tilemaps(&mut meta, &s2);
    let live: Vec<ChunkKey> = frame.draws.iter().map(|d| d.chunk_key).collect();
    meta.evict_except(&live);
    assert_eq!(meta.chunks.len(), 1);
    assert_eq!(meta.chunks[0].0, (Entity { bits: 1 }, IVec3 { x: 0, y: 0, z: 0 }));
}

#[test]
fn empty_snapshot_clears_uniforms_and_draws_nothing() {
    let mut meta = TilemapMeta::default();
    let s1 = snapshot(vec![tilemap(1, 7, vec![chunk(0, vec![tile(0, 0, red())], 1)])]);
    prepare_tilemaps(&mut meta, &s1);
    assert_eq!(meta.tilemap_gpu_data.len(), 1);
    let frame = prepare_tilemaps(&mut meta, &snapshot(vec![]));
    assert_eq!(frame.draws.len(), 0);
    assert_eq!(frame.rebuilt.len(), 0);
    assert_eq!(meta.tilemap_gpu_data.len(), 0);
    assert_eq!(meta.chunks.len(), 1);
}
