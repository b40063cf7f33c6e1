//! The GPU resource table: per (tilemap entity, chunk origin) key it owns the
//! chunk's vertex buffer and cached sizing, decides each frame whether to
//! rebuild the buffer, and assigns each processed chunk a fresh offset into
//! the shared per-frame uniform region.
//!
//! Rebuild policy: a chunk's buffer is rebuilt if and only if no entry exists
//! for its key or the entry's stored timestamp differs from the chunk's
//! `last_change_at`; otherwise the buffer is reused unchanged. The uniform
//! region is fully repopulated every frame (transforms may change even when
//! tile content does not), so every processed chunk gets a record and an
//! offset that stays stable for the frame.

use vstd::prelude::*;

use crate::images::BindGroup;
use crate::snapshot::{Entity, ExtractedChunk, ExtractedTilemap, ExtractedTilemaps, IVec3, UVec2};
use crate::vertex::{
    build_chunk_vertices, chunk_vertices, gpu_record, tile_fits, TilemapGpuData, TilemapVertex,
};

verus! {

/// The key a chunk's GPU resources are stored under: the owning tilemap's
/// entity and the chunk's origin.
pub type ChunkKey = (Entity, IVec3);

/// One chunk's GPU-side state: its vertex buffer content, the timestamp the
/// buffer reflects, the sizing cached for dirty comparison, this frame's
/// uniform offset, and an optional bind-group reference for the uniform slice.
#[derive(Clone, Debug, PartialEq)]
pub struct ChunkMeta {
    pub vertices: Vec<TilemapVertex>,
    pub last_change_at: u64,
    pub texture_size: UVec2,
    pub tile_size: UVec2,
    pub uniform_offset: usize,
    pub tilemap_gpu_data_bind_group: Option<BindGroup>,
}

/// The mathematical value of a [`ChunkMeta`].
#[verifier::ext_equal]
pub struct ChunkMetaView {
    pub vertices: Seq<TilemapVertex>,
    pub last_change_at: u64,
    pub texture_size: UVec2,
    pub tile_size: UVec2,
    pub uniform_offset: int,
    pub tilemap_gpu_data_bind_group: Option<BindGroup>,
}

impl View for ChunkMeta {
    type V = ChunkMetaView;

    open spec fn view(&self) -> ChunkMetaView {
        ChunkMetaView {
            vertices: self.vertices@,
            last_change_at: self.last_change_at,
            texture_size: self.texture_size,
            tile_size: self.tile_size,
            uniform_offset: self.uniform_offset as int,
            tilemap_gpu_data_bind_group: self.tilemap_gpu_data_bind_group,
        }
    }
}

impl Default for ChunkMeta {
    /// A fresh, empty entry: no vertices, timestamp zero, zero sizing, no
    /// bind group.
    fn default() -> (r: Self)
        ensures
            r@.vertices.len() == 0,
            r@.last_change_at == 0,
            r@.texture_size == (UVec2 { x: 0, y: 0 }),
            r@.tile_size == (UVec2 { x: 0, y: 0 }),
            r@.uniform_offset == 0,
            r@.tilemap_gpu_data_bind_group is None,
    {
        ChunkMeta {
            vertices: Vec::new(),
            last_change_at: 0,
            texture_size: UVec2 { x: 0, y: 0 },
            tile_size: UVec2 { x: 0, y: 0 },
            uniform_offset: 0,
            tilemap_gpu_data_bind_group: None,
        }
    }
}

/// The resource table itself: chunk entries (created on first sight of a key,
/// updated in place afterwards, never removed automatically), the shared
/// per-frame uniform region, and the per-view bind group.
#[derive(Debug)]
pub struct TilemapMeta {
    pub chunks: Vec<(ChunkKey, ChunkMeta)>,
    pub tilemap_gpu_data: Vec<TilemapGpuData>,
    pub view_bind_group: Option<BindGroup>,
}

/// The mathematical value of a [`TilemapMeta`].
#[verifier::ext_equal]
pub struct TilemapMetaView {
    pub chunks: Seq<(ChunkKey, ChunkMetaView)>,
    pub uniforms: Seq<TilemapGpuData>,
    pub view_bind_group: Option<BindGroup>,
}

impl View for TilemapMeta {
    type V = TilemapMetaView;

    open spec fn view(&self) -> TilemapMetaView {
        TilemapMetaView {
            chunks: Seq::new(
                self.chunks@.len(),
                |i: int| (self.chunks@[i].0, self.chunks@[i].1@),
            ),
            uniforms: self.tilemap_gpu_data@,
            view_bind_group: self.view_bind_group,
        }
    }
}

impl Default for TilemapMeta {
    /// The table starts empty on startup.
    fn default() -> (r: Self)
        ensures
            r@.chunks.len() == 0,
            r@.uniforms.len() == 0,
            r@.view_bind_group is None,
    {
        TilemapMeta { chunks: Vec::new(), tilemap_gpu_data: Vec::new(), view_bind_group: None }
    }
}

/// What one processed chunk hands to the batcher: its key, its texture, how
/// many vertices its buffer holds, and its uniform offset for this frame.
#[derive(Clone, Copy, Debug, PartialEq, Eq)]
pub struct ChunkDraw {
    pub chunk_key: ChunkKey,
    pub image_handle_id: u64,
    pub vertex_count: usize,
    pub uniform_offset: usize,
}

/// The result of one frame's resource preparation: the processed chunks in
/// iteration order, and the keys whose vertex buffers were rebuilt.
#[derive(Debug)]
pub struct PreparedFrame {
    pub draws: Vec<ChunkDraw>,
    pub rebuilt: Vec<ChunkKey>,
}

/// The first entry for `k`, searched front to back (keys occur at most once,
/// since entries are only ever added for missing keys).
pub open spec fn table_lookup(es: Seq<(ChunkKey, ChunkMetaView)>, k: ChunkKey) -> Option<
    ChunkMetaView,
>
    decreases es.len(),
{
    if es.len() == 0 {
        None
    } else if es.first().0 == k {
        Some(es.first().1)
    } else {
        table_lookup(es.drop_first(), k)
    }
}

/// `es` with the first entry for `k` replaced by `m`, or `(k, m)` appended if
/// no entry for `k` exists; entry order is otherwise kept.
pub open spec fn table_store(
    es: Seq<(ChunkKey, ChunkMetaView)>,
    k: ChunkKey,
    m: ChunkMetaView,
) -> Seq<(ChunkKey, ChunkMetaView)>
    decreases es.len(),
{
    if es.len() == 0 {
        seq![(k, m)]
    } else if es.first().0 == k {
        seq![(k, m)] + es.drop_first()
    } else {
        seq![es.first()] + table_store(es.drop_first(), k, m)
    }
}

/// The tilemap a visible-chunk pair points at.
pub open spec fn tilemap_at(s: Seq<ExtractedTilemap>, p: (int, int)) -> ExtractedTilemap {
    s[p.0]
}

/// The chunk a visible-chunk pair points at.
pub open spec fn chunk_at(s: Seq<ExtractedTilemap>, p: (int, int)) -> ExtractedChunk {
    s[p.0].chunks@[p.1]
}

/// The resource key of a visible-chunk pair.
pub open spec fn key_at(s: Seq<ExtractedTilemap>, p: (int, int)) -> ChunkKey {
    (s[p.0].entity, s[p.0].chunks@[p.1].origin)
}

/// Whether processing pair `p` against table `es` rebuilds the vertex buffer:
/// it does if and only if no entry exists for the key or the stored timestamp
/// differs from the chunk's `last_change_at`.
pub open spec fn rebuilds_at(
    es: Seq<(ChunkKey, ChunkMetaView)>,
    s: Seq<ExtractedTilemap>,
    p: (int, int),
) -> bool {
    match table_lookup(es, key_at(s, p)) {
        Some(m) => m.last_change_at != chunk_at(s, p).last_change_at,
        None => true,
    }
}

/// The entry stored for pair `p` when it is processed against table `es` with
/// uniform offset `off`: on reuse only the offset is refreshed; on rebuild the
/// buffer content, timestamp, and sizing are replaced (the bind-group
/// reference, if any, is kept).
pub open spec fn step_meta(
    es: Seq<(ChunkKey, ChunkMetaView)>,
    s: Seq<ExtractedTilemap>,
    p: (int, int),
    off: int,
) -> ChunkMetaView {
    let t = tilemap_at(s, p);
    let c = chunk_at(s, p);
    match table_lookup(es, key_at(s, p)) {
        Some(m) => {
            if m.last_change_at == c.last_change_at {
                ChunkMetaView {
                    vertices: m.vertices,
                    last_change_at: m.last_change_at,
                    texture_size: m.texture_size,
                    tile_size: m.tile_size,
                    uniform_offset: off,
                    tilemap_gpu_data_bind_group: m.tilemap_gpu_data_bind_group,
                }
            } else {
                ChunkMetaView {
                    vertices: chunk_vertices(t.tile_size, c),
                    last_change_at: c.last_change_at,
                    texture_size: t.atlas_size,
                    tile_size: t.tile_size,
                    uniform_offset: off,
                    tilemap_gpu_data_bind_group: m.tilemap_gpu_data_bind_group,
                }
            }
        },
        None => ChunkMetaView {
            vertices: chunk_vertices(t.tile_size, c),
            last_change_at: c.last_change_at,
            texture_size: t.atlas_size,
            tile_size: t.tile_size,
            uniform_offset: off,
            tilemap_gpu_data_bind_group: None,
        },
    }
}

/// The first chunk of `chunks` whose origin is `origin`, if any.
pub open spec fn resolve_chunk(chunks: Seq<ExtractedChunk>, origin: IVec3) -> Option<int>
    decreases chunks.len(),
{
    if chunks.len() == 0 {
        None
    } else if chunks.first().origin == origin {
        Some(0)
    } else {
        match resolve_chunk(chunks.drop_first(), origin) {
            Some(i) => Some(i + 1),
            None => None,
        }
    }
}

/// The (tilemap index, chunk index) pairs contributed by one tilemap's
/// visible-chunk list, in list order; visible origins with no matching chunk
/// data contribute nothing.
pub open spec fn visible_pairs(chunks: Seq<ExtractedChunk>, vis: Seq<IVec3>, ti: int) -> Seq<
    (int, int),
>
    decreases vis.len(),
{
    if vis.len() == 0 {
        Seq::empty()
    } else {
        let rest = visible_pairs(chunks, vis.drop_last(), ti);
        match resolve_chunk(chunks, vis.last()) {
            Some(ci) => rest.push((ti, ci)),
            None => rest,
        }
    }
}

/// The stable iteration order of the whole frame: tilemap declaration order,
/// then each tilemap's visible-chunk order.
pub open spec fn visible_list(s: Seq<ExtractedTilemap>) -> Seq<(int, int)>
    decreases s.len(),
{
    if s.len() == 0 {
        Seq::empty()
    } else {
        visible_list(s.drop_last()) + visible_pairs(
            s.last().chunks@,
            s.last().visible_chunks@,
            s.len() - 1,
        )
    }
}

/// The table contents after processing the pairs of `vl` in order against the
/// starting table `es`; the pair at position `i` is stored with uniform
/// offset `i`.
pub open spec fn prepare_table(
    es: Seq<(ChunkKey, ChunkMetaView)>,
    s: Seq<ExtractedTilemap>,
    vl: Seq<(int, int)>,
) -> Seq<(ChunkKey, ChunkMetaView)>
    decreases vl.len(),
{
    if vl.len() == 0 {
        es
    } else {
        let prev = prepare_table(es, s, vl.drop_last());
        table_store(prev, key_at(s, vl.last()), step_meta(prev, s, vl.last(), vl.len() - 1))
    }
}

/// The draw record emitted for pair `p` processed against table `es` with
/// offset `off`: its vertex count is the length of the entry stored for it
/// (the reused buffer's length on reuse, the fresh build's length otherwise).
pub open spec fn draw_at(
    es: Seq<(ChunkKey, ChunkMetaView)>,
    s: Seq<ExtractedTilemap>,
    p: (int, int),
    off: int,
) -> ChunkDraw {
    ChunkDraw {
        chunk_key: key_at(s, p),
        image_handle_id: tilemap_at(s, p).image_handle_id,
        vertex_count: step_meta(es, s, p, off).vertices.len() as usize,
        uniform_offset: off as usize,
    }
}

/// The draw records of the whole frame, in iteration order.
pub open spec fn prepare_draws(
    es: Seq<(ChunkKey, ChunkMetaView)>,
    s: Seq<ExtractedTilemap>,
    vl: Seq<(int, int)>,
) -> Seq<ChunkDraw>
    decreases vl.len(),
{
    if vl.len() == 0 {
        Seq::empty()
    } else {
        prepare_draws(es, s, vl.drop_last()).push(
            draw_at(prepare_table(es, s, vl.drop_last()), s, vl.last(), vl.len() - 1),
        )
    }
}

/// The keys whose vertex buffers the frame rebuilds, in iteration order.
pub open spec fn prepare_rebuilt(
    es: Seq<(ChunkKey, ChunkMetaView)>,
    s: Seq<ExtractedTilemap>,
    vl: Seq<(int, int)>,
) -> Seq<ChunkKey>
    decreases vl.len(),
{
    if vl.len() == 0 {
        Seq::empty()
    } else {
        let prev = prepare_rebuilt(es, s, vl.drop_last());
        if rebuilds_at(prepare_table(es, s, vl.drop_last()), s, vl.last()) {
            prev.push(key_at(s, vl.last()))
        } else {
            prev
        }
    }
}

/// The shared uniform region's content for the frame: one record per
/// processed chunk, in iteration order, regardless of whether its vertex
/// buffer was reused.
pub open spec fn prepare_uniforms(s: Seq<ExtractedTilemap>, vl: Seq<(int, int)>) -> Seq<
    TilemapGpuData,
>
    decreases vl.len(),
{
    if vl.len() == 0 {
        Seq::empty()
    } else {
        prepare_uniforms(s, vl.drop_last()).push(gpu_record(tilemap_at(s, vl.last())))
    }
}

/// Every tile of every chunk in the snapshot fits the vertex representation
/// (see [`tile_fits`]); forced by the machine representation of positions.
pub open spec fn snapshot_fits(snapshot: ExtractedTilemaps) -> bool {
    forall|ti: int, ci: int, k: int|
        0 <= ti < snapshot.tilemaps@.len() && 0 <= ci < snapshot.tilemaps@[ti].chunks@.len() && 0
            <= k < snapshot.tilemaps@[ti].chunks@[ci].tiles@.len() ==> tile_fits(
            snapshot.tilemaps@[ti].tile_size,
            snapshot.tilemaps@[ti].chunks@[ci].origin,
            #[trigger] snapshot.tilemaps@[ti].chunks@[ci].tiles@[k],
        )
}

/// `es` restricted to the entries whose key occurs in `keys`, order kept.
pub open spec fn retain_keyed(
    es: Seq<(ChunkKey, ChunkMetaView)>,
    keys: Seq<ChunkKey>,
) -> Seq<(ChunkKey, ChunkMetaView)>
    decreases es.len(),
{
    if es.len() == 0 {
        es
    } else if keys.contains(es.first().0) {
        seq![es.first()] + retain_keyed(es.drop_first(), keys)
    } else {
        retain_keyed(es.drop_first(), keys)
    }
}

/// After restriction, a retained key's lookup is unchanged and every other
/// key's lookup misses.
pub proof fn lemma_retain_lookup(
    es: Seq<(ChunkKey, ChunkMetaView)>,
    keys: Seq<ChunkKey>,
    k: ChunkKey,
)
    ensures
        table_lookup(retain_keyed(es, keys), k) == if keys.contains(k) {
            table_lookup(es, k)
        } else {
            None::<ChunkMetaView>
        },
    decreases es.len(),
{
    if es.len() == 0 {
    } else {
        lemma_retain_lookup(es.drop_first(), keys, k);
        if keys.contains(es.first().0) {
            let r = seq![es.first()] + retain_keyed(es.drop_first(), keys);
            assert(r.first() == es.first());
            assert(r.drop_first() =~= retain_keyed(es.drop_first(), keys));
        }
    }
}

/// Whether `k` occurs in `keys`.
fn key_list_contains(keys: &Vec<ChunkKey>, k: ChunkKey) -> (r: bool)
    ensures
        r == keys@.contains(k),
{
    let mut i: usize = 0;
    while i < keys.len()
        invariant
            i <= keys@.len(),
            forall|l: int| 0 <= l < i ==> keys@[l] != k,
        decreases keys@.len() - i,
    {
        if keys[i].0.bits == k.0.bits && keys[i].1 == k.1 {
            proof {
                assert(keys@[i as int] == k);
            }
            return true;
        }
        i = i + 1;
    }
    proof {
        if keys@.contains(k) {
            let idx = choose|idx: int| 0 <= idx < keys@.len() && keys@[idx] == k;
        }
    }
    false
}

impl TilemapMeta {
    /// The explicit eviction sweep for stale entries: drop every chunk entry
    /// whose key is not in `keys` (typically the keys the frame just drew).
    /// The per-frame pipeline never removes entries on its own, so a caller
    /// runs this when tilemaps or chunks disappear from the snapshot. Kept
    /// keys keep their entries unchanged; evicted keys then miss.
    pub fn evict_except(&mut self, keys: &Vec<ChunkKey>)
        ensures
            final(self)@.chunks == retain_keyed(old(self)@.chunks, keys@),
            final(self)@.uniforms == old(self)@.uniforms,
            final(self)@.view_bind_group == old(self)@.view_bind_group,
            forall|k: ChunkKey|
                table_lookup(final(self)@.chunks, k) == if keys@.contains(k) {
                    table_lookup(old(self)@.chunks, k)
                } else {
                    None::<ChunkMetaView>
                },
    {
        let mut i: usize = 0;
        proof {
            assert(self@.chunks.skip(0) =~= self@.chunks);
            assert(self@.chunks.take(0) + retain_keyed(self@.chunks, keys@) =~= retain_keyed(
                self@.chunks,
                keys@,
            ));
        }
        while i < self.chunks.len()
            invariant
                i <= self.chunks@.len(),
                retain_keyed(old(self)@.chunks, keys@) =~= self@.chunks.take(i as int)
                    + retain_keyed(self@.chunks.skip(i as int), keys@),
                forall|l: int| 0 <= l < i ==> keys@.contains((#[trigger] self@.chunks[l]).0),
                self@.uniforms == old(self)@.uniforms,
                self@.view_bind_group == old(self)@.view_bind_group,
            decreases self.chunks@.len() - i,
        {
            proof {
                assert(self@.chunks.skip(i as int).first() == self@.chunks[i as int]);
                assert(self@.chunks.skip(i as int).drop_first() =~= self@.chunks.skip(
                    i as int + 1,
                ));
            }
            let keep = key_list_contains(keys, self.chunks[i].0);
            if keep {
                proof {
                    assert(self@.chunks.take(i as int + 1) =~= self@.chunks.take(i as int)
                        + seq![self@.chunks[i as int]]);
                    assert(seq![self@.chunks[i as int]] + retain_keyed(
                        self@.chunks.skip(i as int + 1),
                        keys@,
                    ) =~= retain_keyed(self@.chunks.skip(i as int), keys@));
                    assert(self@.chunks.take(i as int) + (seq![self@.chunks[i as int]]
                        + retain_keyed(self@.chunks.skip(i as int + 1), keys@)) =~= self@.chunks
                        .take(i as int + 1) + retain_keyed(
                        self@.chunks.skip(i as int + 1),
                        keys@,
                    ));
                }
                i = i + 1;
            } else {
                let ghost before = self@.chunks;
                self.chunks.remove(i);
                proof {
                    assert(self@.chunks.take(i as int) =~= before.take(i as int));
                    assert(self@.chunks.skip(i as int) =~= before.skip(i as int + 1));
                    assert forall|l: int| 0 <= l < i implies keys@.contains(
                        (#[trigger] self@.chunks[l]).0,
                    ) by {
                        assert(self@.chunks.take(i as int)[l] == self@.chunks[l]);
                        assert(before.take(i as int)[l] == before[l]);
                    }
                }
            }
        }
        proof {
            assert(self@.chunks.skip(self@.chunks.len() as int).len() == 0);
            assert(self@.chunks.take(self@.chunks.len() as int) =~= self@.chunks);
            assert(final(self)@.chunks =~= retain_keyed(old(self)@.chunks, keys@));
            assert forall|k: ChunkKey|
                table_lookup(final(self)@.chunks, k) == (if keys@.contains(k) {
                    table_lookup(old(self)@.chunks, k)
                } else {
                    None::<ChunkMetaView>
                }) by {
                lemma_retain_lookup(old(self)@.chunks, keys@, k);
            }
        }
    }
}

/// Storing under `k` changes the lookup for `k` to the stored entry and
/// leaves every other key's lookup unchanged.
pub proof fn lemma_lookup_store(
    es: Seq<(ChunkKey, ChunkMetaView)>,
    k: ChunkKey,
    m: ChunkMetaView,
    k2: ChunkKey,
)
    ensures
        table_lookup(table_store(es, k, m), k2) == if k2 == k {
            Some(m)
        } else {
            table_lookup(es, k2)
        },
    decreases es.len(),
{
    if es.len() == 0 {
        let st = table_store(es, k, m);
        assert(st == seq![(k, m)]);
        assert(st.first() == (k, m));
        assert(st.drop_first() =~= Seq::<(ChunkKey, ChunkMetaView)>::empty());
        assert(table_lookup(st, k) == Some(m));
        if k2 != k {
            assert(table_lookup(st, k2) == table_lookup(st.drop_first(), k2));
            assert(table_lookup(st, k2) is None);
        }
    } else if es.first().0 == k {
        let st = seq![(k, m)] + es.drop_first();
        assert(table_store(es, k, m) == st);
        assert(st.first() == (k, m));
        assert(st.drop_first() =~= es.drop_first());
        assert(table_lookup(st, k) == Some(m));
        if k2 != k {
            assert(table_lookup(st, k2) == table_lookup(es.drop_first(), k2));
            assert(table_lookup(es, k2) == table_lookup(es.drop_first(), k2));
        }
    } else {
        lemma_lookup_store(es.drop_first(), k, m, k2);
        let st = seq![es.first()] + table_store(es.drop_first(), k, m);
        assert(table_store(es, k, m) == st);
        assert(st.first() == es.first());
        assert(st.drop_first() =~= table_store(es.drop_first(), k, m));
        if k2 == es.first().0 {
            assert(table_lookup(st, k2) == Some(st.first().1));
            assert(table_lookup(es, k2) == Some(es.first().1));
        } else {
            assert(table_lookup(st, k2) == table_lookup(
                table_store(es.drop_first(), k, m),
                k2,
            ));
            assert(table_lookup(es, k2) == table_lookup(es.drop_first(), k2));
        }
    }
}

/// Storing the very entry a key already holds leaves the table unchanged.
pub proof fn lemma_store_self(es: Seq<(ChunkKey, ChunkMetaView)>, k: ChunkKey, m: ChunkMetaView)
    requires
        table_lookup(es, k) == Some(m),
    ensures
        table_store(es, k, m) =~= es,
    decreases es.len(),
{
    if es.len() == 0 {
    } else if es.first().0 == k {
        assert(seq![(k, m)] + es.drop_first() =~= es);
    } else {
        lemma_store_self(es.drop_first(), k, m);
        assert(seq![es.first()] + table_store(es.drop_first(), k, m) =~= es);
    }
}

/// A first match at index `j` pins the lookup result.
proof fn lemma_lookup_at_index(es: Seq<(ChunkKey, ChunkMetaView)>, k: ChunkKey, j: int)
    requires
        0 <= j < es.len(),
        es[j].0 == k,
        forall|l: int| 0 <= l < j ==> (#[trigger] es[l]).0 != k,
    ensures
        table_lookup(es, k) == Some(es[j].1),
    decreases j,
{
    if j == 0 {
    } else {
        assert(es[0].0 != k);
        lemma_lookup_at_index(es.drop_first(), k, j - 1);
        assert(es.drop_first()[j - 1] == es[j]);
    }
}

/// With no match anywhere, the lookup misses.
proof fn lemma_lookup_none(es: Seq<(ChunkKey, ChunkMetaView)>, k: ChunkKey)
    requires
        forall|l: int| 0 <= l < es.len() ==> (#[trigger] es[l]).0 != k,
    ensures
        table_lookup(es, k) is None,
    decreases es.len(),
{
    if es.len() == 0 {
    } else {
        assert(es[0].0 != k);
        lemma_lookup_none(es.drop_first(), k);
    }
}

/// Storing at a key whose first match is index `j` replaces that element.
proof fn lemma_store_at_index(
    es: Seq<(ChunkKey, ChunkMetaView)>,
    k: ChunkKey,
    m: ChunkMetaView,
    j: int,
)
    requires
        0 <= j < es.len(),
        es[j].0 == k,
        forall|l: int| 0 <= l < j ==> (#[trigger] es[l]).0 != k,
    ensures
        table_store(es, k, m) =~= es.update(j, (k, m)),
    decreases j,
{
    if j == 0 {
        assert(seq![(k, m)] + es.drop_first() =~= es.update(0, (k, m)));
    } else {
        assert(es[0].0 != k);
        lemma_store_at_index(es.drop_first(), k, m, j - 1);
        assert(es.drop_first()[j - 1] == es[j]);
        assert(seq![es.first()] + es.drop_first().update(j - 1, (k, m)) =~= es.update(j, (k, m)));
    }
}

/// Storing at a key with no match appends the entry.
proof fn lemma_store_push(es: Seq<(ChunkKey, ChunkMetaView)>, k: ChunkKey, m: ChunkMetaView)
    requires
        forall|l: int| 0 <= l < es.len() ==> (#[trigger] es[l]).0 != k,
    ensures
        table_store(es, k, m) =~= es.push((k, m)),
    decreases es.len(),
{
    if es.len() == 0 {
        assert(seq![(k, m)] =~= es.push((k, m)));
    } else {
        assert(es[0].0 != k);
        lemma_store_push(es.drop_first(), k, m);
        assert(seq![es.first()] + es.drop_first().push((k, m)) =~= es.push((k, m)));
    }
}

/// Find the first table entry for `key`, front to back.
fn find_entry(entries: &Vec<(ChunkKey, ChunkMeta)>, key: ChunkKey) -> (r: Option<usize>)
    ensures
        match r {
            Some(j) => j < entries@.len() && entries@[j as int].0 == key && forall|l: int|
                0 <= l < j ==> (#[trigger] entries@[l]).0 != key,
            None => forall|l: int| 0 <= l < entries@.len() ==> (#[trigger] entries@[l]).0 != key,
        },
{
    let mut i: usize = 0;
    while i < entries.len()
        invariant
            i <= entries@.len(),
            forall|l: int| 0 <= l < i ==> (#[trigger] entries@[l]).0 != key,
        decreases entries@.len() - i,
    {
        if entries[i].0.0.bits == key.0.bits && entries[i].0.1 == key.1 {
            return Some(i);
        }
        i = i + 1;
    }
    None
}

/// Find the first chunk with the given origin, front to back.
fn find_chunk_by_origin(chunks: &Vec<ExtractedChunk>, origin: IVec3) -> (r: Option<usize>)
    ensures
        match r {
            Some(ci) => ci < chunks@.len() && chunks@[ci as int].origin == origin
                && resolve_chunk(chunks@, origin) == Some(ci as int),
            None => resolve_chunk(chunks@, origin) is None,
        },
{
    let mut i: usize = 0;
    while i < chunks.len()
        invariant
            i <= chunks@.len(),
            forall|l: int| 0 <= l < i ==> (#[trigger] chunks@[l]).origin != origin,
        decreases chunks@.len() - i,
    {
        if chunks[i].origin == origin {
            proof {
                lemma_resolve_found(chunks@, origin, i as int);
            }
            return Some(i);
        }
        i = i + 1;
    }
    proof {
        lemma_resolve_none(chunks@, origin);
    }
    None
}

/// A first origin match at index `i` pins the resolution result.
proof fn lemma_resolve_found(chunks: Seq<ExtractedChunk>, origin: IVec3, i: int)
    requires
        0 <= i < chunks.len(),
        chunks[i].origin == origin,
        forall|l: int| 0 <= l < i ==> (#[trigger] chunks[l]).origin != origin,
    ensures
        resolve_chunk(chunks, origin) == Some(i),
    decreases i,
{
    if i == 0 {
    } else {
        assert(chunks[0].origin != origin);
        lemma_resolve_found(chunks.drop_first(), origin, i - 1);
        assert(chunks.drop_first()[i - 1] == chunks[i]);
    }
}

/// With no origin match anywhere, resolution misses.
proof fn lemma_resolve_none(chunks: Seq<ExtractedChunk>, origin: IVec3)
    requires
        forall|l: int| 0 <= l < chunks.len() ==> (#[trigger] chunks[l]).origin != origin,
    ensures
        resolve_chunk(chunks, origin) is None,
    decreases chunks.len(),
{
    if chunks.len() == 0 {
    } else {
        assert(chunks[0].origin != origin);
        lemma_resolve_none(chunks.drop_first(), origin);
    }
}

/// The frame's resource-preparation pass. Walks the snapshot's tilemaps in
/// order and each tilemap's visible chunks in order; for each visible origin
/// that resolves to chunk data it appends one uniform record (offset = its
/// position in the iteration) and rebuilds the keyed vertex buffer exactly
/// when the key is new or its stored timestamp differs from the chunk's
/// `last_change_at`, reusing the buffer unchanged otherwise. Visible origins
/// with no matching chunk data contribute nothing. Entries under keys the
/// snapshot does not visit are left untouched.
pub fn prepare_tilemaps(meta: &mut TilemapMeta, snapshot: &ExtractedTilemaps) -> (frame:
    PreparedFrame)
    requires
        snapshot_fits(*snapshot),
    ensures
        final(meta)@.chunks == prepare_table(
            old(meta)@.chunks,
            snapshot.tilemaps@,
            visible_list(snapshot.tilemaps@),
        ),
        final(meta)@.uniforms == prepare_uniforms(
            snapshot.tilemaps@,
            visible_list(snapshot.tilemaps@),
        ),
        final(meta)@.view_bind_group == old(meta)@.view_bind_group,
        frame.draws@ == prepare_draws(
            old(meta)@.chunks,
            snapshot.tilemaps@,
            visible_list(snapshot.tilemaps@),
        ),
        frame.rebuilt@ == prepare_rebuilt(
            old(meta)@.chunks,
            snapshot.tilemaps@,
            visible_list(snapshot.tilemaps@),
        ),
{
    let ghost s = snapshot.tilemaps@;
    let ghost es0 = old(meta)@.chunks;
    let ghost mut vl: Seq<(int, int)> = Seq::empty();
    meta.tilemap_gpu_data.clear();
    let mut draws: Vec<ChunkDraw> = Vec::new();
    let mut rebuilt: Vec<ChunkKey> = Vec::new();
    let mut ti: usize = 0;
    proof {
        assert(s.take(0) =~= Seq::<ExtractedTilemap>::empty());
        assert(meta@.chunks =~= es0);
    }
    while ti < snapshot.tilemaps.len()
        invariant
            ti <= s.len(),
            s == snapshot.tilemaps@,
            snapshot_fits(*snapshot),
            vl == visible_list(s.take(ti as int)),
            meta@.chunks == prepare_table(es0, s, vl),
            meta@.uniforms == prepare_uniforms(s, vl),
            meta@.uniforms.len() == vl.len(),
            meta@.view_bind_group == old(meta)@.view_bind_group,
            draws@ == prepare_draws(es0, s, vl),
            rebuilt@ == prepare_rebuilt(es0, s, vl),
        decreases s.len() - ti,
    {
        let tm = &snapshot.tilemaps[ti];
        let ghost vl_outer = vl;
        proof {
            assert(tm.visible_chunks@.take(0) =~= Seq::<IVec3>::empty());
            assert(vl =~= vl_outer + visible_pairs(tm.chunks@, tm.visible_chunks@.take(0), ti as int));
        }
        let mut vi: usize = 0;
        while vi < tm.visible_chunks.len()
            invariant
                vi <= tm.visible_chunks@.len(),
                s == snapshot.tilemaps@,
                ti < s.len(),
                *tm == s[ti as int],
                snapshot_fits(*snapshot),
                vl_outer == visible_list(s.take(ti as int)),
                vl == vl_outer + visible_pairs(
                    tm.chunks@,
                    tm.visible_chunks@.take(vi as int),
                    ti as int,
                ),
                meta@.chunks == prepare_table(es0, s, vl),
                meta@.uniforms == prepare_uniforms(s, vl),
                meta@.uniforms.len() == vl.len(),
                meta@.view_bind_group == old(meta)@.view_bind_group,
                draws@ == prepare_draws(es0, s, vl),
                rebuilt@ == prepare_rebuilt(es0, s, vl),
            decreases tm.visible_chunks@.len() - vi,
        {
            let origin = tm.visible_chunks[vi];
            let found_ci = find_chunk_by_origin(&tm.chunks, origin);
            proof {
                assert(tm.visible_chunks@.take(vi as int + 1).drop_last() =~= tm.visible_chunks@
                    .take(vi as int));
                assert(tm.visible_chunks@.take(vi as int + 1).last() == tm.visible_chunks@[
                    vi as int]);
            }
            match found_ci {
                None => {
                    proof {
                        assert(vl =~= vl_outer + visible_pairs(
                            tm.chunks@,
                            tm.visible_chunks@.take(vi as int + 1),
                            ti as int,
                        ));
                    }
                },
                Some(ci) => {
                    let ghost p: (int, int) = (ti as int, ci as int);
                    let ghost vl_next = vl.push(p);
                    let ghost prev_table = prepare_table(es0, s, vl);
                    proof {
                        assert(vl_next.drop_last() =~= vl);
                        assert(vl_next.last() == p);
                        assert(vl_next =~= vl_outer + visible_pairs(
                            tm.chunks@,
                            tm.visible_chunks@.take(vi as int + 1),
                            ti as int,
                        ));
                        assert(s[p.0] == *tm);
                        assert(chunk_at(s, p) == tm.chunks@[ci as int]);
                    }
                    let c = &tm.chunks[ci];
                    let key: ChunkKey = (tm.entity, c.origin);
                    proof {
                        assert(key == key_at(s, p));
                    }
                    let off = meta.tilemap_gpu_data.len();
                    proof {
                        assert(off as int == vl.len());
                    }
                    meta.tilemap_gpu_data.push(
                        TilemapGpuData {
                            transform: tm.transform,
                            tile_size: tm.tile_size,
                            texture_size: tm.atlas_size,
                        },
                    );
                    proof {
                        assert(meta@.uniforms =~= prepare_uniforms(s, vl_next));
                    }
                    let found = find_entry(&meta.chunks, key);
                    let ghost chunks_before = meta@.chunks;
                    let count: usize;
                    match found {
                        Some(j) => {
                            proof {
                                lemma_lookup_at_index(chunks_before, key, j as int);
                            }
                            if meta.chunks[j].1.last_change_at == c.last_change_at {
                                count = meta.chunks[j].1.vertices.len();
                                meta.chunks[j].1.uniform_offset = off;
                                proof {
                                    lemma_store_at_index(
                                        chunks_before,
                                        key,
                                        step_meta(prev_table, s, p, off as int),
                                        j as int,
                                    );
                                    assert(meta@.chunks =~= chunks_before.update(
                                        j as int,
                                        (key, step_meta(prev_table, s, p, off as int)),
                                    ));
                                }
                            } else {
                                proof {
                                    assert forall|k: int|
                                        0 <= k < c.tiles@.len() implies tile_fits(
                                        tm.tile_size,
                                        c.origin,
                                        #[trigger] c.tiles@[k],
                                    ) by {
                                        assert(snapshot.tilemaps@[ti as int].chunks@[ci as int]
                                            .tiles@[k] == c.tiles@[k]);
                                    }
                                }
                                let verts = build_chunk_vertices(tm.tile_size, c);
                                count = verts.len();
                                let bind = meta.chunks[j].1.tilemap_gpu_data_bind_group;
                                meta.chunks[j] = (
                                    key,
                                    ChunkMeta {
                                        vertices: verts,
                                        last_change_at: c.last_change_at,
                                        texture_size: tm.atlas_size,
                                        tile_size: tm.tile_size,
                                        uniform_offset: off,
                                        tilemap_gpu_data_bind_group: bind,
                                    },
                                );
                                rebuilt.push(key);
                                proof {
                                    lemma_store_at_index(
                                        chunks_before,
                                        key,
                                        step_meta(prev_table, s, p, off as int),
                                        j as int,
                                    );
                                    assert(meta@.chunks =~= chunks_before.update(
                                        j as int,
                                        (key, step_meta(prev_table, s, p, off as int)),
                                    ));
                                }
                            }
                        },
                        None => {
                            proof {
                                lemma_lookup_none(chunks_before, key);
                                assert forall|k: int|
                                    0 <= k < c.tiles@.len() implies tile_fits(
                                    tm.tile_size,
                                    c.origin,
                                    #[trigger] c.tiles@[k],
                                ) by {
                                    assert(snapshot.tilemaps@[ti as int].chunks@[ci as int].tiles@[
                                        k] == c.tiles@[k]);
                                }
                            }
                            let verts = build_chunk_vertices(tm.tile_size, c);
                            count = verts.len();
                            meta.chunks.push(
                                (
                                    key,
                                    ChunkMeta {
                                        vertices: verts,
                                        last_change_at: c.last_change_at,
                                        texture_size: tm.atlas_size,
                                        tile_size: tm.tile_size,
                                        uniform_offset: off,
                                        tilemap_gpu_data_bind_group: None,
                                    },
                                ),
                            );
                            rebuilt.push(key);
                            proof {
                                lemma_store_push(
                                    chunks_before,
                                    key,
                                    step_meta(prev_table, s, p, off as int),
                                );
                                assert(meta@.chunks =~= chunks_before.push(
                                    (key, step_meta(prev_table, s, p, off as int)),
                                ));
                            }
                        },
                    }
                    draws.push(
                        ChunkDraw {
                            chunk_key: key,
                            image_handle_id: tm.image_handle_id,
                            vertex_count: count,
                            uniform_offset: off,
                        },
                    );
                    proof {
                        assert(meta@.chunks =~= prepare_table(es0, s, vl_next));
                        assert(draws@.last() == draw_at(prev_table, s, p, off as int));
                        assert(draws@ =~= prepare_draws(es0, s, vl_next));
                        assert(rebuilt@ =~= prepare_rebuilt(es0, s, vl_next));
                        vl = vl_next;
                    }
                },
            }
            vi = vi + 1;
        }
        proof {
            assert(tm.visible_chunks@.take(tm.visible_chunks@.len() as int) =~= tm
                .visible_chunks@);
            assert(s.take(ti as int + 1).drop_last() =~= s.take(ti as int));
            assert(s.take(ti as int + 1).last() == s[ti as int]);
            assert(s.take(ti as int + 1).len() - 1 == ti as int);
            assert(vl =~= visible_list(s.take(ti as int + 1)));
        }
        ti = ti + 1;
    }
    proof {
        assert(s.take(s.len() as int) =~= s);
    }
    PreparedFrame { draws, rebuilt }
}

} // verus!
