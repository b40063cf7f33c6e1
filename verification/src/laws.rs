//! Frame-level laws of the pipeline, stated and proved over the same spec
//! functions the executable contracts use: determinism of a frame's outputs,
//! timestamp gating of buffer rebuilds, preservation of unvisited table
//! entries, and idempotence of re-extracting an unchanged snapshot.

use vstd::prelude::*;

use crate::batch::batch_run;
use crate::images::BindGroup;
use crate::snapshot::{ExtractedTilemap, ImageId};
use crate::vertex::chunk_vertices;
use crate::table::{
    chunk_at, key_at, lemma_lookup_store, lemma_store_self, prepare_draws, prepare_rebuilt,
    prepare_table, prepare_uniforms, rebuilds_at, step_meta, table_lookup, tilemap_at,
    visible_list, ChunkKey, ChunkMetaView,
};

verus! {

/// No two pairs of the iteration order share a resource key. This is the
/// snapshot validity of the data model: tilemap entities are unique and each
/// visible origin corresponds to exactly one chunk, so every visible chunk is
/// keyed once per frame.
pub open spec fn distinct_visible_keys(s: Seq<ExtractedTilemap>, vl: Seq<(int, int)>) -> bool {
    forall|i: int, j: int|
        0 <= i < j < vl.len() ==> key_at(s, #[trigger] vl[i]) != key_at(s, #[trigger] vl[j])
}

/// A snapshot whose frame iteration touches every resource key at most once.
pub open spec fn snapshot_keys_distinct(s: Seq<ExtractedTilemap>) -> bool {
    distinct_visible_keys(s, visible_list(s))
}

/// Processing pairs whose keys all differ from `k` leaves the lookup for `k`
/// unchanged: the table never drops or disturbs entries it does not visit.
pub proof fn lemma_table_untouched(
    es: Seq<(ChunkKey, ChunkMetaView)>,
    s: Seq<ExtractedTilemap>,
    w: Seq<(int, int)>,
    k: ChunkKey,
)
    requires
        forall|l: int| 0 <= l < w.len() ==> key_at(s, #[trigger] w[l]) != k,
    ensures
        table_lookup(prepare_table(es, s, w), k) == table_lookup(es, k),
    decreases w.len(),
{
    if w.len() == 0 {
    } else {
        assert(forall|l: int|
            0 <= l < w.drop_last().len() ==> key_at(s, #[trigger] w.drop_last()[l]) != k);
        lemma_table_untouched(es, s, w.drop_last(), k);
        let prev = prepare_table(es, s, w.drop_last());
        assert(key_at(s, w[w.len() - 1]) != k);
        lemma_lookup_store(prev, key_at(s, w.last()), step_meta(prev, s, w.last(), w.len() - 1), k);
    }
}

/// After a frame, the entry of the pair processed at position `j` is exactly
/// the entry stored at step `j` (later steps visit other keys).
pub proof fn lemma_table_lookup_at(
    es: Seq<(ChunkKey, ChunkMetaView)>,
    s: Seq<ExtractedTilemap>,
    vl: Seq<(int, int)>,
    j: int,
)
    requires
        0 <= j < vl.len(),
        distinct_visible_keys(s, vl),
    ensures
        table_lookup(prepare_table(es, s, vl), key_at(s, vl[j])) == Some(
            step_meta(prepare_table(es, s, vl.take(j)), s, vl[j], j),
        ),
    decreases vl.len(),
{
    let k = key_at(s, vl[j]);
    if j == vl.len() - 1 {
        assert(vl.drop_last() =~= vl.take(j));
        let prev = prepare_table(es, s, vl.take(j));
        lemma_lookup_store(prev, k, step_meta(prev, s, vl[j], j), k);
        assert(vl.last() == vl[j]);
    } else {
        assert(distinct_visible_keys(s, vl.drop_last())) by {
            assert(forall|a: int, b: int|
                0 <= a < b < vl.drop_last().len() ==> vl.drop_last()[a] == vl[a]
                    && vl.drop_last()[b] == vl[b]);
        }
        assert(vl.drop_last().take(j) =~= vl.take(j));
        assert(vl.drop_last()[j] == vl[j]);
        lemma_table_lookup_at(es, s, vl.drop_last(), j);
        let prev = prepare_table(es, s, vl.drop_last());
        assert(key_at(s, vl[vl.len() - 1]) != k);
        lemma_lookup_store(
            prev,
            key_at(s, vl.last()),
            step_meta(prev, s, vl.last(), vl.len() - 1),
            k,
        );
    }
}

/// The rebuilt list contains `k` only if some step with key `k` actually
/// rebuilt against its prefix table.
proof fn lemma_rebuilt_not_contains(
    es: Seq<(ChunkKey, ChunkMetaView)>,
    s: Seq<ExtractedTilemap>,
    vl: Seq<(int, int)>,
    k: ChunkKey,
)
    requires
        forall|l: int|
            0 <= l < vl.len() ==> (key_at(s, #[trigger] vl[l]) == k ==> !rebuilds_at(
                prepare_table(es, s, vl.take(l)),
                s,
                vl[l],
            )),
    ensures
        !prepare_rebuilt(es, s, vl).contains(k),
    decreases vl.len(),
{
    if vl.len() == 0 {
        if prepare_rebuilt(es, s, vl).contains(k) {
            let idx = choose|idx: int|
                0 <= idx < prepare_rebuilt(es, s, vl).len() && prepare_rebuilt(es, s, vl)[idx]
                    == k;
        }
    } else {
        assert(forall|l: int|
            0 <= l < vl.drop_last().len() ==> vl.drop_last()[l] == vl[l]);
        assert(forall|l: int|
            0 <= l < vl.drop_last().len() ==> vl.drop_last().take(l) =~= vl.take(l));
        lemma_rebuilt_not_contains(es, s, vl.drop_last(), k);
        let prev = prepare_rebuilt(es, s, vl.drop_last());
        if rebuilds_at(prepare_table(es, s, vl.drop_last()), s, vl.last()) {
            assert(vl.take(vl.len() - 1) =~= vl.drop_last());
            assert(key_at(s, vl[vl.len() - 1]) != k);
            let r = prev.push(key_at(s, vl.last()));
            assert(!r.contains(k)) by {
                if r.contains(k) {
                    let idx = choose|idx: int| 0 <= idx < r.len() && r[idx] == k;
                    if idx < prev.len() {
                        assert(prev[idx] == k);
                        assert(prev.contains(k));
                    } else {
                        assert(r[idx] == key_at(s, vl.last()));
                    }
                }
            }
        }
    }
}

/// Timestamp gating: when the table already holds an entry for a visible
/// chunk's key whose stored timestamp equals the chunk's `last_change_at`,
/// the frame does not rebuild that chunk's buffer — the key is absent from
/// the rebuilt list and the entry keeps its vertex data unchanged.
pub proof fn lemma_timestamp_gating(
    es: Seq<(ChunkKey, ChunkMetaView)>,
    s: Seq<ExtractedTilemap>,
    vl: Seq<(int, int)>,
    j: int,
)
    requires
        0 <= j < vl.len(),
        distinct_visible_keys(s, vl),
        !rebuilds_at(es, s, vl[j]),
    ensures
        !prepare_rebuilt(es, s, vl).contains(key_at(s, vl[j])),
        match (
            table_lookup(es, key_at(s, vl[j])),
            table_lookup(prepare_table(es, s, vl), key_at(s, vl[j])),
        ) {
            (Some(m1), Some(m2)) => m2.vertices == m1.vertices && m2.last_change_at
                == m1.last_change_at,
            _ => false,
        },
{
    let k = key_at(s, vl[j]);
    assert(forall|l: int|
        0 <= l < vl.take(j).len() ==> key_at(s, #[trigger] vl.take(j)[l]) != k);
    lemma_table_untouched(es, s, vl.take(j), k);
    lemma_table_lookup_at(es, s, vl, j);
    assert forall|l: int|
        0 <= l < vl.len() implies (key_at(s, #[trigger] vl[l]) == k ==> !rebuilds_at(
        prepare_table(es, s, vl.take(l)),
        s,
        vl[l],
    )) by {
        if key_at(s, vl[l]) == k {
            assert(l == j);
            assert(forall|a: int|
                0 <= a < vl.take(j).len() ==> key_at(s, #[trigger] vl.take(j)[a]) != k);
            lemma_table_untouched(es, s, vl.take(j), k);
        }
    }
    lemma_rebuilt_not_contains(es, s, vl, k);
}

/// Keys rebuilt in a prefix of the frame stay in the frame's rebuilt list.
proof fn lemma_rebuilt_monotone(
    es: Seq<(ChunkKey, ChunkMetaView)>,
    s: Seq<ExtractedTilemap>,
    vl: Seq<(int, int)>,
    m: int,
)
    requires
        0 <= m <= vl.len(),
    ensures
        forall|x: ChunkKey|
            prepare_rebuilt(es, s, vl.take(m)).contains(x) ==> prepare_rebuilt(
                es,
                s,
                vl,
            ).contains(x),
    decreases vl.len() - m,
{
    if m == vl.len() {
        assert(vl.take(m) =~= vl);
    } else {
        assert(vl.take(m + 1).drop_last() =~= vl.take(m));
        assert(vl.take(m + 1).last() == vl[m]);
        lemma_rebuilt_monotone(es, s, vl, m + 1);
        let prev = prepare_rebuilt(es, s, vl.take(m));
        let next = prepare_rebuilt(es, s, vl.take(m + 1));
        assert forall|x: ChunkKey| prev.contains(x) implies next.contains(x) by {
            let idx = choose|idx: int| 0 <= idx < prev.len() && prev[idx] == x;
            if rebuilds_at(prepare_table(es, s, vl.take(m)), s, vl[m]) {
                assert(next[idx] == x);
            }
        }
    }
}

/// Dirty propagation: when a visible chunk's key is new to the table or its
/// stored timestamp differs from the chunk's `last_change_at`, the frame
/// rebuilds that chunk's buffer — the key appears in the rebuilt list and the
/// entry afterwards holds exactly the vertex stream of the chunk's current
/// tile list, under the chunk's current timestamp.
pub proof fn lemma_dirty_propagation(
    es: Seq<(ChunkKey, ChunkMetaView)>,
    s: Seq<ExtractedTilemap>,
    vl: Seq<(int, int)>,
    j: int,
)
    requires
        0 <= j < vl.len(),
        distinct_visible_keys(s, vl),
        rebuilds_at(es, s, vl[j]),
    ensures
        prepare_rebuilt(es, s, vl).contains(key_at(s, vl[j])),
        table_lookup(prepare_table(es, s, vl), key_at(s, vl[j])) matches Some(m)
            && m.vertices == chunk_vertices(
            tilemap_at(s, vl[j]).tile_size,
            chunk_at(s, vl[j]),
        ) && m.last_change_at == chunk_at(s, vl[j]).last_change_at,
{
    let k = key_at(s, vl[j]);
    assert(forall|l: int|
        0 <= l < vl.take(j).len() ==> key_at(s, #[trigger] vl.take(j)[l]) != k);
    lemma_table_untouched(es, s, vl.take(j), k);
    lemma_table_lookup_at(es, s, vl, j);
    assert(vl.take(j + 1).drop_last() =~= vl.take(j));
    assert(vl.take(j + 1).last() == vl[j]);
    assert(rebuilds_at(prepare_table(es, s, vl.take(j)), s, vl[j]));
    let next = prepare_rebuilt(es, s, vl.take(j + 1));
    assert(next.last() == k);
    assert(next.contains(k)) by {
        assert(next[next.len() - 1] == k);
    }
    lemma_rebuilt_monotone(es, s, vl, j + 1);
}

/// After a frame, the prefix tables of a repeated identical frame are all the
/// frame's final table: every step of the second frame reuses its entry and
/// stores it back unchanged.
proof fn lemma_idem_table_prefix(
    es: Seq<(ChunkKey, ChunkMetaView)>,
    s: Seq<ExtractedTilemap>,
    vl: Seq<(int, int)>,
    i: int,
)
    requires
        distinct_visible_keys(s, vl),
        0 <= i <= vl.len(),
    ensures
        prepare_table(prepare_table(es, s, vl), s, vl.take(i)) == prepare_table(es, s, vl),
    decreases i,
{
    let t1 = prepare_table(es, s, vl);
    if i == 0 {
        assert(vl.take(0) =~= Seq::<(int, int)>::empty());
    } else {
        lemma_idem_table_prefix(es, s, vl, i - 1);
        lemma_table_lookup_at(es, s, vl, i - 1);
        let m = step_meta(prepare_table(es, s, vl.take(i - 1)), s, vl[i - 1], i - 1);
        assert(m.last_change_at == chunk_at(s, vl[i - 1]).last_change_at);
        assert(m.uniform_offset == i - 1);
        assert(vl.take(i).drop_last() =~= vl.take(i - 1));
        assert(vl.take(i).last() == vl[i - 1]);
        assert(step_meta(t1, s, vl[i - 1], i - 1) =~= m);
        lemma_store_self(t1, key_at(s, vl[i - 1]), m);
    }
}

/// Idempotent re-extraction: running the frame again on the same snapshot
/// (with no asset events in between, so the image cache `im` is unchanged)
/// leaves the table as it is, produces the same draw list and the same batch
/// sequence, and rebuilds nothing.
pub proof fn lemma_idempotent_reextraction(
    es: Seq<(ChunkKey, ChunkMetaView)>,
    s: Seq<ExtractedTilemap>,
    im: Seq<(ImageId, BindGroup)>,
)
    requires
        snapshot_keys_distinct(s),
    ensures
        prepare_table(prepare_table(es, s, visible_list(s)), s, visible_list(s)) == prepare_table(
            es,
            s,
            visible_list(s),
        ),
        prepare_draws(prepare_table(es, s, visible_list(s)), s, visible_list(s)) == prepare_draws(
            es,
            s,
            visible_list(s),
        ),
        prepare_rebuilt(prepare_table(es, s, visible_list(s)), s, visible_list(s)) == Seq::<
            ChunkKey,
        >::empty(),
        batch_run(
            im,
            prepare_draws(prepare_table(es, s, visible_list(s)), s, visible_list(s)),
        ).batches == batch_run(im, prepare_draws(es, s, visible_list(s))).batches,
{
    let vl = visible_list(s);
    assert(vl.take(vl.len() as int) =~= vl);
    lemma_idem_table_prefix(es, s, vl, vl.len() as int);
    lemma_idem_draws_prefix(es, s, vl, vl.len() as int);
    lemma_idem_rebuilt_prefix(es, s, vl, vl.len() as int);
}

/// The second frame's draw prefix equals the first frame's.
proof fn lemma_idem_draws_prefix(
    es: Seq<(ChunkKey, ChunkMetaView)>,
    s: Seq<ExtractedTilemap>,
    vl: Seq<(int, int)>,
    i: int,
)
    requires
        distinct_visible_keys(s, vl),
        0 <= i <= vl.len(),
    ensures
        prepare_draws(prepare_table(es, s, vl), s, vl.take(i)) =~= prepare_draws(
            es,
            s,
            vl.take(i),
        ),
    decreases i,
{
    let t1 = prepare_table(es, s, vl);
    if i == 0 {
    } else {
        lemma_idem_draws_prefix(es, s, vl, i - 1);
        lemma_idem_table_prefix(es, s, vl, i - 1);
        lemma_table_lookup_at(es, s, vl, i - 1);
        let m = step_meta(prepare_table(es, s, vl.take(i - 1)), s, vl[i - 1], i - 1);
        assert(m.last_change_at == chunk_at(s, vl[i - 1]).last_change_at);
        assert(vl.take(i).drop_last() =~= vl.take(i - 1));
        assert(vl.take(i).last() == vl[i - 1]);
        assert(step_meta(t1, s, vl[i - 1], i - 1).vertices == m.vertices);
    }
}

/// The second frame rebuilds nothing.
proof fn lemma_idem_rebuilt_prefix(
    es: Seq<(ChunkKey, ChunkMetaView)>,
    s: Seq<ExtractedTilemap>,
    vl: Seq<(int, int)>,
    i: int,
)
    requires
        distinct_visible_keys(s, vl),
        0 <= i <= vl.len(),
    ensures
        prepare_rebuilt(prepare_table(es, s, vl), s, vl.take(i)) =~= Seq::<ChunkKey>::empty(),
    decreases i,
{
    let t1 = prepare_table(es, s, vl);
    if i == 0 {
    } else {
        lemma_idem_rebuilt_prefix(es, s, vl, i - 1);
        lemma_idem_table_prefix(es, s, vl, i - 1);
        lemma_table_lookup_at(es, s, vl, i - 1);
        let m = step_meta(prepare_table(es, s, vl.take(i - 1)), s, vl[i - 1], i - 1);
        assert(m.last_change_at == chunk_at(s, vl[i - 1]).last_change_at);
        assert(vl.take(i).drop_last() =~= vl.take(i - 1));
        assert(vl.take(i).last() == vl[i - 1]);
        assert(!rebuilds_at(t1, s, vl[i - 1]));
    }
}

/// Determinism: every output of a frame — the table, the uniform region, the
/// draw list, the rebuilt list, and the batch sequence — is a function of the
/// snapshot, the starting table, and the image cache alone, so two runs from
/// equal inputs produce equal (byte-identical) outputs.
pub proof fn lemma_pipeline_deterministic(
    es1: Seq<(ChunkKey, ChunkMetaView)>,
    es2: Seq<(ChunkKey, ChunkMetaView)>,
    s1: Seq<ExtractedTilemap>,
    s2: Seq<ExtractedTilemap>,
    im1: Seq<(ImageId, BindGroup)>,
    im2: Seq<(ImageId, BindGroup)>,
)
    requires
        es1 == es2,
        s1 == s2,
        im1 == im2,
    ensures
        prepare_table(es1, s1, visible_list(s1)) == prepare_table(es2, s2, visible_list(s2)),
        prepare_uniforms(s1, visible_list(s1)) == prepare_uniforms(s2, visible_list(s2)),
        prepare_draws(es1, s1, visible_list(s1)) == prepare_draws(es2, s2, visible_list(s2)),
        prepare_rebuilt(es1, s1, visible_list(s1)) == prepare_rebuilt(es2, s2, visible_list(s2)),
        batch_run(im1, prepare_draws(es1, s1, visible_list(s1))).batches == batch_run(
            im2,
            prepare_draws(es2, s2, visible_list(s2)),
        ).batches,
{
}

} // verus!
