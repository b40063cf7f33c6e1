//! The batcher: walks the frame's processed chunks in their stable iteration
//! order and merges consecutive chunks that share a ready texture into single
//! contiguous draw ranges, emitting one batch record per run.
//!
//! Chunks whose texture has no cached bind group, and chunks with empty
//! buffers, are excluded before ranges are assigned, so an excluded chunk
//! never breaks an otherwise mergeable run. Batch order follows chunk order,
//! which downstream draw submission must preserve for correct transparency
//! compositing.

use vstd::prelude::*;

use crate::images::{img_lookup, BindGroup, ImageBindGroups};
use crate::snapshot::ImageId;
use crate::table::{ChunkDraw, ChunkKey};

verus! {

/// A contiguous vertex range, start inclusive, end exclusive.
#[derive(Clone, Copy, Debug, PartialEq, Eq, Structural)]
pub struct BatchRange {
    pub start: u32,
    pub end: u32,
}

/// One draw batch: a texture, the contiguous vertex range it covers, and the
/// key of the first chunk the run was sourced from.
#[derive(Clone, Copy, Debug, PartialEq, Eq)]
pub struct TilemapBatch {
    pub image_handle_id: ImageId,
    pub range: BatchRange,
    pub chunk_key: ChunkKey,
}

/// Whether a chunk takes part in batching this frame: its texture must be
/// ready (cached bind group) and its buffer must hold at least one vertex.
pub open spec fn draw_included(images: Seq<(ImageId, BindGroup)>, d: ChunkDraw) -> bool {
    d.vertex_count > 0 && img_lookup(images, d.image_handle_id) is Some
}

/// The total vertex count of the included chunks of `ds`.
pub open spec fn total_included(images: Seq<(ImageId, BindGroup)>, ds: Seq<ChunkDraw>) -> int
    decreases ds.len(),
{
    if ds.len() == 0 {
        0
    } else {
        total_included(images, ds.drop_last()) + if draw_included(images, ds.last()) {
            ds.last().vertex_count as int
        } else {
            0
        }
    }
}

/// The batcher's running state: the batches emitted so far and the cursor
/// where the next included chunk's range begins.
#[verifier::ext_equal]
pub struct BatchState {
    pub batches: Seq<TilemapBatch>,
    pub cursor: int,
}

/// One batching step. An excluded chunk changes nothing. An included chunk
/// extends the open batch when it shares its texture and its range starts
/// where that batch ends; otherwise it opens a new batch.
pub open spec fn batch_step(
    st: BatchState,
    images: Seq<(ImageId, BindGroup)>,
    d: ChunkDraw,
) -> BatchState {
    if !draw_included(images, d) {
        st
    } else {
        let end = st.cursor + d.vertex_count as int;
        if st.batches.len() > 0 && st.batches.last().image_handle_id == d.image_handle_id
            && st.batches.last().range.end as int == st.cursor {
            BatchState {
                batches: st.batches.update(
                    st.batches.len() - 1,
                    TilemapBatch {
                        image_handle_id: st.batches.last().image_handle_id,
                        range: BatchRange {
                            start: st.batches.last().range.start,
                            end: end as u32,
                        },
                        chunk_key: st.batches.last().chunk_key,
                    },
                ),
                cursor: end,
            }
        } else {
            BatchState {
                batches: st.batches.push(
                    TilemapBatch {
                        image_handle_id: d.image_handle_id,
                        range: BatchRange { start: st.cursor as u32, end: end as u32 },
                        chunk_key: d.chunk_key,
                    },
                ),
                cursor: end,
            }
        }
    }
}

/// The batcher's state after processing `ds` in order from an empty state.
pub open spec fn batch_run(images: Seq<(ImageId, BindGroup)>, ds: Seq<ChunkDraw>) -> BatchState
    decreases ds.len(),
{
    if ds.len() == 0 {
        BatchState { batches: Seq::empty(), cursor: 0 }
    } else {
        batch_step(batch_run(images, ds.drop_last()), images, ds.last())
    }
}

/// Well-formedness of a batcher state: ranges start at zero, chain without
/// gaps up to the cursor, and are non-empty; consecutive batches never share
/// a texture (each run is maximal); and every batch's texture is ready.
pub open spec fn batches_wf(images: Seq<(ImageId, BindGroup)>, st: BatchState) -> bool {
    &&& st.cursor >= 0
    &&& (st.batches.len() == 0 ==> st.cursor == 0)
    &&& (st.batches.len() > 0 ==> st.batches.first().range.start == 0)
    &&& (st.batches.len() > 0 ==> st.batches.last().range.end as int == st.cursor)
    &&& forall|j: int|
        0 <= j < st.batches.len() - 1 ==> (#[trigger] st.batches[j]).range.end == st.batches[j
            + 1].range.start
    &&& forall|j: int|
        0 <= j < st.batches.len() ==> (#[trigger] st.batches[j]).range.start < st.batches[j].range.end
    &&& forall|j: int|
        0 <= j < st.batches.len() - 1 ==> (#[trigger] st.batches[j]).image_handle_id != st.batches[
            j + 1].image_handle_id
    &&& forall|j: int|
        0 <= j < st.batches.len() ==> img_lookup(
            images,
            (#[trigger] st.batches[j]).image_handle_id,
        ) is Some
}

/// A batch run covers exactly the included vertices (the cursor equals their
/// total) and its output is well formed: contiguous, non-empty, maximally
/// coalesced, texture-ready batches.
pub proof fn lemma_batch_run_wf(images: Seq<(ImageId, BindGroup)>, ds: Seq<ChunkDraw>)
    requires
        total_included(images, ds) <= u32::MAX as int,
    ensures
        batch_run(images, ds).cursor == total_included(images, ds),
        batches_wf(images, batch_run(images, ds)),
    decreases ds.len(),
{
    if ds.len() == 0 {
    } else {
        let st = batch_run(images, ds.drop_last());
        let d = ds.last();
        assert(total_included(images, ds.drop_last()) <= total_included(images, ds));
        lemma_batch_run_wf(images, ds.drop_last());
        if draw_included(images, d) {
            let end = st.cursor + d.vertex_count as int;
            assert(end <= total_included(images, ds));
            if st.batches.len() > 0 && st.batches.last().image_handle_id == d.image_handle_id
                && st.batches.last().range.end as int == st.cursor {
                let nb = batch_step(st, images, d).batches;
                assert(nb.len() == st.batches.len());
                assert(forall|j: int|
                    0 <= j < nb.len() - 1 ==> (#[trigger] nb[j]) == st.batches[j]);
                assert(nb.last().range.start == st.batches.last().range.start);
                assert(nb.last().range.end == end as u32);
                assert(st.batches.last().range.start < st.batches.last().range.end);
                assert(st.batches.last().range.end as int == st.cursor);
                assert((nb.last().range.start as int) < end);
                assert(forall|j: int|
                    0 <= j < nb.len() - 1 ==> (#[trigger] nb[j]).range.end == nb[j + 1].range.start);
                assert(forall|j: int|
                    0 <= j < nb.len() - 1 ==> (#[trigger] nb[j]).image_handle_id != nb[j
                        + 1].image_handle_id);
                assert(forall|j: int|
                    0 <= j < nb.len() ==> img_lookup(
                        images,
                        (#[trigger] nb[j]).image_handle_id,
                    ) is Some);
            } else {
                let nb = batch_step(st, images, d).batches;
                assert(nb.len() == st.batches.len() + 1);
                assert(forall|j: int| 0 <= j < nb.len() - 1 ==> (#[trigger] nb[j]) == st.batches[j]);
                assert(nb.last().range.start == st.cursor as u32);
                assert(nb.last().range.end == end as u32);
                if st.batches.len() == 0 {
                    assert(st.cursor == 0);
                    assert(nb.first().range.start == 0);
                } else {
                    assert(st.batches.last().range.end as int == st.cursor);
                    assert(st.batches.last().image_handle_id != d.image_handle_id);
                    assert(nb[nb.len() - 2].range.end == nb.last().range.start);
                }
                assert(forall|j: int|
                    0 <= j < nb.len() - 1 ==> (#[trigger] nb[j]).range.end == nb[j + 1].range.start);
                assert(forall|j: int|
                    0 <= j < nb.len() - 1 ==> (#[trigger] nb[j]).image_handle_id != nb[j
                        + 1].image_handle_id);
                assert(forall|j: int|
                    0 <= j < nb.len() ==> img_lookup(
                        images,
                        (#[trigger] nb[j]).image_handle_id,
                    ) is Some);
            }
        }
    }
}

/// Whether batch `b` is sourced from some included chunk of `ds`: an
/// included chunk carries `b`'s key and texture. Batches never reference an
/// excluded chunk.
pub open spec fn batch_sourced(
    ds: Seq<ChunkDraw>,
    images: Seq<(ImageId, BindGroup)>,
    b: TilemapBatch,
) -> bool {
    exists|l: int|
        0 <= l < ds.len() && draw_included(images, #[trigger] ds[l]) && ds[l].chunk_key
            == b.chunk_key && ds[l].image_handle_id == b.image_handle_id
}

/// Every batch of a run is sourced from an included chunk: a chunk whose
/// texture is not ready (or whose buffer is empty) is never referenced by any
/// batch.
pub proof fn lemma_batches_sourced(images: Seq<(ImageId, BindGroup)>, ds: Seq<ChunkDraw>)
    ensures
        forall|j: int|
            0 <= j < batch_run(images, ds).batches.len() ==> batch_sourced(
                ds,
                images,
                #[trigger] batch_run(images, ds).batches[j],
            ),
    decreases ds.len(),
{
    if ds.len() == 0 {
    } else {
        lemma_batches_sourced(images, ds.drop_last());
        let st = batch_run(images, ds.drop_last());
        let d = ds.last();
        let nb = batch_run(images, ds).batches;
        assert forall|j: int| 0 <= j < nb.len() implies batch_sourced(
            ds,
            images,
            #[trigger] nb[j],
        ) by {
            if draw_included(images, d) && j == nb.len() - 1 && !(st.batches.len() > 0
                && st.batches.last().image_handle_id == d.image_handle_id
                && st.batches.last().range.end as int == st.cursor) {
                assert(nb[j].chunk_key == d.chunk_key);
                assert(ds[ds.len() - 1] == d);
            } else {
                let b_old = if draw_included(images, d) && j == nb.len() - 1 {
                    st.batches.last()
                } else {
                    st.batches[j]
                };
                assert(nb[j].chunk_key == b_old.chunk_key);
                assert(nb[j].image_handle_id == b_old.image_handle_id);
                assert(batch_sourced(ds.drop_last(), images, b_old));
                let l = choose|l: int|
                    0 <= l < ds.drop_last().len() && draw_included(
                        images,
                        #[trigger] ds.drop_last()[l],
                    ) && ds.drop_last()[l].chunk_key == b_old.chunk_key && ds.drop_last()[l].image_handle_id
                        == b_old.image_handle_id;
                assert(ds[l] == ds.drop_last()[l]);
            }
        }
    }
}

/// Every prefix of `ds` includes at most as many vertices as `ds` itself.
proof fn lemma_total_take_le(images: Seq<(ImageId, BindGroup)>, ds: Seq<ChunkDraw>, i: int)
    requires
        0 <= i <= ds.len(),
    ensures
        total_included(images, ds.take(i)) <= total_included(images, ds),
    decreases ds.len() - i,
{
    if i == ds.len() {
        assert(ds.take(i) =~= ds);
    } else {
        assert(ds.take(i + 1).drop_last() =~= ds.take(i));
        assert(ds.take(i + 1).last() == ds[i]);
        lemma_total_take_le(images, ds, i + 1);
    }
}

/// Produce the frame's ordered batch sequence: the minimal set of contiguous
/// draw ranges covering every chunk whose texture is ready, in chunk
/// iteration order. Consecutive chunks sharing a texture coalesce into one
/// batch; chunks with a not-ready texture or an empty buffer are filtered out
/// beforehand and so never split a run. The total vertex count of included
/// chunks must fit the `u32` range representation.
pub fn queue_batches(draws: &Vec<ChunkDraw>, images: &ImageBindGroups) -> (batches: Vec<
    TilemapBatch,
>)
    requires
        total_included(images@, draws@) <= u32::MAX as int,
    ensures
        batches@ == batch_run(images@, draws@).batches,
        batches_wf(
            images@,
            BatchState { batches: batches@, cursor: total_included(images@, draws@) },
        ),
        forall|j: int|
            0 <= j < batches@.len() ==> batch_sourced(draws@, images@, #[trigger] batches@[j]),
{
    let mut batches: Vec<TilemapBatch> = Vec::new();
    let mut cursor: u32 = 0;
    let mut i: usize = 0;
    proof {
        assert(draws@.take(0) =~= Seq::<ChunkDraw>::empty());
        assert(batch_run(images@, draws@.take(0)) =~= (BatchState {
            batches: batches@,
            cursor: cursor as int,
        }));
    }
    while i < draws.len()
        invariant
            i <= draws@.len(),
            total_included(images@, draws@) <= u32::MAX as int,
            batch_run(images@, draws@.take(i as int)) == (BatchState {
                batches: batches@,
                cursor: cursor as int,
            }),
        decreases draws@.len() - i,
    {
        let ghost pre = draws@.take(i as int);
        proof {
            assert(draws@.take(i as int + 1).drop_last() =~= pre);
            assert(draws@.take(i as int + 1).last() == draws@[i as int]);
            lemma_total_take_le(images@, draws@, i as int + 1);
            lemma_batch_run_wf(images@, draws@.take(i as int + 1));
            lemma_batch_run_wf(images@, pre);
        }
        let d = draws[i];
        let ready = images.contains(d.image_handle_id);
        if d.vertex_count > 0 && ready {
            proof {
                assert(total_included(images@, draws@.take(i as int + 1)) == cursor as int
                    + d.vertex_count as int);
                assert(cursor as int + d.vertex_count as int <= u32::MAX as int);
            }
            let end = cursor + (d.vertex_count as u32);
            let mut merged = false;
            if batches.len() > 0 {
                let j = batches.len() - 1;
                let lastb = batches[j];
                if lastb.image_handle_id == d.image_handle_id && lastb.range.end == cursor {
                    batches[j].range.end = end;
                    merged = true;
                    proof {
                        assert(batches@ =~= batch_run(images@, pre).batches.update(
                            batch_run(images@, pre).batches.len() - 1,
                            TilemapBatch {
                                image_handle_id: lastb.image_handle_id,
                                range: BatchRange { start: lastb.range.start, end },
                                chunk_key: lastb.chunk_key,
                            },
                        ));
                    }
                }
            }
            if !merged {
                batches.push(
                    TilemapBatch {
                        image_handle_id: d.image_handle_id,
                        range: BatchRange { start: cursor, end },
                        chunk_key: d.chunk_key,
                    },
                );
            }
            cursor = end;
        }
        proof {
            assert(batch_run(images@, draws@.take(i as int + 1)) =~= (BatchState {
                batches: batches@,
                cursor: cursor as int,
            }));
        }
        i = i + 1;
    }
    proof {
        assert(draws@.take(draws@.len() as int) =~= draws@);
        lemma_batch_run_wf(images@, draws@);
        lemma_batches_sourced(images@, draws@);
    }
    batches
}

} // verus!
