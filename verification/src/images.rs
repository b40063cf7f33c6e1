//! The image bind-group cache: a mapping from texture identity to a
//! ready-to-bind descriptor, invalidated by the frame's asset events.
//!
//! `Modified` and `Removed` events evict the entry; the rebuilt descriptor is
//! inserted lazily on first use. A texture with no cached entry is "not
//! ready": the batcher drops chunks that depend on it from this frame's
//! batches, and they are naturally retried once the entry appears.

use vstd::prelude::*;

use crate::snapshot::{AssetEvent, ImageId, TilemapAssetEvents};

verus! {

/// An opaque reference to a GPU-side bind group (the handle bundling a
/// texture and its related resources for drawing).
#[derive(Clone, Copy, Debug, PartialEq, Eq, Structural)]
pub struct BindGroup {
    pub id: u64,
}

/// The first cached bind group for texture `id`, if any. Entries are searched
/// front to back, so with unique keys this is the entry.
pub open spec fn img_lookup(entries: Seq<(ImageId, BindGroup)>, id: ImageId) -> Option<BindGroup>
    decreases entries.len(),
{
    if entries.len() == 0 {
        None
    } else if entries.first().0 == id {
        Some(entries.first().1)
    } else {
        img_lookup(entries.drop_first(), id)
    }
}

/// `entries` with every entry for texture `id` removed, order otherwise kept.
pub open spec fn img_remove(entries: Seq<(ImageId, BindGroup)>, id: ImageId) -> Seq<
    (ImageId, BindGroup),
>
    decreases entries.len(),
{
    if entries.len() == 0 {
        entries
    } else if entries.first().0 == id {
        img_remove(entries.drop_first(), id)
    } else {
        seq![entries.first()] + img_remove(entries.drop_first(), id)
    }
}

/// Whether some event in `events` evicts texture `id`.
pub open spec fn evicted_by(events: Seq<AssetEvent>, id: ImageId) -> bool {
    exists|k: int| 0 <= k < events.len() && (#[trigger] events[k]).evicts(id)
}

/// The cache contents after draining `events` in order: every texture named
/// by a `Modified` or `Removed` event is evicted.
pub open spec fn drain_events(entries: Seq<(ImageId, BindGroup)>, events: Seq<AssetEvent>) -> Seq<
    (ImageId, BindGroup),
>
    decreases events.len(),
{
    if events.len() == 0 {
        entries
    } else {
        let prev = drain_events(entries, events.drop_last());
        match events.last() {
            AssetEvent::Created { .. } => prev,
            AssetEvent::Modified { id } => img_remove(prev, id),
            AssetEvent::Removed { id } => img_remove(prev, id),
        }
    }
}

/// The cache of per-texture bind groups, keyed by texture identity.
#[derive(Clone, Debug)]
pub struct ImageBindGroups {
    pub values: Vec<(ImageId, BindGroup)>,
}

impl View for ImageBindGroups {
    type V = Seq<(ImageId, BindGroup)>;

    open spec fn view(&self) -> Seq<(ImageId, BindGroup)> {
        self.values@
    }
}

impl Default for ImageBindGroups {
    /// The cache starts empty; entries are built lazily on first use.
    fn default() -> (r: Self)
        ensures
            r@.len() == 0,
    {
        ImageBindGroups { values: Vec::new() }
    }
}

impl ImageBindGroups {
    /// The cached bind group for texture `id`, or `None` while the texture is
    /// not ready.
    pub fn get(&self, id: ImageId) -> (r: Option<BindGroup>)
        ensures
            r == img_lookup(self@, id),
    {
        proof {
            assert(self@.skip(0) =~= self@);
        }
        let mut i: usize = 0;
        while i < self.values.len()
            invariant
                i <= self.values@.len(),
                img_lookup(self@, id) == img_lookup(self@.skip(i as int), id),
            decreases self.values@.len() - i,
        {
            proof {
                assert(self@.skip(i as int).first() == self@[i as int]);
                assert(self@.skip(i as int).drop_first() =~= self@.skip(i as int + 1));
            }
            if self.values[i].0 == id {
                return Some(self.values[i].1);
            }
            i = i + 1;
        }
        proof {
            assert(self@.skip(self@.len() as int).len() == 0);
        }
        None
    }

    /// Whether texture `id` is ready (has a cached bind group).
    pub fn contains(&self, id: ImageId) -> (r: bool)
        ensures
            r == (img_lookup(self@, id) is Some),
    {
        let found = self.get(id);
        match found {
            Some(_) => true,
            None => false,
        }
    }

    /// Record the freshly built bind group for texture `id`, evicting any
    /// earlier entry for it. Later lookups for `id` see `bind_group`; lookups
    /// for other textures are unchanged.
    pub fn insert(&mut self, id: ImageId, bind_group: BindGroup)
        ensures
            final(self)@ == img_remove(old(self)@, id).push((id, bind_group)),
            img_lookup(final(self)@, id) == Some(bind_group),
            forall|other: ImageId|
                other != id ==> img_lookup(final(self)@, other) == img_lookup(old(self)@, other),
    {
        self.remove(id);
        let ghost removed = self@;
        self.values.push((id, bind_group));
        proof {
            lemma_img_lookup_push(removed, id, bind_group);
            lemma_img_remove_lookup(old(self)@, id);
        }
    }

    /// Evict every entry for texture `id`; lookups for `id` then miss until a
    /// rebuilt bind group is inserted, and other textures are unchanged.
    pub fn remove(&mut self, id: ImageId)
        ensures
            final(self)@ == img_remove(old(self)@, id),
            img_lookup(final(self)@, id) is None,
            forall|other: ImageId|
                other != id ==> img_lookup(final(self)@, other) == img_lookup(old(self)@, other),
    {
        proof {
            assert(self@.skip(0) =~= self@);
            assert(self@.take(0) + img_remove(self@, id) =~= img_remove(self@, id));
        }
        let mut i: usize = 0;
        while i < self.values.len()
            invariant
                i <= self.values@.len(),
                img_remove(old(self)@, id) =~= self@.take(i as int) + img_remove(
                    self@.skip(i as int),
                    id,
                ),
                forall|k: int| 0 <= k < i ==> (#[trigger] self@[k]).0 != id,
            decreases self.values@.len() - i,
        {
            proof {
                assert(self@.skip(i as int).first() == self@[i as int]);
                assert(self@.skip(i as int).drop_first() =~= self@.skip(i as int + 1));
            }
            if self.values[i].0 == id {
                let ghost before = self@;
                self.values.remove(i);
                proof {
                    assert(self@.take(i as int) =~= before.take(i as int));
                    assert(self@.skip(i as int) =~= before.skip(i as int + 1));
                }
            } else {
                proof {
                    assert(self@.take(i as int + 1) =~= self@.take(i as int) + seq![
                        self@[i as int],
                    ]);
                    assert(seq![self@[i as int]] + img_remove(self@.skip(i as int + 1), id)
                        =~= img_remove(self@.skip(i as int), id));
                    assert(self@.take(i as int) + (seq![self@[i as int]] + img_remove(
                        self@.skip(i as int + 1),
                        id,
                    )) =~= self@.take(i as int + 1) + img_remove(self@.skip(i as int + 1), id));
                }
                i = i + 1;
            }
        }
        proof {
            assert(self@.skip(self@.len() as int).len() == 0);
            assert(self@.take(self@.len() as int) =~= self@);
            assert(final(self)@ =~= img_remove(old(self)@, id));
            lemma_img_remove_lookup(old(self)@, id);
            assert forall|other: ImageId| other != id implies img_lookup(final(self)@, other)
                == img_lookup(old(self)@, other) by {
                lemma_img_remove_other(old(self)@, id, other);
            }
        }
    }

    /// Drain this frame's asset events in order: evict the entry of every
    /// texture named by a `Modified` or `Removed` event (`Created` builds
    /// nothing eagerly). A texture is still cached afterwards if and only if
    /// it was cached before and no event evicted it, and surviving entries
    /// keep their bind groups.
    pub fn process_events(&mut self, events: &TilemapAssetEvents)
        ensures
            final(self)@ == drain_events(old(self)@, events.images@),
            forall|id: ImageId|
                img_lookup(final(self)@, id) == if evicted_by(events.images@, id) {
                    None::<BindGroup>
                } else {
                    img_lookup(old(self)@, id)
                },
    {
        let mut i: usize = 0;
        while i < events.images.len()
            invariant
                i <= events.images@.len(),
                self@ == drain_events(old(self)@, events.images@.take(i as int)),
            decreases events.images@.len() - i,
        {
            proof {
                assert(events.images@.take(i as int + 1).drop_last() =~= events.images@.take(
                    i as int,
                ));
                assert(events.images@.take(i as int + 1).last() == events.images@[i as int]);
            }
            let ev = events.images[i];
            match ev {
                AssetEvent::Created { .. } => {
                },
                AssetEvent::Modified { id } => {
                    self.remove(id);
                },
                AssetEvent::Removed { id } => {
                    self.remove(id);
                },
            }
            i = i + 1;
        }
        proof {
            assert(events.images@.take(events.images@.len() as int) =~= events.images@);
            lemma_drain_events_lookup(old(self)@, events.images@);
        }
    }
}

/// Looking up the key just pushed finds it if nothing earlier matches; other
/// keys are unaffected by the push.
proof fn lemma_img_lookup_push(entries: Seq<(ImageId, BindGroup)>, id: ImageId, bg: BindGroup)
    ensures
        img_lookup(entries.push((id, bg)), id) == if img_lookup(entries, id) is Some {
            img_lookup(entries, id)
        } else {
            Some(bg)
        },
        forall|other: ImageId|
            other != id ==> img_lookup(entries.push((id, bg)), other) == img_lookup(
                entries,
                other,
            ),
    decreases entries.len(),
{
    if entries.len() == 0 {
        assert(entries.push((id, bg)).first() == (id, bg));
        assert(entries.push((id, bg)).drop_first() =~= Seq::empty());
        assert forall|other: ImageId| other != id implies img_lookup(
            entries.push((id, bg)),
            other,
        ) == img_lookup(entries, other) by {
            assert(img_lookup(entries.push((id, bg)).drop_first(), other) is None);
        }
    } else {
        assert(entries.push((id, bg)).first() == entries.first());
        assert(entries.push((id, bg)).drop_first() =~= entries.drop_first().push((id, bg)));
        lemma_img_lookup_push(entries.drop_first(), id, bg);
        assert forall|other: ImageId| other != id implies img_lookup(
            entries.push((id, bg)),
            other,
        ) == img_lookup(entries, other) by {
            assert(img_lookup(entries.drop_first().push((id, bg)), other) == img_lookup(
                entries.drop_first(),
                other,
            ));
        }
    }
}

/// After removing `id`, a lookup for `id` misses.
proof fn lemma_img_remove_lookup(entries: Seq<(ImageId, BindGroup)>, id: ImageId)
    ensures
        img_lookup(img_remove(entries, id), id) is None,
    decreases entries.len(),
{
    if entries.len() == 0 {
    } else {
        lemma_img_remove_lookup(entries.drop_first(), id);
        if entries.first().0 != id {
            assert((seq![entries.first()] + img_remove(entries.drop_first(), id)).first()
                == entries.first());
            assert((seq![entries.first()] + img_remove(entries.drop_first(), id)).drop_first()
                =~= img_remove(entries.drop_first(), id));
        }
    }
}

/// Removing `id` leaves lookups for every other key unchanged.
proof fn lemma_img_remove_other(entries: Seq<(ImageId, BindGroup)>, id: ImageId, other: ImageId)
    requires
        other != id,
    ensures
        img_lookup(img_remove(entries, id), other) == img_lookup(entries, other),
    decreases entries.len(),
{
    if entries.len() == 0 {
    } else {
        lemma_img_remove_other(entries.drop_first(), id, other);
        if entries.first().0 != id {
            assert((seq![entries.first()] + img_remove(entries.drop_first(), id)).first()
                == entries.first());
            assert((seq![entries.first()] + img_remove(entries.drop_first(), id)).drop_first()
                =~= img_remove(entries.drop_first(), id));
        }
    }
}

/// Draining events evicts exactly the textures named by `Modified` or
/// `Removed` events and preserves every other entry's lookup.
proof fn lemma_drain_events_lookup(entries: Seq<(ImageId, BindGroup)>, events: Seq<AssetEvent>)
    ensures
        forall|id: ImageId|
            img_lookup(drain_events(entries, events), id) == if evicted_by(events, id) {
                None::<BindGroup>
            } else {
                img_lookup(entries, id)
            },
    decreases events.len(),
{
    if events.len() == 0 {
        assert forall|id: ImageId| !evicted_by(events, id) by {
            if evicted_by(events, id) {
                let k = choose|k: int|
                    0 <= k < events.len() && (#[trigger] events[k]).evicts(id);
            }
        }
    } else {
        lemma_drain_events_lookup(entries, events.drop_last());
        let prev = drain_events(entries, events.drop_last());
        assert forall|id: ImageId|
            img_lookup(drain_events(entries, events), id) == (if evicted_by(events, id) {
                None::<BindGroup>
            } else {
                img_lookup(entries, id)
            }) by {
            if events.last().evicts(id) {
                match events.last() {
                    AssetEvent::Created { .. } => {
                    },
                    AssetEvent::Modified { id: eid } => {
                        lemma_img_remove_lookup(prev, eid);
                    },
                    AssetEvent::Removed { id: eid } => {
                        lemma_img_remove_lookup(prev, eid);
                    },
                }
                assert(events[events.len() - 1].evicts(id));
            } else {
                match events.last() {
                    AssetEvent::Created { .. } => {
                    },
                    AssetEvent::Modified { id: eid } => {
                        lemma_img_remove_other(prev, eid, id);
                    },
                    AssetEvent::Removed { id: eid } => {
                        lemma_img_remove_other(prev, eid, id);
                    },
                }
                if evicted_by(events, id) {
                    let k = choose|k: int| 0 <= k < events.len() && (#[trigger] events[k]).evicts(
                        id,
                    );
                    assert(k < events.len() - 1);
                    assert(events.drop_last()[k] == events[k]);
                    assert(evicted_by(events.drop_last(), id));
                } else {
                    assert(!evicted_by(events.drop_last(), id)) by {
                        if evicted_by(events.drop_last(), id) {
                            let k = choose|k: int|
                                0 <= k < events.drop_last().len() && (#[trigger] events.drop_last()[k]).evicts(
                                    id,
                                );
                            assert(events[k] == events.drop_last()[k]);
                        }
                    }
                }
            }
        }
    }
}

} // verus!
