//! What a failed commit leaves: its requests can always be released.
use crate::backbone_cache::laws;
use crate::backbone_cache::plan::CacheBatch;
use crate::backbone_cache::publish;
use crate::backbone_cache::release;
use crate::backbone_cache::transaction;
use crate::backbone_cache::{BackboneCache, LAYERS, SOURCE_COUNT};
use crate::compressor::commit;
use crate::compressor::wave::CompressorWave;
use crate::compressor::Slot;
use crate::source_cache::apply;
use crate::source_cache::MAX_SLOTS;
use crate::window;
use crate::window::{WindowSlot, WindowWave};
use vstd::prelude::*;

verus! {

impl BackboneCache {
    /// Whatever is being written for the batch's requests is part of the lane's
    /// queued commit of the batch.
    pub open spec fn written_by_lane(
        &self,
        batch: &CacheBatch,
        windows: Seq<WindowWave>,
        sources: Seq<CompressorWave>,
    ) -> bool {
        &&& forall|r: int, l: int|
            #![trigger batch.requests@[r], self.windows@[l]]
            0 <= r < batch.requests@.len() && 0 <= l < LAYERS
                && self.windows@[l].writing@[batch.requests@[r].work.lease.slot as int]
                ==> self.owes_window(batch, l) && windows[l].pending is Some
        &&& forall|r: int, i: int|
            #![trigger batch.requests@[r], self.sources@[i]]
            0 <= r < batch.requests@.len() && 0 <= i < SOURCE_COUNT
                && self.sources@[i].index.writing@[batch.requests@[r].work.lease.slot as int]
                ==> self.owes_source(batch, i) && sources[i].pending_commit is Some
    }

    /// The lane has queued rows of window `l` at `slot`.
    pub open spec fn window_pending_at(&self, windows: Seq<WindowWave>, l: int, slot: int) -> bool {
        windows[l].pending is Some && (windows[l].prepared matches Some(p) && p.owner
            == self.windows@[l].owner && window::chunk_at(
            p.chunks@,
            p.chunks@.len() as int,
            slot,
        ))
    }

    /// The lane's rows of window `l` at `slot` are published or given up by the
    /// batch's commit.
    pub open spec fn window_reached(
        &self,
        batch: &CacheBatch,
        windows: Seq<WindowWave>,
        l: int,
        slot: int,
    ) -> bool {
        self.window_pending_at(windows, l, slot) || (self.owes_window(batch, l) && (
        windows[l].prepared matches Some(p) && window::chunk_at(
            p.chunks@,
            p.chunks@.len() as int,
            slot,
        )))
    }

    /// The lane has queued rows of source `i` at `slot`.
    pub open spec fn source_pending_at(sources: Seq<CompressorWave>, i: int, slot: int) -> bool {
        sources[i].pending_commit matches Some(pending) && commit::chunk_slot(
            &pending.prepared,
            pending.prepared.chunks@.len() as int,
            slot,
        )
    }

    /// The lane's rows of source `i` at `slot` are published or given up by the
    /// batch's commit.
    pub open spec fn source_reached(
        &self,
        batch: &CacheBatch,
        sources: Seq<CompressorWave>,
        i: int,
        slot: int,
    ) -> bool {
        Self::source_pending_at(sources, i, slot) || (sources[i].pending_commit is None
            && self.owes_source(batch, i) && (sources[i].ready matches Some(p)
            && commit::chunk_slot(&p, p.chunks@.len() as int, slot)))
    }

    /// What a failed commit leaves of window `l` at `slot`: nothing changes unless
    /// the batch or the lane's queue has rows there. No write is pending that was
    /// not, and none that the lane had queued; rows queued for others are given up,
    /// and their requests with them.
    pub open spec fn window_left(
        &self,
        before: &Self,
        batch: &CacheBatch,
        windows: Seq<WindowWave>,
        l: int,
        slot: int,
    ) -> bool {
        let now = self.windows@[l];
        let was = before.windows@[l];
        &&& now.slots@[slot].generation == was.slots@[slot].generation
        &&& now.writing@[slot] ==> was.writing@[slot] && !before.window_pending_at(windows, l, slot)
        &&& !transaction::batch_names(batch, batch.requests@.len() as int, slot)
            ==> if !before.window_reached(batch, windows, l, slot) {
            &&& now.slots@[slot] == was.slots@[slot]
            &&& now.writing@[slot] == was.writing@[slot]
        } else {
            before.owes_window(batch, l) || (now.slots@[slot] == (WindowSlot {
                request: None,
                ..was.slots@[slot]
            }) && !now.writing@[slot])
        }
    }

    /// What a failed commit leaves of source `i` at `slot`. A slot that has lost
    /// its request has no pages.
    pub open spec fn source_left(
        &self,
        before: &Self,
        batch: &CacheBatch,
        sources: Seq<CompressorWave>,
        i: int,
        slot: int,
    ) -> bool {
        let now = self.sources@[i];
        let was = before.sources@[i];
        &&& now.slots@[slot].generation == was.slots@[slot].generation
        &&& now.index.writing@[slot] ==> was.index.writing@[slot] && !Self::source_pending_at(
            sources,
            i,
            slot,
        )
        &&& now.slots@[slot].request is None && was.slots@[slot].request is Some
            ==> now.index.pages@[slot]@.len() == 0 && now.index.rows@[slot] == 0
        &&& !transaction::batch_names(batch, batch.requests@.len() as int, slot)
            ==> if !before.source_reached(batch, sources, i, slot) {
            &&& now.slots@[slot] == was.slots@[slot]
            &&& now.index.pages@[slot]@ == was.index.pages@[slot]@
            &&& now.index.rows@[slot] == was.index.rows@[slot]
            &&& now.index.writing@[slot] == was.index.writing@[slot]
        } else {
            before.owes_source(batch, i) || (now.slots@[slot] == (Slot {
                request: None,
                ..was.slots@[slot]
            }) && now.index.pages@[slot]@.len() == 0 && now.index.rows@[slot] == 0
                && !now.index.writing@[slot])
        }
    }

    /// The lane's wave of window `l` after a failed commit: published rows are
    /// gone, others are only no longer queued.
    pub open spec fn window_wave_left(
        &self,
        batch: &CacheBatch,
        windows: Seq<WindowWave>,
        accepted: Seq<u32>,
        done: Seq<bool>,
        l: int,
    ) -> WindowWave {
        WindowWave {
            pending: None,
            prepared: if self.owes_window(batch, l) && self.first_window_publish_error(
                batch,
                windows,
                accepted,
                done,
                l + 1,
            ) is None {
                None
            } else {
                windows[l].prepared
            },
            ..windows[l]
        }
    }

    /// The components after a failed commit.
    pub open spec fn components_left(
        &self,
        before: &Self,
        batch: &CacheBatch,
        windows: Seq<WindowWave>,
        sources: Seq<CompressorWave>,
    ) -> bool {
        &&& forall|l: int|
            0 <= l < LAYERS ==> {
                &&& (#[trigger] self.windows@[l]).owner == before.windows@[l].owner
                &&& self.windows@[l].layer == before.windows@[l].layer
                &&& self.windows@[l].device == before.windows@[l].device
            }
        &&& forall|l: int, s: int|
            0 <= l < LAYERS && 0 <= s < before.requests@.len() ==> #[trigger] self.window_left(
                before,
                batch,
                windows,
                l,
                s,
            )
        &&& forall|i: int|
            0 <= i < SOURCE_COUNT ==> {
                &&& (#[trigger] self.sources@[i]).same_identity(&before.sources@[i])
                &&& self.sources@[i].index.same_shape(&before.sources@[i].index)
                &&& self.sources@[i].index.pool.references@.len()
                    == before.sources@[i].index.pool.references@.len()
                &&& forall|page: u32|
                    page < before.sources@[i].index.pool.references@.len()
                        ==> self.sources@[i].index.retained(page)
                        == #[trigger] before.sources@[i].index.retained(page)
            }
        &&& forall|i: int, s: int|
            0 <= i < SOURCE_COUNT && 0 <= s < before.requests@.len() ==> #[trigger] self.source_left(
                before,
                batch,
                sources,
                i,
                s,
            )
    }

    /// The batch's commit has been given up: its requests are gone, unless something
    /// is still being written for one of them. Other requests keep their books,
    /// histories, pages and pending writes.
    pub open spec fn gave_up(
        &self,
        before: &Self,
        batch: &CacheBatch,
        windows: Seq<WindowWave>,
        sources: Seq<CompressorWave>,
    ) -> bool {
        &&& self.owner == before.owner
        &&& self.library == before.library
        &&& self.generations@ == before.generations@
        &&& self.poisoned == before.poisoned
        &&& self.prefix_pool == before.prefix_pool
        &&& self.prefix_copies@ == before.prefix_copies@
        &&& self.requests@.len() == before.requests@.len()
        &&& (self.requests@ == before.requests@ && self.first_release_error(
            publish::leases_of(batch),
            batch.requests@.len() as int,
        ) is Some) || self.all_withdrawn(before, batch)
        &&& forall|s: int|
            0 <= s < before.requests@.len() && !transaction::batch_names(
                batch,
                batch.requests@.len() as int,
                s,
            ) ==> #[trigger] self.requests@[s] == before.requests@[s]
        &&& self.components_left(before, batch, windows, sources)
    }

    /// The commit has failed half way and everything that the lane had queued is
    /// given up.
    pub open spec fn withdrawn(
        &self,
        before: &Self,
        batch: &CacheBatch,
        windows: Seq<WindowWave>,
        windows_were: Seq<WindowWave>,
        sources: Seq<CompressorWave>,
        sources_were: Seq<CompressorWave>,
        accepted: Seq<u32>,
        window_done: Seq<bool>,
    ) -> bool {
        &&& self.gave_up(before, batch, windows_were, sources_were)
        &&& windows.len() == LAYERS
        &&& forall|l: int|
            0 <= l < LAYERS ==> (#[trigger] windows[l]) == before.window_wave_left(
                batch,
                windows_were,
                accepted,
                window_done,
                l,
            )
        &&& sources.len() == SOURCE_COUNT
        &&& forall|i: int|
            0 <= i < SOURCE_COUNT ==> (#[trigger] sources[i]) == (CompressorWave {
                pending_commit: None,
                ..sources_were[i]
            })
    }

    /// None of the batch's requests is left, neither in the books nor in a
    /// component, and their pages are given back.
    pub open spec fn all_withdrawn(&self, before: &Self, batch: &CacheBatch) -> bool {
        forall|r: int|
            0 <= r < batch.requests@.len() ==> {
                let lease = (#[trigger] batch.requests@[r]).work.lease;
                let slot = lease.slot as int;
                &&& self.requests@[slot] is None
                &&& forall|l: int|
                    0 <= l < LAYERS ==> (#[trigger] self.windows@[l]).lease_error(
                        before.live(lease).windows@[l],
                    ) is Some
                &&& forall|i: int|
                    0 <= i < SOURCE_COUNT ==> {
                        &&& (#[trigger] self.sources@[i]).lease_error(
                            before.live(lease).sources@[i],
                        ) is Some
                        &&& before.sources@[i].lease_error(before.live(lease).sources@[i]) is None
                            ==> self.sources@[i].index.pages@[slot]@.len() == 0
                            && self.sources@[i].index.rows@[slot] == 0
                    }
            }
    }

    /// Window `l` at `slot` after a commit that failed and was given up.
    pub proof fn lemma_window_left(
        &self,
        before: &Self,
        failed: &Self,
        batch: &CacheBatch,
        windows: Seq<WindowWave>,
        waves: Seq<WindowWave>,
        accepted: Seq<u32>,
        l: int,
        slot: int,
    )
        requires
            before.inv(),
            failed.inv(),
            0 <= l < LAYERS,
            0 <= slot < before.requests@.len(),
            failed.requests@.len() == before.requests@.len(),
            waves[l].fits(&before.windows@[l]),
            windows[l].fits(&failed.windows@[l]),
            (failed.window_published(before, batch, windows, waves, accepted, l)
                && before.window_wave_error(batch, l, &waves[l]) is None) || (failed.windows@[l]
                == before.windows@[l] && windows[l] == waves[l]),
            publish::window_dropped(&self.windows@[l], &failed.windows@[l], &windows[l]),
        ensures
            self.window_left(before, batch, waves, l, slot),
            self.windows@[l].owner == before.windows@[l].owner,
            self.windows@[l].layer == before.windows@[l].layer,
            self.windows@[l].device == before.windows@[l].device,
    {
        let was = before.windows@[l];
        let mid = failed.windows@[l];
        assert(was.inv() && was.slots@.len() == before.requests@.len());
        assert(mid.inv() && mid.slots@.len() == before.requests@.len());
        if before.owes_window(batch, l) && before.window_wave_error(batch, l, &waves[l]) is None
            && failed.window_published(before, batch, windows, waves, accepted, l) {
            let chunks = waves[l].prepared->Some_0.chunks@;
            let n = chunks.len() as int;
            window::lemma_moved_slot(was.slots@, chunks, accepted, n, slot);
            window::lemma_marks_cleared(was.writing@, chunks, n, slot);
        }
        if windows[l].pending is Some && windows[l].prepared is Some
            && windows[l].prepared->Some_0.owner == mid.owner {
            let chunks = windows[l].prepared->Some_0.chunks@;
            let n = chunks.len() as int;
            window::lemma_revoked_slot(mid.slots@, chunks, n, slot);
            window::lemma_marks_cleared(mid.writing@, chunks, n, slot);
        }
    }

    /// Source `i` at `slot` after a commit that failed and was given up.
    pub proof fn lemma_source_left(
        &self,
        before: &Self,
        failed: &Self,
        batch: &CacheBatch,
        sources: Seq<CompressorWave>,
        waves: Seq<CompressorWave>,
        accepted: Seq<u32>,
        i: int,
        slot: int,
    )
        requires
            before.inv(),
            failed.inv(),
            0 <= i < SOURCE_COUNT,
            0 <= slot < before.requests@.len(),
            failed.requests@.len() == before.requests@.len(),
            before.lane_fits(i, &waves[i]),
            failed.source_published(before, batch, sources, waves, accepted, i) || (
            failed.sources@[i] == before.sources@[i] && sources[i] == waves[i]),
            publish::source_dropped(&self.sources@[i], &failed.sources@[i], &sources[i]),
        ensures
            self.source_left(before, batch, waves, i, slot),
            self.sources@[i].same_identity(&before.sources@[i]),
            self.sources@[i].index.same_shape(&before.sources@[i].index),
            forall|page: u32|
                page < before.sources@[i].index.pool.references@.len()
                    ==> self.sources@[i].index.retained(page)
                    == #[trigger] before.sources@[i].index.retained(page),
            self.sources@[i].index.pool.references@.len()
                == before.sources@[i].index.pool.references@.len(),
    {
        let was = before.sources@[i];
        let mid = failed.sources@[i];
        assert(was.inv() && mid.inv());
        assert(0 <= slot < MAX_SLOTS);
        if before.owes_source(batch, i) && failed.source_published(
            before,
            batch,
            sources,
            waves,
            accepted,
            i,
        ) {
            let pending = waves[i].pending_commit->Some_0;
            let p = pending.prepared;
            let n = p.chunks@.len() as int;
            commit::lemma_committed_slots(was.slots@, &p, accepted, n);
            mid.lemma_writing_after(&was, pending.plan.ticket@, pending.plan@, slot);
            apply::lemma_applied(was.index.tables(), was.index.rows@, pending.plan@, n);
            if commit::chunk_slot(&p, n, slot) {
                let k = choose|k: int| 0 <= k < n && #[trigger] commit::in_chunk_slot(&p, k, slot);
                assert(p.chunks@[k].lease.slot == slot);
            } else {
                assert(apply::untouched(pending.plan@, n, slot)) by {
                    assert forall|k: int| 0 <= k < n implies (#[trigger] pending.plan@[k]).slot
                        != slot by {
                        assert(p.chunks@[k].lease.slot == pending.plan@[k].slot);
                        assert(!commit::in_chunk_slot(&p, k, slot));
                    }
                }
                assert(mid.index.tables()[slot] == mid.index.pages@[slot]@);
                assert(was.index.tables()[slot] == was.index.pages@[slot]@);
            }
        }
        assert(self.sources@[i].slots@[slot] == self.sources@[i].slots@[slot]);
    }

    /// The lane's owed rows lie at the batch's slots only.
    pub proof fn lemma_not_reached(
        &self,
        batch: &CacheBatch,
        windows: Seq<WindowWave>,
        sources: Seq<CompressorWave>,
        accepted: Seq<u32>,
        l: int,
        i: int,
        slot: int,
    )
        requires
            self.inv(),
            batch.wf(),
            laws::batch_holds(self, batch),
            self.commit_error(batch, windows, sources, accepted) is None,
            !transaction::batch_names(batch, batch.requests@.len() as int, slot),
            0 <= l < LAYERS,
            0 <= i < SOURCE_COUNT,
        ensures
            self.owes_window(batch, l) ==> !self.window_reached(batch, windows, l, slot),
            self.owes_source(batch, i) ==> !self.source_reached(batch, sources, i, slot),
    {
        let n = batch.requests@.len() as int;
        assert forall|r: int| 0 <= r < n implies {
            let planned = #[trigger] batch.requests@[r];
            &&& planned.windows@[l].slot == planned.work.lease.slot
            &&& planned.sources@[i].slot == planned.work.lease.slot
            &&& planned.work.lease.slot != slot
        } by {
            self.lemma_batch_good(batch, n, r);
            let planned = batch.requests@[r];
            assert(self.leases_wf(
                planned.work.lease.slot as int,
                &self.live(planned.work.lease),
            ));
        }
        self.lemma_window_wave_good(batch, windows, 40, l);
        self.lemma_source_wave_good(batch, sources, 4, i);
        if self.owes_window(batch, l) && self.window_reached(batch, windows, l, slot) {
            let chunks = windows[l].prepared->Some_0.chunks@;
            let k = choose|k: int|
                0 <= k < chunks.len() && (#[trigger] chunks[k]).lease.slot == slot;
            assert(chunks[k] == batch.window_chunks_of(l)[k]);
            assert(batch.requests@[k].windows@[l].slot == slot);
        }
        if self.owes_source(batch, i) && self.source_reached(batch, sources, i, slot) {
            let p = if sources[i].pending_commit is Some {
                sources[i].pending_commit->Some_0.prepared
            } else {
                sources[i].ready->Some_0
            };
            let k = choose|k: int|
                0 <= k < p.chunks@.len() && #[trigger] commit::in_chunk_slot(&p, k, slot);
            assert(p.chunks@[k] == batch.source_chunks_of(i)[k]);
            assert(batch.requests@[k].sources@[i].slot == slot);
        }
    }

    /// The components after publishing has failed and the queue was given up.
    pub proof fn lemma_dropped_left(
        &self,
        before: &Self,
        failed: &Self,
        batch: &CacheBatch,
        windows: Seq<WindowWave>,
        windows_were: Seq<WindowWave>,
        sources: Seq<CompressorWave>,
        sources_were: Seq<CompressorWave>,
        accepted: Seq<u32>,
    )
        requires
            before.inv(),
            failed.inv(),
            before.lanes_fit(windows_were, sources_were),
            windows.len() == LAYERS,
            windows_were.len() == LAYERS,
            sources_were.len() == SOURCE_COUNT,
            failed.lanes_fit(windows, sources),
            failed.requests@.len() == before.requests@.len(),
            forall|l: int|
                0 <= l < LAYERS ==> (#[trigger] failed.window_published(
                    before,
                    batch,
                    windows,
                    windows_were,
                    accepted,
                    l,
                ) && before.window_wave_error(batch, l, &windows_were[l]) is None) || (
                failed.windows@[l] == before.windows@[l] && windows[l] == windows_were[l]),
            forall|i: int|
                0 <= i < SOURCE_COUNT ==> #[trigger] failed.source_published(
                    before,
                    batch,
                    sources,
                    sources_were,
                    accepted,
                    i,
                ) || (failed.sources@[i] == before.sources@[i] && sources[i] == sources_were[i]),
            forall|l: int|
                0 <= l < LAYERS ==> publish::window_dropped(
                    #[trigger] &self.windows@[l],
                    &failed.windows@[l],
                    &windows[l],
                ),
            forall|i: int|
                0 <= i < SOURCE_COUNT ==> publish::source_dropped(
                    #[trigger] &self.sources@[i],
                    &failed.sources@[i],
                    &sources[i],
                ),
        ensures
            self.components_left(before, batch, windows_were, sources_were),
    {
        assert forall|l: int, s: int|
            0 <= l < LAYERS && 0 <= s < before.requests@.len() implies #[trigger] self.window_left(
            before,
            batch,
            windows_were,
            l,
            s,
        ) by {
            assert(failed.window_published(before, batch, windows, windows_were, accepted, l)
                || failed.windows@[l] == before.windows@[l]);
            assert(publish::window_dropped(&self.windows@[l], &failed.windows@[l], &windows[l]));
            self.lemma_window_left(before, failed, batch, windows, windows_were, accepted, l, s);
        }
        assert forall|i: int, s: int|
            0 <= i < SOURCE_COUNT && 0 <= s < before.requests@.len() implies #[trigger] self.source_left(
            before,
            batch,
            sources_were,
            i,
            s,
        ) by {
            assert(failed.source_published(before, batch, sources, sources_were, accepted, i)
                || failed.sources@[i] == before.sources@[i]);
            assert(publish::source_dropped(&self.sources@[i], &failed.sources@[i], &sources[i]));
            assert(before.lane_fits(i, &sources_were[i]));
            self.lemma_source_left(before, failed, batch, sources, sources_were, accepted, i, s);
        }
        assert forall|l: int| 0 <= l < LAYERS implies {
            &&& (#[trigger] self.windows@[l]).owner == before.windows@[l].owner
            &&& self.windows@[l].layer == before.windows@[l].layer
            &&& self.windows@[l].device == before.windows@[l].device
        } by {
            assert(failed.window_published(before, batch, windows, windows_were, accepted, l)
                || failed.windows@[l] == before.windows@[l]);
            assert(publish::window_dropped(&self.windows@[l], &failed.windows@[l], &windows[l]));
        }
        assert forall|i: int| 0 <= i < SOURCE_COUNT implies {
            &&& (#[trigger] self.sources@[i]).same_identity(&before.sources@[i])
            &&& self.sources@[i].index.same_shape(&before.sources@[i].index)
            &&& self.sources@[i].index.pool.references@.len()
                == before.sources@[i].index.pool.references@.len()
            &&& forall|page: u32|
                page < before.sources@[i].index.pool.references@.len()
                    ==> self.sources@[i].index.retained(page)
                    == #[trigger] before.sources@[i].index.retained(page)
        } by {
            assert(failed.source_published(before, batch, sources, sources_were, accepted, i)
                || failed.sources@[i] == before.sources@[i]);
            assert(publish::source_dropped(&self.sources@[i], &failed.sources@[i], &sources[i]));
            assert forall|page: u32|
                page < before.sources@[i].index.pool.references@.len() implies self.sources@[i].index.retained(
                page,
            ) == #[trigger] before.sources@[i].index.retained(page) by {
                assert(failed.sources@[i].index.retained(page)
                    == before.sources@[i].index.retained(page));
            }
        }
    }

    /// The components after queueing has failed and what was queued is given up.
    pub proof fn lemma_unqueued_left(
        &self,
        before: &Self,
        failed: &Self,
        batch: &CacheBatch,
        windows: Seq<WindowWave>,
        windows_were: Seq<WindowWave>,
        sources: Seq<CompressorWave>,
        sources_were: Seq<CompressorWave>,
        accepted: Seq<u32>,
        direct: bool,
    )
        requires
            before.inv(),
            failed.inv(),
            before.lanes_fit(windows_were, sources_were),
            before.first_window_wave_error(batch, windows_were, 40) is None,
            windows.len() == LAYERS,
            windows_were.len() == LAYERS,
            sources.len() == SOURCE_COUNT,
            sources_were.len() == SOURCE_COUNT,
            failed.lanes_fit(windows, sources),
            failed.requests@.len() == before.requests@.len(),
            forall|l: int|
                0 <= l < LAYERS ==> #[trigger] failed.window_step(
                    before,
                    batch,
                    windows,
                    windows_were,
                    accepted,
                    l,
                ),
            forall|i: int|
                0 <= i < SOURCE_COUNT ==> #[trigger] failed.source_tried(
                    before,
                    batch,
                    sources,
                    sources_were,
                    accepted,
                    direct,
                    i,
                ),
            forall|l: int|
                0 <= l < LAYERS ==> publish::window_dropped(
                    #[trigger] &self.windows@[l],
                    &failed.windows@[l],
                    &windows[l],
                ),
            forall|i: int|
                0 <= i < SOURCE_COUNT ==> publish::source_dropped(
                    #[trigger] &self.sources@[i],
                    &failed.sources@[i],
                    &sources[i],
                ),
        ensures
            self.components_left(before, batch, windows_were, sources_were),
    {
        assert forall|l: int, s: int|
            0 <= l < LAYERS && 0 <= s < before.requests@.len() implies #[trigger] self.window_left(
            before,
            batch,
            windows_were,
            l,
            s,
        ) by {
            assert(failed.window_step(before, batch, windows, windows_were, accepted, l));
            assert(publish::window_dropped(&self.windows@[l], &failed.windows@[l], &windows[l]));
            let was = before.windows@[l];
            let mid = failed.windows@[l];
            assert(was.inv() && was.slots@.len() == before.requests@.len());
            assert(mid.inv() && mid.slots@.len() == before.requests@.len());
            before.lemma_window_wave_good(batch, windows_were, 40, l);
            assert(windows_were[l].fits(&was));
            if before.owes_window(batch, l) && windows_were[l].pending is None {
                let chunks = windows_were[l].prepared->Some_0.chunks@;
                window::lemma_marked_slot(was.writing@, chunks, chunks.len() as int, true, s);
            }
            if windows[l].pending is Some && windows[l].prepared is Some
                && windows[l].prepared->Some_0.owner == mid.owner {
                let chunks = windows[l].prepared->Some_0.chunks@;
                let n = chunks.len() as int;
                window::lemma_revoked_slot(mid.slots@, chunks, n, s);
                window::lemma_marks_cleared(mid.writing@, chunks, n, s);
            }
        }
        assert forall|i: int, s: int|
            0 <= i < SOURCE_COUNT && 0 <= s < before.requests@.len() implies #[trigger] self.source_left(
            before,
            batch,
            sources_were,
            i,
            s,
        ) by {
            assert(failed.source_tried(
                before,
                batch,
                sources,
                sources_were,
                accepted,
                direct,
                i,
            ));
            assert(publish::source_dropped(&self.sources@[i], &failed.sources@[i], &sources[i]));
            assert(before.lane_fits(i, &sources_were[i]));
            assert(failed.lane_fits(i, &sources[i]));
            let was = before.sources@[i];
            let mid = failed.sources@[i];
            assert(was.inv() && mid.inv());
            assert(0 <= s < MAX_SLOTS);
            if sources[i].pending_commit is Some && sources_were[i].pending_commit is None {
                let pending = sources[i].pending_commit->Some_0;
                let p = pending.prepared;
                let n = p.chunks@.len() as int;
                assert(mid.index.plans@.remove(pending.plan.ticket@) =~= was.index.plans@);
                was.lemma_writing_after(&mid, pending.plan.ticket@, pending.plan@, s);
                if !commit::chunk_slot(&p, n, s) {
                    assert(apply::untouched(pending.plan@, n, s)) by {
                        assert forall|k: int| 0 <= k < n implies (#[trigger] pending.plan@[k]).slot
                            != s by {
                            assert(p.chunks@[k].lease.slot == pending.plan@[k].slot);
                            assert(!commit::in_chunk_slot(&p, k, s));
                        }
                    }
                }
            }
            assert(self.sources@[i].slots@[s] == self.sources@[i].slots@[s]);
        }
        assert forall|l: int| 0 <= l < LAYERS implies {
            &&& (#[trigger] self.windows@[l]).owner == before.windows@[l].owner
            &&& self.windows@[l].layer == before.windows@[l].layer
            &&& self.windows@[l].device == before.windows@[l].device
        } by {
            assert(failed.window_step(before, batch, windows, windows_were, accepted, l));
            assert(publish::window_dropped(&self.windows@[l], &failed.windows@[l], &windows[l]));
        }
        assert forall|i: int| 0 <= i < SOURCE_COUNT implies {
            &&& (#[trigger] self.sources@[i]).same_identity(&before.sources@[i])
            &&& self.sources@[i].index.same_shape(&before.sources@[i].index)
            &&& self.sources@[i].index.pool.references@.len()
                == before.sources@[i].index.pool.references@.len()
            &&& forall|page: u32|
                page < before.sources@[i].index.pool.references@.len()
                    ==> self.sources@[i].index.retained(page)
                    == #[trigger] before.sources@[i].index.retained(page)
        } by {
            assert(failed.source_tried(
                before,
                batch,
                sources,
                sources_were,
                accepted,
                direct,
                i,
            ));
            assert(publish::source_dropped(&self.sources@[i], &failed.sources@[i], &sources[i]));
            assert(failed.sources@[i].index.tables() =~= before.sources@[i].index.tables());
            assert forall|page: u32|
                page < before.sources@[i].index.pool.references@.len() implies self.sources@[i].index.retained(
                page,
            ) == #[trigger] before.sources@[i].index.retained(page) by {
                assert(failed.sources@[i].index.retained(page)
                    == before.sources@[i].index.retained(page));
            }
        }
    }

    /// The bank once the batch's requests have been released, or could not be.
    pub proof fn lemma_gave_up(
        &self,
        before: &Self,
        dropped: &Self,
        batch: &CacheBatch,
        windows: Seq<WindowWave>,
        sources: Seq<CompressorWave>,
    )
        requires
            dropped.inv(),
            self.inv(),
            dropped.same_books(before),
            dropped.poisoned == before.poisoned,
            dropped.components_left(before, batch, windows, sources),
            (*self == *dropped && dropped.first_release_error(
                publish::leases_of(batch),
                batch.requests@.len() as int,
            ) is Some) || (dropped.first_release_error(
                publish::leases_of(batch),
                batch.requests@.len() as int,
            ) is None && self.all_ended(
                dropped,
                publish::leases_of(batch),
                batch.requests@.len() as int,
            )),
        ensures
            self.gave_up(before, batch, windows, sources),
            dropped.first_release_error(
                publish::leases_of(batch),
                batch.requests@.len() as int,
            ) is None ==> self.all_withdrawn(before, batch),
    {
        let n = batch.requests@.len() as int;
        let leases = publish::leases_of(batch);
        if dropped.first_release_error(leases, n) is None {
            assert forall|s: int| release::names_slot(leases, n, s)
                == #[trigger] transaction::batch_names(batch, n, s) by {
                if release::names_slot(leases, n, s) {
                    let j = choose|j: int| 0 <= j < n && (#[trigger] leases[j]).slot == s;
                    assert(batch.requests@[j].work.lease.slot == s);
                }
                if transaction::batch_names(batch, n, s) {
                    let j = choose|j: int|
                        0 <= j < n && (#[trigger] batch.requests@[j]).work.lease.slot == s;
                    assert(leases[j].slot == s);
                }
            }
            assert forall|l: int, s: int|
                0 <= l < LAYERS && 0 <= s < before.requests@.len() implies #[trigger] self.window_left(
                before,
                batch,
                windows,
                l,
                s,
            ) by {
                assert(dropped.window_left(before, batch, windows, l, s));
                assert(transaction::batch_names(batch, n, s) == release::names_slot(leases, n, s));
                assert(self.windows@[l].slots@[s] == self.windows@[l].slots@[s]);
                assert(self.windows@[l].same_rings(&dropped.windows@[l]));
            }
            assert forall|i: int, s: int|
                0 <= i < SOURCE_COUNT && 0 <= s < before.requests@.len() implies #[trigger] self.source_left(
                before,
                batch,
                sources,
                i,
                s,
            ) by {
                assert(dropped.source_left(before, batch, sources, i, s));
                assert(transaction::batch_names(batch, n, s) == release::names_slot(leases, n, s));
                assert(self.sources@[i].slots@[s] == self.sources@[i].slots@[s]);
                assert(self.sources@[i].same_identity(&dropped.sources@[i]));
                assert(self.sources@[i].inv() && dropped.sources@[i].inv());
                assert(self.sources@[i].index.tables()[s] == self.sources@[i].index.pages@[s]@);
                assert(dropped.sources@[i].index.tables()[s] == dropped.sources@[i].index.pages@[s]@);
            }
            assert forall|i: int| 0 <= i < SOURCE_COUNT implies {
                &&& (#[trigger] self.sources@[i]).same_identity(&before.sources@[i])
                &&& self.sources@[i].index.same_shape(&before.sources@[i].index)
                &&& self.sources@[i].index.pool.references@.len()
                    == before.sources@[i].index.pool.references@.len()
                &&& forall|page: u32|
                    page < before.sources@[i].index.pool.references@.len()
                        ==> self.sources@[i].index.retained(page)
                        == #[trigger] before.sources@[i].index.retained(page)
            } by {
                assert(dropped.sources@[i].same_identity(&before.sources@[i]));
                assert(self.sources@[i].same_identity(&dropped.sources@[i]));
                assert forall|page: u32|
                    page < before.sources@[i].index.pool.references@.len() implies self.sources@[i].index.retained(
                    page,
                ) == #[trigger] before.sources@[i].index.retained(page) by {
                    assert(dropped.sources@[i].index.retained(page)
                        == before.sources@[i].index.retained(page));
                }
            }
            assert forall|l: int| 0 <= l < LAYERS implies {
                &&& (#[trigger] self.windows@[l]).owner == before.windows@[l].owner
                &&& self.windows@[l].layer == before.windows@[l].layer
                &&& self.windows@[l].device == before.windows@[l].device
            } by {
                assert(self.windows@[l].same_rings(&dropped.windows@[l]));
                assert(dropped.windows@[l].owner == before.windows@[l].owner);
            }
            assert forall|r: int| 0 <= r < n implies {
                let lease = (#[trigger] batch.requests@[r]).work.lease;
                let slot = lease.slot as int;
                &&& self.requests@[slot] is None
                &&& forall|l: int|
                    0 <= l < LAYERS ==> (#[trigger] self.windows@[l]).lease_error(
                        before.live(lease).windows@[l],
                    ) is Some
                &&& forall|i: int|
                    0 <= i < SOURCE_COUNT ==> {
                        &&& (#[trigger] self.sources@[i]).lease_error(
                            before.live(lease).sources@[i],
                        ) is Some
                        &&& before.sources@[i].lease_error(before.live(lease).sources@[i]) is None
                            ==> self.sources@[i].index.pages@[slot]@.len() == 0
                            && self.sources@[i].index.rows@[slot] == 0
                    }
            } by {
                let lease = batch.requests@[r].work.lease;
                let slot = lease.slot as int;
                let request = before.live(lease);
                assert(leases[r] == lease);
                dropped.lemma_releasable(leases, n, r);
                assert(dropped.requests@[slot] is Some);
                assert(dropped.leases_wf(slot, &request));
                assert(transaction::batch_names(batch, n, slot));
                assert(release::names_slot(leases, n, slot));
                assert(self.requests@[slot] is None);
                assert forall|l: int| 0 <= l < LAYERS implies (
                #[trigger] self.windows@[l]).lease_error(request.windows@[l]) is Some by {
                    assert(request.windows@[l].slot == slot);
                    assert(self.windows@[l].slots@[slot] == self.windows@[l].slots@[slot]);
                    assert(self.windows@[l].same_rings(&dropped.windows@[l]));
                }
                assert forall|i: int| 0 <= i < SOURCE_COUNT implies {
                    &&& (#[trigger] self.sources@[i]).lease_error(request.sources@[i]) is Some
                    &&& before.sources@[i].lease_error(request.sources@[i]) is None
                        ==> self.sources@[i].index.pages@[slot]@.len() == 0
                        && self.sources@[i].index.rows@[slot] == 0
                } by {
                    assert(request.sources@[i].slot == slot);
                    assert(self.sources@[i].slots@[slot] == self.sources@[i].slots@[slot]);
                    assert(self.sources@[i].same_identity(&dropped.sources@[i]));
                    assert(dropped.sources@[i].same_identity(&before.sources@[i]));
                    assert(self.sources@[i].inv() && dropped.sources@[i].inv());
                    assert(self.sources@[i].index.tables()[slot]
                        == self.sources@[i].index.pages@[slot]@);
                    assert(dropped.sources@[i].index.tables()[slot]
                        == dropped.sources@[i].index.pages@[slot]@);
                    assert(self.source_left(before, batch, sources, i, slot));
                    assert(dropped.source_left(before, batch, sources, i, slot));
                }
            }
        }
    }

    proof fn lemma_releases_accepted(&self, batch: &CacheBatch, n: int)
        requires
            batch.wf(),
            0 <= n <= batch.requests@.len(),
            forall|r: int|
                0 <= r < batch.requests@.len() ==> self.release_error(
                    (#[trigger] batch.requests@[r]).work.lease,
                ) is None,
        ensures
            self.first_release_error(publish::leases_of(batch), n) is None,
        decreases n,
    {
        if n > 0 {
            self.lemma_releases_accepted(batch, n - 1);
            let leases = publish::leases_of(batch);
            assert(leases[n - 1] == batch.requests@[n - 1].work.lease);
            if leases.take(n - 1).contains(leases[n - 1]) {
                let k = choose|k: int|
                    0 <= k < n - 1 && #[trigger] leases.take(n - 1)[k] == leases[n - 1];
                assert(batch.requests@[k].work.lease == batch.requests@[n - 1].work.lease);
                assert(false);
            }
        }
    }

    /// A commit that was given up leaves nothing that keeps the batch's requests
    /// from being released.
    pub proof fn lemma_given_up_releases(
        &self,
        before: &Self,
        batch: &CacheBatch,
        windows: Seq<WindowWave>,
        sources: Seq<CompressorWave>,
        accepted: Seq<u32>,
    )
        requires
            before.inv(),
            self.inv(),
            batch.wf(),
            laws::batch_holds(before, batch),
            before.commit_error(batch, windows, sources, accepted) is None,
            before.written_by_lane(batch, windows, sources),
            self.same_books(before),
            self.poisoned == before.poisoned,
            self.components_left(before, batch, windows, sources),
        ensures
            self.first_release_error(publish::leases_of(batch), batch.requests@.len() as int) is None,
    {
        let n = batch.requests@.len() as int;
        assert forall|r: int| 0 <= r < n implies self.release_error(
            (#[trigger] batch.requests@[r]).work.lease,
        ) is None by {
            let lease = batch.requests@[r].work.lease;
            let slot = lease.slot as int;
            before.lemma_batch_good(batch, n, r);
            let request = before.live(lease);
            assert(before.leases_wf(slot, &request));
            assert(self.snapshotting(lease) == before.snapshotting(lease));
            assert forall|l: int| 0 <= l < LAYERS implies !#[trigger] release::window_busy(
                self,
                &request,
                l,
            ) by {
                assert(request.windows@[l].slot == slot);
                assert(self.window_left(before, batch, windows, l, slot));
                if before.windows@[l].writing@[slot] {
                    assert(batch.requests@[r] == batch.requests@[r]);
                    assert(before.owes_window(batch, l) && windows[l].pending is Some);
                    before.lemma_window_wave_good(batch, windows, 40, l);
                    let chunks = batch.window_chunks_of(l);
                    assert(chunks[r].lease == batch.requests@[r].windows@[l]);
                    assert(window::chunk_at(chunks, n, slot));
                }
            }
            assert forall|i: int| 0 <= i < SOURCE_COUNT implies !#[trigger] release::source_busy(
                self,
                &request,
                i,
            ) by {
                assert(request.sources@[i].slot == slot);
                assert(self.source_left(before, batch, sources, i, slot));
                if before.sources@[i].index.writing@[slot] {
                    assert(batch.requests@[r] == batch.requests@[r]);
                    assert(before.owes_source(batch, i) && sources[i].pending_commit is Some);
                    before.lemma_source_wave_good(batch, sources, 4, i);
                    let p = sources[i].pending_commit->Some_0.prepared;
                    assert(p.chunks@ == batch.source_chunks_of(i));
                    assert(p.chunks@[r].lease == batch.requests@[r].sources@[i]);
                    assert(commit::in_chunk_slot(&p, r, slot));
                }
            }
        }
        self.lemma_releases_accepted(batch, n);
    }
}

} // verus!
