//! Committing a batch that nothing was queued for: queue, write, then publish or
//! give up.
use crate::backbone_cache::laws;
use crate::backbone_cache::plan::CacheBatch;
use crate::backbone_cache::publish;
use crate::backbone_cache::{BackboneCache, LAYERS, SOURCE_COUNT};
use crate::compressor::commit::CommitWork;
use crate::compressor::wave::CompressorWave;
use crate::error::Error;
use crate::window::WindowWave;
use vstd::prelude::*;

verus! {

impl BackboneCache {
    /// The lane's wave of source `i` after queueing failed and was given up: what
    /// was queued is gone, and so is the proposal that could not be.
    pub open spec fn unqueued_wave(
        &self,
        batch: &CacheBatch,
        sources: Seq<CompressorWave>,
        accepted: Seq<u32>,
        i: int,
    ) -> CompressorWave {
        let tried = self.queues_source(batch, sources, true, i) && self.first_queue_error(
            batch,
            sources,
            accepted,
            true,
            i,
        ) is None;
        CompressorWave {
            pending_commit: None,
            ready: if tried && !sources[i].keeps_proposal(&self.sources@[i]) {
                None
            } else {
                sources[i].ready
            },
            ..sources[i]
        }
    }

    /// What beginning a direct commit leaves, and what it returns.
    pub open spec fn direct_begun(
        &self,
        before: &Self,
        batch: &CacheBatch,
        windows: Seq<WindowWave>,
        windows_were: Seq<WindowWave>,
        sources: Seq<CompressorWave>,
        sources_were: Seq<CompressorWave>,
        accepted: Seq<u32>,
        r: Result<Vec<(usize, CommitWork)>, Error>,
    ) -> bool {
        let refusal = before.commit_error(batch, windows_were, sources_were, accepted);
        match before.first_queue_error(batch, sources_were, accepted, true, 4) {
            Some(reason) if refusal is None => {
                &&& r == Err::<Vec<(usize, CommitWork)>, Error>(reason)
                &&& self.gave_up(before, batch, windows_were, sources_were)
                &&& laws::batch_holds(before, batch) && before.written_by_lane(
                    batch,
                    windows_were,
                    sources_were,
                ) ==> self.all_withdrawn(before, batch)
                &&& windows.len() == LAYERS
                &&& forall|l: int|
                    0 <= l < LAYERS ==> (#[trigger] windows[l]) == (WindowWave {
                        pending: None,
                        ..windows_were[l]
                    })
                &&& sources.len() == SOURCE_COUNT
                &&& forall|i: int|
                    0 <= i < SOURCE_COUNT ==> (#[trigger] sources[i]) == before.unqueued_wave(
                        batch,
                        sources_were,
                        accepted,
                        i,
                    )
            },
            _ => {
                &&& self.same_books(before)
                &&& self.poisoned == before.poisoned
                &&& self.commit_queued(
                    before,
                    batch,
                    windows,
                    windows_were,
                    sources,
                    sources_were,
                    accepted,
                    true,
                    r,
                )
            },
        }
    }

    /// What ending a direct commit leaves, and what it returns.
    pub open spec fn direct_ended(
        &self,
        before: &Self,
        batch: &CacheBatch,
        windows: Seq<WindowWave>,
        windows_were: Seq<WindowWave>,
        sources: Seq<CompressorWave>,
        sources_were: Seq<CompressorWave>,
        accepted: Seq<u32>,
        work: Result<(), Error>,
        r: Result<(), Error>,
    ) -> bool {
        match work {
            Err(reason) => {
                &&& r == Err::<(), Error>(reason)
                &&& self.gave_up(before, batch, windows_were, sources_were)
                &&& laws::batch_holds(before, batch) && before.commit_error(
                    batch,
                    windows_were,
                    sources_were,
                    accepted,
                ) is None && before.written_by_lane(batch, windows_were, sources_were)
                    ==> self.all_withdrawn(before, batch)
                &&& windows.len() == LAYERS
                &&& forall|l: int|
                    0 <= l < LAYERS ==> (#[trigger] windows[l]) == (WindowWave {
                        pending: None,
                        ..windows_were[l]
                    })
                &&& sources.len() == SOURCE_COUNT
                &&& forall|i: int|
                    0 <= i < SOURCE_COUNT ==> (#[trigger] sources[i]) == (CompressorWave {
                        pending_commit: None,
                        ..sources_were[i]
                    })
            },
            Ok(_) => self.commit_ended(
                before,
                batch,
                windows,
                windows_were,
                sources,
                sources_were,
                accepted,
                Seq::new(LAYERS as nat, |l: int| true),
                Seq::new(SOURCE_COUNT as nat, |i: int| true),
                r,
            ),
        }
    }

    /// Queues the commit of a batch that is completed at once. Where a source
    /// cannot be queued, everything is given up and the participating requests
    /// end. Rows that are queued already stay so.
    pub fn begin_direct_commit(
        &mut self,
        batch: &CacheBatch,
        windows: &mut Vec<WindowWave>,
        sources: &mut Vec<CompressorWave>,
        accepted: &[u32],
    ) -> (r: Result<Vec<(usize, CommitWork)>, Error>)
        requires
            old(self).inv(),
            batch.wf(),
            old(self).lanes_fit(old(windows)@, old(sources)@),
        ensures
            final(self).inv(),
            final(self).lanes_fit(final(windows)@, final(sources)@),
            final(self).direct_begun(
                old(self),
                batch,
                final(windows)@,
                old(windows)@,
                final(sources)@,
                old(sources)@,
                accepted@,
                r,
            ),
    {
        match self.validate_commit(batch, windows.as_slice(), sources.as_slice(), accepted) {
            Err(e) => {
                return Err(e);
            },
            Ok(_) => {},
        }
        match self.queue_commit(batch, windows, sources, accepted, true) {
            Ok(work) => Ok(work),
            Err(e) => {
                let ghost failed = *self;
                let ghost window_waves = windows@;
                let ghost source_waves = sources@;
                self.abort_cache_commit(windows, sources);
                let ghost dropped = *self;
                let leases = publish::batch_leases(batch);
                let released = self.release(leases.as_slice());
                proof {
                    assert forall|l: int| 0 <= l < LAYERS implies publish::window_dropped(
                        #[trigger] &dropped.windows@[l],
                        &failed.windows@[l],
                        &window_waves[l],
                    ) && windows@[l] == (WindowWave { pending: None, ..old(windows)@[l] }) by {
                        assert(windows@[l] == (WindowWave { pending: None, ..window_waves[l] }));
                        assert(failed.window_step(
                            old(self),
                            batch,
                            window_waves,
                            old(windows)@,
                            accepted@,
                            l,
                        ));
                    }
                    assert forall|i: int| 0 <= i < SOURCE_COUNT implies publish::source_dropped(
                        #[trigger] &dropped.sources@[i],
                        &failed.sources@[i],
                        &source_waves[i],
                    ) && sources@[i] == old(self).unqueued_wave(
                        batch,
                        old(sources)@,
                        accepted@,
                        i,
                    ) by {
                        assert(sources@[i] == (CompressorWave {
                            pending_commit: None,
                            ..source_waves[i]
                        }));
                        assert(failed.source_tried(
                            old(self),
                            batch,
                            source_waves,
                            old(sources)@,
                            accepted@,
                            true,
                            i,
                        ));
                    }
                    dropped.lemma_unqueued_left(
                        old(self),
                        &failed,
                        batch,
                        window_waves,
                        old(windows)@,
                        source_waves,
                        old(sources)@,
                        accepted@,
                        true,
                    );
                    if laws::batch_holds(old(self), batch) && old(self).written_by_lane(
                        batch,
                        old(windows)@,
                        old(sources)@,
                    ) {
                        dropped.lemma_given_up_releases(
                            old(self),
                            batch,
                            old(windows)@,
                            old(sources)@,
                            accepted@,
                        );
                    }
                    self.lemma_gave_up(old(self), &dropped, batch, old(windows)@, old(sources)@);
                    assert forall|l: int| 0 <= l < LAYERS implies (#[trigger] windows@[l])
                        == (WindowWave { pending: None, ..old(windows)@[l] }) by {
                        assert(publish::window_dropped(
                            &dropped.windows@[l],
                            &failed.windows@[l],
                            &window_waves[l],
                        ));
                    }
                    assert forall|i: int| 0 <= i < SOURCE_COUNT implies (#[trigger] sources@[i])
                        == old(self).unqueued_wave(batch, old(sources)@, accepted@, i) by {
                        assert(publish::source_dropped(
                            &dropped.sources@[i],
                            &failed.sources@[i],
                            &source_waves[i],
                        ));
                    }
                }
                Err(e)
            },
        }
    }

    /// Ends a commit begun by `begin_direct_commit`; `work` is how its device work
    /// went, and the streams have been drained. The rows are published, or else
    /// everything queued is given up and the participating requests end.
    pub fn finish_direct_commit(
        &mut self,
        batch: &CacheBatch,
        windows: &mut Vec<WindowWave>,
        sources: &mut Vec<CompressorWave>,
        accepted: &[u32],
        work: Result<(), Error>,
    ) -> (r: Result<(), Error>)
        requires
            old(self).inv(),
            batch.wf(),
            old(self).lanes_fit(old(windows)@, old(sources)@),
            old(windows)@.len() == LAYERS,
            old(sources)@.len() == SOURCE_COUNT,
        ensures
            final(self).inv(),
            final(self).lanes_fit(final(windows)@, final(sources)@),
            final(self).direct_ended(
                old(self),
                batch,
                final(windows)@,
                old(windows)@,
                final(sources)@,
                old(sources)@,
                accepted@,
                work,
                r,
            ),
    {
        match work {
            Ok(_) => {
                let window_done: [bool; LAYERS] = [true; LAYERS];
                let source_done: [bool; SOURCE_COUNT] = [true; SOURCE_COUNT];
                assert(window_done@ =~= Seq::new(LAYERS as nat, |l: int| true));
                assert(source_done@ =~= Seq::new(SOURCE_COUNT as nat, |i: int| true));
                self.commit(
                    batch,
                    windows,
                    sources,
                    accepted,
                    window_done.as_slice(),
                    source_done.as_slice(),
                )
            },
            Err(e) => {
                self.abort_cache_commit(windows, sources);
                let ghost dropped = *self;
                let leases = publish::batch_leases(batch);
                let released = self.release(leases.as_slice());
                proof {
                    assert forall|l: int| 0 <= l < LAYERS implies publish::window_dropped(
                        #[trigger] &dropped.windows@[l],
                        &old(self).windows@[l],
                        &old(windows)@[l],
                    ) by {
                        assert(windows@[l] == (WindowWave { pending: None, ..old(windows)@[l] }));
                    }
                    assert forall|i: int| 0 <= i < SOURCE_COUNT implies publish::source_dropped(
                        #[trigger] &dropped.sources@[i],
                        &old(self).sources@[i],
                        &old(sources)@[i],
                    ) by {
                        assert(sources@[i] == (CompressorWave {
                            pending_commit: None,
                            ..old(sources)@[i]
                        }));
                    }
                    dropped.lemma_dropped_left(
                        old(self),
                        old(self),
                        batch,
                        old(windows)@,
                        old(windows)@,
                        old(sources)@,
                        old(sources)@,
                        accepted@,
                    );
                    if laws::batch_holds(old(self), batch) && old(self).commit_error(
                        batch,
                        old(windows)@,
                        old(sources)@,
                        accepted@,
                    ) is None && old(self).written_by_lane(batch, old(windows)@, old(sources)@) {
                        dropped.lemma_given_up_releases(
                            old(self),
                            batch,
                            old(windows)@,
                            old(sources)@,
                            accepted@,
                        );
                    }
                    self.lemma_gave_up(old(self), &dropped, batch, old(windows)@, old(sources)@);
                }
                Err(e)
            },
        }
    }
}

} // verus!
