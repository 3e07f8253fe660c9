//! Queueing, publishing and giving up the commit of a batch.
use crate::backbone_cache::copies;
use crate::backbone_cache;
use crate::backbone_cache::attention::{source_in, window_in};
use crate::backbone_cache::plan::CacheBatch;
use crate::backbone_cache::{BackboneCache, Request, LAYERS, SOURCE_COUNT};
use crate::compressor::commit;
use crate::compressor::commit::CommitWork;
use crate::compressor::wave::CompressorWave;
use crate::compressor::CompressorState;
use crate::error::Error;
use crate::source_cache::AppendView;
use crate::window;
use crate::window::{WindowState, WindowWave};
use vstd::prelude::*;

verus! {

/// The wave's accepted rows are being written to the window.
pub open spec fn window_queued(
    now: &WindowState,
    wave: &WindowWave,
    was: &WindowState,
    before: &WindowWave,
    accepted: Seq<u32>,
) -> bool {
    let chunks = before.prepared->Some_0.chunks@;
    &&& wave.pending matches Some(queued) && queued@ == accepted
    &&& wave.prepared == before.prepared
    &&& wave.layer == before.layer
    &&& wave.device == before.device
    &&& now.slots@ == was.slots@
    &&& now.writing@ == window::marked(was.writing@, chunks, chunks.len() as int, true)
    &&& now.owner == was.owner
    &&& now.layer == was.layer
    &&& now.device == was.device
}

/// The accepted rows of the wave are the window's history.
pub open spec fn window_done(
    now: &WindowState,
    wave: &WindowWave,
    was: &WindowState,
    before: &WindowWave,
    accepted: Seq<u32>,
) -> bool {
    let chunks = before.prepared->Some_0.chunks@;
    let n = chunks.len() as int;
    &&& *wave == (WindowWave { prepared: None, pending: None, ..*before })
    &&& now.slots@ == window::moved(was.slots@, chunks, accepted, n)
    &&& now.writing@ == window::marked(was.writing@, chunks, n, false)
    &&& now.owner == was.owner
    &&& now.layer == was.layer
    &&& now.device == was.device
}

/// Why the lane cannot queue the accepted part of its proposal.
pub open spec fn source_queue_error(
    state: &CompressorState,
    wave: &CompressorWave,
    accepted: Seq<u32>,
) -> Option<Error> {
    match wave.commit_error(state, accepted) {
        Some(e) => Some(e),
        None => match state.index.planned(
            commit::commit_appends(&wave.ready->Some_0, accepted, wave.step()),
        ) {
            Err(e) => Some(e),
            Ok(_) => None,
        },
    }
}

/// The accepted rows of the wave have pages and are being written.
pub open spec fn source_queued(
    now: &CompressorState,
    wave: &CompressorWave,
    was: &CompressorState,
    before: &CompressorWave,
    accepted: Seq<u32>,
) -> bool {
    let p = before.ready->Some_0;
    &&& *wave == (CompressorWave {
        ready: None,
        pending_commit: wave.pending_commit,
        ..*before
    })
    &&& wave.pending_commit matches Some(pending) && {
        &&& pending.prepared == p
        &&& pending.accepted@ == accepted
        &&& was.index.planned(commit::commit_appends(&p, accepted, before.step())) == Ok::<
            Seq<AppendView>,
            Error,
        >(pending.plan@)
        &&& !was.index.plans@.contains_key(pending.plan.ticket@)
        &&& now.index.plans@ == was.index.plans@.insert(pending.plan.ticket@, pending.plan@)
        &&& was.index.pool.free@ == now.index.pool.free@ + pending.plan.pages@
    }
    &&& now.slots@ == was.slots@
    &&& now.same_identity(was)
    &&& now.index.same_shape(&was.index)
    &&& now.index.pages@ == was.index.pages@
    &&& now.index.rows@ == was.index.rows@
    &&& now.index.pool.references@ == was.index.pool.references@
    &&& now.index.pool.generations@ == was.index.pool.generations@
}

/// The device work that writes the accepted rows.
pub open spec fn is_work(
    now: &CompressorState,
    wave: &CompressorWave,
    before: &CompressorWave,
    accepted: Seq<u32>,
    work: CommitWork,
) -> bool {
    let p = before.ready->Some_0;
    let pending = wave.pending_commit->Some_0;
    &&& commit::placed(
        &now.index,
        &pending.plan,
        pending.completed@,
        p.rows as int,
        before.step(),
        work.destinations@,
    )
    &&& work.carries@ == commit::carried_rows(&p, accepted, before.step(), p.chunks@.len() as int)
}

/// Why the queued rows cannot be published.
pub open spec fn source_publish_error(
    state: &CompressorState,
    wave: &CompressorWave,
    accepted: Seq<u32>,
    complete: bool,
) -> Option<Error> {
    match wave.pending_error(state) {
        Some(e) => Some(e),
        None => if wave.pending_commit->Some_0.accepted@ != accepted {
            Some(Error::AcceptanceChanged)
        } else if !complete {
            Some(Error::SourceCommitIncomplete)
        } else {
            None
        },
    }
}

/// The request once `to` has been reached.
pub open spec fn request_advanced(now: &Request, was: &Request, to: u64) -> bool {
    let (phase, end) = was.phase.advanced(was.end, to);
    &&& now.id == was.id
    &&& now.version == was.version + 1
    &&& now.end == end
    &&& now.phase == phase
    &&& now.publication@ == if was.publication@.len() > 0 {
        was.publication@.skip(1)
    } else {
        was.publication@
    }
    &&& now.windows == was.windows
    &&& now.sources == was.sources
}

/// One of the batch's first `n` requests is at `slot`.
pub open spec fn batch_names(batch: &CacheBatch, n: int, slot: int) -> bool {
    exists|r: int| 0 <= r < n && (#[trigger] batch.requests@[r]).work.lease.slot == slot
}

impl BackboneCache {
    /// Source `i` is to be queued. A direct commit leaves what is queued already;
    /// else that is an error.
    pub open spec fn queues_source(
        &self,
        batch: &CacheBatch,
        sources: Seq<CompressorWave>,
        direct: bool,
        i: int,
    ) -> bool {
        self.owes_source(batch, i) && !(direct && sources[i].pending_commit is Some)
    }

    /// The first owed source that cannot be queued.
    pub open spec fn first_queue_error(
        &self,
        batch: &CacheBatch,
        sources: Seq<CompressorWave>,
        accepted: Seq<u32>,
        direct: bool,
        n: int,
    ) -> Option<Error>
        decreases n,
    {
        if n <= 0 {
            None
        } else {
            match self.first_queue_error(batch, sources, accepted, direct, n - 1) {
                Some(e) => Some(e),
                None => if self.queues_source(batch, sources, direct, n - 1) {
                    source_queue_error(&self.sources@[n - 1], &sources[n - 1], accepted)
                } else {
                    None
                },
            }
        }
    }

    proof fn lemma_queue_error_stays(
        &self,
        batch: &CacheBatch,
        sources: Seq<CompressorWave>,
        accepted: Seq<u32>,
        direct: bool,
        n: int,
        m: int,
    )
        requires
            n <= m,
            self.first_queue_error(batch, sources, accepted, direct, n) is Some,
        ensures
            self.first_queue_error(batch, sources, accepted, direct, m) == self.first_queue_error(
                batch,
                sources,
                accepted,
                direct,
                n,
            ),
        decreases m - n,
    {
        if n < m && m > 0 {
            self.lemma_queue_error_stays(batch, sources, accepted, direct, n, m - 1);
        }
    }

    /// Window `l` and its wave have been queued if the batch owes them and they
    /// were not; else they are as they were.
    pub open spec fn window_step(
        &self,
        before: &Self,
        batch: &CacheBatch,
        windows: Seq<WindowWave>,
        was: Seq<WindowWave>,
        accepted: Seq<u32>,
        l: int,
    ) -> bool {
        if before.owes_window(batch, l) && was[l].pending is None {
            window_queued(&self.windows@[l], &windows[l], &before.windows@[l], &was[l], accepted)
        } else {
            self.windows@[l] == before.windows@[l] && windows[l] == was[l]
        }
    }

    pub open spec fn source_step(
        &self,
        before: &Self,
        batch: &CacheBatch,
        sources: Seq<CompressorWave>,
        was: Seq<CompressorWave>,
        accepted: Seq<u32>,
        direct: bool,
        i: int,
    ) -> bool {
        if before.queues_source(batch, was, direct, i) {
            source_queued(&self.sources@[i], &sources[i], &before.sources@[i], &was[i], accepted)
        } else {
            self.sources@[i] == before.sources@[i] && sources[i] == was[i]
        }
    }

    /// Source `i` and its wave after queueing stopped at the first error: those
    /// before it are queued, it has only lost its proposal, those behind it are as
    /// they were.
    pub open spec fn source_tried(
        &self,
        before: &Self,
        batch: &CacheBatch,
        sources: Seq<CompressorWave>,
        was: Seq<CompressorWave>,
        accepted: Seq<u32>,
        direct: bool,
        i: int,
    ) -> bool {
        if before.first_queue_error(batch, was, accepted, direct, i + 1) is None {
            self.source_step(before, batch, sources, was, accepted, direct, i)
        } else {
            &&& self.sources@[i] == before.sources@[i]
            &&& sources[i] == if before.first_queue_error(batch, was, accepted, direct, i) is None
                && !was[i].keeps_proposal(&before.sources@[i]) {
                CompressorWave { ready: None, ..was[i] }
            } else {
                was[i]
            }
        }
    }

    /// What queueing a batch's commit leaves, and what it returns.
    pub open spec fn commit_queued(
        &self,
        before: &Self,
        batch: &CacheBatch,
        windows: Seq<WindowWave>,
        windows_were: Seq<WindowWave>,
        sources: Seq<CompressorWave>,
        sources_were: Seq<CompressorWave>,
        accepted: Seq<u32>,
        direct: bool,
        r: Result<Vec<(usize, CommitWork)>, Error>,
    ) -> bool {
        match before.commit_error(batch, windows_were, sources_were, accepted) {
            Some(reason) => {
                &&& r == Err::<Vec<(usize, CommitWork)>, Error>(reason)
                &&& *self == *before
                &&& windows == windows_were
                &&& sources == sources_were
            },
            None => {
                &&& windows.len() == LAYERS
                &&& sources.len() == SOURCE_COUNT
                &&& forall|l: int|
                    0 <= l < LAYERS ==> #[trigger] self.window_step(
                        before,
                        batch,
                        windows,
                        windows_were,
                        accepted,
                        l,
                    )
                &&& match before.first_queue_error(batch, sources_were, accepted, direct, 4) {
                    Some(reason) => {
                        &&& r == Err::<Vec<(usize, CommitWork)>, Error>(reason)
                        &&& forall|i: int|
                            0 <= i < SOURCE_COUNT ==> #[trigger] self.source_tried(
                                before,
                                batch,
                                sources,
                                sources_were,
                                accepted,
                                direct,
                                i,
                            )
                    },
                    None => {
                        &&& r matches Ok(work) && self.is_work_list(
                            before,
                            batch,
                            sources,
                            sources_were,
                            accepted,
                            direct,
                            work@,
                            4,
                        )
                        &&& forall|i: int|
                            0 <= i < SOURCE_COUNT ==> #[trigger] self.source_step(
                                before,
                                batch,
                                sources,
                                sources_were,
                                accepted,
                                direct,
                                i,
                            )
                    },
                }
            },
        }
    }

    /// The work of the owed sources below `n`, in their order.
    pub open spec fn is_work_list(
        &self,
        before: &Self,
        batch: &CacheBatch,
        sources: Seq<CompressorWave>,
        was: Seq<CompressorWave>,
        accepted: Seq<u32>,
        direct: bool,
        work: Seq<(usize, CommitWork)>,
        n: int,
    ) -> bool {
        &&& forall|a: int, b: int| 0 <= a < b < work.len() ==> work[a].0 < work[b].0
        &&& forall|k: int|
            0 <= k < work.len() ==> {
                let i = (#[trigger] work[k]).0 as int;
                &&& i < n
                &&& before.queues_source(batch, was, direct, i)
                &&& is_work(&self.sources@[i], &sources[i], &was[i], accepted, work[k].1)
            }
        &&& forall|i: int|
            0 <= i < n && #[trigger] before.queues_source(batch, was, direct, i) ==> exists|k: int|
                0 <= k < work.len() && (#[trigger] work[k]).0 == i
    }

    fn queue_windows(
        &mut self,
        batch: &CacheBatch,
        windows: &mut Vec<WindowWave>,
        accepted: &[u32],
        published: u64,
    )
        requires
            old(self).inv(),
            batch.wf(),
            old(windows)@.len() == LAYERS,
            forall|l: int|
                0 <= l < LAYERS ==> (#[trigger] old(windows)@[l]).fits(&old(self).windows@[l]),
            accepted@.len() == batch.requests@.len(),
            published == old(self).batch_masks(batch).0,
            old(self).first_window_wave_error(batch, old(windows)@, 40) is None,
        ensures
            final(self).inv(),
            final(self).same_books(old(self)),
            final(self).poisoned == old(self).poisoned,
            final(self).sources@ == old(self).sources@,
            final(windows)@.len() == LAYERS,
            forall|l: int|
                0 <= l < LAYERS ==> (#[trigger] final(windows)@[l]).fits(&final(self).windows@[l]),
            forall|l: int|
                0 <= l < LAYERS ==> #[trigger] final(self).window_step(
                    old(self),
                    batch,
                    final(windows)@,
                    old(windows)@,
                    accepted@,
                    l,
                ),
    {
        let (first, end): (usize, usize) = batch.stage.windows();
        let mut l: usize = 0;
        while l < LAYERS
            invariant
                l <= LAYERS,
                old(self).inv(),
                self.inv(),
                batch.wf(),
                first == batch.stage.first_window(),
                end == batch.stage.end_window(),
                accepted@.len() == batch.requests@.len(),
                published == old(self).batch_masks(batch).0,
                old(self).first_window_wave_error(batch, old(windows)@, 40) is None,
                self.same_books(old(self)),
                self.poisoned == old(self).poisoned,
                self.sources@ == old(self).sources@,
                windows@.len() == LAYERS,
                old(windows)@.len() == LAYERS,
                forall|k: int|
                    0 <= k < LAYERS ==> (#[trigger] windows@[k]).fits(&self.windows@[k]),
                forall|k: int|
                    0 <= k < l ==> #[trigger] self.window_step(
                        old(self),
                        batch,
                        windows@,
                        old(windows)@,
                        accepted@,
                        k,
                    ),
                forall|k: int|
                    l <= k < LAYERS ==> #[trigger] self.windows@[k] == old(self).windows@[k],
                forall|k: int| l <= k < LAYERS ==> #[trigger] windows@[k] == old(windows)@[k],
            decreases LAYERS - l,
        {
            let ghost between = *self;
            let ghost waves = windows@;
            proof {
                assert(self.windows@[l as int] == old(self).windows@[l as int]);
                assert(windows@[l as int] == old(windows)@[l as int]);
                assert(windows@[l as int].fits(&self.windows@[l as int]));
                old(self).lemma_window_wave_good(batch, old(windows)@, 40, l as int);
            }
            if first <= l && l < end && !window_in(published, l) && !windows[l].has_pending_commit() {
                let queued = windows[l].enqueue_commit(&mut self.windows[l], accepted);
                proof {
                    assert(queued is Ok);
                    assert forall|k: int| 0 <= k < LAYERS && k != l implies #[trigger] self.windows@[k]
                        == between.windows@[k] && windows@[k] == waves[k] by {}
                    assert forall|k: int| 0 <= k < LAYERS implies (
                    #[trigger] self.windows@[k]).owner == old(self).windows@[k].owner by {
                        assert(between.windows@[k].owner == old(self).windows@[k].owner) by {
                            if k < l {
                                assert(between.window_step(
                                    old(self),
                                    batch,
                                    waves,
                                    old(windows)@,
                                    accepted@,
                                    k,
                                ));
                            }
                        }
                    }
                    assert(self.components_wf()) by {
                        assert forall|k: int| 0 <= k < LAYERS implies {
                            &&& (#[trigger] self.windows@[k]).inv()
                            &&& self.windows@[k].layer == k
                            &&& self.windows@[k].slots@.len() == self.requests@.len()
                        } by {
                            assert(between.windows@[k].inv());
                        }
                    }
                    self.lemma_leases_stay(old(self));
                    assert forall|k: int| 0 <= k < LAYERS implies (#[trigger] windows@[k]).fits(
                        &self.windows@[k],
                    ) by {
                        if k != l {
                            assert(self.windows@[k] == between.windows@[k]);
                            assert(waves[k].fits(&between.windows@[k]));
                        }
                    }
                }
            }
            proof {
                assert forall|k: int| 0 <= k < l + 1 implies #[trigger] self.window_step(
                    old(self),
                    batch,
                    windows@,
                    old(windows)@,
                    accepted@,
                    k,
                ) by {
                    if k < l {
                        assert(between.window_step(
                            old(self),
                            batch,
                            waves,
                            old(windows)@,
                            accepted@,
                            k,
                        ));
                        assert(self.windows@[k] == between.windows@[k]);
                        assert(windows@[k] == waves[k]);
                    }
                }
            }
            l = l + 1;
        }
    }

    #[verifier::rlimit(40)]
    fn queue_sources(
        &mut self,
        batch: &CacheBatch,
        sources: &mut Vec<CompressorWave>,
        accepted: &[u32],
        direct: bool,
        published: u8,
    ) -> (r: Result<Vec<(usize, CommitWork)>, Error>)
        requires
            old(self).inv(),
            batch.wf(),
            old(sources)@.len() == SOURCE_COUNT,
            forall|i: int|
                0 <= i < SOURCE_COUNT ==> old(self).lane_fits(i, #[trigger] &old(sources)@[i]),
            published == old(self).batch_masks(batch).1,
        ensures
            final(self).inv(),
            final(self).same_books(old(self)),
            final(self).poisoned == old(self).poisoned,
            final(self).windows@ == old(self).windows@,
            final(sources)@.len() == SOURCE_COUNT,
            forall|i: int|
                0 <= i < SOURCE_COUNT ==> final(self).lane_fits(i, #[trigger] &final(sources)@[i]),
            match r {
                Err(e) => {
                    &&& old(self).first_queue_error(batch, old(sources)@, accepted@, direct, 4) == Some(e)
                    &&& forall|i: int|
                        0 <= i < SOURCE_COUNT ==> #[trigger] final(self).source_tried(
                            old(self),
                            batch,
                            final(sources)@,
                            old(sources)@,
                            accepted@,
                            direct,
                            i,
                        )
                },
                Ok(work) => {
                    &&& old(self).first_queue_error(batch, old(sources)@, accepted@, direct, 4) is None
                    &&& final(self).is_work_list(
                        old(self),
                        batch,
                        final(sources)@,
                        old(sources)@,
                        accepted@,
                        direct,
                        work@,
                        4,
                    )
                    &&& forall|i: int|
                        0 <= i < SOURCE_COUNT ==> #[trigger] final(self).source_step(
                            old(self),
                            batch,
                            final(sources)@,
                            old(sources)@,
                            accepted@,
                            direct,
                            i,
                        )
                },
            },
    {
        let owed: usize = batch.stage.source_count();
        let mut work: Vec<(usize, CommitWork)> = Vec::new();
        let mut i: usize = 0;
        while i < SOURCE_COUNT
            invariant
                i <= SOURCE_COUNT,
                old(self).inv(),
                self.inv(),
                batch.wf(),
                owed == batch.stage.sources(),
                published == old(self).batch_masks(batch).1,
                self.same_books(old(self)),
                self.poisoned == old(self).poisoned,
                self.windows@ == old(self).windows@,
                sources@.len() == SOURCE_COUNT,
                old(sources)@.len() == SOURCE_COUNT,
                old(self).first_queue_error(batch, old(sources)@, accepted@, direct, i as int) is None,
                forall|k: int|
                    0 <= k < SOURCE_COUNT ==> self.lane_fits(k, #[trigger] &sources@[k]),
                forall|k: int|
                    0 <= k < i ==> #[trigger] self.source_step(
                        old(self),
                        batch,
                        sources@,
                        old(sources)@,
                        accepted@,
                        direct,
                        k,
                    ),
                forall|k: int|
                    i <= k < SOURCE_COUNT ==> #[trigger] self.sources@[k] == old(self).sources@[k],
                forall|k: int| i <= k < SOURCE_COUNT ==> #[trigger] sources@[k] == old(sources)@[k],
                self.is_work_list(
                    old(self),
                    batch,
                    sources@,
                    old(sources)@,
                    accepted@,
                    direct,
                    work@,
                    i as int,
                ),
            decreases SOURCE_COUNT - i,
        {
            let ghost between = *self;
            let ghost waves = sources@;
            let ghost listed = work@;
            proof {
                if old(self).first_queue_error(batch, old(sources)@, accepted@, direct, i + 1) is Some {
                    old(self).lemma_queue_error_stays(batch, old(sources)@, accepted@, direct, i + 1, 4);
                }
                assert(self.sources@[i as int] == old(self).sources@[i as int]);
                assert(sources@[i as int] == old(sources)@[i as int]);
                assert(self.lane_fits(i as int, &sources@[i as int]));
            }
            if i < owed && !source_in(published, i) && !(direct && sources[i].pending_commit.is_some()) {
                let queued = sources[i].enqueue_commit(&mut self.sources[i], accepted);
                proof {
                    assert forall|k: int| 0 <= k < SOURCE_COUNT && k != i implies #[trigger] self.sources@[k]
                        == between.sources@[k] && sources@[k] == waves[k] by {}
                    assert(self.sources@[i as int].same_identity(&between.sources@[i as int]));
                    assert(self.components_wf()) by {
                        assert forall|k: int| 0 <= k < SOURCE_COUNT implies {
                            &&& (#[trigger] self.sources@[k]).inv()
                            &&& self.sources@[k].layer == backbone_cache::source_layer(k)
                            &&& self.sources@[k].slot_count == self.requests@.len()
                        } by {
                            assert(between.sources@[k].inv());
                        }
                    }
                    assert forall|k: int| 0 <= k < SOURCE_COUNT implies (
                    #[trigger] self.sources@[k]).owner == between.sources@[k].owner by {}
                    assert(self.sources@[i as int].index.tables()
                        =~= between.sources@[i as int].index.tables());
                    copies::lemma_copies_stay_at(
                        self.prefix_copies@,
                        between.sources@,
                        self.sources@,
                        i as int,
                    );
                    self.lemma_leases_stay(&between);
                    assert forall|k: int| 0 <= k < SOURCE_COUNT implies self.lane_fits(
                        k,
                        #[trigger] &sources@[k],
                    ) by {
                        if k != i {
                            assert(self.sources@[k] == between.sources@[k]);
                            assert(between.lane_fits(k, &waves[k]));
                        }
                    }
                }
                match queued {
                    Err(e) => {
                        proof {
                            assert forall|k: int| 0 <= k < SOURCE_COUNT implies #[trigger] self.source_tried(
                                old(self),
                                batch,
                                sources@,
                                old(sources)@,
                                accepted@,
                                direct,
                                k,
                            ) by {
                                if k < i {
                                    if old(self).first_queue_error(
                                        batch,
                                        old(sources)@,
                                        accepted@,
                                        direct,
                                        k + 1,
                                    ) is Some {
                                        old(self).lemma_queue_error_stays(
                                            batch,
                                            old(sources)@,
                                            accepted@,
                                            direct,
                                            k + 1,
                                            i as int,
                                        );
                                    }
                                    assert(between.source_step(
                                        old(self),
                                        batch,
                                        waves,
                                        old(sources)@,
                                        accepted@,
                                        direct,
                                        k,
                                    ));
                                    assert(self.sources@[k] == between.sources@[k]);
                                    assert(sources@[k] == waves[k]);
                                } else {
                                    old(self).lemma_queue_error_stays(
                                        batch,
                                        old(sources)@,
                                        accepted@,
                                        direct,
                                        i + 1,
                                        k + 1,
                                    );
                                    if k > i {
                                        old(self).lemma_queue_error_stays(
                                            batch,
                                            old(sources)@,
                                            accepted@,
                                            direct,
                                            i + 1,
                                            k,
                                        );
                                        assert(self.sources@[k] == between.sources@[k]);
                                        assert(between.sources@[k] == old(self).sources@[k]);
                                        assert(waves[k] == old(sources)@[k]);
                                    }
                                }
                            }
                        }
                        return Err(e);
                    },
                    Ok(done) => {
                        work.push((i, done));
                    },
                }
            }
            proof {
                assert forall|k: int| 0 <= k < i + 1 implies #[trigger] self.source_step(
                    old(self),
                    batch,
                    sources@,
                    old(sources)@,
                    accepted@,
                    direct,
                    k,
                ) by {
                    if k < i {
                        assert(between.source_step(
                            old(self),
                            batch,
                            waves,
                            old(sources)@,
                            accepted@,
                            direct,
                            k,
                        ));
                        assert(self.sources@[k] == between.sources@[k]);
                        assert(sources@[k] == waves[k]);
                    }
                }
                assert forall|k: int| 0 <= k < work@.len() implies {
                    let j = (#[trigger] work@[k]).0 as int;
                    &&& j < i + 1
                    &&& old(self).queues_source(batch, old(sources)@, direct, j)
                    &&& is_work(
                        &self.sources@[j],
                        &sources@[j],
                        &old(sources)@[j],
                        accepted@,
                        work@[k].1,
                    )
                } by {
                    if k < listed.len() {
                        assert(work@[k] == listed[k]);
                        let j = listed[k].0 as int;
                        assert(self.sources@[j] == between.sources@[j]);
                        assert(sources@[j] == waves[j]);
                    }
                }
                assert forall|j: int| 0 <= j < i + 1 && #[trigger] old(self).queues_source(batch, old(sources)@, direct, j) implies exists|
                    k: int,
                |
                    0 <= k < work@.len() && (#[trigger] work@[k]).0 == j by {
                    if j < i {
                        let k = choose|k: int| 0 <= k < listed.len() && (#[trigger] listed[k]).0 == j;
                        assert(work@[k].0 == j);
                    } else {
                        assert(work@[listed.len() as int].0 == j);
                    }
                }
            }
            i = i + 1;
        }
        Ok(work)
    }

    /// Queues everything the batch has produced and not published.
    #[verifier::rlimit(40)]
    pub(crate) fn queue_commit(
        &mut self,
        batch: &CacheBatch,
        windows: &mut Vec<WindowWave>,
        sources: &mut Vec<CompressorWave>,
        accepted: &[u32],
        direct: bool,
    ) -> (r: Result<Vec<(usize, CommitWork)>, Error>)
        requires
            old(self).inv(),
            batch.wf(),
            old(self).lanes_fit(old(windows)@, old(sources)@),
        ensures
            final(self).inv(),
            final(self).same_books(old(self)),
            final(self).poisoned == old(self).poisoned,
            final(self).lanes_fit(final(windows)@, final(sources)@),
            final(self).commit_queued(
                old(self),
                batch,
                final(windows)@,
                old(windows)@,
                final(sources)@,
                old(sources)@,
                accepted@,
                direct,
                r,
            ),
    {
        let masks: (u64, u8) = match self.validate_commit(
            batch,
            windows.as_slice(),
            sources.as_slice(),
            accepted,
        ) {
            Err(e) => {
                return Err(e);
            },
            Ok(masks) => masks,
        };
        self.queue_windows(batch, windows, accepted, masks.0);
        let ghost between = *self;
        proof {
            assert forall|i: int| 0 <= i < SOURCE_COUNT implies self.lane_fits(
                i,
                #[trigger] &sources@[i],
            ) by {
                assert(old(self).lane_fits(i, &old(sources)@[i]));
            }
            self.lemma_same_queue_error(old(self), batch, sources@, accepted@, direct, 4);
        }
        let queued = self.queue_sources(batch, sources, accepted, direct, masks.1);
        proof {
            assert forall|l: int| 0 <= l < LAYERS implies #[trigger] self.window_step(
                old(self),
                batch,
                windows@,
                old(windows)@,
                accepted@,
                l,
            ) by {
                assert(between.window_step(
                    old(self),
                    batch,
                    windows@,
                    old(windows)@,
                    accepted@,
                    l,
                ));
            }
            if queued is Err {
                assert forall|i: int| 0 <= i < SOURCE_COUNT implies #[trigger] self.source_tried(
                    old(self),
                    batch,
                    sources@,
                    old(sources)@,
                    accepted@,
                    direct,
                    i,
                ) by {
                    assert(self.source_tried(
                        &between,
                        batch,
                        sources@,
                        old(sources)@,
                        accepted@,
                        direct,
                        i,
                    ));
                    between.lemma_same_queue_error(old(self), batch, old(sources)@, accepted@, direct, i);
                    between.lemma_same_queue_error(
                        old(self),
                        batch,
                        old(sources)@,
                        accepted@,
                        direct,
                        i + 1,
                    );
                    assert(between.owes_source(batch, i) == old(self).owes_source(batch, i));
                }
            }
            if queued is Ok {
                let work = queued->Ok_0@;
                assert(self.is_work_list(
                    old(self),
                    batch,
                    sources@,
                    old(sources)@,
                    accepted@,
                    direct,
                    work,
                    4,
                )) by {
                    assert forall|i: int| 0 <= i < 4 && #[trigger] old(self).queues_source(batch, old(sources)@, direct, i) implies exists|
                        k: int,
                    |
                        0 <= k < work.len() && (#[trigger] work[k]).0 == i by {
                        assert(between.queues_source(batch, old(sources)@, direct, i));
                    }
                }
                assert forall|i: int| 0 <= i < SOURCE_COUNT implies #[trigger] self.source_step(
                    old(self),
                    batch,
                    sources@,
                    old(sources)@,
                    accepted@,
                    direct,
                    i,
                ) by {
                    assert(self.source_step(
                        &between,
                        batch,
                        sources@,
                        old(sources)@,
                        accepted@,
                        direct,
                        i,
                    ));
                }
            }
        }
        queued
    }

    /// Starts writing the accepted rows of everything the batch has produced and
    /// not published. The caller keeps the lanes until the writes are done, and
    /// gives the commit up where this fails half way.
    pub fn enqueue_cache_commit(
        &mut self,
        batch: &CacheBatch,
        windows: &mut Vec<WindowWave>,
        sources: &mut Vec<CompressorWave>,
        accepted: &[u32],
    ) -> (r: Result<Vec<(usize, CommitWork)>, Error>)
        requires
            old(self).inv(),
            batch.wf(),
            old(self).lanes_fit(old(windows)@, old(sources)@),
        ensures
            final(self).inv(),
            final(self).same_books(old(self)),
            final(self).poisoned == old(self).poisoned,
            final(self).lanes_fit(final(windows)@, final(sources)@),
            final(self).commit_queued(
                old(self),
                batch,
                final(windows)@,
                old(windows)@,
                final(sources)@,
                old(sources)@,
                accepted@,
                false,
                r,
            ),
    {
        self.queue_commit(batch, windows, sources, accepted, false)
    }

    proof fn lemma_same_queue_error(
        &self,
        before: &Self,
        batch: &CacheBatch,
        sources: Seq<CompressorWave>,
        accepted: Seq<u32>,
        direct: bool,
        n: int,
    )
        requires
            self.requests@ == before.requests@,
            self.sources@ == before.sources@,
        ensures
            self.first_queue_error(batch, sources, accepted, direct, n) == before.first_queue_error(
                batch,
                sources,
                accepted,
                direct,
                n,
            ),
        decreases n,
    {
        if n > 0 {
            self.lemma_same_queue_error(before, batch, sources, accepted, direct, n - 1);
            assert(self.batch_masks(batch) == before.batch_masks(batch));
        }
    }
}

} // verus!
