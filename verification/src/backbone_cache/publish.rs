//! Publishing a queued commit, or giving it up.
use crate::backbone_cache::copies;
use crate::backbone_cache;
use crate::backbone_cache::attention::{source_in, window_in};
use crate::backbone_cache::laws;
use crate::backbone_cache::plan::CacheBatch;
use crate::backbone_cache::transaction;
use crate::backbone_cache::{BackboneCache, CacheLease, Request, LAYERS, SOURCE_COUNT};
use crate::compressor::commit;
use crate::compressor::wave::CompressorWave;
use crate::compressor::CompressorState;
use crate::error::Error;
use crate::window;
use crate::window::{WindowState, WindowWave};
use vstd::prelude::*;

verus! {

/// What giving up a queued commit leaves of a window.
pub open spec fn window_dropped(now: &WindowState, was: &WindowState, before: &WindowWave) -> bool {
    &&& now.owner == was.owner
    &&& now.layer == was.layer
    &&& now.device == was.device
    &&& if before.pending is Some && before.prepared is Some && before.prepared->Some_0.owner
        == was.owner {
        let chunks = before.prepared->Some_0.chunks@;
        let n = chunks.len() as int;
        &&& now.slots@ == window::revoked(was.slots@, chunks, n)
        &&& now.writing@ == window::marked(was.writing@, chunks, n, false)
    } else {
        *now == *was
    }
}

/// What giving up a queued commit leaves of a source: its requests are revoked
/// and its claimed pages are free again.
pub open spec fn source_dropped(
    now: &CompressorState,
    was: &CompressorState,
    before: &CompressorWave,
) -> bool {
    match before.pending_commit {
        None => *now == *was,
        Some(pending) => commit::given_up(now, was, &pending),
    }
}

impl BackboneCache {
    /// The first owed window whose rows cannot be published.
    pub open spec fn first_window_publish_error(
        &self,
        batch: &CacheBatch,
        windows: Seq<WindowWave>,
        accepted: Seq<u32>,
        done: Seq<bool>,
        n: int,
    ) -> Option<Error>
        decreases n,
    {
        if n <= 0 {
            None
        } else {
            match self.first_window_publish_error(batch, windows, accepted, done, n - 1) {
                Some(e) => Some(e),
                None => if self.owes_window(batch, n - 1) {
                    windows[n - 1].commit_error(&self.windows@[n - 1], accepted, done[n - 1])
                } else {
                    None
                },
            }
        }
    }

    pub open spec fn first_source_publish_error(
        &self,
        batch: &CacheBatch,
        sources: Seq<CompressorWave>,
        accepted: Seq<u32>,
        done: Seq<bool>,
        n: int,
    ) -> Option<Error>
        decreases n,
    {
        if n <= 0 {
            None
        } else {
            match self.first_source_publish_error(batch, sources, accepted, done, n - 1) {
                Some(e) => Some(e),
                None => if self.owes_source(batch, n - 1) {
                    transaction::source_publish_error(
                        &self.sources@[n - 1],
                        &sources[n - 1],
                        accepted,
                        done[n - 1],
                    )
                } else {
                    None
                },
            }
        }
    }

    proof fn lemma_window_publish_stays(
        &self,
        batch: &CacheBatch,
        windows: Seq<WindowWave>,
        accepted: Seq<u32>,
        done: Seq<bool>,
        n: int,
        m: int,
    )
        requires
            n <= m,
            self.first_window_publish_error(batch, windows, accepted, done, n) is Some,
        ensures
            self.first_window_publish_error(batch, windows, accepted, done, m)
                == self.first_window_publish_error(batch, windows, accepted, done, n),
        decreases m - n,
    {
        if n < m && m > 0 {
            self.lemma_window_publish_stays(batch, windows, accepted, done, n, m - 1);
        }
    }

    proof fn lemma_source_publish_stays(
        &self,
        batch: &CacheBatch,
        sources: Seq<CompressorWave>,
        accepted: Seq<u32>,
        done: Seq<bool>,
        n: int,
        m: int,
    )
        requires
            n <= m,
            self.first_source_publish_error(batch, sources, accepted, done, n) is Some,
        ensures
            self.first_source_publish_error(batch, sources, accepted, done, m)
                == self.first_source_publish_error(batch, sources, accepted, done, n),
        decreases m - n,
    {
        if n < m && m > 0 {
            self.lemma_source_publish_stays(batch, sources, accepted, done, n, m - 1);
        }
    }

    /// Window `l` has its accepted rows if the batch owes them.
    pub open spec fn window_published(
        &self,
        before: &Self,
        batch: &CacheBatch,
        windows: Seq<WindowWave>,
        was: Seq<WindowWave>,
        accepted: Seq<u32>,
        l: int,
    ) -> bool {
        if before.owes_window(batch, l) {
            transaction::window_done(
                &self.windows@[l],
                &windows[l],
                &before.windows@[l],
                &was[l],
                accepted,
            )
        } else {
            self.windows@[l] == before.windows@[l] && windows[l] == was[l]
        }
    }

    /// Window `l` after publishing stopped at the first error: those before it have
    /// their rows, it and those behind it are as they were.
    pub open spec fn window_settled(
        &self,
        before: &Self,
        batch: &CacheBatch,
        windows: Seq<WindowWave>,
        was: Seq<WindowWave>,
        accepted: Seq<u32>,
        done: Seq<bool>,
        l: int,
    ) -> bool {
        if before.first_window_publish_error(batch, was, accepted, done, l + 1) is None {
            self.window_published(before, batch, windows, was, accepted, l)
        } else {
            self.windows@[l] == before.windows@[l] && windows[l] == was[l]
        }
    }

    pub open spec fn source_published(
        &self,
        before: &Self,
        batch: &CacheBatch,
        sources: Seq<CompressorWave>,
        was: Seq<CompressorWave>,
        accepted: Seq<u32>,
        i: int,
    ) -> bool {
        if before.owes_source(batch, i) {
            commit::source_done(
                &self.sources@[i],
                &sources[i],
                &before.sources@[i],
                &was[i],
                accepted,
            )
        } else {
            self.sources@[i] == before.sources@[i] && sources[i] == was[i]
        }
    }

    /// What was published since `half` was published since `before`, where the
    /// two hold the same sources.
    proof fn lemma_published_since(
        &self,
        half: &Self,
        before: &Self,
        batch: &CacheBatch,
        sources: Seq<CompressorWave>,
        was: Seq<CompressorWave>,
        accepted: Seq<u32>,
        i: int,
    )
        requires
            half.sources@ == before.sources@,
            half.owes_source(batch, i) == before.owes_source(batch, i),
            self.source_published(half, batch, sources, was, accepted, i),
        ensures
            self.source_published(before, batch, sources, was, accepted, i),
    {
    }

    #[verifier::rlimit(40)]
    fn publish_windows(
        &mut self,
        batch: &CacheBatch,
        windows: &mut Vec<WindowWave>,
        accepted: &[u32],
        done: &[bool],
        published: u64,
    ) -> (r: Result<(), Error>)
        requires
            old(self).inv(),
            batch.wf(),
            old(windows)@.len() == LAYERS,
            done@.len() == LAYERS,
            forall|l: int|
                0 <= l < LAYERS ==> (#[trigger] old(windows)@[l]).fits(&old(self).windows@[l]),
            accepted@.len() == batch.requests@.len(),
            Self::first_acceptance_error(batch, accepted@, batch.requests@.len() as int) is None,
            published == old(self).batch_masks(batch).0,
            old(self).first_window_wave_error(batch, old(windows)@, 40) is None,
        ensures
            final(self).inv(),
            final(self).same_books(old(self)),
            final(self).poisoned == old(self).poisoned,
            final(self).sources@ == old(self).sources@,
            final(windows)@.len() == LAYERS,
            forall|l: int|
                0 <= l < LAYERS ==> (#[trigger] final(windows)@[l]).fits(&final(self).windows@[l]),
            forall|l: int|
                0 <= l < LAYERS ==> #[trigger] final(self).window_settled(
                    old(self),
                    batch,
                    final(windows)@,
                    old(windows)@,
                    accepted@,
                    done@,
                    l,
                ),
            match r {
                Err(e) => old(self).first_window_publish_error(
                    batch,
                    old(windows)@,
                    accepted@,
                    done@,
                    40,
                ) == Some(e),
                Ok(_) => {
                    &&& old(self).first_window_publish_error(
                        batch,
                        old(windows)@,
                        accepted@,
                        done@,
                        40,
                    ) is None
                    &&& forall|l: int|
                        0 <= l < LAYERS ==> #[trigger] final(self).window_published(
                            old(self),
                            batch,
                            final(windows)@,
                            old(windows)@,
                            accepted@,
                            l,
                        )
                },
            },
    {
        let (first, end): (usize, usize) = batch.stage.windows();
        let mut l: usize = 0;
        while l < LAYERS
            invariant
                l <= LAYERS,
                old(self).inv(),
                self.inv(),
                batch.wf(),
                first == batch.stage.first_window(),
                end == batch.stage.end_window(),
                accepted@.len() == batch.requests@.len(),
                done@.len() == LAYERS,
                Self::first_acceptance_error(batch, accepted@, batch.requests@.len() as int) is None,
                published == old(self).batch_masks(batch).0,
                old(self).first_window_wave_error(batch, old(windows)@, 40) is None,
                old(self).first_window_publish_error(
                    batch,
                    old(windows)@,
                    accepted@,
                    done@,
                    l as int,
                ) is None,
                self.same_books(old(self)),
                self.poisoned == old(self).poisoned,
                self.sources@ == old(self).sources@,
                windows@.len() == LAYERS,
                old(windows)@.len() == LAYERS,
                forall|k: int|
                    0 <= k < LAYERS ==> (#[trigger] windows@[k]).fits(&self.windows@[k]),
                forall|k: int|
                    0 <= k < LAYERS ==> (#[trigger] self.windows@[k]).owner == old(self).windows@[k].owner,
                forall|k: int|
                    0 <= k < l ==> #[trigger] self.window_published(
                        old(self),
                        batch,
                        windows@,
                        old(windows)@,
                        accepted@,
                        k,
                    ),
                forall|k: int|
                    l <= k < LAYERS ==> #[trigger] self.windows@[k] == old(self).windows@[k],
                forall|k: int| l <= k < LAYERS ==> #[trigger] windows@[k] == old(windows)@[k],
            decreases LAYERS - l,
        {
            let ghost between = *self;
            let ghost waves = windows@;
            proof {
                if old(self).first_window_publish_error(
                    batch,
                    old(windows)@,
                    accepted@,
                    done@,
                    l + 1,
                ) is Some {
                    old(self).lemma_window_publish_stays(
                        batch,
                        old(windows)@,
                        accepted@,
                        done@,
                        l + 1,
                        40,
                    );
                }
                assert(self.windows@[l as int] == old(self).windows@[l as int]);
                assert(windows@[l as int] == old(windows)@[l as int]);
                assert(windows@[l as int].fits(&self.windows@[l as int]));
                old(self).lemma_window_wave_good(batch, old(windows)@, 40, l as int);
            }
            if first <= l && l < end && !window_in(published, l) {
                proof {
                    let p = windows@[l as int].prepared->Some_0;
                    assert(p.chunks@ == batch.window_chunks_of(l as int));
                    assert forall|i: int| 0 <= i < p.chunks@.len() && i < accepted@.len() implies #[trigger] accepted@[i]
                        <= p.chunks@[i].tokens by {
                        Self::lemma_accepted(
                            batch,
                            accepted@,
                            batch.requests@.len() as int,
                            i,
                        );
                        assert(batch.window_chunks_of(l as int)[i].tokens
                            == batch.requests@[i].work.tokens);
                    }
                }
                let committed = windows[l].commit(&mut self.windows[l], accepted, done[l]);
                proof {
                    assert forall|k: int| 0 <= k < LAYERS && k != l implies #[trigger] self.windows@[k]
                        == between.windows@[k] && windows@[k] == waves[k] by {}
                    assert forall|k: int| 0 <= k < LAYERS implies (
                    #[trigger] self.windows@[k]).owner == old(self).windows@[k].owner by {
                        assert(between.windows@[k].owner == old(self).windows@[k].owner);
                    }
                    assert(self.components_wf()) by {
                        assert forall|k: int| 0 <= k < LAYERS implies {
                            &&& (#[trigger] self.windows@[k]).inv()
                            &&& self.windows@[k].layer == k
                            &&& self.windows@[k].slots@.len() == self.requests@.len()
                        } by {
                            assert(between.windows@[k].inv());
                            if k == l && committed is Ok {
                                window::lemma_moved_len(
                                    between.windows@[k].slots@,
                                    batch.window_chunks_of(k),
                                    accepted@,
                                    batch.requests@.len() as int,
                                );
                            }
                        }
                    }
                    self.lemma_leases_stay(old(self));
                    assert forall|k: int| 0 <= k < LAYERS implies (#[trigger] windows@[k]).fits(
                        &self.windows@[k],
                    ) by {
                        if k != l {
                            assert(self.windows@[k] == between.windows@[k]);
                            assert(waves[k].fits(&between.windows@[k]));
                        }
                    }
                }
                match committed {
                    Err(e) => {
                        proof {
                            assert forall|k: int| 0 <= k < LAYERS implies (
                            #[trigger] self.window_settled(
                                old(self),
                                batch,
                                windows@,
                                old(windows)@,
                                accepted@,
                                done@,
                                k,
                            )) by {
                                if k < l {
                                    if old(self).first_window_publish_error(
                                        batch,
                                        old(windows)@,
                                        accepted@,
                                        done@,
                                        k + 1,
                                    ) is Some {
                                        old(self).lemma_window_publish_stays(
                                            batch,
                                            old(windows)@,
                                            accepted@,
                                            done@,
                                            k + 1,
                                            l as int,
                                        );
                                    }
                                    assert(between.window_published(
                                        old(self),
                                        batch,
                                        waves,
                                        old(windows)@,
                                        accepted@,
                                        k,
                                    ));
                                    assert(self.windows@[k] == between.windows@[k]);
                                    assert(windows@[k] == waves[k]);
                                } else {
                                    old(self).lemma_window_publish_stays(
                                        batch,
                                        old(windows)@,
                                        accepted@,
                                        done@,
                                        l + 1,
                                        k + 1,
                                    );
                                    assert(between.windows@[k] == old(self).windows@[k]);
                                    assert(waves[k] == old(windows)@[k]);
                                }
                            }
                        }
                        return Err(e);
                    },
                    Ok(_) => {},
                }
            }
            proof {
                assert forall|k: int| 0 <= k < l + 1 implies #[trigger] self.window_published(
                    old(self),
                    batch,
                    windows@,
                    old(windows)@,
                    accepted@,
                    k,
                ) by {
                    if k < l {
                        assert(between.window_published(
                            old(self),
                            batch,
                            waves,
                            old(windows)@,
                            accepted@,
                            k,
                        ));
                        assert(self.windows@[k] == between.windows@[k]);
                        assert(windows@[k] == waves[k]);
                    }
                }
            }
            l = l + 1;
        }
        proof {
            assert forall|k: int| 0 <= k < LAYERS implies #[trigger] self.window_settled(
                old(self),
                batch,
                windows@,
                old(windows)@,
                accepted@,
                done@,
                k,
            ) by {
                if old(self).first_window_publish_error(
                    batch,
                    old(windows)@,
                    accepted@,
                    done@,
                    k + 1,
                ) is Some {
                    old(self).lemma_window_publish_stays(
                        batch,
                        old(windows)@,
                        accepted@,
                        done@,
                        k + 1,
                        40,
                    );
                }
                assert(self.window_published(
                    old(self),
                    batch,
                    windows@,
                    old(windows)@,
                    accepted@,
                    k,
                ));
            }
        }
        Ok(())
    }

    #[verifier::rlimit(40)]
    fn publish_sources(
        &mut self,
        batch: &CacheBatch,
        sources: &mut Vec<CompressorWave>,
        accepted: &[u32],
        done: &[bool],
        published: u8,
    ) -> (r: Result<(), Error>)
        requires
            old(self).inv(),
            batch.wf(),
            old(sources)@.len() == SOURCE_COUNT,
            done@.len() == SOURCE_COUNT,
            forall|i: int|
                0 <= i < SOURCE_COUNT ==> old(self).lane_fits(i, #[trigger] &old(sources)@[i]),
            published == old(self).batch_masks(batch).1,
        ensures
            final(self).inv(),
            final(self).same_books(old(self)),
            final(self).poisoned == old(self).poisoned,
            final(self).windows@ == old(self).windows@,
            final(sources)@.len() == SOURCE_COUNT,
            forall|i: int|
                0 <= i < SOURCE_COUNT ==> final(self).lane_fits(i, #[trigger] &final(sources)@[i]),
            forall|i: int|
                0 <= i < SOURCE_COUNT ==> #[trigger] final(self).source_published(
                    old(self),
                    batch,
                    final(sources)@,
                    old(sources)@,
                    accepted@,
                    i,
                ) || (final(self).sources@[i] == old(self).sources@[i] && final(sources)@[i]
                    == old(sources)@[i]),
            match r {
                Err(e) => old(self).first_source_publish_error(
                    batch,
                    old(sources)@,
                    accepted@,
                    done@,
                    4,
                ) == Some(e),
                Ok(_) => {
                    &&& old(self).first_source_publish_error(
                        batch,
                        old(sources)@,
                        accepted@,
                        done@,
                        4,
                    ) is None
                    &&& forall|i: int|
                        0 <= i < SOURCE_COUNT ==> #[trigger] final(self).source_published(
                            old(self),
                            batch,
                            final(sources)@,
                            old(sources)@,
                            accepted@,
                            i,
                        )
                },
            },
    {
        let owed: usize = batch.stage.source_count();
        let mut i: usize = 0;
        while i < SOURCE_COUNT
            invariant
                i <= SOURCE_COUNT,
                old(self).inv(),
                self.inv(),
                batch.wf(),
                owed == batch.stage.sources(),
                done@.len() == SOURCE_COUNT,
                published == old(self).batch_masks(batch).1,
                self.same_books(old(self)),
                self.poisoned == old(self).poisoned,
                self.windows@ == old(self).windows@,
                sources@.len() == SOURCE_COUNT,
                old(sources)@.len() == SOURCE_COUNT,
                old(self).first_source_publish_error(
                    batch,
                    old(sources)@,
                    accepted@,
                    done@,
                    i as int,
                ) is None,
                forall|k: int|
                    0 <= k < SOURCE_COUNT ==> self.lane_fits(k, #[trigger] &sources@[k]),
                forall|k: int|
                    0 <= k < i ==> #[trigger] self.source_published(
                        old(self),
                        batch,
                        sources@,
                        old(sources)@,
                        accepted@,
                        k,
                    ),
                forall|k: int|
                    i <= k < SOURCE_COUNT ==> #[trigger] self.sources@[k] == old(self).sources@[k],
                forall|k: int| i <= k < SOURCE_COUNT ==> #[trigger] sources@[k] == old(sources)@[k],
            decreases SOURCE_COUNT - i,
        {
            let ghost between = *self;
            let ghost waves = sources@;
            proof {
                if old(self).first_source_publish_error(
                    batch,
                    old(sources)@,
                    accepted@,
                    done@,
                    i + 1,
                ) is Some {
                    old(self).lemma_source_publish_stays(
                        batch,
                        old(sources)@,
                        accepted@,
                        done@,
                        i + 1,
                        4,
                    );
                }
                assert(self.sources@[i as int] == old(self).sources@[i as int]);
                assert(sources@[i as int] == old(sources)@[i as int]);
                assert(self.lane_fits(i as int, &sources@[i as int]));
            }
            if i < owed && !source_in(published, i) {
                let committed = sources[i].commit(&mut self.sources[i], accepted, done[i]);
                proof {
                    assert forall|k: int| 0 <= k < SOURCE_COUNT && k != i implies #[trigger] self.sources@[k]
                        == between.sources@[k] && sources@[k] == waves[k] by {}
                    assert(self.sources@[i as int].same_identity(&between.sources@[i as int]));
                    assert(self.components_wf()) by {
                        assert forall|k: int| 0 <= k < SOURCE_COUNT implies {
                            &&& (#[trigger] self.sources@[k]).inv()
                            &&& self.sources@[k].layer == backbone_cache::source_layer(k)
                            &&& self.sources@[k].slot_count == self.requests@.len()
                        } by {
                            assert(between.sources@[k].inv());
                        }
                    }
                    assert forall|k: int| 0 <= k < SOURCE_COUNT implies (
                    #[trigger] self.sources@[k]).owner == between.sources@[k].owner by {}
                    copies::lemma_copies_stay_at(
                        self.prefix_copies@,
                        between.sources@,
                        self.sources@,
                        i as int,
                    );
                    self.lemma_leases_stay(&between);
                    assert forall|k: int| 0 <= k < SOURCE_COUNT implies self.lane_fits(
                        k,
                        #[trigger] &sources@[k],
                    ) by {
                        assert(between.lane_fits(k, &waves[k]));
                        if k != i {
                            assert(self.sources@[k] == between.sources@[k]);
                        }
                    }
                }
                match committed {
                    Err(e) => {
                        proof {
                            assert forall|k: int| 0 <= k < SOURCE_COUNT implies (
                            #[trigger] self.source_published(
                                old(self),
                                batch,
                                sources@,
                                old(sources)@,
                                accepted@,
                                k,
                            )) || (self.sources@[k] == old(self).sources@[k] && sources@[k]
                                == old(sources)@[k]) by {
                                if k < i {
                                    assert(between.source_published(
                                        old(self),
                                        batch,
                                        waves,
                                        old(sources)@,
                                        accepted@,
                                        k,
                                    ));
                                    assert(self.sources@[k] == between.sources@[k]);
                                }
                            }
                        }
                        return Err(e);
                    },
                    Ok(_) => {},
                }
            }
            proof {
                assert forall|k: int| 0 <= k < i + 1 implies #[trigger] self.source_published(
                    old(self),
                    batch,
                    sources@,
                    old(sources)@,
                    accepted@,
                    k,
                ) by {
                    if k < i {
                        assert(between.source_published(
                            old(self),
                            batch,
                            waves,
                            old(sources)@,
                            accepted@,
                            k,
                        ));
                        assert(self.sources@[k] == between.sources@[k]);
                        assert(sources@[k] == waves[k]);
                    }
                }
            }
            i = i + 1;
        }
        Ok(())
    }

    /// Gives up everything that the lanes have queued, after their streams have
    /// been drained. Participating requests lose their component leases.
    pub fn abort_cache_commit(
        &mut self,
        windows: &mut Vec<WindowWave>,
        sources: &mut Vec<CompressorWave>,
    )
        requires
            old(self).inv(),
            old(self).lanes_fit(old(windows)@, old(sources)@),
        ensures
            final(self).inv(),
            final(self).same_books(old(self)),
            final(self).poisoned == old(self).poisoned,
            final(self).lanes_fit(final(windows)@, final(sources)@),
            final(windows)@.len() == old(windows)@.len(),
            final(sources)@.len() == old(sources)@.len(),
            forall|l: int|
                0 <= l < LAYERS && l < old(windows)@.len() ==> {
                    &&& (#[trigger] final(windows)@[l]) == (WindowWave {
                        pending: None,
                        ..old(windows)@[l]
                    })
                    &&& window_dropped(
                        &final(self).windows@[l],
                        &old(self).windows@[l],
                        &old(windows)@[l],
                    )
                },
            forall|i: int|
                0 <= i < SOURCE_COUNT && i < old(sources)@.len() ==> {
                    &&& (#[trigger] final(sources)@[i]) == (CompressorWave {
                        pending_commit: None,
                        ..old(sources)@[i]
                    })
                    &&& source_dropped(
                        &final(self).sources@[i],
                        &old(self).sources@[i],
                        &old(sources)@[i],
                    )
                },
    {
        let count: usize = windows.len();
        let mut l: usize = 0;
        while l < count && l < LAYERS
            invariant
                l <= count,
                l <= LAYERS,
                count == windows@.len() == old(windows)@.len(),
                old(self).inv(),
                self.inv(),
                self.same_books(old(self)),
                self.poisoned == old(self).poisoned,
                self.sources@ == old(self).sources@,
                forall|k: int|
                    0 <= k < count && k < LAYERS ==> (#[trigger] windows@[k]).fits(
                        &self.windows@[k],
                    ),
                forall|k: int|
                    0 <= k < l ==> {
                        &&& (#[trigger] windows@[k]) == (WindowWave {
                            pending: None,
                            ..old(windows)@[k]
                        })
                        &&& window_dropped(
                            &self.windows@[k],
                            &old(self).windows@[k],
                            &old(windows)@[k],
                        )
                    },
                forall|k: int|
                    0 <= k < LAYERS ==> (#[trigger] self.windows@[k]).owner == old(self).windows@[k].owner,
                forall|k: int|
                    l <= k < LAYERS ==> #[trigger] self.windows@[k] == old(self).windows@[k],
                forall|k: int| l <= k < count ==> #[trigger] windows@[k] == old(windows)@[k],
            decreases count - l,
        {
            let ghost between = *self;
            let ghost waves = windows@;
            proof {
                assert(self.windows@[l as int] == old(self).windows@[l as int]);
                assert(windows@[l as int] == old(windows)@[l as int]);
                assert(windows@[l as int].fits(&self.windows@[l as int]));
            }
            windows[l].abort_commit(&mut self.windows[l]);
            proof {
                assert forall|k: int| 0 <= k < LAYERS && k != l implies #[trigger] self.windows@[k]
                    == between.windows@[k] by {}
                assert forall|k: int| 0 <= k < count && k != l implies #[trigger] windows@[k]
                    == waves[k] by {}
                assert forall|k: int| 0 <= k < LAYERS implies (#[trigger] self.windows@[k]).owner
                    == old(self).windows@[k].owner by {
                    assert(between.windows@[k].owner == old(self).windows@[k].owner);
                }
                assert(self.components_wf()) by {
                    assert forall|k: int| 0 <= k < LAYERS implies {
                        &&& (#[trigger] self.windows@[k]).inv()
                        &&& self.windows@[k].layer == k
                        &&& self.windows@[k].slots@.len() == self.requests@.len()
                    } by {
                        assert(between.windows@[k].inv());
                        let wave = waves[l as int];
                        if k == l && wave.pending is Some && wave.prepared is Some
                            && wave.prepared->Some_0.owner == between.windows@[k].owner {
                            let chunks = wave.prepared->Some_0.chunks@;
                            window::lemma_revoked_len(
                                between.windows@[k].slots@,
                                chunks,
                                chunks.len() as int,
                            );
                        }
                    }
                }
                self.lemma_leases_stay(old(self));
                assert forall|k: int| 0 <= k < count && k < LAYERS implies (
                #[trigger] windows@[k]).fits(&self.windows@[k]) by {
                    if k != l {
                        assert(self.windows@[k] == between.windows@[k]);
                        assert(waves[k].fits(&between.windows@[k]));
                    }
                }
                assert forall|k: int| 0 <= k < l + 1 implies {
                    &&& (#[trigger] windows@[k]) == (WindowWave { pending: None, ..old(windows)@[k] })
                    &&& window_dropped(
                        &self.windows@[k],
                        &old(self).windows@[k],
                        &old(windows)@[k],
                    )
                } by {
                    if k < l {
                        assert(windows@[k] == waves[k]);
                        assert(self.windows@[k] == between.windows@[k]);
                    }
                }
            }
            l = l + 1;
        }
        let ghost half = *self;
        let total: usize = sources.len();
        proof {
            assert forall|k: int| 0 <= k < total && k < SOURCE_COUNT implies self.lane_fits(
                k,
                #[trigger] &sources@[k],
            ) by {
                assert(old(self).lane_fits(k, &old(sources)@[k]));
            }
        }
        let mut i: usize = 0;
        while i < total && i < SOURCE_COUNT
            invariant
                i <= total,
                i <= SOURCE_COUNT,
                total == sources@.len() == old(sources)@.len(),
                half.inv(),
                self.inv(),
                self.same_books(&half),
                half.same_books(old(self)),
                self.poisoned == half.poisoned,
                self.windows@ == half.windows@,
                half.sources@ == old(self).sources@,
                forall|k: int|
                    0 <= k < total && k < SOURCE_COUNT ==> self.lane_fits(
                        k,
                        #[trigger] &sources@[k],
                    ),
                forall|k: int|
                    0 <= k < i ==> {
                        &&& (#[trigger] sources@[k]) == (CompressorWave {
                            pending_commit: None,
                            ..old(sources)@[k]
                        })
                        &&& source_dropped(
                            &self.sources@[k],
                            &half.sources@[k],
                            &old(sources)@[k],
                        )
                    },
                forall|k: int|
                    i <= k < SOURCE_COUNT ==> #[trigger] self.sources@[k] == half.sources@[k],
                forall|k: int| i <= k < total ==> #[trigger] sources@[k] == old(sources)@[k],
            decreases total - i,
        {
            let ghost between = *self;
            let ghost waves = sources@;
            proof {
                assert(self.sources@[i as int] == half.sources@[i as int]);
                assert(sources@[i as int] == old(sources)@[i as int]);
                assert(self.lane_fits(i as int, &sources@[i as int]));
            }
            sources[i].abort_commit(&mut self.sources[i]);
            proof {
                assert forall|k: int| 0 <= k < SOURCE_COUNT && k != i implies #[trigger] self.sources@[k]
                    == between.sources@[k] by {}
                assert forall|k: int| 0 <= k < total && k != i implies #[trigger] sources@[k]
                    == waves[k] by {}
                assert(self.sources@[i as int].same_identity(&between.sources@[i as int]));
                assert(self.components_wf()) by {
                    assert forall|k: int| 0 <= k < SOURCE_COUNT implies {
                        &&& (#[trigger] self.sources@[k]).inv()
                        &&& self.sources@[k].layer == backbone_cache::source_layer(k)
                        &&& self.sources@[k].slot_count == self.requests@.len()
                    } by {
                        assert(between.sources@[k].inv());
                    }
                }
                assert forall|k: int| 0 <= k < SOURCE_COUNT implies (
                #[trigger] self.sources@[k]).owner == between.sources@[k].owner by {}
                copies::lemma_copies_stay_at(
                    self.prefix_copies@,
                    between.sources@,
                    self.sources@,
                    i as int,
                );
                self.lemma_leases_stay(&between);
                assert forall|k: int| 0 <= k < total && k < SOURCE_COUNT implies self.lane_fits(
                    k,
                    #[trigger] &sources@[k],
                ) by {
                    assert(between.lane_fits(k, &waves[k]));
                    if k != i {
                        assert(self.sources@[k] == between.sources@[k]);
                    }
                }
                assert forall|k: int| 0 <= k < i + 1 implies {
                    &&& (#[trigger] sources@[k]) == (CompressorWave {
                        pending_commit: None,
                        ..old(sources)@[k]
                    })
                    &&& source_dropped(&self.sources@[k], &half.sources@[k], &old(sources)@[k])
                } by {
                    if k < i {
                        assert(sources@[k] == waves[k]);
                        assert(self.sources@[k] == between.sources@[k]);
                    }
                }
            }
            i = i + 1;
        }
        proof {
            assert forall|k: int| 0 <= k < windows@.len() && k < LAYERS implies (
            #[trigger] windows@[k]).fits(&self.windows@[k]) by {
                assert(windows@[k].fits(&half.windows@[k]));
            }
        }
    }

    /// Why the queued commit cannot be published.
    pub open spec fn publish_error(
        &self,
        batch: &CacheBatch,
        windows: Seq<WindowWave>,
        sources: Seq<CompressorWave>,
        accepted: Seq<u32>,
        window_done: Seq<bool>,
        source_done: Seq<bool>,
    ) -> Option<Error> {
        match self.first_window_publish_error(batch, windows, accepted, window_done, 40) {
            Some(e) => Some(e),
            None => self.first_source_publish_error(batch, sources, accepted, source_done, 4),
        }
    }

    /// The batch's requests have moved on by their accepted tokens, in the books
    /// and in every component; all other requests are as in `before`.
    pub open spec fn committed(
        &self,
        before: &Self,
        batch: &CacheBatch,
        windows: Seq<WindowWave>,
        windows_were: Seq<WindowWave>,
        sources: Seq<CompressorWave>,
        sources_were: Seq<CompressorWave>,
        accepted: Seq<u32>,
    ) -> bool {
        &&& self.owner == before.owner
        &&& self.library == before.library
        &&& self.generations@ == before.generations@
        &&& self.poisoned == before.poisoned
        &&& self.prefix_pool == before.prefix_pool
        &&& self.prefix_copies@ == before.prefix_copies@
        &&& self.requests@.len() == before.requests@.len()
        &&& forall|r: int|
            0 <= r < batch.requests@.len() ==> {
                let planned = #[trigger] batch.requests@[r];
                let slot = planned.work.lease.slot as int;
                &&& self.requests@[slot] is Some
                &&& transaction::request_advanced(
                    &self.requests@[slot]->Some_0,
                    &before.live(planned.work.lease),
                    (planned.position + accepted[r]) as u64,
                )
            }
        &&& forall|s: int|
            0 <= s < before.requests@.len() && !transaction::batch_names(
                batch,
                batch.requests@.len() as int,
                s,
            ) ==> #[trigger] self.requests@[s] == before.requests@[s]
        &&& forall|l: int|
            0 <= l < LAYERS ==> #[trigger] self.window_published(
                before,
                batch,
                windows,
                windows_were,
                accepted,
                l,
            )
        &&& forall|i: int|
            0 <= i < SOURCE_COUNT ==> #[trigger] self.source_published(
                before,
                batch,
                sources,
                sources_were,
                accepted,
                i,
            )
    }

    /// What committing a batch leaves, and what it returns.
    pub open spec fn commit_ended(
        &self,
        before: &Self,
        batch: &CacheBatch,
        windows: Seq<WindowWave>,
        windows_were: Seq<WindowWave>,
        sources: Seq<CompressorWave>,
        sources_were: Seq<CompressorWave>,
        accepted: Seq<u32>,
        window_done: Seq<bool>,
        source_done: Seq<bool>,
        r: Result<(), Error>,
    ) -> bool {
        match before.commit_error(batch, windows_were, sources_were, accepted) {
            Some(reason) => {
                &&& r == Err::<(), Error>(reason)
                &&& *self == *before
                &&& windows == windows_were
                &&& sources == sources_were
            },
            None => match before.publish_error(
                batch,
                windows_were,
                sources_were,
                accepted,
                window_done,
                source_done,
            ) {
                Some(reason) => {
                    &&& r == Err::<(), Error>(reason)
                    &&& self.withdrawn(
                        before,
                        batch,
                        windows,
                        windows_were,
                        sources,
                        sources_were,
                        accepted,
                        window_done,
                    )
                    &&& laws::batch_holds(before, batch) && before.written_by_lane(
                        batch,
                        windows_were,
                        sources_were,
                    ) ==> self.all_withdrawn(before, batch)
                },
                None => {
                    &&& r is Ok
                    &&& self.committed(
                        before,
                        batch,
                        windows,
                        windows_were,
                        sources,
                        sources_were,
                        accepted,
                    )
                },
            },
        }
    }

    /// Publishes what the pass has produced, once its writes are done. Sources have
    /// their commit queued first, by `enqueue_cache_commit`. Where a component does
    /// not take its rows, everything queued is given up and the participating
    /// requests end.
    #[verifier::rlimit(40)]
    pub fn commit(
        &mut self,
        batch: &CacheBatch,
        windows: &mut Vec<WindowWave>,
        sources: &mut Vec<CompressorWave>,
        accepted: &[u32],
        window_done: &[bool],
        source_done: &[bool],
    ) -> (r: Result<(), Error>)
        requires
            old(self).inv(),
            batch.wf(),
            old(self).lanes_fit(old(windows)@, old(sources)@),
            window_done@.len() == LAYERS,
            source_done@.len() == SOURCE_COUNT,
        ensures
            final(self).inv(),
            final(self).lanes_fit(final(windows)@, final(sources)@),
            final(self).commit_ended(
                old(self),
                batch,
                final(windows)@,
                old(windows)@,
                final(sources)@,
                old(sources)@,
                accepted@,
                window_done@,
                source_done@,
                r,
            ),
    {
        let masks: (u64, u8) = match self.validate_commit(
            batch,
            windows.as_slice(),
            sources.as_slice(),
            accepted,
        ) {
            Err(e) => {
                return Err(e);
            },
            Ok(masks) => masks,
        };
        let first = self.publish_windows(batch, windows, accepted, window_done, masks.0);
        let ghost half = *self;
        proof {
            assert forall|i: int| 0 <= i < SOURCE_COUNT implies self.lane_fits(
                i,
                #[trigger] &sources@[i],
            ) by {
                assert(old(self).lane_fits(i, &old(sources)@[i]));
            }
            self.lemma_same_publish_error(
                old(self),
                batch,
                sources@,
                accepted@,
                source_done@,
                4,
            );
            assert(self.batch_masks(batch) == old(self).batch_masks(batch));
        }
        let second = match first {
            Err(e) => Err(e),
            Ok(_) => self.publish_sources(batch, sources, accepted, source_done, masks.1),
        };
        assert(self.lanes_fit(windows@, sources@)) by {
            assert forall|l: int| 0 <= l < LAYERS implies (#[trigger] windows@[l]).fits(
                &self.windows@[l],
            ) by {
                assert(windows@[l].fits(&half.windows@[l]));
            }
        }
        match second {
            Err(e) => {
                let ghost failed = *self;
                let ghost window_waves = windows@;
                let ghost source_waves = sources@;
                self.abort_cache_commit(windows, sources);
                let leases = batch_leases(batch);
                let ghost dropped = *self;
                proof {
                    assert forall|l: int| 0 <= l < LAYERS implies (
                    #[trigger] failed.window_published(
                        old(self),
                        batch,
                        window_waves,
                        old(windows)@,
                        accepted@,
                        l,
                    )) || (failed.windows@[l] == old(self).windows@[l] && window_waves[l]
                        == old(windows)@[l]) by {
                        assert(half.window_settled(
                            old(self),
                            batch,
                            window_waves,
                            old(windows)@,
                            accepted@,
                            window_done@,
                            l,
                        ));
                        assert(failed.windows@ == half.windows@);
                    }
                    assert forall|i: int| 0 <= i < SOURCE_COUNT implies (
                    #[trigger] failed.source_published(
                        old(self),
                        batch,
                        source_waves,
                        old(sources)@,
                        accepted@,
                        i,
                    )) || (failed.sources@[i] == old(self).sources@[i] && source_waves[i]
                        == old(sources)@[i]) by {
                        assert(half.owes_source(batch, i) == old(self).owes_source(batch, i));
                        if failed.source_published(
                            &half,
                            batch,
                            source_waves,
                            old(sources)@,
                            accepted@,
                            i,
                        ) {
                            failed.lemma_published_since(
                                &half,
                                old(self),
                                batch,
                                source_waves,
                                old(sources)@,
                                accepted@,
                                i,
                            );
                        }
                    }
                    assert forall|l: int| 0 <= l < LAYERS implies window_dropped(
                        #[trigger] &dropped.windows@[l],
                        &failed.windows@[l],
                        &window_waves[l],
                    ) by {
                        assert(windows@[l] == (WindowWave { pending: None, ..window_waves[l] }));
                    }
                    assert forall|i: int| 0 <= i < SOURCE_COUNT implies source_dropped(
                        #[trigger] &dropped.sources@[i],
                        &failed.sources@[i],
                        &source_waves[i],
                    ) by {
                        assert(sources@[i] == (CompressorWave {
                            pending_commit: None,
                            ..source_waves[i]
                        }));
                    }
                    assert forall|l: int| 0 <= l < LAYERS implies old(self).window_wave_error(
                        batch,
                        l,
                        &(#[trigger] old(windows)@[l]),
                    ) is None by {
                        old(self).lemma_window_wave_good(batch, old(windows)@, 40, l);
                    }
                    dropped.lemma_dropped_left(
                        old(self),
                        &failed,
                        batch,
                        window_waves,
                        old(windows)@,
                        source_waves,
                        old(sources)@,
                        accepted@,
                    );
                    if laws::batch_holds(old(self), batch) && old(self).written_by_lane(
                        batch,
                        old(windows)@,
                        old(sources)@,
                    ) {
                        dropped.lemma_given_up_releases(
                            old(self),
                            batch,
                            old(windows)@,
                            old(sources)@,
                            accepted@,
                        );
                    }
                }
                let cleaned = self.release(leases.as_slice());
                proof {
                    self.lemma_gave_up(old(self), &dropped, batch, old(windows)@, old(sources)@);
                    assert forall|l: int| 0 <= l < LAYERS implies (#[trigger] windows@[l])
                        == old(self).window_wave_left(
                        batch,
                        old(windows)@,
                        accepted@,
                        window_done@,
                        l,
                    ) by {
                        assert(half.window_settled(
                            old(self),
                            batch,
                            window_waves,
                            old(windows)@,
                            accepted@,
                            window_done@,
                            l,
                        ));
                    }
                    assert forall|i: int| 0 <= i < SOURCE_COUNT implies (#[trigger] sources@[i])
                        == (CompressorWave { pending_commit: None, ..old(sources)@[i] }) by {
                        assert(failed.source_published(
                            old(self),
                            batch,
                            source_waves,
                            old(sources)@,
                            accepted@,
                            i,
                        ) || source_waves[i] == old(sources)@[i]);
                    }
                }
                return Err(e);
            },
            Ok(_) => {},
        }
        let ghost published = *self;
        self.advance_requests(batch, accepted, Ghost(*old(self)));
        proof {
            assert forall|l: int| 0 <= l < LAYERS implies #[trigger] self.window_published(
                old(self),
                batch,
                windows@,
                old(windows)@,
                accepted@,
                l,
            ) by {
                assert(half.window_published(
                    old(self),
                    batch,
                    windows@,
                    old(windows)@,
                    accepted@,
                    l,
                ));
            }
            assert forall|i: int| 0 <= i < SOURCE_COUNT implies #[trigger] self.source_published(
                old(self),
                batch,
                sources@,
                old(sources)@,
                accepted@,
                i,
            ) by {
                assert(published.source_published(
                    &half,
                    batch,
                    sources@,
                    old(sources)@,
                    accepted@,
                    i,
                ));
            }
            assert(self.lanes_fit(windows@, sources@)) by {
                assert forall|l: int| 0 <= l < LAYERS implies (#[trigger] windows@[l]).fits(
                    &self.windows@[l],
                ) by {
                    assert(windows@[l].fits(&half.windows@[l]));
                }
                assert forall|i: int| 0 <= i < SOURCE_COUNT implies self.lane_fits(
                    i,
                    #[trigger] &sources@[i],
                ) by {
                    assert(published.lane_fits(i, &sources@[i]));
                }
            }
        }
        Ok(())
    }

    proof fn lemma_same_publish_error(
        &self,
        before: &Self,
        batch: &CacheBatch,
        sources: Seq<CompressorWave>,
        accepted: Seq<u32>,
        done: Seq<bool>,
        n: int,
    )
        requires
            self.requests@ == before.requests@,
            self.sources@ == before.sources@,
        ensures
            self.first_source_publish_error(batch, sources, accepted, done, n)
                == before.first_source_publish_error(batch, sources, accepted, done, n),
        decreases n,
    {
        if n > 0 {
            self.lemma_same_publish_error(before, batch, sources, accepted, done, n - 1);
            assert(self.batch_masks(batch) == before.batch_masks(batch));
        }
    }

    /// Different requests of a good batch are at different slots.
    proof fn lemma_slots_differ(&self, batch: &CacheBatch, a: int, b: int)
        requires
            self.inv(),
            batch.wf(),
            self.batch_error(batch) is None,
            0 <= a < b < batch.requests@.len(),
        ensures
            batch.requests@[a].work.lease.slot != batch.requests@[b].work.lease.slot,
            batch.requests@[a].work.lease.slot < self.requests@.len(),
            batch.requests@[b].work.lease.slot < self.requests@.len(),
    {
        self.lemma_batch_good(batch, batch.requests@.len() as int, a);
        self.lemma_batch_good(batch, batch.requests@.len() as int, b);
        assert(batch.requests@[a].work.lease != batch.requests@[b].work.lease);
    }

    fn advance_requests(&mut self, batch: &CacheBatch, accepted: &[u32], Ghost(before): Ghost<Self>)
        requires
            old(self).inv(),
            before.inv(),
            batch.wf(),
            before.batch_error(batch) is None,
            accepted@.len() == batch.requests@.len(),
            Self::first_acceptance_error(batch, accepted@, batch.requests@.len() as int) is None,
            batch.reserved ==> before.first_order_error(
                batch,
                batch.requests@.len() as int,
            ) is None,
            old(self).requests@ == before.requests@,
        ensures
            final(self).inv(),
            final(self).owner == old(self).owner,
            final(self).library == old(self).library,
            final(self).generations@ == old(self).generations@,
            final(self).poisoned == old(self).poisoned,
            final(self).prefix_pool == old(self).prefix_pool,
            final(self).prefix_copies@ == old(self).prefix_copies@,
            final(self).windows@ == old(self).windows@,
            final(self).sources@ == old(self).sources@,
            final(self).requests@.len() == before.requests@.len(),
            forall|r: int|
                0 <= r < batch.requests@.len() ==> {
                    let planned = #[trigger] batch.requests@[r];
                    let slot = planned.work.lease.slot as int;
                    &&& final(self).requests@[slot] is Some
                    &&& transaction::request_advanced(
                        &final(self).requests@[slot]->Some_0,
                        &before.live(planned.work.lease),
                        (planned.position + accepted@[r]) as u64,
                    )
                },
            forall|s: int|
                0 <= s < before.requests@.len() && !transaction::batch_names(
                    batch,
                    batch.requests@.len() as int,
                    s,
                ) ==> #[trigger] final(self).requests@[s] == before.requests@[s],
    {
        let mut r: usize = 0;
        while r < batch.requests.len()
            invariant
                r <= batch.requests@.len(),
                self.inv(),
                before.inv(),
                batch.wf(),
                before.batch_error(batch) is None,
                accepted@.len() == batch.requests@.len(),
                Self::first_acceptance_error(batch, accepted@, batch.requests@.len() as int) is None,
                batch.reserved ==> before.first_order_error(
                    batch,
                    batch.requests@.len() as int,
                ) is None,
                self.owner == old(self).owner,
                self.library == old(self).library,
                self.generations@ == old(self).generations@,
                self.poisoned == old(self).poisoned,
                self.prefix_pool == old(self).prefix_pool,
                self.prefix_copies@ == old(self).prefix_copies@,
                self.windows@ == old(self).windows@,
                self.sources@ == old(self).sources@,
                self.requests@.len() == before.requests@.len(),
                forall|k: int|
                    0 <= k < r ==> {
                        let planned = #[trigger] batch.requests@[k];
                        let slot = planned.work.lease.slot as int;
                        &&& self.requests@[slot] is Some
                        &&& transaction::request_advanced(
                            &self.requests@[slot]->Some_0,
                            &before.live(planned.work.lease),
                            (planned.position + accepted@[k]) as u64,
                        )
                    },
                forall|s: int|
                    0 <= s < before.requests@.len() && !transaction::batch_names(
                        batch,
                        r as int,
                        s,
                    ) ==> #[trigger] self.requests@[s] == before.requests@[s],
            decreases batch.requests@.len() - r,
        {
            let planned = &batch.requests[r];
            let slot: usize = planned.work.lease.slot;
            let ghost between = *self;
            proof {
                let n = batch.requests@.len() as int;
                before.lemma_batch_good(batch, n, r as int);
                Self::lemma_accepted(batch, accepted@, n, r as int);
                if batch.reserved {
                    before.lemma_ordered(batch, n, r as int);
                }
                assert(!transaction::batch_names(batch, r as int, slot as int)) by {
                    if transaction::batch_names(batch, r as int, slot as int) {
                        let k = choose|k: int|
                            0 <= k < r && (#[trigger] batch.requests@[k]).work.lease.slot == slot;
                        before.lemma_slots_differ(batch, k, r as int);
                    }
                }
                assert(self.requests@[slot as int] == before.requests@[slot as int]);
            }
            let mut taken: Option<Request> = None;
            std::mem::swap(&mut self.requests[slot], &mut taken);
            let mut live: Request = match taken {
                Some(live) => live,
                None => {
                    assert(false);
                    return;
                },
            };
            let ghost was = live;
            let to: u64 = planned.position + accepted[r] as u64;
            live.phase.advance(&mut live.end, to);
            live.version = live.version + 1;
            if live.publication.len() > 0 {
                let done = live.publication.remove(0);
                assert(live.publication@ =~= was.publication@.skip(1));
            }
            let ghost moved = live;
            self.requests[slot] = Some(live);
            proof {
                assert(was == before.live(planned.work.lease));
                assert(transaction::request_advanced(&moved, &was, to));
                assert forall|k: int| 0 <= k < r + 1 implies {
                    let item = #[trigger] batch.requests@[k];
                    let at = item.work.lease.slot as int;
                    &&& self.requests@[at] is Some
                    &&& transaction::request_advanced(
                        &self.requests@[at]->Some_0,
                        &before.live(item.work.lease),
                        (item.position + accepted@[k]) as u64,
                    )
                } by {
                    if k < r {
                        before.lemma_slots_differ(batch, k, r as int);
                        assert(self.requests@[batch.requests@[k].work.lease.slot as int]
                            == between.requests@[batch.requests@[k].work.lease.slot as int]);
                    }
                }
                assert forall|s: int|
                    0 <= s < before.requests@.len() && !transaction::batch_names(
                        batch,
                        r + 1,
                        s,
                    ) implies #[trigger] self.requests@[s] == before.requests@[s] by {
                    assert(batch.requests@[r as int].work.lease.slot == slot);
                    assert(s != slot);
                    if transaction::batch_names(batch, r as int, s) {
                        let k = choose|k: int|
                            0 <= k < r && (#[trigger] batch.requests@[k]).work.lease.slot == s;
                        assert(batch.requests@[k].work.lease.slot == s);
                    }
                    assert(self.requests@[s] == between.requests@[s]);
                }
                assert(self.inv()) by {
                    assert forall|s: int| 0 <= s < self.requests@.len() implies ((
                    #[trigger] self.requests@[s]) matches Some(q) ==> self.leases_wf(s, &q)) by {
                        if s == slot {
                            assert(between.leases_wf(s, &was));
                        } else {
                            assert(self.requests@[s] == between.requests@[s]);
                        }
                    }
                }
            }
            r = r + 1;
        }
    }
}

/// The leases of the batch's requests.
pub open spec fn leases_of(batch: &CacheBatch) -> Seq<CacheLease> {
    Seq::new(batch.requests@.len(), |r: int| batch.requests@[r].work.lease)
}

pub(crate) fn batch_leases(batch: &CacheBatch) -> (r: Vec<CacheLease>)
    ensures
        r@ == leases_of(batch),
{
    let mut out: Vec<CacheLease> = Vec::new();
    let mut i: usize = 0;
    while i < batch.requests.len()
        invariant
            i <= batch.requests@.len(),
            out@.len() == i,
            forall|k: int| 0 <= k < i ==> #[trigger] out@[k] == batch.requests@[k].work.lease,
        decreases batch.requests@.len() - i,
    {
        out.push(batch.requests[i].work.lease);
        i = i + 1;
    }
    out
}

} // verus!
