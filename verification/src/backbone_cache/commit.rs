//! Committing a batch to every window and source that its pass has produced.
use crate::backbone_cache;
use crate::backbone_cache::attention;
use crate::backbone_cache::attention::{source_in, window_in};
use crate::backbone_cache::plan::CacheBatch;
use crate::backbone_cache::{source_at, BackboneCache, LAYERS, SOURCE_COUNT};
use crate::compressor::wave::CompressorWave;
use crate::error::Error;
use crate::window::WindowWave;
use vstd::prelude::*;

verus! {

/// All encoder windows.
pub const ENCODER_WINDOWS: u64 = 0xf_ffff;

/// All sources.
pub const ALL_SOURCES: u8 = 15;

impl BackboneCache {
    /// The lanes' waves belong to the bank's components.
    pub open spec fn lanes_fit(&self, windows: Seq<WindowWave>, sources: Seq<CompressorWave>) -> bool {
        &&& forall|l: int|
            0 <= l < windows.len() && l < LAYERS ==> (#[trigger] windows[l]).fits(
                &self.windows@[l],
            )
        &&& forall|i: int|
            0 <= i < sources.len() && i < SOURCE_COUNT ==> self.lane_fits(
                i,
                #[trigger] &sources[i],
            )
    }

    pub open spec fn lane_fits(&self, i: int, wave: &CompressorWave) -> bool {
        let state = &self.sources@[i];
        &&& wave.inv()
        &&& wave.layer == state.layer
        &&& wave.commit_fits(state)
        &&& wave.ready_fits(state)
        &&& wave.pending_commit matches Some(pending) ==> pending.prepared.owner == state.owner
    }

    /// Why request `r` of the batch does not take `accepted` tokens.
    pub open spec fn acceptance_error(batch: &CacheBatch, accepted: Seq<u32>, r: int) -> Option<
        Error,
    > {
        let planned = batch.requests@[r];
        if accepted[r] > planned.work.tokens {
            Some(Error::AcceptedPrefix)
        } else if planned.version == u64::MAX {
            Some(Error::CacheVersions)
        } else {
            None
        }
    }

    pub open spec fn first_acceptance_error(batch: &CacheBatch, accepted: Seq<u32>, n: int) -> Option<
        Error,
    >
        decreases n,
    {
        if n <= 0 {
            None
        } else {
            match Self::first_acceptance_error(batch, accepted, n - 1) {
                Some(e) => Some(e),
                None => Self::acceptance_error(batch, accepted, n - 1),
            }
        }
    }

    pub proof fn lemma_acceptance_stays(batch: &CacheBatch, accepted: Seq<u32>, n: int, m: int)
        requires
            n <= m,
            Self::first_acceptance_error(batch, accepted, n) is Some,
        ensures
            Self::first_acceptance_error(batch, accepted, m) == Self::first_acceptance_error(
                batch,
                accepted,
                n,
            ),
        decreases m - n,
    {
        if n < m && m > 0 {
            Self::lemma_acceptance_stays(batch, accepted, n, m - 1);
        }
    }

    pub proof fn lemma_accepted(batch: &CacheBatch, accepted: Seq<u32>, n: int, r: int)
        requires
            Self::first_acceptance_error(batch, accepted, n) is None,
            0 <= r < n,
        ensures
            Self::acceptance_error(batch, accepted, r) is None,
        decreases n,
    {
        if r < n - 1 {
            Self::lemma_accepted(batch, accepted, n - 1, r);
        }
    }

    /// Why a reserved chunk cannot be completed for request `r`: chunks complete
    /// in their order.
    pub open spec fn order_error(&self, batch: &CacheBatch, r: int) -> Option<Error> {
        let planned = batch.requests@[r];
        let live = self.live(planned.work.lease);
        if !(live.publication@.len() > 0 && live.publication@[0].batch == batch.identity && live.end
            == planned.position) {
            Some(Error::EncoderOrder)
        } else if live.version == u64::MAX {
            Some(Error::CacheVersions)
        } else {
            None
        }
    }

    pub open spec fn first_order_error(&self, batch: &CacheBatch, n: int) -> Option<Error>
        decreases n,
    {
        if n <= 0 {
            None
        } else {
            match self.first_order_error(batch, n - 1) {
                Some(e) => Some(e),
                None => self.order_error(batch, n - 1),
            }
        }
    }

    pub proof fn lemma_order_stays(&self, batch: &CacheBatch, n: int, m: int)
        requires
            n <= m,
            self.first_order_error(batch, n) is Some,
        ensures
            self.first_order_error(batch, m) == self.first_order_error(batch, n),
        decreases m - n,
    {
        if n < m && m > 0 {
            self.lemma_order_stays(batch, n, m - 1);
        }
    }

    pub proof fn lemma_ordered(&self, batch: &CacheBatch, n: int, r: int)
        requires
            self.first_order_error(batch, n) is None,
            0 <= r < n,
        ensures
            self.order_error(batch, r) is None,
        decreases n,
    {
        if r < n - 1 {
            self.lemma_ordered(batch, n - 1, r);
        }
    }

    /// Every request of the batch takes all its tokens.
    pub open spec fn all_accepted(batch: &CacheBatch, accepted: Seq<u32>) -> bool {
        forall|r: int|
            0 <= r < batch.requests@.len() ==> #[trigger] accepted[r]
                == batch.requests@[r].work.tokens
    }

    /// The layer's window is produced by the batch and not published yet.
    pub open spec fn owes_window(&self, batch: &CacheBatch, l: int) -> bool {
        batch.stage.has_window(l) && !attention::mask_has_window(self.batch_masks(batch).0, l)
    }

    pub open spec fn owes_source(&self, batch: &CacheBatch, i: int) -> bool {
        i < batch.stage.sources() && !attention::mask_has_source(self.batch_masks(batch).1, i)
    }

    pub open spec fn window_wave_error(&self, batch: &CacheBatch, l: int, wave: &WindowWave) -> Option<
        Error,
    > {
        if !self.owes_window(batch, l) {
            None
        } else if wave.device != self.windows@[l].device {
            Some(Error::WindowDevice { layer: l as usize })
        } else {
            wave.batch_error(&self.windows@[l], batch.window_chunks_of(l))
        }
    }

    pub open spec fn first_window_wave_error(
        &self,
        batch: &CacheBatch,
        windows: Seq<WindowWave>,
        n: int,
    ) -> Option<Error>
        decreases n,
    {
        if n <= 0 {
            None
        } else {
            match self.first_window_wave_error(batch, windows, n - 1) {
                Some(e) => Some(e),
                None => self.window_wave_error(batch, n - 1, &windows[n - 1]),
            }
        }
    }

    pub proof fn lemma_window_waves_stay(
        &self,
        batch: &CacheBatch,
        windows: Seq<WindowWave>,
        n: int,
        m: int,
    )
        requires
            n <= m,
            self.first_window_wave_error(batch, windows, n) is Some,
        ensures
            self.first_window_wave_error(batch, windows, m) == self.first_window_wave_error(
                batch,
                windows,
                n,
            ),
        decreases m - n,
    {
        if n < m && m > 0 {
            self.lemma_window_waves_stay(batch, windows, n, m - 1);
        }
    }

    pub proof fn lemma_window_wave_good(
        &self,
        batch: &CacheBatch,
        windows: Seq<WindowWave>,
        n: int,
        l: int,
    )
        requires
            self.first_window_wave_error(batch, windows, n) is None,
            0 <= l < n,
        ensures
            self.window_wave_error(batch, l, &windows[l]) is None,
        decreases n,
    {
        if l < n - 1 {
            self.lemma_window_wave_good(batch, windows, n - 1, l);
        }
    }

    /// Why the lane's wave does not hold the batch's rows of source `i`.
    pub open spec fn source_wave_error(&self, batch: &CacheBatch, i: int, wave: &CompressorWave) -> Option<
        Error,
    > {
        let state = &self.sources@[i];
        if !self.owes_source(batch, i) {
            None
        } else if wave.buffers.input.device != self.windows@[backbone_cache::source_layer(
            i,
        )].device {
            Some(Error::SourceDevice { source: backbone_cache::source_layer(i) as usize })
        } else {
            let reason = if wave.pending_commit is Some {
                wave.pending_error(state)
            } else {
                wave.output_error(state)
            };
            match reason {
                Some(e) => Some(e),
                None => if wave.current()->Some_0.chunks@ != batch.source_chunks_of(i) {
                    Some(Error::CompressorTransaction)
                } else {
                    None
                },
            }
        }
    }

    pub open spec fn first_source_wave_error(
        &self,
        batch: &CacheBatch,
        sources: Seq<CompressorWave>,
        n: int,
    ) -> Option<Error>
        decreases n,
    {
        if n <= 0 {
            None
        } else {
            match self.first_source_wave_error(batch, sources, n - 1) {
                Some(e) => Some(e),
                None => self.source_wave_error(batch, n - 1, &sources[n - 1]),
            }
        }
    }

    pub proof fn lemma_source_waves_stay(
        &self,
        batch: &CacheBatch,
        sources: Seq<CompressorWave>,
        n: int,
        m: int,
    )
        requires
            n <= m,
            self.first_source_wave_error(batch, sources, n) is Some,
        ensures
            self.first_source_wave_error(batch, sources, m) == self.first_source_wave_error(
                batch,
                sources,
                n,
            ),
        decreases m - n,
    {
        if n < m && m > 0 {
            self.lemma_source_waves_stay(batch, sources, n, m - 1);
        }
    }

    pub proof fn lemma_source_wave_good(
        &self,
        batch: &CacheBatch,
        sources: Seq<CompressorWave>,
        n: int,
        i: int,
    )
        requires
            self.first_source_wave_error(batch, sources, n) is None,
            0 <= i < n,
        ensures
            self.source_wave_error(batch, i, &sources[i]) is None,
        decreases n,
    {
        if i < n - 1 {
            self.lemma_source_wave_good(batch, sources, n - 1, i);
        }
    }

    /// Why the batch cannot be committed, if it cannot.
    pub open spec fn commit_error(
        &self,
        batch: &CacheBatch,
        windows: Seq<WindowWave>,
        sources: Seq<CompressorWave>,
        accepted: Seq<u32>,
    ) -> Option<Error> {
        let n = batch.requests@.len() as int;
        let masks = self.batch_masks(batch);
        if self.batch_error(batch) is Some {
            self.batch_error(batch)
        } else if !(windows.len() == LAYERS && sources.len() == SOURCE_COUNT && accepted.len() == n) {
            Some(Error::CommitCount)
        } else if Self::first_acceptance_error(batch, accepted, n) is Some {
            Self::first_acceptance_error(batch, accepted, n)
        } else if !self.masks_agree(batch, n) {
            Some(Error::PublicationDiffers)
        } else if batch.reserved && !(masks.0 == ENCODER_WINDOWS && masks.1 == ALL_SOURCES) {
            Some(Error::ReservedIncomplete)
        } else if batch.reserved && self.first_order_error(batch, n) is Some {
            self.first_order_error(batch, n)
        } else if (masks.0 != 0 || masks.1 != 0) && !Self::all_accepted(batch, accepted) {
            Some(Error::PublishedAcceptance)
        } else if self.first_window_wave_error(batch, windows, 40) is Some {
            self.first_window_wave_error(batch, windows, 40)
        } else {
            self.first_source_wave_error(batch, sources, 4)
        }
    }

    /// Checks every component before accepted rows are written or published.
    pub fn validate_commit(
        &self,
        batch: &CacheBatch,
        windows: &[WindowWave],
        sources: &[CompressorWave],
        accepted: &[u32],
    ) -> (r: Result<(u64, u8), Error>)
        requires
            self.inv(),
            batch.wf(),
            self.lanes_fit(windows@, sources@),
        ensures
            match r {
                Ok(masks) => self.commit_error(batch, windows@, sources@, accepted@) is None && masks
                    == self.batch_masks(batch),
                Err(e) => self.commit_error(batch, windows@, sources@, accepted@) == Some(e),
            },
    {
        match self.validate_batch(batch) {
            Err(e) => {
                return Err(e);
            },
            Ok(_) => {},
        }
        let count: usize = batch.requests.len();
        if !(windows.len() == LAYERS && sources.len() == SOURCE_COUNT && accepted.len() == count) {
            return Err(Error::CommitCount);
        }
        match Self::check_acceptance(batch, accepted) {
            Err(e) => {
                return Err(e);
            },
            Ok(_) => {},
        }
        let masks: (u64, u8) = match self.publication_masks(batch) {
            Err(e) => {
                return Err(e);
            },
            Ok(masks) => masks,
        };
        if batch.reserved {
            if !(masks.0 == ENCODER_WINDOWS && masks.1 == ALL_SOURCES) {
                return Err(Error::ReservedIncomplete);
            }
            match self.check_order(batch) {
                Err(e) => {
                    return Err(e);
                },
                Ok(_) => {},
            }
        }
        if masks.0 != 0 || masks.1 != 0 {
            if !Self::takes_all(batch, accepted) {
                return Err(Error::PublishedAcceptance);
            }
        }
        match self.check_window_waves(batch, windows, masks.0) {
            Err(e) => {
                return Err(e);
            },
            Ok(_) => {},
        }
        match self.check_source_waves(batch, sources, masks.1) {
            Err(e) => {
                return Err(e);
            },
            Ok(_) => {},
        }
        Ok(masks)
    }

    fn check_acceptance(batch: &CacheBatch, accepted: &[u32]) -> (r: Result<(), Error>)
        requires
            accepted@.len() == batch.requests@.len(),
        ensures
            match r {
                Ok(_) => Self::first_acceptance_error(
                    batch,
                    accepted@,
                    batch.requests@.len() as int,
                ) is None,
                Err(e) => Self::first_acceptance_error(
                    batch,
                    accepted@,
                    batch.requests@.len() as int,
                ) == Some(e),
            },
    {
        let mut r: usize = 0;
        while r < accepted.len()
            invariant
                r <= accepted@.len() == batch.requests@.len(),
                Self::first_acceptance_error(batch, accepted@, r as int) is None,
            decreases accepted@.len() - r,
        {
            proof {
                if Self::first_acceptance_error(batch, accepted@, r + 1) is Some {
                    Self::lemma_acceptance_stays(
                        batch,
                        accepted@,
                        r + 1,
                        batch.requests@.len() as int,
                    );
                }
            }
            if accepted[r] > batch.requests[r].work.tokens {
                return Err(Error::AcceptedPrefix);
            }
            if batch.requests[r].version == u64::MAX {
                return Err(Error::CacheVersions);
            }
            r = r + 1;
        }
        Ok(())
    }

    fn check_order(&self, batch: &CacheBatch) -> (r: Result<(), Error>)
        requires
            self.inv(),
            batch.wf(),
            self.batch_error(batch) is None,
        ensures
            match r {
                Ok(_) => self.first_order_error(batch, batch.requests@.len() as int) is None,
                Err(e) => self.first_order_error(batch, batch.requests@.len() as int) == Some(e),
            },
    {
        let mut r: usize = 0;
        while r < batch.requests.len()
            invariant
                r <= batch.requests@.len(),
                self.inv(),
                batch.wf(),
                self.batch_error(batch) is None,
                self.first_order_error(batch, r as int) is None,
            decreases batch.requests@.len() - r,
        {
            proof {
                if self.first_order_error(batch, r + 1) is Some {
                    self.lemma_order_stays(batch, r + 1, batch.requests@.len() as int);
                }
                self.lemma_batch_good(batch, batch.requests@.len() as int, r as int);
            }
            let planned = &batch.requests[r];
            match self.request(planned.work.lease) {
                Err(e) => {
                    assert(false);
                    return Err(e);
                },
                Ok(live) => {
                    if !(live.publication.len() > 0 && live.publication[0].batch == batch.identity
                        && live.end == planned.position) {
                        return Err(Error::EncoderOrder);
                    }
                    if live.version == u64::MAX {
                        return Err(Error::CacheVersions);
                    }
                },
            }
            r = r + 1;
        }
        Ok(())
    }

    fn takes_all(batch: &CacheBatch, accepted: &[u32]) -> (r: bool)
        requires
            accepted@.len() == batch.requests@.len(),
        ensures
            r == Self::all_accepted(batch, accepted@),
    {
        let mut i: usize = 0;
        while i < accepted.len()
            invariant
                i <= accepted@.len() == batch.requests@.len(),
                forall|k: int|
                    0 <= k < i ==> #[trigger] accepted@[k] == batch.requests@[k].work.tokens,
            decreases accepted@.len() - i,
        {
            if accepted[i] != batch.requests[i].work.tokens {
                assert(accepted@[i as int] != batch.requests@[i as int].work.tokens);
                return false;
            }
            i = i + 1;
        }
        true
    }

    fn check_window_waves(&self, batch: &CacheBatch, windows: &[WindowWave], published: u64) -> (r:
        Result<(), Error>)
        requires
            self.inv(),
            batch.wf(),
            windows@.len() == LAYERS,
            published == self.batch_masks(batch).0,
        ensures
            match r {
                Ok(_) => self.first_window_wave_error(batch, windows@, 40) is None,
                Err(e) => self.first_window_wave_error(batch, windows@, 40) == Some(e),
            },
    {
        let (first, end): (usize, usize) = batch.stage.windows();
        let mut l: usize = 0;
        while l < LAYERS
            invariant
                l <= LAYERS,
                self.inv(),
                batch.wf(),
                windows@.len() == LAYERS,
                published == self.batch_masks(batch).0,
                first == batch.stage.first_window(),
                end == batch.stage.end_window(),
                self.first_window_wave_error(batch, windows@, l as int) is None,
            decreases LAYERS - l,
        {
            proof {
                if self.first_window_wave_error(batch, windows@, l + 1) is Some {
                    self.lemma_window_waves_stay(batch, windows@, l + 1, 40);
                }
            }
            if first <= l && l < end && !window_in(published, l) {
                if windows[l].device != self.windows[l].device {
                    return Err(Error::WindowDevice { layer: l });
                }
                match batch.window_chunks(l) {
                    Err(e) => {
                        return Err(e);
                    },
                    Ok(chunks) => match windows[l].validate_batch(
                        &self.windows[l],
                        chunks.as_slice(),
                    ) {
                        Err(e) => {
                            return Err(e);
                        },
                        Ok(_) => {},
                    },
                }
            }
            l = l + 1;
        }
        Ok(())
    }

    fn check_source_waves(&self, batch: &CacheBatch, sources: &[CompressorWave], published: u8) -> (r:
        Result<(), Error>)
        requires
            self.inv(),
            batch.wf(),
            sources@.len() == SOURCE_COUNT,
            forall|i: int|
                0 <= i < SOURCE_COUNT ==> self.lane_fits(i, #[trigger] &sources@[i]),
            published == self.batch_masks(batch).1,
        ensures
            match r {
                Ok(_) => self.first_source_wave_error(batch, sources@, 4) is None,
                Err(e) => self.first_source_wave_error(batch, sources@, 4) == Some(e),
            },
    {
        let owed: usize = batch.stage.source_count();
        let mut i: usize = 0;
        while i < SOURCE_COUNT
            invariant
                i <= SOURCE_COUNT,
                self.inv(),
                batch.wf(),
                sources@.len() == SOURCE_COUNT,
                forall|k: int|
                    0 <= k < SOURCE_COUNT ==> self.lane_fits(k, #[trigger] &sources@[k]),
                published == self.batch_masks(batch).1,
                owed == batch.stage.sources(),
                self.first_source_wave_error(batch, sources@, i as int) is None,
            decreases SOURCE_COUNT - i,
        {
            proof {
                if self.first_source_wave_error(batch, sources@, i + 1) is Some {
                    self.lemma_source_waves_stay(batch, sources@, i + 1, 4);
                }
                assert(self.lane_fits(i as int, &sources@[i as int]));
            }
            if i < owed && !source_in(published, i) {
                let layer: usize = source_at(i);
                if sources[i].buffers.input.device != self.windows[layer].device {
                    return Err(Error::SourceDevice { source: layer });
                }
                match batch.source_chunks(layer) {
                    Err(e) => {
                        return Err(e);
                    },
                    Ok(chunks) => match sources[i].validate_batch(
                        &self.sources[i],
                        chunks.as_slice(),
                    ) {
                        Err(e) => {
                            return Err(e);
                        },
                        Ok(_) => {},
                    },
                }
            }
            i = i + 1;
        }
        Ok(())
    }
}

} // verus!
