//! What attention of one layer reads: each request's window and, from the third
//! layer on, the nearest compressed source.
use crate::backbone_cache;
use crate::backbone_cache::placement;
use crate::backbone_cache::plan;
use crate::backbone_cache::plan::{CacheBatch, BATCH_REQUESTS};
use crate::backbone_cache::{BackboneCache, EncoderPublication, LAYERS, SOURCE_COUNT};
use crate::compressor::wave::{CompressorWave, IndexProposal};
use crate::compressor::MAX_CONTEXT;
use crate::error::Error;
use crate::source_cache::layout::SourceBuffers;
use crate::window::{WindowProposal, WindowWave};
use vstd::prelude::*;

verus! {

/// What the first chunk of a batch has published.
pub open spec fn chunk_masks(chunks: Seq<EncoderPublication>, batch: u64) -> (u64, u8)
    decreases chunks.len(),
{
    if chunks.len() == 0 {
        (0, 0)
    } else if chunks[0].batch == batch {
        (chunks[0].windows, chunks[0].sources)
    } else {
        chunk_masks(chunks.skip(1), batch)
    }
}

fn masks_of(chunks: &[EncoderPublication], batch: u64) -> (r: (u64, u8))
    ensures
        r == chunk_masks(chunks@, batch),
{
    let mut k: usize = 0;
    assert(chunks@.skip(0) =~= chunks@);
    while k < chunks.len()
        invariant
            k <= chunks@.len(),
            chunk_masks(chunks@, batch) == chunk_masks(chunks@.skip(k as int), batch),
        decreases chunks@.len() - k,
    {
        assert(chunks@.skip(k as int)[0] == chunks@[k as int]);
        if chunks[k].batch == batch {
            return (chunks[k].windows, chunks[k].sources);
        }
        assert(chunks@.skip(k as int).skip(1) =~= chunks@.skip(k + 1));
        k = k + 1;
    }
    (0, 0)
}

pub open spec fn mask_has_window(mask: u64, layer: int) -> bool {
    mask & (1u64 << (layer as u64)) != 0
}

pub open spec fn mask_has_source(mask: u8, i: int) -> bool {
    mask & (1u8 << (i as u8)) != 0
}

pub fn window_in(mask: u64, layer: usize) -> (r: bool)
    requires
        layer < LAYERS,
    ensures
        r == mask_has_window(mask, layer as int),
{
    mask & (1u64 << (layer as u64)) != 0
}

pub fn source_in(mask: u8, i: usize) -> (r: bool)
    requires
        i < SOURCE_COUNT,
    ensures
        r == mask_has_source(mask, i as int),
{
    mask & (1u8 << (i as u8)) != 0
}

/// Borrows the bank and the completed producers for the whole use in attention.
/// All three lists come from one validated batch, in its order.
pub struct CacheAttention<'s> {
    pub windows: Vec<WindowProposal>,
    pub sources: Vec<IndexProposal<'s>>,
    pub positions: Vec<Vec<u64>>,
}

/// One request's part of the attention of a layer.
pub struct AttentionRequest<'r> {
    pub window: &'r WindowProposal,
    pub source: Option<&'r IndexProposal<'r>>,
    pub positions: &'r Vec<u64>,
}

/// One request's part of the selection of compressed rows.
pub struct SelectionRequest<'r> {
    pub proposal: &'r IndexProposal<'r>,
    pub positions: &'r Vec<u64>,
}

impl<'s> CacheAttention<'s> {
    pub open spec fn wf(&self) -> bool {
        &&& self.positions@.len() == self.windows@.len()
        &&& self.sources@.len() == 0 || self.sources@.len() == self.windows@.len()
    }

    pub open spec fn is_request(&self, i: int, request: AttentionRequest) -> bool {
        &&& *request.window == self.windows@[i]
        &&& *request.positions == self.positions@[i]
        &&& match request.source {
            Some(source) => i < self.sources@.len() && *source == self.sources@[i],
            None => i >= self.sources@.len(),
        }
    }

    fn nth(&self, i: usize) -> (r: AttentionRequest<'_>)
        requires
            self.wf(),
            i < self.windows@.len(),
        ensures
            self.is_request(i as int, r),
    {
        let source = if i < self.sources.len() {
            Some(&self.sources[i])
        } else {
            None
        };
        AttentionRequest { window: &self.windows[i], source, positions: &self.positions[i] }
    }

    /// The requests in a list of fixed length; past their count the first repeats.
    pub fn attention_requests_fixed(&self) -> (r: Result<(Vec<AttentionRequest<'_>>, usize), Error>)
        requires
            self.wf(),
        ensures
            match r {
                Ok((requests, count)) => {
                    &&& 1 <= count <= BATCH_REQUESTS
                    &&& count == self.windows@.len()
                    &&& requests@.len() == BATCH_REQUESTS
                    &&& forall|i: int|
                        0 <= i < BATCH_REQUESTS ==> self.is_request(
                            if i < count {
                                i
                            } else {
                                0
                            },
                            #[trigger] requests@[i],
                        )
                },
                Err(e) => e == Error::AttentionRequestCount && !(1 <= self.windows@.len()
                    <= BATCH_REQUESTS),
            },
    {
        let count: usize = self.windows.len();
        if count < 1 || count > BATCH_REQUESTS {
            return Err(Error::AttentionRequestCount);
        }
        let mut out: Vec<AttentionRequest<'_>> = Vec::new();
        let mut i: usize = 0;
        while i < BATCH_REQUESTS
            invariant
                i <= BATCH_REQUESTS,
                self.wf(),
                1 <= count <= BATCH_REQUESTS,
                count == self.windows@.len(),
                out@.len() == i,
                forall|k: int|
                    0 <= k < i ==> self.is_request(
                        if k < count {
                            k
                        } else {
                            0
                        },
                        #[trigger] out@[k],
                    ),
            decreases BATCH_REQUESTS - i,
        {
            let at: usize = if i < count {
                i
            } else {
                0
            };
            out.push(self.nth(at));
            i = i + 1;
        }
        Ok((out, count))
    }

    pub fn attention_requests(&self) -> (r: Vec<AttentionRequest<'_>>)
        requires
            self.wf(),
        ensures
            r@.len() == self.windows@.len(),
            forall|i: int| 0 <= i < r@.len() ==> self.is_request(i, #[trigger] r@[i]),
    {
        let mut out: Vec<AttentionRequest<'_>> = Vec::new();
        let mut i: usize = 0;
        while i < self.windows.len()
            invariant
                i <= self.windows@.len(),
                self.wf(),
                out@.len() == i,
                forall|k: int| 0 <= k < i ==> self.is_request(k, #[trigger] out@[k]),
            decreases self.windows@.len() - i,
        {
            out.push(self.nth(i));
            i = i + 1;
        }
        out
    }

    /// The requests as the row selection sees them; a layer without a compressed
    /// source has none.
    pub fn selection_requests(&self) -> (r: Result<Vec<SelectionRequest<'_>>, Error>)
        requires
            self.wf(),
        ensures
            match r {
                Ok(requests) => {
                    &&& self.sources@.len() == self.windows@.len()
                    &&& requests@.len() == self.sources@.len()
                    &&& forall|i: int|
                        0 <= i < requests@.len() ==> *(#[trigger] requests@[i]).proposal
                            == self.sources@[i] && *requests@[i].positions == self.positions@[i]
                },
                Err(e) => e == Error::NoSelection && self.sources@.len() != self.windows@.len(),
            },
    {
        if self.sources.len() != self.windows.len() {
            return Err(Error::NoSelection);
        }
        let mut out: Vec<SelectionRequest<'_>> = Vec::new();
        let mut i: usize = 0;
        while i < self.sources.len()
            invariant
                i <= self.sources@.len(),
                self.wf(),
                self.sources@.len() == self.windows@.len(),
                out@.len() == i,
                forall|k: int|
                    0 <= k < i ==> *(#[trigger] out@[k]).proposal == self.sources@[k]
                        && *out@[k].positions == self.positions@[k],
            decreases self.sources@.len() - i,
        {
            out.push(
                SelectionRequest { proposal: &self.sources[i], positions: &self.positions[i] },
            );
            i = i + 1;
        }
        Ok(out)
    }
}

/// The source that `layer` reads: the nearest one at or below it.
pub open spec fn read_source(layer: int) -> Option<int> {
    match placement::nearest_source(layer) {
        Some(source) => plan::source_of(source),
        None => None,
    }
}

pub fn nearest(layer: usize) -> (r: Option<usize>)
    ensures
        r is Some == read_source(layer as int) is Some,
        r matches Some(i) ==> read_source(layer as int) == Some(i as int) && i < SOURCE_COUNT,
{
    if layer < 2 {
        None
    } else if layer < 8 {
        Some(0)
    } else if layer < 14 {
        Some(1)
    } else if layer < 20 {
        Some(2)
    } else {
        Some(3)
    }
}

impl BackboneCache {
    /// What the batch has published for its request `r`.
    pub open spec fn masks_for(&self, batch: &CacheBatch, r: int) -> (u64, u8) {
        chunk_masks(self.live(batch.requests@[r].work.lease).publication@, batch.identity)
    }

    /// The same has been published for each of the first `n` requests.
    pub open spec fn masks_agree(&self, batch: &CacheBatch, n: int) -> bool {
        forall|r: int| 0 <= r < n ==> #[trigger] self.masks_for(batch, r) == self.masks_for(batch, 0)
    }

    pub open spec fn batch_masks(&self, batch: &CacheBatch) -> (u64, u8) {
        if batch.requests@.len() == 0 {
            (0, 0)
        } else {
            self.masks_for(batch, 0)
        }
    }

    /// What a batch's encoder chunks have published: the same for all requests.
    pub fn publication_masks(&self, batch: &CacheBatch) -> (r: Result<(u64, u8), Error>)
        requires
            self.inv(),
            batch.wf(),
            self.batch_error(batch) is None,
        ensures
            match r {
                Ok(masks) => self.masks_agree(batch, batch.requests@.len() as int) && masks
                    == self.batch_masks(batch),
                Err(e) => e == Error::PublicationDiffers && !self.masks_agree(
                    batch,
                    batch.requests@.len() as int,
                ),
            },
    {
        let mut masks: (u64, u8) = (0, 0);
        let mut i: usize = 0;
        while i < batch.requests.len()
            invariant
                i <= batch.requests@.len(),
                self.inv(),
                batch.wf(),
                self.batch_error(batch) is None,
                masks == if i == 0 {
                    (0u64, 0u8)
                } else {
                    self.masks_for(batch, 0)
                },
                self.masks_agree(batch, i as int),
            decreases batch.requests@.len() - i,
        {
            proof {
                self.lemma_batch_good(batch, batch.requests@.len() as int, i as int);
            }
            let live = match self.request(batch.requests[i].work.lease) {
                Err(_) => {
                    assert(false);
                    return Err(Error::PublicationDiffers);
                },
                Ok(live) => live,
            };
            let here: (u64, u8) = masks_of(&live.publication, batch.identity);
            assert(here == self.masks_for(batch, i as int));
            if i > 0 && !(here.0 == masks.0 && here.1 == masks.1) {
                return Err(Error::PublicationDiffers);
            }
            masks = here;
            i = i + 1;
        }
        Ok(masks)
    }

    /// The layer reads rows that are already committed.
    pub open spec fn reads_committed(&self, batch: &CacheBatch, layer: int) -> bool {
        match read_source(layer) {
            Some(i) => batch.stage.sources() == 0 || mask_has_source(self.batch_masks(batch).1, i),
            None => false,
        }
    }

    /// Why a request's committed range cannot be read.
    pub open spec fn committed_error(&self, batch: &CacheBatch, i: int, r: int) -> Option<Error> {
        let planned = batch.requests@[r];
        let state = self.sources@[i];
        match state.lease_error(planned.sources@[i]) {
            Some(e) => Some(e),
            None => if batch.replay_snapshot->Some_0 != 0 && planned.work.tokens > 0
                && planned.position + planned.work.tokens
                <= state.slots@[planned.sources@[i].slot as int].end {
                None
            } else {
                Some(Error::CommittedRange)
            },
        }
    }

    pub open spec fn first_committed_error(&self, batch: &CacheBatch, i: int, n: int) -> Option<
        Error,
    >
        decreases n,
    {
        if n <= 0 {
            None
        } else {
            match self.first_committed_error(batch, i, n - 1) {
                Some(e) => Some(e),
                None => self.committed_error(batch, i, n - 1),
            }
        }
    }

    proof fn lemma_committed_error_stays(&self, batch: &CacheBatch, i: int, n: int, m: int)
        requires
            n <= m,
            self.first_committed_error(batch, i, n) is Some,
        ensures
            self.first_committed_error(batch, i, m) == self.first_committed_error(batch, i, n),
        decreases m - n,
    {
        if n < m && m > 0 {
            self.lemma_committed_error_stays(batch, i, n, m - 1);
        }
    }

    /// Why the lane's proposal of source `i` is not the batch's.
    pub open spec fn wave_error(&self, batch: &CacheBatch, i: int, wave: &CompressorWave) -> Option<
        Error,
    > {
        let state = &self.sources@[i];
        let reason = if wave.pending_commit is Some {
            wave.pending_error(state)
        } else {
            wave.output_error(state)
        };
        match reason {
            Some(e) => Some(e),
            None => if wave.current()->Some_0.chunks@ != batch.source_chunks_of(i) {
                Some(Error::CompressorTransaction)
            } else if wave.output_error(state) is Some {
                wave.output_error(state)
            } else if exists|r: int|
                0 <= r < batch.requests@.len() && #[trigger] self.absent(batch, i, wave, r) {
                Some(Error::ProposalRequestAbsent)
            } else {
                None
            },
        }
    }

    /// The lane's readable proposal has no rows of request `r`.
    pub open spec fn absent(&self, batch: &CacheBatch, i: int, wave: &CompressorWave, r: int) -> bool {
        CompressorWave::chunk_of(&wave.ready->Some_0, batch.requests@[r].sources@[i]) is None
    }

    /// Why attention cannot run, if it cannot.
    pub open spec fn attention_error(
        &self,
        batch: &CacheBatch,
        layer: int,
        window: &WindowWave,
        source: Option<&CompressorWave>,
    ) -> Option<Error> {
        if self.batch_error(batch) is Some {
            self.batch_error(batch)
        } else if !batch.stage.has_window(layer) {
            Some(Error::WindowOutsidePhase)
        } else if window.batch_error(
            &self.windows@[layer],
            batch.window_chunks_of(layer),
        ) is Some {
            window.batch_error(&self.windows@[layer], batch.window_chunks_of(layer))
        } else if !self.masks_agree(batch, batch.requests@.len() as int) {
            Some(Error::PublicationDiffers)
        } else if source is Some != (read_source(layer) is Some && !self.reads_committed(
            batch,
            layer,
        )) {
            Some(Error::SourcePresence)
        } else {
            match read_source(layer) {
                None => None,
                Some(i) => if self.reads_committed(batch, layer) {
                    if batch.replay_snapshot is None {
                        Some(Error::MissingSnapshot)
                    } else {
                        self.first_committed_error(batch, i, batch.requests@.len() as int)
                    }
                } else {
                    self.wave_error(batch, i, source->Some_0)
                },
            }
        }
    }

    /// The lane's waves belong to the bank and can be read.
    pub open spec fn readable(
        &self,
        layer: int,
        source: Option<&CompressorWave>,
        buffers: &SourceBuffers,
    ) -> bool {
        read_source(layer) matches Some(i) ==> {
            &&& buffers.serve(&self.sources@[i].index)
            &&& source matches Some(wave) ==> {
                &&& wave.inv()
                &&& wave.layer == self.sources@[i].layer
                &&& wave.commit_fits(&self.sources@[i])
                &&& wave.ready_fits(&self.sources@[i])
            }
        }
    }

    /// A request's source rows: committed ones, or those of the lane's proposal.
    pub open spec fn source_view(
        &self,
        batch: &CacheBatch,
        layer: int,
        source: Option<&CompressorWave>,
        buffers: SourceBuffers,
        r: int,
        proposal: IndexProposal,
    ) -> bool {
        let i = read_source(layer)->Some_0;
        let state = &self.sources@[i];
        let planned = batch.requests@[r];
        let lease = planned.sources@[i];
        if self.reads_committed(batch, layer) {
            batch.replay_snapshot matches Some(snapshot) && state.committed_range(
                buffers,
                lease,
                planned.position,
                (planned.position + planned.work.tokens) as u64,
                snapshot,
                proposal,
            )
        } else {
            let wave = source->Some_0;
            CompressorWave::chunk_of(&wave.ready->Some_0, lease) matches Some(k)
                && wave.proposal_of(state, buffers, &wave.ready->Some_0, k, proposal)
        }
    }

    /// What attention of a layer reads for the batch.
    pub open spec fn attends(
        &self,
        batch: &CacheBatch,
        layer: int,
        window: &WindowWave,
        source: Option<&CompressorWave>,
        buffers: SourceBuffers,
        attention: CacheAttention,
    ) -> bool {
        let n = batch.requests@.len();
        &&& attention.wf()
        &&& attention.windows@.len() == n
        &&& forall|r: int|
            0 <= r < n ==> (#[trigger] attention.windows@[r]) == (WindowProposal {
                lease: batch.requests@[r].windows@[layer],
                layer: window.layer,
                position: batch.requests@[r].position,
                tokens: batch.requests@[r].work.tokens,
            })
        &&& forall|r: int|
            0 <= r < n ==> (#[trigger] attention.positions@[r])@ == plan::request_positions(
                batch.requests@[r],
            )
        &&& if read_source(layer) is Some {
            &&& attention.sources@.len() == n
            &&& forall|r: int|
                0 <= r < n ==> self.source_view(
                    batch,
                    layer,
                    source,
                    buffers,
                    r,
                    #[trigger] attention.sources@[r],
                )
        } else {
            attention.sources@.len() == 0
        }
    }

    /// Ties the layer's completed window rows and the nearest compressed source
    /// to the batch. Layers above the last source keep reading it.
    pub fn attention<'s>(
        &'s self,
        batch: &CacheBatch,
        layer: usize,
        window: &WindowWave,
        source: Option<&'s CompressorWave>,
        buffers: &SourceBuffers,
    ) -> (r: Result<CacheAttention<'s>, Error>)
        requires
            self.inv(),
            batch.wf(),
            self.readable(layer as int, source, buffers),
        ensures
            match r {
                Err(e) => self.attention_error(batch, layer as int, window, source) == Some(e),
                Ok(attention) => {
                    &&& self.attention_error(batch, layer as int, window, source) is None
                    &&& self.attends(batch, layer as int, window, source, *buffers, attention)
                },
            },
    {
        let state = match self.window(batch, layer) {
            Err(e) => {
                return Err(e);
            },
            Ok(state) => state,
        };
        let chunks = match batch.window_chunks(layer) {
            Err(e) => {
                return Err(e);
            },
            Ok(chunks) => chunks,
        };
        match window.validate_batch(state, chunks.as_slice()) {
            Err(e) => {
                return Err(e);
            },
            Ok(_) => {},
        }
        let masks: (u64, u8) = match self.publication_masks(batch) {
            Err(e) => {
                return Err(e);
            },
            Ok(masks) => masks,
        };
        let read = nearest(layer);
        let committed: bool = match read {
            Some(i) => batch.stage.reuses_sources() || source_in(masks.1, i),
            None => false,
        };
        assert(batch.requests@.len() > 0 || masks == (0u64, 0u8));
        if source.is_some() != (read.is_some() && !committed) {
            return Err(Error::SourcePresence);
        }
        let sources: Vec<IndexProposal<'s>> = match read {
            None => Vec::new(),
            Some(i) => if committed {
                match self.committed_sources(batch, layer, i, buffers) {
                    Err(e) => {
                        return Err(e);
                    },
                    Ok(sources) => sources,
                }
            } else {
                match source {
                    None => {
                        return Err(Error::SourcePresence);
                    },
                    Some(wave) => match self.proposed_sources(batch, layer, i, wave, buffers) {
                        Err(e) => {
                            return Err(e);
                        },
                        Ok(sources) => sources,
                    },
                }
            },
        };
        let mut windows: Vec<WindowProposal> = Vec::new();
        let mut positions: Vec<Vec<u64>> = Vec::new();
        let mut r: usize = 0;
        while r < chunks.len()
            invariant
                r <= chunks@.len(),
                chunks@ == batch.window_chunks_of(layer as int),
                batch.wf(),
                windows@.len() == r,
                positions@.len() == r,
                forall|k: int|
                    0 <= k < r ==> (#[trigger] windows@[k]) == (WindowProposal {
                        lease: batch.requests@[k].windows@[layer as int],
                        layer: window.layer,
                        position: batch.requests@[k].position,
                        tokens: batch.requests@[k].work.tokens,
                    }),
                forall|k: int|
                    0 <= k < r ==> (#[trigger] positions@[k])@ == plan::request_positions(
                        batch.requests@[k],
                    ),
            decreases chunks@.len() - r,
        {
            let chunk = chunks[r];
            let ghost planned = batch.requests@[r as int];
            assert(chunk == plan::window_chunk(planned, layer as int));
            windows.push(
                WindowProposal {
                    lease: chunk.lease,
                    layer: window.layer,
                    position: chunk.position,
                    tokens: chunk.tokens,
                },
            );
            let mut own: Vec<u64> = Vec::new();
            let mut t: u32 = 0;
            while t < chunk.tokens
                invariant
                    t <= chunk.tokens,
                    chunk.position == planned.position,
                    chunk.tokens == planned.work.tokens,
                    chunk.position + chunk.tokens <= MAX_CONTEXT,
                    own@ == plan::request_positions(planned).take(t as int),
                decreases chunk.tokens - t,
            {
                own.push(chunk.position + t as u64);
                t = t + 1;
                assert(own@ =~= plan::request_positions(planned).take(t as int));
            }
            assert(plan::request_positions(planned).take(t as int) =~= plan::request_positions(
                planned,
            ));
            positions.push(own);
            r = r + 1;
        }
        Ok(CacheAttention { windows, sources, positions })
    }

    fn committed_sources<'s>(
        &'s self,
        batch: &CacheBatch,
        layer: usize,
        i: usize,
        buffers: &SourceBuffers,
    ) -> (r: Result<Vec<IndexProposal<'s>>, Error>)
        requires
            self.inv(),
            batch.wf(),
            self.batch_error(batch) is None,
            read_source(layer as int) == Some(i as int),
            i < SOURCE_COUNT,
            self.reads_committed(batch, layer as int),
            buffers.serve(&self.sources@[i as int].index),
        ensures
            match r {
                Err(e) => if batch.replay_snapshot is None {
                    e == Error::MissingSnapshot
                } else {
                    self.first_committed_error(batch, i as int, batch.requests@.len() as int)
                        == Some(e)
                },
                Ok(sources) => {
                    &&& batch.replay_snapshot is Some
                    &&& self.first_committed_error(
                        batch,
                        i as int,
                        batch.requests@.len() as int,
                    ) is None
                    &&& sources@.len() == batch.requests@.len()
                    &&& forall|r: int|
                        0 <= r < sources@.len() ==> self.source_view(
                            batch,
                            layer as int,
                            None,
                            *buffers,
                            r,
                            #[trigger] sources@[r],
                        )
                },
            },
    {
        let snapshot: u64 = match batch.replay_snapshot {
            None => {
                return Err(Error::MissingSnapshot);
            },
            Some(snapshot) => snapshot,
        };
        let mut sources: Vec<IndexProposal<'s>> = Vec::new();
        let mut r: usize = 0;
        while r < batch.requests.len()
            invariant
                r <= batch.requests@.len(),
                self.inv(),
                batch.wf(),
                self.batch_error(batch) is None,
                read_source(layer as int) == Some(i as int),
                i < SOURCE_COUNT,
                self.reads_committed(batch, layer as int),
                buffers.serve(&self.sources@[i as int].index),
                batch.replay_snapshot == Some(snapshot),
                self.first_committed_error(batch, i as int, r as int) is None,
                sources@.len() == r,
                forall|k: int|
                    0 <= k < r ==> self.source_view(
                        batch,
                        layer as int,
                        None,
                        *buffers,
                        k,
                        #[trigger] sources@[k],
                    ),
            decreases batch.requests@.len() - r,
        {
            let planned = &batch.requests[r];
            proof {
                if self.first_committed_error(batch, i as int, r + 1) is Some {
                    self.lemma_committed_error_stays(
                        batch,
                        i as int,
                        r + 1,
                        batch.requests@.len() as int,
                    );
                }
            }
            match self.sources[i].committed_proposal(
                buffers,
                planned.sources[i],
                planned.position,
                planned.position + planned.work.tokens as u64,
                snapshot,
            ) {
                Err(e) => {
                    return Err(e);
                },
                Ok(proposal) => {
                    assert(self.source_view(batch, layer as int, None, *buffers, r as int, proposal));
                    sources.push(proposal);
                },
            }
            r = r + 1;
        }
        Ok(sources)
    }

    fn proposed_sources<'s>(
        &'s self,
        batch: &CacheBatch,
        layer: usize,
        i: usize,
        wave: &'s CompressorWave,
        buffers: &SourceBuffers,
    ) -> (r: Result<Vec<IndexProposal<'s>>, Error>)
        requires
            self.inv(),
            batch.wf(),
            self.batch_error(batch) is None,
            read_source(layer as int) == Some(i as int),
            i < SOURCE_COUNT,
            !self.reads_committed(batch, layer as int),
            self.readable(layer as int, Some(wave), buffers),
        ensures
            match r {
                Err(e) => self.wave_error(batch, i as int, wave) == Some(e),
                Ok(sources) => {
                    &&& self.wave_error(batch, i as int, wave) is None
                    &&& sources@.len() == batch.requests@.len()
                    &&& forall|r: int|
                        0 <= r < sources@.len() ==> self.source_view(
                            batch,
                            layer as int,
                            Some(wave),
                            *buffers,
                            r,
                            #[trigger] sources@[r],
                        )
                },
            },
    {
        let state = &self.sources[i];
        let chunks = match batch.source_chunks(backbone_cache::source_at(i)) {
            Err(e) => {
                assert(false);
                return Err(e);
            },
            Ok(chunks) => chunks,
        };
        match wave.validate_batch(state, chunks.as_slice()) {
            Err(e) => {
                return Err(e);
            },
            Ok(_) => {},
        }
        let mut sources: Vec<IndexProposal<'s>> = Vec::new();
        let mut r: usize = 0;
        while r < chunks.len()
            invariant
                r <= chunks@.len(),
                self.inv(),
                batch.wf(),
                chunks@ == batch.source_chunks_of(i as int),
                read_source(layer as int) == Some(i as int),
                i < SOURCE_COUNT,
                *state == self.sources@[i as int],
                !self.reads_committed(batch, layer as int),
                self.readable(layer as int, Some(wave), buffers),
                (if wave.pending_commit is Some {
                    wave.pending_error(state)
                } else {
                    wave.output_error(state)
                }) is None,
                wave.current()->Some_0.chunks@ == batch.source_chunks_of(i as int),
                sources@.len() == r,
                r > 0 ==> wave.output_error(state) is None,
                forall|k: int| 0 <= k < r ==> !#[trigger] self.absent(batch, i as int, wave, k),
                forall|k: int|
                    0 <= k < r ==> self.source_view(
                        batch,
                        layer as int,
                        Some(wave),
                        *buffers,
                        k,
                        #[trigger] sources@[k],
                    ),
            decreases chunks@.len() - r,
        {
            assert(chunks@[r as int].lease == batch.requests@[r as int].sources@[i as int]);
            match wave.index_proposal(state, buffers, chunks[r].lease) {
                Err(e) => {
                    proof {
                        if wave.output_error(state) is None {
                            assert(self.absent(batch, i as int, wave, r as int));
                        }
                    }
                    return Err(e);
                },
                Ok(proposal) => {
                    sources.push(proposal);
                },
            }
            r = r + 1;
        }
        Ok(sources)
    }
}

} // verus!
