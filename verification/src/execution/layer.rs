//! One layer of a pass: what is produced, read, selected and published, and in
//! which order passes may go on.
use crate::backbone_cache::attention::CacheAttention;
use crate::backbone_cache::plan;
use crate::backbone_cache::plan::{CacheBatch, ExpertRow};
use crate::backbone_cache::{BackboneCache, LAYERS, SOURCE_COUNT};
use crate::cache_phase::CacheStage;
use crate::compressor::commit::CommitWork;
use crate::compressor::wave::CompressorWave;
use crate::error::Error;
use crate::execution;
use crate::execution::production;
use crate::execution::production::{source_to_produce, source_to_read, Produced};
use crate::execution::progress::PassProgress;
use crate::execution::{is_index_layer, BackboneExecution};
use crate::source_cache::layout::SourceBuffers;
use vstd::prelude::*;

verus! {

/// What has to be done for one layer, up to its feed-forward input.
pub struct LayerPlan {
    pub batch: u64,
    pub layer: usize,
    pub rows: Vec<ExpertRow>,
    /// The window has not been produced yet.
    pub produce_window: bool,
    /// The source to produce.
    pub produce_source: Option<usize>,
    /// The source whose rows are published before attention.
    pub publish_source: Option<usize>,
    /// The source whose proposal attention reads.
    pub read_source: Option<usize>,
    pub select_index: bool,
    /// The window's rows are published after attention.
    pub publish_window: bool,
    /// Attention is queued, not waited for.
    pub cooperative: bool,
}

/// The layer whose experts have answered.
#[derive(Debug, Clone, Copy, PartialEq, Eq, Structural)]
pub struct CompletedLayer {
    pub batch: u64,
    pub layer: usize,
}

impl BackboneExecution {
    /// Why the next layer cannot be prepared. `query` is the layer of the lane's
    /// completed query.
    pub open spec fn prepare_error(
        &self,
        bank: &BackboneCache,
        batch: &CacheBatch,
        query: Result<usize, Error>,
        publishing: bool,
    ) -> Option<Error> {
        if !self.progress.can_begin(batch.identity, self.progress.next) {
            Some(Error::PassDiffers)
        } else if batch.stage != self.progress.stage {
            Some(Error::ExecutionPhase)
        } else if bank.batch_error(batch) is Some {
            bank.batch_error(batch)
        } else {
            match query {
                Err(e) => Some(e),
                Ok(layer) => if layer != self.progress.next {
                    Some(Error::QueryPassLayer)
                } else {
                    match self.queued_production {
                        Some(p) => if p.batch != batch.identity || p.layer != layer || publishing {
                            Some(Error::ProductionIdentity)
                        } else {
                            None
                        },
                        None => None,
                    }
                },
            }
        }
    }

    /// The layer's plan, given what was produced beforehand.
    pub open spec fn is_plan(
        &self,
        batch: &CacheBatch,
        publishing: bool,
        cooperative: bool,
        plan: LayerPlan,
    ) -> bool {
        let layer = self.progress.next as int;
        let produced = self.queued_production;
        let source = production::produced_source(batch, layer);
        &&& plan.batch == batch.identity
        &&& plan.layer == layer
        &&& plan.rows@ == plan::batch_rows(batch.requests@, batch.requests@.len() as int)
        &&& plan.produce_window == (produced is None)
        &&& production::same_index(
            plan.produce_source,
            if produced is None {
                source
            } else {
                None
            },
        )
        &&& production::same_index(
            plan.publish_source,
            if publishing {
                source
            } else {
                None
            },
        )
        &&& production::same_index(
            plan.read_source,
            production::proposed_source(batch, layer, publishing),
        )
        &&& plan.select_index == (execution::selects_index(layer) && !(produced matches Some(p)
            && p.indexed))
        &&& plan.publish_window == publishing
        &&& plan.cooperative == cooperative
    }

    /// Begins the pass's next layer. Until the layer is complete the pass is
    /// invalid, also where this fails.
    pub fn prepare_layer_with_cache(
        &mut self,
        bank: &BackboneCache,
        batch: &CacheBatch,
        query: Result<usize, Error>,
        publishing: bool,
        cooperative: bool,
    ) -> (r: Result<LayerPlan, Error>)
        requires
            bank.inv(),
            batch.wf(),
        ensures
            final(self).same_producers(old(self)),
            final(self).queued_production is None,
            final(self).progress == (PassProgress {
                invalid: true,
                batch: if old(self).progress.can_begin(batch.identity, old(self).progress.next) {
                    Some(batch.identity)
                } else {
                    old(self).progress.batch
                },
                ..old(self).progress
            }),
            match r {
                Err(e) => old(self).prepare_error(bank, batch, query, publishing) == Some(e),
                Ok(plan) => {
                    &&& old(self).prepare_error(bank, batch, query, publishing) is None
                    &&& old(self).is_plan(batch, publishing, cooperative, plan)
                },
            },
    {
        let produced: Option<Produced> = self.queued_production;
        self.queued_production = None;
        let layer: usize = self.progress.next;
        match self.progress.begin(batch.identity, layer) {
            Err(e) => {
                return Err(e);
            },
            Ok(_) => {},
        }
        if batch.stage != self.progress.stage {
            return Err(Error::ExecutionPhase);
        }
        match bank.validate_batch(batch) {
            Err(e) => {
                return Err(e);
            },
            Ok(_) => {},
        }
        match query {
            Err(e) => {
                return Err(e);
            },
            Ok(asked) => {
                if asked != layer {
                    return Err(Error::QueryPassLayer);
                }
            },
        }
        let mut indexed: bool = false;
        if let Some(p) = produced {
            if p.batch != batch.identity || p.layer != layer || publishing {
                return Err(Error::ProductionIdentity);
            }
            indexed = p.indexed;
        }
        let source = source_to_produce(batch, layer);
        Ok(
            LayerPlan {
                batch: batch.identity,
                layer,
                rows: batch.expert_rows(),
                produce_window: produced.is_none(),
                produce_source: if produced.is_none() {
                    source
                } else {
                    None
                },
                publish_source: if publishing {
                    source
                } else {
                    None
                },
                read_source: source_to_read(batch, layer, publishing),
                select_index: is_index_layer(layer) && !indexed,
                publish_window: publishing,
                cooperative,
            },
        )
    }

    /// Prepares a layer whose proposals stay private until the commit.
    pub fn prepare_layer(
        &mut self,
        bank: &BackboneCache,
        batch: &CacheBatch,
        query: Result<usize, Error>,
    ) -> (r: Result<LayerPlan, Error>)
        requires
            bank.inv(),
            batch.wf(),
        ensures
            final(self).same_producers(old(self)),
            final(self).queued_production is None,
            final(self).progress == (PassProgress {
                invalid: true,
                batch: if old(self).progress.can_begin(batch.identity, old(self).progress.next) {
                    Some(batch.identity)
                } else {
                    old(self).progress.batch
                },
                ..old(self).progress
            }),
            match r {
                Err(e) => old(self).prepare_error(bank, batch, query, false) == Some(e),
                Ok(plan) => {
                    &&& old(self).prepare_error(bank, batch, query, false) is None
                    &&& old(self).is_plan(batch, false, false, plan)
                },
            },
    {
        self.prepare_layer_with_cache(bank, batch, query, false, false)
    }

    /// As `prepare_layer`, with attention queued. The caller keeps the cache
    /// slots, the producers and the index until that work is complete.
    pub fn prepare_layer_cooperative(
        &mut self,
        bank: &BackboneCache,
        batch: &CacheBatch,
        query: Result<usize, Error>,
    ) -> (r: Result<LayerPlan, Error>)
        requires
            bank.inv(),
            batch.wf(),
        ensures
            final(self).same_producers(old(self)),
            final(self).queued_production is None,
            final(self).progress == (PassProgress {
                invalid: true,
                batch: if old(self).progress.can_begin(batch.identity, old(self).progress.next) {
                    Some(batch.identity)
                } else {
                    old(self).progress.batch
                },
                ..old(self).progress
            }),
            match r {
                Err(e) => old(self).prepare_error(bank, batch, query, false) == Some(e),
                Ok(plan) => {
                    &&& old(self).prepare_error(bank, batch, query, false) is None
                    &&& old(self).is_plan(batch, false, true, plan)
                },
            },
    {
        self.prepare_layer_with_cache(bank, batch, query, false, true)
    }

    /// Prepares a layer of a reserved encoder chunk: its source and window rows
    /// are published at once, for all later readers.
    pub fn prepare_encoder_layer(
        &mut self,
        bank: &BackboneCache,
        batch: &CacheBatch,
        query: Result<usize, Error>,
    ) -> (r: Result<LayerPlan, Error>)
        requires
            bank.inv(),
            batch.wf(),
        ensures
            final(self).same_producers(old(self)),
            if !batch.reserved || batch.stage != CacheStage::Encoder {
                &&& r matches Err(e) && e == Error::PublishedExecution
                &&& *final(self) == *old(self)
            } else {
                &&& final(self).queued_production is None
                &&& final(self).progress == (PassProgress {
                    invalid: true,
                    batch: if old(self).progress.can_begin(batch.identity, old(self).progress.next) {
                        Some(batch.identity)
                    } else {
                        old(self).progress.batch
                    },
                    ..old(self).progress
                })
                &&& match r {
                    Err(e) => old(self).prepare_error(bank, batch, query, true) == Some(e),
                    Ok(plan) => {
                        &&& old(self).prepare_error(bank, batch, query, true) is None
                        &&& old(self).is_plan(batch, true, false, plan)
                    },
                }
            },
    {
        if !(batch.reserved && batch.stage == CacheStage::Encoder) {
            return Err(Error::PublishedExecution);
        }
        self.prepare_layer_with_cache(bank, batch, query, true, false)
    }

    /// The proposal that the layer's attention reads.
    pub open spec fn read_wave(&self, source: Option<usize>) -> Option<&CompressorWave> {
        match source {
            Some(i) => Some(&self.sources@[i as int]),
            None => None,
        }
    }

    /// What the planned layer's attention reads, once everything is produced.
    pub fn layer_attention<'s>(
        &'s self,
        bank: &'s BackboneCache,
        batch: &CacheBatch,
        layer: usize,
        read_source: Option<usize>,
        buffers: &SourceBuffers,
    ) -> (r: Result<CacheAttention<'s>, Error>)
        requires
            self.inv(),
            bank.inv(),
            batch.wf(),
            layer < LAYERS,
            read_source matches Some(i) ==> i < SOURCE_COUNT,
            bank.readable(layer as int, self.read_wave(read_source), buffers),
        ensures
            match r {
                Err(e) => bank.attention_error(
                    batch,
                    layer as int,
                    &self.windows@[layer as int],
                    self.read_wave(read_source),
                ) == Some(e),
                Ok(attention) => {
                    &&& bank.attention_error(
                        batch,
                        layer as int,
                        &self.windows@[layer as int],
                        self.read_wave(read_source),
                    ) is None
                    &&& bank.attends(
                        batch,
                        layer as int,
                        &self.windows@[layer as int],
                        self.read_wave(read_source),
                        *buffers,
                        attention,
                    )
                },
            },
    {
        match read_source {
            Some(i) => bank.attention(
                batch,
                layer,
                &self.windows[layer],
                Some(&self.sources[i]),
                buffers,
            ),
            None => bank.attention(batch, layer, &self.windows[layer], None, buffers),
        }
    }

    /// The completed layer is the one that the pass has begun.
    pub open spec fn completes(&self, batch: &CacheBatch, completed: CompletedLayer) -> bool {
        &&& self.progress.invalid
        &&& self.progress.batch == Some(completed.batch)
        &&& batch.identity == completed.batch
        &&& self.progress.next == completed.layer
        &&& self.progress.stage == batch.stage
    }

    /// Ends the layer, once the lane has taken its output (`finished`). A failure
    /// leaves the pass invalid.
    pub fn complete_layer(
        &mut self,
        batch: &CacheBatch,
        completed: CompletedLayer,
        finished: Result<(), Error>,
    ) -> (r: Result<(), Error>)
        requires
            completed.layer < LAYERS,
        ensures
            if !old(self).completes(batch, completed) {
                &&& r matches Err(e) && e == Error::CompletedLayer
                &&& *final(self) == *old(self)
            } else {
                match finished {
                    Err(e) => r == Err::<(), Error>(e) && *final(self) == *old(self),
                    Ok(_) => {
                        &&& r is Ok
                        &&& final(self).same_producers(old(self))
                        &&& final(self).queued_production == old(self).queued_production
                        &&& final(self).progress == (PassProgress {
                            next: (completed.layer + 1) as usize,
                            invalid: false,
                            ..old(self).progress
                        })
                    },
                }
            },
    {
        let same: bool = match self.progress.batch {
            Some(id) => id == completed.batch,
            None => false,
        };
        if !(self.progress.invalid && same && batch.identity == completed.batch
            && self.progress.next == completed.layer && self.progress.stage == batch.stage) {
            return Err(Error::CompletedLayer);
        }
        match finished {
            Err(e) => {
                return Err(e);
            },
            Ok(_) => {},
        }
        self.progress.finish();
        Ok(())
    }

    /// Why the encoder's boundary source cannot be produced.
    pub open spec fn boundary_error(
        &self,
        bank: &BackboneCache,
        batch: &CacheBatch,
        query: Result<usize, Error>,
        publishing: bool,
    ) -> Option<Error> {
        if !self.progress.can_begin_decoder_source(batch.identity) {
            Some(Error::DecoderSource)
        } else if publishing && !(batch.reserved && batch.stage == CacheStage::Encoder) {
            Some(Error::BoundaryReserved)
        } else if batch.stage != CacheStage::Encoder {
            Some(Error::DecoderSourcePhase)
        } else if bank.batch_error(batch) is Some {
            bank.batch_error(batch)
        } else {
            match query {
                Err(e) => Some(e),
                Ok(layer) => if layer == 20 {
                    None
                } else if publishing {
                    Some(Error::BoundaryLayer)
                } else {
                    Some(Error::DecoderSourceLayer)
                },
            }
        }
    }

    /// Begins source 20 of a complete reserved encoder chunk; its rows are
    /// published. Returns the source to produce.
    pub fn publish_encoder_boundary(
        &mut self,
        bank: &BackboneCache,
        batch: &CacheBatch,
        query: Result<usize, Error>,
    ) -> (r: Result<usize, Error>)
        requires
            bank.inv(),
            batch.wf(),
        ensures
            final(self).same_producers(old(self)),
            final(self).queued_production == old(self).queued_production,
            final(self).progress == (PassProgress { invalid: true, ..old(self).progress }),
            match r {
                Err(e) => old(self).boundary_error(bank, batch, query, true) == Some(e),
                Ok(source) => {
                    &&& old(self).boundary_error(bank, batch, query, true) is None
                    &&& plan::source_of(20) == Some(source as int)
                },
            },
    {
        match self.progress.begin_decoder_source(batch.identity) {
            Err(e) => {
                return Err(e);
            },
            Ok(_) => {},
        }
        if !(batch.reserved && batch.stage == CacheStage::Encoder) {
            return Err(Error::BoundaryReserved);
        }
        match bank.validate_batch(batch) {
            Err(e) => {
                return Err(e);
            },
            Ok(_) => {},
        }
        match query {
            Err(e) => Err(e),
            Ok(layer) => if layer == 20 {
                Ok(3)
            } else {
                Err(Error::BoundaryLayer)
            },
        }
    }

    /// Begins global source 20 from the prepared encoder boundary, without any
    /// decoder work. Returns the source to produce.
    pub fn produce_decoder_source(
        &mut self,
        bank: &BackboneCache,
        batch: &CacheBatch,
        query: Result<usize, Error>,
    ) -> (r: Result<usize, Error>)
        requires
            bank.inv(),
            batch.wf(),
        ensures
            final(self).same_producers(old(self)),
            final(self).queued_production == old(self).queued_production,
            final(self).progress == (PassProgress { invalid: true, ..old(self).progress }),
            match r {
                Err(e) => old(self).boundary_error(bank, batch, query, false) == Some(e),
                Ok(source) => {
                    &&& old(self).boundary_error(bank, batch, query, false) is None
                    &&& plan::source_of(20) == Some(source as int)
                },
            },
    {
        match self.progress.begin_decoder_source(batch.identity) {
            Err(e) => {
                return Err(e);
            },
            Ok(_) => {},
        }
        if batch.stage != CacheStage::Encoder {
            return Err(Error::DecoderSourcePhase);
        }
        match bank.validate_batch(batch) {
            Err(e) => {
                return Err(e);
            },
            Ok(_) => {},
        }
        match query {
            Err(e) => Err(e),
            Ok(layer) => if layer == 20 {
                Ok(3)
            } else {
                Err(Error::DecoderSourceLayer)
            },
        }
    }

    /// The source that was begun is complete.
    pub fn finish_decoder_source(&mut self)
        ensures
            final(self).same_producers(old(self)),
            final(self).queued_production == old(self).queued_production,
            final(self).progress == (PassProgress {
                source_ready: true,
                invalid: false,
                ..old(self).progress
            }),
    {
        self.progress.finish_decoder_source();
    }
}

impl BackboneExecution {
    /// Whether all windows' accepted rows are stored at once. Encoder
    /// publication, replicated windows and windows already queued go one by one.
    pub fn stage_window_batch(
        &self,
        bank: &BackboneCache,
        batch: &CacheBatch,
        accepted: &[u32],
        replicated: bool,
    ) -> (r: Result<bool, Error>)
        requires
            bank.inv(),
            batch.wf(),
            bank.lanes_fit(self.windows@, self.sources@),
        ensures
            if !self.batched_windows || batch.stage != CacheStage::Full || replicated
                || self.queued_window(self.windows@.len() as int) {
                r == Ok::<bool, Error>(false)
            } else {
                match bank.commit_error(batch, self.windows@, self.sources@, accepted@) {
                    Some(reason) => r == Err::<bool, Error>(reason),
                    None => r == Ok::<bool, Error>(bank.batch_masks(batch).0 == 0),
                }
            },
    {
        if !self.batched_windows || batch.stage != CacheStage::Full || replicated {
            return Ok(false);
        }
        let mut l: usize = 0;
        while l < self.windows.len()
            invariant
                l <= self.windows@.len(),
                !self.queued_window(l as int),
                self.batched_windows && batch.stage == CacheStage::Full && !replicated,
            decreases self.windows@.len() - l,
        {
            if self.windows[l].has_pending_commit() {
                assert(self.windows@[l as int].pending is Some);
                return Ok(false);
            }
            l = l + 1;
        }
        match bank.validate_commit(
            batch,
            self.windows.as_slice(),
            self.sources.as_slice(),
            accepted,
        ) {
            Err(e) => Err(e),
            Ok(masks) => Ok(masks.0 == 0),
        }
    }

    /// One of the first `n` windows has a commit under way.
    pub open spec fn queued_window(&self, n: int) -> bool {
        exists|l: int| 0 <= l < n && (#[trigger] self.windows@[l]).pending is Some
    }

    /// Starts writing the accepted rows.
    pub fn enqueue_cache_commit(
        &mut self,
        bank: &mut BackboneCache,
        batch: &CacheBatch,
        accepted: &[u32],
    ) -> (r: Result<Vec<(usize, CommitWork)>, Error>)
        requires
            old(bank).inv(),
            batch.wf(),
            old(bank).lanes_fit(old(self).windows@, old(self).sources@),
        ensures
            final(bank).inv(),
            final(bank).same_books(old(bank)),
            final(bank).poisoned == old(bank).poisoned,
            final(bank).lanes_fit(final(self).windows@, final(self).sources@),
            final(self).progress == old(self).progress,
            final(self).queued_production == old(self).queued_production,
            final(self).batched_windows == old(self).batched_windows,
            final(bank).commit_queued(
                old(bank),
                batch,
                final(self).windows@,
                old(self).windows@,
                final(self).sources@,
                old(self).sources@,
                accepted@,
                false,
                r,
            ),
    {
        bank.enqueue_cache_commit(batch, &mut self.windows, &mut self.sources, accepted)
    }

    /// Publishes the accepted rows of a complete pass. The pass is over either
    /// way.
    pub fn commit(
        &mut self,
        bank: &mut BackboneCache,
        batch: &CacheBatch,
        accepted: &[u32],
        window_done: &[bool],
        source_done: &[bool],
    ) -> (r: Result<(), Error>)
        requires
            old(bank).inv(),
            batch.wf(),
            old(bank).lanes_fit(old(self).windows@, old(self).sources@),
            window_done@.len() == LAYERS,
            source_done@.len() == SOURCE_COUNT,
        ensures
            final(bank).inv(),
            final(bank).lanes_fit(final(self).windows@, final(self).sources@),
            final(self).progress == (PassProgress { invalid: true, ..old(self).progress }),
            final(self).queued_production == old(self).queued_production,
            final(self).batched_windows == old(self).batched_windows,
            match old(self).pass_error(batch) {
                Some(reason) => {
                    &&& r == Err::<(), Error>(reason)
                    &&& *final(bank) == *old(bank)
                    &&& final(self).same_producers(old(self))
                },
                None => final(bank).commit_ended(
                    old(bank),
                    batch,
                    final(self).windows@,
                    old(self).windows@,
                    final(self).sources@,
                    old(self).sources@,
                    accepted@,
                    window_done@,
                    source_done@,
                    r,
                ),
            },
    {
        match self.progress.commit(batch.identity) {
            Err(e) => {
                return Err(e);
            },
            Ok(_) => {},
        }
        if batch.stage != self.progress.stage {
            return Err(Error::CommitPhase);
        }
        bank.commit(
            batch,
            &mut self.windows,
            &mut self.sources,
            accepted,
            window_done,
            source_done,
        )
    }

    /// Queues the commit of a complete pass that is completed at once. The pass is
    /// over either way.
    pub fn begin_direct_commit(
        &mut self,
        bank: &mut BackboneCache,
        batch: &CacheBatch,
        accepted: &[u32],
    ) -> (r: Result<Vec<(usize, CommitWork)>, Error>)
        requires
            old(bank).inv(),
            batch.wf(),
            old(bank).lanes_fit(old(self).windows@, old(self).sources@),
        ensures
            final(bank).inv(),
            final(bank).lanes_fit(final(self).windows@, final(self).sources@),
            final(self).progress == (PassProgress { invalid: true, ..old(self).progress }),
            final(self).queued_production == old(self).queued_production,
            final(self).batched_windows == old(self).batched_windows,
            match old(self).pass_error(batch) {
                Some(reason) => {
                    &&& r == Err::<Vec<(usize, CommitWork)>, Error>(reason)
                    &&& *final(bank) == *old(bank)
                    &&& final(self).same_producers(old(self))
                },
                None => final(bank).direct_begun(
                    old(bank),
                    batch,
                    final(self).windows@,
                    old(self).windows@,
                    final(self).sources@,
                    old(self).sources@,
                    accepted@,
                    r,
                ),
            },
    {
        match self.progress.commit(batch.identity) {
            Err(e) => {
                return Err(e);
            },
            Ok(_) => {},
        }
        if batch.stage != self.progress.stage {
            return Err(Error::CommitPhase);
        }
        bank.begin_direct_commit(batch, &mut self.windows, &mut self.sources, accepted)
    }

    /// Publishes or gives up what `begin_direct_commit` has queued; `work` is how
    /// the device work went.
    pub fn finish_direct_commit(
        &mut self,
        bank: &mut BackboneCache,
        batch: &CacheBatch,
        accepted: &[u32],
        work: Result<(), Error>,
    ) -> (r: Result<(), Error>)
        requires
            old(bank).inv(),
            batch.wf(),
            old(bank).lanes_fit(old(self).windows@, old(self).sources@),
            old(self).windows@.len() == LAYERS,
            old(self).sources@.len() == SOURCE_COUNT,
        ensures
            final(bank).inv(),
            final(bank).lanes_fit(final(self).windows@, final(self).sources@),
            final(self).progress == old(self).progress,
            final(self).queued_production == old(self).queued_production,
            final(self).batched_windows == old(self).batched_windows,
            final(bank).direct_ended(
                old(bank),
                batch,
                final(self).windows@,
                old(self).windows@,
                final(self).sources@,
                old(self).sources@,
                accepted@,
                work,
                r,
            ),
    {
        bank.finish_direct_commit(batch, &mut self.windows, &mut self.sources, accepted, work)
    }

    /// Why the pass cannot be committed.
    pub open spec fn pass_error(&self, batch: &CacheBatch) -> Option<Error> {
        if !self.progress.can_commit(batch.identity) {
            Some(Error::PassIncomplete)
        } else if batch.stage != self.progress.stage {
            Some(Error::CommitPhase)
        } else {
            None
        }
    }
}

/// Preparing a layer and completing it takes the pass exactly one layer on.
pub proof fn law_completed_layer_moves_on(
    start: &BackboneExecution,
    begun: &BackboneExecution,
    done: &BackboneExecution,
    bank: &BackboneCache,
    batch: &CacheBatch,
    query: Result<usize, Error>,
    publishing: bool,
)
    requires
        start.prepare_error(bank, batch, query, publishing) is None,
        begun.progress == (PassProgress {
            invalid: true,
            batch: Some(batch.identity),
            ..start.progress
        }),
        done.progress == (PassProgress {
            next: (start.progress.next + 1) as usize,
            invalid: false,
            ..begun.progress
        }),
    ensures
        begun.completes(
            batch,
            CompletedLayer { batch: batch.identity, layer: start.progress.next },
        ),
        !begun.progress.can_begin(batch.identity, begun.progress.next),
        !begun.progress.can_commit(batch.identity),
        start.progress.next + 1 < batch.stage.end_window() ==> done.progress.can_begin(
            batch.identity,
            done.progress.next,
        ),
        start.progress.next + 1 == batch.stage.end_window() && batch.stage != CacheStage::Encoder
            ==> done.progress.can_commit(batch.identity),
{
}

} // verus!
