//! A pass whose layers run on two devices, and the progress of its transaction.
use crate::attention_query::AttentionQueryOutput;
use crate::backbone_cache::attention::CacheAttention;
use crate::backbone_cache::plan;
use crate::backbone_cache::plan::{CacheBatch, ExpertRow};
use crate::backbone_cache::publish;
use crate::backbone_cache::{BackboneCache, LAYERS, SOURCE_COUNT};
use crate::cache_phase::CacheStage;
use crate::compressor::commit::CommitWork;
use crate::compressor::wave::CompressorWave;
use crate::error::Error;
use crate::execution;
use crate::execution::is_index_layer;
use crate::execution::layer::CompletedLayer;
use crate::execution::production;
use crate::execution::production::{
    source_to_read, start, PendingProduction, Produced, ProductionAction, ProductionEvents,
};
use crate::execution::progress::PassProgress;
use crate::source_cache::layout::SourceBuffers;
use crate::window::WindowWave;
use vstd::prelude::*;

verus! {

pub struct DistributedExecution {
    pub windows: Vec<WindowWave>,
    pub sources: Vec<CompressorWave>,
    pub progress: PassProgress,
    pub produced: Option<Produced>,
    /// The batch and layer whose window rows are being published.
    pub publication: Option<(u64, usize)>,
}

/// A layer ready for attention.
pub struct PlacedLayer {
    pub batch: u64,
    pub layer: usize,
    pub rows: Vec<ExpertRow>,
    pub read_source: Option<usize>,
}

impl DistributedExecution {
    pub open spec fn inv(&self) -> bool {
        &&& self.windows@.len() == LAYERS
        &&& self.sources@.len() == SOURCE_COUNT
    }

    pub open spec fn same_producers(&self, before: &Self) -> bool {
        &&& self.windows == before.windows
        &&& self.sources == before.sources
    }

    pub fn new(windows: Vec<WindowWave>, sources: Vec<CompressorWave>) -> (r: Self)
        requires
            windows@.len() == LAYERS,
            sources@.len() == SOURCE_COUNT,
        ensures
            r.inv(),
            r.windows == windows,
            r.sources == sources,
            r.progress == PassProgress::started(CacheStage::Full),
            r.produced is None,
            r.publication is None,
    {
        DistributedExecution {
            windows,
            sources,
            progress: PassProgress::for_stage(CacheStage::Full),
            produced: None,
            publication: None,
        }
    }

    /// Starts over, once all readers and writers are done.
    pub fn restart_for(&mut self, stage: CacheStage)
        ensures
            *final(self) == (DistributedExecution {
                progress: PassProgress::started(stage),
                produced: None,
                ..*old(self)
            }),
    {
        self.progress = PassProgress::for_stage(stage);
        self.produced = None;
    }

    /// The step that the query's layer asks of the pass is possible.
    pub open spec fn can_start(&self, batch: &CacheBatch, layer: usize) -> bool {
        if batch.stage == CacheStage::Encoder && layer == 20 {
            self.progress.can_begin_decoder_source(batch.identity)
        } else {
            self.progress.can_begin(batch.identity, layer)
        }
    }

    /// Why the production cannot start. Nothing has been queued then.
    pub open spec fn production_error(
        &self,
        batch: &CacheBatch,
        query: Result<&AttentionQueryOutput, Error>,
        indexed: bool,
    ) -> Option<Error> {
        if self.produced is Some || batch.stage != self.progress.stage {
            Some(Error::DistributedPhase)
        } else if self.publication is Some {
            Some(Error::PublicationRunning)
        } else {
            match query {
                Err(e) => Some(e),
                Ok(query) => if !self.can_start(batch, query.layer) {
                    if batch.stage == CacheStage::Encoder && query.layer == 20 {
                        Some(Error::DecoderSource)
                    } else {
                        Some(Error::PassDiffers)
                    }
                } else if indexed != (execution::selects_index(query.layer as int)
                    && batch.stage.has_window(query.layer as int)) {
                    Some(Error::DistributedIndex)
                } else {
                    None
                },
            }
        }
    }

    /// The production has come far enough to make the pass invalid.
    pub open spec fn disturbs(
        &self,
        batch: &CacheBatch,
        query: Result<&AttentionQueryOutput, Error>,
    ) -> bool {
        &&& self.produced is None
        &&& batch.stage == self.progress.stage
        &&& self.publication is None
        &&& query is Ok
    }

    /// The pass after a layer was to be begun: it belongs to the batch once the step
    /// was possible.
    pub open spec fn progress_after(
        &self,
        batch: &CacheBatch,
        query: Result<&AttentionQueryOutput, Error>,
    ) -> PassProgress {
        if self.disturbs(batch, query) {
            PassProgress {
                batch: if self.can_start(batch, query->Ok_0.layer) {
                    Some(batch.identity)
                } else {
                    self.progress.batch
                },
                invalid: true,
                ..self.progress
            }
        } else {
            self.progress
        }
    }

    /// How queueing the layer's window went; a layer without one has nothing to
    /// queue.
    pub open spec fn window_start(batch: &CacheBatch, layer: int, window: Result<(), Error>) -> Result<
        (),
        Error,
    > {
        if batch.stage.has_window(layer) {
            window
        } else {
            Ok(())
        }
    }

    /// Begins the layer of the lane's query, or the encoder's boundary source: the
    /// source's wave then has the batch's chunks queued. `indexed` tells whether
    /// index rows are selected beside it, `window` how queueing the window went;
    /// `home` and `carry` are the devices of the source and of its carried rows.
    /// Executions to destroy are added to `gone`.
    pub fn enqueue_production(
        &mut self,
        bank: &BackboneCache,
        batch: &CacheBatch,
        query: Result<&AttentionQueryOutput, Error>,
        indexed: bool,
        home: i32,
        carry: Option<i32>,
        next_snapshot: &mut u64,
        window: Result<(), Error>,
        gone: &mut Vec<u64>,
    ) -> (r: Result<PendingProduction, Error>)
        requires
            old(self).inv(),
            production::waves_wf(old(self).sources@),
            bank.inv(),
            batch.wf(),
        ensures
            final(self).inv(),
            production::waves_wf(final(self).sources@),
            final(self).windows == old(self).windows,
            final(self).produced == old(self).produced,
            final(self).publication == old(self).publication,
            final(self).progress == old(self).progress_after(batch, query),
            match old(self).production_error(batch, query, indexed) {
                Some(reason) => {
                    &&& r == Err::<PendingProduction, Error>(reason)
                    &&& final(self).sources == old(self).sources
                    &&& *final(next_snapshot) == *old(next_snapshot)
                    &&& final(gone)@ == old(gone)@
                },
                None => {
                    let query = *query->Ok_0;
                    let layer = query.layer as int;
                    let begun = Self::window_start(batch, layer, window);
                    &&& *final(next_snapshot) == production::number_after(
                        old(self).sources@,
                        bank,
                        batch,
                        query,
                        home,
                        carry,
                        *old(next_snapshot),
                        begun,
                    )
                    &&& match production::start_error(
                        old(self).sources@,
                        bank,
                        batch,
                        query,
                        home,
                        carry,
                        *old(next_snapshot),
                        begun,
                    ) {
                        Some(reason) => {
                            &&& r == Err::<PendingProduction, Error>(reason)
                            &&& final(self).sources@ == production::cancelled(
                                old(self).sources@,
                                production::produced_source(batch, layer),
                            )
                            &&& final(gone)@ == old(gone)@
                        },
                        None => {
                            &&& production::started(
                                final(self).sources@,
                                old(self).sources@,
                                bank,
                                batch,
                                query,
                                *old(next_snapshot),
                            )
                            &&& final(gone)@ == old(gone)@ + production::executions_gone(
                                old(self).sources@,
                                bank,
                                batch,
                                query,
                            )
                            &&& r matches Ok(pending) && {
                                &&& pending.batch == batch.identity
                                &&& pending.layer == layer
                                &&& production::same_index(
                                    pending.source,
                                    production::produced_source(batch, layer),
                                )
                                &&& pending.window_ready == !batch.stage.has_window(layer)
                                &&& pending.source_ready == pending.source is None
                                &&& pending.indexing == indexed
                                &&& pending.projection_ready == !indexed
                                &&& !pending.selection_started
                                &&& !pending.complete
                            }
                        },
                    }
                },
            },
    {
        if self.produced.is_some() || batch.stage != self.progress.stage {
            return Err(Error::DistributedPhase);
        }
        if self.publication.is_some() {
            return Err(Error::PublicationRunning);
        }
        let query = match query {
            Err(e) => {
                return Err(e);
            },
            Ok(query) => query,
        };
        let layer: usize = query.layer;
        let begun: Result<(), Error> = if batch.stage == CacheStage::Encoder && layer == 20 {
            self.progress.begin_decoder_source(batch.identity)
        } else {
            self.progress.begin(batch.identity, layer)
        };
        match begun {
            Err(e) => {
                return Err(e);
            },
            Ok(_) => {},
        }
        let (first, end): (usize, usize) = batch.stage.windows();
        let windowed: bool = first <= layer && layer < end;
        if indexed != (is_index_layer(layer) && windowed) {
            return Err(Error::DistributedIndex);
        }
        let queued: Result<(), Error> = if windowed {
            window
        } else {
            Ok(())
        };
        match start(
            &mut self.sources,
            bank,
            batch,
            query,
            home,
            carry,
            next_snapshot,
            queued,
            gone,
        ) {
            Err(e) => Err(e),
            Ok(source) => Ok(
                PendingProduction {
                    batch: batch.identity,
                    layer,
                    source,
                    window_ready: !windowed,
                    source_ready: source.is_none(),
                    indexing: indexed,
                    projection_ready: !indexed,
                    selection_started: false,
                    complete: false,
                },
            ),
        }
    }

    /// Takes the production forward by what the device reports. Where it is done,
    /// the pass keeps what was produced for its layer.
    pub fn poll_production(
        &mut self,
        pending: &mut PendingProduction,
        bank: &BackboneCache,
        batch: &CacheBatch,
        events: ProductionEvents,
    ) -> (r: Result<ProductionAction, Error>)
        requires
            bank.inv(),
            batch.wf(),
            old(self).inv(),
            old(pending).wf(),
            old(pending).source_fits(old(self).sources@, bank),
        ensures
            final(self).inv(),
            final(self).progress == old(self).progress,
            final(self).publication == old(self).publication,
            old(pending).windows_polled(
                final(self).windows@,
                old(self).windows@,
                bank,
                batch,
                events,
            ),
            final(self).sources@ == old(pending).polled_sources(
                old(self).sources@,
                bank,
                batch,
                events,
            ),
            ({
                let seen = old(pending).seen(old(self).sources@, bank, batch, events);
                match old(pending).poll_error(old(self).sources@, bank, batch, events) {
                    Some(reason) => {
                        &&& r == Err::<ProductionAction, Error>(reason)
                        &&& *final(pending) == seen
                        &&& final(self).produced == old(self).produced
                    },
                    None => {
                        let action = seen.action(batch, events);
                        &&& r == Ok::<ProductionAction, Error>(action)
                        &&& *final(pending) == (PendingProduction {
                            complete: action is Done,
                            ..seen
                        })
                        &&& final(self).produced == if action is Done {
                            Some(seen.produced())
                        } else {
                            old(self).produced
                        }
                    },
                }
            }),
    {
        let r = pending.advance(&mut self.windows, &mut self.sources, bank, batch, events);
        if let Ok(ProductionAction::Done) = r {
            self.produced = Some(pending.into_produced());
        }
        r
    }

    /// What was produced is the layer that the pass has begun.
    pub open spec fn prepares(&self, batch: &CacheBatch, produced: Produced) -> bool {
        &&& self.progress.invalid
        &&& self.progress.batch == Some(batch.identity)
        &&& self.progress.next == produced.layer
        &&& produced.batch == batch.identity
        &&& self.progress.stage == batch.stage
        &&& batch.stage.has_window(produced.layer as int)
    }

    /// Why attention cannot be prepared.
    pub open spec fn prepare_error(&self, bank: &BackboneCache, batch: &CacheBatch, device: i32) -> Option<
        Error,
    > {
        match self.produced {
            None => Some(Error::ProductionMissing),
            Some(produced) => if !self.prepares(batch, produced) {
                Some(Error::PreparedIdentity)
            } else if bank.windows@[produced.layer as int].device != device {
                Some(Error::LaneDevice)
            } else {
                None
            },
        }
    }

    /// Takes the produced layer to its attention, on the lane's `device`.
    pub fn prepare_layer(&mut self, bank: &BackboneCache, batch: &CacheBatch, device: i32) -> (r: Result<
        PlacedLayer,
        Error,
    >)
        requires
            bank.inv(),
            batch.wf(),
        ensures
            *final(self) == (DistributedExecution { produced: None, ..*old(self) }),
            match r {
                Err(e) => old(self).prepare_error(bank, batch, device) == Some(e),
                Ok(placed) => {
                    let layer = old(self).progress.next as int;
                    &&& old(self).prepare_error(bank, batch, device) is None
                    &&& placed.batch == batch.identity
                    &&& placed.layer == layer
                    &&& placed.rows@ == plan::batch_rows(
                        batch.requests@,
                        batch.requests@.len() as int,
                    )
                    &&& production::same_index(
                        placed.read_source,
                        production::proposed_source(batch, layer, batch.reserved),
                    )
                },
            },
    {
        let taken: Option<Produced> = self.produced;
        self.produced = None;
        let produced: Produced = match taken {
            None => {
                return Err(Error::ProductionMissing);
            },
            Some(produced) => produced,
        };
        let same: bool = match self.progress.batch {
            Some(id) => id == batch.identity,
            None => false,
        };
        let (first, end): (usize, usize) = batch.stage.windows();
        if !(self.progress.invalid && same && self.progress.next == produced.layer && produced.batch
            == batch.identity && self.progress.stage == batch.stage && first <= produced.layer
            && produced.layer < end) {
            return Err(Error::PreparedIdentity);
        }
        let layer: usize = produced.layer;
        match bank.attention_device(layer) {
            Err(e) => {
                assert(false);
                return Err(e);
            },
            Ok(id) => {
                if id != device {
                    return Err(Error::LaneDevice);
                }
            },
        }
        Ok(
            PlacedLayer {
                batch: batch.identity,
                layer,
                rows: batch.expert_rows(),
                read_source: source_to_read(batch, layer, batch.reserved),
            },
        )
    }

    pub open spec fn read_wave(&self, source: Option<usize>) -> Option<&CompressorWave> {
        match source {
            Some(i) => Some(&self.sources@[i as int]),
            None => None,
        }
    }

    /// What the prepared layer's attention reads.
    pub fn layer_attention<'s>(
        &'s self,
        bank: &'s BackboneCache,
        batch: &CacheBatch,
        layer: usize,
        read_source: Option<usize>,
        buffers: &SourceBuffers,
    ) -> (r: Result<CacheAttention<'s>, Error>)
        requires
            self.inv(),
            bank.inv(),
            batch.wf(),
            layer < LAYERS,
            read_source matches Some(i) ==> i < SOURCE_COUNT,
            bank.readable(layer as int, self.read_wave(read_source), buffers),
        ensures
            match r {
                Err(e) => bank.attention_error(
                    batch,
                    layer as int,
                    &self.windows@[layer as int],
                    self.read_wave(read_source),
                ) == Some(e),
                Ok(attention) => {
                    &&& bank.attention_error(
                        batch,
                        layer as int,
                        &self.windows@[layer as int],
                        self.read_wave(read_source),
                    ) is None
                    &&& bank.attends(
                        batch,
                        layer as int,
                        &self.windows@[layer as int],
                        self.read_wave(read_source),
                        *buffers,
                        attention,
                    )
                },
            },
    {
        match read_source {
            Some(i) => bank.attention(
                batch,
                layer,
                &self.windows[layer],
                Some(&self.sources[i]),
                buffers,
            ),
            None => bank.attention(batch, layer, &self.windows[layer], None, buffers),
        }
    }

    pub open spec fn completes(&self, batch: &CacheBatch, completed: CompletedLayer) -> bool {
        &&& self.progress.invalid
        &&& self.progress.batch == Some(completed.batch)
        &&& batch.identity == completed.batch
        &&& self.progress.next == completed.layer
        &&& self.progress.stage == batch.stage
    }

    /// Ends the layer: the experts' result lies on the lane's device and the lane
    /// has taken it (`finished`). A failure leaves the pass invalid.
    pub fn complete_layer(
        &mut self,
        batch: &CacheBatch,
        completed: CompletedLayer,
        device: i32,
        result_device: i32,
        finished: Result<(), Error>,
    ) -> (r: Result<(), Error>)
        requires
            completed.layer < LAYERS,
        ensures
            if !old(self).completes(batch, completed) {
                &&& r matches Err(e) && e == Error::CompletionIdentity
                &&& *final(self) == *old(self)
            } else if device != result_device {
                &&& r matches Err(e) && e == Error::ResultDevice
                &&& *final(self) == *old(self)
            } else {
                match finished {
                    Err(e) => r == Err::<(), Error>(e) && *final(self) == *old(self),
                    Ok(_) => {
                        &&& r is Ok
                        &&& final(self).same_producers(old(self))
                        &&& final(self).produced == old(self).produced
                        &&& final(self).publication == old(self).publication
                        &&& final(self).progress == (PassProgress {
                            next: (completed.layer + 1) as usize,
                            invalid: false,
                            ..old(self).progress
                        })
                    },
                }
            },
    {
        let same: bool = match self.progress.batch {
            Some(id) => id == completed.batch,
            None => false,
        };
        if !(self.progress.invalid && same && batch.identity == completed.batch
            && self.progress.next == completed.layer && self.progress.stage == batch.stage) {
            return Err(Error::CompletionIdentity);
        }
        if device != result_device {
            return Err(Error::ResultDevice);
        }
        match finished {
            Err(e) => {
                return Err(e);
            },
            Ok(_) => {},
        }
        self.progress.finish();
        Ok(())
    }

    /// What was produced is the boundary source of the pass's encoder.
    pub open spec fn at_boundary(&self, batch: &CacheBatch, produced: Produced) -> bool {
        &&& self.progress.invalid
        &&& self.progress.next == 20
        &&& self.progress.stage == CacheStage::Encoder
        &&& produced.layer == 20
        &&& produced.batch == batch.identity
        &&& self.progress.batch == Some(batch.identity)
    }

    pub fn finish_decoder_source(&mut self, batch: &CacheBatch) -> (r: Result<(), Error>)
        ensures
            final(self).same_producers(old(self)),
            final(self).publication == old(self).publication,
            final(self).produced is None,
            match old(self).produced {
                None => {
                    &&& r matches Err(e) && e == Error::BoundaryMissing
                    &&& final(self).progress == old(self).progress
                },
                Some(produced) => if !old(self).at_boundary(batch, produced) {
                    &&& r matches Err(e) && e == Error::BoundaryIdentity
                    &&& final(self).progress == old(self).progress
                } else {
                    &&& r is Ok
                    &&& final(self).progress == (PassProgress {
                        source_ready: true,
                        invalid: false,
                        ..old(self).progress
                    })
                },
            },
    {
        let taken: Option<Produced> = self.produced;
        self.produced = None;
        let produced: Produced = match taken {
            None => {
                return Err(Error::BoundaryMissing);
            },
            Some(produced) => produced,
        };
        let same: bool = match self.progress.batch {
            Some(id) => id == batch.identity,
            None => false,
        };
        if !(self.progress.invalid && self.progress.next == 20 && self.progress.stage
            == CacheStage::Encoder && produced.layer == 20 && produced.batch == batch.identity
            && same) {
            return Err(Error::BoundaryIdentity);
        }
        self.progress.finish_decoder_source();
        Ok(())
    }
}

impl DistributedExecution {
    /// The reserved encoder chunk has just completed `layer`.
    pub open spec fn publishes(&self, batch: &CacheBatch, layer: usize) -> bool {
        &&& batch.reserved
        &&& batch.stage == CacheStage::Encoder
        &&& self.publication is None
        &&& !self.progress.invalid
        &&& self.progress.batch == Some(batch.identity)
        &&& layer < 20
        &&& self.progress.next == layer + 1
    }

    /// Starts publishing a completed layer's window rows; `queued` is how queueing
    /// their writes went. The publication is under way in either case, until it is
    /// finished or the commit is aborted.
    pub fn enqueue_encoder_publication(
        &mut self,
        batch: &CacheBatch,
        layer: usize,
        queued: Result<(), Error>,
    ) -> (r: Result<(), Error>)
        ensures
            if old(self).publishes(batch, layer) {
                &&& r == queued
                &&& *final(self) == (DistributedExecution {
                    publication: Some((batch.identity, layer)),
                    ..*old(self)
                })
            } else {
                &&& r == Err::<(), Error>(Error::PublicationLayer)
                &&& *final(self) == *old(self)
            },
    {
        let same: bool = match self.progress.batch {
            Some(id) => id == batch.identity,
            None => false,
        };
        if !(batch.reserved && batch.stage == CacheStage::Encoder && self.publication.is_none()
            && !self.progress.invalid && same && layer < 20 && self.progress.next == layer + 1) {
            return Err(Error::PublicationLayer);
        }
        self.publication = Some((batch.identity, layer));
        queued
    }

    /// Whether the publication of `layer` is done, given how its window's writes
    /// stand (`written`).
    pub open spec fn publication_done(layer: usize, written: Result<bool, Error>) -> Result<
        bool,
        Error,
    > {
        if layer >= 20 {
            Ok(true)
        } else {
            written
        }
    }

    /// Whether the publication under way is done, given how its window's writes
    /// stand (`written`).
    pub fn poll_encoder_publication(&self, written: Result<bool, Error>) -> (r: Result<bool, Error>)
        ensures
            r == match self.publication {
                None => Err::<bool, Error>(Error::PublicationAbsent),
                Some((_, layer)) => Self::publication_done(layer, written),
            },
    {
        match self.publication {
            None => Err(Error::PublicationAbsent),
            Some((_, layer)) => if layer >= 20 {
                Ok(true)
            } else {
                written
            },
        }
    }

    /// Why the publication cannot end. `written` is how its window's writes stand,
    /// `published` how the bank took its rows.
    pub open spec fn publication_error(
        &self,
        batch: &CacheBatch,
        written: Result<bool, Error>,
        published: Result<(), Error>,
    ) -> Option<Error> {
        match self.publication {
            None => Some(Error::PublicationAbsent),
            Some((identity, layer)) => if identity != batch.identity {
                Some(Error::PublicationIdentity)
            } else {
                match Self::publication_done(layer, written) {
                    Err(e) => Some(e),
                    Ok(done) => if !done {
                        Some(Error::PublicationIdentity)
                    } else if layer < 20 && published is Err {
                        Some(published->Err_0)
                    } else {
                        None
                    },
                }
            },
        }
    }

    /// Ends the publication, once the bank has taken the rows (`published`);
    /// returns the layer whose window rows are now the bank's history. Where it
    /// fails the publication stays under way.
    pub fn finish_encoder_publication(
        &mut self,
        batch: &CacheBatch,
        written: Result<bool, Error>,
        published: Result<(), Error>,
    ) -> (r: Result<usize, Error>)
        ensures
            match old(self).publication_error(batch, written, published) {
                Some(reason) => {
                    &&& r == Err::<usize, Error>(reason)
                    &&& *final(self) == *old(self)
                },
                None => {
                    &&& r == Ok::<usize, Error>(old(self).publication->Some_0.1)
                    &&& *final(self) == (DistributedExecution { publication: None, ..*old(self) })
                },
            },
    {
        let (identity, layer): (u64, usize) = match self.publication {
            None => {
                return Err(Error::PublicationAbsent);
            },
            Some(found) => found,
        };
        if identity != batch.identity {
            return Err(Error::PublicationIdentity);
        }
        match self.poll_encoder_publication(written) {
            Err(e) => {
                return Err(e);
            },
            Ok(done) => {
                if !done {
                    return Err(Error::PublicationIdentity);
                }
            },
        }
        if layer < 20 {
            match published {
                Err(e) => {
                    return Err(e);
                },
                Ok(_) => {},
            }
        }
        self.publication = None;
        Ok(layer)
    }

    /// Why the pass cannot be committed.
    pub open spec fn pass_error(&self, batch: &CacheBatch) -> Option<Error> {
        if self.publication is Some {
            Some(Error::PublicationRunning)
        } else if !self.progress.can_commit(batch.identity) {
            Some(Error::PassIncomplete)
        } else {
            None
        }
    }

    /// Starts writing the accepted rows of a complete pass.
    pub fn enqueue_cache_commit(
        &mut self,
        bank: &mut BackboneCache,
        batch: &CacheBatch,
        accepted: &[u32],
    ) -> (r: Result<Vec<(usize, CommitWork)>, Error>)
        requires
            old(bank).inv(),
            batch.wf(),
            old(bank).lanes_fit(old(self).windows@, old(self).sources@),
        ensures
            final(bank).inv(),
            final(bank).same_books(old(bank)),
            final(bank).poisoned == old(bank).poisoned,
            final(bank).lanes_fit(final(self).windows@, final(self).sources@),
            final(self).produced == old(self).produced,
            final(self).publication == old(self).publication,
            final(self).progress == if old(self).publication is Some {
                old(self).progress
            } else {
                PassProgress { invalid: true, ..old(self).progress }
            },
            match old(self).pass_error(batch) {
                Some(reason) => {
                    &&& r == Err::<Vec<(usize, CommitWork)>, Error>(reason)
                    &&& *final(bank) == *old(bank)
                    &&& final(self).same_producers(old(self))
                },
                None => final(bank).commit_queued(
                    old(bank),
                    batch,
                    final(self).windows@,
                    old(self).windows@,
                    final(self).sources@,
                    old(self).sources@,
                    accepted@,
                    false,
                    r,
                ),
            },
    {
        if self.publication.is_some() {
            return Err(Error::PublicationRunning);
        }
        match self.progress.commit(batch.identity) {
            Err(e) => {
                return Err(e);
            },
            Ok(_) => {},
        }
        bank.enqueue_cache_commit(batch, &mut self.windows, &mut self.sources, accepted)
    }

    /// Publishes the queued rows and starts over for the batch's stage.
    pub fn finish_cache_commit(
        &mut self,
        bank: &mut BackboneCache,
        batch: &CacheBatch,
        accepted: &[u32],
        window_done: &[bool],
        source_done: &[bool],
    ) -> (r: Result<(), Error>)
        requires
            old(bank).inv(),
            batch.wf(),
            old(bank).lanes_fit(old(self).windows@, old(self).sources@),
            window_done@.len() == LAYERS,
            source_done@.len() == SOURCE_COUNT,
        ensures
            final(bank).inv(),
            final(bank).lanes_fit(final(self).windows@, final(self).sources@),
            final(self).publication == old(self).publication,
            match r {
                Err(_) => {
                    &&& final(self).progress == old(self).progress
                    &&& final(self).produced == old(self).produced
                },
                Ok(_) => {
                    &&& final(self).progress == PassProgress::started(batch.stage)
                    &&& final(self).produced is None
                },
            },
            final(bank).commit_ended(
                old(bank),
                batch,
                final(self).windows@,
                old(self).windows@,
                final(self).sources@,
                old(self).sources@,
                accepted@,
                window_done@,
                source_done@,
                r,
            ),
    {
        match bank.commit(
            batch,
            &mut self.windows,
            &mut self.sources,
            accepted,
            window_done,
            source_done,
        ) {
            Err(e) => Err(e),
            Ok(_) => {
                self.restart_for(batch.stage);
                Ok(())
            },
        }
    }

    /// Gives up what the lanes have queued; the pass is over.
    pub fn abort_cache_commit(&mut self, bank: &mut BackboneCache)
        requires
            old(bank).inv(),
            old(bank).lanes_fit(old(self).windows@, old(self).sources@),
        ensures
            final(bank).inv(),
            final(bank).same_books(old(bank)),
            final(bank).lanes_fit(final(self).windows@, final(self).sources@),
            final(self).progress == (PassProgress { invalid: true, ..old(self).progress }),
            final(self).produced is None,
            final(self).publication is None,
            final(self).windows@.len() == old(self).windows@.len(),
            final(self).sources@.len() == old(self).sources@.len(),
            final(bank).poisoned == old(bank).poisoned,
            forall|l: int|
                0 <= l < LAYERS && l < old(self).windows@.len() ==> {
                    &&& (#[trigger] final(self).windows@[l]) == (WindowWave {
                        pending: None,
                        ..old(self).windows@[l]
                    })
                    &&& publish::window_dropped(
                        &final(bank).windows@[l],
                        &old(bank).windows@[l],
                        &old(self).windows@[l],
                    )
                },
            forall|i: int|
                0 <= i < SOURCE_COUNT && i < old(self).sources@.len() ==> {
                    &&& (#[trigger] final(self).sources@[i]) == (CompressorWave {
                        pending_commit: None,
                        ..old(self).sources@[i]
                    })
                    &&& publish::source_dropped(
                        &final(bank).sources@[i],
                        &old(bank).sources@[i],
                        &old(self).sources@[i],
                    )
                },
    {
        self.progress.invalid = true;
        self.produced = None;
        bank.abort_cache_commit(&mut self.windows, &mut self.sources);
        self.publication = None;
    }
}

/// While a layer's rows are being published, the pass neither produces another
/// layer nor commits.
pub proof fn law_publication_comes_first(
    pass: &DistributedExecution,
    batch: &CacheBatch,
    query: Result<&AttentionQueryOutput, Error>,
    indexed: bool,
)
    requires
        pass.publication is Some,
    ensures
        pass.production_error(batch, query, indexed) is Some,
        pass.pass_error(batch) is Some,
{
}

/// A pass that has not run every layer of its stage cannot be committed.
pub proof fn law_partial_pass_is_not_committed(pass: &DistributedExecution, batch: &CacheBatch)
    requires
        pass.progress.next < pass.progress.stage.end_window(),
    ensures
        pass.pass_error(batch) is Some,
{
}

} // verus!
