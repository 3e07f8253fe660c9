//! Cache production that runs beside other work of the lane.
use crate::attention_query::AttentionQueryOutput;
use crate::backbone_cache;
use crate::backbone_cache::attention;
use crate::backbone_cache::attention::nearest;
use crate::backbone_cache::plan;
use crate::backbone_cache::plan::{source_index, CacheBatch};
use crate::backbone_cache::{BackboneCache, LAYERS, SOURCE_COUNT};
use crate::compressor::queue::QueryProgress;
use crate::compressor::wave;
use crate::compressor::wave::{CompressorWave, Prepared};
use crate::compressor::CompressorState;
use crate::error::Error;
use crate::execution;
use crate::execution::{is_index_layer, BackboneExecution};
use crate::window::WindowWave;
use vstd::prelude::*;

verus! {

/// Queued production that is done and waits for its layer.
#[derive(Debug, Clone, Copy, PartialEq, Eq, Structural)]
pub struct Produced {
    pub batch: u64,
    pub layer: usize,
    pub indexed: bool,
}

/// The source that a pass produces at `layer`.
pub open spec fn produced_source(batch: &CacheBatch, layer: int) -> Option<int> {
    if batch.stage.sources() == 0 {
        None
    } else {
        plan::source_of(layer)
    }
}

/// The source whose proposal a pass reads at `layer`.
pub open spec fn proposed_source(batch: &CacheBatch, layer: int, publishing: bool) -> Option<int> {
    if batch.stage.sources() == 0 || publishing {
        None
    } else {
        attention::read_source(layer)
    }
}

/// An optional index that is the optional number of a contract.
pub open spec fn same_index(actual: Option<usize>, expected: Option<int>) -> bool {
    match actual {
        Some(i) => expected == Some(i as int),
        None => expected is None,
    }
}

pub fn source_to_produce(batch: &CacheBatch, layer: usize) -> (r: Option<usize>)
    ensures
        same_index(r, produced_source(batch, layer as int)),
        r matches Some(i) ==> i < SOURCE_COUNT,
{
    if batch.stage.reuses_sources() {
        None
    } else {
        source_index(layer)
    }
}

pub fn source_to_read(batch: &CacheBatch, layer: usize, publishing: bool) -> (r: Option<usize>)
    ensures
        same_index(r, proposed_source(batch, layer as int, publishing)),
        r matches Some(i) ==> i < SOURCE_COUNT,
{
    if batch.stage.reuses_sources() || publishing {
        None
    } else {
        nearest(layer)
    }
}

/// Production under way. The caller keeps the query and the admitted cache slots
/// until it is complete or cancelled.
#[derive(Debug, Clone, Copy, PartialEq, Eq, Structural)]
pub struct PendingProduction {
    pub batch: u64,
    pub layer: usize,
    pub source: Option<usize>,
    pub window_ready: bool,
    pub source_ready: bool,
    /// Index rows are selected as part of the production.
    pub indexing: bool,
    pub projection_ready: bool,
    pub selection_started: bool,
    pub complete: bool,
}

/// What the device reports since the last look: whether the parts are done, or how
/// they failed.
#[derive(Debug, Clone, Copy)]
pub struct ProductionEvents {
    pub window: Result<bool, Error>,
    pub source: QueryProgress,
    pub projection: Result<bool, Error>,
    pub selection: Result<bool, Error>,
}

/// What is to be done next.
#[derive(Debug, Clone, Copy, PartialEq, Eq, Structural)]
pub enum ProductionAction {
    Wait,
    /// Start selecting index rows, from the proposal of this source if any.
    Select { source: Option<usize> },
    Done,
}

/// Why the rows of the query's layer cannot be queued. `window` is how queueing the
/// window went.
pub open spec fn start_error(
    sources: Seq<CompressorWave>,
    bank: &BackboneCache,
    batch: &CacheBatch,
    query: AttentionQueryOutput,
    home: i32,
    carry: Option<i32>,
    next_snapshot: u64,
    window: Result<(), Error>,
) -> Option<Error> {
    if bank.batch_error(batch) is Some {
        bank.batch_error(batch)
    } else {
        match window {
            Err(e) => Some(e),
            Ok(_) => match produced_source(batch, query.layer as int) {
                None => None,
                Some(i) => sources[i].queue_error(
                    &bank.sources@[i],
                    home,
                    carry,
                    batch.source_chunks_of(i),
                    query,
                    next_snapshot,
                ),
            },
        }
    }
}

/// The source waves once the batch's rows of the query's layer are queued.
pub open spec fn started(
    now: Seq<CompressorWave>,
    was: Seq<CompressorWave>,
    bank: &BackboneCache,
    batch: &CacheBatch,
    query: AttentionQueryOutput,
    snapshot: u64,
) -> bool {
    match produced_source(batch, query.layer as int) {
        None => now == was,
        Some(i) => {
            &&& now.len() == was.len()
            &&& now[i].query_queued(
                &was[i],
                &bank.sources@[i],
                batch.source_chunks_of(i),
                query,
                snapshot,
            )
            &&& forall|k: int| 0 <= k < was.len() && k != i ==> #[trigger] now[k] == was[k]
        },
    }
}

/// The source waves once the production of `source` is given up.
pub open spec fn cancelled(sources: Seq<CompressorWave>, source: Option<int>) -> Seq<CompressorWave> {
    match source {
        None => sources,
        Some(i) => sources.update(
            i,
            CompressorWave { pending_query: None, ready: None, ..sources[i] },
        ),
    }
}

/// The number of the next proposal after the query's layer was to be queued.
pub open spec fn number_after(
    sources: Seq<CompressorWave>,
    bank: &BackboneCache,
    batch: &CacheBatch,
    query: AttentionQueryOutput,
    home: i32,
    carry: Option<i32>,
    next_snapshot: u64,
    window: Result<(), Error>,
) -> int {
    match produced_source(batch, query.layer as int) {
        Some(i) if bank.batch_error(batch) is None && window is Ok => sources[i].next_proposal(
            &bank.sources@[i],
            home,
            carry,
            batch.source_chunks_of(i).len() as int,
            next_snapshot,
        ),
        _ => next_snapshot as int,
    }
}

/// The executions that queueing the query's layer leaves to be destroyed.
pub open spec fn executions_gone(
    sources: Seq<CompressorWave>,
    bank: &BackboneCache,
    batch: &CacheBatch,
    query: AttentionQueryOutput,
) -> Seq<u64> {
    match produced_source(batch, query.layer as int) {
        Some(i) => {
            let chunks = batch.source_chunks_of(i);
            sources[i].graphs_gone(
                wave::chunk_rows(chunks, chunks.len() as int),
                bank.sources@[i].owner,
            )
        },
        None => Seq::empty(),
    }
}

/// Every source wave is in order.
pub open spec fn waves_wf(sources: Seq<CompressorWave>) -> bool {
    &&& sources.len() == SOURCE_COUNT
    &&& forall|i: int| 0 <= i < SOURCE_COUNT ==> (#[trigger] sources[i]).inv()
}

/// Queues the batch's rows of the query's layer. `window` is how queueing the
/// window went; where anything fails the source is given up.
pub(crate) fn start(
    sources: &mut Vec<CompressorWave>,
    bank: &BackboneCache,
    batch: &CacheBatch,
    query: &AttentionQueryOutput,
    home: i32,
    carry: Option<i32>,
    next_snapshot: &mut u64,
    window: Result<(), Error>,
    gone: &mut Vec<u64>,
) -> (r: Result<Option<usize>, Error>)
    requires
        bank.inv(),
        batch.wf(),
        waves_wf(old(sources)@),
    ensures
        waves_wf(final(sources)@),
        *final(next_snapshot) == number_after(
            old(sources)@,
            bank,
            batch,
            *query,
            home,
            carry,
            *old(next_snapshot),
            window,
        ),
        match start_error(
            old(sources)@,
            bank,
            batch,
            *query,
            home,
            carry,
            *old(next_snapshot),
            window,
        ) {
            Some(reason) => {
                &&& r == Err::<Option<usize>, Error>(reason)
                &&& final(sources)@ == cancelled(
                    old(sources)@,
                    produced_source(batch, query.layer as int),
                )
                &&& final(gone)@ == old(gone)@
            },
            None => {
                &&& r matches Ok(source) && same_index(
                    source,
                    produced_source(batch, query.layer as int),
                )
                &&& started(
                    final(sources)@,
                    old(sources)@,
                    bank,
                    batch,
                    *query,
                    *old(next_snapshot),
                )
                &&& final(gone)@ == old(gone)@ + executions_gone(old(sources)@, bank, batch, *query)
            },
        },
{
    let source = source_to_produce(batch, query.layer);
    let mut outcome: Result<(), Error> = bank.validate_batch(batch);
    if outcome.is_ok() {
        outcome = window;
    }
    let ghost before = sources@;
    let i: usize = match source {
        None => {
            assert(gone@ + Seq::<u64>::empty() =~= gone@);
            return match outcome {
                Err(e) => Err(e),
                Ok(_) => Ok(None),
            };
        },
        Some(i) => i,
    };
    if outcome.is_ok() {
        let state = match bank.source(batch, query.layer) {
            Err(e) => {
                assert(false);
                return Err(e);
            },
            Ok(state) => state,
        };
        let chunks = match batch.source_chunks(query.layer) {
            Err(e) => {
                assert(false);
                return Err(e);
            },
            Ok(chunks) => chunks,
        };
        let queued = sources[i].enqueue_query(
            state,
            home,
            carry,
            chunks.as_slice(),
            query,
            next_snapshot,
        );
        assert forall|k: int| 0 <= k < SOURCE_COUNT && k != i implies #[trigger] sources@[k]
            == before[k] by {}
        match queued {
            Ok(list) => {
                let mut list = list;
                gone.append(&mut list);
                return Ok(Some(i));
            },
            Err(e) => {
                outcome = Err(e);
            },
        }
    }
    let ghost queued = sources@;
    sources[i].abort_query();
    proof {
        assert forall|k: int| 0 <= k < SOURCE_COUNT implies #[trigger] sources@[k] == cancelled(
            before,
            Some(i as int),
        )[k] by {
            if k != i {
                assert(sources@[k] == queued[k]);
            }
        }
        assert(sources@ =~= cancelled(before, Some(i as int)));
    }
    match outcome {
        Err(e) => Err(e),
        Ok(_) => Ok(None),
    }
}

impl BackboneExecution {
    /// Why production cannot be queued for the lane's query. Nothing has been
    /// touched then.
    pub open spec fn production_refusal(
        &self,
        bank: &BackboneCache,
        batch: &CacheBatch,
        query: Result<&AttentionQueryOutput, Error>,
    ) -> Option<Error> {
        if self.queued_production is Some {
            Some(Error::ProductionQueued)
        } else if bank.batch_error(batch) is Some {
            bank.batch_error(batch)
        } else {
            match query {
                Err(e) => Some(e),
                Ok(query) => if query.layer != self.progress.next || batch.stage
                    != self.progress.stage {
                    Some(Error::ProductionLayer)
                } else {
                    None
                },
            }
        }
    }

    /// Whether the batch has a window at `layer`, and how queueing it went.
    pub open spec fn window_start(batch: &CacheBatch, layer: int, window: Result<(), Error>) -> Result<
        (),
        Error,
    > {
        if batch.stage.has_window(layer) {
            window
        } else {
            Err(Error::WindowOutsidePhase)
        }
    }

    /// What queueing a layer's production leaves, and what it returns.
    pub open spec fn production_queued(
        &self,
        before: &Self,
        bank: &BackboneCache,
        batch: &CacheBatch,
        query: Result<&AttentionQueryOutput, Error>,
        home: i32,
        carry: Option<i32>,
        next_snapshot: u64,
        window: Result<(), Error>,
        indexing: bool,
        r: Result<PendingProduction, Error>,
    ) -> bool {
        &&& self.windows == before.windows
        &&& self.progress == before.progress
        &&& self.queued_production == before.queued_production
        &&& self.batched_windows == before.batched_windows
        &&& match before.production_refusal(bank, batch, query) {
            Some(reason) => {
                &&& r == Err::<PendingProduction, Error>(reason)
                &&& self.sources == before.sources
            },
            None => {
                let query = *query->Ok_0;
                let layer = query.layer as int;
                match start_error(
                    before.sources@,
                    bank,
                    batch,
                    query,
                    home,
                    carry,
                    next_snapshot,
                    Self::window_start(batch, layer, window),
                ) {
                    Some(reason) => {
                        &&& r == Err::<PendingProduction, Error>(reason)
                        &&& self.sources@ == cancelled(
                            before.sources@,
                            produced_source(batch, layer),
                        )
                    },
                    None => {
                        &&& started(
                            self.sources@,
                            before.sources@,
                            bank,
                            batch,
                            query,
                            next_snapshot,
                        )
                        &&& r matches Ok(pending) && {
                            &&& pending.batch == batch.identity
                            &&& pending.layer == layer
                            &&& same_index(pending.source, produced_source(batch, layer))
                            &&& !pending.window_ready
                            &&& pending.source_ready == pending.source is None
                            &&& pending.indexing == (indexing && execution::selects_index(layer))
                            &&& pending.projection_ready == !pending.indexing
                            &&& !pending.selection_started
                            &&& !pending.complete
                        }
                    },
                }
            },
        }
    }

    /// The number of the next proposal, and the executions to be destroyed, after a
    /// layer's production was to be queued.
    pub open spec fn production_counted(
        &self,
        bank: &BackboneCache,
        batch: &CacheBatch,
        query: Result<&AttentionQueryOutput, Error>,
        home: i32,
        carry: Option<i32>,
        next_snapshot: u64,
        window: Result<(), Error>,
    ) -> (int, Seq<u64>) {
        if self.production_refusal(bank, batch, query) is Some {
            (next_snapshot as int, Seq::empty())
        } else {
            let query = *query->Ok_0;
            let window = Self::window_start(batch, query.layer as int, window);
            (
                number_after(
                    self.sources@,
                    bank,
                    batch,
                    query,
                    home,
                    carry,
                    next_snapshot,
                    window,
                ),
                if start_error(
                    self.sources@,
                    bank,
                    batch,
                    query,
                    home,
                    carry,
                    next_snapshot,
                    window,
                ) is None {
                    executions_gone(self.sources@, bank, batch, query)
                } else {
                    Seq::empty()
                },
            )
        }
    }

    /// Starts the next layer's window, and its source where the layer makes one: the
    /// source's wave then has the batch's chunks queued. `query` is the lane's
    /// completed query and `window` how queueing the window went; `home` and `carry`
    /// are the devices of the source and of its carried rows. Executions to destroy
    /// are added to `gone`. Where anything fails the source's production is given up.
    pub fn enqueue_production(
        &mut self,
        bank: &BackboneCache,
        batch: &CacheBatch,
        query: Result<&AttentionQueryOutput, Error>,
        home: i32,
        carry: Option<i32>,
        next_snapshot: &mut u64,
        window: Result<(), Error>,
        gone: &mut Vec<u64>,
    ) -> (r: Result<PendingProduction, Error>)
        requires
            old(self).inv(),
            waves_wf(old(self).sources@),
            bank.inv(),
            batch.wf(),
        ensures
            final(self).inv(),
            waves_wf(final(self).sources@),
            final(self).production_queued(
                old(self),
                bank,
                batch,
                query,
                home,
                carry,
                *old(next_snapshot),
                window,
                false,
                r,
            ),
            ({
                let (next, list) = old(self).production_counted(
                    bank,
                    batch,
                    query,
                    home,
                    carry,
                    *old(next_snapshot),
                    window,
                );
                *final(next_snapshot) == next && final(gone)@ == old(gone)@ + list
            }),
    {
        assert(gone@ + Seq::<u64>::empty() =~= gone@);
        if self.queued_production.is_some() {
            return Err(Error::ProductionQueued);
        }
        match bank.validate_batch(batch) {
            Err(e) => {
                return Err(e);
            },
            Ok(_) => {},
        }
        let query = match query {
            Err(e) => {
                return Err(e);
            },
            Ok(query) => query,
        };
        let layer: usize = query.layer;
        if layer != self.progress.next || batch.stage != self.progress.stage {
            return Err(Error::ProductionLayer);
        }
        let begun: Result<(), Error> = match bank.window(batch, layer) {
            Err(e) => Err(e),
            Ok(_) => window,
        };
        match start(
            &mut self.sources,
            bank,
            batch,
            query,
            home,
            carry,
            next_snapshot,
            begun,
            gone,
        ) {
            Err(e) => Err(e),
            Ok(source) => Ok(
                PendingProduction {
                    batch: batch.identity,
                    layer,
                    source,
                    window_ready: false,
                    source_ready: source.is_none(),
                    indexing: false,
                    projection_ready: true,
                    selection_started: false,
                    complete: false,
                },
            ),
        }
    }

    /// As `enqueue_production`; a layer that selects index rows does so too.
    pub fn enqueue_production_and_index(
        &mut self,
        bank: &BackboneCache,
        batch: &CacheBatch,
        query: Result<&AttentionQueryOutput, Error>,
        home: i32,
        carry: Option<i32>,
        next_snapshot: &mut u64,
        window: Result<(), Error>,
        gone: &mut Vec<u64>,
    ) -> (r: Result<PendingProduction, Error>)
        requires
            old(self).inv(),
            waves_wf(old(self).sources@),
            bank.inv(),
            batch.wf(),
        ensures
            final(self).inv(),
            waves_wf(final(self).sources@),
            final(self).production_queued(
                old(self),
                bank,
                batch,
                query,
                home,
                carry,
                *old(next_snapshot),
                window,
                true,
                r,
            ),
            ({
                let (next, list) = old(self).production_counted(
                    bank,
                    batch,
                    query,
                    home,
                    carry,
                    *old(next_snapshot),
                    window,
                );
                *final(next_snapshot) == next && final(gone)@ == old(gone)@ + list
            }),
    {
        match self.enqueue_production(
            bank,
            batch,
            query,
            home,
            carry,
            next_snapshot,
            window,
            gone,
        ) {
            Err(e) => Err(e),
            Ok(pending) => {
                let mut pending = pending;
                if is_index_layer(pending.layer) {
                    pending.indexing = true;
                    pending.projection_ready = false;
                }
                Ok(pending)
            },
        }
    }
}

impl PendingProduction {
    /// The parts of the production are in order.
    pub open spec fn wf(&self) -> bool {
        &&& !self.source_ready ==> self.source is Some
        &&& self.source matches Some(i) ==> i < SOURCE_COUNT && plan::source_of(self.layer as int)
            == Some(i as int)
        &&& !self.projection_ready ==> self.indexing
    }

    /// The production belongs to the pass and its parts are in order.
    pub open spec fn fits(&self, execution: &BackboneExecution) -> bool {
        execution.inv() && self.wf()
    }

    /// The lane's source proposal can be published.
    pub open spec fn source_fits(&self, sources: Seq<CompressorWave>, bank: &BackboneCache) -> bool {
        self.source matches Some(i) ==> {
            &&& sources[i as int].inv()
            &&& sources[i as int].queued_fits(&bank.sources@[i as int])
        }
    }

    /// The batch is the production's own, so the device is asked how it goes.
    pub open spec fn asks(&self, bank: &BackboneCache, batch: &CacheBatch) -> bool {
        !self.complete && batch.identity == self.batch && bank.batch_error(batch) is None
    }

    /// How the window's part fails.
    pub open spec fn window_failure(&self, batch: &CacheBatch, events: ProductionEvents) -> Option<
        Error,
    > {
        if self.window_ready {
            None
        } else if !batch.stage.has_window(self.layer as int) {
            Some(Error::WindowOutsidePhase)
        } else {
            match events.window {
                Err(e) => Some(e),
                Ok(_) => None,
            }
        }
    }

    /// How the source's part fails.
    pub open spec fn source_failure(
        &self,
        sources: Seq<CompressorWave>,
        bank: &BackboneCache,
        events: ProductionEvents,
    ) -> Option<Error> {
        if self.source_ready {
            None
        } else {
            let i = self.source->Some_0 as int;
            sources[i].publish_error(&bank.sources@[i], events.source)
        }
    }

    /// How the index projection fails.
    pub open spec fn projection_failure(&self, events: ProductionEvents) -> Option<Error> {
        match events.projection {
            Err(e) if !self.projection_ready => Some(e),
            _ => None,
        }
    }

    /// The window's part has been asked without a failure.
    pub open spec fn past_window(
        &self,
        bank: &BackboneCache,
        batch: &CacheBatch,
        events: ProductionEvents,
    ) -> bool {
        self.asks(bank, batch) && self.window_failure(batch, events) is None
    }

    /// So have the window's and the source's.
    pub open spec fn past_source(
        &self,
        sources: Seq<CompressorWave>,
        bank: &BackboneCache,
        batch: &CacheBatch,
        events: ProductionEvents,
    ) -> bool {
        self.past_window(bank, batch, events) && self.source_failure(sources, bank, events) is None
    }

    /// The production once the parts that were asked are taken into account. The
    /// first failure ends the asking.
    pub open spec fn seen(
        &self,
        sources: Seq<CompressorWave>,
        bank: &BackboneCache,
        batch: &CacheBatch,
        events: ProductionEvents,
    ) -> PendingProduction {
        PendingProduction {
            window_ready: self.window_ready || (self.past_window(bank, batch, events)
                && events.window == Ok::<bool, Error>(true)),
            source_ready: self.source_ready || (self.past_source(sources, bank, batch, events)
                && events.source is Done),
            projection_ready: self.projection_ready || (self.past_source(
                sources,
                bank,
                batch,
                events,
            ) && events.projection == Ok::<bool, Error>(true)),
            ..*self
        }
    }

    /// The selection is under way and everything before it is done.
    pub open spec fn selecting_now(&self) -> bool {
        self.window_ready && self.source_ready && self.projection_ready && self.indexing
            && self.selection_started
    }

    /// Why the production cannot go on.
    pub open spec fn poll_error(
        &self,
        sources: Seq<CompressorWave>,
        bank: &BackboneCache,
        batch: &CacheBatch,
        events: ProductionEvents,
    ) -> Option<Error> {
        if self.complete || batch.identity != self.batch {
            Some(Error::ProductionBatch)
        } else if bank.batch_error(batch) is Some {
            bank.batch_error(batch)
        } else if self.window_failure(batch, events) is Some {
            self.window_failure(batch, events)
        } else if self.source_failure(sources, bank, events) is Some {
            self.source_failure(sources, bank, events)
        } else if self.projection_failure(events) is Some {
            self.projection_failure(events)
        } else {
            match events.selection {
                Err(e) if self.seen(sources, bank, batch, events).selecting_now() => Some(e),
                _ => None,
            }
        }
    }

    /// What follows from what has been seen.
    pub open spec fn action(
        &self,
        batch: &CacheBatch,
        events: ProductionEvents,
    ) -> ProductionAction {
        if !self.window_ready || !self.source_ready || !self.projection_ready {
            ProductionAction::Wait
        } else if self.indexing && !self.selection_started {
            ProductionAction::Select {
                source: match proposed_source(batch, self.layer as int, false) {
                    Some(i) => Some(i as usize),
                    None => None,
                },
            }
        } else if self.indexing && events.selection != Ok::<bool, Error>(true) {
            ProductionAction::Wait
        } else {
            ProductionAction::Done
        }
    }

    /// The source waves after a poll: only the one that is still being produced
    /// takes in what its stream reports.
    pub open spec fn polled_sources(
        &self,
        sources: Seq<CompressorWave>,
        bank: &BackboneCache,
        batch: &CacheBatch,
        events: ProductionEvents,
    ) -> Seq<CompressorWave> {
        if self.past_window(bank, batch, events) && !self.source_ready {
            let i = self.source->Some_0 as int;
            sources.update(i, sources[i].polled(&bank.sources@[i], events.source))
        } else {
            sources
        }
    }

    /// The windows after a poll: the layer's own has the batch's rows once its work
    /// is done.
    pub open spec fn windows_polled(
        &self,
        now: Seq<WindowWave>,
        was: Seq<WindowWave>,
        bank: &BackboneCache,
        batch: &CacheBatch,
        events: ProductionEvents,
    ) -> bool {
        let l = self.layer as int;
        if !self.window_ready && self.past_window(bank, batch, events) && events.window == Ok::<
            bool,
            Error,
        >(true) {
            &&& now.len() == was.len()
            &&& forall|k: int| 0 <= k < was.len() && k != l ==> #[trigger] now[k] == was[k]
            &&& now[l].layer == was[l].layer
            &&& now[l].device == was[l].device
            &&& now[l].pending == was[l].pending
            &&& now[l].prepared matches Some(p) && p.owner == bank.windows@[l].owner && p.chunks@
                == batch.window_chunks_of(l)
        } else {
            now == was
        }
    }

    /// Takes the production forward by what the device reports.
    pub(crate) fn advance(
        &mut self,
        windows: &mut Vec<WindowWave>,
        sources: &mut Vec<CompressorWave>,
        bank: &BackboneCache,
        batch: &CacheBatch,
        events: ProductionEvents,
    ) -> (r: Result<ProductionAction, Error>)
        requires
            bank.inv(),
            batch.wf(),
            old(self).wf(),
            old(windows)@.len() == LAYERS,
            old(sources)@.len() == SOURCE_COUNT,
            old(self).source_fits(old(sources)@, bank),
        ensures
            old(self).windows_polled(final(windows)@, old(windows)@, bank, batch, events),
            final(sources)@ == old(self).polled_sources(old(sources)@, bank, batch, events),
            ({
                let seen = old(self).seen(old(sources)@, bank, batch, events);
                match old(self).poll_error(old(sources)@, bank, batch, events) {
                    Some(reason) => {
                        &&& r == Err::<ProductionAction, Error>(reason)
                        &&& *final(self) == seen
                    },
                    None => {
                        &&& r == Ok::<ProductionAction, Error>(seen.action(batch, events))
                        &&& *final(self) == (PendingProduction {
                            complete: seen.action(batch, events) is Done,
                            ..seen
                        })
                    },
                }
            }),
    {
        if self.complete || batch.identity != self.batch {
            return Err(Error::ProductionBatch);
        }
        match bank.validate_batch(batch) {
            Err(e) => {
                return Err(e);
            },
            Ok(_) => {},
        }
        if !self.window_ready {
            match bank.window(batch, self.layer) {
                Err(e) => {
                    return Err(e);
                },
                Ok(_) => {},
            }
            match events.window {
                Err(e) => {
                    return Err(e);
                },
                Ok(done) => {
                    if done {
                        let ghost before = windows@;
                        let taken = bank.produce_window(
                            batch,
                            self.layer,
                            &mut windows[self.layer],
                            Ok(()),
                        );
                        assert(taken is Ok);
                        assert forall|k: int| 0 <= k < LAYERS && k != self.layer implies #[trigger] windows@[k]
                            == before[k] by {}
                        self.window_ready = true;
                    }
                },
            }
        }
        if !self.source_ready {
            if let Some(i) = self.source {
                let state = match bank.source(batch, self.layer) {
                    Err(e) => {
                        assert(false);
                        return Err(e);
                    },
                    Ok(state) => state,
                };
                let polled = sources[i].poll_query(state, events.source);
                assert(sources@ =~= old(self).polled_sources(old(sources)@, bank, batch, events));
                match polled {
                    Err(e) => {
                        return Err(e);
                    },
                    Ok(done) => {
                        self.source_ready = done;
                    },
                }
            }
        }
        if !self.projection_ready {
            match events.projection {
                Err(e) => {
                    return Err(e);
                },
                Ok(done) => {
                    self.projection_ready = done;
                },
            }
        }
        assert(*self == old(self).seen(old(sources)@, bank, batch, events));
        if !self.window_ready || !self.source_ready || !self.projection_ready {
            return Ok(ProductionAction::Wait);
        }
        if self.indexing {
            if !self.selection_started {
                let source = source_to_read(batch, self.layer, false);
                return Ok(ProductionAction::Select { source });
            }
            match events.selection {
                Err(e) => {
                    return Err(e);
                },
                Ok(done) => {
                    if !done {
                        return Ok(ProductionAction::Wait);
                    }
                },
            }
        }
        self.complete = true;
        Ok(ProductionAction::Done)
    }

    /// Takes the production forward by what the device reports. Where it is done,
    /// the pass keeps what was produced for its next layer.
    pub fn poll(
        &mut self,
        execution: &mut BackboneExecution,
        bank: &BackboneCache,
        batch: &CacheBatch,
        events: ProductionEvents,
    ) -> (r: Result<ProductionAction, Error>)
        requires
            bank.inv(),
            batch.wf(),
            old(self).fits(old(execution)),
            old(self).source_fits(old(execution).sources@, bank),
        ensures
            final(execution).inv(),
            final(execution).progress == old(execution).progress,
            final(execution).batched_windows == old(execution).batched_windows,
            old(self).windows_polled(
                final(execution).windows@,
                old(execution).windows@,
                bank,
                batch,
                events,
            ),
            final(execution).sources@ == old(self).polled_sources(
                old(execution).sources@,
                bank,
                batch,
                events,
            ),
            ({
                let seen = old(self).seen(old(execution).sources@, bank, batch, events);
                match old(self).poll_error(old(execution).sources@, bank, batch, events) {
                    Some(reason) => {
                        &&& r == Err::<ProductionAction, Error>(reason)
                        &&& *final(self) == seen
                        &&& final(execution).queued_production == old(execution).queued_production
                    },
                    None => {
                        let action = seen.action(batch, events);
                        &&& r == Ok::<ProductionAction, Error>(action)
                        &&& *final(self) == (PendingProduction { complete: action is Done, ..seen })
                        &&& final(execution).queued_production == if action is Done {
                            Some(seen.produced())
                        } else {
                            old(execution).queued_production
                        }
                    },
                }
            }),
    {
        let r = self.advance(
            &mut execution.windows,
            &mut execution.sources,
            bank,
            batch,
            events,
        );
        if let Ok(ProductionAction::Done) = r {
            execution.queued_production = Some(self.into_produced());
        }
        r
    }

    /// What the production leaves once it is done.
    pub open spec fn produced(&self) -> Produced {
        Produced { batch: self.batch, layer: self.layer, indexed: self.indexing }
    }

    pub fn into_produced(&self) -> (r: Produced)
        ensures
            r == self.produced(),
    {
        Produced { batch: self.batch, layer: self.layer, indexed: self.indexing }
    }

    /// Records that the selection asked for is under way.
    pub fn selecting(&mut self)
        ensures
            *final(self) == (PendingProduction { selection_started: true, ..*old(self) }),
    {
        self.selection_started = true;
    }

    /// Gives the production up, once its streams have been drained. What is
    /// complete stays.
    pub fn cancel(self, execution: &mut BackboneExecution)
        requires
            self.fits(old(execution)),
            self.source matches Some(i) ==> old(execution).sources@[i as int].inv(),
        ensures
            final(execution).inv(),
            self.complete ==> *final(execution) == *old(execution),
            !self.complete ==> {
                &&& final(execution).windows == old(execution).windows
                &&& final(execution).progress == old(execution).progress
                &&& final(execution).batched_windows == old(execution).batched_windows
                &&& final(execution).queued_production is None
                &&& final(execution).sources@ == cancelled(
                    old(execution).sources@,
                    match self.source {
                        Some(i) => Some(i as int),
                        None => None,
                    },
                )
            },
    {
        if !self.complete {
            if let Some(i) = self.source {
                execution.sources[i].abort_query();
            }
            execution.queued_production = None;
        }
    }
}

proof fn lemma_queued_is_current(
    state: &CompressorState,
    prepared: &Prepared,
    capacity: int,
    n: int,
)
    requires
        0 <= n <= prepared.chunks@.len(),
        wave::first_chunk_error(state, prepared.chunks@, capacity, n) is None,
        prepared.versions@ == Seq::new(
            prepared.chunks@.len(),
            |i: int| state.slots@[prepared.chunks@[i].lease.slot as int].version,
        ),
    ensures
        wave::stale_error(state, prepared, n) is None,
    decreases n,
{
    if n > 0 {
        lemma_queued_is_current(state, prepared, capacity, n - 1);
    }
}

/// A production that was queued can be awaited: as long as the bank does not change,
/// no report of its parts but a failure ends it, and its source is published as soon
/// as its work is done.
pub proof fn law_queued_production_is_awaited(
    before: &BackboneExecution,
    after: &BackboneExecution,
    bank: &BackboneCache,
    batch: &CacheBatch,
    query: Result<&AttentionQueryOutput, Error>,
    home: i32,
    carry: Option<i32>,
    next_snapshot: u64,
    window: Result<(), Error>,
    indexing: bool,
    pending: PendingProduction,
    events: ProductionEvents,
)
    requires
        after.inv(),
        waves_wf(after.sources@),
        after.production_queued(
            before,
            bank,
            batch,
            query,
            home,
            carry,
            next_snapshot,
            window,
            indexing,
            Ok(pending),
        ),
        events.window is Ok,
        events.projection is Ok,
        events.selection is Ok,
        events.source == QueryProgress::Running || events.source matches QueryProgress::Done {
            captured: Some(_),
        },
    ensures
        pending.fits(after),
        pending.source_fits(after.sources@, bank),
        pending.poll_error(after.sources@, bank, batch, events) is None,
        pending.source matches Some(i) ==> {
            let wave = after.sources@[i as int].polled(&bank.sources@[i as int], events.source);
            events.source is Done ==> (wave.ready matches Some(p) && p.chunks@
                == batch.source_chunks_of(i as int))
        },
{
    if let Some(i) = pending.source {
        let k = i as int;
        let chunks = batch.source_chunks_of(k);
        let wave = after.sources@[k];
        let prepared = wave.pending_query->Some_0.0;
        assert(prepared.chunks@ == chunks);
        lemma_queued_is_current(
            &bank.sources@[k],
            &prepared,
            before.sources@[k].capacity as int,
            chunks.len() as int,
        );
    }
}

/// A pass reads proposals that it has made itself: what it reads at a layer is what it
/// produced at the last source's layer up to there, and the layer of a source reads that
/// very source. A pass that produces no sources, or has published them, reads none.
pub proof fn law_pass_reads_what_it_produced(batch: &CacheBatch, layer: int, i: int)
    requires
        0 <= layer < 40,
    ensures
        produced_source(batch, layer) is Some ==> proposed_source(batch, layer, false)
            == produced_source(batch, layer),
        proposed_source(batch, layer, false) == Some(i) ==> {
            let at = backbone_cache::source_layer(i);
            &&& at <= layer
            &&& produced_source(batch, at) == Some(i)
            &&& forall|l: int| at < l <= layer ==> #[trigger] produced_source(batch, l) is None
        },
        proposed_source(batch, layer, true) is None,
        proposed_source(batch, layer, false) is Some <==> layer >= 2 && batch.stage.sources() > 0,
        batch.stage.sources() == 0 ==> produced_source(batch, layer) is None,
{
}

} // verus!
