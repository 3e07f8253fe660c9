//! Production of a batch's window and source rows from a layer's query.
use crate::attention_query::AttentionQueryOutput;
use crate::backbone_cache::plan;
use crate::backbone_cache::plan::CacheBatch;
use crate::backbone_cache::BackboneCache;
use crate::compressor::wave;
use crate::compressor::wave::CompressorWave;
use crate::error::Error;
use crate::window::{WindowPrepared, WindowWave};
use vstd::prelude::*;

verus! {

impl BackboneCache {
    /// Why no window rows are produced at `layer`.
    pub open spec fn window_production_error(
        &self,
        batch: &CacheBatch,
        layer: int,
        work: Result<(), Error>,
    ) -> Option<Error> {
        if self.batch_error(batch) is Some {
            self.batch_error(batch)
        } else if !batch.stage.has_window(layer) {
            Some(Error::WindowOutsidePhase)
        } else {
            match work {
                Err(e) => Some(e),
                Ok(_) => None,
            }
        }
    }

    /// Takes the window rows that the lane has produced for the batch; `work` is
    /// how the device work went. The wave then holds exactly the batch's chunks.
    pub fn produce_window(
        &self,
        batch: &CacheBatch,
        layer: usize,
        wave: &mut WindowWave,
        work: Result<(), Error>,
    ) -> (r: Result<(), Error>)
        requires
            self.inv(),
            batch.wf(),
        ensures
            match r {
                Err(e) => {
                    &&& self.window_production_error(batch, layer as int, work) == Some(e)
                    &&& *final(wave) == *old(wave)
                },
                Ok(_) => {
                    &&& self.window_production_error(batch, layer as int, work) is None
                    &&& final(wave).layer == old(wave).layer
                    &&& final(wave).device == old(wave).device
                    &&& final(wave).pending == old(wave).pending
                    &&& final(wave).prepared matches Some(p) && p.owner
                        == self.windows@[layer as int].owner && p.chunks@ == batch.window_chunks_of(
                        layer as int,
                    )
                },
            },
    {
        let owner: u64 = match self.window(batch, layer) {
            Err(e) => {
                return Err(e);
            },
            Ok(state) => state.owner,
        };
        let chunks = match batch.window_chunks(layer) {
            Err(e) => {
                assert(false);
                return Err(e);
            },
            Ok(chunks) => chunks,
        };
        match work {
            Err(e) => Err(e),
            Ok(_) => {
                wave.prepared = Some(WindowPrepared { owner, chunks });
                Ok(())
            },
        }
    }

    /// Why the batch has no rows for the source at `layer`.
    pub open spec fn source_refusal(&self, batch: &CacheBatch, layer: int) -> Option<Error> {
        if self.batch_error(batch) is Some {
            self.batch_error(batch)
        } else if plan::source_of(layer) is None {
            Some(Error::BackboneSourceLayer)
        } else if batch.stage.sources() == 0 {
            Some(Error::ReplaySources)
        } else {
            None
        }
    }

    /// Why no source rows are produced from the query.
    pub open spec fn source_production_error(
        &self,
        batch: &CacheBatch,
        query: AttentionQueryOutput,
        wave: &CompressorWave,
        home: i32,
        carry: Option<i32>,
        next_snapshot: u64,
    ) -> Option<Error> {
        match self.source_refusal(batch, query.layer as int) {
            Some(e) => Some(e),
            None => {
                let i = plan::source_of(query.layer as int)->Some_0;
                wave.query_error(
                    &self.sources@[i],
                    home,
                    carry,
                    batch.source_chunks_of(i),
                    query,
                    next_snapshot,
                )
            },
        }
    }

    /// Proposes the batch's rows of the query's layer, one of the four sources.
    /// `captured` is the execution that was captured where none of the shape was
    /// kept, `ran` whether the device work went well. The executions to destroy
    /// are added to `gone`.
    pub fn produce_source(
        &self,
        batch: &CacheBatch,
        query: &AttentionQueryOutput,
        wave: &mut CompressorWave,
        home: i32,
        carry: Option<i32>,
        next_snapshot: &mut u64,
        captured: Option<u64>,
        ran: bool,
        gone: &mut Vec<u64>,
    ) -> (r: Result<(), Error>)
        requires
            self.inv(),
            batch.wf(),
            old(wave).inv(),
        ensures
            final(wave).inv(),
            final(wave).layer == old(wave).layer,
            final(wave).capacity == old(wave).capacity,
            final(wave).buffers == old(wave).buffers,
            final(wave).replica == old(wave).replica,
            final(wave).pending_commit == old(wave).pending_commit,
            *final(next_snapshot) == if self.source_refusal(batch, query.layer as int) is None {
                let i = plan::source_of(query.layer as int)->Some_0;
                old(wave).next_proposal(
                    &self.sources@[i],
                    home,
                    carry,
                    batch.source_chunks_of(i).len() as int,
                    *old(next_snapshot),
                )
            } else {
                *old(next_snapshot) as int
            },
            ({
                let reason = self.source_production_error(
                    batch,
                    *query,
                    old(wave),
                    home,
                    carry,
                    *old(next_snapshot),
                );
                let i = plan::source_of(query.layer as int)->Some_0;
                let chunks = batch.source_chunks_of(i);
                let rows = wave::chunk_rows(chunks, chunks.len() as int);
                let owner = self.sources@[i].owner;
                match reason {
                    Some(first) => {
                        &&& r == Err::<(), Error>(first)
                        &&& *final(wave) == if self.source_refusal(batch, query.layer as int) is Some {
                            *old(wave)
                        } else {
                            CompressorWave { ready: None, ..*old(wave) }
                        }
                        &&& final(gone)@ == old(gone)@
                    },
                    None => {
                        &&& final(wave).pending_query is None
                        &&& final(gone)@ == old(gone)@ + old(wave).graphs_gone(rows, owner)
                        &&& if old(wave).run_fails(rows, owner, captured, ran) {
                            &&& r == Err::<(), Error>(Error::QueryExecution)
                            &&& final(wave).ready is None
                            &&& final(wave).graphs_kept(old(wave), rows, owner, None)
                        } else {
                            &&& r is Ok
                            &&& final(wave).graphs_kept(old(wave), rows, owner, captured)
                            &&& final(wave).output_error(&self.sources@[i]) is None
                            &&& final(wave).ready matches Some(prepared) && {
                                &&& prepared.chunks@ == chunks
                                &&& prepared.owner == owner
                                &&& prepared.snapshot == *old(next_snapshot)
                                &&& old(wave).fits(
                                    &prepared,
                                    self.sources@[i].slot_count as int,
                                )
                            }
                        }
                    },
                }
            }),
    {
        let state = match self.source(batch, query.layer) {
            Err(e) => {
                return Err(e);
            },
            Ok(state) => state,
        };
        let chunks = match batch.source_chunks(query.layer) {
            Err(e) => {
                return Err(e);
            },
            Ok(chunks) => chunks,
        };
        wave.execute_query(
            state,
            home,
            carry,
            chunks.as_slice(),
            query,
            next_snapshot,
            captured,
            ran,
            gone,
        )
    }
}

} // verus!
