//! Queued queries and captured executions of one lane's proposals.
use crate::attention_query::AttentionQueryOutput;
use crate::compressor::wave;
use crate::compressor::wave::{CapturedGraph, CompressorWave, Prepared, RETAINED_SHAPES};
use crate::compressor::{CompressorChunk, CompressorState, MAX_CONTEXT};
use crate::error::Error;
use vstd::prelude::*;

verus! {

/// Token positions of the first `n` chunks, in row order.
pub open spec fn chunk_tokens(chunks: Seq<CompressorChunk>, n: int) -> Seq<u64>
    decreases n,
{
    if n <= 0 {
        Seq::empty()
    } else {
        chunk_tokens(chunks, n - 1) + Seq::new(
            chunks[n - 1].tokens as nat,
            |j: int| (chunks[n - 1].position + j) as u64,
        )
    }
}

/// `tokens` are the positions of `chunks`, in row order.
fn covers(tokens: &[u64], chunks: &Vec<CompressorChunk>) -> (r: bool)
    requires
        forall|i: int|
            0 <= i < chunks@.len() ==> (#[trigger] chunks@[i]).position + chunks@[i].tokens
                <= MAX_CONTEXT,
    ensures
        r == (tokens@ == chunk_tokens(chunks@, chunks@.len() as int)),
{
    let mut at: usize = 0;
    let mut i: usize = 0;
    let ghost n = chunks@.len() as int;
    while i < chunks.len()
        invariant
            i <= chunks@.len() == n,
            at <= tokens@.len(),
            tokens@.take(at as int) == chunk_tokens(chunks@, i as int),
            forall|k: int|
                0 <= k < chunks@.len() ==> (#[trigger] chunks@[k]).position + chunks@[k].tokens
                    <= MAX_CONTEXT,
        decreases chunks@.len() - i,
    {
        let chunk = chunks[i];
        let ghost before = at as int;
        let mut j: u32 = 0;
        assert(tokens@.take(at as int) =~= chunk_tokens(chunks@, i as int) + Seq::new(
            0,
            |x: int| (chunk.position + x) as u64,
        ));
        while j < chunk.tokens
            invariant
                j <= chunk.tokens,
                i < chunks@.len() == n,
                chunk == chunks@[i as int],
                chunk.position + chunk.tokens <= MAX_CONTEXT,
                at == before + j,
                at <= tokens@.len(),
                before == chunk_tokens(chunks@, i as int).len(),
                tokens@.take(at as int) == chunk_tokens(chunks@, i as int) + Seq::new(
                    j as nat,
                    |x: int| (chunk.position + x) as u64,
                ),
            decreases chunk.tokens - j,
        {
            if at >= tokens.len() || tokens[at] != chunk.position + j as u64 {
                proof {
                    let whole = chunk_tokens(chunks@, i + 1);
                    assert(whole[at as int] == (chunk.position + j) as u64);
                    lemma_tokens_prefix(chunks@, i + 1, n);
                    if tokens@ == chunk_tokens(chunks@, n) {
                        assert(tokens@[at as int] == whole[at as int]);
                    }
                }
                return false;
            }
            at = at + 1;
            j = j + 1;
            assert(tokens@.take(at as int) =~= chunk_tokens(chunks@, i as int) + Seq::new(
                j as nat,
                |x: int| (chunk.position + x) as u64,
            ));
        }
        i = i + 1;
        assert(tokens@.take(at as int) =~= chunk_tokens(chunks@, i as int));
    }
    assert(tokens@.take(tokens@.len() as int) =~= tokens@);
    at == tokens.len()
}

proof fn lemma_tokens_prefix(chunks: Seq<CompressorChunk>, i: int, n: int)
    requires
        0 <= i <= n,
    ensures
        chunk_tokens(chunks, i).len() <= chunk_tokens(chunks, n).len(),
        forall|k: int|
            0 <= k < chunk_tokens(chunks, i).len() ==> chunk_tokens(chunks, n)[k] == #[trigger] chunk_tokens(
                chunks,
                i,
            )[k],
    decreases n,
{
    if i < n {
        lemma_tokens_prefix(chunks, i, n - 1);
    }
}

/// The query's hidden rows are the batch's rows.
pub open spec fn query_matches(
    wave: &CompressorWave,
    prepared: &Prepared,
    query: AttentionQueryOutput,
) -> bool {
    &&& query.binding matches Some(binding) && binding.layer == wave.layer
    &&& query.layer == wave.layer
    &&& query.rows == prepared.rows
    &&& query.hidden.bytes == prepared.rows * 10240
    &&& query.hidden.device == wave.buffers.input.device
    &&& query.tokens@ == chunk_tokens(prepared.chunks@, prepared.chunks@.len() as int)
}

/// The query's hidden rows are those of the chunks.
pub open spec fn query_covers(
    wave: &CompressorWave,
    chunks: Seq<CompressorChunk>,
    query: AttentionQueryOutput,
) -> bool {
    let n = chunks.len() as int;
    &&& query.binding matches Some(binding) && binding.layer == wave.layer
    &&& query.layer == wave.layer
    &&& query.rows == wave::chunk_rows(chunks, n)
    &&& query.hidden.bytes == wave::chunk_rows(chunks, n) * 10240
    &&& query.hidden.device == wave.buffers.input.device
    &&& query.tokens@ == chunk_tokens(chunks, n)
}

/// The captured executions that are left in `graphs`, in order.
pub open spec fn handles(graphs: Seq<Option<CapturedGraph>>) -> Seq<u64>
    decreases graphs.len(),
{
    if graphs.len() == 0 {
        Seq::empty()
    } else {
        let before = handles(graphs.drop_last());
        match graphs.last() {
            Some(graph) => before.push(graph.handle),
            None => before,
        }
    }
}

impl CompressorWave {
    /// Some captured execution belongs to another cache.
    pub open spec fn foreign_graph(&self, owner: u64) -> bool {
        ||| self.graph matches Some(graph) && graph.owner != owner
        ||| exists|k: int|
            0 <= k < self.retained@.len() && owner_differs(#[trigger] self.retained@[k], owner)
    }

    /// The current execution has the wanted shape and owner.
    pub open spec fn graph_selected(&self, rows: usize, owner: u64) -> bool {
        self.graph matches Some(graph) && graph.rows == rows && graph.owner == owner
    }

    /// No captured execution is left; `gone` are to be destroyed.
    pub open spec fn cleared(&self, before: &Self, gone: Seq<u64>) -> bool {
        &&& self.graph is None
        &&& self.retained@ == Seq::new(RETAINED_SHAPES as nat, |k: int| None::<CapturedGraph>)
        &&& self.ready is None
        &&& gone == handles(seq![before.graph]) + handles(before.retained@)
        &&& self.same_but_graphs(before)
    }

    pub open spec fn same_but_graphs(&self, before: &Self) -> bool {
        &&& self.layer == before.layer
        &&& self.capacity == before.capacity
        &&& self.buffers == before.buffers
        &&& self.pending_query == before.pending_query
        &&& self.pending_commit == before.pending_commit
        &&& self.replica == before.replica
    }

    /// The kept shapes after the current execution has been put back.
    pub open spec fn shelved(&self) -> Seq<Option<CapturedGraph>> {
        match self.graph {
            Some(graph) => if graph.rows <= RETAINED_SHAPES {
                self.retained@.update(graph.rows - 1, Some(graph))
            } else {
                self.retained@
            },
            None => self.retained@,
        }
    }

    /// The execution that is current once `rows` rows of `owner` are selected.
    pub open spec fn chosen_graph(&self, rows: int, owner: u64) -> Option<CapturedGraph> {
        if self.graph matches Some(graph) && graph.rows == rows && graph.owner == owner {
            self.graph
        } else if !self.foreign_graph(owner) && 1 <= rows <= RETAINED_SHAPES {
            self.shelved()[rows - 1]
        } else {
            None
        }
    }

    /// The kept shapes once `rows` rows of `owner` are selected.
    pub open spec fn graphs_left(&self, rows: int, owner: u64) -> Seq<Option<CapturedGraph>> {
        if self.graph matches Some(graph) && graph.rows == rows && graph.owner == owner {
            self.retained@
        } else if self.foreign_graph(owner) {
            Seq::new(RETAINED_SHAPES as nat, |k: int| None::<CapturedGraph>)
        } else if 1 <= rows <= RETAINED_SHAPES {
            self.shelved().update(rows - 1, None)
        } else {
            self.shelved()
        }
    }

    /// The executions to destroy once `rows` rows of `owner` are selected.
    pub open spec fn graphs_gone(&self, rows: int, owner: u64) -> Seq<u64> {
        if self.graph matches Some(graph) && graph.rows == rows && graph.owner == owner {
            Seq::empty()
        } else if self.foreign_graph(owner) {
            handles(seq![self.graph]) + handles(self.retained@)
        } else {
            match self.graph {
                Some(graph) => if graph.rows > RETAINED_SHAPES {
                    seq![graph.handle]
                } else {
                    Seq::empty()
                },
                None => Seq::empty(),
            }
        }
    }

    /// Forgets all captured executions. The result lists those to destroy.
    pub fn clear_graph(&mut self) -> (r: Result<Vec<u64>, Error>)
        requires
            old(self).inv(),
        ensures
            final(self).inv(),
            match r {
                Ok(gone) => {
                    &&& old(self).pending_query is None && old(self).pending_commit is None
                    &&& final(self).cleared(old(self), gone@)
                },
                Err(e) => {
                    &&& *final(self) == *old(self)
                    &&& e == if old(self).pending_query is Some {
                        Error::ClearPendingQuery
                    } else {
                        Error::ResetPendingCommit
                    }
                    &&& old(self).pending_query is Some || old(self).pending_commit is Some
                },
            },
    {
        if self.pending_query.is_some() {
            return Err(Error::ClearPendingQuery);
        }
        if self.pending_commit.is_some() {
            return Err(Error::ResetPendingCommit);
        }
        self.ready = None;
        let mut gone: Vec<u64> = Vec::new();
        proof {
            assert(seq![old(self).graph].drop_last() =~= Seq::<Option<CapturedGraph>>::empty());
            assert(seq![old(self).graph].last() == old(self).graph);
        }
        if let Some(graph) = self.graph {
            gone.push(graph.handle);
        }
        self.graph = None;
        let ghost first = gone@;
        let mut k: usize = 0;
        assert(first + handles(old(self).retained@.take(0)) =~= first);
        while k < RETAINED_SHAPES
            invariant
                k <= RETAINED_SHAPES,
                old(self).inv(),
                self.same_but_graphs(old(self)),
                self.ready is None,
                self.graph is None,
                self.retained@.len() == RETAINED_SHAPES,
                forall|x: int| 0 <= x < k ==> #[trigger] self.retained@[x] is None,
                forall|x: int|
                    k <= x < RETAINED_SHAPES ==> #[trigger] self.retained@[x] == old(self).retained@[x],
                gone@ == first + handles(old(self).retained@.take(k as int)),
            decreases RETAINED_SHAPES - k,
        {
            proof {
                let kept = old(self).retained@;
                assert(kept.take(k + 1).drop_last() =~= kept.take(k as int));
                assert(kept.take(k + 1).last() == self.retained@[k as int]);
            }
            if let Some(graph) = self.retained[k] {
                gone.push(graph.handle);
            }
            self.retained[k] = None;
            k = k + 1;
            assert(gone@ =~= first + handles(old(self).retained@.take(k as int)));
        }
        proof {
            assert(old(self).retained@.take(k as int) =~= old(self).retained@);
            assert(self.retained@ =~= Seq::new(
                RETAINED_SHAPES as nat,
                |x: int| None::<CapturedGraph>,
            ));
            assert(first =~= handles(seq![old(self).graph])) by {
                assert(handles(Seq::<Option<CapturedGraph>>::empty()) =~= Seq::<u64>::empty());
            }
        }
        Ok(gone)
    }

    /// Makes the execution for `rows` rows current, if it has been captured. It is
    /// switched only after prior launches have finished. The result lists the
    /// executions to destroy.
    pub fn select_graph(&mut self, rows: usize, owner: u64) -> (r: Result<Vec<u64>, Error>)
        requires
            old(self).inv(),
            rows <= old(self).capacity,
        ensures
            final(self).inv(),
            match r {
                Err(e) => {
                    &&& e == Error::SwitchPendingGraph
                    &&& !old(self).graph_selected(rows, owner)
                    &&& old(self).pending_query is Some || old(self).pending_commit is Some
                    &&& *final(self) == *old(self)
                },
                Ok(gone) => if old(self).graph_selected(rows, owner) {
                    *final(self) == *old(self) && gone@.len() == 0
                } else {
                    &&& old(self).pending_query is None && old(self).pending_commit is None
                    &&& if old(self).foreign_graph(owner) {
                        final(self).cleared(old(self), gone@)
                    } else {
                        let kept = old(self).shelved();
                        &&& final(self).same_but_graphs(old(self))
                        &&& final(self).ready is None
                        &&& if 1 <= rows <= RETAINED_SHAPES {
                            &&& final(self).graph == kept[rows - 1]
                            &&& final(self).retained@ == kept.update(rows - 1, None)
                        } else {
                            &&& final(self).graph is None
                            &&& final(self).retained@ == kept
                        }
                        &&& gone@ == match old(self).graph {
                            Some(graph) => if graph.rows > RETAINED_SHAPES {
                                seq![graph.handle]
                            } else {
                                Seq::empty()
                            },
                            None => Seq::empty(),
                        }
                        &&& final(self).graph is Some ==> final(self).graph_selected(rows, owner)
                    }
                },
            },
    {
        if let Some(graph) = self.graph {
            if graph.rows == rows && graph.owner == owner {
                return Ok(Vec::new());
            }
        }
        if self.pending_query.is_some() || self.pending_commit.is_some() {
            return Err(Error::SwitchPendingGraph);
        }
        if self.has_foreign_graph(owner) {
            return self.clear_graph();
        }
        let ghost before = *self;
        self.ready = None;
        let mut gone: Vec<u64> = Vec::new();
        if let Some(graph) = self.graph {
            if graph.rows <= RETAINED_SHAPES {
                self.retained[graph.rows - 1] = Some(graph);
            } else {
                gone.push(graph.handle);
            }
        }
        self.graph = None;
        assert(self.retained@ =~= before.shelved());
        if rows >= 1 && rows <= RETAINED_SHAPES {
            self.graph = self.retained[rows - 1];
            self.retained[rows - 1] = None;
            proof {
                let kept = before.shelved();
                if let Some(graph) = kept[rows - 1] {
                    if before.graph is Some && before.graph->Some_0.rows == rows {
                        assert(graph == before.graph->Some_0);
                    } else {
                        assert(kept[rows - 1] == before.retained@[rows - 1]);
                        assert(!owner_differs(before.retained@[rows - 1], owner));
                    }
                }
            }
        }
        assert(gone@ =~= match before.graph {
            Some(graph) => if graph.rows > RETAINED_SHAPES {
                seq![graph.handle]
            } else {
                Seq::empty()
            },
            None => Seq::empty(),
        });
        Ok(gone)
    }

    fn has_foreign_graph(&self, owner: u64) -> (r: bool)
        requires
            self.inv(),
        ensures
            r == self.foreign_graph(owner),
    {
        if let Some(graph) = self.graph {
            if graph.owner != owner {
                return true;
            }
        }
        let mut k: usize = 0;
        while k < self.retained.len()
            invariant
                k <= self.retained@.len(),
                forall|x: int| 0 <= x < k ==> !owner_differs(#[trigger] self.retained@[x], owner),
            decreases self.retained@.len() - k,
        {
            if let Some(graph) = self.retained[k] {
                if graph.owner != owner {
                    assert(owner_differs(self.retained@[k as int], owner));
                    return true;
                }
            }
            k = k + 1;
        }
        false
    }

    /// Whether the hidden rows of `query` are those of the batch.
    fn check_query(&self, prepared: &Prepared, query: &AttentionQueryOutput) -> (r: Result<
        bool,
        Error,
    >)
        requires
            self.inv(),
            forall|i: int|
                0 <= i < prepared.chunks@.len() ==> (#[trigger] prepared.chunks@[i]).position
                    + prepared.chunks@[i].tokens <= MAX_CONTEXT,
            prepared.rows <= 4096,
        ensures
            match r {
                Ok(same) => query.binding is Some && same == query_matches(self, prepared, *query),
                Err(e) => e == Error::QueryUnbound && query.binding is None,
            },
    {
        let binding = match query.binding() {
            Err(e) => {
                return Err(e);
            },
            Ok(binding) => binding,
        };
        Ok(
            binding.layer == self.layer && query.layer == self.layer && query.rows == prepared.rows
                && query.hidden.bytes == prepared.rows * 10240 && query.hidden.device
                == self.buffers.input.device && covers(query.tokens, &prepared.chunks),
        )
    }

    /// Why a query's rows cannot be queued.
    pub open spec fn queue_error(
        &self,
        state: &CompressorState,
        home: i32,
        carry: Option<i32>,
        chunks: Seq<CompressorChunk>,
        query: AttentionQueryOutput,
        next_snapshot: u64,
    ) -> Option<Error> {
        let n = chunks.len() as int;
        let reason = wave::first_chunk_error(state, chunks, self.capacity as int, n);
        if self.batch_error(state, home, carry, n) is Some {
            self.batch_error(state, home, carry, n)
        } else if next_snapshot == u64::MAX {
            Some(Error::ProposalsExhausted)
        } else if reason is Some {
            reason
        } else if query.binding is None {
            Some(Error::QueryUnbound)
        } else if !query_covers(self, chunks, query) {
            Some(Error::QueuedQueryDiffers)
        } else {
            None
        }
    }

    /// The rows of `query` for `chunks` are queued as proposal `snapshot`, with the
    /// execution of their shape where one is kept.
    pub open spec fn query_queued(
        &self,
        before: &Self,
        state: &CompressorState,
        chunks: Seq<CompressorChunk>,
        query: AttentionQueryOutput,
        snapshot: u64,
    ) -> bool {
        let rows = wave::chunk_rows(chunks, chunks.len() as int);
        &&& self.layer == before.layer
        &&& self.capacity == before.capacity
        &&& self.buffers == before.buffers
        &&& self.replica == before.replica
        &&& self.pending_commit == before.pending_commit
        &&& self.graph == before.chosen_graph(rows, state.owner)
        &&& self.retained@ == before.graphs_left(rows, state.owner)
        &&& self.ready is None
        &&& self.queued_fits(state)
        &&& self.pending_query matches Some((prepared, capture)) && {
            &&& prepared.chunks@ == chunks
            &&& prepared.owner == state.owner
            &&& prepared.snapshot == snapshot
            &&& prepared.versions@ == Seq::new(
                chunks.len(),
                |i: int| state.slots@[chunks[i].lease.slot as int].version,
            )
            &&& before.fits(&prepared, state.slot_count as int)
            &&& query_matches(before, &prepared, query)
            &&& capture == self.graph is None
            &&& self.graph is Some ==> self.graph_selected(prepared.rows, state.owner)
        }
    }

    /// Queues a proposal for the hidden rows of `query`. The caller then copies
    /// them in, uploads the batch's positions and runs the captured execution,
    /// or the plain one where none is current. The result lists the executions
    /// to destroy.
    pub fn enqueue_query(
        &mut self,
        state: &CompressorState,
        home: i32,
        carry: Option<i32>,
        chunks: &[CompressorChunk],
        query: &AttentionQueryOutput,
        next_snapshot: &mut u64,
    ) -> (r: Result<Vec<u64>, Error>)
        requires
            old(self).inv(),
            state.inv(),
        ensures
            final(self).inv(),
            *final(next_snapshot) == old(self).next_proposal(
                state,
                home,
                carry,
                chunks@.len() as int,
                *old(next_snapshot),
            ),
            match r {
                Ok(gone) => {
                    &&& old(self).queue_error(
                        state,
                        home,
                        carry,
                        chunks@,
                        *query,
                        *old(next_snapshot),
                    ) is None
                    &&& gone@ == old(self).graphs_gone(
                        wave::chunk_rows(chunks@, chunks@.len() as int),
                        state.owner,
                    )
                    &&& final(self).query_queued(
                        old(self),
                        state,
                        chunks@,
                        *query,
                        *old(next_snapshot),
                    )
                },
                Err(e) => {
                    &&& old(self).queue_error(
                        state,
                        home,
                        carry,
                        chunks@,
                        *query,
                        *old(next_snapshot),
                    ) == Some(e)
                    &&& final(self).same_but_ready(old(self))
                    &&& final(self).ready == if old(self).pending_query is Some
                        || old(self).pending_commit is Some {
                        old(self).ready
                    } else {
                        None
                    }
                },
            },
    {
        let prepared = match self.prepare(state, home, carry, chunks, next_snapshot) {
            Err(e) => {
                return Err(e);
            },
            Ok(prepared) => prepared,
        };
        match self.check_query(&prepared, query) {
            Err(e) => {
                return Err(e);
            },
            Ok(same) => if !same {
                return Err(Error::QueuedQueryDiffers);
            },
        }
        let gone = match self.select_graph(prepared.rows, state.owner) {
            Err(e) => {
                return Err(e);
            },
            Ok(gone) => gone,
        };
        let capture: bool = self.graph.is_none();
        self.ready = None;
        self.pending_query = Some((prepared, capture));
        Ok(gone)
    }
}

/// A kept execution belongs to another cache.
pub open spec fn owner_differs(graph: Option<CapturedGraph>, owner: u64) -> bool {
    graph matches Some(g) && g.owner != owner
}

/// How the device work of a queued proposal stands.
#[derive(Debug, Clone, Copy, PartialEq, Eq, Structural)]
pub enum QueryProgress {
    /// The lane's stream has not finished.
    Running,
    /// The stream has finished; a missing execution was captured as `handle`.
    Done { captured: Option<u64> },
    /// The stream or the capture failed.
    Failed,
}

impl CompressorWave {
    /// Drops a queued proposal after its stream has been drained.
    pub fn abort_query(&mut self)
        requires
            old(self).inv(),
        ensures
            final(self).inv(),
            *final(self) == (CompressorWave { pending_query: None, ready: None, ..*old(self) }),
    {
        self.pending_query = None;
        self.ready = None;
    }

    /// A queued proposal is the lane's own, and its execution is captured only
    /// where none of its shape is kept.
    pub open spec fn queued_fits(&self, state: &CompressorState) -> bool {
        self.pending_query matches Some((prepared, capture)) ==> {
            &&& prepared.owner == state.owner ==> self.fits(&prepared, state.slot_count as int)
            &&& capture == self.graph is None
            &&& capture && 1 <= prepared.rows <= RETAINED_SHAPES ==> self.retained@[prepared.rows
                - 1] is None
        }
    }

    /// Why a queued proposal cannot be published, if it cannot.
    pub open spec fn publish_error(
        &self,
        state: &CompressorState,
        progress: QueryProgress,
    ) -> Option<Error> {
        match self.pending_query {
            None => Some(Error::NoQueuedQuery),
            Some((prepared, capture)) => if prepared.owner != state.owner {
                Some(Error::QueuedQueryOwner)
            } else {
                match progress {
                    QueryProgress::Running => None,
                    QueryProgress::Failed => Some(Error::QueryExecution),
                    QueryProgress::Done { captured } => if capture && captured is None {
                        Some(Error::QueryExecution)
                    } else {
                        wave::stale_error(state, &prepared, prepared.chunks@.len() as int)
                    },
                }
            },
        }
    }

    /// The lane once what its stream reports is taken into account: a finished
    /// proposal is published, a failed one dropped. An execution that was captured
    /// for the state's owner is kept.
    pub open spec fn polled(&self, state: &CompressorState, progress: QueryProgress) -> CompressorWave {
        let graph = match (self.pending_query, progress) {
            (Some((prepared, true)), QueryProgress::Done { captured: Some(handle) }) => if prepared.owner
                == state.owner {
                Some(CapturedGraph { handle, rows: prepared.rows, owner: state.owner })
            } else {
                self.graph
            },
            _ => self.graph,
        };
        if self.publish_error(state, progress) is Some {
            CompressorWave { pending_query: None, ready: None, graph, ..*self }
        } else if progress is Done {
            CompressorWave {
                pending_query: None,
                ready: Some(self.pending_query->Some_0.0),
                graph,
                ..*self
            }
        } else {
            *self
        }
    }

    /// Publishes a queued proposal once its work is done. A failure drops it.
    pub fn poll_query(&mut self, state: &CompressorState, progress: QueryProgress) -> (r: Result<
        bool,
        Error,
    >)
        requires
            old(self).inv(),
            state.inv(),
            old(self).queued_fits(state),
        ensures
            final(self).inv(),
            *final(self) == old(self).polled(state, progress),
            match r {
                Err(e) => old(self).publish_error(state, progress) == Some(e),
                Ok(done) => {
                    &&& old(self).publish_error(state, progress) is None
                    &&& done == (progress is Done)
                    &&& done ==> final(self).output_error(state) is None
                },
            },
    {
        let owner: u64 = match &self.pending_query {
            None => {
                self.abort_query();
                return Err(Error::NoQueuedQuery);
            },
            Some((prepared, _)) => prepared.owner,
        };
        if owner != state.owner {
            self.abort_query();
            return Err(Error::QueuedQueryOwner);
        }
        let captured: Option<u64> = match progress {
            QueryProgress::Running => {
                return Ok(false);
            },
            QueryProgress::Failed => {
                self.abort_query();
                return Err(Error::QueryExecution);
            },
            QueryProgress::Done { captured } => captured,
        };
        let ghost before = *self;
        let taken = self.pending_query.take();
        if let Some((prepared, capture)) = taken {
            if capture {
                match captured {
                    None => {
                        self.abort_query();
                        return Err(Error::QueryExecution);
                    },
                    Some(handle) => {
                        let rows: usize = prepared.rows;
                        proof {
                            wave::lemma_chunk_rows_monotonic(
                                prepared.chunks@,
                                1,
                                prepared.chunks@.len() as int,
                            );
                            assert(prepared.chunks@[0].tokens > 0);
                            assert(wave::chunk_rows(prepared.chunks@, 0) == 0);
                            assert(wave::chunk_rows(prepared.chunks@, 1)
                                == prepared.chunks@[0].tokens);
                        }
                        self.graph = Some(CapturedGraph { handle, rows, owner: state.owner });
                    },
                }
            }
            self.ready = Some(prepared);
            match self.output(state) {
                Err(e) => {
                    self.abort_query();
                    return Err(e);
                },
                Ok(_) => {},
            }
        }
        Ok(true)
    }
}

proof fn lemma_chunk_errors(
    state: &CompressorState,
    chunks: Seq<CompressorChunk>,
    capacity: int,
    n: int,
)
    ensures
        wave::first_chunk_error(state, chunks, capacity, n) != Some(Error::QueuedQueryDiffers),
    decreases n,
{
    if n > 0 {
        lemma_chunk_errors(state, chunks, capacity, n - 1);
    }
}

/// A proposal that was laid out on the present state is not stale.
proof fn lemma_fresh_is_current(
    state: &CompressorState,
    prepared: &Prepared,
    capacity: int,
    n: int,
)
    requires
        0 <= n <= prepared.chunks@.len(),
        wave::first_chunk_error(state, prepared.chunks@, capacity, n) is None,
        prepared.versions@ == Seq::new(
            prepared.chunks@.len(),
            |i: int| state.slots@[prepared.chunks@[i].lease.slot as int].version,
        ),
    ensures
        wave::stale_error(state, prepared, n) is None,
    decreases n,
{
    if n > 0 {
        lemma_fresh_is_current(state, prepared, capacity, n - 1);
        wave::lemma_no_chunk_error(state, prepared.chunks@, capacity, n, n - 1);
    }
}

impl CompressorWave {
    /// Why a query's rows are not proposed.
    pub open spec fn query_error(
        &self,
        state: &CompressorState,
        home: i32,
        carry: Option<i32>,
        chunks: Seq<CompressorChunk>,
        query: AttentionQueryOutput,
        next_snapshot: u64,
    ) -> Option<Error> {
        let n = chunks.len() as int;
        let reason = wave::first_chunk_error(state, chunks, self.capacity as int, n);
        if self.batch_error(state, home, carry, n) is Some {
            self.batch_error(state, home, carry, n)
        } else if next_snapshot == u64::MAX {
            Some(Error::ProposalsExhausted)
        } else if reason is Some {
            reason
        } else if query.binding is None {
            Some(Error::QueryUnbound)
        } else if !query_covers(self, chunks, query) {
            Some(Error::CompressorQuery)
        } else {
            None
        }
    }

    /// The number of the next proposal after the rows of a query were asked for.
    pub open spec fn next_proposal(
        &self,
        state: &CompressorState,
        home: i32,
        carry: Option<i32>,
        count: int,
        next_snapshot: u64,
    ) -> int {
        if self.batch_error(state, home, carry, count) is None && next_snapshot < u64::MAX {
            next_snapshot + 1
        } else {
            next_snapshot as int
        }
    }

    /// The work for `rows` rows fails: it did not go well, or no execution of this
    /// shape is kept and none was captured.
    pub open spec fn run_fails(
        &self,
        rows: int,
        owner: u64,
        captured: Option<u64>,
        ran: bool,
    ) -> bool {
        !ran || (self.chosen_graph(rows, owner) is None && captured is None)
    }

    /// The executions are those of `before` once `rows` rows of `owner` are
    /// selected; a `captured` one takes the place of a missing one.
    pub open spec fn graphs_kept(
        &self,
        before: &Self,
        rows: int,
        owner: u64,
        captured: Option<u64>,
    ) -> bool {
        &&& self.retained@ == before.graphs_left(rows, owner)
        &&& self.graph == match before.chosen_graph(rows, owner) {
            Some(graph) => Some(graph),
            None => match captured {
                Some(handle) => Some(CapturedGraph { handle, rows: rows as usize, owner }),
                None => None,
            },
        }
    }

    /// Proposes the hidden rows of `query` and waits for the work. `captured` is
    /// the execution that was captured where none of this shape was kept; `ran`
    /// tells whether the device work went well. The executions to destroy are
    /// added to `gone`.
    pub fn execute_query(
        &mut self,
        state: &CompressorState,
        home: i32,
        carry: Option<i32>,
        chunks: &[CompressorChunk],
        query: &AttentionQueryOutput,
        next_snapshot: &mut u64,
        captured: Option<u64>,
        ran: bool,
        gone: &mut Vec<u64>,
    ) -> (r: Result<(), Error>)
        requires
            old(self).inv(),
            state.inv(),
        ensures
            final(self).inv(),
            final(self).layer == old(self).layer,
            final(self).capacity == old(self).capacity,
            final(self).buffers == old(self).buffers,
            final(self).replica == old(self).replica,
            final(self).pending_commit == old(self).pending_commit,
            *final(next_snapshot) == old(self).next_proposal(
                state,
                home,
                carry,
                chunks@.len() as int,
                *old(next_snapshot),
            ),
            ({
                let reason = old(self).query_error(
                    state,
                    home,
                    carry,
                    chunks@,
                    *query,
                    *old(next_snapshot),
                );
                let rows = wave::chunk_rows(chunks@, chunks@.len() as int);
                match reason {
                    Some(first) => {
                        &&& r == Err::<(), Error>(first)
                        &&& *final(self) == (CompressorWave { ready: None, ..*old(self) })
                        &&& final(gone)@ == old(gone)@
                    },
                    None => {
                        &&& final(self).pending_query is None
                        &&& final(gone)@ == old(gone)@ + old(self).graphs_gone(rows, state.owner)
                        &&& if old(self).run_fails(rows, state.owner, captured, ran) {
                            &&& r == Err::<(), Error>(Error::QueryExecution)
                            &&& final(self).ready is None
                            &&& final(self).graphs_kept(old(self), rows, state.owner, None)
                        } else {
                            &&& r is Ok
                            &&& final(self).graphs_kept(old(self), rows, state.owner, captured)
                            &&& final(self).output_error(state) is None
                            &&& final(self).ready matches Some(prepared) && {
                                &&& prepared.chunks@ == chunks@
                                &&& prepared.owner == state.owner
                                &&& prepared.snapshot == *old(next_snapshot)
                                &&& prepared.versions@ == Seq::new(
                                    chunks@.len(),
                                    |i: int| state.slots@[chunks@[i].lease.slot as int].version,
                                )
                                &&& old(self).fits(&prepared, state.slot_count as int)
                            }
                        }
                    },
                }
            }),
    {
        self.ready = None;
        let ghost cleared = *self;
        proof {
            lemma_chunk_errors(
                state,
                chunks@,
                self.capacity as int,
                chunks@.len() as int,
            );
        }
        let mut dropped = match self.enqueue_query(state, home, carry, chunks, query, next_snapshot) {
            Err(e) => {
                if e == Error::QueuedQueryDiffers {
                    return Err(Error::CompressorQuery);
                }
                return Err(e);
            },
            Ok(dropped) => dropped,
        };
        gone.append(&mut dropped);
        let progress = if ran {
            QueryProgress::Done { captured }
        } else {
            QueryProgress::Failed
        };
        proof {
            let rows = wave::chunk_rows(chunks@, chunks@.len() as int);
            assert(cleared.graphs_gone(rows, state.owner) == old(self).graphs_gone(
                rows,
                state.owner,
            ));
            assert(cleared.chosen_graph(rows, state.owner) == old(self).chosen_graph(
                rows,
                state.owner,
            ));
            assert(cleared.graphs_left(rows, state.owner) == old(self).graphs_left(
                rows,
                state.owner,
            ));
            lemma_fresh_is_current(
                state,
                &self.pending_query->Some_0.0,
                self.capacity as int,
                chunks@.len() as int,
            );
        }
        match self.poll_query(state, progress) {
            Err(e) => Err(e),
            Ok(_) => Ok(()),
        }
    }
}

impl CompressorWave {
    /// Publishes a proposal whose plain execution has been drained.
    pub fn execute(&mut self, prepared: Prepared, launched: bool) -> (r: Result<(), Error>)
        requires
            old(self).inv(),
        ensures
            final(self).inv(),
            match r {
                Ok(_) => launched && *final(self) == (CompressorWave {
                    ready: Some(prepared),
                    ..*old(self)
                }),
                Err(e) => e == Error::QueryExecution && !launched && *final(self) == (
                CompressorWave { ready: None, ..*old(self) }),
            },
    {
        if launched {
            self.ready = Some(prepared);
            Ok(())
        } else {
            self.ready = None;
            Err(Error::QueryExecution)
        }
    }

    /// Records a captured execution of `rows` rows. The warmup is not published.
    pub fn capture(&mut self, rows: usize, owner: u64, captured: Option<u64>) -> (r: Result<(), Error>)
        requires
            old(self).inv(),
            1 <= rows <= old(self).capacity,
            rows <= RETAINED_SHAPES ==> old(self).retained@[rows - 1] is None,
        ensures
            final(self).inv(),
            match r {
                Ok(_) => {
                    &&& old(self).graph is None
                    &&& captured matches Some(handle) && *final(self) == (CompressorWave {
                        ready: None,
                        graph: Some(CapturedGraph { handle, rows, owner }),
                        ..*old(self)
                    })
                },
                Err(e) => {
                    &&& e == if old(self).graph is Some {
                        Error::CompressorGraphCaptured
                    } else {
                        Error::QueryExecution
                    }
                    &&& old(self).graph is Some || captured is None
                    &&& *final(self) == (CompressorWave { ready: None, ..*old(self) })
                },
            },
    {
        self.ready = None;
        if self.graph.is_some() {
            return Err(Error::CompressorGraphCaptured);
        }
        match captured {
            None => Err(Error::QueryExecution),
            Some(handle) => {
                self.graph = Some(CapturedGraph { handle, rows, owner });
                Ok(())
            },
        }
    }

    /// The captured execution that serves a batch.
    pub fn replay(&self, prepared: &Prepared, owner: u64) -> (r: Result<u64, Error>)
        ensures
            match r {
                Ok(handle) => self.graph matches Some(graph) && graph.handle == handle
                    && graph.rows == prepared.rows && graph.owner == owner,
                Err(e) => match self.graph {
                    None => e == Error::CompressorGraphMissing,
                    Some(graph) => e == Error::CompressorGraphDiffers && !(graph.rows
                        == prepared.rows && graph.owner == owner),
                },
            },
    {
        match self.graph {
            None => Err(Error::CompressorGraphMissing),
            Some(graph) => if graph.rows == prepared.rows && graph.owner == owner {
                Ok(graph.handle)
            } else {
                Err(Error::CompressorGraphDiffers)
            },
        }
    }
}

} // verus!
