//! Batches of requests that one pass takes forward together.
use crate::backbone_cache;
use crate::backbone_cache::{BackboneCache, CacheLease, EncoderPublication, Request, LAYERS, SOURCE_COUNT};
use crate::cache_phase::CacheStage;
use crate::compressor::{
    reserve_source_snapshot, CompressorChunk, CompressorLease, CompressorState, MAX_CONTEXT,
};
use crate::error::Error;
use crate::window::{WindowChunk, WindowLease, WindowState};
use vstd::prelude::*;

verus! {

/// Rows that one lane can take.
pub const LANE_ROWS: usize = 4096;

/// Requests that one batch can take.
pub const BATCH_REQUESTS: usize = 16;

/// Encoder chunks that one request may have under way.
pub const RESERVED_CHUNKS: usize = 16;

/// Where a batch's rows come from.
#[derive(Debug, Clone, Copy, PartialEq, Eq, Structural)]
pub enum WorkKind {
    Prefill,
    Decode,
    Verify,
}

#[derive(Debug, Clone, Copy, PartialEq, Eq, Structural)]
pub struct CacheWork {
    pub lease: CacheLease,
    pub tokens: u32,
    pub kind: WorkKind,
}

/// A row of a batch as the experts see it.
#[derive(Debug, Clone, Copy, PartialEq, Eq, Structural)]
pub struct ExpertRow {
    pub request_id: u64,
    pub position: u64,
    pub kind: WorkKind,
}

pub struct BatchRequest {
    pub work: CacheWork,
    pub id: u64,
    pub version: u64,
    pub position: u64,
    pub windows: Vec<WindowLease>,
    pub sources: Vec<CompressorLease>,
}

/// Owned metadata that can outlive the producers' execution. Every access to the
/// bank and every commit checks it again against the live requests.
pub struct CacheBatch {
    pub stage: CacheStage,
    pub replay_snapshot: Option<u64>,
    pub reserved: bool,
    pub identity: u64,
    pub owner: u64,
    pub requests: Vec<BatchRequest>,
}

/// The positions of the first `n` requests, request by request.
pub open spec fn batch_positions(requests: Seq<BatchRequest>, n: int) -> Seq<u64>
    decreases n,
{
    if n <= 0 {
        Seq::empty()
    } else {
        batch_positions(requests, n - 1) + request_positions(requests[n - 1])
    }
}

pub open spec fn request_positions(request: BatchRequest) -> Seq<u64> {
    Seq::new(request.work.tokens as nat, |i: int| (request.position + i) as u64)
}

pub open spec fn batch_rows(requests: Seq<BatchRequest>, n: int) -> Seq<ExpertRow>
    decreases n,
{
    if n <= 0 {
        Seq::empty()
    } else {
        batch_rows(requests, n - 1) + request_rows(requests[n - 1])
    }
}

pub open spec fn request_rows(request: BatchRequest) -> Seq<ExpertRow> {
    Seq::new(
        request.work.tokens as nat,
        |i: int|
            ExpertRow {
                request_id: request.id,
                position: (request.position + i) as u64,
                kind: request.work.kind,
            },
    )
}

pub open spec fn window_chunk(request: BatchRequest, layer: int) -> WindowChunk {
    WindowChunk {
        lease: request.windows@[layer],
        position: request.position,
        tokens: request.work.tokens,
    }
}

pub open spec fn source_chunk(request: BatchRequest, i: int) -> CompressorChunk {
    CompressorChunk {
        lease: request.sources@[i],
        position: request.position,
        tokens: request.work.tokens,
    }
}

/// The source that `layer` produces.
pub open spec fn source_of(layer: int) -> Option<int> {
    if layer == 2 {
        Some(0)
    } else if layer == 8 {
        Some(1)
    } else if layer == 14 {
        Some(2)
    } else if layer == 20 {
        Some(3)
    } else {
        None
    }
}

pub fn source_index(layer: usize) -> (r: Option<usize>)
    ensures
        r is Some == source_of(layer as int) is Some,
        r matches Some(i) ==> source_of(layer as int) == Some(i as int) && i < SOURCE_COUNT && layer
            == backbone_cache::source_layer(i as int),
{
    if layer == 2 {
        Some(0)
    } else if layer == 8 {
        Some(1)
    } else if layer == 14 {
        Some(2)
    } else if layer == 20 {
        Some(3)
    } else {
        None
    }
}

impl CacheBatch {
    pub open spec fn wf(&self) -> bool {
        &&& 1 <= self.requests@.len() <= BATCH_REQUESTS
        &&& forall|a: int, b: int|
            0 <= a < b < self.requests@.len() ==> (#[trigger] self.requests@[a]).work.lease != (
            #[trigger] self.requests@[b]).work.lease
        &&& forall|r: int|
            0 <= r < self.requests@.len() ==> {
                let request = #[trigger] self.requests@[r];
                &&& request.windows@.len() == LAYERS
                &&& request.sources@.len() == SOURCE_COUNT
                &&& request.position + request.work.tokens <= MAX_CONTEXT
            }
    }

    pub fn stage(&self) -> (r: CacheStage)
        ensures
            r == self.stage,
    {
        self.stage
    }

    pub fn is_reserved(&self) -> (r: bool)
        ensures
            r == self.reserved,
    {
        self.reserved
    }

    pub fn identity(&self) -> (r: u64)
        ensures
            r == self.identity,
    {
        self.identity
    }

    pub fn request_ids(&self) -> (r: Vec<u64>)
        ensures
            r@ == self.requests@.map_values(|request: BatchRequest| request.id),
    {
        let ghost ids = self.requests@.map_values(|request: BatchRequest| request.id);
        let mut out: Vec<u64> = Vec::new();
        let mut i: usize = 0;
        while i < self.requests.len()
            invariant
                i <= self.requests@.len(),
                ids == self.requests@.map_values(|request: BatchRequest| request.id),
                out@ == ids.take(i as int),
            decreases self.requests@.len() - i,
        {
            out.push(self.requests[i].id);
            i = i + 1;
            assert(out@ =~= ids.take(i as int));
        }
        assert(ids.take(i as int) =~= ids);
        out
    }

    pub fn positions(&self) -> (r: Vec<u64>)
        requires
            self.wf(),
        ensures
            r@ == batch_positions(self.requests@, self.requests@.len() as int),
    {
        let mut out: Vec<u64> = Vec::new();
        let mut i: usize = 0;
        while i < self.requests.len()
            invariant
                i <= self.requests@.len(),
                self.wf(),
                out@ == batch_positions(self.requests@, i as int),
            decreases self.requests@.len() - i,
        {
            let request = &self.requests[i];
            let ghost before = out@;
            let mut t: u32 = 0;
            while t < request.work.tokens
                invariant
                    t <= request.work.tokens,
                    request.position + request.work.tokens <= MAX_CONTEXT,
                    out@ == before + request_positions(*request).take(t as int),
                decreases request.work.tokens - t,
            {
                out.push(request.position + t as u64);
                t = t + 1;
                assert(out@ =~= before + request_positions(*request).take(t as int));
            }
            assert(request_positions(*request).take(t as int) =~= request_positions(*request));
            i = i + 1;
        }
        out
    }

    pub fn expert_rows(&self) -> (r: Vec<ExpertRow>)
        requires
            self.wf(),
        ensures
            r@ == batch_rows(self.requests@, self.requests@.len() as int),
    {
        let mut out: Vec<ExpertRow> = Vec::new();
        let mut i: usize = 0;
        while i < self.requests.len()
            invariant
                i <= self.requests@.len(),
                self.wf(),
                out@ == batch_rows(self.requests@, i as int),
            decreases self.requests@.len() - i,
        {
            let request = &self.requests[i];
            let ghost before = out@;
            let mut t: u32 = 0;
            while t < request.work.tokens
                invariant
                    t <= request.work.tokens,
                    request.position + request.work.tokens <= MAX_CONTEXT,
                    out@ == before + request_rows(*request).take(t as int),
                decreases request.work.tokens - t,
            {
                out.push(
                    ExpertRow {
                        request_id: request.id,
                        position: request.position + t as u64,
                        kind: request.work.kind,
                    },
                );
                t = t + 1;
                assert(out@ =~= before + request_rows(*request).take(t as int));
            }
            assert(request_rows(*request).take(t as int) =~= request_rows(*request));
            i = i + 1;
        }
        out
    }

    pub open spec fn window_chunks_of(&self, layer: int) -> Seq<WindowChunk> {
        Seq::new(self.requests@.len(), |r: int| window_chunk(self.requests@[r], layer))
    }

    pub open spec fn source_chunks_of(&self, i: int) -> Seq<CompressorChunk> {
        Seq::new(self.requests@.len(), |r: int| source_chunk(self.requests@[r], i))
    }

    /// The batch's part of a layer's window.
    pub fn window_chunks(&self, layer: usize) -> (r: Result<Vec<WindowChunk>, Error>)
        requires
            self.wf(),
        ensures
            match r {
                Ok(chunks) => self.stage.has_window(layer as int) && chunks@
                    == self.window_chunks_of(layer as int),
                Err(e) => e == Error::BatchWindowLayer && !self.stage.has_window(layer as int),
            },
    {
        let (first, end): (usize, usize) = self.stage.windows();
        if layer < first || layer >= end {
            return Err(Error::BatchWindowLayer);
        }
        let mut out: Vec<WindowChunk> = Vec::new();
        let mut i: usize = 0;
        while i < self.requests.len()
            invariant
                i <= self.requests@.len(),
                self.wf(),
                layer < LAYERS,
                out@ == self.window_chunks_of(layer as int).take(i as int),
            decreases self.requests@.len() - i,
        {
            let request = &self.requests[i];
            out.push(
                WindowChunk {
                    lease: request.windows[layer],
                    position: request.position,
                    tokens: request.work.tokens,
                },
            );
            i = i + 1;
            assert(out@ =~= self.window_chunks_of(layer as int).take(i as int));
        }
        assert(out@ =~= self.window_chunks_of(layer as int));
        Ok(out)
    }

    /// The batch's part of the source that `layer` produces.
    pub fn source_chunks(&self, layer: usize) -> (r: Result<Vec<CompressorChunk>, Error>)
        requires
            self.wf(),
        ensures
            match r {
                Ok(chunks) => {
                    &&& self.stage.sources() != 0
                    &&& source_of(layer as int) matches Some(i) && chunks@
                        == self.source_chunks_of(i)
                },
                Err(e) => if self.stage.sources() == 0 {
                    e == Error::ReplaySources
                } else {
                    e == Error::BatchSourceLayer && source_of(layer as int) is None
                },
            },
    {
        if self.stage.source_count() == 0 {
            return Err(Error::ReplaySources);
        }
        let source: usize = match source_index(layer) {
            None => {
                return Err(Error::BatchSourceLayer);
            },
            Some(source) => source,
        };
        let mut out: Vec<CompressorChunk> = Vec::new();
        let mut i: usize = 0;
        while i < self.requests.len()
            invariant
                i <= self.requests@.len(),
                self.wf(),
                source < SOURCE_COUNT,
                out@ == self.source_chunks_of(source as int).take(i as int),
            decreases self.requests@.len() - i,
        {
            let request = &self.requests[i];
            out.push(
                CompressorChunk {
                    lease: request.sources[source],
                    position: request.position,
                    tokens: request.work.tokens,
                },
            );
            i = i + 1;
            assert(out@ =~= self.source_chunks_of(source as int).take(i as int));
        }
        assert(out@ =~= self.source_chunks_of(source as int));
        Ok(out)
    }
}

/// Tokens of the first `n` items.
pub open spec fn work_rows(work: Seq<CacheWork>, n: int) -> int
    decreases n,
{
    if n <= 0 {
        0
    } else {
        work_rows(work, n - 1) + work[n - 1].tokens
    }
}

/// An earlier item is for the same request.
pub open spec fn repeated(work: Seq<CacheWork>, i: int) -> bool {
    exists|k: int| 0 <= k < i && (#[trigger] work[k]).lease == work[i].lease
}

pub open spec fn all_reserved(chunks: Seq<EncoderPublication>) -> bool {
    forall|k: int| 0 <= k < chunks.len() ==> (#[trigger] chunks[k]).reserved
}

/// Where the next tokens of a request go. A reservation follows the chunks that
/// are under way.
pub open spec fn next_position(request: &Request, reserve: bool) -> u64 {
    if reserve {
        if request.publication@.len() > 0 {
            request.publication@.last().end
        } else {
            request.end
        }
    } else {
        request.phase.next_position(request.end)
    }
}

/// Numbers for batches and source snapshots.
#[derive(Debug, Clone, Copy, PartialEq, Eq, Structural)]
pub struct BatchIds {
    pub next_batch: u64,
    pub next_snapshot: u64,
}

impl BackboneCache {
    /// Why item `i` cannot be part of the batch, if it cannot.
    pub open spec fn item_error(
        &self,
        work: Seq<CacheWork>,
        replay: bool,
        reserve: bool,
        i: int,
    ) -> Option<Error> {
        let item = work[i];
        if item.tokens == 0 || repeated(work, i) {
            Some(Error::BatchRequestRepeated)
        } else if work_rows(work, i + 1) > LANE_ROWS {
            Some(Error::BatchCapacity)
        } else if self.history_error(item.lease) is Some {
            self.history_error(item.lease)
        } else {
            let request = self.live(item.lease);
            let stage = request.phase.stage_of();
            let position = next_position(&request, reserve);
            if reserve && !(stage == CacheStage::Encoder && request.publication@.len()
                < RESERVED_CHUNKS && all_reserved(request.publication@)) {
                Some(Error::EncoderReservation)
            } else if !reserve && request.publication@.len() > 0 {
                Some(Error::PublicationPending)
            } else if !(stage == CacheStage::Full || item.kind == WorkKind::Prefill) {
                Some(Error::PhaseNeedsPrefill)
            } else if (stage == CacheStage::Replay) != replay {
                Some(Error::PlanningPhase)
            } else if stage != self.live(work[0].lease).phase.stage_of() {
                Some(Error::MixedPhases)
            } else if request.phase.limit() matches Some(limit) && position + item.tokens > limit {
                Some(Error::PhaseTokens)
            } else if position + item.tokens > MAX_CONTEXT {
                Some(Error::BatchContext)
            } else {
                None
            }
        }
    }

    pub open spec fn first_item_error(
        &self,
        work: Seq<CacheWork>,
        replay: bool,
        reserve: bool,
        n: int,
    ) -> Option<Error>
        decreases n,
    {
        if n <= 0 {
            None
        } else {
            match self.first_item_error(work, replay, reserve, n - 1) {
                Some(e) => Some(e),
                None => self.item_error(work, replay, reserve, n - 1),
            }
        }
    }

    proof fn lemma_item_error_stays(
        &self,
        work: Seq<CacheWork>,
        replay: bool,
        reserve: bool,
        n: int,
        m: int,
    )
        requires
            n <= m,
            self.first_item_error(work, replay, reserve, n) is Some,
        ensures
            self.first_item_error(work, replay, reserve, m) == self.first_item_error(
                work,
                replay,
                reserve,
                n,
            ),
        decreases m - n,
    {
        if n < m && m > 0 {
            self.lemma_item_error_stays(work, replay, reserve, n, m - 1);
        }
    }

    /// Why no batch can be made of the work, if none can.
    pub open spec fn plan_error(
        &self,
        ids: BatchIds,
        work: Seq<CacheWork>,
        replay: bool,
        reserve: bool,
    ) -> Option<Error> {
        if self.poisoned {
            Some(Error::CachePoisoned)
        } else if !(1 <= work.len() <= BATCH_REQUESTS) {
            Some(Error::BatchRequestCount)
        } else {
            match self.first_item_error(work, replay, reserve, work.len() as int) {
                Some(e) => Some(e),
                None => if ids.next_batch == u64::MAX {
                    Some(Error::BatchIdsExhausted)
                } else if self.live(work[0].lease).phase.stage_of() != CacheStage::Full
                    && ids.next_snapshot == u64::MAX {
                    Some(Error::ProposalsExhausted)
                } else {
                    None
                },
            }
        }
    }

    /// What the batch says of an item.
    pub open spec fn planned_request(
        &self,
        item: CacheWork,
        reserve: bool,
        planned: BatchRequest,
    ) -> bool {
        let request = self.live(item.lease);
        &&& planned.work == item
        &&& planned.id == request.id
        &&& planned.version == request.version
        &&& planned.position == next_position(&request, reserve)
        &&& planned.windows@ == request.windows@
        &&& planned.sources@ == request.sources@
    }

    /// Everything but the supply of snapshot numbers admits the batch.
    pub open spec fn lacks_snapshot(
        &self,
        ids: BatchIds,
        work: Seq<CacheWork>,
        replay: bool,
        reserve: bool,
    ) -> bool {
        &&& !self.poisoned
        &&& 1 <= work.len() <= BATCH_REQUESTS
        &&& self.first_item_error(work, replay, reserve, work.len() as int) is None
        &&& ids.next_batch != u64::MAX
    }

    /// What planning returns and which numbers it takes.
    pub open spec fn plan_result(
        &self,
        ids: BatchIds,
        after: BatchIds,
        work: Seq<CacheWork>,
        replay: bool,
        reserve: bool,
        r: Result<CacheBatch, Error>,
    ) -> bool {
        match r {
            Err(e) => {
                &&& self.plan_error(ids, work, replay, reserve) == Some(e)
                &&& after.next_snapshot == ids.next_snapshot
                &&& after.next_batch == if self.lacks_snapshot(ids, work, replay, reserve) {
                    ids.next_batch + 1
                } else {
                    ids.next_batch as int
                }
            },
            Ok(batch) => {
                &&& self.plan_error(ids, work, replay, reserve) is None
                &&& batch.wf()
                &&& batch.stage == self.live(work[0].lease).phase.stage_of()
                &&& batch.reserved == reserve
                &&& batch.owner == self.owner
                &&& batch.identity == ids.next_batch
                &&& after.next_batch == ids.next_batch + 1
                &&& if batch.stage == CacheStage::Full {
                    &&& batch.replay_snapshot is None
                    &&& after.next_snapshot == ids.next_snapshot
                } else {
                    &&& batch.replay_snapshot == Some(ids.next_snapshot)
                    &&& after.next_snapshot == ids.next_snapshot + 1
                }
                &&& batch.requests@.len() == work.len()
                &&& forall|i: int|
                    0 <= i < work.len() ==> self.planned_request(
                        #[trigger] work[i],
                        reserve,
                        batch.requests@[i],
                    )
            },
        }
    }

    /// A batch of ordinary work.
    pub fn plan(&self, ids: &mut BatchIds, work: &[CacheWork]) -> (r: Result<CacheBatch, Error>)
        requires
            self.inv(),
        ensures
            self.plan_result(*old(ids), *final(ids), work@, false, false, r),
    {
        self.plan_stage(ids, work, false, false)
    }

    /// A batch of decoder replay.
    pub fn plan_replay(&self, ids: &mut BatchIds, work: &[CacheWork]) -> (r: Result<
        CacheBatch,
        Error,
    >)
        requires
            self.inv(),
        ensures
            self.plan_result(*old(ids), *final(ids), work@, true, false, r),
    {
        self.plan_stage(ids, work, true, false)
    }

    /// Makes one batch of the work, all of it in one phase.
    pub fn plan_stage(
        &self,
        ids: &mut BatchIds,
        work: &[CacheWork],
        replay: bool,
        reserve: bool,
    ) -> (r: Result<CacheBatch, Error>)
        requires
            self.inv(),
        ensures
            self.plan_result(*old(ids), *final(ids), work@, replay, reserve, r),
    {
        match self.healthy() {
            Err(e) => {
                return Err(e);
            },
            Ok(_) => {},
        }
        if work.len() == 0 || work.len() > BATCH_REQUESTS {
            return Err(Error::BatchRequestCount);
        }
        let mut stage: CacheStage = CacheStage::Full;
        let mut rows: u64 = 0;
        let mut requests: Vec<BatchRequest> = Vec::new();
        let mut i: usize = 0;
        while i < work.len()
            invariant
                i <= work@.len() <= BATCH_REQUESTS,
                1 <= work@.len(),
                self.inv(),
                !self.poisoned,
                *ids == *old(ids),
                rows == work_rows(work@, i as int),
                rows <= LANE_ROWS,
                i > 0 ==> stage == self.live(work@[0].lease).phase.stage_of(),
                self.first_item_error(work@, replay, reserve, i as int) is None,
                requests@.len() == i,
                forall|k: int|
                    0 <= k < i ==> self.planned_request(
                        #[trigger] work@[k],
                        reserve,
                        requests@[k],
                    ),
                forall|a: int, b: int|
                    0 <= a < b < i ==> (#[trigger] requests@[a]).work.lease != (
                    #[trigger] requests@[b]).work.lease,
                forall|k: int|
                    0 <= k < i ==> {
                        let request = #[trigger] requests@[k];
                        &&& request.windows@.len() == LAYERS
                        &&& request.sources@.len() == SOURCE_COUNT
                        &&& request.position + request.work.tokens <= MAX_CONTEXT
                    },
            decreases work@.len() - i,
        {
            let item: CacheWork = work[i];
            proof {
                if self.first_item_error(work@, replay, reserve, i + 1) is Some {
                    self.lemma_item_error_stays(
                        work@,
                        replay,
                        reserve,
                        i + 1,
                        work@.len() as int,
                    );
                }
            }
            if item.tokens == 0 || seen_before(work, i) {
                return Err(Error::BatchRequestRepeated);
            }
            rows = rows + item.tokens as u64;
            if rows > LANE_ROWS as u64 {
                return Err(Error::BatchCapacity);
            }
            match self.committed_end(item.lease) {
                Err(e) => {
                    return Err(e);
                },
                Ok(_) => {},
            }
            let live = match self.request(item.lease) {
                Err(e) => {
                    return Err(e);
                },
                Ok(live) => live,
            };
            assert(self.leases_wf(item.lease.slot as int, live));
            let current: CacheStage = live.phase.stage();
            if reserve {
                if !(current == CacheStage::Encoder && live.publication.len() < RESERVED_CHUNKS
                    && every_reserved(&live.publication)) {
                    return Err(Error::EncoderReservation);
                }
            } else if live.publication.len() > 0 {
                return Err(Error::PublicationPending);
            }
            if !(current == CacheStage::Full || item.kind == WorkKind::Prefill) {
                return Err(Error::PhaseNeedsPrefill);
            }
            if (current == CacheStage::Replay) != replay {
                return Err(Error::PlanningPhase);
            }
            if i > 0 && stage != current {
                return Err(Error::MixedPhases);
            }
            stage = current;
            let position: u64 = if reserve {
                if live.publication.len() > 0 {
                    live.publication[live.publication.len() - 1].end
                } else {
                    live.end
                }
            } else {
                live.phase.position(live.end)
            };
            match live.phase.validate_tokens(position, item.tokens) {
                Err(e) => {
                    return Err(e);
                },
                Ok(_) => {},
            }
            match position.checked_add(item.tokens as u64) {
                Some(end) => {
                    if end > MAX_CONTEXT {
                        return Err(Error::BatchContext);
                    }
                },
                None => {
                    return Err(Error::BatchContext);
                },
            }
            requests.push(
                BatchRequest {
                    work: item,
                    id: live.id,
                    version: live.version,
                    position,
                    windows: copy_window_leases(&live.windows),
                    sources: copy_source_leases(&live.sources),
                },
            );
            proof {
                assert forall|a: int, b: int| 0 <= a < b < i + 1 implies (
                #[trigger] requests@[a]).work.lease != (#[trigger] requests@[b]).work.lease by {
                    if b == i {
                        assert(self.planned_request(work@[a], reserve, requests@[a]));
                        assert(work@[a].lease != item.lease);
                    }
                }
            }
            i = i + 1;
        }
        let identity: u64 = ids.next_batch;
        match identity.checked_add(1) {
            None => {
                return Err(Error::BatchIdsExhausted);
            },
            Some(next) => {
                ids.next_batch = next;
            },
        }
        let replay_snapshot: Option<u64> = if stage != CacheStage::Full {
            match reserve_source_snapshot(&mut ids.next_snapshot) {
                Err(e) => {
                    return Err(e);
                },
                Ok(snapshot) => Some(snapshot),
            }
        } else {
            None
        };
        Ok(
            CacheBatch {
                stage,
                replay_snapshot,
                reserved: reserve,
                identity,
                owner: self.owner,
                requests,
            },
        )
    }
}

impl BackboneCache {
    /// A chunk of the reserved batch that is under way for the request.
    pub open spec fn reserved_chunk(batch: &CacheBatch, r: int, chunk: EncoderPublication) -> bool {
        let planned = batch.requests@[r];
        &&& chunk.reserved
        &&& chunk.batch == batch.identity
        &&& chunk.start == planned.position
        &&& chunk.end == planned.position + planned.work.tokens
    }

    /// The batch's part for a request still starts where the request stands.
    pub open spec fn in_place(&self, batch: &CacheBatch, r: int) -> bool {
        let planned = batch.requests@[r];
        let live = self.live(planned.work.lease);
        if batch.reserved {
            exists|k: int|
                0 <= k < live.publication@.len() && Self::reserved_chunk(
                    batch,
                    r,
                    #[trigger] live.publication@[k],
                )
        } else {
            &&& live.publication@.len() > 0 ==> !live.publication@[0].reserved
                && live.publication@[0].batch == batch.identity
            &&& live.version == planned.version
            &&& live.phase.next_position(live.end) == planned.position
        }
    }

    pub open spec fn batch_request_error(&self, batch: &CacheBatch, r: int) -> Option<Error> {
        let planned = batch.requests@[r];
        match self.history_error(planned.work.lease) {
            Some(e) => Some(e),
            None => {
                let live = self.live(planned.work.lease);
                if live.id == planned.id && live.phase.stage_of() == batch.stage && self.in_place(
                    batch,
                    r,
                ) {
                    None
                } else {
                    Some(Error::StaleBatch)
                }
            },
        }
    }

    pub open spec fn first_batch_error(&self, batch: &CacheBatch, n: int) -> Option<Error>
        decreases n,
    {
        if n <= 0 {
            None
        } else {
            match self.first_batch_error(batch, n - 1) {
                Some(e) => Some(e),
                None => self.batch_request_error(batch, n - 1),
            }
        }
    }

    /// Why the batch is no longer good, if it is not.
    pub open spec fn batch_error(&self, batch: &CacheBatch) -> Option<Error> {
        if self.poisoned {
            Some(Error::CachePoisoned)
        } else if batch.owner != self.owner {
            Some(Error::ForeignBatch)
        } else {
            self.first_batch_error(batch, batch.requests@.len() as int)
        }
    }

    proof fn lemma_batch_error_stays(&self, batch: &CacheBatch, n: int, m: int)
        requires
            n <= m,
            self.first_batch_error(batch, n) is Some,
        ensures
            self.first_batch_error(batch, m) == self.first_batch_error(batch, n),
        decreases m - n,
    {
        if n < m && m > 0 {
            self.lemma_batch_error_stays(batch, n, m - 1);
        }
    }

    pub proof fn lemma_batch_good(&self, batch: &CacheBatch, n: int, r: int)
        requires
            self.first_batch_error(batch, n) is None,
            0 <= r < n,
        ensures
            self.batch_request_error(batch, r) is None,
        decreases n,
    {
        if r < n - 1 {
            self.lemma_batch_good(batch, n - 1, r);
        }
    }

    /// Every request of the batch is as it was when the batch was planned.
    pub fn validate_batch(&self, batch: &CacheBatch) -> (r: Result<(), Error>)
        requires
            self.inv(),
            batch.wf(),
        ensures
            match r {
                Ok(_) => self.batch_error(batch) is None,
                Err(e) => self.batch_error(batch) == Some(e),
            },
    {
        match self.healthy() {
            Err(e) => {
                return Err(e);
            },
            Ok(_) => {},
        }
        if batch.owner != self.owner {
            return Err(Error::ForeignBatch);
        }
        let mut i: usize = 0;
        while i < batch.requests.len()
            invariant
                i <= batch.requests@.len(),
                self.inv(),
                batch.wf(),
                !self.poisoned,
                batch.owner == self.owner,
                self.first_batch_error(batch, i as int) is None,
            decreases batch.requests@.len() - i,
        {
            let planned = &batch.requests[i];
            proof {
                if self.first_batch_error(batch, i + 1) is Some {
                    self.lemma_batch_error_stays(batch, i + 1, batch.requests@.len() as int);
                }
            }
            match self.committed_end(planned.work.lease) {
                Err(e) => {
                    return Err(e);
                },
                Ok(_) => {},
            }
            let live = match self.request(planned.work.lease) {
                Err(e) => {
                    return Err(e);
                },
                Ok(live) => live,
            };
            let placed: bool = if batch.reserved {
                let end: u64 = planned.position + planned.work.tokens as u64;
                let mut found: bool = false;
                let mut k: usize = 0;
                while k < live.publication.len()
                    invariant
                        k <= live.publication@.len(),
                        i < batch.requests@.len(),
                        *planned == batch.requests@[i as int],
                        end == planned.position + planned.work.tokens,
                        found == exists|m: int|
                            0 <= m < k && Self::reserved_chunk(
                                batch,
                                i as int,
                                #[trigger] live.publication@[m],
                            ),
                    decreases live.publication@.len() - k,
                {
                    let chunk = live.publication[k];
                    let here: bool = chunk.reserved && chunk.batch == batch.identity && chunk.start
                        == planned.position && chunk.end == end;
                    assert(here == Self::reserved_chunk(
                        batch,
                        i as int,
                        live.publication@[k as int],
                    ));
                    found = found || here;
                    k = k + 1;
                }
                found
            } else {
                let first: bool = if live.publication.len() > 0 {
                    !live.publication[0].reserved && live.publication[0].batch == batch.identity
                } else {
                    true
                };
                first && live.version == planned.version && live.phase.position(live.end)
                    == planned.position
            };
            assert(placed == self.in_place(batch, i as int));
            if !(live.id == planned.id && live.phase.stage() == batch.stage && placed) {
                return Err(Error::StaleBatch);
            }
            i = i + 1;
        }
        Ok(())
    }

    /// A layer's window, for a batch of a pass that runs the layer.
    pub fn window(&self, batch: &CacheBatch, layer: usize) -> (r: Result<&WindowState, Error>)
        requires
            self.inv(),
            batch.wf(),
        ensures
            match r {
                Ok(state) => self.batch_error(batch) is None && batch.stage.has_window(layer as int)
                    && *state == self.windows@[layer as int],
                Err(e) => match self.batch_error(batch) {
                    Some(reason) => e == reason,
                    None => e == Error::WindowOutsidePhase && !batch.stage.has_window(layer as int),
                },
            },
    {
        match self.validate_batch(batch) {
            Err(e) => {
                return Err(e);
            },
            Ok(_) => {},
        }
        let (first, end): (usize, usize) = batch.stage.windows();
        if layer < first || layer >= end {
            return Err(Error::WindowOutsidePhase);
        }
        Ok(&self.windows[layer])
    }

    /// The source that `layer` produces.
    pub fn source(&self, batch: &CacheBatch, layer: usize) -> (r: Result<&CompressorState, Error>)
        requires
            self.inv(),
            batch.wf(),
        ensures
            match r {
                Ok(state) => {
                    &&& self.batch_error(batch) is None
                    &&& source_of(layer as int) matches Some(i) && *state == self.sources@[i]
                },
                Err(e) => match self.batch_error(batch) {
                    Some(reason) => e == reason,
                    None => e == Error::BackboneSourceLayer && source_of(layer as int) is None,
                },
            },
    {
        match self.validate_batch(batch) {
            Err(e) => {
                return Err(e);
            },
            Ok(_) => {},
        }
        match source_index(layer) {
            None => Err(Error::BackboneSourceLayer),
            Some(i) => Ok(&self.sources[i]),
        }
    }
}

/// A freshly planned batch is good as long as nothing changes.
pub proof fn law_planned_batch_is_valid(
    bank: &BackboneCache,
    ids: BatchIds,
    after: BatchIds,
    work: Seq<CacheWork>,
    replay: bool,
    batch: CacheBatch,
)
    requires
        bank.inv(),
        bank.plan_result(ids, after, work, replay, false, Ok::<CacheBatch, Error>(batch)),
    ensures
        bank.batch_error(&batch) is None,
{
    lemma_planned_prefix_valid(bank, ids, after, work, replay, batch, work.len() as int);
}

proof fn lemma_planned_prefix_valid(
    bank: &BackboneCache,
    ids: BatchIds,
    after: BatchIds,
    work: Seq<CacheWork>,
    replay: bool,
    batch: CacheBatch,
    n: int,
)
    requires
        bank.inv(),
        bank.plan_result(ids, after, work, replay, false, Ok::<CacheBatch, Error>(batch)),
        0 <= n <= work.len(),
    ensures
        bank.first_batch_error(&batch, n) is None,
    decreases n,
{
    if n > 0 {
        lemma_planned_prefix_valid(bank, ids, after, work, replay, batch, n - 1);
        lemma_items_good(bank, work, replay, false, work.len() as int, n - 1);
        assert(bank.planned_request(work[n - 1], false, batch.requests@[n - 1]));
    }
}

proof fn lemma_items_good(
    bank: &BackboneCache,
    work: Seq<CacheWork>,
    replay: bool,
    reserve: bool,
    n: int,
    i: int,
)
    requires
        bank.first_item_error(work, replay, reserve, n) is None,
        0 <= i < n,
    ensures
        bank.item_error(work, replay, reserve, i) is None,
    decreases n,
{
    if i < n - 1 {
        lemma_items_good(bank, work, replay, reserve, n - 1, i);
    }
}

/// Batches take different numbers: the second of two planned in a row is not
/// mistaken for the first.
pub proof fn law_batches_are_distinct(
    bank: &BackboneCache,
    first: BatchIds,
    second: BatchIds,
    third: BatchIds,
    work: Seq<CacheWork>,
    other: Seq<CacheWork>,
    a: CacheBatch,
    b: CacheBatch,
)
    requires
        bank.plan_result(first, second, work, false, false, Ok::<CacheBatch, Error>(a)),
        bank.plan_result(second, third, other, false, false, Ok::<CacheBatch, Error>(b)),
    ensures
        a.identity != b.identity,
{
}

fn seen_before(work: &[CacheWork], i: usize) -> (r: bool)
    requires
        i < work@.len(),
    ensures
        r == repeated(work@, i as int),
{
    let mut k: usize = 0;
    while k < i
        invariant
            k <= i < work@.len(),
            forall|m: int| 0 <= m < k ==> (#[trigger] work@[m]).lease != work@[i as int].lease,
        decreases i - k,
    {
        if work[k].lease == work[i].lease {
            return true;
        }
        k = k + 1;
    }
    false
}

fn every_reserved(chunks: &[EncoderPublication]) -> (r: bool)
    ensures
        r == all_reserved(chunks@),
{
    let mut k: usize = 0;
    while k < chunks.len()
        invariant
            k <= chunks@.len(),
            forall|m: int| 0 <= m < k ==> (#[trigger] chunks@[m]).reserved,
        decreases chunks@.len() - k,
    {
        if !chunks[k].reserved {
            return false;
        }
        k = k + 1;
    }
    true
}

fn copy_window_leases(leases: &[WindowLease]) -> (r: Vec<WindowLease>)
    ensures
        r@ == leases@,
{
    let mut out: Vec<WindowLease> = Vec::new();
    let mut i: usize = 0;
    while i < leases.len()
        invariant
            i <= leases@.len(),
            out@ == leases@.take(i as int),
        decreases leases@.len() - i,
    {
        out.push(leases[i]);
        i = i + 1;
        assert(out@ =~= leases@.take(i as int));
    }
    assert(out@ =~= leases@);
    out
}

fn copy_source_leases(leases: &[CompressorLease]) -> (r: Vec<CompressorLease>)
    ensures
        r@ == leases@,
{
    let mut out: Vec<CompressorLease> = Vec::new();
    let mut i: usize = 0;
    while i < leases.len()
        invariant
            i <= leases@.len(),
            out@ == leases@.take(i as int),
        decreases leases@.len() - i,
    {
        out.push(leases[i]);
        i = i + 1;
        assert(out@ =~= leases@.take(i as int));
    }
    assert(out@ =~= leases@);
    out
}

} // verus!
