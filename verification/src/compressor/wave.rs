//! One lane's proposals for a compressed source: which rows they hold, and how
//! they overlay the committed history.
use crate::compressor;
use crate::compressor::commit::PendingCommit;
use crate::compressor::{ratio, reserve_source_snapshot, CompressorChunk, CompressorLatentRow, CompressorLease, CompressorState, MAX_CONTEXT};
use crate::device::DeviceBuffer;
use crate::error::Error;
use crate::source_cache::layout::{IndexCacheView, KvCacheView, SourceBuffers};
use crate::source_cache::replica::SourceReplica;
use crate::source_cache::MAX_SLOTS;
use vstd::prelude::*;

verus! {

/// Rows of the first `n` chunks.
pub open spec fn chunk_rows(chunks: Seq<CompressorChunk>, n: int) -> int
    decreases n,
{
    if n <= 0 {
        0
    } else {
        chunk_rows(chunks, n - 1) + chunks[n - 1].tokens
    }
}

/// Where the ratio-two pool kernel finds the other row of a group: nowhere for
/// the first row, the slot's carried row, or the preceding proposal row.
pub open spec fn descriptor(position: int, j: int, slot: int, previous: int) -> u64 {
    if position % 2 == 0 {
        u64::MAX
    } else if j == 0 {
        slot as u64
    } else {
        previous as u64
    }
}

pub open spec fn chunk_descriptors(
    chunk: CompressorChunk,
    slot_count: int,
    base: int,
    m: int,
) -> Seq<u64> {
    Seq::new(
        m as nat,
        |j: int|
            descriptor(chunk.position + j, j, chunk.lease.slot as int, slot_count + base + j - 1),
    )
}

pub open spec fn descriptors(chunks: Seq<CompressorChunk>, slot_count: int, n: int) -> Seq<u64>
    decreases n,
{
    if n <= 0 {
        Seq::empty()
    } else {
        descriptors(chunks, slot_count, n - 1) + chunk_descriptors(
            chunks[n - 1],
            slot_count,
            chunk_rows(chunks, n - 1),
            chunks[n - 1].tokens as int,
        )
    }
}

/// The rows among the first `m` of a chunk that complete a compression group.
pub open spec fn chunk_completed(
    chunk: CompressorChunk,
    step: int,
    base: int,
    m: int,
) -> Seq<CompressorLatentRow>
    decreases m,
{
    if m <= 0 {
        Seq::empty()
    } else {
        let before = chunk_completed(chunk, step, base, m - 1);
        let position = chunk.position + m - 1;
        if step == 1 || position % 2 == 1 {
            before.push(
                CompressorLatentRow {
                    lease: chunk.lease,
                    source_row: (base + m - 1) as u32,
                    position: (position + 1 - step) as u64,
                },
            )
        } else {
            before
        }
    }
}

pub open spec fn completed_rows(chunks: Seq<CompressorChunk>, step: int, n: int) -> Seq<
    CompressorLatentRow,
>
    decreases n,
{
    if n <= 0 {
        Seq::empty()
    } else {
        completed_rows(chunks, step, n - 1) + chunk_completed(
            chunks[n - 1],
            step,
            chunk_rows(chunks, n - 1),
            chunks[n - 1].tokens as int,
        )
    }
}

/// A proposal for a batch of chunks and the state that it was made on.
pub struct Prepared {
    pub snapshot: u64,
    pub owner: u64,
    pub chunks: Vec<CompressorChunk>,
    pub versions: Vec<u64>,
    pub offsets: Vec<usize>,
    pub descriptors: Vec<u64>,
    pub completed: Vec<CompressorLatentRow>,
    pub rows: usize,
}

impl Prepared {
    /// Layout of the batch, independent of any state.
    pub open spec fn wf(&self, step: int, slot_count: int, capacity: int) -> bool {
        let chunks = self.chunks@;
        let n = chunks.len() as int;
        &&& 0 < n <= MAX_SLOTS
        &&& self.versions@.len() == n
        &&& self.offsets@ == Seq::new(n as nat, |i: int| chunk_rows(chunks, i) as usize)
        &&& self.rows == chunk_rows(chunks, n)
        &&& self.rows <= capacity
        &&& self.descriptors@ == descriptors(chunks, slot_count, n)
        &&& self.completed@ == completed_rows(chunks, step, n)
        &&& forall|i: int|
            0 <= i < n ==> {
                &&& (#[trigger] chunks[i]).tokens > 0
                &&& chunks[i].lease.slot < slot_count
                &&& chunks[i].position + chunks[i].tokens <= MAX_CONTEXT
            }
        &&& forall|i: int, j: int|
            0 <= i < j < n ==> (#[trigger] chunks[i]).lease.slot != (
            #[trigger] chunks[j]).lease.slot
    }
}

/// A captured execution of one row count against one cache owner.
#[derive(Debug, Clone, Copy, PartialEq, Eq, Structural)]
pub struct CapturedGraph {
    pub handle: u64,
    pub rows: usize,
    pub owner: u64,
}

/// Bytes of one lane's proposal storage.
pub open spec fn wave_bytes(layer: int, rows: int, workspace: int) -> Result<int, Error> {
    if !(1 <= rows <= 4096) {
        Err(Error::CompressorRows)
    } else {
        match compressor::layer_ratio(layer) {
            Err(e) => Err(e),
            Ok(step) => {
                let bytes = workspace + rows * if step == 2 {
                    16508int
                } else {
                    13428int
                };
                if bytes <= usize::MAX {
                    Ok(bytes)
                } else {
                    Err(Error::BudgetOverflow)
                }
            },
        }
    }
}

/// The first rows among the first `n` chunks that break the batch.
pub open spec fn chunk_error(
    state: &CompressorState,
    chunks: Seq<CompressorChunk>,
    capacity: int,
    i: int,
) -> Option<Error> {
    let chunk = chunks[i];
    let rows = chunk_rows(chunks, i) + chunk.tokens;
    match state.idle_error(chunk.lease) {
        Some(e) => Some(e),
        None => if chunk.tokens == 0 || exists|j: int|
            0 <= j < i && (#[trigger] chunks[j]).lease.slot == chunk.lease.slot {
            Some(Error::CompressorChunk)
        } else if chunk.position != state.slots@[chunk.lease.slot as int].end {
            Some(Error::CompressorPosition)
        } else if rows > usize::MAX {
            Some(Error::CompressorRowOverflow)
        } else if rows > capacity {
            Some(Error::CompressorBatchRows)
        } else if chunk.position + chunk.tokens > MAX_CONTEXT {
            Some(Error::CompressorChunkContext)
        } else {
            None
        },
    }
}

pub open spec fn first_chunk_error(
    state: &CompressorState,
    chunks: Seq<CompressorChunk>,
    capacity: int,
    n: int,
) -> Option<Error>
    decreases n,
{
    if n <= 0 {
        None
    } else {
        match first_chunk_error(state, chunks, capacity, n - 1) {
            Some(e) => Some(e),
            None => chunk_error(state, chunks, capacity, n - 1),
        }
    }
}

proof fn lemma_chunk_error_stays(
    state: &CompressorState,
    chunks: Seq<CompressorChunk>,
    capacity: int,
    n: int,
    m: int,
)
    requires
        first_chunk_error(state, chunks, capacity, n) is Some,
        0 <= n <= m,
    ensures
        first_chunk_error(state, chunks, capacity, m) == first_chunk_error(
            state,
            chunks,
            capacity,
            n,
        ),
    decreases m,
{
    if n < m {
        lemma_chunk_error_stays(state, chunks, capacity, n, m - 1);
    }
}

pub proof fn lemma_no_chunk_error(
    state: &CompressorState,
    chunks: Seq<CompressorChunk>,
    capacity: int,
    n: int,
    i: int,
)
    requires
        first_chunk_error(state, chunks, capacity, n) is None,
        0 <= i < n,
    ensures
        chunk_error(state, chunks, capacity, i) is None,
    decreases n,
{
    if i < n - 1 {
        lemma_no_chunk_error(state, chunks, capacity, n - 1, i);
    }
}

/// Lays out an admissible batch. `step` is the source's ratio, `capacity` the
/// number of rows that the lane can hold.
fn lay_out(
    state: &CompressorState,
    chunks: &[CompressorChunk],
    step: u64,
    capacity: usize,
    snapshot: u64,
) -> (r: Result<Prepared, Error>)
    requires
        state.inv(),
        step == state.step(),
        capacity <= 4096,
        0 < chunks@.len() <= state.slot_count,
    ensures
        match r {
            Ok(p) => {
                &&& first_chunk_error(
                    state,
                    chunks@,
                    capacity as int,
                    chunks@.len() as int,
                ) is None
                &&& p.chunks@ == chunks@
                &&& p.owner == state.owner
                &&& p.snapshot == snapshot
                &&& p.versions@ == Seq::new(
                    chunks@.len(),
                    |i: int| state.slots@[chunks@[i].lease.slot as int].version,
                )
                &&& p.wf(step as int, state.slot_count as int, capacity as int)
            },
            Err(e) => first_chunk_error(state, chunks@, capacity as int, chunks@.len() as int)
                == Some(e),
        },
{
    let n: usize = chunks.len();
    let ghost slots = state.slot_count as int;
    let mut list: Vec<CompressorChunk> = Vec::new();
    let mut versions: Vec<u64> = Vec::new();
    let mut offsets: Vec<usize> = Vec::new();
    let mut described: Vec<u64> = Vec::new();
    let mut completed: Vec<CompressorLatentRow> = Vec::new();
    let mut rows: usize = 0;
    let mut i: usize = 0;
    while i < n
        invariant
            i <= n == chunks@.len() <= MAX_SLOTS,
            state.inv(),
            slots == state.slot_count,
            step == state.step(),
            capacity <= 4096,
            rows <= capacity,
            rows == chunk_rows(chunks@, i as int),
            list@ == chunks@.take(i as int),
            versions@ == Seq::new(
                i as nat,
                |k: int| state.slots@[chunks@[k].lease.slot as int].version,
            ),
            offsets@ == Seq::new(i as nat, |k: int| chunk_rows(chunks@, k) as usize),
            described@ == descriptors(chunks@, slots, i as int),
            completed@ == completed_rows(chunks@, step as int, i as int),
            first_chunk_error(state, chunks@, capacity as int, i as int) is None,
        decreases n - i,
    {
        let chunk = chunks[i];
        proof {
            if chunk_error(state, chunks@, capacity as int, i as int) is Some {
                assert(first_chunk_error(state, chunks@, capacity as int, i + 1) is Some);
                lemma_chunk_error_stays(state, chunks@, capacity as int, i + 1, n as int);
            }
        }
        let slot: usize = match state.validate(chunk.lease) {
            Err(e) => {
                return Err(e);
            },
            Ok(slot) => slot,
        };
        if chunk.tokens == 0 || has_slot(chunks, i, slot) {
            return Err(Error::CompressorChunk);
        }
        if chunk.position != state.slots[slot].end {
            return Err(Error::CompressorPosition);
        }
        let end: usize = match rows.checked_add(chunk.tokens as usize) {
            None => {
                return Err(Error::CompressorRowOverflow);
            },
            Some(end) => end,
        };
        if end > capacity {
            return Err(Error::CompressorBatchRows);
        }
        assert(state.slots@[slot as int].end <= MAX_CONTEXT);
        if chunk.position + chunk.tokens as u64 > MAX_CONTEXT {
            return Err(Error::CompressorChunkContext);
        }
        list.push(chunk);
        versions.push(state.slots[slot].version);
        offsets.push(rows);
        let ghost described_before = described@;
        let ghost completed_before = completed@;
        let mut j: u32 = 0;
        while j < chunk.tokens
            invariant
                j <= chunk.tokens,
                state.inv(),
                slots == state.slot_count,
                slot == chunk.lease.slot,
                step == 1 || step == 2,
                rows + chunk.tokens <= capacity <= 4096,
                chunk.position + chunk.tokens <= MAX_CONTEXT,
                described@ == described_before + chunk_descriptors(
                    chunk,
                    slots,
                    rows as int,
                    j as int,
                ),
                completed@ == completed_before + chunk_completed(
                    chunk,
                    step as int,
                    rows as int,
                    j as int,
                ),
            decreases chunk.tokens - j,
        {
            let position: u64 = chunk.position + j as u64;
            let row: usize = rows + j as usize;
            if step == 1 || position % 2 == 1 {
                completed.push(
                    CompressorLatentRow {
                        lease: chunk.lease,
                        source_row: row as u32,
                        position: position + 1 - step,
                    },
                );
            }
            let previous: u64 = if position % 2 == 0 {
                u64::MAX
            } else if j == 0 {
                slot as u64
            } else {
                (state.slot_count + row - 1) as u64
            };
            described.push(previous);
            j = j + 1;
            assert(described@ =~= described_before + chunk_descriptors(
                chunk,
                slots,
                rows as int,
                j as int,
            ));
            assert(completed@ =~= completed_before + chunk_completed(
                chunk,
                step as int,
                rows as int,
                j as int,
            ));
        }
        rows = end;
        i = i + 1;
    }
    proof {
        assert(chunks@.take(i as int) =~= chunks@);
        assert forall|k: int| 0 <= k < n implies {
            &&& (#[trigger] chunks@[k]).tokens > 0
            &&& chunks@[k].lease.slot < slots
            &&& chunks@[k].position + chunks@[k].tokens <= MAX_CONTEXT
        } by {
            lemma_no_chunk_error(state, chunks@, capacity as int, n as int, k);
        }
        assert forall|k: int, l: int| 0 <= k < l < n implies (#[trigger] chunks@[k]).lease.slot != (
        #[trigger] chunks@[l]).lease.slot by {
            lemma_no_chunk_error(state, chunks@, capacity as int, n as int, l);
        }
    }
    Ok(
        Prepared {
            snapshot,
            owner: state.owner,
            chunks: list,
            versions,
            offsets,
            descriptors: described,
            completed,
            rows,
        },
    )
}

/// One of the first `n` chunks belongs to `slot`.
fn has_slot(chunks: &[CompressorChunk], n: usize, slot: usize) -> (r: bool)
    requires
        n <= chunks@.len(),
    ensures
        r == exists|j: int| 0 <= j < n && (#[trigger] chunks@[j]).lease.slot == slot,
{
    let mut j: usize = 0;
    while j < n
        invariant
            j <= n <= chunks@.len(),
            forall|k: int| 0 <= k < j ==> (#[trigger] chunks@[k]).lease.slot != slot,
        decreases n - j,
    {
        if chunks[j].lease.slot == slot {
            assert(chunks@[j as int].lease.slot == slot);
            return true;
        }
        j = j + 1;
    }
    false
}

/// Exact producing execution and request lease, for candidate sharing.
#[derive(Debug, Clone, Copy, PartialEq, Eq, Structural)]
pub struct IndexBinding {
    pub snapshot: u64,
    pub lease: CompressorLease,
}

impl IndexBinding {
    pub fn same_request(self, other: Self) -> (r: bool)
        ensures
            r == (self.lease == other.lease),
    {
        self.lease == other.lease
    }

    pub fn same_pool(self, other: Self) -> (r: bool)
        ensures
            r == (self.lease.owner == other.lease.owner),
    {
        self.lease.owner == other.lease.owner
    }
}

/// A request's committed history and, over it, the rows of the current proposal.
pub struct IndexProposal<'a> {
    pub binding: IndexBinding,
    pub request: u64,
    pub source_layer: usize,
    pub cache: IndexCacheView<'a>,
    pub kv_cache: KvCacheView<'a>,
    pub kv_values: DeviceBuffer,
    pub kv_scales: DeviceBuffer,
    pub packed: DeviceBuffer,
    pub scales: DeviceBuffer,
    pub capacity: usize,
    pub first_token: u64,
    pub end_token: u64,
    pub start: u64,
    pub count: u64,
    pub offset: u64,
    pub step: u64,
}

impl<'a> IndexProposal<'a> {
    pub fn request_id(&self) -> (r: u64)
        ensures
            r == self.request,
    {
        self.request
    }

    pub fn first_token(&self) -> (r: u64)
        ensures
            r == self.first_token,
    {
        self.first_token
    }

    pub fn binding(&self) -> (r: IndexBinding)
        ensures
            r == self.binding,
    {
        self.binding
    }

    pub open spec fn query_words(&self, position: u64) -> Seq<u64> {
        seq![
            0u64,
            ((position + 1) / self.step as int) as u64,
            self.start,
            self.count,
            self.offset,
            self.step,
        ]
    }

    /// Slot, causal rows, first private row, private rows, their offset and
    /// stride for a query at `position`. The slot is zero because the cache is a
    /// single request's page-table view.
    pub fn metadata(&self, position: u64) -> (r: Result<[u64; 6], Error>)
        requires
            self.step > 0,
        ensures
            match r {
                Ok(words) => {
                    &&& self.first_token <= position < self.end_token
                    &&& words@ == self.query_words(position)
                },
                Err(e) => e == Error::QueryOutsideProposal && !(self.first_token <= position
                    < self.end_token),
            },
    {
        if position < self.first_token || position >= self.end_token {
            return Err(Error::QueryOutsideProposal);
        }
        let words: [u64; 6] = [
            0,
            (position + 1) / self.step,
            self.start,
            self.count,
            self.offset,
            self.step,
        ];
        assert(words@ =~= seq![
            0u64,
            ((position + 1) / self.step as int) as u64,
            self.start,
            self.count,
            self.offset,
            self.step,
        ]);
        Ok(words)
    }
}

/// One lane's device storage for proposals.
#[derive(Debug, Clone, Copy, PartialEq, Eq, Structural)]
pub struct WaveBuffers {
    pub input: DeviceBuffer,
    pub output: DeviceBuffer,
    pub frequencies: DeviceBuffer,
    pub index_key: DeviceBuffer,
    pub index_packed: DeviceBuffer,
    pub index_scales: DeviceBuffer,
    pub kv_values: DeviceBuffer,
    pub kv_scales: DeviceBuffer,
}

/// The published rows of a proposal. Only completed, accepted rows may enter
/// the cache; a rejected suffix stays private.
pub struct CompressorOutput<'a> {
    pub buffer: DeviceBuffer,
    pub frequencies: DeviceBuffer,
    pub index_key: DeviceBuffer,
    pub index_packed: DeviceBuffer,
    pub index_scales: DeviceBuffer,
    pub kv_values: DeviceBuffer,
    pub kv_scales: DeviceBuffer,
    pub completed: &'a [CompressorLatentRow],
}

/// `buffer` cut to its first `bytes` bytes.
pub open spec fn cut(buffer: DeviceBuffer, bytes: int) -> DeviceBuffer {
    DeviceBuffer { bytes: bytes as usize, ..buffer }
}

pub struct CompressorWave {
    pub layer: usize,
    pub capacity: usize,
    pub buffers: WaveBuffers,
    pub ready: Option<Prepared>,
    /// A queued proposal, and whether its execution is still to be captured.
    pub pending_query: Option<(Prepared, bool)>,
    pub pending_commit: Option<PendingCommit>,
    pub graph: Option<CapturedGraph>,
    /// Small shapes of this lane; `retained[n - 1]` holds the shape of `n` rows.
    pub retained: Vec<Option<CapturedGraph>>,
    /// Pool of the peer copy that commits of this lane are published to.
    pub replica: Option<u64>,
}

pub const RETAINED_SHAPES: usize = 64;

impl CompressorWave {
    pub open spec fn step(&self) -> int {
        if self.layer == 20 {
            1
        } else {
            2
        }
    }

    pub open spec fn graphs_wf(&self) -> bool {
        &&& self.retained@.len() == RETAINED_SHAPES
        &&& forall|k: int|
            0 <= k < RETAINED_SHAPES ==> ((#[trigger] self.retained@[k]) matches Some(graph)
                ==> graph.rows == k + 1)
        &&& self.graph matches Some(graph) ==> 1 <= graph.rows <= self.capacity && (graph.rows
            <= RETAINED_SHAPES ==> self.retained@[graph.rows - 1] is None)
    }

    pub open spec fn inv(&self) -> bool {
        &&& compressor::layer_ratio(self.layer as int) is Ok
        &&& 1 <= self.capacity <= 4096
        &&& self.graphs_wf()
    }

    /// A proposal of this lane fits a source with `slot_count` slots.
    pub open spec fn fits(&self, prepared: &Prepared, slot_count: int) -> bool {
        prepared.wf(self.step(), slot_count, self.capacity as int)
    }

    pub fn device_bytes(layer: usize, rows: usize, workspace: usize) -> (r: Result<usize, Error>)
        ensures
            crate::source_cache::same_count(
                r,
                wave_bytes(layer as int, rows as int, workspace as int),
            ),
    {
        if rows < 1 || rows > 4096 {
            return Err(Error::CompressorRows);
        }
        let step: usize = match ratio(layer) {
            Err(e) => {
                return Err(e);
            },
            Ok(step) => step,
        };
        let each: usize = if step == 2 {
            16508
        } else {
            13428
        };
        assert(rows * each <= 4096 * 16508) by (nonlinear_arith)
            requires
                rows <= 4096,
                each <= 16508,
        ;
        match workspace.checked_add(rows * each) {
            Some(bytes) => Ok(bytes),
            None => Err(Error::BudgetOverflow),
        }
    }

    /// A lane without proposals or captured executions.
    pub fn new(layer: usize, rows: usize, workspace: usize, budget: usize, buffers: WaveBuffers) -> (r:
        Result<Self, Error>)
        ensures
            match r {
                Err(e) => match wave_bytes(layer as int, rows as int, workspace as int) {
                    Err(reason) => e == reason,
                    Ok(bytes) => e == Error::CompressorWaveBudget && bytes > budget,
                },
                Ok(wave) => {
                    &&& wave_bytes(layer as int, rows as int, workspace as int) matches Ok(bytes)
                        && bytes <= budget
                    &&& wave.inv()
                    &&& wave.layer == layer
                    &&& wave.capacity == rows
                    &&& wave.buffers == buffers
                    &&& wave.ready is None
                    &&& wave.pending_query is None
                    &&& wave.pending_commit is None
                    &&& wave.graph is None
                    &&& wave.replica is None
                    &&& forall|k: int|
                        0 <= k < RETAINED_SHAPES ==> #[trigger] wave.retained@[k] is None
                },
            },
    {
        match Self::device_bytes(layer, rows, workspace) {
            Err(e) => {
                return Err(e);
            },
            Ok(bytes) => if bytes > budget {
                return Err(Error::CompressorWaveBudget);
            },
        }
        let mut retained: Vec<Option<CapturedGraph>> = Vec::new();
        let mut k: usize = 0;
        while k < RETAINED_SHAPES
            invariant
                k <= RETAINED_SHAPES,
                retained@ == Seq::new(k as nat, |i: int| None::<CapturedGraph>),
            decreases RETAINED_SHAPES - k,
        {
            retained.push(None);
            k = k + 1;
        }
        Ok(
            CompressorWave {
                layer,
                capacity: rows,
                buffers,
                ready: None,
                pending_query: None,
                pending_commit: None,
                graph: None,
                retained,
                replica: None,
            },
        )
    }

    /// Packed rows of a batch in chunk order.
    pub fn input(&self) -> (r: DeviceBuffer)
        ensures
            r == self.buffers.input,
    {
        self.buffers.input
    }

    /// Why a batch cannot be proposed, before its chunks are looked at. `home` is
    /// the source's device and `carry` that of its carried rows.
    pub open spec fn batch_error(
        &self,
        state: &CompressorState,
        home: i32,
        carry: Option<i32>,
        count: int,
    ) -> Option<Error> {
        if self.pending_query is Some {
            Some(Error::CacheQueryPending)
        } else if self.pending_commit is Some {
            Some(Error::CompressorCommitPending)
        } else if state.layer != self.layer {
            Some(Error::CompressorLayer)
        } else if !(0 < count <= state.slot_count) {
            Some(Error::CompressorBatchCount)
        } else if home != self.buffers.input.device {
            Some(Error::CompressorIndexDevice)
        } else if carry is Some && carry != Some(self.buffers.input.device) {
            Some(Error::CompressorStateDevice)
        } else {
            None
        }
    }

    /// A refused batch leaves the last proposal alone only while another is
    /// under way.
    pub open spec fn same_but_ready(&self, before: &Self) -> bool {
        &&& self.layer == before.layer
        &&& self.capacity == before.capacity
        &&& self.buffers == before.buffers
        &&& self.pending_query == before.pending_query
        &&& self.pending_commit == before.pending_commit
        &&& self.graph == before.graph
        &&& self.retained == before.retained
        &&& self.replica == before.replica
    }

    /// Validates a batch against the committed state and lays out its rows.
    pub fn prepare(
        &mut self,
        state: &CompressorState,
        home: i32,
        carry: Option<i32>,
        chunks: &[CompressorChunk],
        next_snapshot: &mut u64,
    ) -> (r: Result<Prepared, Error>)
        requires
            old(self).inv(),
            state.inv(),
        ensures
            final(self).inv(),
            final(self).same_but_ready(old(self)),
            final(self).ready == if old(self).pending_query is Some || old(self).pending_commit is Some {
                old(self).ready
            } else {
                None
            },
            match r {
                Ok(p) => {
                    &&& old(self).batch_error(state, home, carry, chunks@.len() as int) is None
                    &&& first_chunk_error(
                        state,
                        chunks@,
                        old(self).capacity as int,
                        chunks@.len() as int,
                    ) is None
                    &&& p.snapshot == *old(next_snapshot)
                    &&& *final(next_snapshot) == *old(next_snapshot) + 1
                    &&& p.chunks@ == chunks@
                    &&& p.owner == state.owner
                    &&& p.versions@ == Seq::new(
                        chunks@.len(),
                        |i: int| state.slots@[chunks@[i].lease.slot as int].version,
                    )
                    &&& old(self).fits(&p, state.slot_count as int)
                },
                Err(e) => match old(self).batch_error(state, home, carry, chunks@.len() as int) {
                    Some(reason) => e == reason && *final(next_snapshot) == *old(next_snapshot),
                    None => if *old(next_snapshot) == u64::MAX {
                        e == Error::ProposalsExhausted && *final(next_snapshot)
                            == *old(next_snapshot)
                    } else {
                        &&& first_chunk_error(
                            state,
                            chunks@,
                            old(self).capacity as int,
                            chunks@.len() as int,
                        ) == Some(e)
                        &&& *final(next_snapshot) == *old(next_snapshot) + 1
                    },
                },
            },
    {
        if self.pending_query.is_some() {
            return Err(Error::CacheQueryPending);
        }
        if self.pending_commit.is_some() {
            return Err(Error::CompressorCommitPending);
        }
        self.ready = None;
        if state.layer != self.layer {
            return Err(Error::CompressorLayer);
        }
        if chunks.len() == 0 || chunks.len() > state.slot_count {
            return Err(Error::CompressorBatchCount);
        }
        if home != self.buffers.input.device {
            return Err(Error::CompressorIndexDevice);
        }
        if let Some(device) = carry {
            if device != self.buffers.input.device {
                return Err(Error::CompressorStateDevice);
            }
        }
        let snapshot: u64 = match reserve_source_snapshot(next_snapshot) {
            Err(e) => {
                return Err(e);
            },
            Ok(snapshot) => snapshot,
        };
        let step: u64 = if self.layer == 20 {
            1
        } else {
            2
        };
        lay_out(state, chunks, step, self.capacity, snapshot)
    }
}

/// The first of the first `n` chunks whose slot has moved on.
pub open spec fn stale_error(state: &CompressorState, prepared: &Prepared, n: int) -> Option<Error>
    decreases n,
{
    if n <= 0 {
        None
    } else {
        let chunk = prepared.chunks@[n - 1];
        let slot = state.slots@[chunk.lease.slot as int];
        match stale_error(state, prepared, n - 1) {
            Some(e) => Some(e),
            None => match state.idle_error(chunk.lease) {
                Some(e) => Some(e),
                None => if slot.version == prepared.versions@[n - 1] && slot.end
                    == chunk.position {
                    None
                } else {
                    Some(Error::StaleCompressorOutput)
                },
            },
        }
    }
}

proof fn lemma_stale_error_stays(state: &CompressorState, prepared: &Prepared, n: int, m: int)
    requires
        stale_error(state, prepared, n) is Some,
        0 <= n <= m,
    ensures
        stale_error(state, prepared, m) == stale_error(state, prepared, n),
    decreases m,
{
    if n < m {
        lemma_stale_error_stays(state, prepared, n, m - 1);
    }
}

proof fn lemma_not_stale(state: &CompressorState, prepared: &Prepared, n: int, i: int)
    requires
        stale_error(state, prepared, n) is None,
        0 <= i < n,
    ensures
        state.idle_error(prepared.chunks@[i].lease) is None,
        state.slots@[prepared.chunks@[i].lease.slot as int].version == prepared.versions@[i],
        state.slots@[prepared.chunks@[i].lease.slot as int].end == prepared.chunks@[i].position,
    decreases n,
{
    if i < n - 1 {
        lemma_not_stale(state, prepared, n - 1, i);
    }
}

impl CompressorWave {
    /// The published proposal is the lane's own.
    pub open spec fn ready_fits(&self, state: &CompressorState) -> bool {
        self.ready matches Some(p) ==> (p.owner == state.owner ==> self.fits(
            &p,
            state.slot_count as int,
        ))
    }

    /// Why the proposal cannot be read, if it cannot.
    pub open spec fn output_error(&self, state: &CompressorState) -> Option<Error> {
        match self.ready {
            None => Some(Error::CompressorOutputIncomplete),
            Some(p) => if p.owner != state.owner {
                Some(Error::CompressorOutputState)
            } else {
                stale_error(state, &p, p.chunks@.len() as int)
            },
        }
    }

    pub open spec fn output_of(&self, prepared: &Prepared, output: CompressorOutput) -> bool {
        &&& output.buffer == cut(self.buffers.output, prepared.rows * 1024)
        &&& output.frequencies == cut(self.buffers.frequencies, prepared.rows * 256)
        &&& output.index_key == cut(self.buffers.index_key, prepared.rows * 256)
        &&& output.index_packed == cut(self.buffers.index_packed, prepared.rows * 64)
        &&& output.index_scales == cut(self.buffers.index_scales, prepared.rows * 4)
        &&& output.kv_values == cut(self.buffers.kv_values, prepared.rows * 256)
        &&& output.kv_scales == cut(self.buffers.kv_scales, prepared.rows * 32)
        &&& output.completed@ == prepared.completed@
    }

    /// The published rows, while every participating request is as it was when
    /// they were proposed.
    pub fn output(&self, state: &CompressorState) -> (r: Result<CompressorOutput<'_>, Error>)
        requires
            self.inv(),
            state.inv(),
            self.ready_fits(state),
        ensures
            match r {
                Ok(output) => self.output_error(state) is None && self.output_of(
                    &self.ready->Some_0,
                    output,
                ),
                Err(e) => self.output_error(state) == Some(e),
            },
    {
        let prepared: &Prepared = match &self.ready {
            None => {
                return Err(Error::CompressorOutputIncomplete);
            },
            Some(prepared) => prepared,
        };
        if prepared.owner != state.owner {
            return Err(Error::CompressorOutputState);
        }
        let mut i: usize = 0;
        while i < prepared.chunks.len()
            invariant
                i <= prepared.chunks@.len(),
                state.inv(),
                self.ready == Some(*prepared),
                prepared.owner == state.owner,
                prepared.versions@.len() == prepared.chunks@.len(),
                stale_error(state, prepared, i as int) is None,
            decreases prepared.chunks@.len() - i,
        {
            let chunk = prepared.chunks[i];
            proof {
                if stale_error(state, prepared, i + 1) is Some {
                    lemma_stale_error_stays(
                        state,
                        prepared,
                        i + 1,
                        prepared.chunks@.len() as int,
                    );
                }
            }
            let slot: usize = match state.validate(chunk.lease) {
                Err(e) => {
                    return Err(e);
                },
                Ok(slot) => slot,
            };
            if state.slots[slot].version != prepared.versions[i] || state.slots[slot].end
                != chunk.position {
                return Err(Error::StaleCompressorOutput);
            }
            i = i + 1;
        }
        let rows: usize = prepared.rows;
        Ok(
            CompressorOutput {
                buffer: self.buffers.output.prefix(rows * 1024),
                frequencies: self.buffers.frequencies.prefix(rows * 256),
                index_key: self.buffers.index_key.prefix(rows * 256),
                index_packed: self.buffers.index_packed.prefix(rows * 64),
                index_scales: self.buffers.index_scales.prefix(rows * 4),
                kv_values: self.buffers.kv_values.prefix(rows * 256),
                kv_scales: self.buffers.kv_scales.prefix(rows * 32),
                completed: prepared.completed.as_slice(),
            },
        )
    }

    /// The chunk of a proposal that belongs to `lease`.
    pub open spec fn chunk_of(prepared: &Prepared, lease: CompressorLease) -> Option<int> {
        if exists|i: int| 0 <= i < prepared.chunks@.len() && (#[trigger] prepared.chunks@[i]).lease
            == lease {
            Some(
                choose|i: int|
                    0 <= i < prepared.chunks@.len() && (#[trigger] prepared.chunks@[i]).lease
                        == lease,
            )
        } else {
            None
        }
    }

    /// A proposal's rows of one request over its committed history.
    pub open spec fn proposal_of(
        &self,
        state: &CompressorState,
        buffers: SourceBuffers,
        prepared: &Prepared,
        i: int,
        proposal: IndexProposal,
    ) -> bool {
        let chunk = prepared.chunks@[i];
        let slot = chunk.lease.slot as int;
        let step = self.step();
        let start = chunk.position as int / step;
        &&& proposal.binding == (IndexBinding { snapshot: prepared.snapshot, lease: chunk.lease })
        &&& Some(proposal.request) == state.slots@[slot].request
        &&& proposal.source_layer == self.layer
        &&& state.index.index_view(buffers, slot, start as usize, proposal.cache)
        &&& state.index.value_view(buffers, slot, start as usize, proposal.kv_cache)
        &&& proposal.kv_values == cut(self.buffers.kv_values, prepared.rows * 256)
        &&& proposal.kv_scales == cut(self.buffers.kv_scales, prepared.rows * 32)
        &&& proposal.packed == cut(self.buffers.index_packed, prepared.rows * 64)
        &&& proposal.scales == cut(self.buffers.index_scales, prepared.rows * 4)
        &&& proposal.capacity == prepared.rows
        &&& proposal.first_token == chunk.position
        &&& proposal.end_token == chunk.position + chunk.tokens
        &&& proposal.start == start
        &&& proposal.count == (chunk.position + chunk.tokens) / step - start
        &&& proposal.offset == chunk_rows(prepared.chunks@, i) + first_completed(
            chunk.position as int,
            step,
        )
        &&& proposal.step == step
    }

    /// Exposes one request's completed rows after validating the whole batch.
    /// Incomplete rows of a ratio-two source are skipped by the stride.
    pub fn index_proposal<'s>(
        &'s self,
        state: &'s CompressorState,
        buffers: &SourceBuffers,
        lease: CompressorLease,
    ) -> (r: Result<IndexProposal<'s>, Error>)
        requires
            self.inv(),
            state.inv(),
            state.layer == self.layer,
            self.ready_fits(state),
            buffers.serve(&state.index),
        ensures
            match r {
                Ok(proposal) => {
                    &&& self.output_error(state) is None
                    &&& Self::chunk_of(&self.ready->Some_0, lease) matches Some(i)
                        && self.proposal_of(state, *buffers, &self.ready->Some_0, i, proposal)
                },
                Err(e) => match self.output_error(state) {
                    Some(reason) => e == reason,
                    None => e == Error::ProposalRequestAbsent && Self::chunk_of(
                        &self.ready->Some_0,
                        lease,
                    ) is None,
                },
            },
    {
        let output = match self.output(state) {
            Err(e) => {
                return Err(e);
            },
            Ok(output) => output,
        };
        let prepared: &Prepared = match &self.ready {
            None => {
                return Err(Error::CompressorOutputIncomplete);
            },
            Some(prepared) => prepared,
        };
        let ghost n = prepared.chunks@.len() as int;
        let mut i: usize = 0;
        while i < prepared.chunks.len() && prepared.chunks[i].lease != lease
            invariant
                i <= prepared.chunks@.len(),
                forall|k: int| 0 <= k < i ==> (#[trigger] prepared.chunks@[k]).lease != lease,
            decreases prepared.chunks@.len() - i,
        {
            i = i + 1;
        }
        if i == prepared.chunks.len() {
            return Err(Error::ProposalRequestAbsent);
        }
        let chunk = prepared.chunks[i];
        proof {
            lemma_not_stale(state, prepared, n, i as int);
            assert(prepared.chunks@[i as int].lease == lease);
            let k = Self::chunk_of(prepared, lease)->Some_0;
            if k < i {
                assert(prepared.chunks@[k].lease != lease);
            }
            if i < k {
                assert(prepared.chunks@[i as int].lease.slot != prepared.chunks@[k].lease.slot);
            }
            assert(k == i);
            lemma_chunk_rows_monotonic(prepared.chunks@, i as int, n);
            assert(prepared.offsets@[i as int] == chunk_rows(prepared.chunks@, i as int));
        }
        let step: u64 = if self.layer == 20 {
            1
        } else {
            2
        };
        let end: u64 = chunk.position + chunk.tokens as u64;
        let start: u64 = chunk.position / step;
        let count: u64 = end / step - start;
        let offset: u64 = prepared.offsets[i] as u64 + if step == 2 && chunk.position % 2 == 0 {
            1
        } else {
            0
        };
        let request: u64 = match state.request_id(lease) {
            Err(e) => {
                return Err(e);
            },
            Ok(request) => request,
        };
        let cache = match state.index_cache(buffers, lease) {
            Err(e) => {
                return Err(e);
            },
            Ok(cache) => cache,
        };
        let kv_cache = match state.kv_cache(buffers, lease) {
            Err(e) => {
                return Err(e);
            },
            Ok(kv_cache) => kv_cache,
        };
        Ok(
            IndexProposal {
                binding: IndexBinding { snapshot: prepared.snapshot, lease },
                request,
                source_layer: self.layer,
                cache,
                kv_cache,
                kv_values: output.kv_values,
                kv_scales: output.kv_scales,
                packed: output.index_packed,
                scales: output.index_scales,
                capacity: prepared.rows,
                first_token: chunk.position,
                end_token: end,
                start,
                count,
                offset,
                step,
            },
        )
    }
}

/// Offset of the first row in a chunk at `position` that completes a group.
pub open spec fn first_completed(position: int, step: int) -> int {
    if step == 2 && position % 2 == 0 {
        1
    } else {
        0
    }
}

pub proof fn lemma_chunk_rows_monotonic(chunks: Seq<CompressorChunk>, i: int, n: int)
    requires
        0 <= i <= n,
    ensures
        0 <= chunk_rows(chunks, i) <= chunk_rows(chunks, n),
    decreases n,
{
    if n > i {
        lemma_chunk_rows_monotonic(chunks, i, n - 1);
    } else if n > 0 {
        lemma_chunk_rows_monotonic(chunks, i - 1, n - 1);
    }
}

/// A chunk completes as many rows as its frontier passes group boundaries. The
/// `k`-th lies `k` strides behind the first and continues the committed rows, so
/// a stride and two counts describe a request's private rows.
pub proof fn law_completed_rows_are_strided(
    chunk: CompressorChunk,
    step: int,
    base: int,
    m: int,
)
    requires
        step == 1 || step == 2,
        0 <= m <= chunk.tokens,
        0 <= base,
        base + m <= u32::MAX,
        chunk.position + m <= u64::MAX,
    ensures
        ({
            let rows = chunk_completed(chunk, step, base, m);
            let first = chunk.position as int / step;
            &&& rows.len() == (chunk.position + m) / step - first
            &&& forall|k: int|
                0 <= k < rows.len() ==> {
                    let row = #[trigger] rows[k];
                    &&& row.lease == chunk.lease
                    &&& row.source_row == base + first_completed(chunk.position as int, step) + k
                        * step
                    &&& row.position == (first + k) * step
                }
        }),
    decreases m,
{
    if m > 0 {
        law_completed_rows_are_strided(chunk, step, base, m - 1);
    }
}

/// Two page lists are equal.
fn same_pages(left: &[u32], right: &[u32]) -> (r: bool)
    ensures
        r == (left@ == right@),
{
    if left.len() != right.len() {
        return false;
    }
    let mut i: usize = 0;
    while i < left.len()
        invariant
            i <= left@.len() == right@.len(),
            forall|k: int| 0 <= k < i ==> left@[k] == right@[k],
        decreases left@.len() - i,
    {
        if left[i] != right[i] {
            assert(left@[i as int] != right@[i as int]);
            return false;
        }
        i = i + 1;
    }
    assert(left@ =~= right@);
    true
}

impl CompressorState {
    /// Tokens `first..end` of a request's committed history, without private rows.
    pub open spec fn committed_range(
        &self,
        buffers: SourceBuffers,
        lease: CompressorLease,
        first: u64,
        end: u64,
        snapshot: u64,
        proposal: IndexProposal,
    ) -> bool {
        let slot = lease.slot as int;
        let rows = self.slots@[slot].end as int / self.step();
        &&& proposal.binding == (IndexBinding { snapshot, lease })
        &&& Some(proposal.request) == self.slots@[slot].request
        &&& proposal.source_layer == self.layer
        &&& self.index.index_view(buffers, slot, rows as usize, proposal.cache)
        &&& self.index.value_view(buffers, slot, rows as usize, proposal.kv_cache)
        &&& proposal.kv_values == buffers.kv_values
        &&& proposal.kv_scales == buffers.kv_scales
        &&& proposal.packed == buffers.packed
        &&& proposal.scales == buffers.scales
        &&& proposal.capacity == 1
        &&& proposal.first_token == first
        &&& proposal.end_token == end
        &&& proposal.start == rows
        &&& proposal.count == 0
        &&& proposal.offset == 0
        &&& proposal.step == self.step()
    }

    /// Borrows a committed source range. It holds no private rows; every query
    /// keeps its causal count. Appends only write beyond the committed rows, so
    /// the range may be read while a follower has reserved one.
    pub fn committed_proposal(
        &self,
        buffers: &SourceBuffers,
        lease: CompressorLease,
        first: u64,
        end: u64,
        snapshot: u64,
    ) -> (r: Result<IndexProposal<'_>, Error>)
        requires
            self.inv(),
            buffers.serve(&self.index),
        ensures
            ({
                let slot = self.slots@[lease.slot as int];
                match r {
                    Ok(proposal) => {
                        &&& self.lease_error(lease) is None
                        &&& snapshot != 0 && first < end && end <= slot.end
                        &&& self.committed_range(*buffers, lease, first, end, snapshot, proposal)
                    },
                    Err(e) => match self.lease_error(lease) {
                        Some(reason) => e == reason,
                        None => e == Error::CommittedRange && !(snapshot != 0 && first < end && end
                            <= slot.end),
                    },
                }
            }),
    {
        let slot: usize = match self.validate_identity(lease) {
            Err(e) => {
                return Err(e);
            },
            Ok(slot) => slot,
        };
        if !(snapshot != 0 && first < end && end <= self.slots[slot].end) {
            return Err(Error::CommittedRange);
        }
        let request: u64 = match self.request_id(lease) {
            Err(e) => {
                return Err(e);
            },
            Ok(request) => request,
        };
        let rows: usize = self.committed_rows(slot);
        let cache = self.index.view(buffers, slot, rows);
        let kv_cache = self.index.kv_view(buffers, slot, rows);
        let step: u64 = if self.layer == 20 {
            1
        } else {
            2
        };
        Ok(
            IndexProposal {
                binding: IndexBinding { snapshot, lease },
                request,
                source_layer: self.layer,
                kv_values: kv_cache.values,
                kv_scales: kv_cache.scales,
                packed: cache.packed,
                scales: cache.scales,
                capacity: 1,
                cache,
                kv_cache,
                first_token: first,
                end_token: end,
                start: rows as u64,
                count: 0,
                offset: 0,
                step,
            },
        )
    }
}

impl<'a> IndexProposal<'a> {
    /// The proposal covers committed tokens only.
    pub open spec fn committed_in(&self, state: &CompressorState) -> bool {
        self.end_token <= state.slots@[self.binding.lease.slot as int].end
    }

    /// Why a peer's copy cannot stand in for the proposal's serving values.
    pub open spec fn peer_error(
        &self,
        state: &CompressorState,
        replica: &SourceReplica,
        values: DeviceBuffer,
        scales: DeviceBuffer,
    ) -> Option<Error> {
        let lease = self.binding.lease;
        let slot = lease.slot as int;
        match state.lease_error(lease) {
            Some(e) => Some(e),
            None => if !self.committed_in(state) && state.index.writing@[slot] {
                Some(Error::PendingAppend)
            } else if !(state.layer == self.source_layer && state.slots@[slot].request == Some(
                self.request,
            ) && (self.committed_in(state) || state.slots@[slot].end == self.first_token)) {
                Some(Error::PeerProposalSnapshot)
            } else if replica.pool != state.index.identity {
                Some(Error::ForeignReplica)
            } else if self.kv_cache.rows > state.index.rows@[slot] {
                Some(Error::ReplicaRows)
            } else if !(state.index.pages@[slot]@ == self.kv_cache.pages@ && self.kv_cache.rows
                == self.start) {
                Some(Error::PeerProposalCache)
            } else if !(values.device == replica.buffers.values.device && scales.device
                == values.device && self.capacity * 256 <= values.bytes && self.capacity * 32
                <= scales.bytes && values.address != 0 && scales.address != 0) {
                Some(Error::PeerProposalStorage)
            } else {
                None
            },
        }
    }

    /// Keeps the authoritative index keys and identity while a peer serves the
    /// attention values. Selection still runs on its own device.
    pub fn peer_attention<'s>(
        &'s self,
        state: &'s CompressorState,
        replica: &'s SourceReplica,
        values: DeviceBuffer,
        scales: DeviceBuffer,
    ) -> (r: Result<IndexProposal<'s>, Error>)
        requires
            state.inv(),
            replica.wf(&state.index),
        ensures
            match r {
                Ok(peer) => {
                    &&& self.peer_error(state, replica, values, scales) is None
                    &&& replica.peer_view(
                        &state.index,
                        self.binding.lease.slot as int,
                        self.kv_cache.rows,
                        peer.kv_cache,
                    )
                    &&& peer.binding == self.binding
                    &&& peer.request == self.request
                    &&& peer.source_layer == self.source_layer
                    &&& peer.cache == self.cache
                    &&& peer.kv_values == values
                    &&& peer.kv_scales == scales
                    &&& peer.packed == self.packed
                    &&& peer.scales == self.scales
                    &&& peer.capacity == self.capacity
                    &&& peer.first_token == self.first_token
                    &&& peer.end_token == self.end_token
                    &&& peer.start == self.start
                    &&& peer.count == self.count
                    &&& peer.offset == self.offset
                    &&& peer.step == self.step
                },
                Err(e) => self.peer_error(state, replica, values, scales) == Some(e),
            },
    {
        let slot: usize = match state.validate_identity(self.binding.lease) {
            Err(e) => {
                return Err(e);
            },
            Ok(slot) => slot,
        };
        let committed: bool = self.end_token <= state.slots[slot].end;
        if !committed {
            match state.index.ensure_idle(slot) {
                Err(e) => {
                    return Err(e);
                },
                Ok(_) => {},
            }
        }
        let request: u64 = match state.request_id(self.binding.lease) {
            Err(e) => {
                return Err(e);
            },
            Ok(request) => request,
        };
        if !(state.layer == self.source_layer && request == self.request && (committed
            || state.slots[slot].end == self.first_token)) {
            return Err(Error::PeerProposalSnapshot);
        }
        let kv_cache = match replica.committed_view(&state.index, slot, self.kv_cache.rows) {
            Err(e) => {
                return Err(e);
            },
            Ok(kv_cache) => kv_cache,
        };
        if !(same_pages(kv_cache.pages, self.kv_cache.pages) && kv_cache.rows as u64 == self.start) {
            return Err(Error::PeerProposalCache);
        }
        let value_bytes: Option<usize> = self.capacity.checked_mul(256);
        let scale_bytes: Option<usize> = self.capacity.checked_mul(32);
        let fits: bool = match (value_bytes, scale_bytes) {
            (Some(v), Some(s)) => values.bytes >= v && scales.bytes >= s,
            _ => false,
        };
        if !(values.device == kv_cache.values.device && scales.device == values.device && fits
            && values.address != 0 && scales.address != 0) {
            return Err(Error::PeerProposalStorage);
        }
        Ok(
            IndexProposal {
                binding: self.binding,
                request: self.request,
                source_layer: self.source_layer,
                cache: IndexCacheView {
                    packed: self.cache.packed,
                    scales: self.cache.scales,
                    pages: self.cache.pages,
                    rows: self.cache.rows,
                    device_pages: self.cache.device_pages,
                    device_rows: self.cache.device_rows,
                },
                kv_cache,
                kv_values: values,
                kv_scales: scales,
                packed: self.packed,
                scales: self.scales,
                capacity: self.capacity,
                first_token: self.first_token,
                end_token: self.end_token,
                start: self.start,
                count: self.count,
                offset: self.offset,
                step: self.step,
            },
        )
    }
}

} // verus!
