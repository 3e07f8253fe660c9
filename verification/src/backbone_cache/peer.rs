//! Inputs of the half of a lane's attention that runs on the peer device.
use crate::backbone_cache::attention::{AttentionRequest, CacheAttention};
use crate::backbone_cache::plan;
use crate::backbone_cache::plan::{source_index, BATCH_REQUESTS};
use crate::backbone_cache::{BackboneCache, SOURCE_COUNT};
use crate::budget;
use crate::budget::sum;
use crate::compressor::wave::{IndexBinding, IndexProposal};
use crate::compressor::CompressorState;
use crate::device::DeviceBuffer;
use crate::error::Error;
use crate::source_cache;
use crate::source_cache::replica::SourceReplica;
use crate::window::WindowProposal;
use vstd::prelude::*;

verus! {

/// Bytes of one row's selected indices.
pub const SELECTED_BYTES: usize = 2048;

/// Where the peer keeps its copy of a source's private rows.
#[derive(Debug, Clone, Copy, PartialEq, Eq, Structural)]
pub struct PeerStorage {
    pub values: DeviceBuffer,
    pub scales: DeviceBuffer,
}

/// One lane's private inputs on the peer.
pub struct PeerAttentionInputs {
    pub device: i32,
    pub capacity: usize,
    pub sources: Vec<PeerStorage>,
    /// The proposals whose rows each source's copy holds.
    pub bindings: Vec<Vec<IndexBinding>>,
    pub selected: DeviceBuffer,
}

/// Attention of a batch as the peer sees it.
pub struct PeerCacheAttention<'s> {
    pub windows: &'s Vec<WindowProposal>,
    pub sources: Vec<IndexProposal<'s>>,
    pub positions: &'s Vec<Vec<u64>>,
    /// The source whose private rows have to be copied to the peer.
    pub copied: Option<usize>,
}

/// Rows of the first `n` requests.
pub open spec fn row_total(positions: Seq<Vec<u64>>, n: int) -> int
    decreases n,
{
    if n <= 0 {
        0
    } else {
        row_total(positions, n - 1) + positions[n - 1]@.len()
    }
}

proof fn lemma_row_total_monotonic(positions: Seq<Vec<u64>>, n: int, m: int)
    requires
        n <= m,
    ensures
        row_total(positions, n) <= row_total(positions, m),
    decreases m - n,
{
    if n < m {
        lemma_row_total_monotonic(positions, n, m - 1);
    }
}

/// The bindings of the proposals, in order.
pub open spec fn bindings_of(sources: Seq<IndexProposal>) -> Seq<IndexBinding> {
    Seq::new(sources.len(), |i: int| sources[i].binding)
}

/// The window of `layer` is replicated on `device`.
pub open spec fn window_fault(replicas: Seq<Option<i32>>, layer: usize, device: i32) -> Option<
    Error,
> {
    if layer >= replicas.len() {
        Some(Error::PeerWindowLayer)
    } else {
        match replicas[layer as int] {
            None => Some(Error::PeerWindowAbsent),
            Some(id) => if id != device {
                Some(Error::PeerWindowDevice)
            } else {
                None
            },
        }
    }
}

/// The first window among `n` that the peer cannot read.
pub open spec fn first_window_fault(
    windows: Seq<WindowProposal>,
    replicas: Seq<Option<i32>>,
    device: i32,
    n: int,
) -> Option<Error>
    decreases n,
{
    if n <= 0 {
        None
    } else {
        match first_window_fault(windows, replicas, device, n - 1) {
            Some(e) => Some(e),
            None => window_fault(replicas, windows[n - 1].layer, device),
        }
    }
}

proof fn lemma_window_fault_stays(
    windows: Seq<WindowProposal>,
    replicas: Seq<Option<i32>>,
    device: i32,
    n: int,
    m: int,
)
    requires
        n <= m,
        first_window_fault(windows, replicas, device, n) is Some,
    ensures
        first_window_fault(windows, replicas, device, m) == first_window_fault(
            windows,
            replicas,
            device,
            n,
        ),
    decreases m - n,
{
    if n < m && m > 0 {
        lemma_window_fault_stays(windows, replicas, device, n, m - 1);
    }
}

fn check_windows(windows: &Vec<WindowProposal>, replicas: &[Option<i32>], device: i32) -> (r: Result<
    (),
    Error,
>)
    ensures
        match r {
            Ok(_) => first_window_fault(windows@, replicas@, device, windows@.len() as int) is None,
            Err(e) => first_window_fault(windows@, replicas@, device, windows@.len() as int)
                == Some(e),
        },
{
    let mut i: usize = 0;
    while i < windows.len()
        invariant
            i <= windows@.len(),
            first_window_fault(windows@, replicas@, device, i as int) is None,
        decreases windows@.len() - i,
    {
        proof {
            if first_window_fault(windows@, replicas@, device, i + 1) is Some {
                lemma_window_fault_stays(
                    windows@,
                    replicas@,
                    device,
                    i + 1,
                    windows@.len() as int,
                );
            }
        }
        let layer: usize = windows[i].layer;
        if layer >= replicas.len() {
            return Err(Error::PeerWindowLayer);
        }
        match replicas[layer] {
            None => {
                return Err(Error::PeerWindowAbsent);
            },
            Some(id) => {
                if id != device {
                    return Err(Error::PeerWindowDevice);
                }
            },
        }
        i = i + 1;
    }
    Ok(())
}

/// The first proposal among `n` that the peer's copy cannot serve.
pub open spec fn first_source_fault(
    sources: Seq<IndexProposal>,
    state: &CompressorState,
    replica: &SourceReplica,
    storage: PeerStorage,
    n: int,
) -> Option<Error>
    decreases n,
{
    if n <= 0 {
        None
    } else {
        match first_source_fault(sources, state, replica, storage, n - 1) {
            Some(e) => Some(e),
            None => sources[n - 1].peer_error(state, replica, storage.values, storage.scales),
        }
    }
}

proof fn lemma_source_fault_stays(
    sources: Seq<IndexProposal>,
    state: &CompressorState,
    replica: &SourceReplica,
    storage: PeerStorage,
    n: int,
    m: int,
)
    requires
        n <= m,
        first_source_fault(sources, state, replica, storage, n) is Some,
    ensures
        first_source_fault(sources, state, replica, storage, m) == first_source_fault(
            sources,
            state,
            replica,
            storage,
            n,
        ),
    decreases m - n,
{
    if n < m && m > 0 {
        lemma_source_fault_stays(sources, state, replica, storage, n, m - 1);
    }
}

/// The peer's form of a proposal keeps its identity, its index keys and its place.
/// Its values are the replica's, and its private rows those of the peer's storage.
pub open spec fn mirrors(
    state: &CompressorState,
    replica: &SourceReplica,
    peer: IndexProposal,
    local: IndexProposal,
    storage: PeerStorage,
) -> bool {
    &&& replica.peer_view(
        &state.index,
        local.binding.lease.slot as int,
        local.kv_cache.rows,
        peer.kv_cache,
    )
    &&& peer.cache == local.cache
    &&& peer.packed == local.packed
    &&& peer.scales == local.scales
    &&& peer.capacity == local.capacity
    &&& peer.binding == local.binding
    &&& peer.request == local.request
    &&& peer.source_layer == local.source_layer
    &&& peer.kv_values == storage.values
    &&& peer.kv_scales == storage.scales
    &&& peer.first_token == local.first_token
    &&& peer.end_token == local.end_token
    &&& peer.start == local.start
    &&& peer.count == local.count
    &&& peer.offset == local.offset
    &&& peer.step == local.step
}

impl PeerAttentionInputs {
    pub open spec fn inv(&self) -> bool {
        &&& self.capacity * 2048 <= usize::MAX
        &&& self.sources@.len() == SOURCE_COUNT
        &&& self.bindings@.len() == SOURCE_COUNT
    }

    /// Bytes of the peer's inputs: one window copy, four source copies and the
    /// selected indices.
    pub fn device_bytes(window: usize, source: usize, capacity: usize) -> (r: Result<usize, Error>)
        ensures
            source_cache::same_count(
                r,
                budget::counted(
                    window + 4 * source + capacity * 2048,
                    Error::BudgetOverflow,
                ),
            ),
    {
        proof {
            reveal_with_fuel(budget::total, 6);
        }
        let selected: usize = match capacity.checked_mul(SELECTED_BYTES) {
            None => {
                return Err(Error::BudgetOverflow);
            },
            Some(bytes) => bytes,
        };
        let parts: [usize; 5] = [source, source, source, source, selected];
        sum(window, parts.as_slice(), Error::BudgetOverflow)
    }

    /// Unused inputs of `capacity` rows within `budget` bytes. The copy of a window's
    /// rows takes `window` bytes and that of a source's `source`.
    pub fn new(
        device: i32,
        capacity: usize,
        window: usize,
        source: usize,
        budget: usize,
        sources: [PeerStorage; 4],
        selected: DeviceBuffer,
    ) -> (r: Result<Self, Error>)
        ensures
            match r {
                Err(e) => e == Error::PeerBudget && window + 4 * source + capacity * 2048 > budget,
                Ok(inputs) => {
                    &&& window + 4 * source + capacity * 2048 <= budget
                    &&& inputs.inv()
                    &&& inputs.device == device
                    &&& inputs.capacity == capacity
                    &&& inputs.sources@ == sources@
                    &&& inputs.selected == selected
                    &&& forall|i: int|
                        0 <= i < SOURCE_COUNT ==> (#[trigger] inputs.bindings@[i])@.len() == 0
                },
            },
    {
        match Self::device_bytes(window, source, capacity) {
            Err(_) => {
                return Err(Error::PeerBudget);
            },
            Ok(bytes) => {
                if bytes > budget {
                    return Err(Error::PeerBudget);
                }
            },
        }
        let mut kept: Vec<PeerStorage> = Vec::new();
        let mut bindings: Vec<Vec<IndexBinding>> = Vec::new();
        let mut i: usize = 0;
        while i < SOURCE_COUNT
            invariant
                i <= SOURCE_COUNT,
                kept@ == sources@.subrange(0, i as int),
                bindings@.len() == i,
                forall|k: int| 0 <= k < i ==> (#[trigger] bindings@[k])@.len() == 0,
            decreases SOURCE_COUNT - i,
        {
            kept.push(sources[i]);
            bindings.push(Vec::new());
            i = i + 1;
            assert(kept@ =~= sources@.subrange(0, i as int));
        }
        assert(kept@ =~= sources@);
        Ok(PeerAttentionInputs { device, capacity, sources: kept, bindings, selected })
    }

    /// The batch has a request, not too many, and its lists fit each other.
    pub open spec fn countable(local: &CacheAttention) -> bool {
        let n = local.windows@.len();
        &&& 1 <= n <= BATCH_REQUESTS
        &&& local.positions@.len() == n
        &&& local.sources@.len() == 0 || local.sources@.len() == n
    }

    /// Why the compressed rows cannot be read on the peer.
    pub open spec fn sources_error(&self, bank: &BackboneCache, sources: Seq<IndexProposal>) -> Option<
        Error,
    > {
        if sources.len() == 0 {
            None
        } else {
            match plan::source_of(sources[0].source_layer as int) {
                None => Some(Error::PeerSourceLayer),
                Some(i) => if exists|k: int|
                    0 <= k < sources.len() && (#[trigger] sources[k]).source_layer
                        != sources[0].source_layer {
                    Some(Error::PeerSourceLayers)
                } else {
                    match bank.sources@[i].index.replica {
                        None => Some(Error::PeerSourceAbsent),
                        Some(replica) => if replica.device.id != self.device {
                            Some(Error::PeerSourceDevice)
                        } else {
                            first_source_fault(
                                sources,
                                &bank.sources@[i],
                                &replica,
                                self.sources@[i],
                                sources.len() as int,
                            )
                        },
                    }
                },
            }
        }
    }

    /// Why the batch's attention cannot run on the peer.
    pub open spec fn enqueue_error(
        &self,
        bank: &BackboneCache,
        local: &CacheAttention,
        replicas: Seq<Option<i32>>,
    ) -> Option<Error> {
        let n = local.windows@.len() as int;
        if !Self::countable(local) {
            Some(Error::PeerRequests)
        } else if row_total(local.positions@, n) > self.capacity {
            Some(Error::PeerRows)
        } else if first_window_fault(local.windows@, replicas, self.device, n) is Some {
            first_window_fault(local.windows@, replicas, self.device, n)
        } else {
            self.sources_error(bank, local.sources@)
        }
    }

    /// The source whose bindings are compared, where the batch comes that far.
    pub open spec fn compared(&self, local: &CacheAttention, replicas: Seq<Option<i32>>) -> Option<
        int,
    > {
        let n = local.windows@.len() as int;
        let sources = local.sources@;
        if !Self::countable(local) || row_total(local.positions@, n) > self.capacity
            || first_window_fault(local.windows@, replicas, self.device, n) is Some || sources.len()
            == 0 || exists|k: int|
            0 <= k < sources.len() && (#[trigger] sources[k]).source_layer
                != sources[0].source_layer {
            None
        } else {
            plan::source_of(sources[0].source_layer as int)
        }
    }

    /// A refused batch leaves the bindings, but for those of the source that was
    /// compared: where they differed, they are gone.
    pub open spec fn refused(
        &self,
        before: &Self,
        local: &CacheAttention,
        replicas: Seq<Option<i32>>,
    ) -> bool {
        forall|i: int|
            0 <= i < SOURCE_COUNT ==> (#[trigger] self.bindings@[i])@ == if before.compared(
                local,
                replicas,
            ) == Some(i) && before.bindings@[i]@ != bindings_of(local.sources@) {
                Seq::<IndexBinding>::empty()
            } else {
                before.bindings@[i]@
            }
    }

    /// A taken batch reads the peer's copies, and its source's copy is now for it.
    pub open spec fn enqueued(
        &self,
        before: &Self,
        bank: &BackboneCache,
        local: &CacheAttention,
        peer: PeerCacheAttention,
    ) -> bool {
        &&& *peer.windows == local.windows
        &&& *peer.positions == local.positions
        &&& peer.sources@.len() == local.sources@.len()
        &&& if local.sources@.len() == 0 {
            &&& peer.copied is None
            &&& self.bindings@ == before.bindings@
        } else {
            let i = plan::source_of(local.sources@[0].source_layer as int)->Some_0;
            &&& peer.copied == if before.bindings@[i]@ == bindings_of(local.sources@) {
                None
            } else {
                Some(i as usize)
            }
            &&& self.bindings@[i]@ == bindings_of(local.sources@)
            &&& forall|k: int|
                0 <= k < SOURCE_COUNT && k != i ==> #[trigger] self.bindings@[k]
                    == before.bindings@[k]
            &&& forall|k: int|
                0 <= k < peer.sources@.len() ==> mirrors(
                    &bank.sources@[i],
                    &bank.sources@[i].index.replica->Some_0,
                    #[trigger] peer.sources@[k],
                    local.sources@[k],
                    before.sources@[i],
                )
        }
    }

    fn check_rows(&self, positions: &Vec<Vec<u64>>) -> (r: bool)
        ensures
            r == (row_total(positions@, positions@.len() as int) <= self.capacity),
    {
        let mut total: usize = 0;
        let mut i: usize = 0;
        while i < positions.len()
            invariant
                i <= positions@.len(),
                total == row_total(positions@, i as int),
                total <= self.capacity,
            decreases positions@.len() - i,
        {
            let more: usize = positions[i].len();
            if more > self.capacity - total {
                proof {
                    lemma_row_total_monotonic(positions@, i + 1, positions@.len() as int);
                }
                return false;
            }
            total = total + more;
            i = i + 1;
        }
        true
    }

    /// Takes the batch's attention to the peer. `replicas` are the devices of the
    /// windows' replicas. A source's private rows are copied once: until other
    /// proposals come, later layers read the same copy.
    pub fn enqueue<'s>(
        &mut self,
        bank: &'s BackboneCache,
        local: &'s CacheAttention<'s>,
        replicas: &[Option<i32>],
    ) -> (r: Result<PeerCacheAttention<'s>, Error>)
        requires
            old(self).inv(),
            bank.inv(),
        ensures
            final(self).inv(),
            final(self).device == old(self).device,
            final(self).capacity == old(self).capacity,
            final(self).sources == old(self).sources,
            final(self).selected == old(self).selected,
            match r {
                Err(e) => {
                    &&& old(self).enqueue_error(bank, local, replicas@) == Some(e)
                    &&& final(self).refused(old(self), local, replicas@)
                },
                Ok(peer) => {
                    &&& old(self).enqueue_error(bank, local, replicas@) is None
                    &&& final(self).enqueued(old(self), bank, local, peer)
                },
            },
    {
        let n: usize = local.windows.len();
        if !(n >= 1 && n <= BATCH_REQUESTS && local.positions.len() == n && (
        local.sources.len() == 0 || local.sources.len() == n)) {
            return Err(Error::PeerRequests);
        }
        if !self.check_rows(&local.positions) {
            return Err(Error::PeerRows);
        }
        match check_windows(&local.windows, replicas, self.device) {
            Err(e) => {
                return Err(e);
            },
            Ok(_) => {},
        }
        let mut sources: Vec<IndexProposal<'s>> = Vec::new();
        if local.sources.len() == 0 {
            return Ok(
                PeerCacheAttention {
                    windows: &local.windows,
                    sources,
                    positions: &local.positions,
                    copied: None,
                },
            );
        }
        let first: usize = local.sources[0].source_layer;
        let i: usize = match source_index(first) {
            None => {
                return Err(Error::PeerSourceLayer);
            },
            Some(i) => i,
        };
        let mut bindings: Vec<IndexBinding> = Vec::new();
        let mut k: usize = 0;
        while k < n
            invariant
                k <= n == local.sources@.len(),
                first == local.sources@[0].source_layer,
                bindings@ == bindings_of(local.sources@).subrange(0, k as int),
                forall|m: int|
                    0 <= m < k ==> (#[trigger] local.sources@[m]).source_layer == first,
                i < SOURCE_COUNT,
                plan::source_of(first as int) == Some(i as int),
                self.enqueue_error(bank, local, replicas@) == self.sources_error(
                    bank,
                    local.sources@,
                ),
                *self == *old(self),
                self.inv(),
            decreases n - k,
        {
            if local.sources[k].source_layer != first {
                assert(local.sources@[k as int].source_layer != first);
                return Err(Error::PeerSourceLayers);
            }
            bindings.push(local.sources[k].binding);
            k = k + 1;
            assert(bindings@ =~= bindings_of(local.sources@).subrange(0, k as int));
        }
        assert(bindings@ =~= bindings_of(local.sources@));
        let changed: bool = !same_bindings(&self.bindings[i], &bindings);
        if changed {
            self.bindings.set(i, Vec::new());
        }
        let state = &bank.sources[i];
        let replica = match &state.index.replica {
            None => {
                return Err(Error::PeerSourceAbsent);
            },
            Some(replica) => replica,
        };
        if replica.device.id != self.device {
            return Err(Error::PeerSourceDevice);
        }
        let storage: PeerStorage = self.sources[i];
        let mut m: usize = 0;
        while m < n
            invariant
                m <= n == local.sources@.len(),
                state.inv(),
                replica.wf(&state.index),
                *state == bank.sources@[i as int],
                bank.sources@[i as int].index.replica == Some(*replica),
                storage == self.sources@[i as int],
                sources@.len() == m,
                i < SOURCE_COUNT,
                self.inv(),
                old(self).inv(),
                self.sources == old(self).sources,
                self.device == old(self).device,
                self.capacity == old(self).capacity,
                self.selected == old(self).selected,
                old(self).compared(local, replicas@) == Some(i as int),
                forall|k: int|
                    0 <= k < SOURCE_COUNT && k != i ==> #[trigger] self.bindings@[k] == old(
                        self,
                    ).bindings@[k],
                self.bindings@[i as int]@ == if old(self).bindings@[i as int]@ != bindings_of(
                    local.sources@,
                ) {
                    Seq::<IndexBinding>::empty()
                } else {
                    old(self).bindings@[i as int]@
                },
                old(self).enqueue_error(bank, local, replicas@) == first_source_fault(
                    local.sources@,
                    state,
                    replica,
                    storage,
                    n as int,
                ),
                first_source_fault(local.sources@, state, replica, storage, m as int) is None,
                forall|q: int|
                    0 <= q < m ==> mirrors(
                        state,
                        replica,
                        #[trigger] sources@[q],
                        local.sources@[q],
                        storage,
                    ),
            decreases n - m,
        {
            proof {
                if first_source_fault(
                    local.sources@,
                    state,
                    replica,
                    storage,
                    m + 1,
                ) is Some {
                    lemma_source_fault_stays(
                        local.sources@,
                        state,
                        replica,
                        storage,
                        m + 1,
                        n as int,
                    );
                }
            }
            match local.sources[m].peer_attention(state, replica, storage.values, storage.scales) {
                Err(e) => {
                    return Err(e);
                },
                Ok(peer) => {
                    sources.push(peer);
                },
            }
            m = m + 1;
        }
        self.bindings.set(i, bindings);
        Ok(
            PeerCacheAttention {
                windows: &local.windows,
                sources,
                positions: &local.positions,
                copied: if changed {
                    Some(i)
                } else {
                    None
                },
            },
        )
    }

    /// Where the selected indices of `rows` rows go on the peer.
    pub fn selection(&self, rows: usize) -> (r: Result<DeviceBuffer, Error>)
        requires
            self.inv(),
        ensures
            r == if 1 <= rows <= self.capacity {
                Ok::<DeviceBuffer, Error>(
                    DeviceBuffer { bytes: (rows * 2048) as usize, ..self.selected },
                )
            } else {
                Err::<DeviceBuffer, Error>(Error::PeerSelection)
            },
    {
        if rows < 1 || rows > self.capacity {
            return Err(Error::PeerSelection);
        }
        Ok(self.selected.prefix(rows * SELECTED_BYTES))
    }
}

fn same_bindings(a: &Vec<IndexBinding>, b: &Vec<IndexBinding>) -> (r: bool)
    ensures
        r == (a@ == b@),
{
    if a.len() != b.len() {
        return false;
    }
    let mut i: usize = 0;
    while i < a.len()
        invariant
            i <= a@.len(),
            a@.len() == b@.len(),
            forall|k: int| 0 <= k < i ==> a@[k] == b@[k],
        decreases a@.len() - i,
    {
        if a[i] != b[i] {
            return false;
        }
        i = i + 1;
    }
    assert(a@ =~= b@);
    true
}

impl<'s> PeerCacheAttention<'s> {
    pub open spec fn wf(&self) -> bool {
        &&& 1 <= self.windows@.len() <= BATCH_REQUESTS
        &&& self.positions@.len() == self.windows@.len()
        &&& self.sources@.len() == 0 || self.sources@.len() == self.windows@.len()
    }

    /// Request `i` of the peer's attention.
    pub open spec fn is_request(&self, i: int, request: AttentionRequest) -> bool {
        &&& *request.window == self.windows@[i]
        &&& *request.positions == self.positions@[i]
        &&& match request.source {
            Some(source) => i < self.sources@.len() && *source == self.sources@[i],
            None => i >= self.sources@.len(),
        }
    }

    /// The requests in a list of fixed length; past their count the first repeats.
    pub fn attention_requests(&self) -> (r: (Vec<AttentionRequest<'_>>, usize))
        requires
            self.wf(),
        ensures
            r.1 == self.windows@.len(),
            r.0@.len() == BATCH_REQUESTS,
            forall|i: int|
                0 <= i < BATCH_REQUESTS ==> self.is_request(
                    if i < r.1 {
                        i
                    } else {
                        0
                    },
                    #[trigger] r.0@[i],
                ),
    {
        let count: usize = self.windows.len();
        let mut out: Vec<AttentionRequest<'_>> = Vec::new();
        let mut i: usize = 0;
        while i < BATCH_REQUESTS
            invariant
                i <= BATCH_REQUESTS,
                self.wf(),
                count == self.windows@.len(),
                out@.len() == i,
                forall|k: int|
                    0 <= k < i ==> self.is_request(
                        if k < count {
                            k
                        } else {
                            0
                        },
                        #[trigger] out@[k],
                    ),
            decreases BATCH_REQUESTS - i,
        {
            let at: usize = if i < count {
                i
            } else {
                0
            };
            let source = if at < self.sources.len() {
                Some(&self.sources[at])
            } else {
                None
            };
            out.push(
                AttentionRequest {
                    window: &self.windows[at],
                    source,
                    positions: &self.positions[at],
                },
            );
            i = i + 1;
        }
        (out, count)
    }
}

/// The bindings tell truly which proposals' rows lie in the copies; a copy without
/// bindings may hold anything.
pub open spec fn tells_truly(
    inputs: &PeerAttentionInputs,
    held: Seq<Seq<IndexBinding>>,
) -> bool {
    &&& held.len() == SOURCE_COUNT
    &&& forall|i: int|
        0 <= i < SOURCE_COUNT ==> (#[trigger] inputs.bindings@[i])@.len() == 0
            || inputs.bindings@[i]@ == held[i]
}

/// The peer never reads rows of other proposals: once the asked-for copy is made, the
/// source's copy holds exactly the rows of the batch's proposals, whether or not it had
/// to be copied, and the bindings go on to tell truly.
pub proof fn law_peer_reads_the_rows_of_its_batch(
    before: &PeerAttentionInputs,
    after: &PeerAttentionInputs,
    bank: &BackboneCache,
    local: &CacheAttention,
    replicas: Seq<Option<i32>>,
    peer: PeerCacheAttention,
    held: Seq<Seq<IndexBinding>>,
    k: int,
    position: u64,
)
    requires
        before.inv(),
        after.inv(),
        tells_truly(before, held),
        before.enqueue_error(bank, local, replicas) is None,
        after.enqueued(before, bank, local, peer),
        0 <= k < local.sources@.len(),
    ensures
        ({
            let own = bindings_of(local.sources@);
            let i = plan::source_of(local.sources@[k].source_layer as int)->Some_0;
            let now = match peer.copied {
                Some(copied) => held.update(copied as int, own),
                None => held,
            };
            &&& 0 <= i < SOURCE_COUNT
            &&& now[i] == own
            &&& own.len() == local.windows@.len() && own[k] == local.sources@[k].binding
            &&& tells_truly(after, now)
            &&& peer.sources@[k].binding == own[k]
            &&& peer.sources@[k].query_words(position) == local.sources@[k].query_words(position)
            &&& peer.sources@[k].kv_values == before.sources@[i].values
            &&& peer.sources@[k].kv_scales == before.sources@[i].scales
        }),
{
    let first = local.sources@[0].source_layer as int;
    let i = plan::source_of(first)->Some_0;
    assert(local.sources@[k].source_layer == first);
    let own = bindings_of(local.sources@);
    let now = match peer.copied {
        Some(copied) => held.update(copied as int, own),
        None => held,
    };
    assert(before.bindings@[i]@.len() == 0 || before.bindings@[i]@ == held[i]);
    assert(mirrors(
        &bank.sources@[i],
        &bank.sources@[i].index.replica->Some_0,
        peer.sources@[k],
        local.sources@[k],
        before.sources@[i],
    ));
    assert forall|j: int| 0 <= j < SOURCE_COUNT implies (#[trigger] after.bindings@[j])@.len() == 0
        || after.bindings@[j]@ == now[j] by {
        if j != i {
            assert(after.bindings@[j] == before.bindings@[j]);
        }
    }
}

/// Where a batch is refused, the bindings still tell truly, whatever has been done by
/// then to the copy that it was compared with.
pub proof fn law_refused_batch_leaves_true_bindings(
    before: &PeerAttentionInputs,
    after: &PeerAttentionInputs,
    local: &CacheAttention,
    replicas: Seq<Option<i32>>,
    held: Seq<Seq<IndexBinding>>,
    now: Seq<Seq<IndexBinding>>,
)
    requires
        before.inv(),
        after.inv(),
        tells_truly(before, held),
        after.refused(before, local, replicas),
        now.len() == SOURCE_COUNT,
        forall|i: int|
            0 <= i < SOURCE_COUNT && !(before.compared(local, replicas) == Some(i)
                && before.bindings@[i]@ != bindings_of(local.sources@)) ==> #[trigger] now[i]
                == held[i],
    ensures
        tells_truly(after, now),
{
    assert forall|i: int| 0 <= i < SOURCE_COUNT implies (#[trigger] after.bindings@[i])@.len() == 0
        || after.bindings@[i]@ == now[i] by {
        assert(before.bindings@[i]@.len() == 0 || before.bindings@[i]@ == held[i]);
        let same = now[i];
    }
}

} // verus!
