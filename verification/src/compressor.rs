//! Compressed-source state: request leases over the slots of one paged cache.
use crate::error::Error;
use crate::page_pool;
use crate::source_cache;
use crate::source_cache::layout::{IndexCacheView, KvCacheView, SourceBuffers};
use crate::source_cache::replica::{Device, ReplicaBuffers, SourceReplica};
use crate::source_cache::{pages_for_rows, Append, SourceCache, MAX_SLOTS};
use vstd::prelude::*;

pub mod commit;
pub mod laws;
pub mod prefix;
pub mod queue;
pub mod upload;
pub mod wave;

verus! {

/// Longest token history of one request.
pub const MAX_CONTEXT: u64 = 1048576;

/// Takes the next proposal identity from a counter.
pub fn reserve_source_snapshot(next: &mut u64) -> (r: Result<u64, Error>)
    ensures
        match r {
            Ok(id) => id == *old(next) && *final(next) == id + 1,
            Err(e) => e == Error::ProposalsExhausted && *old(next) == u64::MAX && *final(next)
                == *old(next),
        },
{
    let id: u64 = *next;
    match id.checked_add(1) {
        Some(following) => {
            *next = following;
            Ok(id)
        },
        None => Err(Error::ProposalsExhausted),
    }
}

/// Tokens per compressed row of a source layer.
pub open spec fn layer_ratio(layer: int) -> Result<int, Error> {
    if layer == 2 || layer == 8 || layer == 14 {
        Ok(2)
    } else if layer == 20 {
        Ok(1)
    } else {
        Err(Error::NotASource)
    }
}

pub fn ratio(layer: usize) -> (r: Result<usize, Error>)
    ensures
        source_cache::same_count(r, layer_ratio(layer as int)),
{
    match layer {
        2 | 8 | 14 => Ok(2),
        20 => Ok(1),
        _ => Err(Error::NotASource),
    }
}

/// The right to use one slot for one request.
#[derive(Debug, Clone, Copy, PartialEq, Eq, Structural)]
pub struct CompressorLease {
    pub owner: u64,
    pub slot: usize,
    pub generation: u64,
}

#[derive(Debug, Clone, Copy, PartialEq, Eq, Structural)]
pub struct CompressorChunk {
    pub lease: CompressorLease,
    pub position: u64,
    pub tokens: u32,
}

#[derive(Debug, Clone, Copy, PartialEq, Eq, Structural)]
pub struct CompressorLatentRow {
    pub lease: CompressorLease,
    pub source_row: u32,
    /// First token represented by this latent.
    pub position: u64,
}

#[derive(Debug, Clone, Copy, PartialEq, Eq, Structural)]
pub struct Slot {
    pub generation: u64,
    pub version: u64,
    pub request: Option<u64>,
    pub end: u64,
}

pub struct CompressorState {
    pub index: SourceCache,
    pub slots: Vec<Slot>,
    pub slot_count: usize,
    pub layer: usize,
    pub owner: u64,
}

/// Pages that fully provision `slots` requests of `context` tokens.
pub open spec fn context_pages(layer: int, slots: int, context: int) -> Result<int, Error> {
    if !(1 <= slots <= 16) {
        Err(Error::CompressorSlots)
    } else if !(1 <= context <= 1048576) {
        Err(Error::CompressorContext)
    } else {
        match layer_ratio(layer) {
            Err(e) => Err(e),
            Ok(step) => {
                let pages = source_cache::page_count((context + step - 1) / step) * slots;
                match source_cache::pool_bytes(pages, slots, 356) {
                    Err(e) => Err(e),
                    Ok(_) => Ok(pages),
                }
            },
        }
    }
}

/// Device bytes of one source: its paged cache and, for a ratio of two, one
/// carried row per slot.
pub open spec fn state_bytes(layer: int, slots: int, pages: int) -> Result<int, Error> {
    if !(1 <= slots <= 16) {
        Err(Error::CompressorSlots)
    } else {
        match source_cache::pool_bytes(pages, slots, 356) {
            Err(e) => Err(e),
            Ok(bytes) => match layer_ratio(layer) {
                Err(e) => Err(e),
                Ok(step) => {
                    let total = bytes + if step == 2 {
                        slots * 4096
                    } else {
                        0
                    };
                    if total <= usize::MAX {
                        Ok(total)
                    } else {
                        Err(Error::BudgetOverflow)
                    }
                },
            },
        }
    }
}

pub proof fn lemma_state_bytes_positive(layer: int, slots: int, pages: int)
    ensures
        state_bytes(layer, slots, pages) matches Ok(bytes) ==> bytes >= 0,
{
    if 1 <= slots <= 16 {
        source_cache::lemma_pool_bytes_positive(pages, slots, 356);
    }
}

impl CompressorState {
    /// Tokens per compressed row.
    pub open spec fn step(&self) -> int {
        if self.layer == 20 {
            1
        } else {
            2
        }
    }

    pub open spec fn inv(&self) -> bool {
        &&& self.index.inv()
        &&& self.slots@.len() == MAX_SLOTS
        &&& self.slot_count == self.index.slots
        &&& layer_ratio(self.layer as int) is Ok
        &&& forall|s: int|
            0 <= s < MAX_SLOTS ==> {
                &&& (#[trigger] self.slots@[s]).end <= MAX_CONTEXT
                &&& s >= self.slot_count ==> self.slots@[s].request is None
                &&& self.slots@[s].request is None ==> self.index.pages@[s]@.len() == 0
                    && !self.index.writing@[s]
            }
    }

    /// Why `lease` does not name a live request, if it does not.
    pub open spec fn lease_error(&self, lease: CompressorLease) -> Option<Error> {
        if lease.owner != self.owner || lease.slot >= self.slot_count {
            Some(Error::ForeignCompressorLease)
        } else if self.slots@[lease.slot as int].request is None
            || self.slots@[lease.slot as int].generation != lease.generation {
            Some(Error::StaleCompressorLease)
        } else {
            None
        }
    }

    /// Why `lease` cannot be changed now, if it cannot.
    pub open spec fn idle_error(&self, lease: CompressorLease) -> Option<Error> {
        match self.lease_error(lease) {
            Some(e) => Some(e),
            None => if self.index.writing@[lease.slot as int] {
                Some(Error::PendingAppend)
            } else {
                None
            },
        }
    }

    /// Fully provisions every slot, rounding each slot to physical pages.
    pub fn pages_for_context(layer: usize, slots: usize, context: usize) -> (r: Result<usize, Error>)
        ensures
            source_cache::same_count(r, context_pages(layer as int, slots as int, context as int)),
    {
        if slots < 1 || slots > MAX_SLOTS {
            return Err(Error::CompressorSlots);
        }
        if context < 1 || context > 1048576 {
            return Err(Error::CompressorContext);
        }
        let step: usize = match ratio(layer) {
            Err(e) => {
                return Err(e);
            },
            Ok(step) => step,
        };
        let rows: usize = if step == 2 {
            context / 2 + context % 2
        } else {
            context
        };
        let each: usize = pages_for_rows(rows);
        assert(each * slots <= 4096 * 16) by (nonlinear_arith)
            requires
                each <= 4096,
                slots <= 16,
        ;
        let pages: usize = each * slots;
        match SourceCache::device_bytes(pages, slots) {
            Err(e) => Err(e),
            Ok(_) => Ok(pages),
        }
    }

    pub fn device_bytes(layer: usize, slots: usize, index_pages: usize) -> (r: Result<usize, Error>)
        ensures
            source_cache::same_count(r, state_bytes(layer as int, slots as int, index_pages as int)),
    {
        if slots < 1 || slots > MAX_SLOTS {
            return Err(Error::CompressorSlots);
        }
        let bytes: usize = match SourceCache::device_bytes(index_pages, slots) {
            Err(e) => {
                return Err(e);
            },
            Ok(bytes) => bytes,
        };
        let step: usize = match ratio(layer) {
            Err(e) => {
                return Err(e);
            },
            Ok(step) => step,
        };
        let carry: usize = if step == 2 {
            slots * 4096
        } else {
            0
        };
        match bytes.checked_add(carry) {
            Some(total) => Ok(total),
            None => Err(Error::BudgetOverflow),
        }
    }

    /// A source without requests, known as `owner`.
    pub fn new(owner: u64, layer: usize, slots: usize, index_pages: usize, budget: usize) -> (r: Result<
        Self,
        Error,
    >)
        ensures
            match r {
                Err(e) => match state_bytes(layer as int, slots as int, index_pages as int) {
                    Err(reason) => e == reason,
                    Ok(bytes) => e == Error::CompressorBudget && bytes > budget,
                },
                Ok(state) => {
                    &&& state_bytes(layer as int, slots as int, index_pages as int) matches Ok(bytes)
                        && bytes <= budget
                    &&& state.inv()
                    &&& state.owner == owner
                    &&& state.layer == layer
                    &&& state.slot_count == slots
                    &&& state.index.identity == owner
                    &&& state.index.pool.references@.len() == index_pages
                    &&& state.index.untouched()
                    &&& state.index.replica is None
                    &&& forall|s: int|
                        0 <= s < MAX_SLOTS ==> (#[trigger] state.slots@[s]) == (Slot {
                            generation: 0,
                            version: 0,
                            request: None,
                            end: 0,
                        })
                },
            },
    {
        match Self::device_bytes(layer, slots, index_pages) {
            Err(e) => {
                return Err(e);
            },
            Ok(bytes) => if bytes > budget {
                return Err(Error::CompressorBudget);
            },
        }
        let index = match SourceCache::new(owner, index_pages, slots) {
            Err(e) => {
                return Err(e);
            },
            Ok(index) => index,
        };
        let mut table: Vec<Slot> = Vec::new();
        let mut slot: usize = 0;
        while slot < MAX_SLOTS
            invariant
                slot <= MAX_SLOTS,
                table@ == Seq::new(
                    slot as nat,
                    |i: int| Slot { generation: 0, version: 0, request: None, end: 0 },
                ),
            decreases MAX_SLOTS - slot,
        {
            table.push(Slot { generation: 0, version: 0, request: None, end: 0 });
            slot = slot + 1;
        }
        Ok(CompressorState { index, slots: table, slot_count: slots, layer, owner })
    }

    /// The requests and frontiers of all slots but `slot` are as in `before`.
    pub open spec fn other_slots_kept(&self, before: &Self, slot: int) -> bool {
        &&& self.slots@.len() == before.slots@.len()
        &&& forall|s: int|
            0 <= s < MAX_SLOTS && s != slot ==> #[trigger] self.slots@[s] == before.slots@[s]
    }

    pub open spec fn same_identity(&self, before: &Self) -> bool {
        &&& self.owner == before.owner
        &&& self.layer == before.layer
        &&& self.slot_count == before.slot_count
    }

    /// Whether a request of this number is live.
    pub open spec fn serves(&self, request: u64) -> bool {
        exists|s: int| 0 <= s < MAX_SLOTS && (#[trigger] self.slots@[s]).request == Some(request)
    }

    /// Why `slot` cannot be claimed for `request`, if it cannot.
    pub open spec fn begin_error(&self, slot: int, request: u64) -> Option<Error> {
        if slot >= self.slot_count || self.slots@[slot].request is Some {
            Some(Error::CompressorSlotTaken)
        } else if self.serves(request) {
            Some(Error::DuplicateCompressorRequest)
        } else if self.slots@[slot].generation == u64::MAX {
            Some(Error::CompressorGenerations)
        } else {
            None
        }
    }

    /// Claims a free slot. The caller publishes the empty row count on the
    /// device first; a new request starts at zero and reads no older carry.
    pub fn begin_request(&mut self, slot: usize, request: u64) -> (r: Result<CompressorLease, Error>)
        requires
            old(self).inv(),
        ensures
            final(self).inv(),
            match r {
                Err(e) => old(self).begin_error(slot as int, request) == Some(e) && *final(self)
                    == *old(self),
                Ok(lease) => {
                    &&& old(self).begin_error(slot as int, request) is None
                    &&& lease.owner == old(self).owner
                    &&& lease.slot == slot
                    &&& lease.generation == old(self).slots@[slot as int].generation + 1
                    &&& final(self).slots@[slot as int] == (Slot {
                        generation: lease.generation,
                        version: 0,
                        request: Some(request),
                        end: 0,
                    })
                    &&& final(self).other_slots_kept(old(self), slot as int)
                    &&& final(self).index == old(self).index
                    &&& final(self).same_identity(old(self))
                    &&& final(self).idle_error(lease) is None
                },
            },
    {
        if slot >= self.slot_count || self.slots[slot].request.is_some() {
            return Err(Error::CompressorSlotTaken);
        }
        let mut i: usize = 0;
        while i < self.slots.len()
            invariant
                i <= self.slots@.len() == MAX_SLOTS,
                *self == *old(self),
                self.inv(),
                slot < self.slot_count,
                self.slots@[slot as int].request is None,
                forall|s: int| 0 <= s < i ==> (#[trigger] self.slots@[s]).request != Some(request),
            decreases self.slots@.len() - i,
        {
            if let Some(other) = self.slots[i].request {
                if other == request {
                    assert(self.slots@[i as int].request == Some(request));
                    return Err(Error::DuplicateCompressorRequest);
                }
            }
            i = i + 1;
        }
        let generation: u64 = match self.slots[slot].generation.checked_add(1) {
            None => {
                return Err(Error::CompressorGenerations);
            },
            Some(generation) => generation,
        };
        self.slots[slot] = Slot { generation, version: 0, request: Some(request), end: 0 };
        Ok(CompressorLease { owner: self.owner, slot, generation })
    }

    pub fn validate_identity(&self, lease: CompressorLease) -> (r: Result<usize, Error>)
        requires
            self.inv(),
        ensures
            match r {
                Ok(slot) => slot == lease.slot && self.lease_error(lease) is None,
                Err(e) => self.lease_error(lease) == Some(e),
            },
    {
        if lease.owner != self.owner || lease.slot >= self.slot_count {
            return Err(Error::ForeignCompressorLease);
        }
        let slot = &self.slots[lease.slot];
        if slot.request.is_none() || slot.generation != lease.generation {
            return Err(Error::StaleCompressorLease);
        }
        Ok(lease.slot)
    }

    pub fn validate(&self, lease: CompressorLease) -> (r: Result<usize, Error>)
        requires
            self.inv(),
        ensures
            match r {
                Ok(slot) => slot == lease.slot && self.idle_error(lease) is None,
                Err(e) => self.idle_error(lease) == Some(e),
            },
    {
        let slot: usize = match self.validate_identity(lease) {
            Err(e) => {
                return Err(e);
            },
            Ok(slot) => slot,
        };
        match self.index.ensure_idle(slot) {
            Err(e) => Err(e),
            Ok(_) => Ok(slot),
        }
    }

    pub fn request_id(&self, lease: CompressorLease) -> (r: Result<u64, Error>)
        requires
            self.inv(),
        ensures
            match r {
                Ok(id) => self.lease_error(lease) is None && self.slots@[lease.slot as int].request
                    == Some(id),
                Err(e) => self.lease_error(lease) == Some(e),
            },
    {
        match self.validate_identity(lease) {
            Err(e) => Err(e),
            Ok(slot) => match self.slots[slot].request {
                Some(id) => Ok(id),
                None => Err(Error::StaleCompressorLease),
            },
        }
    }

    pub fn committed_end(&self, lease: CompressorLease) -> (r: Result<u64, Error>)
        requires
            self.inv(),
        ensures
            match r {
                Ok(end) => self.lease_error(lease) is None && end
                    == self.slots@[lease.slot as int].end,
                Err(e) => self.lease_error(lease) == Some(e),
            },
    {
        match self.validate_identity(lease) {
            Err(e) => Err(e),
            Ok(slot) => Ok(self.slots[slot].end),
        }
    }

    pub fn ensure_not_writing(&self, lease: CompressorLease) -> (r: Result<(), Error>)
        requires
            self.inv(),
        ensures
            match r {
                Ok(_) => self.idle_error(lease) is None,
                Err(e) => self.idle_error(lease) == Some(e),
            },
    {
        match self.validate(lease) {
            Err(e) => Err(e),
            Ok(_) => Ok(()),
        }
    }

    /// Sets up the copy of an empty source on a peer device.
    pub fn enable_replica(
        &mut self,
        home: Device,
        peer: Device,
        buffers: ReplicaBuffers,
    ) -> (r: Result<(), Error>)
        requires
            old(self).inv(),
            buffers.serve(&old(self).index),
        ensures
            final(self).inv(),
            match r {
                Ok(_) => {
                    &&& old(self).index.replica is None
                    &&& SourceReplica::admission_error(&old(self).index, home, peer) is None
                    &&& final(self).index.replica matches Some(replica) && replica.device == peer
                        && replica.buffers == buffers
                    &&& final(self).slots@ == old(self).slots@
                    &&& final(self).same_identity(old(self))
                    &&& final(self).index == (SourceCache {
                        replica: final(self).index.replica,
                        ..old(self).index
                    })
                },
                Err(e) => {
                    &&& *final(self) == *old(self)
                    &&& if old(self).index.replica is Some {
                        e == Error::ReplicaConfigured
                    } else {
                        SourceReplica::admission_error(&old(self).index, home, peer) == Some(e)
                    }
                },
            },
    {
        self.index.enable_replica(home, peer, buffers)
    }

    /// The source page cache, for the host cache's page copies and allocations.
    pub fn source_cache(&self) -> (r: &SourceCache)
        ensures
            *r == self.index,
    {
        &self.index
    }
}

/// One request's part of an append: its lease and the tokens to add.
pub type AppendWork = (CompressorLease, u32);

impl CompressorState {
    /// The append of `tokens` further tokens to a lease's history, in rows.
    pub open spec fn append_of(&self, lease: CompressorLease, tokens: u32) -> Append {
        let end = self.slots@[lease.slot as int].end as int;
        (
            lease.slot,
            (end / self.step()) as usize,
            ((end + tokens) / self.step()) as usize,
        )
    }

    /// The first lease among the first `n` that cannot be appended to.
    pub open spec fn first_idle_error(&self, work: Seq<AppendWork>, n: int) -> Option<Error>
        decreases n,
    {
        if n <= 0 {
            None
        } else {
            match self.first_idle_error(work, n - 1) {
                Some(e) => Some(e),
                None => self.idle_error(work[n - 1].0),
            }
        }
    }

    pub open spec fn appends_of(&self, work: Seq<AppendWork>) -> Seq<Append> {
        Seq::new(work.len(), |i: int| self.append_of(work[i].0, work[i].1))
    }

    /// Why `work` does not fit the page pool, if it does not.
    pub open spec fn capacity_error(&self, work: Seq<AppendWork>) -> Option<Error> {
        match self.first_idle_error(work, work.len() as int) {
            Some(e) => Some(e),
            None => match self.index.planned(self.appends_of(work)) {
                Ok(_) => None,
                Err(e) => Some(e),
            },
        }
    }

    proof fn lemma_idle_error_stays(&self, work: Seq<AppendWork>, n: int, m: int)
        requires
            self.first_idle_error(work, n) is Some,
            0 <= n <= m,
        ensures
            self.first_idle_error(work, m) == self.first_idle_error(work, n),
        decreases m,
    {
        if n < m {
            self.lemma_idle_error_stays(work, n, m - 1);
        }
    }

    /// Everything but ghost bookkeeping of the page cache is as in `before`.
    pub open spec fn same_contents(&self, before: &Self) -> bool {
        &&& self.same_identity(before)
        &&& self.slots@ == before.slots@
        &&& self.index.same_shape(&before.index)
        &&& self.index.pages@ == before.index.pages@
        &&& self.index.rows@ == before.index.rows@
        &&& self.index.writing@ == before.index.writing@
        &&& self.index.plans@ == before.index.plans@
        &&& self.index.pool.references@ == before.index.pool.references@
        &&& self.index.pool.generations@ == before.index.pool.generations@
        &&& self.index.pool.free@ == before.index.pool.free@
    }

    /// Whether `work` could be appended now; nothing is claimed.
    pub fn check_append_capacity(&mut self, work: &[AppendWork]) -> (r: Result<(), Error>)
        requires
            old(self).inv(),
        ensures
            final(self).inv(),
            final(self).same_contents(old(self)),
            match r {
                Ok(_) => old(self).capacity_error(work@) is None,
                Err(e) => old(self).capacity_error(work@) == Some(e),
            },
    {
        let step: usize = match ratio(self.layer) {
            Err(e) => {
                return Err(e);
            },
            Ok(step) => step,
        };
        let mut appends: Vec<Append> = Vec::new();
        let mut i: usize = 0;
        while i < work.len()
            invariant
                i <= work@.len(),
                self.inv(),
                *self == *old(self),
                step == self.step(),
                self.first_idle_error(work@, i as int) is None,
                appends@ == self.appends_of(work@).take(i as int),
            decreases work@.len() - i,
        {
            let (lease, tokens) = work[i];
            let slot: usize = match self.validate(lease) {
                Err(e) => {
                    proof {
                        assert(self.first_idle_error(work@, i + 1) == Some(e));
                        self.lemma_idle_error_stays(work@, i + 1, work@.len() as int);
                    }
                    return Err(e);
                },
                Ok(slot) => slot,
            };
            let end: u64 = self.slots[slot].end;
            let start: usize = (end / step as u64) as usize;
            let stop: usize = ((end + tokens as u64) / step as u64) as usize;
            proof {
                assert(self.slots@[slot as int].end <= MAX_CONTEXT);
                if step == 2 {
                    assert((end + tokens as u64) / 2 <= 0x8010_0000);
                }
            }
            appends.push((slot, start, stop));
            assert(appends@ =~= self.appends_of(work@).take(i + 1)) by {
                assert(self.append_of(lease, tokens) == (slot, start, stop));
            }
            i = i + 1;
        }
        assert(appends@ =~= self.appends_of(work@));
        match self.index.reserve(appends.as_slice()) {
            Err(e) => Err(e),
            Ok(plan) => {
                let ghost reserved = self.index;
                let ghost taken = plan.pages@;
                self.index.discard(plan);
                proof {
                    let before = old(self).index;
                    assert(self.index.pool.free@ =~= before.pool.free@);
                    assert(self.index.plans@ =~= before.plans@);
                    assert(self.index.writing@ =~= before.writing@) by {
                        assert forall|s: int| 0 <= s < MAX_SLOTS implies self.index.writing@[s]
                            == before.writing@[s] by {
                            assert(self.index.writing@[s] <==> self.index.appended(s));
                            assert(before.writing@[s] <==> before.appended(s));
                        }
                    }
                }
                Ok(())
            },
        }
    }

    pub fn index_cache(&self, buffers: &SourceBuffers, lease: CompressorLease) -> (r: Result<
        IndexCacheView<'_>,
        Error,
    >)
        requires
            self.inv(),
            buffers.serve(&self.index),
        ensures
            match r {
                Ok(view) => {
                    &&& self.idle_error(lease) is None
                    &&& view.rows == self.slots@[lease.slot as int].end as int / self.step()
                    &&& self.index.index_view(*buffers, lease.slot as int, view.rows, view)
                },
                Err(e) => self.idle_error(lease) == Some(e),
            },
    {
        let slot: usize = match self.validate(lease) {
            Err(e) => {
                return Err(e);
            },
            Ok(slot) => slot,
        };
        let rows: usize = self.committed_rows(slot);
        Ok(self.index.view(buffers, slot, rows))
    }

    pub fn kv_cache(&self, buffers: &SourceBuffers, lease: CompressorLease) -> (r: Result<
        KvCacheView<'_>,
        Error,
    >)
        requires
            self.inv(),
            buffers.serve(&self.index),
        ensures
            match r {
                Ok(view) => {
                    &&& self.idle_error(lease) is None
                    &&& view.rows == self.slots@[lease.slot as int].end as int / self.step()
                    &&& self.index.value_view(*buffers, lease.slot as int, view.rows, view)
                },
                Err(e) => self.idle_error(lease) == Some(e),
            },
    {
        let slot: usize = match self.validate(lease) {
            Err(e) => {
                return Err(e);
            },
            Ok(slot) => slot,
        };
        let rows: usize = self.committed_rows(slot);
        Ok(self.index.kv_view(buffers, slot, rows))
    }

    /// Complete compressed rows of a slot's committed history.
    pub fn committed_rows(&self, slot: usize) -> (r: usize)
        requires
            self.inv(),
            slot < MAX_SLOTS,
        ensures
            r == self.slots@[slot as int].end as int / self.step(),
    {
        let end: u64 = self.slots[slot].end;
        assert(end <= MAX_CONTEXT);
        if self.layer == 20 {
            end as usize
        } else {
            end as usize / 2
        }
    }

    /// What releasing an idle slot does.
    pub open spec fn slot_released(&self, before: &Self, slot: int) -> bool {
        &&& self.same_identity(before)
        &&& self.slots@ == before.slots@.update(slot, Slot { request: None, ..before.slots@[slot] })
        &&& self.index.same_shape(&before.index)
        &&& self.index.tables() == before.index.tables().update(slot, Seq::empty())
        &&& self.index.rows@ == before.index.rows@.update(slot, 0)
        &&& self.index.writing@ == before.index.writing@
        &&& self.index.plans == before.index.plans
        &&& self.index.pool.references@.len() == before.index.pool.references@.len()
        &&& forall|p: u32|
            p < before.index.pool.references@.len() ==> self.index.retained(p)
                == #[trigger] before.index.retained(p)
        &&& self.index.pool.gave_back(&before.index.pool, before.index.pages@[slot]@)
    }

    /// Ends a slot's request and gives its pages back.
    fn release_slot(&mut self, slot: usize)
        requires
            old(self).inv(),
            slot < old(self).slot_count,
            !old(self).index.writing@[slot as int],
        ensures
            final(self).inv(),
            final(self).slot_released(old(self), slot as int),
    {
        let was: Slot = self.slots[slot];
        self.slots[slot] = Slot {
            generation: was.generation,
            version: was.version,
            request: None,
            end: was.end,
        };
        let ghost tables = self.index.tables();
        let released = self.index.release(slot);
        proof {
            assert(released is Ok);
            assert forall|s: int| 0 <= s < MAX_SLOTS implies {
                &&& (#[trigger] self.slots@[s]).end <= MAX_CONTEXT
                &&& s >= self.slot_count ==> self.slots@[s].request is None
                &&& self.slots@[s].request is None ==> self.index.pages@[s]@.len() == 0
                    && !self.index.writing@[s]
            } by {
                assert(old(self).slots@[s].end <= MAX_CONTEXT);
                assert(self.index.tables()[s] == self.index.pages@[s]@);
                assert(tables[s] == old(self).index.pages@[s]@);
            }
        }
    }

    /// All device consumers of this request's cache must have finished.
    pub fn release(&mut self, lease: CompressorLease) -> (r: Result<(), Error>)
        requires
            old(self).inv(),
        ensures
            final(self).inv(),
            match r {
                Err(e) => old(self).idle_error(lease) == Some(e) && *final(self) == *old(self),
                Ok(_) => {
                    &&& old(self).idle_error(lease) is None
                    &&& final(self).slot_released(old(self), lease.slot as int)
                    &&& final(self).lease_error(lease) == Some(Error::StaleCompressorLease)
                },
            },
    {
        match self.validate(lease) {
            Err(e) => {
                return Err(e);
            },
            Ok(slot) => {
                self.release_slot(slot);
            },
        }
        Ok(())
    }

    /// The first of the first `n` leases that cannot be revoked.
    pub open spec fn first_revoke_error(&self, leases: Seq<CompressorLease>, n: int) -> Option<Error>
        decreases n,
    {
        if n <= 0 {
            None
        } else {
            match self.first_revoke_error(leases, n - 1) {
                Some(e) => Some(e),
                None => self.idle_error(leases[n - 1]),
            }
        }
    }

    proof fn lemma_revoke_error_stays(&self, leases: Seq<CompressorLease>, n: int, m: int)
        requires
            self.first_revoke_error(leases, n) is Some,
            0 <= n <= m,
        ensures
            self.first_revoke_error(leases, m) == self.first_revoke_error(leases, n),
        decreases m,
    {
        if n < m {
            self.lemma_revoke_error_stays(leases, n, m - 1);
        }
    }

    proof fn lemma_revocable(&self, leases: Seq<CompressorLease>, n: int, i: int)
        requires
            self.first_revoke_error(leases, n) is None,
            0 <= i < n,
        ensures
            self.idle_error(leases[i]) is None,
        decreases n,
    {
        if i < n - 1 {
            self.lemma_revocable(leases, n - 1, i);
        }
    }

    /// One of the first `n` leases names `slot`.
    pub open spec fn names_slot(leases: Seq<CompressorLease>, n: int, slot: int) -> bool {
        exists|i: int| 0 <= i < n && (#[trigger] leases[i]).slot == slot
    }

    /// Revokes participating requests after an outside transaction has failed.
    pub fn invalidate(&mut self, leases: &[CompressorLease]) -> (r: Result<(), Error>)
        requires
            old(self).inv(),
        ensures
            final(self).inv(),
            match r {
                Err(e) => {
                    &&& old(self).first_revoke_error(leases@, leases@.len() as int) == Some(e)
                    &&& *final(self) == *old(self)
                },
                Ok(_) => {
                    &&& old(self).first_revoke_error(leases@, leases@.len() as int) is None
                    &&& final(self).revoked(old(self), leases@, leases@.len() as int)
                },
            },
    {
        let mut i: usize = 0;
        while i < leases.len()
            invariant
                i <= leases@.len(),
                self.inv(),
                *self == *old(self),
                self.first_revoke_error(leases@, i as int) is None,
            decreases leases@.len() - i,
        {
            match self.validate(leases[i]) {
                Err(e) => {
                    proof {
                        assert(self.first_revoke_error(leases@, i + 1) == Some(e));
                        self.lemma_revoke_error_stays(leases@, i + 1, leases@.len() as int);
                    }
                    return Err(e);
                },
                Ok(_) => {},
            }
            i = i + 1;
        }
        proof {
            assert forall|k: int| 0 <= k < leases@.len() implies (#[trigger] leases@[k]).slot
                < self.slot_count && !self.index.writing@[leases@[k].slot as int] by {
                self.lemma_revocable(leases@, leases@.len() as int, k);
            }
        }
        self.revoke(leases);
        Ok(())
    }

    /// Ends the requests of idle slots and gives their pages back.
    fn revoke(&mut self, leases: &[CompressorLease])
        requires
            old(self).inv(),
            forall|k: int|
                0 <= k < leases@.len() ==> (#[trigger] leases@[k]).slot < old(self).slot_count
                    && !old(self).index.writing@[leases@[k].slot as int],
        ensures
            final(self).inv(),
            final(self).revoked(old(self), leases@, leases@.len() as int),
    {
        let mut i: usize = 0;
        let ghost before = *self;
        while i < leases.len()
            invariant
                i <= leases@.len(),
                before == *old(self),
                before.inv(),
                self.inv(),
                forall|k: int|
                    0 <= k < leases@.len() ==> (#[trigger] leases@[k]).slot < before.slot_count
                        && !before.index.writing@[leases@[k].slot as int],
                self.revoked(&before, leases@, i as int),
            decreases leases@.len() - i,
        {
            let slot: usize = leases[i].slot;
            let ghost current = *self;
            proof {
                assert(leases@[i as int].slot < before.slot_count);
                assert(before.index.writing@[slot as int] == self.index.writing@[slot as int]);
            }
            self.release_slot(slot);
            i = i + 1;
            proof {
                let gone = current.index.pages@[slot as int]@;
                assert(current.slots@[slot as int] == current.slots@[slot as int]);
                assert(gone =~= if Self::names_slot(leases@, i - 1, slot as int) {
                    Seq::empty()
                } else {
                    before.index.pages@[slot as int]@
                });
                assert(before.index.pool.in_range(before.index.pages@[slot as int]@));
                page_pool::lemma_gave_back_twice(
                    &before.index.pool,
                    &current.index.pool,
                    &self.index.pool,
                    before.leased_pages(leases@, i - 1),
                    gone,
                );
                assert forall|s: int| 0 <= s < MAX_SLOTS implies {
                    &&& Self::names_slot(leases@, i as int, s) ==> self.slots@[s] == (Slot {
                        request: None,
                        ..before.slots@[s]
                    }) && self.index.pages@[s]@.len() == 0 && self.index.rows@[s] == 0
                    &&& !Self::names_slot(leases@, i as int, s) ==> #[trigger] self.slots@[s]
                        == before.slots@[s] && self.index.pages@[s]@ == before.index.pages@[s]@
                        && self.index.rows@[s] == before.index.rows@[s]
                } by {
                    assert(current.slots@[s] == current.slots@[s]);
                    assert(self.index.tables()[s] == self.index.pages@[s]@);
                    assert(current.index.tables()[s] == current.index.pages@[s]@);
                    if s == slot {
                        assert(leases@[i - 1].slot == s);
                        assert(Self::names_slot(leases@, i as int, s));
                        if !Self::names_slot(leases@, i - 1, s) {
                            assert(current.slots@[s] == before.slots@[s]);
                        }
                    } else {
                        if Self::names_slot(leases@, i as int, s) {
                            let k = choose|k: int|
                                0 <= k < i && (#[trigger] leases@[k]).slot == s;
                            assert(leases@[k].slot == s);
                            assert(Self::names_slot(leases@, i - 1, s));
                        }
                        if Self::names_slot(leases@, i - 1, s) {
                            let k = choose|k: int|
                                0 <= k < i - 1 && (#[trigger] leases@[k]).slot == s;
                            assert(leases@[k].slot == s);
                            assert(Self::names_slot(leases@, i as int, s));
                        }
                    }
                }
            }
        }
    }

    /// The pages of the first `n` leases' slots, in order.
    pub open spec fn leased_pages(&self, leases: Seq<CompressorLease>, n: int) -> Seq<u32>
        decreases n,
    {
        if n <= 0 {
            Seq::empty()
        } else {
            let slot = leases[n - 1].slot as int;
            self.leased_pages(leases, n - 1) + if Self::names_slot(leases, n - 1, slot) {
                Seq::empty()
            } else {
                self.index.pages@[slot]@
            }
        }
    }

    pub proof fn lemma_same_leased_pages(
        &self,
        before: &Self,
        leases: Seq<CompressorLease>,
        n: int,
    )
        requires
            self.index.pages@ == before.index.pages@,
        ensures
            self.leased_pages(leases, n) == before.leased_pages(leases, n),
        decreases n,
    {
        if n > 0 {
            self.lemma_same_leased_pages(before, leases, n - 1);
        }
    }

    /// The slots of the first `n` leases have lost their requests and pages, the
    /// others are as in `before`.
    pub open spec fn revoked(&self, before: &Self, leases: Seq<CompressorLease>, n: int) -> bool {
        &&& self.same_identity(before)
        &&& self.index.same_shape(&before.index)
        &&& self.index.writing@ == before.index.writing@
        &&& self.index.plans == before.index.plans
        &&& self.index.pool.references@.len() == before.index.pool.references@.len()
        &&& forall|p: u32|
            p < before.index.pool.references@.len() ==> self.index.retained(p)
                == #[trigger] before.index.retained(p)
        &&& self.index.pool.gave_back(&before.index.pool, before.leased_pages(leases, n))
        &&& forall|s: int|
            0 <= s < MAX_SLOTS ==> {
                &&& Self::names_slot(leases, n, s) ==> self.slots@[s] == (Slot {
                    request: None,
                    ..before.slots@[s]
                }) && self.index.pages@[s]@.len() == 0 && self.index.rows@[s] == 0
                &&& !Self::names_slot(leases, n, s) ==> #[trigger] self.slots@[s] == before.slots@[s]
                    && self.index.pages@[s]@ == before.index.pages@[s]@ && self.index.rows@[s]
                    == before.index.rows@[s]
            }
    }
}

/// Pages for a context are as many as every slot's groups of it need, and no more.
pub proof fn law_context_pages_hold_every_slot(layer: int, slots: int, context: int, pages: int)
    requires
        context_pages(layer, slots, context) == Ok::<int, Error>(pages),
    ensures
        ({
            let step = layer_ratio(layer)->Ok_0;
            let each = pages / slots;
            &&& pages == slots * each
            &&& context <= step * 256 * each
            &&& step * (256 * (each - 1)) < context
        }),
{
    let step = layer_ratio(layer)->Ok_0;
    let each = source_cache::page_count((context + step - 1) / step);
    assert(each * slots / slots == each) by (nonlinear_arith)
        requires
            slots > 0,
    ;
    assert(each * slots == slots * each) by (nonlinear_arith);
    if step == 2 {
        assert(step * 256 * each == 512 * each);
        assert(step * (256 * (each - 1)) == 512 * (each - 1));
    } else {
        assert(step * 256 * each == 256 * each);
        assert(step * (256 * (each - 1)) == 256 * (each - 1));
    }
}

} // verus!
