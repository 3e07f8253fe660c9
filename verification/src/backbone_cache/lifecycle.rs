//! Making a bank, and claiming and releasing its slots.
use crate::backbone_cache::copies;
use crate::backbone_cache;
use crate::backbone_cache::budget;
use crate::backbone_cache::placement::CachePlacement;
use crate::backbone_cache::{
    source_at, BackboneCache, CacheLease, PendingPrefix, Request, LAYERS, SNAPSHOT_LANES,
    SOURCE_COUNT,
};
use crate::cache_phase::CachePhase;
use crate::compressor;
use crate::compressor::{CompressorLease, CompressorState, Slot};
use crate::error::Error;
use crate::source_cache::MAX_SLOTS;
use crate::window::{WindowLease, WindowSlot, WindowState};
use vstd::prelude::*;

verus! {

/// Numbers that a bank and its components take.
pub const BANK_IDS: u64 = 45;

impl BackboneCache {
    /// A bank without requests whose components are known by the numbers from
    /// `first` on.
    pub open spec fn unused(&self, first: int, slots: int) -> bool {
        &&& self.inv()
        &&& self.owner == first
        &&& !self.poisoned
        &&& self.prefix_pool is None
        &&& self.requests@.len() == slots
        &&& forall|s: int| 0 <= s < slots ==> (#[trigger] self.requests@[s]) is None
        &&& forall|s: int| 0 <= s < slots ==> #[trigger] self.generations@[s] == 0
        &&& forall|lane: int| 0 <= lane < SNAPSHOT_LANES ==> (#[trigger] self.prefix_copies@[lane]) is None
        &&& forall|l: int|
            0 <= l < LAYERS ==> {
                &&& (#[trigger] self.windows@[l]).owner == first + 1 + l
                &&& self.windows@[l].slots@ == Seq::new(
                    slots as nat,
                    |i: int| WindowSlot { generation: 0, request: None, end: 0 },
                )
                &&& self.windows@[l].writing@ == Seq::new(slots as nat, |i: int| false)
            }
        &&& forall|i: int|
            0 <= i < SOURCE_COUNT ==> {
                &&& (#[trigger] self.sources@[i]).owner == first + 41 + i
                &&& self.sources@[i].index.untouched()
                &&& forall|s: int|
                    0 <= s < MAX_SLOTS ==> (#[trigger] self.sources@[i].slots@[s]) == (Slot {
                        generation: 0,
                        version: 0,
                        request: None,
                        end: 0,
                    })
            }
    }

    /// Builds the components. Storage for all of them is known to exist.
    fn build(
        next_id: &mut u64,
        library: u64,
        slots: usize,
        source_pages: [usize; 4],
        devices: [i32; 40],
    ) -> (r: Result<Self, Error>)
        requires
            forall|i: int|
                0 <= i < 4 ==> compressor::state_bytes(
                    backbone_cache::source_layer(i),
                    slots as int,
                    #[trigger] source_pages@[i] as int,
                ) is Ok,
        ensures
            match r {
                Ok(bank) => {
                    &&& *final(next_id) == *old(next_id) + BANK_IDS
                    &&& bank.unused(*old(next_id) as int, slots as int)
                    &&& bank.library == library
                    &&& forall|l: int|
                        0 <= l < LAYERS ==> (#[trigger] bank.windows@[l]).device == devices@[l]
                    &&& forall|i: int|
                        0 <= i < SOURCE_COUNT ==> {
                            &&& (#[trigger] bank.sources@[i]).index.pool.references@.len()
                                == source_pages@[i]
                            &&& bank.sources@[i].index.replica is None
                        }
                },
                Err(e) => {
                    &&& e == Error::CacheIdsExhausted
                    &&& *old(next_id) + BANK_IDS > u64::MAX
                    &&& *final(next_id) == *old(next_id)
                },
            },
    {
        let first: u64 = *next_id;
        match first.checked_add(BANK_IDS) {
            None => {
                return Err(Error::CacheIdsExhausted);
            },
            Some(next) => {
                *next_id = next;
            },
        }
        assert(compressor::state_bytes(
            backbone_cache::source_layer(0),
            slots as int,
            source_pages@[0] as int,
        ) is Ok);
        let mut windows: Vec<WindowState> = Vec::new();
        let mut layer: usize = 0;
        while layer < LAYERS
            invariant
                layer <= LAYERS,
                1 <= slots <= MAX_SLOTS,
                first + BANK_IDS <= u64::MAX,
                windows@.len() == layer,
                forall|l: int|
                    0 <= l < layer ==> {
                        &&& (#[trigger] windows@[l]).inv()
                        &&& windows@[l].layer == l
                        &&& windows@[l].owner == first + 1 + l
                        &&& windows@[l].device == devices@[l]
                        &&& windows@[l].slots@ == Seq::new(
                            slots as nat,
                            |i: int| WindowSlot { generation: 0, request: None, end: 0 },
                        )
                        &&& windows@[l].writing@ == Seq::new(slots as nat, |i: int| false)
                    },
            decreases LAYERS - layer,
        {
            match WindowState::new(first + 1 + layer as u64, layer, devices[layer], slots) {
                Ok(state) => {
                    windows.push(state);
                },
                Err(e) => {
                    return Err(e);
                },
            }
            layer = layer + 1;
        }
        let mut sources: Vec<CompressorState> = Vec::new();
        let mut i: usize = 0;
        while i < SOURCE_COUNT
            invariant
                i <= SOURCE_COUNT,
                first + BANK_IDS <= u64::MAX,
                forall|k: int|
                    0 <= k < 4 ==> compressor::state_bytes(
                        backbone_cache::source_layer(k),
                        slots as int,
                        #[trigger] source_pages@[k] as int,
                    ) is Ok,
                sources@.len() == i,
                forall|k: int|
                    0 <= k < i ==> {
                        &&& (#[trigger] sources@[k]).inv()
                        &&& sources@[k].layer == backbone_cache::source_layer(k)
                        &&& sources@[k].slot_count == slots
                        &&& sources@[k].owner == first + 41 + k
                        &&& sources@[k].index.pool.references@.len() == source_pages@[k]
                        &&& sources@[k].index.untouched()
                        &&& sources@[k].index.replica is None
                        &&& forall|s: int|
                            0 <= s < MAX_SLOTS ==> (#[trigger] sources@[k].slots@[s]) == (Slot {
                                generation: 0,
                                version: 0,
                                request: None,
                                end: 0,
                            })
                    },
            decreases SOURCE_COUNT - i,
        {
            assert(compressor::state_bytes(
                backbone_cache::source_layer(i as int),
                slots as int,
                source_pages@[i as int] as int,
            ) is Ok);
            let source: usize = source_at(i);
            let bytes: usize = match CompressorState::device_bytes(source, slots, source_pages[i]) {
                Ok(bytes) => bytes,
                Err(e) => {
                    return Err(e);
                },
            };
            match CompressorState::new(first + 41 + i as u64, source, slots, source_pages[i], bytes) {
                Ok(state) => {
                    sources.push(state);
                },
                Err(e) => {
                    return Err(e);
                },
            }
            i = i + 1;
        }
        let mut requests: Vec<Option<Request>> = Vec::new();
        let mut generations: Vec<u64> = Vec::new();
        let mut s: usize = 0;
        while s < slots
            invariant
                s <= slots,
                requests@.len() == s,
                generations@.len() == s,
                forall|k: int| 0 <= k < s ==> (#[trigger] requests@[k]) is None,
                forall|k: int| 0 <= k < s ==> #[trigger] generations@[k] == 0,
            decreases slots - s,
        {
            requests.push(None);
            generations.push(0);
            s = s + 1;
        }
        let mut prefix_copies: Vec<Option<PendingPrefix>> = Vec::new();
        prefix_copies.push(None);
        prefix_copies.push(None);
        proof {
            copies::lemma_no_copies(prefix_copies@, sources@);
        }
        Ok(
            BackboneCache {
                owner: first,
                library,
                windows,
                sources,
                requests,
                generations,
                poisoned: false,
                prefix_pool: None,
                prefix_copies,
            },
        )
    }

    /// A bank on one device.
    pub fn new(
        next_id: &mut u64,
        library: u64,
        device: i32,
        slots: usize,
        source_pages: [usize; 4],
        window_bytes: usize,
        budget: usize,
    ) -> (r: Result<Self, Error>)
        ensures
            match r {
                Ok(bank) => {
                    &&& budget::with_sources(
                        40 * window_bytes,
                        slots as int,
                        source_pages@,
                        4,
                    ) matches Ok(bytes) && bytes <= budget
                    &&& *final(next_id) == *old(next_id) + BANK_IDS
                    &&& bank.unused(*old(next_id) as int, slots as int)
                    &&& bank.library == library
                    &&& forall|l: int|
                        0 <= l < LAYERS ==> (#[trigger] bank.windows@[l]).device == device
                    &&& forall|i: int|
                        0 <= i < SOURCE_COUNT ==> {
                            &&& (#[trigger] bank.sources@[i]).index.pool.references@.len()
                                == source_pages@[i]
                            &&& bank.sources@[i].index.replica is None
                        }
                },
                Err(e) => {
                    &&& *final(next_id) == *old(next_id)
                    &&& match budget::with_sources(
                        40 * window_bytes,
                        slots as int,
                        source_pages@,
                        4,
                    ) {
                        Err(reason) => e == reason,
                        Ok(bytes) => if bytes > budget {
                            e == Error::CacheBudget
                        } else {
                            e == Error::CacheIdsExhausted && *old(next_id) + BANK_IDS > u64::MAX
                        },
                    }
                },
            },
    {
        match Self::device_bytes(slots, source_pages, window_bytes) {
            Err(e) => {
                return Err(e);
            },
            Ok(bytes) => {
                if bytes > budget {
                    return Err(Error::CacheBudget);
                }
            },
        }
        proof {
            assert forall|i: int| 0 <= i < 4 implies compressor::state_bytes(
                backbone_cache::source_layer(i),
                slots as int,
                #[trigger] source_pages@[i] as int,
            ) is Ok by {
                budget::lemma_sources_exist(40 * window_bytes, slots as int, source_pages@, 4, i);
            }
        }
        let mut devices: [i32; 40] = [0; 40];
        let mut layer: usize = 0;
        while layer < 40
            invariant
                layer <= 40,
                forall|l: int| 0 <= l < layer ==> #[trigger] devices@[l] == device,
            decreases 40 - layer,
        {
            devices[layer] = device;
            layer = layer + 1;
        }
        Self::build(next_id, library, slots, source_pages, devices)
    }

    /// A bank whose components lie on the GPUs of `placement`.
    pub fn new_distributed(
        next_id: &mut u64,
        library: u64,
        placement: CachePlacement,
        slots: usize,
        source_pages: [usize; 4],
        window_bytes: usize,
        budgets: [usize; 2],
    ) -> (r: Result<Self, Error>)
        requires
            placement.wf(),
        ensures
            ({
                let needed = budget::placed(
                    placement.attention@,
                    slots as int,
                    source_pages@,
                    window_bytes as int,
                    4,
                );
                match r {
                    Ok(bank) => {
                        &&& needed matches Ok(sums) && sums.0 <= budgets@[0] && sums.1 <= budgets@[1]
                        &&& *final(next_id) == *old(next_id) + BANK_IDS
                        &&& bank.unused(*old(next_id) as int, slots as int)
                        &&& bank.library == library
                        &&& forall|l: int|
                            0 <= l < LAYERS ==> (#[trigger] bank.windows@[l]).device
                                == placement.attention@[l]
                        &&& forall|i: int|
                            0 <= i < SOURCE_COUNT ==> {
                                &&& (#[trigger] bank.sources@[i]).index.pool.references@.len()
                                    == source_pages@[i]
                                &&& bank.sources@[i].index.replica is None
                            }
                    },
                    Err(e) => {
                        &&& *final(next_id) == *old(next_id)
                        &&& match needed {
                            Err(reason) => e == reason,
                            Ok(sums) => if sums.0 > budgets@[0] || sums.1 > budgets@[1] {
                                e == Error::CacheBudget
                            } else {
                                e == Error::CacheIdsExhausted && *old(next_id) + BANK_IDS
                                    > u64::MAX
                            },
                        }
                    },
                }
            }),
    {
        match Self::distributed_device_bytes(placement, slots, source_pages, window_bytes) {
            Err(e) => {
                return Err(e);
            },
            Ok(bytes) => {
                if bytes[0] > budgets[0] || bytes[1] > budgets[1] {
                    return Err(Error::CacheBudget);
                }
            },
        }
        proof {
            assert forall|i: int| 0 <= i < 4 implies compressor::state_bytes(
                backbone_cache::source_layer(i),
                slots as int,
                #[trigger] source_pages@[i] as int,
            ) is Ok by {
                budget::lemma_placed_exist(
                    placement.attention@,
                    slots as int,
                    source_pages@,
                    window_bytes as int,
                    4,
                    i,
                );
            }
        }
        let mut devices: [i32; 40] = [0; 40];
        let mut layer: usize = 0;
        while layer < 40
            invariant
                layer <= 40,
                placement.wf(),
                forall|l: int| 0 <= l < layer ==> #[trigger] devices@[l] == placement.attention@[l],
            decreases 40 - layer,
        {
            assert(placement.attention@[layer as int] < 2);
            devices[layer] = placement.attention[layer] as i32;
            layer = layer + 1;
        }
        Self::build(next_id, library, slots, source_pages, devices)
    }

    /// Everything but the components is as in `before`.
    pub open spec fn same_books(&self, before: &Self) -> bool {
        &&& self.owner == before.owner
        &&& self.library == before.library
        &&& self.requests@ == before.requests@
        &&& self.generations@ == before.generations@
        &&& self.prefix_pool == before.prefix_pool
        &&& self.prefix_copies@ == before.prefix_copies@
    }

    /// Whether a live request has this number.
    pub open spec fn serves(&self, id: u64) -> bool {
        exists|s: int|
            0 <= s < self.requests@.len() && ((#[trigger] self.requests@[s]) matches Some(request)
                && request.id == id)
    }

    /// Why the bank's books do not admit the request, if they do not.
    pub open spec fn admission_error(&self, slot: int, id: u64) -> Option<Error> {
        if self.poisoned {
            Some(Error::CachePoisoned)
        } else if slot >= self.requests@.len() || self.requests@[slot] is Some {
            Some(Error::CacheSlotTaken)
        } else if self.serves(id) {
            Some(Error::DuplicateCacheRequest)
        } else if self.generations@[slot] == u64::MAX {
            Some(Error::CacheGenerations)
        } else {
            None
        }
    }

    pub open spec fn first_window_refusal(&self, slot: int, id: u64, n: int) -> Option<Error>
        decreases n,
    {
        if n <= 0 {
            None
        } else {
            match self.first_window_refusal(slot, id, n - 1) {
                Some(e) => Some(e),
                None => self.windows@[n - 1].begin_error(slot, id),
            }
        }
    }

    pub open spec fn first_source_refusal(&self, slot: int, id: u64, n: int) -> Option<Error>
        decreases n,
    {
        if n <= 0 {
            None
        } else {
            match self.first_source_refusal(slot, id, n - 1) {
                Some(e) => Some(e),
                None => self.sources@[n - 1].begin_error(slot, id),
            }
        }
    }

    /// Why a component does not take the request, if one does not.
    pub open spec fn refusal(&self, slot: int, id: u64) -> Option<Error> {
        match self.first_window_refusal(slot, id, 40) {
            Some(e) => Some(e),
            None => self.first_source_refusal(slot, id, 4),
        }
    }

    proof fn lemma_window_refusal_stays(&self, slot: int, id: u64, n: int, m: int)
        requires
            n <= m,
            self.first_window_refusal(slot, id, n) is Some,
        ensures
            self.first_window_refusal(slot, id, m) == self.first_window_refusal(slot, id, n),
        decreases m - n,
    {
        if n < m && m > 0 {
            self.lemma_window_refusal_stays(slot, id, n, m - 1);
        }
    }

    proof fn lemma_source_refusal_stays(&self, slot: int, id: u64, n: int, m: int)
        requires
            n <= m,
            self.first_source_refusal(slot, id, n) is Some,
        ensures
            self.first_source_refusal(slot, id, m) == self.first_source_refusal(slot, id, n),
        decreases m - n,
    {
        if n < m && m > 0 {
            self.lemma_source_refusal_stays(slot, id, n, m - 1);
        }
    }

    /// Component `l` serves `id` at `slot`; its other slots are as in `before`.
    pub open spec fn window_claimed(
        &self,
        before: &Self,
        l: int,
        slot: int,
        id: u64,
        lease: WindowLease,
    ) -> bool {
        let was = before.windows@[l];
        &&& lease.owner == was.owner
        &&& lease.slot == slot
        &&& lease.generation == was.slots@[slot].generation + 1
        &&& self.windows@[l].slots@ == was.slots@.update(
            slot,
            WindowSlot { generation: lease.generation, request: Some(id), end: 0 },
        )
        &&& self.windows@[l].same_rings(&was)
        &&& !was.writing@[slot]
        &&& was.slots@[slot].request is None
    }

    pub open spec fn source_claimed(
        &self,
        before: &Self,
        i: int,
        slot: int,
        id: u64,
        lease: CompressorLease,
    ) -> bool {
        let was = before.sources@[i];
        &&& lease.owner == was.owner
        &&& lease.slot == slot
        &&& lease.generation == was.slots@[slot].generation + 1
        &&& self.sources@[i].slots@[slot] == (Slot {
            generation: lease.generation,
            version: 0,
            request: Some(id),
            end: 0,
        })
        &&& self.sources@[i].other_slots_kept(&was, slot)
        &&& self.sources@[i].index == was.index
        &&& self.sources@[i].same_identity(&was)
        &&& !was.index.writing@[slot]
        &&& was.slots@[slot].request is None
    }

    /// Component `l` has taken the request and given it up again: it is as in
    /// `before`, but for the generation and frontier of the free slot.
    pub open spec fn window_returned(&self, before: &Self, l: int, slot: int) -> bool {
        let was = before.windows@[l];
        let now = self.windows@[l];
        &&& now.same_rings(&was)
        &&& now.slots@ == was.slots@.update(
            slot,
            WindowSlot {
                generation: (was.slots@[slot].generation + 1) as u64,
                request: None,
                end: 0,
            },
        )
    }

    /// Window `l` after a refused admission: it is as it was, unless it took the
    /// request before another component did not.
    pub open spec fn window_unclaimed(&self, before: &Self, l: int, slot: int, id: u64) -> bool {
        if before.first_window_refusal(slot, id, l + 1) is None {
            self.window_returned(before, l, slot)
        } else {
            self.windows@[l] == before.windows@[l]
        }
    }

    /// Source `i` after a refused admission.
    pub open spec fn source_unclaimed(&self, before: &Self, i: int, slot: int, id: u64) -> bool {
        if before.first_window_refusal(slot, id, 40) is None && before.first_source_refusal(
            slot,
            id,
            i + 1,
        ) is None {
            self.source_returned(before, i, slot)
        } else {
            self.sources@[i] == before.sources@[i]
        }
    }

    pub open spec fn source_returned(&self, before: &Self, i: int, slot: int) -> bool {
        let was = before.sources@[i];
        let now = self.sources@[i];
        &&& now.same_identity(&was)
        &&& now.slots@[slot] == (Slot {
            generation: (was.slots@[slot].generation + 1) as u64,
            version: 0,
            request: None,
            end: 0,
        })
        &&& now.other_slots_kept(&was, slot)
        &&& now.index.same_shape(&was.index)
        &&& now.index.tables() == was.index.tables()
        &&& now.index.rows@ == was.index.rows@.update(slot, 0)
        &&& now.index.writing@ == was.index.writing@
        &&& now.index.plans == was.index.plans
        &&& now.index.pool.gave_back(&was.index.pool, Seq::empty())
    }

    fn claim_windows(&mut self, slot: usize, id: u64, held: &mut Vec<WindowLease>) -> (r: Result<
        (),
        Error,
    >)
        requires
            old(self).inv(),
            slot < old(self).requests@.len(),
            old(held)@.len() == 0,
        ensures
            final(self).components_wf(),
            final(self).same_books(old(self)),
            final(self).poisoned == old(self).poisoned,
            final(self).sources@ == old(self).sources@,
            final(held)@.len() <= LAYERS,
            forall|l: int|
                0 <= l < final(held)@.len() ==> final(self).window_claimed(
                    old(self),
                    l,
                    slot as int,
                    id,
                    #[trigger] final(held)@[l],
                ),
            forall|l: int|
                final(held)@.len() <= l < LAYERS ==> #[trigger] final(self).windows@[l]
                    == old(self).windows@[l],
            match r {
                Ok(_) => {
                    &&& final(held)@.len() == LAYERS
                    &&& old(self).first_window_refusal(slot as int, id, 40) is None
                },
                Err(e) => {
                    let n = final(held)@.len() as int;
                    &&& old(self).first_window_refusal(slot as int, id, 40) == Some(e)
                    &&& old(self).first_window_refusal(slot as int, id, n) is None
                    &&& old(self).first_window_refusal(slot as int, id, n + 1) is Some
                },
            },
    {
        let mut l: usize = 0;
        while l < LAYERS
            invariant
                l <= LAYERS,
                old(self).inv(),
                self.components_wf(),
                self.same_books(old(self)),
                self.poisoned == old(self).poisoned,
                self.sources@ == old(self).sources@,
                slot < self.requests@.len(),
                held@.len() == l,
                forall|k: int|
                    0 <= k < l ==> self.window_claimed(
                        old(self),
                        k,
                        slot as int,
                        id,
                        #[trigger] held@[k],
                    ),
                forall|k: int| l <= k < LAYERS ==> #[trigger] self.windows@[k] == old(self).windows@[k],
                old(self).first_window_refusal(slot as int, id, l as int) is None,
            decreases LAYERS - l,
        {
            let ghost before = self.windows@;
            assert(self.windows@[l as int] == old(self).windows@[l as int]);
            match self.windows[l].begin_request(slot, id) {
                Err(e) => {
                    proof {
                        old(self).lemma_window_refusal_stays(slot as int, id, l + 1, 40);
                        assert(self.windows@ =~= before);
                    }
                    return Err(e);
                },
                Ok(lease) => {
                    held.push(lease);
                    proof {
                        assert forall|k: int| 0 <= k < l + 1 implies self.window_claimed(
                            old(self),
                            k,
                            slot as int,
                            id,
                            #[trigger] held@[k],
                        ) by {
                            if k < l {
                                assert(self.windows@[k] == before[k]);
                            }
                        }
                    }
                },
            }
            l = l + 1;
        }
        Ok(())
    }

    fn claim_sources(&mut self, slot: usize, id: u64, held: &mut Vec<CompressorLease>) -> (r: Result<
        (),
        Error,
    >)
        requires
            old(self).components_wf(),
            1 <= old(self).requests@.len() <= MAX_SLOTS,
            slot < old(self).requests@.len(),
            old(held)@.len() == 0,
        ensures
            final(self).components_wf(),
            final(self).same_books(old(self)),
            final(self).poisoned == old(self).poisoned,
            final(self).windows@ == old(self).windows@,
            final(held)@.len() <= SOURCE_COUNT,
            forall|i: int|
                0 <= i < final(held)@.len() ==> final(self).source_claimed(
                    old(self),
                    i,
                    slot as int,
                    id,
                    #[trigger] final(held)@[i],
                ),
            forall|i: int|
                final(held)@.len() <= i < SOURCE_COUNT ==> #[trigger] final(self).sources@[i]
                    == old(self).sources@[i],
            match r {
                Ok(_) => {
                    &&& final(held)@.len() == SOURCE_COUNT
                    &&& old(self).first_source_refusal(slot as int, id, 4) is None
                },
                Err(e) => {
                    let n = final(held)@.len() as int;
                    &&& old(self).first_source_refusal(slot as int, id, 4) == Some(e)
                    &&& old(self).first_source_refusal(slot as int, id, n) is None
                    &&& old(self).first_source_refusal(slot as int, id, n + 1) is Some
                },
            },
    {
        let mut i: usize = 0;
        while i < SOURCE_COUNT
            invariant
                i <= SOURCE_COUNT,
                self.components_wf(),
                old(self).components_wf(),
                1 <= self.requests@.len() <= MAX_SLOTS,
                self.same_books(old(self)),
                self.poisoned == old(self).poisoned,
                self.windows@ == old(self).windows@,
                slot < self.requests@.len(),
                held@.len() == i,
                forall|k: int|
                    0 <= k < i ==> self.source_claimed(
                        old(self),
                        k,
                        slot as int,
                        id,
                        #[trigger] held@[k],
                    ),
                forall|k: int| i <= k < SOURCE_COUNT ==> #[trigger] self.sources@[k] == old(self).sources@[k],
                old(self).first_source_refusal(slot as int, id, i as int) is None,
            decreases SOURCE_COUNT - i,
        {
            let ghost before = self.sources@;
            assert(self.sources@[i as int] == old(self).sources@[i as int]);
            match self.sources[i].begin_request(slot, id) {
                Err(e) => {
                    proof {
                        old(self).lemma_source_refusal_stays(slot as int, id, i + 1, 4);
                        assert(self.sources@ =~= before);
                    }
                    return Err(e);
                },
                Ok(lease) => {
                    held.push(lease);
                    proof {
                        assert forall|k: int| 0 <= k < i + 1 implies self.source_claimed(
                            old(self),
                            k,
                            slot as int,
                            id,
                            #[trigger] held@[k],
                        ) by {
                            if k < i {
                                assert(self.sources@[k] == before[k]);
                            }
                        }
                    }
                },
            }
            i = i + 1;
        }
        Ok(())
    }

    /// Gives the claimed windows back.
    fn unclaim_windows(&mut self, slot: usize, held: &Vec<WindowLease>)
        requires
            old(self).components_wf(),
            held@.len() <= LAYERS,
            slot < old(self).requests@.len(),
            forall|l: int|
                0 <= l < held@.len() ==> (#[trigger] held@[l]).slot == slot && old(self).windows@[l].idle_error(held@[l]) is None,
        ensures
            final(self).components_wf(),
            final(self).same_books(old(self)),
            final(self).poisoned == old(self).poisoned,
            final(self).sources@ == old(self).sources@,
            forall|l: int|
                0 <= l < held@.len() ==> {
                    let was = old(self).windows@[l];
                    &&& (#[trigger] final(self).windows@[l]).same_rings(&was)
                    &&& final(self).windows@[l].slots@ == was.slots@.update(
                        slot as int,
                        WindowSlot { request: None, ..was.slots@[slot as int] },
                    )
                },
            forall|l: int|
                held@.len() <= l < LAYERS ==> #[trigger] final(self).windows@[l] == old(self).windows@[l],
    {
        let mut l: usize = 0;
        while l < held.len()
            invariant
                l <= held@.len() <= LAYERS,
                old(self).components_wf(),
                self.components_wf(),
                self.same_books(old(self)),
                self.poisoned == old(self).poisoned,
                self.sources@ == old(self).sources@,
                slot < self.requests@.len(),
                forall|k: int|
                    0 <= k < held@.len() ==> (#[trigger] held@[k]).slot == slot && old(self).windows@[k].idle_error(held@[k]) is None,
                forall|k: int|
                    0 <= k < l ==> {
                        let was = old(self).windows@[k];
                        &&& (#[trigger] self.windows@[k]).same_rings(&was)
                        &&& self.windows@[k].slots@ == was.slots@.update(
                            slot as int,
                            WindowSlot { request: None, ..was.slots@[slot as int] },
                        )
                    },
                forall|k: int| l <= k < LAYERS ==> #[trigger] self.windows@[k] == old(self).windows@[k],
            decreases held@.len() - l,
        {
            let ghost before = self.windows@;
            assert(self.windows@[l as int] == old(self).windows@[l as int]);
            let released = self.windows[l].release(held[l]);
            proof {
                assert(released is Ok);
                assert forall|k: int| 0 <= k < l + 1 implies {
                    let was = old(self).windows@[k];
                    &&& (#[trigger] self.windows@[k]).same_rings(&was)
                    &&& self.windows@[k].slots@ == was.slots@.update(
                        slot as int,
                        WindowSlot { request: None, ..was.slots@[slot as int] },
                    )
                } by {
                    if k < l {
                        assert(self.windows@[k] == before[k]);
                    }
                }
            }
            l = l + 1;
        }
    }

    /// Gives the claimed sources back.
    fn unclaim_sources(&mut self, slot: usize, held: &Vec<CompressorLease>)
        requires
            old(self).components_wf(),
            held@.len() <= SOURCE_COUNT,
            slot < old(self).requests@.len(),
            forall|i: int|
                0 <= i < held@.len() ==> (#[trigger] held@[i]).slot == slot && old(self).sources@[i].idle_error(held@[i]) is None,
        ensures
            final(self).components_wf(),
            final(self).same_books(old(self)),
            final(self).poisoned == old(self).poisoned,
            final(self).windows@ == old(self).windows@,
            forall|i: int|
                0 <= i < held@.len() ==> (#[trigger] final(self).sources@[i]).slot_released(
                    &old(self).sources@[i],
                    slot as int,
                ),
            forall|i: int|
                held@.len() <= i < SOURCE_COUNT ==> #[trigger] final(self).sources@[i] == old(self).sources@[i],
    {
        let mut i: usize = 0;
        while i < held.len()
            invariant
                i <= held@.len() <= SOURCE_COUNT,
                old(self).components_wf(),
                self.components_wf(),
                self.same_books(old(self)),
                self.poisoned == old(self).poisoned,
                self.windows@ == old(self).windows@,
                slot < self.requests@.len(),
                forall|k: int|
                    0 <= k < held@.len() ==> (#[trigger] held@[k]).slot == slot && old(self).sources@[k].idle_error(held@[k]) is None,
                forall|k: int|
                    0 <= k < i ==> (#[trigger] self.sources@[k]).slot_released(
                        &old(self).sources@[k],
                        slot as int,
                    ),
                forall|k: int| i <= k < SOURCE_COUNT ==> #[trigger] self.sources@[k] == old(self).sources@[k],
            decreases held@.len() - i,
        {
            let ghost before = self.sources@;
            assert(self.sources@[i as int] == old(self).sources@[i as int]);
            let released = self.sources[i].release(held[i]);
            proof {
                assert(released is Ok);
                assert forall|k: int| 0 <= k < i + 1 implies (
                #[trigger] self.sources@[k]).slot_released(&old(self).sources@[k], slot as int) by {
                    if k < i {
                        assert(self.sources@[k] == before[k]);
                    }
                }
            }
            i = i + 1;
        }
    }

    /// Claims a slot of every component for a new request. A component that does
    /// not take it leaves the bank poisoned, with all that was claimed given back.
    #[verifier::rlimit(40)]
    pub fn begin_request(&mut self, slot: usize, id: u64) -> (r: Result<CacheLease, Error>)
        requires
            old(self).inv(),
        ensures
            final(self).inv(),
            match old(self).admission_error(slot as int, id) {
                Some(reason) => r == Err::<CacheLease, Error>(reason) && *final(self) == *old(self),
                None => match old(self).refusal(slot as int, id) {
                    Some(reason) => {
                        &&& r == Err::<CacheLease, Error>(reason)
                        &&& final(self).poisoned
                        &&& final(self).same_books(old(self))
                        &&& forall|l: int|
                            0 <= l < LAYERS ==> #[trigger] final(self).window_unclaimed(
                                old(self),
                                l,
                                slot as int,
                                id,
                            )
                        &&& forall|i: int|
                            0 <= i < SOURCE_COUNT ==> #[trigger] final(self).source_unclaimed(
                                old(self),
                                i,
                                slot as int,
                                id,
                            )
                    },
                    None => {
                        &&& r matches Ok(lease) && lease == (CacheLease {
                            owner: old(self).owner,
                            slot,
                            generation: (old(self).generations@[slot as int] + 1) as u64,
                        })
                        &&& final(self).begun(old(self), slot as int, id)
                    },
                },
            },
    {
        if self.poisoned {
            return Err(Error::CachePoisoned);
        }
        if slot >= self.requests.len() || self.requests[slot].is_some() {
            return Err(Error::CacheSlotTaken);
        }
        let mut s: usize = 0;
        while s < self.requests.len()
            invariant
                s <= self.requests@.len(),
                *self == *old(self),
                self.inv(),
                !self.poisoned,
                slot < self.requests@.len(),
                self.requests@[slot as int] is None,
                forall|k: int|
                    0 <= k < s ==> !((#[trigger] self.requests@[k]) matches Some(request)
                        && request.id == id),
            decreases self.requests@.len() - s,
        {
            if let Some(request) = &self.requests[s] {
                if request.id == id {
                    assert(self.requests@[s as int] matches Some(r) && r.id == id);
                    return Err(Error::DuplicateCacheRequest);
                }
            }
            s = s + 1;
        }
        let generation: u64 = match self.generations[slot].checked_add(1) {
            None => {
                return Err(Error::CacheGenerations);
            },
            Some(generation) => generation,
        };
        let mut windows: Vec<WindowLease> = Vec::new();
        let mut sources: Vec<CompressorLease> = Vec::new();
        match self.claim_windows(slot, id, &mut windows) {
            Err(e) => {
                self.poisoned = true;
                let ghost claimed = *self;
                self.unclaim_windows(slot, &windows);
                proof {
                    assert forall|l: int| 0 <= l < LAYERS implies #[trigger] self.window_unclaimed(
                        old(self),
                        l,
                        slot as int,
                        id,
                    ) by {
                        let n = windows@.len() as int;
                        if l < n && old(self).first_window_refusal(slot as int, id, l + 1) is Some {
                            old(self).lemma_window_refusal_stays(slot as int, id, l + 1, n);
                        }
                        if l >= n {
                            old(self).lemma_window_refusal_stays(slot as int, id, n + 1, l + 1);
                        }
                        if l < windows@.len() {
                            assert(claimed.window_claimed(old(self), l, slot as int, id, windows@[l]));
                            let was = old(self).windows@[l];
                            assert(self.windows@[l].same_rings(&claimed.windows@[l]));
                            assert(self.windows@[l].slots@ =~= was.slots@.update(
                                slot as int,
                                WindowSlot {
                                    generation: (was.slots@[slot as int].generation + 1) as u64,
                                    request: None,
                                    end: 0,
                                },
                            ));
                        } else {
                            assert(claimed.windows@[l] == old(self).windows@[l]);
                            assert(self.windows@[l] == claimed.windows@[l]);
                        }
                    }
                    assert forall|l: int| 0 <= l < LAYERS implies (#[trigger] self.windows@[l]).owner
                        == old(self).windows@[l].owner by {
                        assert(self.window_unclaimed(old(self), l, slot as int, id));
                    }
                    self.lemma_leases_stay(old(self));
                }
                return Err(e);
            },
            Ok(_) => {},
        }
        let ghost half = *self;
        match self.claim_sources(slot, id, &mut sources) {
            Err(e) => {
                self.poisoned = true;
                let ghost claimed = *self;
                proof {
                    old(self).lemma_same_refusal(&half, slot as int, id, 4);
                    assert forall|l: int| 0 <= l < windows@.len() implies (
                    #[trigger] windows@[l]).slot == slot && self.windows@[l].idle_error(windows@[l]) is None by {
                        assert(half.window_claimed(old(self), l, slot as int, id, windows@[l]));
                    }
                }
                self.unclaim_windows(slot, &windows);
                let ghost between = *self;
                proof {
                    assert forall|i: int| 0 <= i < sources@.len() implies (
                    #[trigger] sources@[i]).slot == slot && self.sources@[i].idle_error(sources@[i]) is None by {
                        assert(claimed.source_claimed(&half, i, slot as int, id, sources@[i]));
                    }
                }
                self.unclaim_sources(slot, &sources);
                proof {
                    assert forall|l: int| 0 <= l < LAYERS implies #[trigger] self.window_unclaimed(
                        old(self),
                        l,
                        slot as int,
                        id,
                    ) by {
                        if old(self).first_window_refusal(slot as int, id, l + 1) is Some {
                            old(self).lemma_window_refusal_stays(slot as int, id, l + 1, 40);
                        }
                        assert(half.window_claimed(old(self), l, slot as int, id, windows@[l]));
                        assert(between.windows@[l].same_rings(&half.windows@[l]));
                        let was = old(self).windows@[l];
                        assert(self.windows@[l].same_rings(&half.windows@[l]));
                        assert(self.windows@[l].slots@ =~= was.slots@.update(
                            slot as int,
                            WindowSlot {
                                generation: (was.slots@[slot as int].generation + 1) as u64,
                                request: None,
                                end: 0,
                            },
                        ));
                    }
                    assert forall|i: int| 0 <= i < SOURCE_COUNT implies #[trigger] self.source_unclaimed(
                        old(self),
                        i,
                        slot as int,
                        id,
                    ) by {
                        let n = sources@.len() as int;
                        old(self).lemma_same_refusal(&half, slot as int, id, n);
                        old(self).lemma_same_refusal(&half, slot as int, id, n + 1);
                        if i < n && old(self).first_source_refusal(slot as int, id, i + 1) is Some {
                            old(self).lemma_source_refusal_stays(slot as int, id, i + 1, n);
                        }
                        if i >= n {
                            old(self).lemma_source_refusal_stays(slot as int, id, n + 1, i + 1);
                        }
                        if i < sources@.len() {
                            assert(claimed.source_claimed(&half, i, slot as int, id, sources@[i]));
                            assert(self.sources@[i].slot_released(&claimed.sources@[i], slot as int));
                            assert(old(self).sources@[i].slots@[slot as int].request is None);
                            assert(old(self).sources@[i].index.tables()[slot as int]
                                =~= Seq::empty());
                            assert(claimed.sources@[i].index.pages@[slot as int]@ =~= Seq::empty());
                            assert(old(self).sources@[i].index.tables().update(
                                slot as int,
                                Seq::empty(),
                            ) =~= old(self).sources@[i].index.tables());
                        } else {
                            assert(claimed.sources@[i] == half.sources@[i]);
                            assert(self.sources@[i] == claimed.sources@[i]);
                        }
                    }
                    assert forall|l: int| 0 <= l < LAYERS implies (#[trigger] self.windows@[l]).owner
                        == old(self).windows@[l].owner by {
                        assert(self.window_unclaimed(old(self), l, slot as int, id));
                    }
                    assert forall|i: int| 0 <= i < SOURCE_COUNT implies (#[trigger] self.sources@[i]).owner
                        == old(self).sources@[i].owner by {
                        assert(self.source_unclaimed(old(self), i, slot as int, id));
                    }
                    assert forall|i: int| 0 <= i < SOURCE_COUNT implies copies::keeps_retained(
                        #[trigger] &self.sources@[i],
                        &old(self).sources@[i],
                    ) by {
                        if i < sources@.len() {
                            assert(claimed.source_claimed(&half, i, slot as int, id, sources@[i]));
                            assert(self.sources@[i].slot_released(&claimed.sources@[i], slot as int));
                        } else {
                            assert(claimed.sources@[i] == half.sources@[i]);
                        }
                    }
                    copies::lemma_copies_stay(
                        self.prefix_copies@,
                        old(self).sources@,
                        self.sources@,
                    );
                    self.lemma_leases_stay(old(self));
                }
                return Err(e);
            },
            Ok(_) => {},
        }
        proof {
            old(self).lemma_same_refusal(&half, slot as int, id, 4);
        }
        let ghost claimed = *self;
        let request = Request {
            id,
            version: 0,
            end: 0,
            phase: CachePhase::Full,
            publication: Vec::new(),
            windows,
            sources,
        };
        self.generations[slot] = generation;
        self.requests[slot] = Some(request);
        proof {
            assert forall|l: int| 0 <= l < LAYERS implies self.window_claimed(
                old(self),
                l,
                slot as int,
                id,
                #[trigger] request.windows@[l],
            ) by {
                assert(half.window_claimed(old(self), l, slot as int, id, windows@[l]));
            }
            assert forall|i: int| 0 <= i < SOURCE_COUNT implies self.source_claimed(
                old(self),
                i,
                slot as int,
                id,
                #[trigger] request.sources@[i],
            ) by {
                assert(claimed.source_claimed(&half, i, slot as int, id, sources@[i]));
            }
            assert forall|i: int| 0 <= i < SOURCE_COUNT implies copies::keeps_retained(
                #[trigger] &self.sources@[i],
                &old(self).sources@[i],
            ) by {
                assert(self.source_claimed(
                    old(self),
                    i,
                    slot as int,
                    id,
                    request.sources@[i],
                ));
            }
            copies::lemma_copies_stay(
                self.prefix_copies@,
                old(self).sources@,
                self.sources@,
            );
            assert(self.leases_wf(slot as int, &request)) by {
                assert forall|l: int| 0 <= l < LAYERS implies {
                    &&& (#[trigger] request.windows@[l]).slot == slot
                    &&& request.windows@[l].owner == self.windows@[l].owner
                } by {
                    assert(self.window_claimed(old(self), l, slot as int, id, request.windows@[l]));
                }
                assert forall|i: int| 0 <= i < SOURCE_COUNT implies {
                    &&& (#[trigger] request.sources@[i]).slot == slot
                    &&& request.sources@[i].owner == self.sources@[i].owner
                } by {
                    assert(self.source_claimed(old(self), i, slot as int, id, request.sources@[i]));
                }
            }
            assert forall|s: int| 0 <= s < self.requests@.len() implies ((
            #[trigger] self.requests@[s]) matches Some(r) ==> self.leases_wf(s, &r)) by {
                if s != slot && self.requests@[s] is Some {
                    let r = self.requests@[s]->Some_0;
                    assert(old(self).requests@[s] == Some(r));
                    assert(old(self).leases_wf(s, &r));
                    assert forall|l: int| 0 <= l < LAYERS implies {
                        &&& (#[trigger] r.windows@[l]).slot == s
                        &&& r.windows@[l].owner == self.windows@[l].owner
                    } by {
                        assert(self.window_claimed(
                            old(self),
                            l,
                            slot as int,
                            id,
                            request.windows@[l],
                        ));
                    }
                    assert forall|i: int| 0 <= i < SOURCE_COUNT implies {
                        &&& (#[trigger] r.sources@[i]).slot == s
                        &&& r.sources@[i].owner == self.sources@[i].owner
                    } by {
                        assert(self.source_claimed(
                            old(self),
                            i,
                            slot as int,
                            id,
                            request.sources@[i],
                        ));
                    }
                }
            }
        }
        Ok(CacheLease { owner: self.owner, slot, generation })
    }

    /// The bank serves the new request `id` at `slot`, from the start of its
    /// history, and all other requests as before.
    pub open spec fn begun(&self, before: &Self, slot: int, id: u64) -> bool {
        &&& !self.poisoned
        &&& self.owner == before.owner
        &&& self.library == before.library
        &&& self.prefix_pool == before.prefix_pool
        &&& self.prefix_copies@ == before.prefix_copies@
        &&& self.generations@ == before.generations@.update(
            slot,
            (before.generations@[slot] + 1) as u64,
        )
        &&& self.requests@.len() == before.requests@.len()
        &&& forall|s: int|
            0 <= s < before.requests@.len() && s != slot ==> #[trigger] self.requests@[s]
                == before.requests@[s]
        &&& self.requests@[slot] matches Some(request) && {
            &&& request.id == id
            &&& request.version == 0
            &&& request.end == 0
            &&& request.phase == CachePhase::Full
            &&& request.publication@.len() == 0
            &&& request.windows@.len() == LAYERS
            &&& request.sources@.len() == SOURCE_COUNT
            &&& forall|l: int|
                0 <= l < LAYERS ==> self.window_claimed(
                    before,
                    l,
                    slot,
                    id,
                    #[trigger] request.windows@[l],
                )
            &&& forall|i: int|
                0 <= i < SOURCE_COUNT ==> self.source_claimed(
                    before,
                    i,
                    slot,
                    id,
                    #[trigger] request.sources@[i],
                )
        }
    }

    proof fn lemma_same_refusal(&self, other: &Self, slot: int, id: u64, n: int)
        requires
            self.sources@ == other.sources@,
        ensures
            self.first_source_refusal(slot, id, n) == other.first_source_refusal(slot, id, n),
        decreases n,
    {
        if n > 0 {
            self.lemma_same_refusal(other, slot, id, n - 1);
        }
    }

    /// Leases stay well-formed while the components keep their owners.
    pub proof fn lemma_leases_stay(&self, before: &Self)
        requires
            before.inv(),
            self.components_wf(),
            self.requests@ == before.requests@,
            self.generations@ == before.generations@,
            self.prefix_copies@.len() == before.prefix_copies@.len(),
            forall|lane: int|
                0 <= lane < SNAPSHOT_LANES ==> ((
                #[trigger] self.prefix_copies@[lane]) matches Some(pending) ==> before.issued(
                    pending.lease,
                )),
            copies::copies_held(self.prefix_copies@, self.sources@),
            forall|l: int|
                0 <= l < LAYERS ==> (#[trigger] self.windows@[l]).owner == before.windows@[l].owner,
            forall|i: int|
                0 <= i < SOURCE_COUNT ==> (#[trigger] self.sources@[i]).owner
                    == before.sources@[i].owner,
        ensures
            self.inv(),
    {
        assert forall|s: int| 0 <= s < self.requests@.len() implies ((
        #[trigger] self.requests@[s]) matches Some(r) ==> self.leases_wf(s, &r)) by {
            if self.requests@[s] is Some {
                let r = self.requests@[s]->Some_0;
                assert(before.requests@[s] == Some(r));
                assert(before.leases_wf(s, &r));
                assert forall|l: int| 0 <= l < LAYERS implies {
                    &&& (#[trigger] r.windows@[l]).slot == s
                    &&& r.windows@[l].owner == self.windows@[l].owner
                } by {
                    assert(self.windows@[l].owner == before.windows@[l].owner);
                }
                assert forall|i: int| 0 <= i < SOURCE_COUNT implies {
                    &&& (#[trigger] r.sources@[i]).slot == s
                    &&& r.sources@[i].owner == self.sources@[i].owner
                } by {
                    assert(self.sources@[i].owner == before.sources@[i].owner);
                }
            }
        }
    }
}

} // verus!
