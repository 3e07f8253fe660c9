//! Rings of draft rows with their retained prefixes. Two lanes can copy prefixes
//! at the same time; a slot that is being copied is not written.
use crate::backbone_cache::{SnapshotPool, SNAPSHOT_LANES};
use crate::device::{DeviceBuffer, DeviceCopy};
use crate::device_memory;
use crate::error::Error;
use crate::source_cache::MAX_SLOTS;
use crate::window::WindowLease;
use vstd::prelude::*;

verus! {

/// Rows that a ring keeps.
pub const RING_ROWS: u64 = 128;

#[derive(Debug, Clone, Copy, PartialEq, Eq, Structural)]
pub struct DraftSlot {
    pub generation: u64,
    pub request: Option<u64>,
    /// Frontier of a seeded ring.
    pub end: Option<u64>,
}

#[derive(Debug, Clone, Copy, PartialEq, Eq, Structural)]
pub struct DsparkPrefix {
    pub owner: u64,
    pub end: u64,
    /// The kept rows.
    pub ring: DeviceBuffer,
}

impl DsparkPrefix {
    pub fn end(&self) -> (r: u64)
        ensures
            r == self.end,
    {
        self.end
    }

    pub fn parts(&self) -> (r: (u64, u64, DeviceBuffer))
        ensures
            r == (self.owner, self.end, self.ring),
    {
        (self.owner, self.end, self.ring)
    }

    pub fn from_parts(owner: u64, end: u64, ring: DeviceBuffer) -> (r: Self)
        ensures
            r == (DsparkPrefix { owner, end, ring }),
    {
        DsparkPrefix { owner, end, ring }
    }
}

/// A prefix whose copy is on its way.
#[derive(Debug, Clone, Copy, PartialEq, Eq, Structural)]
pub struct PendingDraft {
    pub lease: WindowLease,
    pub prefix: DsparkPrefix,
}

pub struct DsparkWindow {
    pub owner: u64,
    pub library: u64,
    pub ring: DeviceBuffer,
    pub row_bytes: usize,
    pub slot_bytes: usize,
    pub slots: Vec<DraftSlot>,
    pub prefix_pool: Option<SnapshotPool>,
    pub prefix_copies: Vec<Option<PendingDraft>>,
}

/// Bytes of a ring that has reached `end`.
pub open spec fn kept_bytes(end: u64, row_bytes: usize) -> int {
    (if end < 128 {
        end as int
    } else {
        128
    }) * row_bytes
}

impl DsparkWindow {
    pub open spec fn inv(&self) -> bool {
        &&& 1 <= self.slots@.len() <= MAX_SLOTS
        &&& self.prefix_copies@.len() == SNAPSHOT_LANES
        &&& self.ring.wf()
        &&& self.ring.bytes == self.slots@.len() * self.slot_bytes
        &&& 128 * self.row_bytes <= self.slot_bytes
    }

    /// Rings without requests in `ring`.
    pub fn new(
        owner: u64,
        library: u64,
        ring: DeviceBuffer,
        row_bytes: usize,
        slot_bytes: usize,
        slots: usize,
    ) -> (r: Result<Self, Error>)
        requires
            ring.wf(),
            ring.bytes == slots * slot_bytes,
            128 * row_bytes <= slot_bytes,
        ensures
            match r {
                Ok(window) => {
                    &&& 1 <= slots <= MAX_SLOTS
                    &&& window.inv()
                    &&& window.owner == owner
                    &&& window.library == library
                    &&& window.ring == ring
                    &&& window.row_bytes == row_bytes
                    &&& window.slot_bytes == slot_bytes
                    &&& window.slots@ == Seq::new(
                        slots as nat,
                        |i: int| DraftSlot { generation: 0, request: None, end: None },
                    )
                    &&& window.prefix_pool is None
                    &&& forall|k: int|
                        0 <= k < SNAPSHOT_LANES ==> (#[trigger] window.prefix_copies@[k]) is None
                },
                Err(e) => e == Error::WindowSlots && !(1 <= slots <= MAX_SLOTS),
            },
    {
        if slots < 1 || slots > MAX_SLOTS {
            return Err(Error::WindowSlots);
        }
        let mut table: Vec<DraftSlot> = Vec::new();
        let mut i: usize = 0;
        while i < slots
            invariant
                i <= slots,
                table@ == Seq::new(
                    i as nat,
                    |k: int| DraftSlot { generation: 0, request: None, end: None },
                ),
            decreases slots - i,
        {
            table.push(DraftSlot { generation: 0, request: None, end: None });
            i = i + 1;
        }
        let mut prefix_copies: Vec<Option<PendingDraft>> = Vec::new();
        prefix_copies.push(None);
        prefix_copies.push(None);
        Ok(
            DsparkWindow {
                owner,
                library,
                ring,
                row_bytes,
                slot_bytes,
                slots: table,
                prefix_pool: None,
                prefix_copies,
            },
        )
    }

    pub open spec fn lease_error(&self, lease: WindowLease) -> Option<Error> {
        if lease.owner != self.owner || lease.slot >= self.slots@.len() {
            Some(Error::ForeignWindowLease)
        } else if self.slots@[lease.slot as int].request is None
            || self.slots@[lease.slot as int].generation != lease.generation {
            Some(Error::StaleWindowLease)
        } else {
            None
        }
    }

    /// A lane copies the slot.
    pub open spec fn copying(&self, slot: int) -> bool {
        exists|k: int|
            0 <= k < self.prefix_copies@.len() && ((#[trigger] self.prefix_copies@[k]) matches Some(
                pending,
            ) && pending.lease.slot == slot)
    }

    pub fn validate(&self, lease: WindowLease) -> (r: Result<usize, Error>)
        requires
            self.inv(),
        ensures
            match r {
                Ok(slot) => slot == lease.slot && self.lease_error(lease) is None,
                Err(e) => self.lease_error(lease) == Some(e),
            },
    {
        if lease.owner != self.owner || lease.slot >= self.slots.len() {
            return Err(Error::ForeignWindowLease);
        }
        let slot = self.slots[lease.slot];
        if slot.request.is_none() || slot.generation != lease.generation {
            return Err(Error::StaleWindowLease);
        }
        Ok(lease.slot)
    }

    /// Nothing reads the slot.
    pub fn writable(&self, slot: usize) -> (r: Result<(), Error>)
        requires
            self.inv(),
        ensures
            match r {
                Ok(_) => !self.copying(slot as int),
                Err(e) => e == Error::DraftInUse && self.copying(slot as int),
            },
    {
        let mut k: usize = 0;
        while k < self.prefix_copies.len()
            invariant
                k <= self.prefix_copies@.len(),
                forall|j: int|
                    0 <= j < k ==> !((#[trigger] self.prefix_copies@[j]) matches Some(pending)
                        && pending.lease.slot == slot),
            decreases self.prefix_copies@.len() - k,
        {
            if let Some(pending) = self.prefix_copies[k] {
                if pending.lease.slot == slot {
                    assert(self.prefix_copies@[k as int] matches Some(p) && p.lease.slot == slot);
                    return Err(Error::DraftInUse);
                }
            }
            k = k + 1;
        }
        Ok(())
    }

    /// Everything but the slot table is as in `before`.
    pub open spec fn same_but_slots(&self, before: &Self) -> bool {
        &&& self.owner == before.owner
        &&& self.library == before.library
        &&& self.ring == before.ring
        &&& self.row_bytes == before.row_bytes
        &&& self.slot_bytes == before.slot_bytes
        &&& self.prefix_pool == before.prefix_pool
        &&& self.prefix_copies@ == before.prefix_copies@
    }

    pub open spec fn begin_error(&self, slot: int, request: u64) -> Option<Error> {
        if slot >= self.slots@.len() || self.slots@[slot].request is Some {
            Some(Error::WindowSlotTaken)
        } else if exists|s: int|
            0 <= s < self.slots@.len() && (#[trigger] self.slots@[s]).request == Some(request) {
            Some(Error::DuplicateWindowRequest)
        } else if self.slots@[slot].generation == u64::MAX {
            Some(Error::WindowGenerations)
        } else {
            None
        }
    }

    pub fn begin_request(&mut self, slot: usize, request: u64) -> (r: Result<WindowLease, Error>)
        requires
            old(self).inv(),
        ensures
            final(self).inv(),
            final(self).same_but_slots(old(self)),
            match r {
                Err(e) => old(self).begin_error(slot as int, request) == Some(e)
                    && final(self).slots@ == old(self).slots@,
                Ok(lease) => {
                    &&& old(self).begin_error(slot as int, request) is None
                    &&& lease == (WindowLease {
                        owner: old(self).owner,
                        slot,
                        generation: (old(self).slots@[slot as int].generation + 1) as u64,
                    })
                    &&& final(self).slots@ == old(self).slots@.update(
                        slot as int,
                        DraftSlot {
                            generation: lease.generation,
                            request: Some(request),
                            end: None,
                        },
                    )
                },
            },
    {
        if slot >= self.slots.len() || self.slots[slot].request.is_some() {
            return Err(Error::WindowSlotTaken);
        }
        let mut i: usize = 0;
        while i < self.slots.len()
            invariant
                i <= self.slots@.len(),
                *self == *old(self),
                self.inv(),
                slot < self.slots@.len(),
                self.slots@[slot as int].request is None,
                forall|s: int| 0 <= s < i ==> (#[trigger] self.slots@[s]).request != Some(request),
            decreases self.slots@.len() - i,
        {
            if let Some(other) = self.slots[i].request {
                if other == request {
                    assert(self.slots@[i as int].request == Some(request));
                    return Err(Error::DuplicateWindowRequest);
                }
            }
            i = i + 1;
        }
        let generation: u64 = match self.slots[slot].generation.checked_add(1) {
            None => {
                return Err(Error::WindowGenerations);
            },
            Some(generation) => generation,
        };
        self.slots[slot] = DraftSlot { generation, request: Some(request), end: None };
        Ok(WindowLease { owner: self.owner, slot, generation })
    }

    pub fn release(&mut self, lease: WindowLease) -> (r: Result<(), Error>)
        requires
            old(self).inv(),
        ensures
            final(self).inv(),
            final(self).same_but_slots(old(self)),
            match r {
                Err(e) => {
                    &&& final(self).slots@ == old(self).slots@
                    &&& match old(self).lease_error(lease) {
                        Some(reason) => e == reason,
                        None => e == Error::DraftInUse && old(self).copying(lease.slot as int),
                    }
                },
                Ok(_) => {
                    let slot = lease.slot as int;
                    &&& old(self).lease_error(lease) is None
                    &&& !old(self).copying(slot)
                    &&& final(self).slots@ == old(self).slots@.update(
                        slot,
                        DraftSlot { request: None, ..old(self).slots@[slot] },
                    )
                },
            },
    {
        let slot: usize = match self.validate(lease) {
            Err(e) => {
                return Err(e);
            },
            Ok(slot) => slot,
        };
        match self.writable(slot) {
            Err(e) => {
                return Err(e);
            },
            Ok(_) => {},
        }
        let was: DraftSlot = self.slots[slot];
        self.slots[slot] = DraftSlot { generation: was.generation, request: None, end: was.end };
        Ok(())
    }

    pub fn committed_end(&self, lease: WindowLease) -> (r: Result<Option<u64>, Error>)
        requires
            self.inv(),
        ensures
            match r {
                Ok(end) => self.lease_error(lease) is None && end
                    == self.slots@[lease.slot as int].end,
                Err(e) => self.lease_error(lease) == Some(e),
            },
    {
        match self.validate(lease) {
            Err(e) => Err(e),
            Ok(slot) => Ok(self.slots[slot].end),
        }
    }

    /// Sets up storage for `slots` prefixes, before any request, and returns its
    /// size.
    pub fn reserve_prefixes(&mut self, device: i32, slots: usize) -> (r: Result<usize, Error>)
        requires
            old(self).inv(),
        ensures
            final(self).inv(),
            final(self).slots@ == old(self).slots@,
            ({
                let unused = old(self).prefix_pool is None && forall|s: int|
                    0 <= s < old(self).slots@.len() ==> (#[trigger] old(self).slots@[s]).request is None;
                match r {
                    Ok(bytes) => {
                        &&& unused
                        &&& bytes == slots * old(self).slot_bytes
                        &&& final(self).prefix_pool == if slots > 0 {
                            Some(SnapshotPool { device, slot_bytes: old(self).slot_bytes, slots })
                        } else {
                            None
                        }
                        &&& *final(self) == (DsparkWindow {
                            prefix_pool: final(self).prefix_pool,
                            ..*old(self)
                        })
                    },
                    Err(e) => {
                        &&& *final(self) == *old(self)
                        &&& if !unused {
                            e == Error::SnapshotInstall
                        } else {
                            e == Error::BudgetOverflow && slots * old(self).slot_bytes > usize::MAX
                        }
                    },
                }
            }),
    {
        if self.prefix_pool.is_some() {
            return Err(Error::SnapshotInstall);
        }
        let mut s: usize = 0;
        while s < self.slots.len()
            invariant
                s <= self.slots@.len(),
                *self == *old(self),
                self.inv(),
                self.prefix_pool is None,
                forall|k: int| 0 <= k < s ==> (#[trigger] self.slots@[k]).request is None,
            decreases self.slots@.len() - s,
        {
            if self.slots[s].request.is_some() {
                return Err(Error::SnapshotInstall);
            }
            s = s + 1;
        }
        let bytes: usize = match slots.checked_mul(self.slot_bytes) {
            None => {
                return Err(Error::BudgetOverflow);
            },
            Some(bytes) => bytes,
        };
        if slots > 0 {
            self.prefix_pool = Some(SnapshotPool { device, slot_bytes: self.slot_bytes, slots });
        } else {
            assert(slots * self.slot_bytes == 0) by (nonlinear_arith)
                requires
                    slots == 0,
            ;
        }
        Ok(bytes)
    }

    /// Why the ring's rows cannot be kept, if they cannot.
    pub open spec fn retain_error(&self, lease: WindowLease) -> Option<Error> {
        match self.lease_error(lease) {
            Some(e) => Some(e),
            None => match self.slots@[lease.slot as int].end {
                None => Some(Error::DraftUnseeded),
                Some(end) => if kept_bytes(end, self.row_bytes) == 0 {
                    Some(Error::DraftEmpty)
                } else {
                    None
                },
            },
        }
    }

    /// The rows of a slot that has reached `end`.
    pub open spec fn rows_of(&self, slot: int, end: u64) -> DeviceBuffer {
        self.ring.slice_of(slot * self.slot_bytes, kept_bytes(end, self.row_bytes))
    }

    /// The prefix of a request, kept in the first bytes of `storage`.
    pub open spec fn prefix_of(&self, lease: WindowLease, storage: DeviceBuffer) -> DsparkPrefix {
        let end = self.slots@[lease.slot as int].end->Some_0;
        DsparkPrefix {
            owner: self.owner,
            end,
            ring: DeviceBuffer { bytes: kept_bytes(end, self.row_bytes) as usize, ..storage },
        }
    }

    /// The copy that keeps a request's rows in `storage`.
    pub open spec fn retain_copy(&self, lease: WindowLease, storage: DeviceBuffer) -> DeviceCopy {
        let prefix = self.prefix_of(lease, storage);
        DeviceCopy {
            destination: prefix.ring,
            source: self.rows_of(lease.slot as int, prefix.end),
        }
    }

    /// Keeps a seeded ring's rows in `storage`; the caller makes the copy.
    pub fn retain_prefix(&self, lease: WindowLease, storage: DeviceBuffer) -> (r: Result<
        (DsparkPrefix, DeviceCopy),
        Error,
    >)
        requires
            self.inv(),
            storage.bytes >= self.slot_bytes,
        ensures
            match r {
                Err(e) => self.retain_error(lease) == Some(e),
                Ok((prefix, copy)) => {
                    &&& self.retain_error(lease) is None
                    &&& prefix == self.prefix_of(lease, storage)
                    &&& copy == self.retain_copy(lease, storage)
                },
            },
    {
        let slot: usize = match self.validate(lease) {
            Err(e) => {
                return Err(e);
            },
            Ok(slot) => slot,
        };
        let end: u64 = match self.slots[slot].end {
            None => {
                return Err(Error::DraftUnseeded);
            },
            Some(end) => end,
        };
        let rows: usize = if end < RING_ROWS {
            end as usize
        } else {
            RING_ROWS as usize
        };
        proof {
            self.lemma_rows_fit(slot as int, end);
            assert(rows * self.row_bytes <= 128 * self.row_bytes) by (nonlinear_arith)
                requires
                    rows <= 128,
            ;
            assert(slot * self.slot_bytes <= self.slots@.len() * self.slot_bytes) by (nonlinear_arith)
                requires
                    slot <= self.slots@.len(),
            ;
        }
        let bytes: usize = rows * self.row_bytes;
        if bytes == 0 {
            return Err(Error::DraftEmpty);
        }
        let prefix = DsparkPrefix { owner: self.owner, end, ring: storage.prefix(bytes) };
        let copy = DeviceCopy {
            destination: prefix.ring,
            source: self.ring.slice(slot * self.slot_bytes, bytes),
        };
        Ok((prefix, copy))
    }

    proof fn lemma_rows_fit(&self, slot: int, end: u64)
        requires
            self.inv(),
            0 <= slot < self.slots@.len(),
        ensures
            0 <= kept_bytes(end, self.row_bytes) <= self.slot_bytes,
            slot * self.slot_bytes + self.slot_bytes <= self.ring.bytes,
    {
        let rows = if end < 128 {
            end as int
        } else {
            128
        };
        assert(0 <= rows * self.row_bytes <= 128 * self.row_bytes) by (nonlinear_arith)
            requires
                0 <= rows <= 128,
        ;
        assert(slot * self.slot_bytes + self.slot_bytes <= self.slots@.len() * self.slot_bytes)
            by (nonlinear_arith)
            requires
                0 <= slot < self.slots@.len(),
        ;
    }

    /// Starts to copy a request's prefix on a lane.
    pub fn queue_prefix(&mut self, lane: usize, lease: WindowLease, storage: DeviceBuffer) -> (r: Result<
        DeviceCopy,
        Error,
    >)
        requires
            old(self).inv(),
            storage.bytes >= old(self).slot_bytes,
        ensures
            final(self).inv(),
            final(self).slots@ == old(self).slots@,
            match r {
                Err(e) => {
                    &&& *final(self) == *old(self)
                    &&& if lane >= SNAPSHOT_LANES {
                        e == Error::SnapshotLane
                    } else if old(self).prefix_copies@[lane as int] is Some {
                        e == Error::SnapshotOccupied
                    } else {
                        old(self).retain_error(lease) == Some(e)
                    }
                },
                Ok(copy) => {
                    let prefix = old(self).prefix_of(lease, storage);
                    &&& lane < SNAPSHOT_LANES
                    &&& old(self).prefix_copies@[lane as int] is None
                    &&& old(self).retain_error(lease) is None
                    &&& final(self).prefix_copies@ == old(self).prefix_copies@.update(
                        lane as int,
                        Some(PendingDraft { lease, prefix }),
                    )
                    &&& *final(self) == (DsparkWindow {
                        prefix_copies: final(self).prefix_copies,
                        ..*old(self)
                    })
                    &&& final(self).copying(lease.slot as int)
                    &&& copy == old(self).retain_copy(lease, storage)
                },
            },
    {
        if lane >= self.prefix_copies.len() {
            return Err(Error::SnapshotLane);
        }
        if self.prefix_copies[lane].is_some() {
            return Err(Error::SnapshotOccupied);
        }
        match self.retain_prefix(lease, storage) {
            Err(e) => Err(e),
            Ok((prefix, copy)) => {
                self.prefix_copies[lane] = Some(PendingDraft { lease, prefix });
                assert(self.prefix_copies@[lane as int] matches Some(p) && p.lease.slot
                    == lease.slot);
                Ok(copy)
            },
        }
    }

    /// Why the lane does not copy the request's prefix, if it does not.
    pub open spec fn lane_error(&self, lane: int, lease: WindowLease) -> Option<Error> {
        if lane >= SNAPSHOT_LANES {
            Some(Error::SnapshotLane)
        } else if !(self.prefix_copies@[lane] matches Some(pending) && pending.lease == lease) {
            Some(Error::SnapshotOwner)
        } else {
            self.lease_error(lease)
        }
    }

    /// Whether the lane has copied the request's prefix; `drained` tells whether
    /// its stream is empty.
    pub fn prefix_ready(&self, lane: usize, lease: WindowLease, drained: bool) -> (r: Result<
        bool,
        Error,
    >)
        requires
            self.inv(),
        ensures
            match r {
                Ok(ready) => self.lane_error(lane as int, lease) is None && ready == drained,
                Err(e) => self.lane_error(lane as int, lease) == Some(e),
            },
    {
        if lane >= self.prefix_copies.len() {
            return Err(Error::SnapshotLane);
        }
        match self.prefix_copies[lane] {
            Some(pending) => {
                if pending.lease != lease {
                    return Err(Error::SnapshotOwner);
                }
            },
            None => {
                return Err(Error::SnapshotOwner);
            },
        }
        match self.validate(lease) {
            Err(e) => Err(e),
            Ok(_) => Ok(drained),
        }
    }

    /// Takes the finished prefix from its lane; the slot can be written again
    /// unless the other lane copies it.
    pub fn finish_prefix(&mut self, lane: usize, lease: WindowLease, drained: bool) -> (r: Result<
        DsparkPrefix,
        Error,
    >)
        requires
            old(self).inv(),
        ensures
            final(self).inv(),
            match r {
                Ok(prefix) => {
                    &&& old(self).lane_error(lane as int, lease) is None
                    &&& drained
                    &&& old(self).prefix_copies@[lane as int] == Some(PendingDraft { lease, prefix })
                    &&& final(self).prefix_copies@ == old(self).prefix_copies@.update(
                        lane as int,
                        None,
                    )
                    &&& *final(self) == (DsparkWindow {
                        prefix_copies: final(self).prefix_copies,
                        ..*old(self)
                    })
                },
                Err(e) => {
                    &&& *final(self) == *old(self)
                    &&& match old(self).lane_error(lane as int, lease) {
                        Some(reason) => e == reason,
                        None => e == Error::SnapshotIncomplete && !drained,
                    }
                },
            },
    {
        match self.prefix_ready(lane, lease, drained) {
            Err(e) => {
                return Err(e);
            },
            Ok(ready) => {
                if !ready {
                    return Err(Error::SnapshotIncomplete);
                }
            },
        }
        match self.prefix_copies[lane] {
            Some(pending) => {
                self.prefix_copies[lane] = None;
                Ok(pending.prefix)
            },
            None => Err(Error::SnapshotOwner),
        }
    }

    /// Gives up what a lane copies, after its stream has been drained.
    pub fn abort_prefix(&mut self, lane: usize) -> (r: Result<(), Error>)
        requires
            old(self).inv(),
        ensures
            final(self).inv(),
            match r {
                Ok(_) => {
                    &&& lane < SNAPSHOT_LANES
                    &&& final(self).prefix_copies@ == old(self).prefix_copies@.update(
                        lane as int,
                        None,
                    )
                    &&& *final(self) == (DsparkWindow {
                        prefix_copies: final(self).prefix_copies,
                        ..*old(self)
                    })
                },
                Err(e) => e == Error::SnapshotLane && lane >= SNAPSHOT_LANES && *final(self)
                    == *old(self),
            },
    {
        if lane >= self.prefix_copies.len() {
            return Err(Error::SnapshotLane);
        }
        self.prefix_copies[lane] = None;
        Ok(())
    }

    /// Why the prefix cannot be restored to the request, if it cannot.
    pub open spec fn restore_error(&self, lease: WindowLease, prefix: DsparkPrefix) -> Option<Error> {
        match self.lease_error(lease) {
            Some(e) => Some(e),
            None => if self.copying(lease.slot as int) {
                Some(Error::DraftInUse)
            } else if !(prefix.owner == self.owner && self.slots@[lease.slot as int].end is None) {
                Some(Error::DraftRestore)
            } else {
                None
            },
        }
    }

    /// The copy of a prefix's rows into the request's ring.
    pub open spec fn returned_copy(&self, lease: WindowLease, prefix: DsparkPrefix) -> DeviceCopy {
        DeviceCopy {
            destination: self.ring.slice_of(
                lease.slot * self.slot_bytes,
                prefix.ring.bytes as int,
            ),
            source: prefix.ring,
        }
    }

    /// The copy that brings a prefix's rows into a fresh ring.
    pub fn restore_copy(&self, lease: WindowLease, prefix: &DsparkPrefix) -> (r: Result<
        DeviceCopy,
        Error,
    >)
        requires
            self.inv(),
            prefix.owner == self.owner ==> prefix.ring.bytes <= self.slot_bytes,
        ensures
            match r {
                Ok(copy) => {
                    &&& self.restore_error(lease, *prefix) is None
                    &&& copy == self.returned_copy(lease, *prefix)
                },
                Err(e) => self.restore_error(lease, *prefix) == Some(e),
            },
    {
        let slot: usize = match self.validate(lease) {
            Err(e) => {
                return Err(e);
            },
            Ok(slot) => slot,
        };
        match self.writable(slot) {
            Err(e) => {
                return Err(e);
            },
            Ok(_) => {},
        }
        if !(prefix.owner == self.owner && self.slots[slot].end.is_none()) {
            return Err(Error::DraftRestore);
        }
        proof {
            self.lemma_rows_fit(slot as int, 0);
            assert(slot * self.slot_bytes <= self.slots@.len() * self.slot_bytes) by (nonlinear_arith)
                requires
                    slot <= self.slots@.len(),
            ;
        }
        Ok(
            DeviceCopy {
                destination: self.ring.slice(slot * self.slot_bytes, prefix.ring.bytes),
                source: prefix.ring,
            },
        )
    }

    /// Gives a fresh ring the prefix's frontier once its rows are `copied`; a
    /// failed copy ends the request.
    pub fn restore_prefix(&mut self, lease: WindowLease, prefix: &DsparkPrefix, copied: bool) -> (r:
        Result<(), Error>)
        requires
            old(self).inv(),
        ensures
            final(self).inv(),
            final(self).same_but_slots(old(self)),
            match old(self).restore_error(lease, *prefix) {
                Some(reason) => r == Err::<(), Error>(reason) && final(self).slots@ == old(self).slots@,
                None => {
                    let slot = lease.slot as int;
                    if copied {
                        &&& r is Ok
                        &&& final(self).slots@ == old(self).slots@.update(
                            slot,
                            DraftSlot { end: Some(prefix.end), ..old(self).slots@[slot] },
                        )
                    } else {
                        &&& r == Err::<(), Error>(Error::DraftCopy)
                        &&& final(self).slots@ == old(self).slots@.update(
                            slot,
                            DraftSlot { request: None, ..old(self).slots@[slot] },
                        )
                    }
                },
            },
    {
        let slot: usize = match self.validate(lease) {
            Err(e) => {
                return Err(e);
            },
            Ok(slot) => slot,
        };
        match self.writable(slot) {
            Err(e) => {
                return Err(e);
            },
            Ok(_) => {},
        }
        let was: DraftSlot = self.slots[slot];
        if !(prefix.owner == self.owner && was.end.is_none()) {
            return Err(Error::DraftRestore);
        }
        if !copied {
            self.slots[slot] = DraftSlot {
                generation: was.generation,
                request: None,
                end: was.end,
            };
            return Err(Error::DraftCopy);
        }
        self.slots[slot] = DraftSlot {
            generation: was.generation,
            request: was.request,
            end: Some(prefix.end),
        };
        Ok(())
    }

    pub fn owner(&self) -> (r: u64)
        ensures
            r == self.owner,
    {
        self.owner
    }

    pub fn prefix_pool(&self) -> (r: Option<SnapshotPool>)
        ensures
            r == self.prefix_pool,
    {
        self.prefix_pool
    }

    pub fn library(&self) -> (r: u64)
        ensures
            r == self.library,
    {
        self.library
    }
}

/// Restoring a kept prefix to another slot writes as many bytes as were kept,
/// into that slot's ring only, and gives back the kept frontier.
pub proof fn law_restored_draft_keeps_its_frontier(
    saved: &DsparkWindow,
    lease: WindowLease,
    storage: DeviceBuffer,
    fresh: &DsparkWindow,
    new: WindowLease,
    after: &DsparkWindow,
)
    requires
        saved.inv(),
        fresh.inv(),
        saved.retain_error(lease) is None,
        storage.bytes >= saved.slot_bytes,
        fresh.owner == saved.owner,
        fresh.slot_bytes == saved.slot_bytes,
        fresh.restore_error(new, saved.prefix_of(lease, storage)) is None,
        after.slots@ == fresh.slots@.update(
            new.slot as int,
            DraftSlot {
                end: Some(saved.prefix_of(lease, storage).end),
                ..fresh.slots@[new.slot as int]
            },
        ),
    ensures
        after.slots@[new.slot as int].end == saved.slots@[lease.slot as int].end,
        saved.prefix_of(lease, storage).ring.bytes == kept_bytes(
            saved.slots@[lease.slot as int].end->Some_0,
            saved.row_bytes,
        ),
        saved.prefix_of(lease, storage).ring.bytes <= fresh.slot_bytes,
{
    saved.lemma_rows_fit(lease.slot as int, saved.slots@[lease.slot as int].end->Some_0);
}

/// A prefix keeps the row of every position that a window can still look back to: the
/// last 128 before its end, each at its place in the ring.
pub proof fn law_kept_rows_cover_the_window(end: u64, row_bytes: usize, position: int)
    requires
        0 <= position < end,
        end - 128 <= position,
    ensures
        (position % 128) * row_bytes + row_bytes <= kept_bytes(end, row_bytes),
        kept_bytes(end, row_bytes) <= 128 * row_bytes,
        end <= 128 ==> kept_bytes(end, row_bytes) == end * row_bytes,
{
    let rows = if end < 128 {
        end as int
    } else {
        128
    };
    let at = position % 128;
    assert(at * row_bytes + row_bytes <= rows * row_bytes) by (nonlinear_arith)
        requires
            at + 1 <= rows,
    ;
    assert(rows * row_bytes <= 128 * row_bytes) by (nonlinear_arith)
        requires
            rows <= 128,
    ;
}

/// What a prefix kept comes back: the rows of the request's ring at the time, byte for
/// byte, at any other slot.
pub proof fn law_draft_rows_come_back(
    saved: &DsparkWindow,
    lease: WindowLease,
    storage: DeviceBuffer,
    fresh: &DsparkWindow,
    to: WindowLease,
    memory: spec_fn(i32, int) -> u8,
    b: int,
)
    requires
        saved.inv(),
        fresh.inv(),
        saved.ring == fresh.ring,
        saved.slot_bytes == fresh.slot_bytes,
        saved.retain_error(lease) is None,
        storage.wf(),
        storage.bytes >= saved.slot_bytes,
        storage.disjoint(saved.ring),
        fresh.restore_error(to, saved.prefix_of(lease, storage)) is None,
        0 <= b < kept_bytes(saved.slots@[lease.slot as int].end->Some_0, saved.row_bytes),
    ensures
        ({
            let kept = device_memory::run(memory, seq![saved.retain_copy(lease, storage)]);
            let prefix = saved.prefix_of(lease, storage);
            let after = device_memory::run(kept, seq![fresh.returned_copy(to, prefix)]);
            after(fresh.ring.device, fresh.ring.address + to.slot * fresh.slot_bytes + b)
                == memory(
                saved.ring.device,
                saved.ring.address + lease.slot * saved.slot_bytes + b,
            )
        }),
{
    let end = saved.slots@[lease.slot as int].end->Some_0;
    let prefix = saved.prefix_of(lease, storage);
    let keep = seq![saved.retain_copy(lease, storage)];
    let back = seq![fresh.returned_copy(to, prefix)];
    let kept = device_memory::run(memory, keep);
    let bytes = kept_bytes(end, saved.row_bytes);
    saved.lemma_rows_fit(lease.slot as int, end);
    fresh.lemma_rows_fit(to.slot as int, end);
    assert(0 <= lease.slot * saved.slot_bytes && 0 <= to.slot * fresh.slot_bytes)
        by (nonlinear_arith);
    let live = (saved.ring.device, saved.ring.address + lease.slot * saved.slot_bytes + b);
    let new = (fresh.ring.device, fresh.ring.address + to.slot * fresh.slot_bytes + b);
    device_memory::lemma_copied(memory, keep, 0, storage.device, storage.address + b, live);
    device_memory::lemma_copied(
        kept,
        back,
        0,
        new.0,
        new.1,
        (storage.device, storage.address + b),
    );
}

} // verus!
