//! Request leases over the sliding-window rings of one layer.
pub mod laws;

use crate::error::Error;
use crate::source_cache::MAX_SLOTS;
use vstd::prelude::*;

verus! {

/// The right to use one slot's ring for one request.
#[derive(Debug, Clone, Copy, PartialEq, Eq, Structural)]
pub struct WindowLease {
    pub owner: u64,
    pub slot: usize,
    pub generation: u64,
}

#[derive(Debug, Clone, Copy, PartialEq, Eq, Structural)]
pub struct WindowChunk {
    pub lease: WindowLease,
    pub position: u64,
    pub tokens: u32,
}

#[derive(Debug, Clone, Copy, PartialEq, Eq, Structural)]
pub struct WindowSlot {
    pub generation: u64,
    pub request: Option<u64>,
    pub end: u64,
}

/// A retained ring frontier; the ring's bytes are kept elsewhere.
#[derive(Debug, Clone, Copy, PartialEq, Eq, Structural)]
pub struct WindowPrefix {
    pub owner: u64,
    pub end: u64,
}

pub struct WindowState {
    pub owner: u64,
    pub layer: usize,
    /// Device that holds the rings.
    pub device: i32,
    pub slots: Vec<WindowSlot>,
    /// Slots whose accepted rows are being written.
    pub writing: Vec<bool>,
}

impl WindowState {
    pub open spec fn inv(&self) -> bool {
        &&& 1 <= self.slots@.len() <= MAX_SLOTS
        &&& self.writing@.len() == self.slots@.len()
    }

    /// A layer's rings without requests.
    pub fn new(owner: u64, layer: usize, device: i32, slots: usize) -> (r: Result<Self, Error>)
        ensures
            match r {
                Ok(state) => {
                    &&& 1 <= slots <= MAX_SLOTS
                    &&& state.inv()
                    &&& state.owner == owner
                    &&& state.layer == layer
                    &&& state.device == device
                    &&& state.slots@ == Seq::new(
                        slots as nat,
                        |i: int| WindowSlot { generation: 0, request: None, end: 0 },
                    )
                    &&& state.writing@ == Seq::new(slots as nat, |i: int| false)
                },
                Err(e) => e == Error::WindowSlots && !(1 <= slots <= MAX_SLOTS),
            },
    {
        if slots < 1 || slots > MAX_SLOTS {
            return Err(Error::WindowSlots);
        }
        let mut table: Vec<WindowSlot> = Vec::new();
        let mut writing: Vec<bool> = Vec::new();
        let mut i: usize = 0;
        while i < slots
            invariant
                i <= slots,
                table@ == Seq::new(
                    i as nat,
                    |k: int| WindowSlot { generation: 0, request: None, end: 0 },
                ),
                writing@ == Seq::new(i as nat, |k: int| false),
            decreases slots - i,
        {
            table.push(WindowSlot { generation: 0, request: None, end: 0 });
            writing.push(false);
            i = i + 1;
        }
        Ok(WindowState { owner, layer, device, slots: table, writing })
    }

    /// Why `lease` does not name a live request, if it does not.
    pub open spec fn lease_error(&self, lease: WindowLease) -> Option<Error> {
        if lease.owner != self.owner || lease.slot >= self.slots@.len() {
            Some(Error::ForeignWindowLease)
        } else if self.slots@[lease.slot as int].request is None
            || self.slots@[lease.slot as int].generation != lease.generation {
            Some(Error::StaleWindowLease)
        } else {
            None
        }
    }

    pub open spec fn idle_error(&self, lease: WindowLease) -> Option<Error> {
        match self.lease_error(lease) {
            Some(e) => Some(e),
            None => if self.writing@[lease.slot as int] {
                Some(Error::WindowPending)
            } else {
                None
            },
        }
    }

    /// Whether a request of this number is live.
    pub open spec fn serves(&self, request: u64) -> bool {
        exists|s: int|
            0 <= s < self.slots@.len() && (#[trigger] self.slots@[s]).request == Some(request)
    }

    /// Why `slot` cannot be claimed for `request`, if it cannot.
    pub open spec fn begin_error(&self, slot: int, request: u64) -> Option<Error> {
        if slot >= self.slots@.len() || self.slots@[slot].request is Some || self.writing@[slot] {
            Some(Error::WindowSlotTaken)
        } else if self.serves(request) {
            Some(Error::DuplicateWindowRequest)
        } else if self.slots@[slot].generation == u64::MAX {
            Some(Error::WindowGenerations)
        } else {
            None
        }
    }

    /// Everything but the slot table is as in `before`.
    pub open spec fn same_rings(&self, before: &Self) -> bool {
        &&& self.owner == before.owner
        &&& self.layer == before.layer
        &&& self.device == before.device
        &&& self.writing@ == before.writing@
    }

    pub fn begin_request(&mut self, slot: usize, request: u64) -> (r: Result<WindowLease, Error>)
        requires
            old(self).inv(),
        ensures
            final(self).inv(),
            match r {
                Err(e) => old(self).begin_error(slot as int, request) == Some(e) && *final(self)
                    == *old(self),
                Ok(lease) => {
                    &&& old(self).begin_error(slot as int, request) is None
                    &&& lease == (WindowLease {
                        owner: old(self).owner,
                        slot,
                        generation: (old(self).slots@[slot as int].generation + 1) as u64,
                    })
                    &&& final(self).slots@ == old(self).slots@.update(
                        slot as int,
                        WindowSlot {
                            generation: lease.generation,
                            request: Some(request),
                            end: 0,
                        },
                    )
                    &&& final(self).same_rings(old(self))
                    &&& final(self).idle_error(lease) is None
                },
            },
    {
        if slot >= self.slots.len() || self.slots[slot].request.is_some() || self.writing[slot] {
            return Err(Error::WindowSlotTaken);
        }
        let mut i: usize = 0;
        while i < self.slots.len()
            invariant
                i <= self.slots@.len(),
                *self == *old(self),
                self.inv(),
                slot < self.slots@.len(),
                self.slots@[slot as int].request is None,
                !self.writing@[slot as int],
                forall|s: int| 0 <= s < i ==> (#[trigger] self.slots@[s]).request != Some(request),
            decreases self.slots@.len() - i,
        {
            if let Some(other) = self.slots[i].request {
                if other == request {
                    assert(self.slots@[i as int].request == Some(request));
                    return Err(Error::DuplicateWindowRequest);
                }
            }
            i = i + 1;
        }
        let generation: u64 = match self.slots[slot].generation.checked_add(1) {
            None => {
                return Err(Error::WindowGenerations);
            },
            Some(generation) => generation,
        };
        self.slots[slot] = WindowSlot { generation, request: Some(request), end: 0 };
        Ok(WindowLease { owner: self.owner, slot, generation })
    }

    pub fn validate(&self, lease: WindowLease) -> (r: Result<usize, Error>)
        requires
            self.inv(),
        ensures
            match r {
                Ok(slot) => slot == lease.slot && self.lease_error(lease) is None,
                Err(e) => self.lease_error(lease) == Some(e),
            },
    {
        if lease.owner != self.owner || lease.slot >= self.slots.len() {
            return Err(Error::ForeignWindowLease);
        }
        let slot = &self.slots[lease.slot];
        if slot.request.is_none() || slot.generation != lease.generation {
            return Err(Error::StaleWindowLease);
        }
        Ok(lease.slot)
    }

    pub fn request_id(&self, lease: WindowLease) -> (r: Result<u64, Error>)
        requires
            self.inv(),
        ensures
            match r {
                Ok(id) => self.lease_error(lease) is None && self.slots@[lease.slot as int].request
                    == Some(id),
                Err(e) => self.lease_error(lease) == Some(e),
            },
    {
        match self.validate(lease) {
            Err(e) => Err(e),
            Ok(slot) => match self.slots[slot].request {
                Some(id) => Ok(id),
                None => Err(Error::StaleWindowLease),
            },
        }
    }

    pub fn end(&self, lease: WindowLease) -> (r: Result<u64, Error>)
        requires
            self.inv(),
        ensures
            match r {
                Ok(end) => self.lease_error(lease) is None && end
                    == self.slots@[lease.slot as int].end,
                Err(e) => self.lease_error(lease) == Some(e),
            },
    {
        match self.validate(lease) {
            Err(e) => Err(e),
            Ok(slot) => Ok(self.slots[slot].end),
        }
    }

    pub fn ensure_not_writing(&self, lease: WindowLease) -> (r: Result<(), Error>)
        requires
            self.inv(),
        ensures
            match r {
                Ok(_) => self.idle_error(lease) is None,
                Err(e) => self.idle_error(lease) == Some(e),
            },
    {
        match self.validate(lease) {
            Err(e) => Err(e),
            Ok(slot) => if self.writing[slot] {
                Err(Error::WindowPending)
            } else {
                Ok(())
            },
        }
    }

    pub fn release(&mut self, lease: WindowLease) -> (r: Result<(), Error>)
        requires
            old(self).inv(),
        ensures
            final(self).inv(),
            match r {
                Err(e) => old(self).idle_error(lease) == Some(e) && *final(self) == *old(self),
                Ok(_) => {
                    let slot = lease.slot as int;
                    &&& old(self).idle_error(lease) is None
                    &&& final(self).slots@ == old(self).slots@.update(
                        slot,
                        WindowSlot { request: None, ..old(self).slots@[slot] },
                    )
                    &&& final(self).same_rings(old(self))
                    &&& final(self).lease_error(lease) == Some(Error::StaleWindowLease)
                },
            },
    {
        match self.ensure_not_writing(lease) {
            Err(e) => {
                return Err(e);
            },
            Ok(_) => {},
        }
        let was: WindowSlot = self.slots[lease.slot];
        self.slots[lease.slot] = WindowSlot {
            generation: was.generation,
            request: None,
            end: was.end,
        };
        Ok(())
    }

    /// Sets a live window's frontier.
    fn set_end(&mut self, slot: usize, end: u64)
        requires
            old(self).inv(),
            slot < old(self).slots@.len(),
        ensures
            final(self).inv(),
            final(self).slots@ == old(self).slots@.update(
                slot as int,
                WindowSlot { end, ..old(self).slots@[slot as int] },
            ),
            final(self).same_rings(old(self)),
    {
        let was: WindowSlot = self.slots[slot];
        self.slots[slot] = WindowSlot { generation: was.generation, request: was.request, end };
    }

    /// Why `end` cannot become the frontier of a fresh window.
    pub open spec fn fresh_error(&self, lease: WindowLease) -> Option<Error> {
        match self.idle_error(lease) {
            Some(e) => Some(e),
            None => if self.slots@[lease.slot as int].end != 0 {
                Some(Error::WindowNotFresh)
            } else {
                None
            },
        }
    }

    /// Starts a fresh ring at `start` for a bounded replay.
    pub fn begin_replay(&mut self, lease: WindowLease, start: u64) -> (r: Result<(), Error>)
        requires
            old(self).inv(),
        ensures
            final(self).inv(),
            match r {
                Err(e) => old(self).fresh_error(lease) == Some(e) && *final(self) == *old(self),
                Ok(_) => {
                    let slot = lease.slot as int;
                    &&& old(self).fresh_error(lease) is None
                    &&& final(self).slots@ == old(self).slots@.update(
                        slot,
                        WindowSlot { end: start, ..old(self).slots@[slot] },
                    )
                    &&& final(self).same_rings(old(self))
                },
            },
    {
        match self.ensure_not_writing(lease) {
            Err(e) => {
                return Err(e);
            },
            Ok(_) => {},
        }
        if self.slots[lease.slot].end != 0 {
            return Err(Error::WindowNotFresh);
        }
        self.set_end(lease.slot, start);
        Ok(())
    }

    /// Keeps a request's ring frontier.
    pub fn retain_prefix(&self, lease: WindowLease) -> (r: Result<WindowPrefix, Error>)
        requires
            self.inv(),
        ensures
            match r {
                Ok(prefix) => self.idle_error(lease) is None && prefix == (WindowPrefix {
                    owner: self.owner,
                    end: self.slots@[lease.slot as int].end,
                }),
                Err(e) => self.idle_error(lease) == Some(e),
            },
    {
        match self.ensure_not_writing(lease) {
            Err(e) => {
                return Err(e);
            },
            Ok(_) => {},
        }
        Ok(WindowPrefix { owner: self.owner, end: self.slots[lease.slot].end })
    }

    /// Why `prefix` cannot be restored to `lease`, if it cannot.
    pub open spec fn restore_error(&self, lease: WindowLease, prefix: WindowPrefix) -> Option<Error> {
        match self.idle_error(lease) {
            Some(e) => Some(e),
            None => if prefix.owner != self.owner || self.slots@[lease.slot as int].end != 0 {
                Some(Error::WindowRestore)
            } else {
                None
            },
        }
    }

    /// Gives a fresh window a retained frontier.
    pub fn restore_prefix(&mut self, lease: WindowLease, prefix: WindowPrefix) -> (r: Result<(), Error>)
        requires
            old(self).inv(),
        ensures
            final(self).inv(),
            match r {
                Err(e) => old(self).restore_error(lease, prefix) == Some(e) && *final(self)
                    == *old(self),
                Ok(_) => {
                    let slot = lease.slot as int;
                    &&& old(self).restore_error(lease, prefix) is None
                    &&& final(self).slots@ == old(self).slots@.update(
                        slot,
                        WindowSlot { end: prefix.end, ..old(self).slots@[slot] },
                    )
                    &&& final(self).same_rings(old(self))
                },
            },
    {
        match self.ensure_not_writing(lease) {
            Err(e) => {
                return Err(e);
            },
            Ok(_) => {},
        }
        if prefix.owner != self.owner || self.slots[lease.slot].end != 0 {
            return Err(Error::WindowRestore);
        }
        self.set_end(lease.slot, prefix.end);
        Ok(())
    }
}

/// One request's private rows over its committed ring.
#[derive(Debug, Clone, Copy, PartialEq, Eq, Structural)]
pub struct WindowProposal {
    pub lease: WindowLease,
    pub layer: usize,
    pub position: u64,
    pub tokens: u32,
}

/// Rows that one lane has produced for a batch of requests.
pub struct WindowPrepared {
    pub owner: u64,
    pub chunks: Vec<WindowChunk>,
}

/// One lane's producer of window rows.
pub struct WindowWave {
    pub layer: usize,
    pub device: i32,
    pub prepared: Option<WindowPrepared>,
    /// Accepted tokens of a queued commit.
    pub pending: Option<Vec<u32>>,
}

/// The first of the first `n` chunks that no longer fits its request.
pub open spec fn window_stale(state: &WindowState, chunks: Seq<WindowChunk>, n: int) -> Option<Error>
    decreases n,
{
    if n <= 0 {
        None
    } else {
        match window_stale(state, chunks, n - 1) {
            Some(e) => Some(e),
            None => match state.lease_error(chunks[n - 1].lease) {
                Some(e) => Some(e),
                None => if state.slots@[chunks[n - 1].lease.slot as int].end != chunks[n
                    - 1].position {
                    Some(Error::StaleWindowOutput)
                } else {
                    None
                },
            },
        }
    }
}

proof fn lemma_window_stale_stays(state: &WindowState, chunks: Seq<WindowChunk>, n: int, m: int)
    requires
        window_stale(state, chunks, n) is Some,
        n <= m,
    ensures
        window_stale(state, chunks, m) == window_stale(state, chunks, n),
    decreases m - n,
{
    if n < m && m > 0 {
        lemma_window_stale_stays(state, chunks, n, m - 1);
    }
}

/// The slots once the accepted tokens of the first `n` chunks are committed.
pub open spec fn moved(
    slots: Seq<WindowSlot>,
    chunks: Seq<WindowChunk>,
    accepted: Seq<u32>,
    n: int,
) -> Seq<WindowSlot>
    decreases n,
{
    if n <= 0 {
        slots
    } else {
        let before = moved(slots, chunks, accepted, n - 1);
        let slot = chunks[n - 1].lease.slot as int;
        before.update(
            slot,
            WindowSlot {
                end: (chunks[n - 1].position + accepted[n - 1]) as u64,
                ..before[slot]
            },
        )
    }
}

/// The slots once the requests of the first `n` chunks are revoked.
pub open spec fn revoked(slots: Seq<WindowSlot>, chunks: Seq<WindowChunk>, n: int) -> Seq<WindowSlot>
    decreases n,
{
    if n <= 0 {
        slots
    } else {
        let before = revoked(slots, chunks, n - 1);
        let slot = chunks[n - 1].lease.slot as int;
        before.update(slot, WindowSlot { request: None, ..before[slot] })
    }
}

/// The write marks with those of the first `n` chunks set to `value`.
pub open spec fn marked(marks: Seq<bool>, chunks: Seq<WindowChunk>, n: int, value: bool) -> Seq<bool>
    decreases n,
{
    if n <= 0 {
        marks
    } else {
        marked(marks, chunks, n - 1, value).update(chunks[n - 1].lease.slot as int, value)
    }
}

pub proof fn lemma_moved_len(
    slots: Seq<WindowSlot>,
    chunks: Seq<WindowChunk>,
    accepted: Seq<u32>,
    n: int,
)
    requires
        n <= chunks.len(),
        forall|i: int| 0 <= i < chunks.len() ==> (#[trigger] chunks[i]).lease.slot < slots.len(),
    ensures
        moved(slots, chunks, accepted, n).len() == slots.len(),
    decreases n,
{
    if n > 0 {
        lemma_moved_len(slots, chunks, accepted, n - 1);
    }
}

pub proof fn lemma_revoked_len(slots: Seq<WindowSlot>, chunks: Seq<WindowChunk>, n: int)
    requires
        n <= chunks.len(),
        forall|i: int| 0 <= i < chunks.len() ==> (#[trigger] chunks[i]).lease.slot < slots.len(),
    ensures
        revoked(slots, chunks, n).len() == slots.len(),
    decreases n,
{
    if n > 0 {
        lemma_revoked_len(slots, chunks, n - 1);
    }
}

/// Committing chunks changes only the frontiers of their slots.
pub proof fn lemma_moved_slot(
    slots: Seq<WindowSlot>,
    chunks: Seq<WindowChunk>,
    accepted: Seq<u32>,
    n: int,
    slot: int,
)
    requires
        0 <= n <= chunks.len(),
        0 <= slot < slots.len(),
        forall|i: int| 0 <= i < chunks.len() ==> (#[trigger] chunks[i]).lease.slot < slots.len(),
    ensures
        moved(slots, chunks, accepted, n).len() == slots.len(),
        moved(slots, chunks, accepted, n)[slot].generation == slots[slot].generation,
        moved(slots, chunks, accepted, n)[slot].request == slots[slot].request,
        !chunk_at(chunks, n, slot) ==> moved(slots, chunks, accepted, n)[slot] == slots[slot],
    decreases n,
{
    if n > 0 {
        lemma_moved_slot(slots, chunks, accepted, n - 1, slot);
        if chunks[n - 1].lease.slot == slot {
            assert(chunk_at(chunks, n, slot));
        } else if chunk_at(chunks, n - 1, slot) {
            let i = choose|i: int| 0 <= i < n - 1 && (#[trigger] chunks[i]).lease.slot == slot;
            assert(chunks[i].lease.slot == slot);
            assert(chunk_at(chunks, n, slot));
        }
    }
}

/// Revoking chunks takes the requests of their slots and nothing else.
pub proof fn lemma_revoked_slot(
    slots: Seq<WindowSlot>,
    chunks: Seq<WindowChunk>,
    n: int,
    slot: int,
)
    requires
        0 <= n <= chunks.len(),
        0 <= slot < slots.len(),
        forall|i: int| 0 <= i < chunks.len() ==> (#[trigger] chunks[i]).lease.slot < slots.len(),
    ensures
        revoked(slots, chunks, n).len() == slots.len(),
        revoked(slots, chunks, n)[slot] == if chunk_at(chunks, n, slot) {
            WindowSlot { request: None, ..slots[slot] }
        } else {
            slots[slot]
        },
    decreases n,
{
    if n > 0 {
        lemma_revoked_slot(slots, chunks, n - 1, slot);
        if chunks[n - 1].lease.slot == slot {
            assert(chunk_at(chunks, n, slot));
        } else {
            if chunk_at(chunks, n - 1, slot) {
                let i = choose|i: int| 0 <= i < n - 1 && (#[trigger] chunks[i]).lease.slot == slot;
                assert(chunks[i].lease.slot == slot);
                assert(chunk_at(chunks, n, slot));
            }
            if chunk_at(chunks, n, slot) {
                let i = choose|i: int| 0 <= i < n && (#[trigger] chunks[i]).lease.slot == slot;
                assert(i < n - 1);
                assert(chunk_at(chunks, n - 1, slot));
            }
        }
    }
}

/// One of the first `n` chunks lies at `slot`.
pub open spec fn chunk_at(chunks: Seq<WindowChunk>, n: int, slot: int) -> bool {
    exists|i: int| 0 <= i < n && (#[trigger] chunks[i]).lease.slot == slot
}

/// Marking chunks sets the marks of their slots and no others.
pub proof fn lemma_marked_slot(
    marks: Seq<bool>,
    chunks: Seq<WindowChunk>,
    n: int,
    value: bool,
    slot: int,
)
    requires
        0 <= n <= chunks.len(),
        0 <= slot < marks.len(),
        forall|i: int| 0 <= i < chunks.len() ==> (#[trigger] chunks[i]).lease.slot < marks.len(),
    ensures
        marked(marks, chunks, n, value).len() == marks.len(),
        marked(marks, chunks, n, value)[slot] == if chunk_at(chunks, n, slot) {
            value
        } else {
            marks[slot]
        },
    decreases n,
{
    if n > 0 {
        lemma_marked_slot(marks, chunks, n - 1, value, slot);
        if chunks[n - 1].lease.slot == slot {
            assert(chunk_at(chunks, n, slot));
        } else {
            if chunk_at(chunks, n - 1, slot) {
                let i = choose|i: int| 0 <= i < n - 1 && (#[trigger] chunks[i]).lease.slot == slot;
                assert(chunks[i].lease.slot == slot);
                assert(chunk_at(chunks, n, slot));
            }
            if chunk_at(chunks, n, slot) {
                let i = choose|i: int| 0 <= i < n && (#[trigger] chunks[i]).lease.slot == slot;
                assert(i < n - 1);
                assert(chunk_at(chunks, n - 1, slot));
            }
        }
    }
}

pub proof fn lemma_marks_cleared(marks: Seq<bool>, chunks: Seq<WindowChunk>, n: int, slot: int)
    requires
        0 <= n <= chunks.len(),
        0 <= slot < marks.len(),
        forall|i: int| 0 <= i < chunks.len() ==> (#[trigger] chunks[i]).lease.slot < marks.len(),
    ensures
        marked(marks, chunks, n, false).len() == marks.len(),
        marked(marks, chunks, n, false)[slot] == (marks[slot] && !chunk_at(chunks, n, slot)),
    decreases n,
{
    if n > 0 {
        lemma_marks_cleared(marks, chunks, n - 1, slot);
        let last = chunks[n - 1].lease.slot as int;
        if last == slot {
            assert(chunk_at(chunks, n, slot));
        } else if chunk_at(chunks, n, slot) {
            let i = choose|i: int| 0 <= i < n && (#[trigger] chunks[i]).lease.slot == slot;
            assert(chunk_at(chunks, n - 1, slot));
        } else if chunk_at(chunks, n - 1, slot) {
            let i = choose|i: int| 0 <= i < n - 1 && (#[trigger] chunks[i]).lease.slot == slot;
            assert(chunk_at(chunks, n, slot));
        }
    }
}

fn same_window_chunks(left: &[WindowChunk], right: &[WindowChunk]) -> (r: bool)
    ensures
        r == (left@ == right@),
{
    if left.len() != right.len() {
        return false;
    }
    let mut i: usize = 0;
    while i < left.len()
        invariant
            i <= left@.len() == right@.len(),
            forall|k: int| 0 <= k < i ==> left@[k] == right@[k],
        decreases left@.len() - i,
    {
        if left[i] != right[i] {
            return false;
        }
        i = i + 1;
    }
    assert(left@ =~= right@);
    true
}

impl WindowWave {
    /// The prepared chunks name slots of the state and stay in the position range.
    pub open spec fn fits(&self, state: &WindowState) -> bool {
        self.prepared matches Some(p) ==> (p.owner == state.owner ==> forall|i: int|
            0 <= i < p.chunks@.len() ==> {
                let chunk = #[trigger] p.chunks@[i];
                chunk.lease.slot < state.slots@.len() && chunk.position + chunk.tokens <= u64::MAX
            })
    }

    /// Why the produced rows cannot be used, if they cannot.
    pub open spec fn output_error(&self, state: &WindowState) -> Option<Error> {
        match self.prepared {
            None => Some(Error::WindowOutputIncomplete),
            Some(p) => if p.owner != state.owner {
                Some(Error::WindowOutputState)
            } else {
                window_stale(state, p.chunks@, p.chunks@.len() as int)
            },
        }
    }

    /// Why a transaction over `chunks` cannot use the produced rows.
    pub open spec fn batch_error(&self, state: &WindowState, chunks: Seq<WindowChunk>) -> Option<
        Error,
    > {
        match self.output_error(state) {
            Some(e) => Some(e),
            None => if self.prepared->Some_0.chunks@ != chunks {
                Some(Error::WindowTransaction)
            } else {
                None
            },
        }
    }

    /// A transaction names exactly the chunks that were produced.
    pub fn validate_batch(&self, state: &WindowState, chunks: &[WindowChunk]) -> (r: Result<
        (),
        Error,
    >)
        requires
            state.inv(),
        ensures
            match r {
                Ok(_) => self.batch_error(state, chunks@) is None,
                Err(e) => self.batch_error(state, chunks@) == Some(e),
            },
    {
        let prepared: &WindowPrepared = match &self.prepared {
            None => {
                return Err(Error::WindowOutputIncomplete);
            },
            Some(prepared) => prepared,
        };
        if prepared.owner != state.owner {
            return Err(Error::WindowOutputState);
        }
        let mut i: usize = 0;
        while i < prepared.chunks.len()
            invariant
                i <= prepared.chunks@.len(),
                state.inv(),
                self.prepared == Some(*prepared),
                prepared.owner == state.owner,
                window_stale(state, prepared.chunks@, i as int) is None,
            decreases prepared.chunks@.len() - i,
        {
            let chunk = prepared.chunks[i];
            proof {
                if window_stale(state, prepared.chunks@, i + 1) is Some {
                    lemma_window_stale_stays(
                        state,
                        prepared.chunks@,
                        i + 1,
                        prepared.chunks@.len() as int,
                    );
                }
            }
            match state.end(chunk.lease) {
                Err(e) => {
                    return Err(e);
                },
                Ok(end) => {
                    if end != chunk.position {
                        return Err(Error::StaleWindowOutput);
                    }
                },
            }
            i = i + 1;
        }
        if !same_window_chunks(&prepared.chunks, chunks) {
            return Err(Error::WindowTransaction);
        }
        Ok(())
    }

    pub fn has_pending_commit(&self) -> (r: bool)
        ensures
            r == (self.pending is Some),
    {
        self.pending.is_some()
    }

    /// Whether a queued commit is written; `drained` is what the stream says.
    pub fn poll_commit(&self, drained: Result<bool, Error>) -> (r: Result<bool, Error>)
        ensures
            r == if self.pending is Some {
                drained
            } else {
                Ok::<bool, Error>(true)
            },
    {
        if self.pending.is_none() {
            return Ok(true);
        }
        drained
    }

    /// Why the accepted tokens cannot be queued, if they cannot.
    pub open spec fn queue_error(&self, state: &WindowState, accepted: Seq<u32>) -> Option<Error> {
        if self.pending is Some {
            Some(Error::WindowCommitQueued)
        } else {
            match self.output_error(state) {
                Some(e) => Some(e),
                None => if accepted.len() != self.prepared->Some_0.chunks@.len() {
                    Some(Error::WindowTransaction)
                } else {
                    None
                },
            }
        }
    }

    /// Marks the accepted rows as being written.
    pub fn enqueue_commit(&mut self, state: &mut WindowState, accepted: &[u32]) -> (r: Result<
        (),
        Error,
    >)
        requires
            old(state).inv(),
            old(self).fits(old(state)),
        ensures
            final(state).inv(),
            final(self).fits(final(state)),
            match r {
                Err(e) => {
                    &&& old(self).queue_error(old(state), accepted@) == Some(e)
                    &&& *final(self) == *old(self)
                    &&& *final(state) == *old(state)
                },
                Ok(_) => {
                    let chunks = old(self).prepared->Some_0.chunks@;
                    &&& old(self).queue_error(old(state), accepted@) is None
                    &&& final(self).pending matches Some(queued) && queued@ == accepted@
                    &&& final(self).prepared == old(self).prepared
                    &&& final(self).layer == old(self).layer
                    &&& final(self).device == old(self).device
                    &&& final(state).slots@ == old(state).slots@
                    &&& final(state).writing@ == marked(
                        old(state).writing@,
                        chunks,
                        chunks.len() as int,
                        true,
                    )
                    &&& final(state).owner == old(state).owner
                    &&& final(state).layer == old(state).layer
                    &&& final(state).device == old(state).device
                },
            },
    {
        if self.pending.is_some() {
            return Err(Error::WindowCommitQueued);
        }
        let count: usize = match &self.prepared {
            None => {
                return Err(Error::WindowOutputIncomplete);
            },
            Some(prepared) => {
                match self.validate_batch(state, &prepared.chunks) {
                    Err(e) => {
                        return Err(e);
                    },
                    Ok(_) => {},
                }
                prepared.chunks.len()
            },
        };
        if accepted.len() != count {
            return Err(Error::WindowTransaction);
        }
        let ghost chunks = self.prepared->Some_0.chunks@;
        let ghost before = state.writing@;
        let mut queued: Vec<u32> = Vec::new();
        let mut i: usize = 0;
        while i < count
            invariant
                i <= count == accepted@.len(),
                *self == *old(self),
                self.prepared matches Some(p) && p.chunks@ == chunks && p.owner == state.owner,
                chunks.len() == count,
                self.fits(state),
                state.inv(),
                state.slots@ == old(state).slots@,
                state.owner == old(state).owner,
                state.layer == old(state).layer,
                state.device == old(state).device,
                before == old(state).writing@,
                state.writing@ == marked(before, chunks, i as int, true),
                queued@ == accepted@.take(i as int),
            decreases count - i,
        {
            let slot: usize = match &self.prepared {
                Some(prepared) => prepared.chunks[i].lease.slot,
                None => 0,
            };
            state.writing[slot] = true;
            queued.push(accepted[i]);
            i = i + 1;
            assert(queued@ =~= accepted@.take(i as int));
        }
        assert(queued@ =~= accepted@);
        self.pending = Some(queued);
        Ok(())
    }

    /// Why the accepted tokens cannot be committed, if they cannot.
    pub open spec fn commit_error(
        &self,
        state: &WindowState,
        accepted: Seq<u32>,
        complete: bool,
    ) -> Option<Error> {
        match self.output_error(state) {
            Some(e) => Some(e),
            None => if accepted.len() != self.prepared->Some_0.chunks@.len() || (
            self.pending matches Some(queued) && queued@ != accepted) {
                Some(Error::WindowTransaction)
            } else if !complete {
                Some(Error::WindowCommitIncomplete)
            } else {
                None
            },
        }
    }

    /// Publishes the accepted rows once their writes are done.
    pub fn commit(&mut self, state: &mut WindowState, accepted: &[u32], complete: bool) -> (r: Result<
        (),
        Error,
    >)
        requires
            old(state).inv(),
            old(self).fits(old(state)),
            old(self).prepared matches Some(p) ==> forall|i: int|
                0 <= i < p.chunks@.len() && i < accepted@.len() ==> #[trigger] accepted@[i]
                    <= p.chunks@[i].tokens,
        ensures
            final(state).inv(),
            final(self).fits(final(state)),
            match r {
                Err(e) => {
                    &&& old(self).commit_error(old(state), accepted@, complete) == Some(e)
                    &&& *final(self) == *old(self)
                    &&& *final(state) == *old(state)
                },
                Ok(_) => {
                    let chunks = old(self).prepared->Some_0.chunks@;
                    let n = chunks.len() as int;
                    &&& old(self).commit_error(old(state), accepted@, complete) is None
                    &&& *final(self) == (WindowWave { prepared: None, pending: None, ..*old(self) })
                    &&& final(state).slots@ == moved(old(state).slots@, chunks, accepted@, n)
                    &&& final(state).writing@ == marked(old(state).writing@, chunks, n, false)
                    &&& final(state).owner == old(state).owner
                    &&& final(state).layer == old(state).layer
                    &&& final(state).device == old(state).device
                },
            },
    {
        let count: usize = match &self.prepared {
            None => {
                return Err(Error::WindowOutputIncomplete);
            },
            Some(prepared) => {
                match self.validate_batch(state, &prepared.chunks) {
                    Err(e) => {
                        return Err(e);
                    },
                    Ok(_) => {},
                }
                prepared.chunks.len()
            },
        };
        if accepted.len() != count {
            return Err(Error::WindowTransaction);
        }
        if let Some(queued) = &self.pending {
            if !same_tokens(queued, accepted) {
                return Err(Error::WindowTransaction);
            }
        }
        if !complete {
            return Err(Error::WindowCommitIncomplete);
        }
        let ghost chunks = self.prepared->Some_0.chunks@;
        let ghost before = state.writing@;
        let mut i: usize = 0;
        while i < count
            invariant
                i <= count == accepted@.len(),
                *self == *old(self),
                self.prepared matches Some(p) && p.chunks@ == chunks && p.owner == state.owner,
                chunks.len() == count,
                self.fits(state),
                state.inv(),
                state.owner == old(state).owner,
                state.layer == old(state).layer,
                state.device == old(state).device,
                before == old(state).writing@,
                state.slots@ == moved(old(state).slots@, chunks, accepted@, i as int),
                state.writing@ == marked(before, chunks, i as int, false),
                forall|k: int| 0 <= k < count ==> #[trigger] accepted@[k] <= chunks[k].tokens,
            decreases count - i,
        {
            let chunk: WindowChunk = match &self.prepared {
                Some(prepared) => prepared.chunks[i],
                None => {
                    return Err(Error::WindowOutputIncomplete);
                },
            };
            assert(chunk == chunks[i as int]);
            state.set_end(chunk.lease.slot, chunk.position + accepted[i] as u64);
            state.writing[chunk.lease.slot] = false;
            i = i + 1;
        }
        self.prepared = None;
        self.pending = None;
        Ok(())
    }

    /// Gives up a queued commit after its stream has been drained: the
    /// participating requests are revoked.
    pub fn abort_commit(&mut self, state: &mut WindowState)
        requires
            old(state).inv(),
            old(self).fits(old(state)),
        ensures
            final(state).inv(),
            final(self).fits(final(state)),
            final(state).owner == old(state).owner,
            final(state).layer == old(state).layer,
            final(state).device == old(state).device,
            *final(self) == (WindowWave { pending: None, ..*old(self) }),
            if old(self).pending is Some && old(self).prepared is Some && old(self).prepared->Some_0.owner == old(state).owner {
                let chunks = old(self).prepared->Some_0.chunks@;
                let n = chunks.len() as int;
                &&& final(state).slots@ == revoked(old(state).slots@, chunks, n)
                &&& final(state).writing@ == marked(old(state).writing@, chunks, n, false)
            } else {
                *final(state) == *old(state)
            },
    {
        if self.pending.is_none() {
            return;
        }
        let count: usize = match &self.prepared {
            Some(prepared) => if prepared.owner == state.owner {
                prepared.chunks.len()
            } else {
                0
            },
            None => 0,
        };
        let ghost chunks = self.prepared->Some_0.chunks@;
        let ghost before = state.writing@;
        let mut i: usize = 0;
        while i < count
            invariant
                i <= count,
                *self == *old(self),
                count > 0 ==> (self.prepared matches Some(p) && p.chunks@ == chunks && p.owner
                    == state.owner && count == chunks.len()),
                self.fits(state),
                state.inv(),
                state.owner == old(state).owner,
                state.layer == old(state).layer,
                state.device == old(state).device,
                before == old(state).writing@,
                state.slots@ == revoked(old(state).slots@, chunks, i as int),
                state.writing@ == marked(before, chunks, i as int, false),
                count == 0 ==> *state == *old(state),
            decreases count - i,
        {
            let slot: usize = match &self.prepared {
                Some(prepared) => prepared.chunks[i].lease.slot,
                None => 0,
            };
            let was: WindowSlot = state.slots[slot];
            state.slots[slot] = WindowSlot {
                generation: was.generation,
                request: None,
                end: was.end,
            };
            state.writing[slot] = false;
            i = i + 1;
        }
        self.pending = None;
    }

    /// One request's produced rows.
    pub fn proposal(&self, state: &WindowState, lease: WindowLease) -> (r: Result<
        WindowProposal,
        Error,
    >)
        requires
            state.inv(),
        ensures
            match r {
                Ok(proposal) => {
                    &&& self.output_error(state) is None
                    &&& proposal.lease == lease
                    &&& proposal.layer == self.layer
                    &&& self.prepared->Some_0.chunks@.contains(
                        (WindowChunk {
                            lease,
                            position: proposal.position,
                            tokens: proposal.tokens,
                        }),
                    )
                },
                Err(e) => match self.output_error(state) {
                    Some(reason) => e == reason,
                    None => e == Error::WindowTransaction && forall|i: int|
                        0 <= i < self.prepared->Some_0.chunks@.len() ==> (
                        #[trigger] self.prepared->Some_0.chunks@[i]).lease != lease,
                },
            },
    {
        let prepared: &WindowPrepared = match &self.prepared {
            None => {
                return Err(Error::WindowOutputIncomplete);
            },
            Some(prepared) => prepared,
        };
        match self.validate_batch(state, &prepared.chunks) {
            Err(e) => {
                return Err(e);
            },
            Ok(_) => {},
        }
        let mut i: usize = 0;
        while i < prepared.chunks.len()
            invariant
                i <= prepared.chunks@.len(),
                self.prepared == Some(*prepared),
                self.output_error(state) is None,
                forall|k: int| 0 <= k < i ==> (#[trigger] prepared.chunks@[k]).lease != lease,
            decreases prepared.chunks@.len() - i,
        {
            let chunk = prepared.chunks[i];
            if chunk.lease == lease {
                assert(prepared.chunks@[i as int] == chunk);
                return Ok(
                    WindowProposal {
                        lease,
                        layer: self.layer,
                        position: chunk.position,
                        tokens: chunk.tokens,
                    },
                );
            }
            i = i + 1;
        }
        Err(Error::WindowTransaction)
    }
}

fn same_tokens(left: &[u32], right: &[u32]) -> (r: bool)
    ensures
        r == (left@ == right@),
{
    if left.len() != right.len() {
        return false;
    }
    let mut i: usize = 0;
    while i < left.len()
        invariant
            i <= left@.len() == right@.len(),
            forall|k: int| 0 <= k < i ==> left@[k] == right@[k],
        decreases left@.len() - i,
    {
        if left[i] != right[i] {
            return false;
        }
        i = i + 1;
    }
    assert(left@ =~= right@);
    true
}

} // verus!
