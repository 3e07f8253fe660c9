//! Retained prefixes of whole requests. Source pages are shared; only windows and
//! carried rows are copied. `window_bytes` is the size of one kept window.
use crate::backbone_cache::copies;
use crate::backbone_cache;
use crate::backbone_cache::{BackboneCache, CacheLease, Request, SnapshotPool, LAYERS, SOURCE_COUNT};
use crate::cache_phase::CachePhase;
use crate::compressor::prefix;
use crate::compressor::prefix::{CarryBuffers, CompressorPrefix, COMPRESSOR_PREFIX_BYTES};
use crate::compressor::{CompressorLease, CompressorState};
use crate::device::{DeviceBuffer, DeviceCopy};
use crate::error::Error;
use crate::source_cache;
use crate::tally;
use crate::window::WindowPrefix;
use vstd::prelude::*;

verus! {

/// A committed frontier of one request: shared source pages, and a tail that
/// holds the windows and the carried rows.
pub struct BackbonePrefix {
    pub owner: u64,
    pub end: u64,
    pub tail: DeviceBuffer,
    pub windows: Vec<WindowPrefix>,
    pub sources: Vec<CompressorPrefix>,
}

/// Bytes of a prefix's tail.
pub open spec fn tail_bytes(window_bytes: int) -> int {
    40 * window_bytes + 4 * 4096
}

/// Where a prefix keeps window `l`.
pub open spec fn window_part(tail: DeviceBuffer, window_bytes: int, l: int) -> DeviceBuffer {
    tail.slice_of(l * window_bytes, window_bytes)
}

/// Where the rings of the first `n` windows are kept.
pub open spec fn window_parts(tail: DeviceBuffer, window_bytes: int, n: int) -> Seq<DeviceBuffer> {
    Seq::new(n as nat, |l: int| window_part(tail, window_bytes, l))
}

/// Where a prefix keeps the carried row of source `i`.
pub open spec fn carry_part(tail: DeviceBuffer, window_bytes: int, i: int) -> DeviceBuffer {
    tail.slice_of(40 * window_bytes + i * 4096, 4096)
}

impl BackbonePrefix {
    pub fn device_bytes(window_bytes: usize) -> (r: Result<usize, Error>)
        ensures
            match r {
                Ok(bytes) => bytes == tail_bytes(window_bytes as int),
                Err(e) => e == Error::BudgetOverflow && tail_bytes(window_bytes as int)
                    > usize::MAX,
            },
    {
        match window_bytes.checked_mul(40) {
            None => Err(Error::BudgetOverflow),
            Some(windows) => match windows.checked_add(4 * COMPRESSOR_PREFIX_BYTES) {
                None => Err(Error::BudgetOverflow),
                Some(total) => Ok(total),
            },
        }
    }

    pub fn end(&self) -> (r: u64)
        ensures
            r == self.end,
    {
        self.end
    }

    /// Owner, frontier, tail and the parts of each component, for the host cache.
    pub fn parts(&self) -> (r: (u64, u64, DeviceBuffer, &[WindowPrefix], &[CompressorPrefix]))
        ensures
            r.0 == self.owner,
            r.1 == self.end,
            r.2 == self.tail,
            r.3@ == self.windows@,
            r.4@ == self.sources@,
    {
        (self.owner, self.end, self.tail, self.windows.as_slice(), self.sources.as_slice())
    }

    /// Rebuilds from a host copy; `tail` holds the copied bytes.
    pub fn from_parts(
        owner: u64,
        end: u64,
        tail: DeviceBuffer,
        windows: Vec<WindowPrefix>,
        sources: Vec<CompressorPrefix>,
    ) -> (r: Self)
        ensures
            r == (BackbonePrefix { owner, end, tail, windows, sources }),
    {
        BackbonePrefix { owner, end, tail, windows, sources }
    }
}

/// What is to be copied for a prefix: each window as a whole, and carried rows.
pub struct PrefixCopies {
    /// The tail's part for each window, from the first layer on.
    pub windows: Vec<DeviceBuffer>,
    pub carries: Vec<DeviceCopy>,
}

/// The carry buffers match the sources.
pub open spec fn carries_serve(
    sources: Seq<CompressorState>,
    carries: Seq<Option<CarryBuffers>>,
) -> bool {
    &&& carries.len() == SOURCE_COUNT
    &&& forall|i: int|
        0 <= i < SOURCE_COUNT ==> (#[trigger] sources[i]).carried_by(carries[i])
}

/// The copies of the carried rows of the first `n` sources at `slot`.
pub open spec fn carried_copies(
    sources: Seq<CompressorState>,
    carries: Seq<Option<CarryBuffers>>,
    tail: DeviceBuffer,
    window_bytes: int,
    slot: int,
    end: u64,
    save: bool,
    n: int,
) -> Seq<DeviceCopy>
    decreases n,
{
    if n <= 0 {
        Seq::empty()
    } else {
        carried_copies(sources, carries, tail, window_bytes, slot, end, save, n - 1) + if end % 2
            == 1 && sources[n - 1].step() == 2 {
            prefix::carry_copies(
                carries[n - 1]->Some_0,
                slot,
                carry_part(tail, window_bytes, n - 1),
                save,
            )
        } else {
            Seq::empty()
        }
    }
}

impl BackboneCache {
    /// Sets up the storage of retained prefixes, before any request.
    pub fn install_prefix_pool(&mut self, pool: SnapshotPool) -> (r: Result<(), Error>)
        requires
            old(self).inv(),
        ensures
            final(self).inv(),
            ({
                let unused = old(self).prefix_pool is None && forall|s: int|
                    0 <= s < old(self).requests@.len() ==> (#[trigger] old(self).requests@[s]) is None;
                match r {
                    Ok(_) => unused && *final(self) == (BackboneCache {
                        prefix_pool: Some(pool),
                        ..*old(self)
                    }),
                    Err(e) => !unused && e == Error::SnapshotInstall && *final(self) == *old(self),
                }
            }),
    {
        if self.prefix_pool.is_some() {
            return Err(Error::SnapshotInstall);
        }
        let mut s: usize = 0;
        while s < self.requests.len()
            invariant
                s <= self.requests@.len(),
                *self == *old(self),
                self.inv(),
                self.prefix_pool is None,
                forall|k: int| 0 <= k < s ==> (#[trigger] self.requests@[k]) is None,
            decreases self.requests@.len() - s,
        {
            if self.requests[s].is_some() {
                return Err(Error::SnapshotInstall);
            }
            s = s + 1;
        }
        let ghost before = *self;
        self.prefix_pool = Some(pool);
        proof {
            self.lemma_leases_stay(&before);
        }
        Ok(())
    }

    /// Why source `i` does not give its pages, if it does not.
    pub open spec fn source_retain_error(&self, request: &Request, i: int) -> Option<Error> {
        let state = self.sources@[i];
        let slot = request.sources@[i].slot as int;
        if state.index.writing@[slot] {
            Some(Error::PendingAppend)
        } else if state.slots@[slot].end as int / state.step() > state.index.rows@[slot] {
            Some(Error::PrefixExceedsTable)
        } else {
            None
        }
    }

    pub open spec fn first_retain_error(&self, request: &Request, n: int) -> Option<Error>
        decreases n,
    {
        if n <= 0 {
            None
        } else {
            match self.first_retain_error(request, n - 1) {
                Some(e) => Some(e),
                None => self.source_retain_error(request, n - 1),
            }
        }
    }

    proof fn lemma_retain_error_stays(&self, request: &Request, n: int, m: int)
        requires
            n <= m,
            self.first_retain_error(request, n) is Some,
        ensures
            self.first_retain_error(request, m) == self.first_retain_error(request, n),
        decreases m - n,
    {
        if n < m && m > 0 {
            self.lemma_retain_error_stays(request, n, m - 1);
        }
    }

    pub proof fn lemma_retainable(&self, request: &Request, n: int, i: int)
        requires
            self.first_retain_error(request, n) is None,
            0 <= i < n,
        ensures
            self.source_retain_error(request, i) is None,
        decreases n,
    {
        if i < n - 1 {
            self.lemma_retainable(request, n - 1, i);
        }
    }

    /// Why the request's prefix cannot be kept, if it cannot.
    pub open spec fn prefix_error(&self, lease: CacheLease, window_bytes: usize, budget: usize) -> Option<
        Error,
    > {
        let request = self.live(lease);
        if self.history_error(lease) is Some {
            self.history_error(lease)
        } else if !(request.end > 0 && request.phase == CachePhase::Full
            && request.publication@.len() == 0) {
            Some(Error::PrefixFrontier)
        } else if tail_bytes(window_bytes as int) > usize::MAX {
            Some(Error::BudgetOverflow)
        } else if tail_bytes(window_bytes as int) > budget {
            Some(Error::PrefixBudget)
        } else if exists|l: int|
            0 <= l < LAYERS && #[trigger] self.windows@[l].writing@[lease.slot as int] {
            Some(Error::WindowPending)
        } else {
            self.first_retain_error(&request, 4)
        }
    }

    /// The prefix is the request's committed frontier.
    pub open spec fn is_prefix(&self, lease: CacheLease, kept: BackbonePrefix, tail: DeviceBuffer) -> bool {
        let slot = lease.slot as int;
        &&& kept.owner == self.owner
        &&& kept.end == self.live(lease).end
        &&& kept.tail == tail
        &&& kept.windows@.len() == LAYERS
        &&& kept.sources@.len() == SOURCE_COUNT
        &&& forall|l: int|
            0 <= l < LAYERS ==> (#[trigger] kept.windows@[l]) == (WindowPrefix {
                owner: self.windows@[l].owner,
                end: self.windows@[l].slots@[slot].end,
            })
        &&& forall|i: int|
            0 <= i < SOURCE_COUNT ==> self.is_source_prefix(i, slot, #[trigger] kept.sources@[i])
    }

    pub open spec fn is_source_prefix(&self, i: int, slot: int, kept: CompressorPrefix) -> bool {
        let state = self.sources@[i];
        let rows = state.slots@[slot].end as int / state.step();
        &&& kept.owner == state.owner
        &&& kept.end == state.slots@[slot].end
        &&& kept.source.pool == state.index.identity
        &&& kept.source.rows == rows
        &&& kept.source.pages@ == state.index.pages@[slot]@.take(source_cache::page_count(rows))
    }

    /// Source `i` keeps the pages of `kept` and is otherwise as in `before`.
    pub open spec fn source_retained(&self, before: &Self, i: int, kept: CompressorPrefix) -> bool {
        let now = self.sources@[i];
        let was = before.sources@[i];
        &&& now.slots@ == was.slots@
        &&& now.same_identity(&was)
        &&& now.index.only_references_changed(&was.index)
        &&& now.index.holds(&kept.source)
        &&& forall|p: u32|
            p < was.index.pool.references@.len() ==> now.index.retained(p) == was.index.retained(p)
                + #[trigger] tally::occurrences(kept.source.pages@, p)
    }

    fn check_prefix(&self, lease: CacheLease, window_bytes: usize, budget: usize) -> (r: Result<
        (),
        Error,
    >)
        requires
            self.inv(),
        ensures
            match r {
                Ok(_) => self.prefix_error(lease, window_bytes, budget) is None,
                Err(e) => self.prefix_error(lease, window_bytes, budget) == Some(e),
            },
    {
        let end: u64 = match self.committed_end(lease) {
            Err(e) => {
                return Err(e);
            },
            Ok(end) => end,
        };
        let request = match self.request(lease) {
            Err(e) => {
                return Err(e);
            },
            Ok(request) => request,
        };
        assert(self.leases_wf(lease.slot as int, request));
        if !(end > 0 && request.phase == CachePhase::Full && request.publication.len() == 0) {
            return Err(Error::PrefixFrontier);
        }
        match BackbonePrefix::device_bytes(window_bytes) {
            Err(e) => {
                return Err(e);
            },
            Ok(bytes) => {
                if bytes > budget {
                    return Err(Error::PrefixBudget);
                }
            },
        }
        let mut l: usize = 0;
        while l < LAYERS
            invariant
                l <= LAYERS,
                self.inv(),
                self.history_error(lease) is None,
                *request == self.live(lease),
                request.end > 0 && request.phase == CachePhase::Full && request.publication@.len()
                    == 0,
                tail_bytes(window_bytes as int) <= usize::MAX,
                tail_bytes(window_bytes as int) <= budget,
                forall|k: int|
                    0 <= k < l ==> !#[trigger] self.windows@[k].writing@[lease.slot as int],
            decreases LAYERS - l,
        {
            if self.windows[l].writing[lease.slot] {
                assert(self.windows@[l as int].writing@[lease.slot as int]);
                return Err(Error::WindowPending);
            }
            l = l + 1;
        }
        let mut i: usize = 0;
        while i < SOURCE_COUNT
            invariant
                i <= SOURCE_COUNT,
                self.inv(),
                self.history_error(lease) is None,
                *request == self.live(lease),
                self.leases_wf(lease.slot as int, request),
                request.end > 0 && request.phase == CachePhase::Full && request.publication@.len()
                    == 0,
                tail_bytes(window_bytes as int) <= usize::MAX,
                tail_bytes(window_bytes as int) <= budget,
                forall|k: int|
                    0 <= k < LAYERS ==> !#[trigger] self.windows@[k].writing@[lease.slot as int],
                self.first_retain_error(request, i as int) is None,
            decreases SOURCE_COUNT - i,
        {
            let state = &self.sources[i];
            proof {
                if self.first_retain_error(request, i + 1) is Some {
                    self.lemma_retain_error_stays(request, i + 1, 4);
                }
                assert(request.sources@[i as int].slot == lease.slot);
            }
            if state.index.writing[lease.slot] {
                return Err(Error::PendingAppend);
            }
            let rows: usize = state.committed_rows(lease.slot);
            if rows > state.index.rows[lease.slot] {
                return Err(Error::PrefixExceedsTable);
            }
            i = i + 1;
        }
        Ok(())
    }

    /// Snapshots a fully committed request, after its producers and consumers have
    /// drained. The caller then makes the copies.
    pub fn retain_prefix(
        &mut self,
        lease: CacheLease,
        budget: usize,
        tail: DeviceBuffer,
        window_bytes: usize,
        carries: &[Option<CarryBuffers>],
    ) -> (r: Result<(BackbonePrefix, PrefixCopies), Error>)
        requires
            old(self).inv(),
            tail.wf(),
            tail_bytes(window_bytes as int) <= tail.bytes,
            carries_serve(old(self).sources@, carries@),
            old(self).identity_error(lease) is None ==> forall|i: int|
                0 <= i < SOURCE_COUNT ==> (#[trigger] old(self).sources@[i]).index.references_fit(
                    old(self).sources@[i].index.pages@[lease.slot as int]@,
                ),
        ensures
            final(self).inv(),
            match r {
                Err(e) => old(self).prefix_error(lease, window_bytes, budget) == Some(e)
                    && *final(self) == *old(self),
                Ok((kept, copies)) => {
                    &&& old(self).prefix_error(lease, window_bytes, budget) is None
                    &&& old(self).is_prefix(lease, kept, tail)
                    &&& final(self).same_books(old(self))
                    &&& final(self).poisoned == old(self).poisoned
                    &&& final(self).windows@ == old(self).windows@
                    &&& forall|i: int|
                        0 <= i < SOURCE_COUNT ==> final(self).source_retained(
                            old(self),
                            i,
                            #[trigger] kept.sources@[i],
                        )
                    &&& copies.windows@ == window_parts(tail, window_bytes as int, 40)
                    &&& copies.carries@ == carried_copies(
                        old(self).sources@,
                        carries@,
                        tail,
                        window_bytes as int,
                        lease.slot as int,
                        kept.end,
                        true,
                        4,
                    )
                },
            },
    {
        match self.check_prefix(lease, window_bytes, budget) {
            Err(e) => {
                return Err(e);
            },
            Ok(_) => {},
        }
        let slot: usize = lease.slot;
        let (end, held): (u64, Vec<CompressorLease>) = match &self.requests[slot] {
            Some(request) => (request.end, copy_leases(&request.sources)),
            None => {
                assert(false);
                return Err(Error::CacheRequestReleased);
            },
        };
        let ghost request = self.live(lease);
        assert(self.leases_wf(slot as int, &request));
        let mut windows: Vec<WindowPrefix> = Vec::new();
        let mut parts: Vec<DeviceBuffer> = Vec::new();
        let mut l: usize = 0;
        while l < LAYERS
            invariant
                l <= LAYERS,
                self.inv(),
                *self == *old(self),
                slot < self.requests@.len(),
                tail.wf(),
                tail_bytes(window_bytes as int) <= tail.bytes,
                windows@.len() == l,
                forall|k: int|
                    0 <= k < l ==> (#[trigger] windows@[k]) == (WindowPrefix {
                        owner: self.windows@[k].owner,
                        end: self.windows@[k].slots@[slot as int].end,
                    }),
                parts@ == Seq::new(l as nat, |k: int| window_part(tail, window_bytes as int, k)),
            decreases LAYERS - l,
        {
            windows.push(
                WindowPrefix {
                    owner: self.windows[l].owner,
                    end: self.windows[l].slots[slot].end,
                },
            );
            assert(l * window_bytes + window_bytes <= 40 * window_bytes) by (nonlinear_arith)
                requires
                    l < 40,
            ;
            parts.push(tail.slice(l * window_bytes, window_bytes));
            l = l + 1;
        }
        let mut sources: Vec<CompressorPrefix> = Vec::new();
        let mut moves: Vec<DeviceCopy> = Vec::new();
        let mut i: usize = 0;
        while i < SOURCE_COUNT
            invariant
                i <= SOURCE_COUNT,
                old(self).inv(),
                self.inv(),
                self.same_books(old(self)),
                self.poisoned == old(self).poisoned,
                self.windows@ == old(self).windows@,
                slot == lease.slot,
                slot < self.requests@.len(),
                request == old(self).live(lease),
                old(self).history_error(lease) is None,
                old(self).leases_wf(slot as int, &request),
                held@ == request.sources@,
                end == request.end,
                request.publication@.len() == 0,
                old(self).first_retain_error(&request, 4) is None,
                tail.wf(),
                tail_bytes(window_bytes as int) <= tail.bytes,
                carries_serve(old(self).sources@, carries@),
                forall|k: int|
                    0 <= k < SOURCE_COUNT ==> (
                    #[trigger] old(self).sources@[k]).index.references_fit(
                        old(self).sources@[k].index.pages@[slot as int]@,
                    ),
                sources@.len() == i,
                forall|k: int|
                    0 <= k < i ==> old(self).is_source_prefix(
                        k,
                        slot as int,
                        #[trigger] sources@[k],
                    ),
                forall|k: int|
                    0 <= k < i ==> self.source_retained(old(self), k, #[trigger] sources@[k]),
                forall|k: int|
                    i <= k < SOURCE_COUNT ==> #[trigger] self.sources@[k] == old(self).sources@[k],
                moves@ == carried_copies(
                    old(self).sources@,
                    carries@,
                    tail,
                    window_bytes as int,
                    slot as int,
                    end,
                    true,
                    i as int,
                ),
            decreases SOURCE_COUNT - i,
        {
            let ghost between = *self;
            proof {
                assert(self.sources@[i as int] == old(self).sources@[i as int]);
                assert(old(self).sources@[i as int].carried_by(carries@[i as int]));
                old(self).lemma_history(&request, 0, i as int);
                old(self).lemma_retainable(&request, 4, i as int);
                assert(request.sources@[i as int].slot == slot);
                assert(request.source_end(i as int) == request.end);
            }
            let part = tail.slice(
                40 * window_bytes + i * COMPRESSOR_PREFIX_BYTES,
                COMPRESSOR_PREFIX_BYTES,
            );
            let kept = self.sources[i].retain_prefix(held[i], &carries[i], &part);
            match kept {
                Err(e) => {
                    assert(false);
                    return Err(e);
                },
                Ok((saved, mut copies)) => {
                    let ghost one = copies@;
                    let ghost before = moves@;
                    moves.append(&mut copies);
                    sources.push(saved);
                    proof {
                        assert(moves@ =~= before + one);
                        assert forall|k: int| 0 <= k < SOURCE_COUNT && k != i implies #[trigger] self.sources@[k]
                            == between.sources@[k] by {}
                        assert(self.components_wf()) by {
                            assert forall|k: int| 0 <= k < SOURCE_COUNT implies {
                                &&& (#[trigger] self.sources@[k]).inv()
                                &&& self.sources@[k].layer == backbone_cache::source_layer(k)
                                &&& self.sources@[k].slot_count == self.requests@.len()
                            } by {
                                assert(between.sources@[k].inv());
                            }
                        }
                        assert forall|k: int| 0 <= k < SOURCE_COUNT implies (
                        #[trigger] self.sources@[k]).owner == between.sources@[k].owner by {}
                        assert(copies::keeps_retained(
                            &self.sources@[i as int],
                            &between.sources@[i as int],
                        )) by {
                            let now = self.sources@[i as int].index;
                            let was = between.sources@[i as int].index;
                            assert forall|page: u32|
                                page < was.pool.references@.len() implies now.retained(page)
                                >= #[trigger] was.retained(page) by {
                                assert(tally::occurrences(saved.source.pages@, page) >= 0);
                            }
                        }
                        copies::lemma_copies_stay_at(
                            self.prefix_copies@,
                            between.sources@,
                            self.sources@,
                            i as int,
                        );
                        self.lemma_leases_stay(&between);
                        assert forall|k: int| 0 <= k < i + 1 implies self.source_retained(
                            old(self),
                            k,
                            #[trigger] sources@[k],
                        ) by {
                            if k < i {
                                assert(between.source_retained(old(self), k, sources@[k]));
                                assert(self.sources@[k] == between.sources@[k]);
                            }
                        }
                    }
                },
            }
            i = i + 1;
        }
        let kept = BackbonePrefix { owner: self.owner, end, tail, windows, sources };
        proof {
            assert(parts@ =~= Seq::new(40, |k: int| window_part(tail, window_bytes as int, k)));
        }
        Ok((kept, PrefixCopies { windows: parts, carries: moves }))
    }
}

fn copy_leases(leases: &[CompressorLease]) -> (r: Vec<CompressorLease>)
    ensures
        r@ == leases@,
{
    let mut out: Vec<CompressorLease> = Vec::new();
    let mut i: usize = 0;
    while i < leases.len()
        invariant
            i <= leases@.len(),
            out@ == leases@.take(i as int),
        decreases leases@.len() - i,
    {
        out.push(leases[i]);
        i = i + 1;
        assert(out@ =~= leases@.take(i as int));
    }
    assert(out@ =~= leases@);
    out
}

} // verus!
