//! Giving a fresh request the frontier of a retained prefix, in two steps: the
//! components take their frontiers, and once the device has made the copies the
//! request does. A failure half way ends the request: no mixed frontier can be
//! seen.
use crate::backbone_cache::copies;
use crate::backbone_cache;
use crate::backbone_cache::prefix;
use crate::backbone_cache::prefix::{BackbonePrefix, PrefixCopies};
use crate::backbone_cache::release;
use crate::backbone_cache::{BackboneCache, CacheLease, Request, LAYERS, SOURCE_COUNT};
use crate::cache_phase::{CachePhase, ENCODER_LAYERS, WINDOW_ROWS};
use crate::compressor::prefix::{CarryBuffers, CompressorPrefix, COMPRESSOR_PREFIX_BYTES};
use crate::compressor::{CompressorLease, CompressorState, MAX_CONTEXT};
use crate::device::{DeviceBuffer, DeviceCopy};
use crate::error::Error;
use crate::source_cache;
use crate::window::{WindowLease, WindowPrefix, WindowSlot, WindowState};
use vstd::prelude::*;

verus! {

/// The window at `slot` ends at `end`; the other slots are as in `was`.
pub open spec fn window_moved(now: &WindowState, was: &WindowState, slot: int, end: u64) -> bool {
    &&& now.same_rings(was)
    &&& now.slots@ == was.slots@.update(slot, WindowSlot { end, ..was.slots@[slot] })
}

/// The copies that bring back the carried rows of the first `n` sources.
pub open spec fn restored_copies(
    sources: Seq<CompressorState>,
    carries: Seq<Option<CarryBuffers>>,
    saved: &BackbonePrefix,
    window_bytes: int,
    slot: int,
    n: int,
) -> Seq<DeviceCopy>
    decreases n,
{
    if n <= 0 {
        Seq::empty()
    } else {
        restored_copies(sources, carries, saved, window_bytes, slot, n - 1)
            + if saved.sources@[n - 1].end % 2 == 1 && sources[n - 1].step() == 2 {
            crate::compressor::prefix::carry_copies(
                carries[n - 1]->Some_0,
                slot,
                prefix::carry_part(saved.tail, window_bytes, n - 1),
                false,
            )
        } else {
            Seq::empty()
        }
    }
}

/// A restoration whose copies are under way.
#[derive(Debug, Clone, Copy)]
pub struct PendingRestore {
    pub lease: CacheLease,
    /// Where the request will stand, and in which phase.
    pub end: u64,
    pub phase: CachePhase,
}

/// The requests, pages and rows of all slots in use but `slot` are as in `was`, and
/// so are pending appends and the references of retained prefixes.
pub open spec fn served_slots_kept(now: &CompressorState, was: &CompressorState, slot: int) -> bool {
    &&& forall|s: int|
        0 <= s < was.slot_count && s != slot ==> {
            &&& (#[trigger] now.slots@[s]) == was.slots@[s]
            &&& now.index.tables()[s] == was.index.tables()[s]
            &&& now.index.rows@[s] == was.index.rows@[s]
        }
    &&& now.index.same_shape(&was.index)
    &&& now.index.plans == was.index.plans
    &&& now.index.pool.references@.len() == was.index.pool.references@.len()
    &&& forall|page: u32|
        page < was.index.pool.references@.len() ==> now.index.retained(page)
            == #[trigger] was.index.retained(page)
}

impl BackboneCache {
    /// Nothing has been committed to the request, and nothing is under way.
    pub open spec fn is_fresh(&self, lease: CacheLease) -> bool {
        let request = self.live(lease);
        &&& request.end == 0
        &&& request.version == 0
        &&& request.phase == CachePhase::Full
        &&& request.publication@.len() == 0
    }

    /// A prefix of this bank is complete, and its pages are kept.
    pub open spec fn owns(&self, saved: &BackbonePrefix) -> bool {
        saved.owner == self.owner ==> {
            &&& saved.windows@.len() == LAYERS
            &&& saved.sources@.len() == SOURCE_COUNT
            &&& forall|i: int|
                0 <= i < SOURCE_COUNT ==> {
                    let source = (#[trigger] saved.sources@[i]);
                    &&& source.end <= MAX_CONTEXT
                    &&& self.sources@[i].index.holds(&source.source)
                    &&& self.sources@[i].index.references_fit(source.source.pages@)
                }
        }
    }

    /// The first of the first `n` windows that does not take its saved frontier.
    pub open spec fn first_window_restore_error(
        &self,
        request: &Request,
        saved: Seq<WindowPrefix>,
        n: int,
    ) -> Option<Error>
        decreases n,
    {
        if n <= 0 {
            None
        } else {
            match self.first_window_restore_error(request, saved, n - 1) {
                Some(e) => Some(e),
                None => self.windows@[n - 1].restore_error(
                    request.windows@[n - 1],
                    saved[n - 1],
                ),
            }
        }
    }

    proof fn lemma_window_restore_stays(
        &self,
        request: &Request,
        saved: Seq<WindowPrefix>,
        n: int,
        m: int,
    )
        requires
            n <= m,
            self.first_window_restore_error(request, saved, n) is Some,
        ensures
            self.first_window_restore_error(request, saved, m) == self.first_window_restore_error(
                request,
                saved,
                n,
            ),
        decreases m - n,
    {
        if n < m && m > 0 {
            self.lemma_window_restore_stays(request, saved, n, m - 1);
        }
    }

    /// The first of the first `n` sources that does not take its saved frontier.
    pub open spec fn first_source_restore_error(
        &self,
        request: &Request,
        saved: Seq<CompressorPrefix>,
        tail: DeviceBuffer,
        window_bytes: int,
        n: int,
    ) -> Option<Error>
        decreases n,
    {
        if n <= 0 {
            None
        } else {
            match self.first_source_restore_error(request, saved, tail, window_bytes, n - 1) {
                Some(e) => Some(e),
                None => self.sources@[n - 1].restore_error(
                    request.sources@[n - 1],
                    &saved[n - 1],
                    prefix::carry_part(tail, window_bytes, n - 1),
                ),
            }
        }
    }

    proof fn lemma_source_restore_stays(
        &self,
        request: &Request,
        saved: Seq<CompressorPrefix>,
        tail: DeviceBuffer,
        window_bytes: int,
        n: int,
        m: int,
    )
        requires
            n <= m,
            self.first_source_restore_error(request, saved, tail, window_bytes, n) is Some,
        ensures
            self.first_source_restore_error(request, saved, tail, window_bytes, m)
                == self.first_source_restore_error(request, saved, tail, window_bytes, n),
        decreases m - n,
    {
        if n < m && m > 0 {
            self.lemma_source_restore_stays(request, saved, tail, window_bytes, n, m - 1);
        }
    }

    /// The first of the first `n` sources that does not take the first `end`
    /// tokens of its saved frontier.
    pub open spec fn first_compressed_restore_error(
        &self,
        request: &Request,
        saved: Seq<CompressorPrefix>,
        end: u64,
        n: int,
    ) -> Option<Error>
        decreases n,
    {
        if n <= 0 {
            None
        } else {
            match self.first_compressed_restore_error(request, saved, end, n - 1) {
                Some(e) => Some(e),
                None => self.sources@[n - 1].compressed_restore_error(
                    request.sources@[n - 1],
                    &saved[n - 1],
                    end,
                ),
            }
        }
    }

    proof fn lemma_compressed_restore_stays(
        &self,
        request: &Request,
        saved: Seq<CompressorPrefix>,
        end: u64,
        n: int,
        m: int,
    )
        requires
            n <= m,
            self.first_compressed_restore_error(request, saved, end, n) is Some,
        ensures
            self.first_compressed_restore_error(request, saved, end, m)
                == self.first_compressed_restore_error(request, saved, end, n),
        decreases m - n,
    {
        if n < m && m > 0 {
            self.lemma_compressed_restore_stays(request, saved, end, n, m - 1);
        }
    }

    /// The first of the layers from `first` up to `n` whose window is not fresh.
    pub open spec fn first_replay_error(&self, request: &Request, first: int, n: int) -> Option<Error>
        decreases n - first,
    {
        if n <= first {
            None
        } else {
            match self.first_replay_error(request, first, n - 1) {
                Some(e) => Some(e),
                None => self.windows@[n - 1].fresh_error(request.windows@[n - 1]),
            }
        }
    }

    proof fn lemma_replay_error_stays(&self, request: &Request, first: int, n: int, m: int)
        requires
            n <= m,
            self.first_replay_error(request, first, n) is Some,
        ensures
            self.first_replay_error(request, first, m) == self.first_replay_error(
                request,
                first,
                n,
            ),
        decreases m - n,
    {
        if n < m && m > first {
            self.lemma_replay_error_stays(request, first, n, m - 1);
        }
    }

    /// The components differ from `before` at `slot` only.
    pub open spec fn others_kept(&self, before: &Self, slot: int) -> bool {
        &&& forall|l: int|
            0 <= l < LAYERS ==> {
                &&& (#[trigger] self.windows@[l]).same_rings(&before.windows@[l])
                &&& self.windows@[l].slots@.len() == before.windows@[l].slots@.len()
                &&& forall|s: int|
                    0 <= s < before.windows@[l].slots@.len() && s != slot
                        ==> #[trigger] self.windows@[l].slots@[s] == before.windows@[l].slots@[s]
            }
        &&& forall|i: int|
            0 <= i < SOURCE_COUNT ==> {
                &&& (#[trigger] self.sources@[i]).same_identity(&before.sources@[i])
                &&& served_slots_kept(&self.sources@[i], &before.sources@[i], slot)
                &&& self.sources@[i].index.writing@ == before.sources@[i].index.writing@
            }
    }

    /// The components serve the same request at `slot` as in `before`.
    pub open spec fn holders_kept(&self, before: &Self, slot: int) -> bool {
        &&& forall|l: int|
            0 <= l < LAYERS ==> {
                &&& (#[trigger] self.windows@[l]).slots@[slot].request
                    == before.windows@[l].slots@[slot].request
                &&& self.windows@[l].slots@[slot].generation
                    == before.windows@[l].slots@[slot].generation
            }
        &&& forall|i: int|
            0 <= i < SOURCE_COUNT ==> {
                &&& (#[trigger] self.sources@[i]).slots@[slot].request
                    == before.sources@[i].slots@[slot].request
                &&& self.sources@[i].slots@[slot].generation
                    == before.sources@[i].slots@[slot].generation
            }
    }

    /// Every component that served the request has let it go; the pages of its
    /// sources are detached.
    pub open spec fn holders_gone(&self, before: &Self, lease: CacheLease) -> bool {
        let slot = lease.slot as int;
        let request = before.live(lease);
        &&& forall|l: int|
            0 <= l < LAYERS ==> {
                &&& (#[trigger] self.windows@[l]).slots@[slot].generation
                    == before.windows@[l].slots@[slot].generation
                &&& self.windows@[l].slots@[slot].request == if before.windows@[l].lease_error(
                    request.windows@[l],
                ) is None {
                    None
                } else {
                    before.windows@[l].slots@[slot].request
                }
            }
        &&& forall|i: int|
            0 <= i < SOURCE_COUNT ==> {
                &&& (#[trigger] self.sources@[i]).slots@[slot].generation
                    == before.sources@[i].slots@[slot].generation
                &&& if before.sources@[i].lease_error(request.sources@[i]) is None {
                    &&& self.sources@[i].slots@[slot].request is None
                    &&& self.sources@[i].index.tables()[slot].len() == 0
                    &&& self.sources@[i].index.rows@[slot] == 0
                } else {
                    self.sources@[i].slots@[slot].request == before.sources@[i].slots@[slot].request
                }
            }
    }

    /// The request has ended, unless something is being written for it: then it
    /// stays, and its components serve it. Nothing is changed at other slots.
    pub open spec fn given_up(&self, before: &Self, lease: CacheLease) -> bool {
        let slot = lease.slot as int;
        &&& self.owner == before.owner
        &&& self.library == before.library
        &&& self.generations@ == before.generations@
        &&& self.poisoned == before.poisoned
        &&& self.prefix_pool == before.prefix_pool
        &&& self.prefix_copies@ == before.prefix_copies@
        &&& self.others_kept(before, slot)
        &&& match before.release_error(lease) {
            Some(_) => {
                &&& self.requests@ == before.requests@
                &&& self.holders_kept(before, slot)
            },
            None => {
                &&& self.requests@ == before.requests@.update(slot, None)
                &&& self.holders_gone(before, lease)
            },
        }
    }

    fn restore_windows(&mut self, lease: CacheLease, saved: &[WindowPrefix], count: usize) -> (r: Result<
        (),
        Error,
    >)
        requires
            old(self).inv(),
            old(self).request_error(lease) is None,
            saved@.len() == LAYERS,
            count <= LAYERS,
        ensures
            final(self).inv(),
            final(self).same_books(old(self)),
            final(self).poisoned == old(self).poisoned,
            final(self).sources@ == old(self).sources@,
            final(self).others_kept(old(self), lease.slot as int),
            final(self).holders_kept(old(self), lease.slot as int),
            ({
                let request = old(self).live(lease);
                match r {
                    Err(e) => old(self).first_window_restore_error(&request, saved@, count as int)
                        == Some(e),
                    Ok(_) => {
                        &&& old(self).first_window_restore_error(
                            &request,
                            saved@,
                            count as int,
                        ) is None
                        &&& forall|l: int|
                            0 <= l < count ==> window_moved(
                                #[trigger] &final(self).windows@[l],
                                &old(self).windows@[l],
                                lease.slot as int,
                                saved@[l].end,
                            )
                        &&& forall|l: int|
                            count <= l < LAYERS ==> #[trigger] final(self).windows@[l] == old(self).windows@[l]
                    },
                }
            }),
    {
        let slot: usize = lease.slot;
        let ghost request = self.live(lease);
        assert(self.leases_wf(slot as int, &request));
        let mut l: usize = 0;
        while l < count
            invariant
                l <= count <= LAYERS,
                old(self).inv(),
                self.inv(),
                slot == lease.slot,
                slot < self.requests@.len(),
                old(self).request_error(lease) is None,
                request == old(self).live(lease),
                old(self).leases_wf(slot as int, &request),
                saved@.len() == LAYERS,
                self.same_books(old(self)),
                self.poisoned == old(self).poisoned,
                self.sources@ == old(self).sources@,
                self.others_kept(old(self), slot as int),
                self.holders_kept(old(self), slot as int),
                old(self).first_window_restore_error(&request, saved@, l as int) is None,
                forall|k: int|
                    0 <= k < l ==> window_moved(
                        #[trigger] &self.windows@[k],
                        &old(self).windows@[k],
                        slot as int,
                        saved@[k].end,
                    ),
                forall|k: int|
                    l <= k < LAYERS ==> #[trigger] self.windows@[k] == old(self).windows@[k],
            decreases count - l,
        {
            let ghost between = *self;
            proof {
                if old(self).first_window_restore_error(&request, saved@, l + 1) is Some {
                    old(self).lemma_window_restore_stays(&request, saved@, l + 1, count as int);
                }
                assert(self.windows@[l as int] == old(self).windows@[l as int]);
                assert(request.windows@[l as int].slot == slot);
            }
            let held: WindowLease = match &self.requests[slot] {
                Some(live) => live.windows[l],
                None => {
                    assert(false);
                    return Err(Error::CacheRequestReleased);
                },
            };
            match self.windows[l].restore_prefix(held, saved[l]) {
                Err(e) => {
                    assert(self.windows@ =~= between.windows@);
                    return Err(e);
                },
                Ok(_) => {},
            }
            proof {
                assert(window_moved(
                    &self.windows@[l as int],
                    &between.windows@[l as int],
                    slot as int,
                    saved@[l as int].end,
                ));
                self.lemma_one_window(old(self), &between, slot as int, l as int);
                assert forall|k: int| 0 <= k < l + 1 implies window_moved(
                    #[trigger] &self.windows@[k],
                    &old(self).windows@[k],
                    slot as int,
                    saved@[k].end,
                ) by {
                    if k < l {
                        assert(self.windows@[k] == between.windows@[k]);
                    }
                }
            }
            l = l + 1;
        }
        Ok(())
    }

    /// One window changing at one slot keeps the bank in order.
    proof fn lemma_one_window(&self, start: &Self, before: &Self, slot: int, l: int)
        requires
            start.inv(),
            before.inv(),
            before.others_kept(start, slot),
            before.same_books(start),
            self.same_books(before),
            self.poisoned == before.poisoned,
            self.sources@ == before.sources@,
            self.windows@.len() == before.windows@.len(),
            0 <= l < LAYERS,
            0 <= slot < before.requests@.len(),
            forall|k: int|
                0 <= k < LAYERS && k != l ==> #[trigger] self.windows@[k] == before.windows@[k],
            exists|end: u64| #[trigger]
                window_moved(&self.windows@[l], &before.windows@[l], slot, end),
            before.holders_kept(start, slot),
        ensures
            self.inv(),
            self.others_kept(start, slot),
            self.holders_kept(start, slot),
    {
        let end = choose|end: u64| #[trigger]
            window_moved(&self.windows@[l], &before.windows@[l], slot, end);
        assert(self.components_wf()) by {
            assert forall|k: int| 0 <= k < LAYERS implies {
                &&& (#[trigger] self.windows@[k]).inv()
                &&& self.windows@[k].layer == k
                &&& self.windows@[k].slots@.len() == self.requests@.len()
            } by {
                assert(before.windows@[k].inv());
            }
        }
        assert forall|k: int| 0 <= k < LAYERS implies (#[trigger] self.windows@[k]).owner
            == before.windows@[k].owner by {}
        self.lemma_leases_stay(before);
        assert forall|k: int| 0 <= k < LAYERS implies {
            &&& (#[trigger] self.windows@[k]).same_rings(&start.windows@[k])
            &&& self.windows@[k].slots@.len() == start.windows@[k].slots@.len()
            &&& forall|s: int|
                0 <= s < start.windows@[k].slots@.len() && s != slot
                    ==> #[trigger] self.windows@[k].slots@[s] == start.windows@[k].slots@[s]
        } by {
            assert(before.windows@[k].same_rings(&start.windows@[k]));
            assert forall|s: int| 0 <= s < start.windows@[k].slots@.len() && s != slot implies #[trigger] self.windows@[k].slots@[s]
                == start.windows@[k].slots@[s] by {
                assert(before.windows@[k].slots@[s] == start.windows@[k].slots@[s]);
            }
        }
    }

    /// One source attaching pages at one slot keeps the bank in order.
    proof fn lemma_one_source(&self, start: &Self, before: &Self, slot: int, i: int)
        requires
            start.inv(),
            before.inv(),
            before.others_kept(start, slot),
            self.same_books(before),
            self.poisoned == before.poisoned,
            self.windows@ == before.windows@,
            self.sources@.len() == before.sources@.len(),
            0 <= i < SOURCE_COUNT,
            0 <= slot < before.requests@.len(),
            self.sources@[i].inv(),
            forall|k: int|
                0 <= k < SOURCE_COUNT && k != i ==> #[trigger] self.sources@[k]
                    == before.sources@[k],
            self.sources@[i].same_identity(&before.sources@[i]),
            self.sources@[i].other_slots_kept(&before.sources@[i], slot),
            self.sources@[i].index.writing@ == before.sources@[i].index.writing@,
            self.sources@[i].slots@[slot].request == before.sources@[i].slots@[slot].request,
            self.sources@[i].slots@[slot].generation == before.sources@[i].slots@[slot].generation,
            served_slots_kept(&self.sources@[i], &before.sources@[i], slot),
            before.holders_kept(start, slot),
        ensures
            self.inv(),
            self.others_kept(start, slot),
            self.holders_kept(start, slot),
    {
        assert(self.components_wf()) by {
            assert forall|k: int| 0 <= k < SOURCE_COUNT implies {
                &&& (#[trigger] self.sources@[k]).inv()
                &&& self.sources@[k].layer == backbone_cache::source_layer(k)
                &&& self.sources@[k].slot_count == self.requests@.len()
            } by {
                assert(before.sources@[k].inv());
            }
        }
        assert forall|k: int| 0 <= k < SOURCE_COUNT implies (#[trigger] self.sources@[k]).owner
            == before.sources@[k].owner by {}
        copies::lemma_copies_stay_at(
            self.prefix_copies@,
            before.sources@,
            self.sources@,
            i,
        );
        self.lemma_leases_stay(before);
        assert forall|k: int| 0 <= k < SOURCE_COUNT implies {
            &&& (#[trigger] self.sources@[k]).same_identity(&start.sources@[k])
            &&& served_slots_kept(&self.sources@[k], &start.sources@[k], slot)
            &&& self.sources@[k].index.writing@ == start.sources@[k].index.writing@
        } by {
            assert(before.sources@[k].same_identity(&start.sources@[k]));
            assert(served_slots_kept(&before.sources@[k], &start.sources@[k], slot));
        }
    }

    fn restore_sources(
        &mut self,
        lease: CacheLease,
        saved: &BackbonePrefix,
        window_bytes: usize,
        carries: &[Option<CarryBuffers>],
    ) -> (r: Result<Vec<DeviceCopy>, Error>)
        requires
            old(self).inv(),
            old(self).request_error(lease) is None,
            saved.owner == old(self).owner,
            old(self).owns(saved),
            saved.tail.wf(),
            prefix::tail_bytes(window_bytes as int) <= saved.tail.bytes,
            prefix::carries_serve(old(self).sources@, carries@),
        ensures
            final(self).inv(),
            final(self).same_books(old(self)),
            final(self).poisoned == old(self).poisoned,
            final(self).windows@ == old(self).windows@,
            final(self).others_kept(old(self), lease.slot as int),
            final(self).holders_kept(old(self), lease.slot as int),
            ({
                let request = old(self).live(lease);
                match r {
                    Err(e) => old(self).first_source_restore_error(
                        &request,
                        saved.sources@,
                        saved.tail,
                        window_bytes as int,
                        4,
                    ) == Some(e),
                    Ok(copies) => {
                        &&& old(self).first_source_restore_error(
                            &request,
                            saved.sources@,
                            saved.tail,
                            window_bytes as int,
                            4,
                        ) is None
                        &&& forall|i: int|
                            0 <= i < SOURCE_COUNT ==> final(self).source_attached(
                                old(self),
                                i,
                                lease.slot as int,
                                #[trigger] saved.sources@[i],
                            )
                        &&& copies@ == restored_copies(
                            old(self).sources@,
                            carries@,
                            saved,
                            window_bytes as int,
                            lease.slot as int,
                            4,
                        )
                    },
                }
            }),
    {
        let slot: usize = lease.slot;
        let ghost request = self.live(lease);
        assert(self.leases_wf(slot as int, &request));
        let mut moves: Vec<DeviceCopy> = Vec::new();
        let mut i: usize = 0;
        while i < SOURCE_COUNT
            invariant
                i <= SOURCE_COUNT,
                old(self).inv(),
                self.inv(),
                slot == lease.slot,
                slot < self.requests@.len(),
                old(self).request_error(lease) is None,
                request == old(self).live(lease),
                old(self).leases_wf(slot as int, &request),
                saved.owner == old(self).owner,
                old(self).owns(saved),
                saved.tail.wf(),
                prefix::tail_bytes(window_bytes as int) <= saved.tail.bytes,
                prefix::carries_serve(old(self).sources@, carries@),
                self.same_books(old(self)),
                self.poisoned == old(self).poisoned,
                self.windows@ == old(self).windows@,
                self.others_kept(old(self), slot as int),
                self.holders_kept(old(self), slot as int),
                old(self).first_source_restore_error(
                    &request,
                    saved.sources@,
                    saved.tail,
                    window_bytes as int,
                    i as int,
                ) is None,
                forall|k: int|
                    0 <= k < i ==> self.source_attached(
                        old(self),
                        k,
                        slot as int,
                        #[trigger] saved.sources@[k],
                    ),
                forall|k: int|
                    i <= k < SOURCE_COUNT ==> #[trigger] self.sources@[k] == old(self).sources@[k],
                moves@ == restored_copies(
                    old(self).sources@,
                    carries@,
                    saved,
                    window_bytes as int,
                    slot as int,
                    i as int,
                ),
            decreases SOURCE_COUNT - i,
        {
            let ghost between = *self;
            proof {
                if old(self).first_source_restore_error(
                    &request,
                    saved.sources@,
                    saved.tail,
                    window_bytes as int,
                    i + 1,
                ) is Some {
                    old(self).lemma_source_restore_stays(
                        &request,
                        saved.sources@,
                        saved.tail,
                        window_bytes as int,
                        i + 1,
                        4,
                    );
                }
                assert(self.sources@[i as int] == old(self).sources@[i as int]);
                assert(old(self).sources@[i as int].carried_by(carries@[i as int]));
                assert(request.sources@[i as int].slot == slot);
                assert(saved.sources@[i as int].end <= MAX_CONTEXT);
            }
            let held: CompressorLease = match &self.requests[slot] {
                Some(live) => live.sources[i],
                None => {
                    assert(false);
                    return Err(Error::CacheRequestReleased);
                },
            };
            let part = saved.tail.slice(
                40 * window_bytes + i * COMPRESSOR_PREFIX_BYTES,
                COMPRESSOR_PREFIX_BYTES,
            );
            match self.sources[i].restore_prefix(held, &saved.sources[i], &carries[i], &part) {
                Err(e) => {
                    assert(self.sources@ =~= between.sources@);
                    return Err(e);
                },
                Ok(mut copies) => {
                    let ghost one = copies@;
                    let ghost before = moves@;
                    moves.append(&mut copies);
                    assert(moves@ =~= before + one);
                },
            }
            proof {
                assert(self.sources@[i as int].other_slots_kept(
                    &between.sources@[i as int],
                    slot as int,
                ));
                self.lemma_one_source(old(self), &between, slot as int, i as int);
                assert forall|k: int| 0 <= k < i + 1 implies self.source_attached(
                    old(self),
                    k,
                    slot as int,
                    #[trigger] saved.sources@[k],
                ) by {
                    if k < i {
                        assert(between.source_attached(
                            old(self),
                            k,
                            slot as int,
                            saved.sources@[k],
                        ));
                        assert(self.sources@[k] == between.sources@[k]);
                    }
                }
            }
            i = i + 1;
        }
        Ok(moves)
    }

    /// Source `i` serves the saved frontier at `slot`.
    pub open spec fn source_attached(
        &self,
        before: &Self,
        i: int,
        slot: int,
        saved: CompressorPrefix,
    ) -> bool {
        self.sources@[i].attached(
            &before.sources@[i],
            slot,
            saved.source.pages@,
            saved.source.rows,
            saved.end,
        )
    }

    /// Why the prefix cannot be restored to the request in `phase`.
    pub open spec fn retained_restore_error(
        &self,
        lease: CacheLease,
        saved: &BackbonePrefix,
        phase: CachePhase,
        window_bytes: int,
    ) -> Option<Error> {
        let request = self.live(lease);
        let windows = phase.stage_of().end_window();
        if self.request_error(lease) is Some {
            self.request_error(lease)
        } else if !(saved.owner == self.owner && self.is_fresh(lease)) {
            Some(Error::PrefixAdmission)
        } else if self.first_window_restore_error(&request, saved.windows@, windows) is Some {
            self.first_window_restore_error(&request, saved.windows@, windows)
        } else {
            self.first_source_restore_error(
                &request,
                saved.sources@,
                saved.tail,
                window_bytes,
                4,
            )
        }
    }

    /// The components of `phase` hold at the request's slot what was saved of them;
    /// the request itself is still fresh.
    pub open spec fn attached(
        &self,
        before: &Self,
        lease: CacheLease,
        saved: &BackbonePrefix,
        phase: CachePhase,
    ) -> bool {
        let slot = lease.slot as int;
        &&& self.same_books(before)
        &&& self.poisoned == before.poisoned
        &&& self.others_kept(before, slot)
        &&& forall|l: int|
            0 <= l < phase.stage_of().end_window() ==> window_moved(
                #[trigger] &self.windows@[l],
                &before.windows@[l],
                slot,
                saved.windows@[l].end,
            )
        &&& forall|l: int|
            phase.stage_of().end_window() <= l < LAYERS ==> #[trigger] self.windows@[l]
                == before.windows@[l]
        &&& forall|i: int|
            0 <= i < SOURCE_COUNT ==> self.source_attached(
                before,
                i,
                slot,
                #[trigger] saved.sources@[i],
            )
    }

    /// Sets the books of a request whose components have been restored.
    fn set_frontier(&mut self, slot: usize, end: u64, phase: CachePhase)
        requires
            old(self).inv(),
            slot < old(self).requests@.len(),
            old(self).requests@[slot as int] is Some,
        ensures
            final(self).inv(),
            final(self).owner == old(self).owner,
            final(self).library == old(self).library,
            final(self).generations@ == old(self).generations@,
            final(self).poisoned == old(self).poisoned,
            final(self).prefix_pool == old(self).prefix_pool,
            final(self).prefix_copies@ == old(self).prefix_copies@,
            final(self).windows@ == old(self).windows@,
            final(self).sources@ == old(self).sources@,
            final(self).requests@ == old(self).requests@.update(
                slot as int,
                Some(
                    Request {
                        end,
                        phase,
                        version: 1,
                        ..old(self).requests@[slot as int]->Some_0
                    },
                ),
            ),
    {
        let ghost before = *self;
        let mut taken: Option<Request> = None;
        std::mem::swap(&mut self.requests[slot], &mut taken);
        if let Some(request) = taken {
            let mut live: Request = request;
            live.end = end;
            live.phase = phase;
            live.version = 1;
            self.requests[slot] = Some(live);
        }
        proof {
            let was = before.requests@[slot as int]->Some_0;
            let now = Request { end, phase, version: 1, ..was };
            assert(self.requests@ =~= before.requests@.update(slot as int, Some(now)));
            assert forall|s: int| 0 <= s < self.requests@.len() implies ((
            #[trigger] self.requests@[s]) matches Some(q) ==> self.leases_wf(s, &q)) by {
                if s == slot {
                    assert(before.leases_wf(s, &was));
                } else {
                    assert(self.requests@[s] == before.requests@[s]);
                }
            }
        }
    }

    /// Ends a request whose restoration has failed. One that cannot be released
    /// now stays as it is.
    fn give_up(&mut self, lease: CacheLease)
        requires
            old(self).inv(),
        ensures
            final(self).inv(),
            match old(self).release_error(lease) {
                Some(_) => *final(self) == *old(self),
                None => final(self).all_ended(old(self), seq![lease], 1),
            },
    {
        let mut leases: Vec<CacheLease> = Vec::new();
        leases.push(lease);
        let ghost failed = *self;
        let _ = self.release(leases.as_slice());
        proof {
            assert(leases@ =~= seq![lease]);
            assert(failed.first_release_error(leases@, 0) is None);
            assert(!leases@.take(0).contains(lease));
            assert(failed.first_release_error(leases@, 1) == failed.release_error(lease));
        }
    }

    /// Half-restored components do not change whether the request can be released.
    proof fn lemma_same_release_error(&self, before: &Self, lease: CacheLease)
        requires
            before.inv(),
            self.inv(),
            before.request_error(lease) is None,
            self.same_books(before),
            self.poisoned == before.poisoned,
            self.others_kept(before, lease.slot as int),
            self.holders_kept(before, lease.slot as int),
        ensures
            self.release_error(lease) == before.release_error(lease),
    {
        let request = before.live(lease);
        assert(before.leases_wf(lease.slot as int, &request));
        assert(self.snapshotting(lease) == before.snapshotting(lease));
        assert forall|l: int| 0 <= l < LAYERS implies #[trigger] release::window_busy(
            self,
            &request,
            l,
        ) == release::window_busy(before, &request, l) by {
            assert(self.windows@[l].same_rings(&before.windows@[l]));
            assert(request.windows@[l].slot == lease.slot);
        }
        assert forall|i: int| 0 <= i < SOURCE_COUNT implies #[trigger] release::source_busy(
            self,
            &request,
            i,
        ) == release::source_busy(before, &request, i) by {
            assert(self.sources@[i].same_identity(&before.sources@[i]));
            assert(request.sources@[i].slot == lease.slot);
        }
        if exists|l: int| 0 <= l < LAYERS && #[trigger] release::window_busy(before, &request, l) {
            let l = choose|l: int|
                0 <= l < LAYERS && #[trigger] release::window_busy(before, &request, l);
            assert(release::window_busy(self, &request, l));
        }
        if exists|i: int|
            0 <= i < SOURCE_COUNT && #[trigger] release::source_busy(before, &request, i) {
            let i = choose|i: int|
                0 <= i < SOURCE_COUNT && #[trigger] release::source_busy(before, &request, i);
            assert(release::source_busy(self, &request, i));
        }
    }

    /// What giving up after a failed restoration leaves, over the bank before it.
    proof fn lemma_given_up(&self, failed: &Self, before: &Self, lease: CacheLease)
        requires
            before.inv(),
            failed.inv(),
            self.inv(),
            before.request_error(lease) is None,
            failed.same_books(before),
            failed.poisoned == before.poisoned,
            failed.others_kept(before, lease.slot as int),
            failed.holders_kept(before, lease.slot as int),
            match failed.release_error(lease) {
                Some(_) => *self == *failed,
                None => self.all_ended(failed, seq![lease], 1),
            },
        ensures
            self.given_up(before, lease),
    {
        let slot = lease.slot as int;
        let request = before.live(lease);
        let leases = seq![lease];
        failed.lemma_same_release_error(before, lease);
        assert(before.leases_wf(slot, &request));
        if before.release_error(lease) is None {
            assert(leases[0].slot == slot);
            assert forall|s: int| release::names_slot(leases, 1, s) == (s == slot) by {
                if s == slot {
                    assert(leases[0].slot == s);
                }
            }
            assert(self.requests@ =~= before.requests@.update(slot, None));
            assert(self.others_kept(before, slot)) by {
                assert forall|l: int| 0 <= l < LAYERS implies {
                    &&& (#[trigger] self.windows@[l]).same_rings(&before.windows@[l])
                    &&& self.windows@[l].slots@.len() == before.windows@[l].slots@.len()
                    &&& forall|s: int|
                        0 <= s < before.windows@[l].slots@.len() && s != slot
                            ==> #[trigger] self.windows@[l].slots@[s]
                            == before.windows@[l].slots@[s]
                } by {
                    assert(failed.windows@[l].same_rings(&before.windows@[l]));
                    assert(self.windows@[l].same_rings(&failed.windows@[l]));
                    assert forall|s: int|
                        0 <= s < before.windows@[l].slots@.len() && s != slot implies #[trigger] self.windows@[l].slots@[s]
                        == before.windows@[l].slots@[s] by {
                        assert(failed.windows@[l].slots@[s] == before.windows@[l].slots@[s]);
                    }
                }
                assert forall|i: int| 0 <= i < SOURCE_COUNT implies {
                    &&& (#[trigger] self.sources@[i]).same_identity(&before.sources@[i])
                    &&& served_slots_kept(&self.sources@[i], &before.sources@[i], slot)
                    &&& self.sources@[i].index.writing@ == before.sources@[i].index.writing@
                } by {
                    assert(failed.sources@[i].same_identity(&before.sources@[i]));
                    assert(self.sources@[i].same_identity(&failed.sources@[i]));
                    failed.lemma_free_slots(self, leases, i, slot);
                }
            }
            assert(self.holders_gone(before, lease)) by {
                assert forall|l: int| 0 <= l < LAYERS implies {
                    &&& (#[trigger] self.windows@[l]).slots@[slot].generation
                        == before.windows@[l].slots@[slot].generation
                    &&& self.windows@[l].slots@[slot].request == if before.windows@[l].lease_error(
                        request.windows@[l],
                    ) is None {
                        None
                    } else {
                        before.windows@[l].slots@[slot].request
                    }
                } by {
                    assert(failed.windows@[l].same_rings(&before.windows@[l]));
                    assert(request.windows@[l].slot == slot);
                }
                assert forall|i: int| 0 <= i < SOURCE_COUNT implies {
                    &&& (#[trigger] self.sources@[i]).slots@[slot].generation
                        == before.sources@[i].slots@[slot].generation
                    &&& if before.sources@[i].lease_error(request.sources@[i]) is None {
                        &&& self.sources@[i].slots@[slot].request is None
                        &&& self.sources@[i].index.tables()[slot].len() == 0
                        &&& self.sources@[i].index.rows@[slot] == 0
                    } else {
                        self.sources@[i].slots@[slot].request
                            == before.sources@[i].slots@[slot].request
                    }
                } by {
                    assert(failed.sources@[i].same_identity(&before.sources@[i]));
                    assert(request.sources@[i].slot == slot);
                }
            }
        }
    }

    /// Releasing requests leaves every other slot of a source as it was.
    proof fn lemma_free_slots(&self, after: &Self, leases: Seq<CacheLease>, i: int, slot: int)
        requires
            self.inv(),
            after.inv(),
            after.all_ended(self, leases, 1),
            0 <= i < SOURCE_COUNT,
            forall|s: int| release::names_slot(leases, 1, s) == (s == slot),
        ensures
            served_slots_kept(&after.sources@[i], &self.sources@[i], slot),
    {
        assert(after.sources@[i].inv() && self.sources@[i].inv());
        assert forall|s: int| 0 <= s < self.sources@[i].slot_count && s != slot implies #[trigger] after.sources@[i].slots@[s]
            == self.sources@[i].slots@[s] by {
            assert(!release::names_slot(leases, 1, s));
        }
    }
}

impl BackboneCache {
    /// Gives the components of a fresh request the prefix's frontier in `phase`.
    /// The caller makes the copies and hands their outcome to `finish_restore`.
    fn restore_retained_phase(
        &mut self,
        lease: CacheLease,
        saved: &BackbonePrefix,
        phase: CachePhase,
        window_bytes: usize,
        carries: &[Option<CarryBuffers>],
    ) -> (r: Result<(PendingRestore, PrefixCopies), Error>)
        requires
            old(self).inv(),
            old(self).owns(saved),
            saved.tail.wf(),
            prefix::tail_bytes(window_bytes as int) <= saved.tail.bytes,
            prefix::carries_serve(old(self).sources@, carries@),
        ensures
            final(self).inv(),
            final(self).restore_outcome(old(self), lease, saved, phase, window_bytes, carries@, r),
    {
        let (fresh, count): (bool, usize) = match self.request(lease) {
            Err(e) => {
                return Err(e);
            },
            Ok(request) => (
                request.end == 0 && request.version == 0 && request.phase == CachePhase::Full
                    && request.publication.len() == 0,
                phase.stage().windows().1,
            ),
        };
        if !(saved.owner == self.owner && fresh) {
            return Err(Error::PrefixAdmission);
        }
        let ghost before = *self;
        match self.restore_windows(lease, saved.windows.as_slice(), count) {
            Err(e) => {
                let ghost failed = *self;
                self.give_up(lease);
                proof {
                    self.lemma_given_up(&failed, &before, lease);
                }
                return Err(e);
            },
            Ok(_) => {},
        }
        let ghost half = *self;
        proof {
            before.lemma_source_restore_same(
                &half,
                &before.live(lease),
                saved.sources@,
                saved.tail,
                window_bytes as int,
                4,
            );
            assert(half.request_error(lease) == before.request_error(lease));
            assert(half.live(lease) == before.live(lease));
        }
        let carried = match self.restore_sources(lease, saved, window_bytes, carries) {
            Err(e) => {
                proof {
                    self.lemma_kept_twice(&half, &before, lease.slot as int);
                }
                let ghost failed = *self;
                self.give_up(lease);
                proof {
                    self.lemma_given_up(&failed, &before, lease);
                }
                return Err(e);
            },
            Ok(carried) => carried,
        };
        proof {
            self.lemma_kept_twice(&half, &before, lease.slot as int);
        }
        let mut parts: Vec<DeviceBuffer> = Vec::new();
        let mut l: usize = 0;
        while l < count
            invariant
                l <= count <= LAYERS,
                saved.tail.wf(),
                prefix::tail_bytes(window_bytes as int) <= saved.tail.bytes,
                parts@ == Seq::new(
                    l as nat,
                    |k: int| prefix::window_part(saved.tail, window_bytes as int, k),
                ),
            decreases count - l,
        {
            assert(l * window_bytes + window_bytes <= 40 * window_bytes) by (nonlinear_arith)
                requires
                    l < 40,
            ;
            parts.push(saved.tail.slice(l * window_bytes, window_bytes));
            l = l + 1;
        }
        proof {
            assert(self.attached(&before, lease, saved, phase)) by {
                assert forall|i: int| 0 <= i < SOURCE_COUNT implies self.source_attached(
                    &before,
                    i,
                    lease.slot as int,
                    #[trigger] saved.sources@[i],
                ) by {
                    assert(self.source_attached(&half, i, lease.slot as int, saved.sources@[i]));
                }
            }
        }
        Ok(
            (
                PendingRestore { lease, end: saved.end, phase },
                PrefixCopies { windows: parts, carries: carried },
            ),
        )
    }

    /// The request stands where its restoration leads; its components are as in
    /// `before`.
    pub open spec fn resumed(&self, before: &Self, pending: PendingRestore) -> bool {
        &&& self.owner == before.owner
        &&& self.library == before.library
        &&& self.generations@ == before.generations@
        &&& self.poisoned == before.poisoned
        &&& self.prefix_pool == before.prefix_pool
        &&& self.prefix_copies@ == before.prefix_copies@
        &&& self.windows@ == before.windows@
        &&& self.sources@ == before.sources@
        &&& self.requests@ == before.requests@.update(
            pending.lease.slot as int,
            Some(
                Request {
                    end: pending.end,
                    phase: pending.phase,
                    version: 1,
                    ..before.live(pending.lease)
                },
            ),
        )
    }

    /// Ends a restoration: `copied` is how its copies went. Where they failed the
    /// request is given up. The result is the position at which the request goes on.
    pub fn finish_restore(&mut self, pending: PendingRestore, copied: Result<(), Error>) -> (r: Result<
        u64,
        Error,
    >)
        requires
            old(self).inv(),
        ensures
            final(self).inv(),
            if old(self).request_error(pending.lease) is Some {
                &&& r == Err::<u64, Error>(old(self).request_error(pending.lease)->Some_0)
                &&& *final(self) == *old(self)
            } else if !old(self).is_fresh(pending.lease) {
                &&& r == Err::<u64, Error>(Error::PrefixAdmission)
                &&& *final(self) == *old(self)
            } else {
                match copied {
                    Err(reason) => {
                        &&& r == Err::<u64, Error>(reason)
                        &&& final(self).given_up(old(self), pending.lease)
                    },
                    Ok(_) => {
                        &&& final(self).resumed(old(self), pending)
                        &&& r == match final(self).history_error(pending.lease) {
                            Some(reason) => Err::<u64, Error>(reason),
                            None => Ok::<u64, Error>(pending.phase.next_position(pending.end)),
                        }
                    },
                }
            },
    {
        let lease: CacheLease = pending.lease;
        let fresh: bool = match self.request(lease) {
            Err(e) => {
                return Err(e);
            },
            Ok(request) => request.end == 0 && request.version == 0 && request.phase
                == CachePhase::Full && request.publication.len() == 0,
        };
        if !fresh {
            return Err(Error::PrefixAdmission);
        }
        let ghost before = *self;
        match copied {
            Err(e) => {
                self.give_up(lease);
                proof {
                    self.lemma_given_up(&before, &before, lease);
                }
                return Err(e);
            },
            Ok(_) => {},
        }
        self.set_frontier(lease.slot, pending.end, pending.phase);
        match self.committed_end(lease) {
            Err(e) => Err(e),
            Ok(_) => Ok(pending.phase.position(pending.end)),
        }
    }

    /// What restoring a retained prefix returns and does.
    pub open spec fn restore_outcome(
        &self,
        before: &Self,
        lease: CacheLease,
        saved: &BackbonePrefix,
        phase: CachePhase,
        window_bytes: usize,
        carries: Seq<Option<CarryBuffers>>,
        r: Result<(PendingRestore, PrefixCopies), Error>,
    ) -> bool {
        match before.retained_restore_error(lease, saved, phase, window_bytes as int) {
            Some(reason) => {
                &&& r == Err::<(PendingRestore, PrefixCopies), Error>(reason)
                &&& if before.request_error(lease) is Some || !(saved.owner == before.owner
                    && before.is_fresh(lease)) {
                    *self == *before
                } else {
                    self.given_up(before, lease)
                }
            },
            None => {
                &&& self.attached(before, lease, saved, phase)
                &&& match r {
                    Err(e) => false,
                    Ok((pending, copies)) => {
                        &&& pending == (PendingRestore { lease, end: saved.end, phase })
                        &&& copies.windows@ == prefix::window_parts(
                            saved.tail,
                            window_bytes as int,
                            phase.stage_of().end_window(),
                        )
                        &&& copies.carries@ == restored_copies(
                            before.sources@,
                            carries,
                            saved,
                            window_bytes as int,
                            lease.slot as int,
                            4,
                        )
                    },
                }
            },
        }
    }

    proof fn lemma_source_restore_same(
        &self,
        other: &Self,
        request: &Request,
        saved: Seq<CompressorPrefix>,
        tail: DeviceBuffer,
        window_bytes: int,
        n: int,
    )
        requires
            self.sources@ == other.sources@,
        ensures
            self.first_source_restore_error(request, saved, tail, window_bytes, n)
                == other.first_source_restore_error(request, saved, tail, window_bytes, n),
        decreases n,
    {
        if n > 0 {
            self.lemma_source_restore_same(other, request, saved, tail, window_bytes, n - 1);
        }
    }

    proof fn lemma_kept_twice(&self, middle: &Self, start: &Self, slot: int)
        requires
            self.others_kept(middle, slot),
            middle.others_kept(start, slot),
            self.holders_kept(middle, slot),
            middle.holders_kept(start, slot),
        ensures
            self.others_kept(start, slot),
            self.holders_kept(start, slot),
    {
        assert(self.holders_kept(start, slot)) by {
            assert forall|l: int| 0 <= l < LAYERS implies {
                &&& (#[trigger] self.windows@[l]).slots@[slot].request
                    == start.windows@[l].slots@[slot].request
                &&& self.windows@[l].slots@[slot].generation
                    == start.windows@[l].slots@[slot].generation
            } by {
                assert(middle.windows@[l].slots@[slot].request
                    == start.windows@[l].slots@[slot].request);
            }
            assert forall|i: int| 0 <= i < SOURCE_COUNT implies {
                &&& (#[trigger] self.sources@[i]).slots@[slot].request
                    == start.sources@[i].slots@[slot].request
                &&& self.sources@[i].slots@[slot].generation
                    == start.sources@[i].slots@[slot].generation
            } by {
                assert(middle.sources@[i].slots@[slot].request
                    == start.sources@[i].slots@[slot].request);
            }
        }
        assert forall|l: int| 0 <= l < LAYERS implies {
            &&& (#[trigger] self.windows@[l]).same_rings(&start.windows@[l])
            &&& self.windows@[l].slots@.len() == start.windows@[l].slots@.len()
            &&& forall|s: int|
                0 <= s < start.windows@[l].slots@.len() && s != slot
                    ==> #[trigger] self.windows@[l].slots@[s] == start.windows@[l].slots@[s]
        } by {
            assert(middle.windows@[l].same_rings(&start.windows@[l]));
            assert forall|s: int| 0 <= s < start.windows@[l].slots@.len() && s != slot implies #[trigger] self.windows@[l].slots@[s]
                == start.windows@[l].slots@[s] by {
                assert(middle.windows@[l].slots@[s] == start.windows@[l].slots@[s]);
            }
        }
        assert forall|i: int| 0 <= i < SOURCE_COUNT implies {
            &&& (#[trigger] self.sources@[i]).same_identity(&start.sources@[i])
            &&& served_slots_kept(&self.sources@[i], &start.sources@[i], slot)
            &&& self.sources@[i].index.writing@ == start.sources@[i].index.writing@
        } by {
            assert(middle.sources@[i].same_identity(&start.sources@[i]));
            assert(served_slots_kept(&middle.sources@[i], &start.sources@[i], slot));
        }
    }

    /// Gives the components of a fresh request a whole prefix.
    pub fn restore_prefix(
        &mut self,
        lease: CacheLease,
        saved: &BackbonePrefix,
        window_bytes: usize,
        carries: &[Option<CarryBuffers>],
    ) -> (r: Result<(PendingRestore, PrefixCopies), Error>)
        requires
            old(self).inv(),
            old(self).owns(saved),
            saved.tail.wf(),
            prefix::tail_bytes(window_bytes as int) <= saved.tail.bytes,
            prefix::carries_serve(old(self).sources@, carries@),
        ensures
            final(self).inv(),
            final(self).restore_outcome(
                old(self),
                lease,
                saved,
                CachePhase::Full,
                window_bytes,
                carries@,
                r,
            ),
    {
        self.restore_retained_phase(lease, saved, CachePhase::Full, window_bytes, carries)
    }

    /// Gives them the encoder's part of a prefix, for a prompt whose new suffix
    /// covers the whole decoder window. Decoder windows stay fresh.
    pub fn restore_encoder_continuation(
        &mut self,
        lease: CacheLease,
        saved: &BackbonePrefix,
        prompt_end: u64,
        window_bytes: usize,
        carries: &[Option<CarryBuffers>],
    ) -> (r: Result<(PendingRestore, PrefixCopies), Error>)
        requires
            old(self).inv(),
            old(self).owns(saved),
            saved.tail.wf(),
            prefix::tail_bytes(window_bytes as int) <= saved.tail.bytes,
            prefix::carries_serve(old(self).sources@, carries@),
        ensures
            final(self).inv(),
            if prompt_end <= MAX_CONTEXT && prompt_end - saved.end >= WINDOW_ROWS {
                final(self).restore_outcome(
                    old(self),
                    lease,
                    saved,
                    CachePhase::Encoder { target: prompt_end },
                    window_bytes,
                    carries@,
                    r,
                )
            } else {
                r == Err::<(PendingRestore, PrefixCopies), Error>(Error::EncoderContinuation) && *final(self) == *old(self)
            },
    {
        if !(prompt_end <= MAX_CONTEXT && prompt_end.saturating_sub(saved.end) >= WINDOW_ROWS) {
            return Err(Error::EncoderContinuation);
        }
        self.restore_retained_phase(
            lease,
            saved,
            CachePhase::Encoder { target: prompt_end },
            window_bytes,
            carries,
        )
    }

    /// The windows from `first` up to `end` start anew at `start`.
    fn start_windows(&mut self, lease: CacheLease, first: usize, end: usize, start: u64) -> (r: Result<
        (),
        Error,
    >)
        requires
            old(self).inv(),
            old(self).request_error(lease) is None,
            first <= end <= LAYERS,
        ensures
            final(self).inv(),
            final(self).same_books(old(self)),
            final(self).poisoned == old(self).poisoned,
            final(self).sources@ == old(self).sources@,
            final(self).others_kept(old(self), lease.slot as int),
            final(self).holders_kept(old(self), lease.slot as int),
            ({
                let request = old(self).live(lease);
                match r {
                    Err(e) => old(self).first_replay_error(&request, first as int, end as int)
                        == Some(e),
                    Ok(_) => {
                        &&& old(self).first_replay_error(
                            &request,
                            first as int,
                            end as int,
                        ) is None
                        &&& forall|l: int|
                            first <= l < end ==> window_moved(
                                #[trigger] &final(self).windows@[l],
                                &old(self).windows@[l],
                                lease.slot as int,
                                start,
                            )
                        &&& forall|l: int|
                            0 <= l < LAYERS && !(first <= l < end) ==> #[trigger] final(self).windows@[l] == old(self).windows@[l]
                    },
                }
            }),
    {
        let slot: usize = lease.slot;
        let ghost request = self.live(lease);
        assert(self.leases_wf(slot as int, &request));
        let mut l: usize = first;
        while l < end
            invariant
                first <= l <= end <= LAYERS,
                old(self).inv(),
                self.inv(),
                slot == lease.slot,
                slot < self.requests@.len(),
                old(self).request_error(lease) is None,
                request == old(self).live(lease),
                old(self).leases_wf(slot as int, &request),
                self.same_books(old(self)),
                self.poisoned == old(self).poisoned,
                self.sources@ == old(self).sources@,
                self.others_kept(old(self), slot as int),
                self.holders_kept(old(self), slot as int),
                old(self).first_replay_error(&request, first as int, l as int) is None,
                forall|k: int|
                    first <= k < l ==> window_moved(
                        #[trigger] &self.windows@[k],
                        &old(self).windows@[k],
                        slot as int,
                        start,
                    ),
                forall|k: int|
                    0 <= k < LAYERS && !(first <= k < l) ==> #[trigger] self.windows@[k] == old(self).windows@[k],
            decreases end - l,
        {
            let ghost between = *self;
            proof {
                if old(self).first_replay_error(&request, first as int, l + 1) is Some {
                    old(self).lemma_replay_error_stays(
                        &request,
                        first as int,
                        l + 1,
                        end as int,
                    );
                }
                assert(self.windows@[l as int] == old(self).windows@[l as int]);
                assert(request.windows@[l as int].slot == slot);
            }
            let held: WindowLease = match &self.requests[slot] {
                Some(live) => live.windows[l],
                None => {
                    assert(false);
                    return Err(Error::CacheRequestReleased);
                },
            };
            match self.windows[l].begin_replay(held, start) {
                Err(e) => {
                    assert(self.windows@ =~= between.windows@);
                    return Err(e);
                },
                Ok(_) => {},
            }
            proof {
                assert(window_moved(
                    &self.windows@[l as int],
                    &between.windows@[l as int],
                    slot as int,
                    start,
                ));
                self.lemma_one_window(old(self), &between, slot as int, l as int);
                assert forall|k: int| first <= k < l + 1 implies window_moved(
                    #[trigger] &self.windows@[k],
                    &old(self).windows@[k],
                    slot as int,
                    start,
                ) by {
                    if k < l {
                        assert(self.windows@[k] == between.windows@[k]);
                    }
                }
            }
            l = l + 1;
        }
        Ok(())
    }

    /// Source `i` serves the first `end` tokens of the saved frontier.
    pub open spec fn source_trimmed(
        &self,
        before: &Self,
        i: int,
        slot: int,
        saved: CompressorPrefix,
        end: u64,
    ) -> bool {
        let rows = end as int / before.sources@[i].step();
        self.sources@[i].attached(
            &before.sources@[i],
            slot,
            saved.source.pages@.take(source_cache::page_count(rows)),
            rows as usize,
            end,
        )
    }

    fn trim_sources(&mut self, lease: CacheLease, saved: &BackbonePrefix, end: u64) -> (r: Result<
        (),
        Error,
    >)
        requires
            old(self).inv(),
            old(self).request_error(lease) is None,
            saved.owner == old(self).owner,
            old(self).owns(saved),
        ensures
            final(self).inv(),
            final(self).same_books(old(self)),
            final(self).poisoned == old(self).poisoned,
            final(self).windows@ == old(self).windows@,
            final(self).others_kept(old(self), lease.slot as int),
            final(self).holders_kept(old(self), lease.slot as int),
            ({
                let request = old(self).live(lease);
                match r {
                    Err(e) => old(self).first_compressed_restore_error(
                        &request,
                        saved.sources@,
                        end,
                        4,
                    ) == Some(e),
                    Ok(_) => {
                        &&& old(self).first_compressed_restore_error(
                            &request,
                            saved.sources@,
                            end,
                            4,
                        ) is None
                        &&& forall|i: int|
                            0 <= i < SOURCE_COUNT ==> final(self).source_trimmed(
                                old(self),
                                i,
                                lease.slot as int,
                                #[trigger] saved.sources@[i],
                                end,
                            )
                    },
                }
            }),
    {
        let slot: usize = lease.slot;
        let ghost request = self.live(lease);
        assert(self.leases_wf(slot as int, &request));
        let mut i: usize = 0;
        while i < SOURCE_COUNT
            invariant
                i <= SOURCE_COUNT,
                old(self).inv(),
                self.inv(),
                slot == lease.slot,
                slot < self.requests@.len(),
                old(self).request_error(lease) is None,
                request == old(self).live(lease),
                old(self).leases_wf(slot as int, &request),
                saved.owner == old(self).owner,
                old(self).owns(saved),
                self.same_books(old(self)),
                self.poisoned == old(self).poisoned,
                self.windows@ == old(self).windows@,
                self.others_kept(old(self), slot as int),
                self.holders_kept(old(self), slot as int),
                old(self).first_compressed_restore_error(
                    &request,
                    saved.sources@,
                    end,
                    i as int,
                ) is None,
                forall|k: int|
                    0 <= k < i ==> self.source_trimmed(
                        old(self),
                        k,
                        slot as int,
                        #[trigger] saved.sources@[k],
                        end,
                    ),
                forall|k: int|
                    i <= k < SOURCE_COUNT ==> #[trigger] self.sources@[k] == old(self).sources@[k],
            decreases SOURCE_COUNT - i,
        {
            let ghost between = *self;
            proof {
                if old(self).first_compressed_restore_error(
                    &request,
                    saved.sources@,
                    end,
                    i + 1,
                ) is Some {
                    old(self).lemma_compressed_restore_stays(
                        &request,
                        saved.sources@,
                        end,
                        i + 1,
                        4,
                    );
                }
                assert(self.sources@[i as int] == old(self).sources@[i as int]);
                assert(request.sources@[i as int].slot == slot);
                assert(saved.sources@[i as int].end <= MAX_CONTEXT);
            }
            let held: CompressorLease = match &self.requests[slot] {
                Some(live) => live.sources[i],
                None => {
                    assert(false);
                    return Err(Error::CacheRequestReleased);
                },
            };
            match self.sources[i].restore_compressed_prefix(held, &saved.sources[i], end) {
                Err(e) => {
                    assert(self.sources@ =~= between.sources@);
                    return Err(e);
                },
                Ok(_) => {},
            }
            proof {
                assert(self.sources@[i as int].other_slots_kept(
                    &between.sources@[i as int],
                    slot as int,
                ));
                self.lemma_one_source(old(self), &between, slot as int, i as int);
                assert forall|k: int| 0 <= k < i + 1 implies self.source_trimmed(
                    old(self),
                    k,
                    slot as int,
                    #[trigger] saved.sources@[k],
                    end,
                ) by {
                    if k < i {
                        assert(between.source_trimmed(
                            old(self),
                            k,
                            slot as int,
                            saved.sources@[k],
                            end,
                        ));
                        assert(self.sources@[k] == between.sources@[k]);
                    }
                }
            }
            i = i + 1;
        }
        Ok(())
    }

    /// The restored prefix can begin the request: complete groups of this bank,
    /// within the prompt.
    pub open spec fn encoder_frontier(
        &self,
        lease: CacheLease,
        saved: &BackbonePrefix,
        end: u64,
        prompt_end: u64,
    ) -> bool {
        &&& saved.owner == self.owner
        &&& end > 0
        &&& end % 2 == 0
        &&& end <= saved.end
        &&& end <= prompt_end
        &&& prompt_end <= MAX_CONTEXT
        &&& self.is_fresh(lease)
    }

    /// Why a component does not take the encoder prefix, if one does not.
    pub open spec fn encoder_restore_error(
        &self,
        request: &Request,
        saved: &BackbonePrefix,
        end: u64,
    ) -> Option<Error> {
        match self.first_replay_error(request, 0, 20) {
            Some(e) => Some(e),
            None => self.first_compressed_restore_error(request, saved.sources@, end, 4),
        }
    }

    /// Where the replay of a prefix of `end` tokens starts.
    pub open spec fn replay_start(end: u64) -> u64 {
        if end >= 128 {
            (end - 128) as u64
        } else {
            0
        }
    }

    /// How a request goes on whose encoder prefix of `end` tokens is restored.
    pub open spec fn encoder_pending(lease: CacheLease, end: u64, prompt_end: u64) -> PendingRestore {
        PendingRestore {
            lease,
            end,
            phase: CachePhase::EncoderReplay {
                prefix: end,
                target: prompt_end,
                end: Self::replay_start(end),
            },
        }
    }

    /// Attaches a prefix of complete groups and starts empty encoder windows at
    /// the bounded replay's start. Decoder windows stay fresh; the replay reads the
    /// shared source pages without producing them. `finish_restore` ends it.
    pub fn restore_encoder_prefix(
        &mut self,
        lease: CacheLease,
        saved: &BackbonePrefix,
        end: u64,
        prompt_end: u64,
    ) -> (r: Result<PendingRestore, Error>)
        requires
            old(self).inv(),
            old(self).owns(saved),
        ensures
            final(self).inv(),
            if old(self).request_error(lease) is Some {
                &&& r == Err::<PendingRestore, Error>(old(self).request_error(lease)->Some_0)
                &&& *final(self) == *old(self)
            } else if !old(self).encoder_frontier(lease, saved, end, prompt_end) {
                &&& r == Err::<PendingRestore, Error>(Error::EncoderPrefix)
                &&& *final(self) == *old(self)
            } else {
                match old(self).encoder_restore_error(&old(self).live(lease), saved, end) {
                    Some(reason) => {
                        &&& r == Err::<PendingRestore, Error>(reason)
                        &&& final(self).given_up(old(self), lease)
                    },
                    None => {
                        &&& final(self).encoder_attached(old(self), lease, saved, end)
                        &&& r == Ok::<PendingRestore, Error>(
                            Self::encoder_pending(lease, end, prompt_end),
                        )
                    },
                }
            },
    {
        let fresh: bool = match self.request(lease) {
            Err(e) => {
                return Err(e);
            },
            Ok(request) => request.end == 0 && request.version == 0 && request.phase
                == CachePhase::Full && request.publication.len() == 0,
        };
        if !(saved.owner == self.owner && end > 0 && end % 2 == 0 && end <= saved.end && end
            <= prompt_end && prompt_end <= MAX_CONTEXT && fresh) {
            return Err(Error::EncoderPrefix);
        }
        let start: u64 = end.saturating_sub(WINDOW_ROWS);
        let ghost before = *self;
        match self.start_windows(lease, 0, ENCODER_LAYERS, start) {
            Err(e) => {
                let ghost failed = *self;
                self.give_up(lease);
                proof {
                    self.lemma_given_up(&failed, &before, lease);
                }
                return Err(e);
            },
            Ok(_) => {},
        }
        let ghost half = *self;
        proof {
            before.lemma_compressed_restore_same(&half, &before.live(lease), saved.sources@, end, 4);
            assert(half.request_error(lease) == before.request_error(lease));
            assert(half.live(lease) == before.live(lease));
        }
        match self.trim_sources(lease, saved, end) {
            Err(e) => {
                proof {
                    self.lemma_kept_twice(&half, &before, lease.slot as int);
                }
                let ghost failed = *self;
                self.give_up(lease);
                proof {
                    self.lemma_given_up(&failed, &before, lease);
                }
                return Err(e);
            },
            Ok(_) => {},
        }
        proof {
            self.lemma_kept_twice(&half, &before, lease.slot as int);
        }
        proof {
            assert(self.encoder_attached(&before, lease, saved, end)) by {
                assert forall|i: int| 0 <= i < SOURCE_COUNT implies self.source_trimmed(
                    &before,
                    i,
                    lease.slot as int,
                    #[trigger] saved.sources@[i],
                    end,
                ) by {
                    assert(self.source_trimmed(
                        &half,
                        i,
                        lease.slot as int,
                        saved.sources@[i],
                        end,
                    ));
                }
            }
        }
        Ok(
            PendingRestore {
                lease,
                end,
                phase: CachePhase::EncoderReplay { prefix: end, target: prompt_end, end: start },
            },
        )
    }

    /// The encoder windows stand at the replay's start, `end - 128`, and the sources
    /// at `end`; the request itself is still fresh.
    pub open spec fn encoder_attached(
        &self,
        before: &Self,
        lease: CacheLease,
        saved: &BackbonePrefix,
        end: u64,
    ) -> bool {
        let slot = lease.slot as int;
        let start = Self::replay_start(end);
        &&& self.same_books(before)
        &&& self.poisoned == before.poisoned
        &&& self.others_kept(before, slot)
        &&& forall|l: int|
            0 <= l < 20 ==> window_moved(
                #[trigger] &self.windows@[l],
                &before.windows@[l],
                slot,
                start,
            )
        &&& forall|l: int|
            20 <= l < LAYERS ==> #[trigger] self.windows@[l] == before.windows@[l]
        &&& forall|i: int|
            0 <= i < SOURCE_COUNT ==> self.source_trimmed(
                before,
                i,
                slot,
                #[trigger] saved.sources@[i],
                end,
            )
    }

    proof fn lemma_compressed_restore_same(
        &self,
        other: &Self,
        request: &Request,
        saved: Seq<CompressorPrefix>,
        end: u64,
        n: int,
    )
        requires
            self.sources@ == other.sources@,
        ensures
            self.first_compressed_restore_error(request, saved, end, n)
                == other.first_compressed_restore_error(request, saved, end, n),
        decreases n,
    {
        if n > 0 {
            self.lemma_compressed_restore_same(other, request, saved, end, n - 1);
        }
    }
}

} // verus!
