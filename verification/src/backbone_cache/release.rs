//! Ending requests, and asking whether more tokens would fit.
use crate::backbone_cache::copies;
use crate::backbone_cache;
use crate::backbone_cache::{BackboneCache, CacheLease, Request, LAYERS, SOURCE_COUNT};
use crate::compressor::{AppendWork, CompressorLease, CompressorState, Slot};
use crate::error::Error;
use crate::page_pool;
use crate::window::{WindowLease, WindowSlot, WindowState};
use vstd::prelude::*;

verus! {

/// Rows of the request are being written to a layer's window.
pub open spec fn window_busy(bank: &BackboneCache, request: &Request, l: int) -> bool {
    bank.windows@[l].lease_error(request.windows@[l]) is None
        && bank.windows@[l].writing@[request.windows@[l].slot as int]
}

pub open spec fn source_busy(bank: &BackboneCache, request: &Request, i: int) -> bool {
    bank.sources@[i].lease_error(request.sources@[i]) is None
        && bank.sources@[i].index.writing@[request.sources@[i].slot as int]
}

/// What releasing `lease`, if it is live, leaves of a window.
pub open spec fn window_let_go(now: &WindowState, was: &WindowState, lease: WindowLease) -> bool {
    let slot = lease.slot as int;
    &&& now.same_rings(was)
    &&& now.slots@ == if was.lease_error(lease) is None {
        was.slots@.update(slot, WindowSlot { request: None, ..was.slots@[slot] })
    } else {
        was.slots@
    }
}

/// What releasing `lease`, if it is live, leaves of a source.
pub open spec fn source_let_go(
    now: &CompressorState,
    was: &CompressorState,
    lease: CompressorLease,
) -> bool {
    if was.lease_error(lease) is None {
        now.slot_released(was, lease.slot as int)
    } else {
        *now == *was
    }
}

/// One of the first `n` leases names `slot`.
pub open spec fn names_slot(leases: Seq<CacheLease>, n: int, slot: int) -> bool {
    exists|j: int| 0 <= j < n && (#[trigger] leases[j]).slot == slot
}

impl BackboneCache {
    /// Why the request cannot be released now, if it cannot.
    pub open spec fn release_error(&self, lease: CacheLease) -> Option<Error> {
        match self.request_error(lease) {
            Some(e) => Some(e),
            None => {
                let request = self.live(lease);
                if exists|l: int| 0 <= l < LAYERS && #[trigger] window_busy(self, &request, l) {
                    Some(Error::WindowPending)
                } else if exists|i: int|
                    0 <= i < SOURCE_COUNT && #[trigger] source_busy(self, &request, i) {
                    Some(Error::PendingAppend)
                } else {
                    None
                }
            },
        }
    }

    /// Nothing is being written for the request.
    pub fn ensure_releasable(&self, lease: CacheLease) -> (r: Result<(), Error>)
        requires
            self.inv(),
        ensures
            match r {
                Ok(_) => self.release_error(lease) is None,
                Err(e) => self.release_error(lease) == Some(e),
            },
    {
        let request = match self.request(lease) {
            Err(e) => {
                return Err(e);
            },
            Ok(request) => request,
        };
        assert(self.leases_wf(lease.slot as int, request));
        let mut l: usize = 0;
        while l < LAYERS
            invariant
                l <= LAYERS,
                self.inv(),
                self.request_error(lease) is None,
                *request == self.live(lease),
                self.leases_wf(lease.slot as int, request),
                forall|k: int| 0 <= k < l ==> !#[trigger] window_busy(self, request, k),
            decreases LAYERS - l,
        {
            let held = request.windows[l];
            assert(held.slot == lease.slot);
            if self.windows[l].request_id(held).is_ok() {
                match self.windows[l].ensure_not_writing(held) {
                    Err(e) => {
                        assert(window_busy(self, request, l as int));
                        return Err(e);
                    },
                    Ok(_) => {},
                }
            }
            l = l + 1;
        }
        let mut i: usize = 0;
        while i < SOURCE_COUNT
            invariant
                i <= SOURCE_COUNT,
                self.inv(),
                self.request_error(lease) is None,
                *request == self.live(lease),
                self.leases_wf(lease.slot as int, request),
                forall|k: int| 0 <= k < LAYERS ==> !#[trigger] window_busy(self, request, k),
                forall|k: int| 0 <= k < i ==> !#[trigger] source_busy(self, request, k),
            decreases SOURCE_COUNT - i,
        {
            let held = request.sources[i];
            assert(held.slot == lease.slot);
            if self.sources[i].request_id(held).is_ok() {
                match self.sources[i].ensure_not_writing(held) {
                    Err(e) => {
                        assert(source_busy(self, request, i as int));
                        return Err(e);
                    },
                    Ok(_) => {},
                }
            }
            i = i + 1;
        }
        Ok(())
    }

    /// The request of `slot` has ended in every component; nothing else changed.
    pub open spec fn ended(&self, before: &Self, slot: int) -> bool {
        let request = before.requests@[slot]->Some_0;
        &&& self.owner == before.owner
        &&& self.library == before.library
        &&& self.generations@ == before.generations@
        &&& self.poisoned == before.poisoned
        &&& self.prefix_pool == before.prefix_pool
        &&& self.prefix_copies@ == before.prefix_copies@
        &&& self.requests@ == before.requests@.update(slot, None)
        &&& forall|l: int|
            0 <= l < LAYERS ==> window_let_go(
                #[trigger] &self.windows@[l],
                &before.windows@[l],
                request.windows@[l],
            )
        &&& forall|i: int|
            0 <= i < SOURCE_COUNT ==> source_let_go(
                #[trigger] &self.sources@[i],
                &before.sources@[i],
                request.sources@[i],
            )
    }

    fn release_one(&mut self, lease: CacheLease)
        requires
            old(self).inv(),
            old(self).release_error(lease) is None,
        ensures
            final(self).inv(),
            final(self).ended(old(self), lease.slot as int),
    {
        let slot: usize = lease.slot;
        let mut taken: Option<Request> = None;
        std::mem::swap(&mut self.requests[slot], &mut taken);
        let request: Request = match taken {
            Some(request) => request,
            None => {
                return;
            },
        };
        proof {
            assert(request == old(self).live(lease));
            assert(old(self).leases_wf(slot as int, &request));
            assert(self.requests@ =~= old(self).requests@.update(slot as int, None));
        }
        let mut l: usize = 0;
        while l < LAYERS
            invariant
                l <= LAYERS,
                old(self).inv(),
                old(self).release_error(lease) is None,
                request == old(self).live(lease),
                old(self).leases_wf(slot as int, &request),
                self.components_wf(),
                self.owner == old(self).owner,
                self.library == old(self).library,
                self.generations@ == old(self).generations@,
                self.poisoned == old(self).poisoned,
                self.prefix_pool == old(self).prefix_pool,
                self.prefix_copies@ == old(self).prefix_copies@,
                self.requests@ == old(self).requests@.update(slot as int, None),
                self.sources@ == old(self).sources@,
                forall|k: int|
                    0 <= k < l ==> window_let_go(
                        #[trigger] &self.windows@[k],
                        &old(self).windows@[k],
                        request.windows@[k],
                    ),
                forall|k: int| l <= k < LAYERS ==> #[trigger] self.windows@[k] == old(self).windows@[k],
            decreases LAYERS - l,
        {
            let held = request.windows[l];
            let ghost before = self.windows@;
            proof {
                assert(self.windows@[l as int] == old(self).windows@[l as int]);
                assert(!window_busy(old(self), &request, l as int));
            }
            if self.windows[l].request_id(held).is_ok() {
                let released = self.windows[l].release(held);
                assert(released is Ok);
            }
            proof {
                assert forall|k: int| 0 <= k < l + 1 implies window_let_go(
                    #[trigger] &self.windows@[k],
                    &old(self).windows@[k],
                    request.windows@[k],
                ) by {
                    if k < l {
                        assert(self.windows@[k] == before[k]);
                    }
                }
                assert forall|k: int| 0 <= k < LAYERS implies {
                    &&& (#[trigger] self.windows@[k]).inv()
                    &&& self.windows@[k].layer == k
                    &&& self.windows@[k].slots@.len() == self.requests@.len()
                } by {
                    if k != l {
                        assert(self.windows@[k] == before[k]);
                    }
                }
            }
            l = l + 1;
        }
        let mut i: usize = 0;
        while i < SOURCE_COUNT
            invariant
                i <= SOURCE_COUNT,
                old(self).inv(),
                old(self).release_error(lease) is None,
                request == old(self).live(lease),
                old(self).leases_wf(slot as int, &request),
                self.components_wf(),
                self.owner == old(self).owner,
                self.library == old(self).library,
                self.generations@ == old(self).generations@,
                self.poisoned == old(self).poisoned,
                self.prefix_pool == old(self).prefix_pool,
                self.prefix_copies@ == old(self).prefix_copies@,
                self.requests@ == old(self).requests@.update(slot as int, None),
                forall|k: int|
                    0 <= k < LAYERS ==> window_let_go(
                        #[trigger] &self.windows@[k],
                        &old(self).windows@[k],
                        request.windows@[k],
                    ),
                forall|k: int|
                    0 <= k < i ==> source_let_go(
                        #[trigger] &self.sources@[k],
                        &old(self).sources@[k],
                        request.sources@[k],
                    ),
                forall|k: int| i <= k < SOURCE_COUNT ==> #[trigger] self.sources@[k] == old(self).sources@[k],
            decreases SOURCE_COUNT - i,
        {
            let held = request.sources[i];
            let ghost before = self.sources@;
            proof {
                assert(self.sources@[i as int] == old(self).sources@[i as int]);
                assert(!source_busy(old(self), &request, i as int));
            }
            if self.sources[i].request_id(held).is_ok() {
                let released = self.sources[i].release(held);
                assert(released is Ok);
            }
            proof {
                assert forall|k: int| 0 <= k < i + 1 implies source_let_go(
                    #[trigger] &self.sources@[k],
                    &old(self).sources@[k],
                    request.sources@[k],
                ) by {
                    if k < i {
                        assert(self.sources@[k] == before[k]);
                    }
                }
                assert forall|k: int| 0 <= k < SOURCE_COUNT implies {
                    &&& (#[trigger] self.sources@[k]).inv()
                    &&& self.sources@[k].layer == crate::backbone_cache::source_layer(k)
                    &&& self.sources@[k].slot_count == self.requests@.len()
                } by {
                    if k != i {
                        assert(self.sources@[k] == before[k]);
                    }
                }
            }
            i = i + 1;
        }
        proof {
            self.lemma_ended_inv(old(self), slot as int);
        }
    }

    proof fn lemma_ended_inv(&self, before: &Self, slot: int)
        requires
            before.inv(),
            self.components_wf(),
            0 <= slot < before.requests@.len(),
            before.requests@[slot] is Some,
            self.ended(before, slot),
        ensures
            self.inv(),
    {
        assert forall|i: int| 0 <= i < SOURCE_COUNT implies copies::keeps_retained(
            #[trigger] &self.sources@[i],
            &before.sources@[i],
        ) by {
            assert(source_let_go(
                &self.sources@[i],
                &before.sources@[i],
                before.requests@[slot]->Some_0.sources@[i],
            ));
        }
        copies::lemma_copies_stay(
            self.prefix_copies@,
            before.sources@,
            self.sources@,
        );
        assert forall|s: int| 0 <= s < self.requests@.len() implies ((
        #[trigger] self.requests@[s]) matches Some(r) ==> self.leases_wf(s, &r)) by {
            if self.requests@[s] is Some {
                let r = self.requests@[s]->Some_0;
                assert(before.requests@[s] == Some(r));
                assert(before.leases_wf(s, &r));
                assert forall|l: int| 0 <= l < LAYERS implies {
                    &&& (#[trigger] r.windows@[l]).slot == s
                    &&& r.windows@[l].owner == self.windows@[l].owner
                } by {
                    assert(window_let_go(
                        &self.windows@[l],
                        &before.windows@[l],
                        before.requests@[slot]->Some_0.windows@[l],
                    ));
                }
                assert forall|i: int| 0 <= i < SOURCE_COUNT implies {
                    &&& (#[trigger] r.sources@[i]).slot == s
                    &&& r.sources@[i].owner == self.sources@[i].owner
                } by {
                    assert(source_let_go(
                        &self.sources@[i],
                        &before.sources@[i],
                        before.requests@[slot]->Some_0.sources@[i],
                    ));
                }
            }
        }
    }

    /// Why the requests cannot all be released, if they cannot: the first of the
    /// first `n` that cannot, or that is named twice.
    pub open spec fn first_release_error(&self, leases: Seq<CacheLease>, n: int) -> Option<Error>
        decreases n,
    {
        if n <= 0 {
            None
        } else {
            match self.first_release_error(leases, n - 1) {
                Some(e) => Some(e),
                None => match self.release_error(leases[n - 1]) {
                    Some(e) => Some(e),
                    None => if leases.take(n - 1).contains(leases[n - 1]) {
                        Some(Error::DuplicateCacheRelease)
                    } else {
                        None
                    },
                },
            }
        }
    }

    proof fn lemma_release_error_stays(&self, leases: Seq<CacheLease>, n: int, m: int)
        requires
            n <= m,
            self.first_release_error(leases, n) is Some,
        ensures
            self.first_release_error(leases, m) == self.first_release_error(leases, n),
        decreases m - n,
    {
        if n < m && m > 0 {
            self.lemma_release_error_stays(leases, n, m - 1);
        }
    }

    pub proof fn lemma_releasable(&self, leases: Seq<CacheLease>, n: int, j: int)
        requires
            self.first_release_error(leases, n) is None,
            0 <= j < n <= leases.len(),
        ensures
            self.release_error(leases[j]) is None,
            forall|k: int| 0 <= k < j ==> (#[trigger] leases[k]).slot != leases[j].slot,
        decreases n,
    {
        if j < n - 1 {
            self.lemma_releasable(leases, n - 1, j);
        } else {
            assert forall|k: int| 0 <= k < j implies (#[trigger] leases[k]).slot != leases[j].slot by {
                self.lemma_releasable(leases, n - 1, k);
                assert(leases.take(n - 1)[k] == leases[k]);
                if leases[k].slot == leases[j].slot {
                    assert(leases[k] == leases[j]);
                }
            }
        }
    }

    /// The pages of source `i` that the first `n` leases' requests give back.
    pub open spec fn released_pages(&self, leases: Seq<CacheLease>, i: int, n: int) -> Seq<u32>
        decreases n,
    {
        if n <= 0 {
            Seq::empty()
        } else {
            let slot = leases[n - 1].slot as int;
            self.released_pages(leases, i, n - 1) + if self.sources@[i].lease_error(
                self.requests@[slot]->Some_0.sources@[i],
            ) is None {
                self.sources@[i].index.pages@[slot]@
            } else {
                Seq::empty()
            }
        }
    }

    /// The requests of the first `n` leases have ended in every component and their
    /// pages are given back, those without another owner to the free lists under a
    /// new generation; all other slots are as in `before`.
    pub open spec fn all_ended(&self, before: &Self, leases: Seq<CacheLease>, n: int) -> bool {
        &&& self.owner == before.owner
        &&& self.library == before.library
        &&& self.generations@ == before.generations@
        &&& self.poisoned == before.poisoned
        &&& self.prefix_pool == before.prefix_pool
        &&& self.prefix_copies@ == before.prefix_copies@
        &&& self.requests@.len() == before.requests@.len()
        &&& forall|s: int|
            0 <= s < before.requests@.len() ==> #[trigger] self.requests@[s] == if names_slot(
                leases,
                n,
                s,
            ) {
                None
            } else {
                before.requests@[s]
            }
        &&& forall|l: int|
            0 <= l < LAYERS ==> {
                &&& (#[trigger] self.windows@[l]).same_rings(&before.windows@[l])
                &&& self.windows@[l].slots@.len() == before.windows@[l].slots@.len()
            }
        &&& forall|l: int, s: int|
            0 <= l < LAYERS && 0 <= s < before.requests@.len() ==> #[trigger] self.windows@[l].slots@[s]
                == if names_slot(leases, n, s) && before.windows@[l].lease_error(
                before.requests@[s]->Some_0.windows@[l],
            ) is None {
                WindowSlot { request: None, ..before.windows@[l].slots@[s] }
            } else {
                before.windows@[l].slots@[s]
            }
        &&& forall|i: int|
            0 <= i < SOURCE_COUNT ==> {
                &&& (#[trigger] self.sources@[i]).same_identity(&before.sources@[i])
                &&& self.sources@[i].index.same_shape(&before.sources@[i].index)
                &&& self.sources@[i].index.writing@ == before.sources@[i].index.writing@
                &&& self.sources@[i].index.plans == before.sources@[i].index.plans
                &&& forall|page: u32|
                    page < before.sources@[i].index.pool.references@.len()
                        ==> self.sources@[i].index.retained(page)
                        == #[trigger] before.sources@[i].index.retained(page)
                &&& self.sources@[i].index.pool.gave_back(
                    &before.sources@[i].index.pool,
                    before.released_pages(leases, i, n),
                )
            }
        &&& forall|i: int, s: int|
            0 <= i < SOURCE_COUNT && 0 <= s < before.requests@.len() ==> if names_slot(
                leases,
                n,
                s,
            ) && before.sources@[i].lease_error(before.requests@[s]->Some_0.sources@[i]) is None {
                &&& (#[trigger] self.sources@[i].slots@[s]) == (Slot {
                    request: None,
                    ..before.sources@[i].slots@[s]
                })
                &&& self.sources@[i].index.tables()[s].len() == 0
                &&& self.sources@[i].index.rows@[s] == 0
            } else {
                &&& self.sources@[i].slots@[s] == before.sources@[i].slots@[s]
                &&& self.sources@[i].index.tables()[s] == before.sources@[i].index.tables()[s]
                &&& self.sources@[i].index.rows@[s] == before.sources@[i].index.rows@[s]
            }
    }

    /// Ends requests in every component. No view of their caches is in use, and
    /// unless all of them can be released none is.
    pub fn release(&mut self, leases: &[CacheLease]) -> (r: Result<(), Error>)
        requires
            old(self).inv(),
        ensures
            final(self).inv(),
            match r {
                Err(e) => {
                    &&& old(self).first_release_error(leases@, leases@.len() as int) == Some(e)
                    &&& *final(self) == *old(self)
                },
                Ok(_) => {
                    &&& old(self).first_release_error(leases@, leases@.len() as int) is None
                    &&& final(self).all_ended(old(self), leases@, leases@.len() as int)
                },
            },
    {
        let mut j: usize = 0;
        while j < leases.len()
            invariant
                j <= leases@.len(),
                *self == *old(self),
                self.inv(),
                self.first_release_error(leases@, j as int) is None,
            decreases leases@.len() - j,
        {
            let lease = leases[j];
            proof {
                if self.first_release_error(leases@, j + 1) is Some {
                    self.lemma_release_error_stays(leases@, j + 1, leases@.len() as int);
                }
            }
            match self.ensure_releasable(lease) {
                Err(e) => {
                    return Err(e);
                },
                Ok(_) => {},
            }
            let mut k: usize = 0;
            while k < j
                invariant
                    k <= j < leases@.len(),
                    *self == *old(self),
                    self.inv(),
                    lease == leases@[j as int],
                    self.first_release_error(leases@, j as int) is None,
                    self.release_error(lease) is None,
                    self.first_release_error(leases@, j + 1) is Some ==> self.first_release_error(
                        leases@,
                        leases@.len() as int,
                    ) == self.first_release_error(leases@, j + 1),
                    forall|m: int| 0 <= m < k ==> leases@[m] != lease,
                decreases j - k,
            {
                if leases[k] == lease {
                    assert(leases@.take(j as int)[k as int] == lease);
                    return Err(Error::DuplicateCacheRelease);
                }
                k = k + 1;
            }
            j = j + 1;
        }
        let mut n: usize = 0;
        proof {
            assert forall|i: int| 0 <= i < SOURCE_COUNT implies (
            #[trigger] self.sources@[i]).index.pool.gave_back(
                &self.sources@[i].index.pool,
                Seq::empty(),
            ) by {
                page_pool::lemma_gave_back_nothing(&self.sources@[i].index.pool);
            }
        }
        while n < leases.len()
            invariant
                n <= leases@.len(),
                old(self).inv(),
                self.inv(),
                old(self).first_release_error(leases@, leases@.len() as int) is None,
                self.all_ended(old(self), leases@, n as int),
            decreases leases@.len() - n,
        {
            let lease = leases[n];
            let ghost between = *self;
            proof {
                self.lemma_still_releasable(old(self), leases@, n as int);
            }
            self.release_one(lease);
            proof {
                self.lemma_one_more(old(self), &between, leases@, n as int);
            }
            n = n + 1;
        }
        Ok(())
    }

    /// Ending some requests keeps the others releasable.
    proof fn lemma_still_releasable(&self, before: &Self, leases: Seq<CacheLease>, n: int)
        requires
            before.inv(),
            self.inv(),
            0 <= n < leases.len(),
            before.first_release_error(leases, leases.len() as int) is None,
            self.all_ended(before, leases, n),
        ensures
            self.release_error(leases[n]) is None,
            !names_slot(leases, n, leases[n].slot as int),
            before.release_error(leases[n]) is None,
    {
        let lease = leases[n];
        let s = lease.slot as int;
        before.lemma_releasable(leases, leases.len() as int, n);
        assert(!names_slot(leases, n, s));
        assert(self.requests@[s] == before.requests@[s]);
        let request = before.live(lease);
        assert(before.leases_wf(s, &request));
        assert forall|l: int| 0 <= l < LAYERS implies !#[trigger] window_busy(self, &request, l) by {
            assert(!window_busy(before, &request, l));
            assert(request.windows@[l].slot == s);
            assert(self.windows@[l].slots@[s] == before.windows@[l].slots@[s]);
            assert(self.windows@[l].same_rings(&before.windows@[l]));
        }
        assert forall|i: int| 0 <= i < SOURCE_COUNT implies !#[trigger] source_busy(
            self,
            &request,
            i,
        ) by {
            assert(!source_busy(before, &request, i));
            assert(request.sources@[i].slot == s);
            assert(self.sources@[i].slots@[s] == before.sources@[i].slots@[s]);
            assert(self.sources@[i].same_identity(&before.sources@[i]));
        }
    }

    proof fn lemma_one_more(
        &self,
        before: &Self,
        between: &Self,
        leases: Seq<CacheLease>,
        n: int,
    )
        requires
            before.inv(),
            between.inv(),
            self.inv(),
            0 <= n < leases.len(),
            before.release_error(leases[n]) is None,
            between.release_error(leases[n]) is None,
            !names_slot(leases, n, leases[n].slot as int),
            between.all_ended(before, leases, n),
            self.ended(between, leases[n].slot as int),
        ensures
            self.all_ended(before, leases, n + 1),
    {
        let slot = leases[n].slot as int;
        let request = before.live(leases[n]);
        assert(between.requests@[slot] == before.requests@[slot]);
        assert(before.leases_wf(slot, &request));
        assert(names_slot(leases, n + 1, slot)) by {
            assert(leases[n].slot == slot);
        }
        assert forall|s: int| s != slot implies names_slot(leases, n + 1, s) == #[trigger] names_slot(
            leases,
            n,
            s,
        ) by {
            if names_slot(leases, n + 1, s) {
                let j = choose|j: int| 0 <= j < n + 1 && (#[trigger] leases[j]).slot == s;
                assert(j < n);
            }
            if names_slot(leases, n, s) {
                let j = choose|j: int| 0 <= j < n && (#[trigger] leases[j]).slot == s;
                assert(leases[j].slot == s);
            }
        }
        assert forall|s: int| 0 <= s < before.requests@.len() implies #[trigger] self.requests@[s]
            == if names_slot(leases, n + 1, s) {
            None
        } else {
            before.requests@[s]
        } by {
            assert(between.requests@[s] == if names_slot(leases, n, s) {
                None
            } else {
                before.requests@[s]
            });
        }
        assert forall|l: int| 0 <= l < LAYERS implies {
            &&& (#[trigger] self.windows@[l]).same_rings(&before.windows@[l])
            &&& self.windows@[l].slots@.len() == before.windows@[l].slots@.len()
        } by {
            assert(window_let_go(&self.windows@[l], &between.windows@[l], request.windows@[l]));
            assert(between.windows@[l].same_rings(&before.windows@[l]));
        }
        assert forall|l: int, s: int|
            0 <= l < LAYERS && 0 <= s < before.requests@.len() implies #[trigger] self.windows@[l].slots@[s]
            == if names_slot(leases, n + 1, s) && before.windows@[l].lease_error(
            before.requests@[s]->Some_0.windows@[l],
        ) is None {
            WindowSlot { request: None, ..before.windows@[l].slots@[s] }
        } else {
            before.windows@[l].slots@[s]
        } by {
            assert(window_let_go(&self.windows@[l], &between.windows@[l], request.windows@[l]));
            assert(between.windows@[l].same_rings(&before.windows@[l]));
            assert(request.windows@[l].slot == slot);
            assert(between.windows@[l].slots@[s] == if names_slot(leases, n, s)
                && before.windows@[l].lease_error(before.requests@[s]->Some_0.windows@[l]) is None {
                WindowSlot { request: None, ..before.windows@[l].slots@[s] }
            } else {
                before.windows@[l].slots@[s]
            });
            assert(before.windows@[l].slots@.len() == before.requests@.len());
        }
        assert forall|i: int| 0 <= i < SOURCE_COUNT implies {
            &&& (#[trigger] self.sources@[i]).same_identity(&before.sources@[i])
            &&& self.sources@[i].index.same_shape(&before.sources@[i].index)
            &&& self.sources@[i].index.writing@ == before.sources@[i].index.writing@
            &&& self.sources@[i].index.plans == before.sources@[i].index.plans
            &&& forall|page: u32|
                page < before.sources@[i].index.pool.references@.len()
                    ==> self.sources@[i].index.retained(page)
                    == #[trigger] before.sources@[i].index.retained(page)
            &&& self.sources@[i].index.pool.gave_back(
                &before.sources@[i].index.pool,
                before.released_pages(leases, i, n + 1),
            )
        } by {
            assert(source_let_go(&self.sources@[i], &between.sources@[i], request.sources@[i]));
            assert(between.sources@[i].same_identity(&before.sources@[i]));
            let now = self.sources@[i];
            let mid = between.sources@[i];
            let was = before.sources@[i];
            assert(mid.inv() && was.inv());
            assert(request.sources@[i].slot == slot);
            assert(mid.slots@[slot] == mid.slots@[slot]);
            assert(mid.slots@[slot] == was.slots@[slot]);
            assert(mid.index.tables()[slot] == mid.index.pages@[slot]@);
            assert(was.index.tables()[slot] == was.index.pages@[slot]@);
            let earlier = before.released_pages(leases, i, n);
            if was.lease_error(request.sources@[i]) is None {
                assert(mid.lease_error(request.sources@[i]) is None);
                assert(was.index.pool.in_range(was.index.pages@[slot]@));
                page_pool::lemma_gave_back_twice(
                    &was.index.pool,
                    &mid.index.pool,
                    &now.index.pool,
                    earlier,
                    was.index.pages@[slot]@,
                );
            } else {
                assert(earlier + Seq::<u32>::empty() =~= earlier);
            }
        }
        assert forall|i: int, s: int|
            0 <= i < SOURCE_COUNT && 0 <= s < before.requests@.len() implies if names_slot(
            leases,
            n + 1,
            s,
        ) && before.sources@[i].lease_error(before.requests@[s]->Some_0.sources@[i]) is None {
            &&& (#[trigger] self.sources@[i].slots@[s]) == (Slot {
                request: None,
                ..before.sources@[i].slots@[s]
            })
            &&& self.sources@[i].index.tables()[s].len() == 0
            &&& self.sources@[i].index.rows@[s] == 0
        } else {
            &&& self.sources@[i].slots@[s] == before.sources@[i].slots@[s]
            &&& self.sources@[i].index.tables()[s] == before.sources@[i].index.tables()[s]
            &&& self.sources@[i].index.rows@[s] == before.sources@[i].index.rows@[s]
        } by {
            let now = self.sources@[i];
            let mid = between.sources@[i];
            assert(source_let_go(&now, &mid, request.sources@[i]));
            assert(mid.same_identity(&before.sources@[i]));
            assert(request.sources@[i].slot == slot);
            assert(request.sources@[i].owner == before.sources@[i].owner);
            assert(mid.slots@[s] == mid.slots@[s]);
            assert(mid.inv() && now.inv() && before.sources@[i].inv());
            if s == slot {
                assert(mid.slots@[slot] == before.sources@[i].slots@[slot]);
                assert(mid.lease_error(request.sources@[i]) == before.sources@[i].lease_error(
                    request.sources@[i],
                ));
            }
        }
    }

    /// Why the tokens do not fit the page pools, if they do not: the first source
    /// in which a request is not usable or the pages run out.
    pub open spec fn first_capacity_error(&self, work: Seq<(CacheLease, u32)>, n: int) -> Option<Error>
        decreases n,
    {
        if n <= 0 {
            None
        } else {
            match self.first_capacity_error(work, n - 1) {
                Some(e) => Some(e),
                None => match self.first_unusable(work, work.len() as int) {
                    Some(e) => Some(e),
                    None => self.sources@[n - 1].capacity_error(self.source_work(work, n - 1)),
                },
            }
        }
    }

    pub open spec fn first_unusable(&self, work: Seq<(CacheLease, u32)>, n: int) -> Option<Error>
        decreases n,
    {
        if n <= 0 {
            None
        } else {
            match self.first_unusable(work, n - 1) {
                Some(e) => Some(e),
                None => self.request_error(work[n - 1].0),
            }
        }
    }

    /// The work in terms of source `i`'s leases.
    pub open spec fn source_work(&self, work: Seq<(CacheLease, u32)>, i: int) -> Seq<AppendWork> {
        Seq::new(work.len(), |j: int| (self.live(work[j].0).sources@[i], work[j].1))
    }

    proof fn lemma_unusable_stays(&self, work: Seq<(CacheLease, u32)>, n: int, m: int)
        requires
            n <= m,
            self.first_unusable(work, n) is Some,
        ensures
            self.first_unusable(work, m) == self.first_unusable(work, n),
        decreases m - n,
    {
        if n < m && m > 0 {
            self.lemma_unusable_stays(work, n, m - 1);
        }
    }

    proof fn lemma_capacity_error_stays(&self, work: Seq<(CacheLease, u32)>, n: int, m: int)
        requires
            n <= m,
            self.first_capacity_error(work, n) is Some,
        ensures
            self.first_capacity_error(work, m) == self.first_capacity_error(work, n),
        decreases m - n,
    {
        if n < m && m > 0 {
            self.lemma_capacity_error_stays(work, n, m - 1);
        }
    }

    fn leases_of_source(&self, work: &[(CacheLease, u32)], i: usize) -> (r: Result<
        Vec<AppendWork>,
        Error,
    >)
        requires
            self.inv(),
            i < SOURCE_COUNT,
        ensures
            match r {
                Ok(appends) => self.first_unusable(work@, work@.len() as int) is None && appends@
                    == self.source_work(work@, i as int),
                Err(e) => self.first_unusable(work@, work@.len() as int) == Some(e),
            },
    {
        let mut appends: Vec<AppendWork> = Vec::new();
        let mut j: usize = 0;
        while j < work.len()
            invariant
                j <= work@.len(),
                self.inv(),
                i < SOURCE_COUNT,
                self.first_unusable(work@, j as int) is None,
                appends@ == self.source_work(work@, i as int).take(j as int),
            decreases work@.len() - j,
        {
            let (lease, tokens) = work[j];
            match self.request(lease) {
                Err(e) => {
                    proof {
                        self.lemma_unusable_stays(work@, j + 1, work@.len() as int);
                    }
                    return Err(e);
                },
                Ok(request) => {
                    assert(self.leases_wf(lease.slot as int, request));
                    appends.push((request.sources[i], tokens));
                },
            }
            j = j + 1;
            assert(appends@ =~= self.source_work(work@, i as int).take(j as int));
        }
        assert(appends@ =~= self.source_work(work@, i as int));
        Ok(appends)
    }

    /// The components hold what they held, but for ghost bookkeeping.
    pub open spec fn same_contents(&self, before: &Self) -> bool {
        &&& self.owner == before.owner
        &&& self.library == before.library
        &&& self.requests@ == before.requests@
        &&& self.generations@ == before.generations@
        &&& self.poisoned == before.poisoned
        &&& self.prefix_pool == before.prefix_pool
        &&& self.prefix_copies@ == before.prefix_copies@
        &&& self.windows@ == before.windows@
        &&& forall|i: int|
            0 <= i < SOURCE_COUNT ==> (#[trigger] self.sources@[i]).same_contents(
                &before.sources@[i],
            )
    }

    /// Whether all sources have pages for the tokens; nothing is claimed.
    pub fn check_append_capacity(&mut self, work: &[(CacheLease, u32)]) -> (r: Result<(), Error>)
        requires
            old(self).inv(),
        ensures
            final(self).inv(),
            final(self).same_contents(old(self)),
            match r {
                Ok(_) => old(self).first_capacity_error(work@, 4) is None,
                Err(e) => old(self).first_capacity_error(work@, 4) == Some(e),
            },
    {
        let mut i: usize = 0;
        while i < SOURCE_COUNT
            invariant
                i <= SOURCE_COUNT,
                old(self).inv(),
                self.inv(),
                self.same_contents(old(self)),
                forall|k: int| i <= k < SOURCE_COUNT ==> #[trigger] self.sources@[k] == old(self).sources@[k],
                old(self).first_capacity_error(work@, i as int) is None,
            decreases SOURCE_COUNT - i,
        {
            let ghost between = *self;
            proof {
                if old(self).first_capacity_error(work@, i + 1) is Some {
                    old(self).lemma_capacity_error_stays(work@, i + 1, 4);
                }
                self.lemma_same_unusable(old(self), work@, work@.len() as int);
                assert(self.source_work(work@, i as int) =~= old(self).source_work(
                    work@,
                    i as int,
                ));
                assert(self.sources@[i as int] == old(self).sources@[i as int]);
            }
            let appends = match self.leases_of_source(work, i) {
                Err(e) => {
                    return Err(e);
                },
                Ok(appends) => appends,
            };
            let checked = self.sources[i].check_append_capacity(appends.as_slice());
            proof {
                assert forall|k: int| 0 <= k < SOURCE_COUNT implies (
                #[trigger] self.sources@[k]).same_contents(&old(self).sources@[k]) by {
                    if k != i {
                        assert(self.sources@[k] == between.sources@[k]);
                    }
                }
                assert forall|k: int| 0 <= k < SOURCE_COUNT implies {
                    &&& (#[trigger] self.sources@[k]).inv()
                    &&& self.sources@[k].layer == crate::backbone_cache::source_layer(k)
                    &&& self.sources@[k].slot_count == self.requests@.len()
                } by {
                    assert(self.sources@[k].same_contents(&old(self).sources@[k]));
                    if k != i {
                        assert(self.sources@[k] == between.sources@[k]);
                    }
                }
                assert forall|k: int| 0 <= k < SOURCE_COUNT implies (
                #[trigger] self.sources@[k]).owner == old(self).sources@[k].owner by {
                    assert(self.sources@[k].same_contents(&old(self).sources@[k]));
                }
                assert forall|k: int| 0 <= k < SOURCE_COUNT implies copies::keeps_retained(
                    #[trigger] &self.sources@[k],
                    &old(self).sources@[k],
                ) by {
                    assert(self.sources@[k].same_contents(&old(self).sources@[k]));
                    assert(self.sources@[k].index.tables() =~= old(self).sources@[k].index.tables());
                }
                copies::lemma_copies_stay(
                    self.prefix_copies@,
                    old(self).sources@,
                    self.sources@,
                );
                self.lemma_leases_stay(old(self));
            }
            match checked {
                Err(e) => {
                    return Err(e);
                },
                Ok(_) => {},
            }
            i = i + 1;
        }
        Ok(())
    }

    proof fn lemma_same_unusable(&self, before: &Self, work: Seq<(CacheLease, u32)>, n: int)
        requires
            self.same_contents(before),
        ensures
            self.first_unusable(work, n) == before.first_unusable(work, n),
        decreases n,
    {
        if n > 0 {
            self.lemma_same_unusable(before, work, n - 1);
            assert(self.request_error(work[n - 1].0) == before.request_error(work[n - 1].0));
        }
    }
}

/// A released lease stays dead, whatever request gets its slot next: leases name
/// a generation, and a slot's generation only grows.
pub proof fn law_released_lease_stays_dead(
    before: &BackboneCache,
    released: &BackboneCache,
    reused: &BackboneCache,
    lease: CacheLease,
    id: u64,
)
    requires
        before.inv(),
        before.release_error(lease) is None,
        released.all_ended(before, seq![lease], 1),
        reused.begun(released, lease.slot as int, id),
        released.generations@[lease.slot as int] < u64::MAX,
    ensures
        released.identity_error(lease) == Some(Error::CacheRequestReleased),
        reused.identity_error(lease) == Some(Error::ForeignCacheLease),
{
    let leases = seq![lease];
    assert(leases[0].slot == lease.slot);
    assert(names_slot(leases, 1, lease.slot as int));
    assert(released.requests@[lease.slot as int] is None);
}

} // verus!
