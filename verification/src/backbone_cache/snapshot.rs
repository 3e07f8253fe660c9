//! Prefixes on their way: each lane copies one request's prefix at a time, and
//! the request cannot be used meanwhile.
use crate::backbone_cache::copies;
use crate::backbone_cache;
use crate::backbone_cache::history;
use crate::backbone_cache::prefix;
use crate::backbone_cache::prefix::{BackbonePrefix, PrefixCopies};
use crate::backbone_cache::{BackboneCache, CacheLease, PendingPrefix, SNAPSHOT_LANES, SOURCE_COUNT};
use crate::compressor::prefix::{CarryBuffers, CompressorPrefix};
use crate::device::DeviceBuffer;
use crate::error::Error;
use crate::tally;
use vstd::prelude::*;

verus! {

impl BackboneCache {
    /// Starts to keep a request's prefix on a lane.
    pub fn queue_prefix(
        &mut self,
        lane: usize,
        lease: CacheLease,
        budget: usize,
        tail: DeviceBuffer,
        window_bytes: usize,
        carries: &[Option<CarryBuffers>],
    ) -> (r: Result<PrefixCopies, Error>)
        requires
            old(self).inv(),
            tail.wf(),
            prefix::tail_bytes(window_bytes as int) <= tail.bytes,
            prefix::carries_serve(old(self).sources@, carries@),
            old(self).identity_error(lease) is None ==> forall|i: int|
                0 <= i < SOURCE_COUNT ==> (#[trigger] old(self).sources@[i]).index.references_fit(
                    old(self).sources@[i].index.pages@[lease.slot as int]@,
                ),
        ensures
            final(self).inv(),
            match r {
                Err(e) => {
                    &&& *final(self) == *old(self)
                    &&& if lane >= SNAPSHOT_LANES {
                        e == Error::SnapshotLane
                    } else if old(self).prefix_copies@[lane as int] is Some {
                        e == Error::SnapshotOccupied
                    } else {
                        old(self).prefix_error(lease, window_bytes, budget) == Some(e)
                    }
                },
                Ok(copies) => {
                    &&& lane < SNAPSHOT_LANES
                    &&& old(self).prefix_error(lease, window_bytes, budget) is None
                    &&& history::is_queued(old(self), final(self), lane as int, lease)
                    &&& final(self).prefix_copies@[lane as int]->Some_0.prefix.tail == tail
                    &&& final(self).library == old(self).library
                    &&& final(self).prefix_pool == old(self).prefix_pool
                    &&& final(self).request_error(lease) == Some(Error::SnapshotPending)
                    &&& copies.windows@ == prefix::window_parts(tail, window_bytes as int, 40)
                    &&& copies.carries@ == prefix::carried_copies(
                        old(self).sources@,
                        carries@,
                        tail,
                        window_bytes as int,
                        lease.slot as int,
                        old(self).live(lease).end,
                        true,
                        4,
                    )
                },
            },
    {
        if lane >= self.prefix_copies.len() {
            return Err(Error::SnapshotLane);
        }
        if self.prefix_copies[lane].is_some() {
            return Err(Error::SnapshotOccupied);
        }
        match self.retain_prefix(lease, budget, tail, window_bytes, carries) {
            Err(e) => Err(e),
            Ok((kept, copies)) => {
                let ghost between = *self;
                self.prefix_copies[lane] = Some(PendingPrefix { lease, prefix: kept });
                proof {
                    assert(between.issued(lease));
                    assert(self.prefix_copies@ =~= between.prefix_copies@.update(
                        lane as int,
                        Some(PendingPrefix { lease, prefix: kept }),
                    ));
                    copies::lemma_copies_added(
                        old(self).prefix_copies@,
                        old(self).sources@,
                        self.sources@,
                        lane as int,
                        PendingPrefix { lease, prefix: kept },
                    );
                    self.lemma_leases_stay(&between);
                    assert(self.prefix_copies@[lane as int] matches Some(p) && p.lease == lease);
                    assert forall|i: int| 0 <= i < SOURCE_COUNT implies self.source_retained(
                        old(self),
                        i,
                        #[trigger] kept.sources@[i],
                    ) by {
                        assert(between.source_retained(old(self), i, kept.sources@[i]));
                    }
                }
                Ok(copies)
            },
        }
    }

    /// Why the lane does not copy the request's prefix, if it does not.
    pub open spec fn lane_error(&self, lane: int, lease: CacheLease) -> Option<Error> {
        if lane >= SNAPSHOT_LANES {
            Some(Error::SnapshotLane)
        } else if !(self.prefix_copies@[lane] matches Some(pending) && pending.lease == lease) {
            Some(Error::SnapshotOwner)
        } else {
            self.identity_error(lease)
        }
    }

    /// Whether the lane has copied the request's prefix; `drained` tells whether
    /// its stream is empty.
    pub fn prefix_ready(&self, lane: usize, lease: CacheLease, drained: bool) -> (r: Result<
        bool,
        Error,
    >)
        requires
            self.inv(),
        ensures
            match r {
                Ok(ready) => self.lane_error(lane as int, lease) is None && ready == drained,
                Err(e) => self.lane_error(lane as int, lease) == Some(e),
            },
    {
        if lane >= self.prefix_copies.len() {
            return Err(Error::SnapshotLane);
        }
        match &self.prefix_copies[lane] {
            Some(pending) => {
                if pending.lease != lease {
                    return Err(Error::SnapshotOwner);
                }
            },
            None => {
                return Err(Error::SnapshotOwner);
            },
        }
        match self.request_identity(lease) {
            Err(e) => Err(e),
            Ok(_) => Ok(drained),
        }
    }

    /// Takes the finished prefix from its lane.
    pub fn finish_prefix(&mut self, lane: usize, lease: CacheLease, drained: bool) -> (r: Result<
        BackbonePrefix,
        Error,
    >)
        requires
            old(self).inv(),
        ensures
            final(self).inv(),
            match r {
                Ok(kept) => {
                    &&& old(self).lane_error(lane as int, lease) is None
                    &&& drained
                    &&& old(self).prefix_copies@[lane as int] == Some(
                        PendingPrefix { lease, prefix: kept },
                    )
                    &&& final(self).prefix_copies@ == old(self).prefix_copies@.update(
                        lane as int,
                        None,
                    )
                    &&& final(self).requests@ == old(self).requests@
                    &&& final(self).generations@ == old(self).generations@
                    &&& final(self).windows@ == old(self).windows@
                    &&& final(self).sources@ == old(self).sources@
                    &&& final(self).owner == old(self).owner
                    &&& final(self).library == old(self).library
                    &&& final(self).prefix_pool == old(self).prefix_pool
                    &&& final(self).poisoned == old(self).poisoned
                },
                Err(e) => {
                    &&& *final(self) == *old(self)
                    &&& match old(self).lane_error(lane as int, lease) {
                        Some(reason) => e == reason,
                        None => e == Error::SnapshotIncomplete && !drained,
                    }
                },
            },
    {
        match self.prefix_ready(lane, lease, drained) {
            Err(e) => {
                return Err(e);
            },
            Ok(ready) => {
                if !ready {
                    return Err(Error::SnapshotIncomplete);
                }
            },
        }
        let ghost before = *self;
        let mut taken: Option<PendingPrefix> = None;
        std::mem::swap(&mut self.prefix_copies[lane], &mut taken);
        proof {
            assert(self.prefix_copies@ =~= before.prefix_copies@.update(lane as int, None));
            copies::lemma_copies_taken(before.prefix_copies@, self.sources@, lane as int);
            self.lemma_leases_stay(&before);
        }
        match taken {
            Some(pending) => Ok(pending.prefix),
            None => {
                assert(false);
                Err(Error::SnapshotOwner)
            },
        }
    }

    /// Every source keeps the pages of the prefix, besides those of the prefixes
    /// that are being copied.
    pub open spec fn keeps(&self, kept: &BackbonePrefix) -> bool {
        &&& kept.sources@.len() == SOURCE_COUNT
        &&& forall|i: int|
            0 <= i < SOURCE_COUNT ==> {
                &&& self.sources@[i].index.holds(&(#[trigger] kept.sources@[i]).source)
                &&& copies::spared(
                    self.prefix_copies@,
                    &self.sources@[i],
                    i,
                    kept.sources@[i].source.pages@,
                )
            }
    }

    /// Source `i` has given up the pages of `kept` and is otherwise as in `before`.
    pub open spec fn source_evicted(&self, before: &Self, i: int, kept: CompressorPrefix) -> bool {
        let now = self.sources@[i];
        let was = before.sources@[i];
        &&& now.slots@ == was.slots@
        &&& now.same_identity(&was)
        &&& now.index.same_shape(&was.index)
        &&& now.index.tables() == was.index.tables()
        &&& now.index.rows@ == was.index.rows@
        &&& now.index.writing@ == was.index.writing@
        &&& now.index.plans == was.index.plans
        &&& now.index.pool.gave_back(&was.index.pool, kept.source.pages@)
        &&& forall|p: u32|
            p < was.index.pool.references@.len() ==> now.index.retained(p) == was.index.retained(p)
                - #[trigger] tally::occurrences(kept.source.pages@, p)
    }

    /// Gives up a retained prefix: pages that nobody else owns are free again.
    pub fn evict_prefix(&mut self, kept: BackbonePrefix)
        requires
            old(self).inv(),
            old(self).keeps(&kept),
        ensures
            final(self).inv(),
            final(self).same_books(old(self)),
            final(self).poisoned == old(self).poisoned,
            final(self).windows@ == old(self).windows@,
            forall|i: int|
                0 <= i < SOURCE_COUNT ==> final(self).source_evicted(
                    old(self),
                    i,
                    #[trigger] kept.sources@[i],
                ),
    {
        let mut left = kept.sources;
        let mut i: usize = SOURCE_COUNT;
        while i > 0
            invariant
                i <= SOURCE_COUNT,
                old(self).inv(),
                self.inv(),
                old(self).keeps(&kept),
                self.same_books(old(self)),
                self.poisoned == old(self).poisoned,
                self.windows@ == old(self).windows@,
                left@ == kept.sources@.take(i as int),
                forall|k: int|
                    i <= k < SOURCE_COUNT ==> self.source_evicted(
                        old(self),
                        k,
                        #[trigger] kept.sources@[k],
                    ),
                forall|k: int|
                    0 <= k < i ==> #[trigger] self.sources@[k] == old(self).sources@[k],
            decreases i,
        {
            i = i - 1;
            let ghost between = *self;
            let one = left.pop();
            proof {
                assert(left@ =~= kept.sources@.take(i as int));
                assert(one == Some(kept.sources@[i as int]));
                assert(old(self).sources@[i as int].index.holds(&kept.sources@[i as int].source));
                assert(self.sources@[i as int] == old(self).sources@[i as int]);
            }
            match one {
                Some(saved) => {
                    self.sources[i].evict_pages(saved);
                },
                None => {},
            }
            proof {
                assert forall|k: int| 0 <= k < SOURCE_COUNT && k != i implies #[trigger] self.sources@[k]
                    == between.sources@[k] by {}
                assert(self.components_wf()) by {
                    assert forall|k: int| 0 <= k < SOURCE_COUNT implies {
                        &&& (#[trigger] self.sources@[k]).inv()
                        &&& self.sources@[k].layer == backbone_cache::source_layer(k)
                        &&& self.sources@[k].slot_count == self.requests@.len()
                    } by {
                        assert(between.sources@[k].inv());
                    }
                }
                assert forall|k: int| 0 <= k < SOURCE_COUNT implies (
                #[trigger] self.sources@[k]).owner == between.sources@[k].owner by {}
                assert(self.source_evicted(old(self), i as int, kept.sources@[i as int]));
                copies::lemma_copies_spared(
                    self.prefix_copies@,
                    between.sources@,
                    self.sources@,
                    i as int,
                    kept.sources@[i as int].source.pages@,
                );
                self.lemma_leases_stay(&between);
                assert forall|k: int| i <= k < SOURCE_COUNT implies self.source_evicted(
                    old(self),
                    k,
                    #[trigger] kept.sources@[k],
                ) by {
                    if k > i {
                        assert(between.source_evicted(old(self), k, kept.sources@[k]));
                        assert(self.sources@[k] == between.sources@[k]);
                    }
                }
            }
        }
    }

    /// Gives up what a lane copies, after its stream has been drained.
    pub fn abort_prefix(&mut self, lane: usize) -> (r: Result<(), Error>)
        requires
            old(self).inv(),
        ensures
            final(self).inv(),
            match r {
                Err(e) => e == Error::SnapshotLane && lane >= SNAPSHOT_LANES && *final(self) == *old(self),
                Ok(_) => {
                    &&& lane < SNAPSHOT_LANES
                    &&& final(self).prefix_copies@ == old(self).prefix_copies@.update(
                        lane as int,
                        None,
                    )
                    &&& final(self).requests@ == old(self).requests@
                    &&& final(self).generations@ == old(self).generations@
                    &&& final(self).owner == old(self).owner
                    &&& final(self).library == old(self).library
                    &&& final(self).prefix_pool == old(self).prefix_pool
                    &&& final(self).poisoned == old(self).poisoned
                    &&& final(self).windows@ == old(self).windows@
                    &&& match old(self).prefix_copies@[lane as int] {
                        Some(pending) => forall|i: int|
                            0 <= i < SOURCE_COUNT ==> final(self).source_evicted(
                                old(self),
                                i,
                                #[trigger] pending.prefix.sources@[i],
                            ),
                        None => final(self).sources@ == old(self).sources@,
                    }
                },
            },
    {
        if lane >= self.prefix_copies.len() {
            return Err(Error::SnapshotLane);
        }
        let ghost before = *self;
        let mut taken: Option<PendingPrefix> = None;
        std::mem::swap(&mut self.prefix_copies[lane], &mut taken);
        proof {
            assert(self.prefix_copies@ =~= before.prefix_copies@.update(lane as int, None));
            if before.prefix_copies@[lane as int] is Some {
                copies::lemma_copies_taken(
                    before.prefix_copies@,
                    self.sources@,
                    lane as int,
                );
            } else {
                assert(self.prefix_copies@ =~= before.prefix_copies@);
            }
            self.lemma_leases_stay(&before);
        }
        let ghost between = *self;
        if let Some(pending) = taken {
            proof {
                assert(before.prefix_copies@[lane as int] == Some(pending));
                assert(self.keeps(&pending.prefix));
            }
            let ghost prefix = pending.prefix;
            self.evict_prefix(pending.prefix);
            proof {
                assert forall|i: int| 0 <= i < SOURCE_COUNT implies self.source_evicted(
                    old(self),
                    i,
                    #[trigger] prefix.sources@[i],
                ) by {
                    assert(self.source_evicted(&between, i, prefix.sources@[i]));
                }
            }
        }
        Ok(())
    }
}

/// Keeping a prefix and giving it up again leaves every page with the owners it
/// had.
pub proof fn law_evicting_undoes_retaining(
    before: &BackboneCache,
    kept: &BackboneCache,
    after: &BackboneCache,
    prefix: &BackbonePrefix,
    i: int,
    page: u32,
)
    requires
        0 <= i < SOURCE_COUNT,
        kept.source_retained(before, i, prefix.sources@[i]),
        after.source_evicted(kept, i, prefix.sources@[i]),
        page < before.sources@[i].index.pool.references@.len(),
    ensures
        after.sources@[i].index.retained(page) == before.sources@[i].index.retained(page),
        after.sources@[i].index.tables() == before.sources@[i].index.tables(),
        after.sources@[i].slots@ == before.sources@[i].slots@,
{
    let pages = prefix.sources@[i].source.pages@;
    assert(kept.sources@[i].index.retained(page) == before.sources@[i].index.retained(page)
        + tally::occurrences(pages, page));
    assert(after.sources@[i].index.retained(page) == kept.sources@[i].index.retained(page)
        - tally::occurrences(pages, page));
}

} // verus!
