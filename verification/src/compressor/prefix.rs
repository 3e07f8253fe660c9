//! Retained frontiers of compressed sources, with the carried row of an
//! unfinished ratio-two group.
use crate::compressor::{CompressorLease, CompressorState, Slot, MAX_CONTEXT};
use crate::device::{DeviceBuffer, DeviceCopy};
use crate::error::Error;
use crate::source_cache;
use crate::source_cache::{SourcePrefix, MAX_SLOTS};
use vstd::prelude::*;

verus! {

/// Bytes that keep both projections of a carried row.
pub const COMPRESSOR_PREFIX_BYTES: usize = 4096;

pub const CARRY_BYTES: usize = 2048;

pub struct CompressorPrefix {
    pub owner: u64,
    pub end: u64,
    pub source: SourcePrefix,
}

impl CompressorPrefix {
    /// Owner, frontier and the retained source pages, for the host cache.
    pub fn parts(&self) -> (r: (u64, u64, &SourcePrefix))
        ensures
            r.0 == self.owner,
            r.1 == self.end,
            *r.2 == self.source,
    {
        (self.owner, self.end, &self.source)
    }

    /// Rebuilds from a host copy; `source` comes from `SourceCache::allocate_prefix`.
    pub fn from_parts(owner: u64, end: u64, source: SourcePrefix) -> (r: Self)
        ensures
            r.owner == owner,
            r.end == end,
            r.source == source,
    {
        CompressorPrefix { owner, end, source }
    }
}

/// The two carried projections of every slot, for a ratio of two.
#[derive(Debug, Clone, Copy, PartialEq, Eq, Structural)]
pub struct CarryBuffers {
    pub projected: DeviceBuffer,
    pub scores: DeviceBuffer,
}

/// Copies between a slot's carried projections and their saved form.
pub open spec fn carry_copies(
    carry: CarryBuffers,
    slot: int,
    saved: DeviceBuffer,
    save: bool,
) -> Seq<DeviceCopy> {
    let live = seq![
        carry.projected.slice_of(slot * 2048, 2048),
        carry.scores.slice_of(slot * 2048, 2048),
    ];
    let kept = seq![saved.slice_of(0, 2048), saved.slice_of(2048, 2048)];
    Seq::new(
        2,
        |i: int|
            if save {
                DeviceCopy { destination: kept[i], source: live[i] }
            } else {
                DeviceCopy { destination: live[i], source: kept[i] }
            },
    )
}

impl CarryBuffers {
    pub open spec fn serve(&self, state: &CompressorState) -> bool {
        &&& self.projected.wf() && self.projected.bytes == state.slot_count * 2048
        &&& self.scores.wf() && self.scores.bytes == state.slot_count * 2048
    }

    /// The copies of slot `slot`'s carried row to (`save`) or from `saved`.
    fn copies(&self, state: &CompressorState, slot: usize, saved: &DeviceBuffer, save: bool) -> (r: Vec<
        DeviceCopy,
    >)
        requires
            state.inv(),
            self.serve(state),
            slot < state.slot_count,
            saved.wf(),
            saved.bytes == COMPRESSOR_PREFIX_BYTES,
        ensures
            r@ == carry_copies(*self, slot as int, *saved, save),
    {
        let mut copies: Vec<DeviceCopy> = Vec::new();
        let first = self.projected.slice(slot * CARRY_BYTES, CARRY_BYTES);
        let second = self.scores.slice(slot * CARRY_BYTES, CARRY_BYTES);
        let kept = saved.slice(0, CARRY_BYTES);
        let other = saved.slice(CARRY_BYTES, CARRY_BYTES);
        if save {
            copies.push(DeviceCopy { destination: kept, source: first });
            copies.push(DeviceCopy { destination: other, source: second });
        } else {
            copies.push(DeviceCopy { destination: first, source: kept });
            copies.push(DeviceCopy { destination: second, source: other });
        }
        assert(copies@ =~= carry_copies(*self, slot as int, *saved, save));
        copies
    }
}

impl CompressorState {
    /// Nothing has been committed to the request yet.
    pub open spec fn fresh(&self, slot: int) -> bool {
        self.slots@[slot].end == 0 && self.slots@[slot].version == 0
    }

    /// Carried rows exist exactly for a ratio of two.
    pub open spec fn carried_by(&self, carry: Option<CarryBuffers>) -> bool {
        &&& carry is Some == (self.step() == 2)
        &&& carry matches Some(buffers) ==> buffers.serve(self)
    }

    /// What attaching the pages of `source` to `slot` at frontier `end` does.
    pub open spec fn attached(
        &self,
        before: &Self,
        slot: int,
        pages: Seq<u32>,
        rows: usize,
        end: u64,
    ) -> bool {
        &&& self.same_identity(before)
        &&& self.slots@ == before.slots@.update(
            slot,
            Slot { end, version: 1, ..before.slots@[slot] },
        )
        &&& self.index.same_shape(&before.index)
        &&& self.index.tables() == before.index.tables().update(slot, pages)
        &&& self.index.rows@ == before.index.rows@.update(slot, rows)
        &&& self.index.writing@ == before.index.writing@
        &&& self.index.plans == before.index.plans
        &&& self.index.pool.free@ == before.index.pool.free@
        &&& self.index.pool.generations@ == before.index.pool.generations@
        &&& self.index.pool.references@.len() == before.index.pool.references@.len()
        &&& forall|p: u32|
            p < before.index.pool.references@.len() ==> self.index.retained(p)
                == #[trigger] before.index.retained(p)
    }

    /// Attaches `source` to an idle live slot at frontier `end`.
    fn attach(&mut self, slot: usize, source: &SourcePrefix, end: u64) -> (r: Result<(), Error>)
        requires
            old(self).inv(),
            slot < old(self).slot_count,
            old(self).slots@[slot as int].request is Some,
            !old(self).index.writing@[slot as int],
            end <= MAX_CONTEXT,
            old(self).index.restore_error(slot as int, source) is None ==> old(self).index.holds(
                source,
            ) && old(self).index.references_fit(source.pages@),
        ensures
            final(self).inv(),
            match r {
                Err(e) => old(self).index.restore_error(slot as int, source) == Some(e)
                    && *final(self) == *old(self),
                Ok(_) => {
                    &&& old(self).index.restore_error(slot as int, source) is None
                    &&& final(self).attached(
                        old(self),
                        slot as int,
                        source.pages@,
                        source.rows,
                        end,
                    )
                },
            },
    {
        match self.index.restore_prefix(slot, source) {
            Err(e) => {
                return Err(e);
            },
            Ok(_) => {},
        }
        let was: Slot = self.slots[slot];
        self.slots[slot] = Slot {
            generation: was.generation,
            version: 1,
            request: was.request,
            end,
        };
        proof {
            assert forall|s: int| 0 <= s < MAX_SLOTS implies {
                &&& (#[trigger] self.slots@[s]).end <= MAX_CONTEXT
                &&& s >= self.slot_count ==> self.slots@[s].request is None
                &&& self.slots@[s].request is None ==> self.index.pages@[s]@.len() == 0
                    && !self.index.writing@[s]
            } by {
                assert(old(self).slots@[s].end <= MAX_CONTEXT);
                assert(self.index.tables()[s] == self.index.pages@[s]@);
                assert(old(self).index.tables()[s] == old(self).index.pages@[s]@);
            }
            assert forall|p: u32| p < old(self).index.pool.references@.len() implies
                self.index.retained(p) == #[trigger] old(self).index.retained(p) by {
                assert(self.index.pool.references@[p as int] == self.index.pool.references@[p as int]);
            }
        }
        Ok(())
    }

    /// Why the first `end` tokens of `prefix` cannot be restored to `lease`.
    pub open spec fn compressed_restore_error(
        &self,
        lease: CompressorLease,
        prefix: &CompressorPrefix,
        end: u64,
    ) -> Option<Error> {
        match self.idle_error(lease) {
            Some(e) => Some(e),
            None => if !(prefix.owner == self.owner && end <= prefix.end && end as int % self.step()
                == 0 && self.fresh(lease.slot as int)) {
                Some(Error::CompressedRestore)
            } else if end as int / self.step() > prefix.source.rows {
                Some(Error::PrefixTruncation)
            } else {
                let pages = source_cache::page_count(end as int / self.step());
                if !(self.index.pages@[lease.slot as int]@.len() == 0 && prefix.source.pool
                    == self.index.identity && pages <= self.index.stride) {
                    Some(Error::ForeignPrefix)
                } else {
                    None
                }
            },
        }
    }

    /// Restores only complete compression groups of a retained source. There is
    /// no pending group at this frontier, so no carried row is read.
    pub fn restore_compressed_prefix(
        &mut self,
        lease: CompressorLease,
        prefix: &CompressorPrefix,
        end: u64,
    ) -> (r: Result<(), Error>)
        requires
            old(self).inv(),
            prefix.end <= MAX_CONTEXT,
            prefix.source.wf(),
            old(self).compressed_restore_error(lease, prefix, end) is None ==> old(self).index.holds(&prefix.source) && old(self).index.references_fit(prefix.source.pages@),
        ensures
            final(self).inv(),
            match r {
                Err(e) => old(self).compressed_restore_error(lease, prefix, end) == Some(e)
                    && *final(self) == *old(self),
                Ok(_) => {
                    let rows = end as int / old(self).step();
                    &&& old(self).compressed_restore_error(lease, prefix, end) is None
                    &&& final(self).attached(
                        old(self),
                        lease.slot as int,
                        prefix.source.pages@.take(source_cache::page_count(rows)),
                        rows as usize,
                        end,
                    )
                },
            },
    {
        let slot: usize = match self.validate(lease) {
            Err(e) => {
                return Err(e);
            },
            Ok(slot) => slot,
        };
        let step: u64 = if self.layer == 20 {
            1
        } else {
            2
        };
        if !(prefix.owner == self.owner && end <= prefix.end && end % step == 0
            && self.slots[slot].end == 0 && self.slots[slot].version == 0) {
            return Err(Error::CompressedRestore);
        }
        let rows: usize = (end / step) as usize;
        if rows > prefix.source.rows {
            return Err(Error::PrefixTruncation);
        }
        let count: usize = source_cache::pages_for_rows(rows);
        let pages = source_cache::retained::copy_pages(&prefix.source.pages, count);
        let source = SourcePrefix { pool: prefix.source.pool, pages, rows };
        proof {
            if self.index.restore_error(slot as int, &source) is None {
                assert forall|i: int| 0 <= i < source.pages@.len() implies self.index.retained(
                    #[trigger] source.pages@[i],
                ) > 0 && source.pages@[i] < self.index.pool.references@.len()
                    && self.index.pool.references@[source.pages@[i] as int] < usize::MAX by {
                    assert(source.pages@[i] == prefix.source.pages@[i]);
                }
            }
        }
        self.attach(slot, &source, end)
    }

    /// Keeps a request's committed frontier. The copies save a carried row, which
    /// only odd ratio-two frontiers have.
    pub fn retain_prefix(
        &mut self,
        lease: CompressorLease,
        carry: &Option<CarryBuffers>,
        destination: &DeviceBuffer,
    ) -> (r: Result<(CompressorPrefix, Vec<DeviceCopy>), Error>)
        requires
            old(self).inv(),
            old(self).carried_by(*carry),
            destination.wf(),
            old(self).lease_error(lease) is None ==> old(self).index.references_fit(
                old(self).index.pages@[lease.slot as int]@,
            ),
        ensures
            final(self).inv(),
            ({
                let slot = lease.slot as int;
                let end = old(self).slots@[slot].end;
                let rows = end as int / old(self).step();
                match r {
                    Err(e) => {
                        &&& *final(self) == *old(self)
                        &&& match old(self).idle_error(lease) {
                            Some(reason) => e == reason,
                            None => if destination.bytes != COMPRESSOR_PREFIX_BYTES {
                                e == Error::CompressorPrefixStorage
                            } else {
                                e == Error::PrefixExceedsTable && rows > old(self).index.rows@[slot]
                            },
                        }
                    },
                    Ok((prefix, copies)) => {
                        &&& old(self).idle_error(lease) is None
                        &&& destination.bytes == COMPRESSOR_PREFIX_BYTES
                        &&& prefix.owner == old(self).owner
                        &&& prefix.end == end
                        &&& prefix.source.pool == old(self).index.identity
                        &&& prefix.source.rows == rows
                        &&& prefix.source.pages@ == old(self).index.pages@[slot]@.take(
                            source_cache::page_count(rows),
                        )
                        &&& final(self).index.holds(&prefix.source)
                        &&& final(self).index.only_references_changed(&old(self).index)
                        &&& forall|p: u32|
                            p < old(self).index.pool.references@.len()
                                ==> final(self).index.retained(p) == old(self).index.retained(p)
                                + #[trigger] crate::tally::occurrences(prefix.source.pages@, p)
                        &&& final(self).slots@ == old(self).slots@
                        &&& final(self).same_identity(old(self))
                        &&& copies@ == if end % 2 == 1 && old(self).step() == 2 {
                            carry_copies(carry->Some_0, slot, *destination, true)
                        } else {
                            Seq::empty()
                        }
                    },
                }
            }),
    {
        let slot: usize = match self.validate(lease) {
            Err(e) => {
                return Err(e);
            },
            Ok(slot) => slot,
        };
        if destination.bytes != COMPRESSOR_PREFIX_BYTES {
            return Err(Error::CompressorPrefixStorage);
        }
        let end: u64 = self.slots[slot].end;
        let rows: usize = self.committed_rows(slot);
        let ghost table = self.index.pages@[slot as int]@;
        proof {
            if rows <= self.index.rows@[slot as int] {
                let kept = table.take(source_cache::page_count(rows as int));
                assert forall|i: int| 0 <= i < kept.len() implies self.index.pool.references@[(
                #[trigger] kept[i]) as int] < usize::MAX by {
                    assert(kept[i] == table[i]);
                }
            }
        }
        let source = match self.index.retain_prefix(slot, rows) {
            Err(e) => {
                return Err(e);
            },
            Ok(source) => source,
        };
        proof {
            assert forall|s: int| 0 <= s < MAX_SLOTS implies {
                &&& (#[trigger] self.slots@[s]).end <= MAX_CONTEXT
                &&& s >= self.slot_count ==> self.slots@[s].request is None
                &&& self.slots@[s].request is None ==> self.index.pages@[s]@.len() == 0
                    && !self.index.writing@[s]
            } by {
                assert(old(self).slots@[s].end <= MAX_CONTEXT);
                assert(self.index.tables()[s] == self.index.pages@[s]@);
                assert(old(self).index.tables()[s] == old(self).index.pages@[s]@);
            }
            assert forall|p: u32| p < old(self).index.pool.references@.len() implies
                self.index.retained(p) == old(self).index.retained(p)
                + #[trigger] crate::tally::occurrences(source.pages@, p) by {
                assert(self.index.pool.references@[p as int] == self.index.pool.references@[p as int]);
            }
        }
        let copies: Vec<DeviceCopy> = match carry {
            Some(buffers) => if end % 2 == 1 {
                buffers.copies(self, slot, destination, true)
            } else {
                Vec::new()
            },
            None => Vec::new(),
        };
        Ok((CompressorPrefix { owner: self.owner, end, source }, copies))
    }

    /// Gives up a retained frontier.
    pub fn evict_pages(&mut self, prefix: CompressorPrefix)
        requires
            old(self).inv(),
            old(self).index.holds(&prefix.source),
        ensures
            final(self).inv(),
            final(self).slots@ == old(self).slots@,
            final(self).same_identity(old(self)),
            final(self).index.same_shape(&old(self).index),
            final(self).index.tables() == old(self).index.tables(),
            final(self).index.rows@ == old(self).index.rows@,
            final(self).index.writing@ == old(self).index.writing@,
            final(self).index.plans == old(self).index.plans,
            final(self).index.pool.gave_back(&old(self).index.pool, prefix.source.pages@),
            forall|p: u32|
                p < old(self).index.pool.references@.len() ==> final(self).index.retained(p)
                    == old(self).index.retained(p) - #[trigger] crate::tally::occurrences(
                    prefix.source.pages@,
                    p,
                ),
    {
        self.index.evict_prefix(prefix.source);
        proof {
            let tables = old(self).index.tables();
            assert forall|s: int| 0 <= s < MAX_SLOTS implies {
                &&& (#[trigger] self.slots@[s]).end <= MAX_CONTEXT
                &&& s >= self.slot_count ==> self.slots@[s].request is None
                &&& self.slots@[s].request is None ==> self.index.pages@[s]@.len() == 0
                    && !self.index.writing@[s]
            } by {
                assert(old(self).slots@[s].end <= MAX_CONTEXT);
                assert(self.index.tables()[s] == self.index.pages@[s]@);
                assert(tables[s] == old(self).index.pages@[s]@);
            }
            assert forall|p: u32| p < old(self).index.pool.references@.len() implies self.index.retained(
                p,
            ) == old(self).index.retained(p) - #[trigger] crate::tally::occurrences(
                prefix.source.pages@,
                p,
            ) by {
                assert(self.index.pool.references@[p as int] <= usize::MAX);
            }
        }
    }

    /// Why `prefix` cannot be restored to `lease` from saved storage.
    pub open spec fn restore_error(
        &self,
        lease: CompressorLease,
        prefix: &CompressorPrefix,
        saved: DeviceBuffer,
    ) -> Option<Error> {
        match self.idle_error(lease) {
            Some(e) => Some(e),
            None => if !(prefix.owner == self.owner && self.fresh(lease.slot as int) && saved.bytes
                == COMPRESSOR_PREFIX_BYTES) {
                Some(Error::CompressorRestore)
            } else {
                self.index.restore_error(lease.slot as int, &prefix.source)
            },
        }
    }

    /// Attaches a retained frontier to a fresh request. The copies bring a
    /// carried row back.
    pub fn restore_prefix(
        &mut self,
        lease: CompressorLease,
        prefix: &CompressorPrefix,
        carry: &Option<CarryBuffers>,
        saved: &DeviceBuffer,
    ) -> (r: Result<Vec<DeviceCopy>, Error>)
        requires
            old(self).inv(),
            old(self).carried_by(*carry),
            saved.wf(),
            prefix.end <= MAX_CONTEXT,
            old(self).restore_error(lease, prefix, *saved) is None ==> old(self).index.holds(
                &prefix.source,
            ) && old(self).index.references_fit(prefix.source.pages@),
        ensures
            final(self).inv(),
            match r {
                Err(e) => old(self).restore_error(lease, prefix, *saved) == Some(e)
                    && *final(self) == *old(self),
                Ok(copies) => {
                    &&& old(self).restore_error(lease, prefix, *saved) is None
                    &&& final(self).attached(
                        old(self),
                        lease.slot as int,
                        prefix.source.pages@,
                        prefix.source.rows,
                        prefix.end,
                    )
                    &&& copies@ == if prefix.end % 2 == 1 && old(self).step() == 2 {
                        carry_copies(carry->Some_0, lease.slot as int, *saved, false)
                    } else {
                        Seq::empty()
                    }
                },
            },
    {
        let slot: usize = match self.validate(lease) {
            Err(e) => {
                return Err(e);
            },
            Ok(slot) => slot,
        };
        if !(prefix.owner == self.owner && self.slots[slot].end == 0 && self.slots[slot].version == 0
            && saved.bytes == COMPRESSOR_PREFIX_BYTES) {
            return Err(Error::CompressorRestore);
        }
        match self.attach(slot, &prefix.source, prefix.end) {
            Err(e) => {
                return Err(e);
            },
            Ok(_) => {},
        }
        let copies: Vec<DeviceCopy> = match carry {
            Some(buffers) => if prefix.end % 2 == 1 {
                buffers.copies(self, slot, saved, false)
            } else {
                Vec::new()
            },
            None => Vec::new(),
        };
        Ok(copies)
    }
}

} // verus!
