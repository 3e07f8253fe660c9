//! A peer device's copy of the serving values. Page ownership stays with the
//! authoritative cache.
use crate::device::{DeviceBuffer, DeviceCopy};
use crate::error::Error;
use crate::source_cache;
use crate::source_cache::apply;
use crate::source_cache::layout;
use crate::source_cache::layout::{KvCacheView, SourceBuffers};
use crate::source_cache::memory;
use crate::source_cache::{pool_device_bytes, AppendView, IndexPlan, SourceCache, SourcePrefix, MAX_SLOTS, PAGE_ROWS};
use vstd::prelude::*;

verus! {

/// One device of one native library.
#[derive(Debug, Clone, Copy, PartialEq, Eq, Structural)]
pub struct Device {
    pub library: u64,
    pub id: i32,
}

/// The allocations behind one replica.
#[derive(Debug, Clone, Copy, PartialEq, Eq, Structural)]
pub struct ReplicaBuffers {
    pub values: DeviceBuffer,
    pub scales: DeviceBuffer,
    pub pages: DeviceBuffer,
    pub lengths: DeviceBuffer,
}

impl ReplicaBuffers {
    /// The allocations have the sizes that a replica of a source with `pages` pages
    /// and `slots` slots needs.
    pub open spec fn sized(&self, pages: int, slots: int) -> bool {
        let stride = if pages <= 4096 {
            pages
        } else {
            4096
        };
        &&& self.values.wf() && self.values.bytes == pages * 256 * 256
        &&& self.scales.wf() && self.scales.bytes == pages * 256 * 32
        &&& self.pages.wf() && self.pages.bytes == slots * stride * 4
        &&& self.lengths.wf() && self.lengths.bytes == slots * 8
    }

    /// The allocations have the sizes that a replica of `source` needs.
    pub open spec fn serve(&self, source: &SourceCache) -> bool {
        &&& self.values.wf() && self.values.bytes == source.capacity * 256
        &&& self.scales.wf() && self.scales.bytes == source.capacity * 32
        &&& self.pages.wf() && self.pages.bytes == source.slots * source.stride * 4
        &&& self.lengths.wf() && self.lengths.bytes == source.slots * 8
    }
}

pub struct SourceReplica {
    /// Identity of the pool whose pages this storage mirrors.
    pub pool: u64,
    pub device: Device,
    pub buffers: ReplicaBuffers,
    pub capacity: usize,
    pub stride: usize,
    pub slots: usize,
}

/// The same run of bytes in the replica and in the authoritative buffer.
pub open spec fn mirror(to: DeviceBuffer, from: DeviceBuffer, offset: int, bytes: int) -> DeviceCopy {
    DeviceCopy { destination: to.slice_of(offset, bytes), source: from.slice_of(offset, bytes) }
}

fn mirror_copy(to: &DeviceBuffer, from: &DeviceBuffer, offset: usize, bytes: usize) -> (r:
    DeviceCopy)
    requires
        to.wf(),
        from.wf(),
        offset + bytes <= to.bytes,
        offset + bytes <= from.bytes,
    ensures
        r == mirror(*to, *from, offset as int, bytes as int),
{
    DeviceCopy { destination: to.slice(offset, bytes), source: from.slice(offset, bytes) }
}

/// Values and scales of `count` physical rows from `row` on.
pub open spec fn row_copies(
    replica: ReplicaBuffers,
    source: SourceBuffers,
    row: int,
    count: int,
) -> Seq<DeviceCopy> {
    seq![
        mirror(replica.values, source.kv_values, row * 256, count * 256),
        mirror(replica.scales, source.kv_scales, row * 32, count * 32),
    ]
}

/// Rows from `row` up to the end of its page or of the append.
pub open spec fn chunk(row: int, end: int) -> int {
    if 256 - row % 256 <= end - row {
        256 - row % 256
    } else {
        end - row
    }
}

/// The rows `row..end` of a slot, page by page.
pub open spec fn run_copies(
    replica: ReplicaBuffers,
    source: SourceBuffers,
    table: Seq<u32>,
    row: int,
    end: int,
) -> Seq<DeviceCopy>
    decreases end - row,
{
    if row >= end {
        Seq::empty()
    } else {
        row_copies(replica, source, memory::physical_row(table, row), chunk(row, end))
            + run_copies(replica, source, table, row + chunk(row, end), end)
    }
}

/// A moved tail needs its old rows on the peer too.
pub open spec fn tail_page_copies(
    replica: ReplicaBuffers,
    source: SourceBuffers,
    plan: Seq<AppendView>,
    n: int,
) -> Seq<DeviceCopy>
    decreases n,
{
    if n <= 0 {
        Seq::empty()
    } else {
        let before = tail_page_copies(replica, source, plan, n - 1);
        match plan[n - 1].replacement {
            Some(pair) => before + row_copies(replica, source, pair.1 * 256, 256),
            None => before,
        }
    }
}

/// The appended rows of the first `n` appends.
pub open spec fn append_copies(
    replica: ReplicaBuffers,
    source: SourceBuffers,
    after: Seq<Seq<u32>>,
    plan: Seq<AppendView>,
    n: int,
) -> Seq<DeviceCopy>
    decreases n,
{
    if n <= 0 {
        Seq::empty()
    } else {
        append_copies(replica, source, after, plan, n - 1) + run_copies(
            replica,
            source,
            after[plan[n - 1].slot],
            plan[n - 1].start,
            plan[n - 1].end,
        )
    }
}

/// Page-table entries of moved tails.
pub open spec fn tail_entry_copies(
    replica: ReplicaBuffers,
    source: SourceBuffers,
    stride: int,
    plan: Seq<AppendView>,
    n: int,
) -> Seq<DeviceCopy>
    decreases n,
{
    if n <= 0 {
        Seq::empty()
    } else {
        let before = tail_entry_copies(replica, source, stride, plan, n - 1);
        let a = plan[n - 1];
        if a.replacement is Some {
            before.push(
                mirror(replica.pages, source.page_table, (a.slot * stride + a.tail()) * 4, 4),
            )
        } else {
            before
        }
    }
}

/// Page-table entries of added pages.
pub open spec fn addition_entry_copies(
    replica: ReplicaBuffers,
    source: SourceBuffers,
    stride: int,
    plan: Seq<AppendView>,
    n: int,
) -> Seq<DeviceCopy>
    decreases n,
{
    if n <= 0 {
        Seq::empty()
    } else {
        let before = addition_entry_copies(replica, source, stride, plan, n - 1);
        let a = plan[n - 1];
        if a.additions.len() > 0 {
            before.push(
                mirror(
                    replica.pages,
                    source.page_table,
                    (a.slot * stride + source_cache::page_count(a.start)) * 4,
                    a.additions.len() as int * 4,
                ),
            )
        } else {
            before
        }
    }
}

pub open spec fn length_copies(
    replica: ReplicaBuffers,
    source: SourceBuffers,
    plan: Seq<AppendView>,
) -> Seq<DeviceCopy> {
    Seq::new(
        plan.len(),
        |i: int| mirror(replica.lengths, source.lengths, plan[i].slot * 8, 8),
    )
}

/// All copies of an append in order: rows first, page-table entries next, row
/// counts last, so that a ready length never exposes stale rows.
pub open spec fn publication(
    replica: ReplicaBuffers,
    source: SourceBuffers,
    stride: int,
    after: Seq<Seq<u32>>,
    plan: Seq<AppendView>,
) -> Seq<DeviceCopy> {
    let n = plan.len() as int;
    tail_page_copies(replica, source, plan, n) + append_copies(replica, source, after, plan, n)
        + tail_entry_copies(replica, source, stride, plan, n) + addition_entry_copies(
        replica,
        source,
        stride,
        plan,
        n,
    ) + length_copies(replica, source, plan)
}

/// The first `count` entries of a slot's page table, if there are any, and its row
/// count.
pub open spec fn slot_copies(
    replica: ReplicaBuffers,
    source: SourceBuffers,
    stride: int,
    slot: int,
    count: int,
) -> Seq<DeviceCopy> {
    let length = mirror(replica.lengths, source.lengths, slot * 8, 8);
    if count == 0 {
        seq![length]
    } else {
        seq![mirror(replica.pages, source.page_table, slot * stride * 4, count * 4), length]
    }
}

/// The rows of a restored prefix, page by page.
pub open spec fn restored_copies(
    replica: ReplicaBuffers,
    source: SourceBuffers,
    pages: Seq<u32>,
    rows: int,
    n: int,
) -> Seq<DeviceCopy>
    decreases n,
{
    if n <= 0 {
        Seq::empty()
    } else {
        let before = restored_copies(replica, source, pages, rows, n - 1);
        let left = rows - (n - 1) * 256;
        let count = if left > 256 {
            256
        } else {
            left
        };
        if left > 0 {
            before + row_copies(replica, source, pages[n - 1] * 256, count)
        } else {
            before
        }
    }
}

impl SourceReplica {
    /// The replica mirrors `source` and its storage has the right size.
    pub open spec fn wf(&self, source: &SourceCache) -> bool {
        &&& self.pool == source.identity ==> self.buffers.serve(source) && self.capacity
            == source.capacity && self.stride == source.stride && self.slots == source.slots
    }

    /// Bytes of the serving values, page table and row counts.
    pub fn device_bytes(pages: usize, slots: usize) -> (r: Result<usize, Error>)
        ensures
            source_cache::same_count(r, match source_cache::pool_bytes(pages as int, slots as int, 356) {
                Ok(_) => source_cache::pool_bytes(pages as int, slots as int, 288),
                Err(e) => Err(e),
            }),
    {
        match SourceCache::device_bytes(pages, slots) {
            Err(e) => {
                return Err(e);
            },
            Ok(_) => {},
        }
        pool_device_bytes(pages, slots, 288)
    }

    /// A replica can be set up on `device`: a peer of the source's device, while
    /// the source holds nothing yet.
    pub open spec fn admission_error(
        source: &SourceCache,
        home: Device,
        device: Device,
    ) -> Option<Error> {
        if home.library != device.library || home.id == device.id {
            Some(Error::ReplicaPeer)
        } else if (exists|s: int| 0 <= s < MAX_SLOTS && #[trigger] source.writing@[s])
            || source.pool.free@.len() * 256 != source.capacity {
            Some(Error::ReplicaPopulated)
        } else {
            None
        }
    }

    pub fn check_peer(source: &SourceCache, home: Device, device: Device) -> (r: Result<(), Error>)
        requires
            source.inv(),
        ensures
            match r {
                Ok(_) => Self::admission_error(source, home, device) is None,
                Err(e) => Self::admission_error(source, home, device) == Some(e),
            },
    {
        if home.library != device.library || home.id == device.id {
            return Err(Error::ReplicaPeer);
        }
        let mut slot: usize = 0;
        while slot < MAX_SLOTS
            invariant
                slot <= MAX_SLOTS,
                source.inv(),
                home.library == device.library,
                home.id != device.id,
                forall|s: int| 0 <= s < slot ==> !#[trigger] source.writing@[s],
            decreases MAX_SLOTS - slot,
        {
            if source.writing[slot] {
                return Err(Error::ReplicaPopulated);
            }
            slot = slot + 1;
        }
        proof {
            crate::tally::lemma_distinct_bound(source.pool.free@, source.pool.references@.len());
        }
        if source.pool.free.len() * PAGE_ROWS != source.capacity {
            return Err(Error::ReplicaPopulated);
        }
        Ok(())
    }

    /// A replica of `source` on the peer `device`.
    pub fn new(source: &SourceCache, home: Device, device: Device, buffers: ReplicaBuffers) -> (r:
        Result<Self, Error>)
        requires
            source.inv(),
            buffers.serve(source),
        ensures
            match r {
                Ok(replica) => {
                    &&& Self::admission_error(source, home, device) is None
                    &&& replica.wf(source)
                    &&& replica.pool == source.identity
                    &&& replica.device == device
                    &&& replica.buffers == buffers
                },
                Err(e) => Self::admission_error(source, home, device) == Some(e),
            },
    {
        match Self::check_peer(source, home, device) {
            Err(e) => {
                return Err(e);
            },
            Ok(_) => {},
        }
        Ok(
            SourceReplica {
                pool: source.identity,
                device,
                buffers,
                capacity: source.capacity,
                stride: source.stride,
                slots: source.slots,
            },
        )
    }

    pub fn device(&self) -> (r: Device)
        ensures
            r == self.device,
    {
        self.device
    }

    pub fn validate_owner(&self, source: &SourceCache) -> (r: Result<(), Error>)
        ensures
            match r {
                Ok(_) => self.pool == source.identity,
                Err(e) => e == Error::ForeignReplica && self.pool != source.identity,
            },
    {
        if self.pool == source.identity {
            Ok(())
        } else {
            Err(Error::ForeignReplica)
        }
    }

    /// Appends the copies of `count` physical rows.
    fn push_rows(
        &self,
        source: &SourceBuffers,
        copies: &mut Vec<DeviceCopy>,
        row: usize,
        count: usize,
    )
        requires
            self.buffers.values.wf() && self.buffers.scales.wf(),
            source.kv_values.wf() && source.kv_scales.wf(),
            (row + count) * 256 <= self.buffers.values.bytes,
            (row + count) * 256 <= source.kv_values.bytes,
            (row + count) * 32 <= self.buffers.scales.bytes,
            (row + count) * 32 <= source.kv_scales.bytes,
        ensures
            final(copies)@ == old(copies)@ + row_copies(
                self.buffers,
                *source,
                row as int,
                count as int,
            ),
    {
        copies.push(
            mirror_copy(
                &self.buffers.values,
                &source.kv_values,
                row * layout::VALUE_BYTES,
                count * layout::VALUE_BYTES,
            ),
        );
        copies.push(
            mirror_copy(
                &self.buffers.scales,
                &source.kv_scales,
                row * layout::VALUE_SCALE_BYTES,
                count * layout::VALUE_SCALE_BYTES,
            ),
        );
        assert(copies@ =~= old(copies)@ + row_copies(
            self.buffers,
            *source,
            row as int,
            count as int,
        ));
    }
}

impl SourceReplica {
    /// The copies that bring an append to the peer, once the authoritative rows
    /// and metadata are ordered before them.
    pub fn copy_append(&self, source: &SourceCache, buffers: &SourceBuffers, plan: &IndexPlan) -> (r:
        Result<Vec<DeviceCopy>, Error>)
        requires
            source.inv(),
            source.in_flight(plan),
            buffers.serve(source),
            self.wf(source),
        ensures
            match r {
                Ok(copies) => {
                    &&& self.pool == source.identity
                    &&& copies@ == publication(
                        self.buffers,
                        *buffers,
                        self.stride as int,
                        apply::applied_tables(source.tables(), plan@, plan@.len() as int),
                        plan@,
                    )
                },
                Err(e) => e == Error::ForeignReplica && self.pool != source.identity,
            },
    {
        match self.validate_owner(source) {
            Err(e) => {
                return Err(e);
            },
            Ok(_) => {},
        }
        let ghost view = plan@;
        let ghost n = view.len() as int;
        let ghost stride = self.stride as int;
        let ghost after = apply::applied_tables(source.tables(), view, n);
        let mut copies: Vec<DeviceCopy> = Vec::new();
        let mut i: usize = 0;
        while i < plan.appends.len()
            invariant
                i <= plan.appends@.len() == n,
                source.inv(),
                source.in_flight(plan),
                buffers.serve(source),
                self.buffers.serve(source),
                view == plan@,
                copies@ == tail_page_copies(self.buffers, *buffers, view, i as int),
            decreases plan.appends@.len() - i,
        {
            proof {
                source.lemma_plan_extent(plan, i as int);
            }
            if let Some((_, target)) = plan.appends[i].replacement {
                self.push_rows(buffers, &mut copies, target as usize * PAGE_ROWS, PAGE_ROWS);
            }
            i = i + 1;
        }
        let ghost tails = copies@;
        i = 0;
        assert(copies@ =~= tails + append_copies(self.buffers, *buffers, after, view, 0));
        while i < plan.appends.len()
            invariant
                i <= plan.appends@.len() == n,
                source.inv(),
                source.in_flight(plan),
                buffers.serve(source),
                self.buffers.serve(source),
                view == plan@,
                after == apply::applied_tables(source.tables(), view, n),
                copies@ == tails + append_copies(self.buffers, *buffers, after, view, i as int),
            decreases plan.appends@.len() - i,
        {
            let ghost before = copies@;
            self.push_run(source, buffers, plan, i, &mut copies);
            assert(copies@ =~= tails + append_copies(self.buffers, *buffers, after, view, i + 1));
            i = i + 1;
        }
        let ghost rows = copies@;
        i = 0;
        assert(copies@ =~= rows + tail_entry_copies(self.buffers, *buffers, stride, view, 0));
        while i < plan.appends.len()
            invariant
                i <= plan.appends@.len() == n,
                source.inv(),
                source.in_flight(plan),
                buffers.serve(source),
                self.buffers.serve(source),
                self.stride == source.stride,
                stride == self.stride,
                view == plan@,
                copies@ == rows + tail_entry_copies(self.buffers, *buffers, stride, view, i as int),
            decreases plan.appends@.len() - i,
        {
            proof {
                source.lemma_plan_extent(plan, i as int);
            }
            let append = &plan.appends[i];
            if let Some(_) = append.replacement {
                let logical: usize = append.start / PAGE_ROWS;
                proof {
                    layout::lemma_slot_extent(
                        source.slots as int,
                        stride,
                        append.slot as int,
                        logical as int,
                        1,
                    );
                }
                copies.push(
                    mirror_copy(
                        &self.buffers.pages,
                        &buffers.page_table,
                        (append.slot * self.stride + logical) * 4,
                        4,
                    ),
                );
            }
            assert(copies@ =~= rows + tail_entry_copies(
                self.buffers,
                *buffers,
                stride,
                view,
                i + 1,
            ));
            i = i + 1;
        }
        let ghost entries = copies@;
        i = 0;
        assert(copies@ =~= entries + addition_entry_copies(self.buffers, *buffers, stride, view, 0));
        while i < plan.appends.len()
            invariant
                i <= plan.appends@.len() == n,
                source.inv(),
                source.in_flight(plan),
                buffers.serve(source),
                self.buffers.serve(source),
                self.stride == source.stride,
                stride == self.stride,
                view == plan@,
                copies@ == entries + addition_entry_copies(
                    self.buffers,
                    *buffers,
                    stride,
                    view,
                    i as int,
                ),
            decreases plan.appends@.len() - i,
        {
            proof {
                source.lemma_plan_extent(plan, i as int);
            }
            let append = &plan.appends[i];
            let count: usize = append.additions.len();
            if count > 0 {
                let first: usize = source.pages[append.slot].len();
                proof {
                    layout::lemma_slot_extent(
                        source.slots as int,
                        stride,
                        append.slot as int,
                        first as int,
                        count as int,
                    );
                }
                copies.push(
                    mirror_copy(
                        &self.buffers.pages,
                        &buffers.page_table,
                        (append.slot * self.stride + first) * 4,
                        count * 4,
                    ),
                );
            }
            assert(copies@ =~= entries + addition_entry_copies(
                self.buffers,
                *buffers,
                stride,
                view,
                i + 1,
            ));
            i = i + 1;
        }
        let ghost tables = copies@;
        i = 0;
        assert(copies@ =~= tables + length_copies(self.buffers, *buffers, view).take(0));
        while i < plan.appends.len()
            invariant
                i <= plan.appends@.len() == n,
                source.inv(),
                source.in_flight(plan),
                buffers.serve(source),
                self.buffers.serve(source),
                n == view.len(),
                view == plan@,
                copies@ == tables + length_copies(self.buffers, *buffers, view).take(i as int),
            decreases plan.appends@.len() - i,
        {
            proof {
                source.lemma_plan_extent(plan, i as int);
            }
            let slot: usize = plan.appends[i].slot;
            copies.push(mirror_copy(&self.buffers.lengths, &buffers.lengths, slot * 8, 8));
            assert(copies@ =~= tables + length_copies(self.buffers, *buffers, view).take(i + 1));
            i = i + 1;
        }
        assert(copies@ =~= publication(self.buffers, *buffers, stride, after, view));
        Ok(copies)
    }

    /// The appended rows of append `i`, page by page.
    fn push_run(
        &self,
        source: &SourceCache,
        buffers: &SourceBuffers,
        plan: &IndexPlan,
        i: usize,
        copies: &mut Vec<DeviceCopy>,
    )
        requires
            source.inv(),
            source.in_flight(plan),
            buffers.serve(source),
            self.buffers.serve(source),
            i < plan.appends@.len(),
        ensures
            ({
                let after = apply::applied_tables(source.tables(), plan@, plan@.len() as int);
                let a = plan@[i as int];
                final(copies)@ == old(copies)@ + run_copies(
                    self.buffers,
                    *buffers,
                    after[a.slot],
                    a.start,
                    a.end,
                )
            }),
    {
        let slot: usize = plan.appends[i].slot;
        let end: usize = plan.appends[i].end;
        let mut row: usize = plan.appends[i].start;
        let ghost start = row as int;
        let ghost a = plan@[i as int];
        let ghost table = apply::applied_tables(source.tables(), plan@, plan@.len() as int)[a.slot];
        proof {
            source.lemma_plan_extent(plan, i as int);
            assert(source_cache::plan_fits(
                source.tables(),
                source.rows@,
                source.pool.references@,
                source.slots as int,
                source.plans@[plan.ticket@],
            ));
            apply::lemma_applied(source.tables(), source.rows@, plan@, plan@.len() as int);
            source.lemma_new_table(plan.ticket@, i as int);
        }
        let ghost all = run_copies(self.buffers, *buffers, table, start, end as int);
        let ghost before = copies@;
        while row < end
            invariant
                source.inv(),
                source.in_flight(plan),
                buffers.serve(source),
                self.buffers.serve(source),
                start <= row <= end <= 1048576,
                slot < source.slots,
                table == apply::applied_tables(
                    source.tables(),
                    plan@,
                    plan@.len() as int,
                )[slot as int],
                table.len() == source_cache::page_count(end as int),
                source.pool.in_range(table),
                before + all == copies@ + run_copies(
                    self.buffers,
                    *buffers,
                    table,
                    row as int,
                    end as int,
                ),
            decreases end - row,
        {
            let room: usize = PAGE_ROWS - row % PAGE_ROWS;
            let count: usize = if room <= end - row {
                room
            } else {
                end - row
            };
            proof {
                assert(row / 256 < table.len());
                assert(table[row as int / 256] < source.pool.references@.len());
            }
            let physical: usize = match source.destination(plan, slot, row) {
                Ok(p) => p as usize,
                Err(_) => 0,
            };
            assert(physical == memory::physical_row(table, row as int));
            self.push_rows(buffers, copies, physical, count);
            row = row + count;
            assert(before + all =~= copies@ + run_copies(
                self.buffers,
                *buffers,
                table,
                row as int,
                end as int,
            ));
        }
        assert(copies@ =~= before + all);
    }

    /// The copies that bring freshly restored host-cache pages to the peer
    /// before they are attached to a slot.
    pub fn copy_restored_pages(
        &self,
        source: &SourceCache,
        buffers: &SourceBuffers,
        prefix: &SourcePrefix,
    ) -> (r: Result<Vec<DeviceCopy>, Error>)
        requires
            source.inv(),
            buffers.serve(source),
            self.wf(source),
            prefix.pool == source.identity ==> source.pool.in_range(prefix.pages@),
            prefix.pages@.len() <= 262144,
        ensures
            match r {
                Ok(copies) => {
                    &&& self.pool == source.identity
                    &&& self.pool == prefix.pool
                    &&& prefix.rows <= prefix.pages@.len() * 256
                    &&& copies@ == restored_copies(
                        self.buffers,
                        *buffers,
                        prefix.pages@,
                        prefix.rows as int,
                        prefix.pages@.len() as int,
                    )
                },
                Err(e) => e == if self.pool != source.identity {
                    Error::ForeignReplica
                } else if self.pool != prefix.pool {
                    Error::ForeignPrefix
                } else {
                    Error::RestoredTruncated
                } && (self.pool != source.identity || self.pool != prefix.pool || prefix.rows
                    > prefix.pages@.len() * 256),
            },
    {
        match self.validate_owner(source) {
            Err(e) => {
                return Err(e);
            },
            Ok(_) => {},
        }
        if self.pool != prefix.pool {
            return Err(Error::ForeignPrefix);
        }
        let mut copies: Vec<DeviceCopy> = Vec::new();
        let mut remaining: usize = prefix.rows;
        let mut i: usize = 0;
        while i < prefix.pages.len()
            invariant
                i <= prefix.pages@.len() <= 262144,
                source.inv(),
                buffers.serve(source),
                self.buffers.serve(source),
                source.pool.in_range(prefix.pages@),
                remaining == if prefix.rows - i * 256 > 0 {
                    prefix.rows - i * 256
                } else {
                    0
                },
                copies@ == restored_copies(
                    self.buffers,
                    *buffers,
                    prefix.pages@,
                    prefix.rows as int,
                    i as int,
                ),
            decreases prefix.pages@.len() - i,
        {
            let count: usize = if remaining <= PAGE_ROWS {
                remaining
            } else {
                PAGE_ROWS
            };
            if count > 0 {
                assert(prefix.pages@[i as int] < source.pool.references@.len());
                self.push_rows(
                    buffers,
                    &mut copies,
                    prefix.pages[i] as usize * PAGE_ROWS,
                    count,
                );
            }
            remaining = remaining - count;
            i = i + 1;
        }
        if remaining != 0 {
            return Err(Error::RestoredTruncated);
        }
        Ok(copies)
    }

    /// The copies that publish an idle slot's page table and row count.
    pub fn copy_slot_metadata(&self, source: &SourceCache, buffers: &SourceBuffers, slot: usize) -> (r:
        Result<Vec<DeviceCopy>, Error>)
        requires
            source.inv(),
            buffers.serve(source),
            self.wf(source),
        ensures
            match r {
                Ok(copies) => {
                    &&& self.pool == source.identity
                    &&& slot < source.slots && !source.writing@[slot as int]
                    &&& copies@ == slot_copies(
                        self.buffers,
                        *buffers,
                        self.stride as int,
                        slot as int,
                        source.pages@[slot as int]@.len() as int,
                    )
                },
                Err(e) => e == if self.pool != source.identity {
                    Error::ForeignReplica
                } else {
                    Error::PendingAppend
                } && (self.pool != source.identity || slot >= source.slots
                    || source.writing@[slot as int]),
            },
    {
        match self.validate_owner(source) {
            Err(e) => {
                return Err(e);
            },
            Ok(_) => {},
        }
        match source.ensure_idle(slot) {
            Err(e) => {
                return Err(e);
            },
            Ok(_) => {},
        }
        let count: usize = source.pages[slot].len();
        let mut copies: Vec<DeviceCopy> = Vec::new();
        proof {
            layout::lemma_slot_extent(
                source.slots as int,
                self.stride as int,
                slot as int,
                0,
                count as int,
            );
        }
        if count > 0 {
            copies.push(
                mirror_copy(
                    &self.buffers.pages,
                    &buffers.page_table,
                    slot * self.stride * 4,
                    count * 4,
                ),
            );
        }
        copies.push(mirror_copy(&self.buffers.lengths, &buffers.lengths, slot * 8, 8));
        Ok(copies)
    }

    /// Committed rows of a slot as the peer sees them. A follower may append
    /// beyond them.
    pub fn committed_view<'s>(&'s self, source: &'s SourceCache, slot: usize, rows: usize) -> (r:
        Result<KvCacheView<'s>, Error>)
        requires
            source.inv(),
            self.wf(source),
        ensures
            match r {
                Ok(view) => {
                    &&& self.pool == source.identity
                    &&& slot < source.slots
                    &&& rows <= source.rows@[slot as int]
                    &&& self.peer_view(source, slot as int, rows, view)
                },
                Err(e) => e == if self.pool != source.identity {
                    Error::ForeignReplica
                } else if slot >= source.slots {
                    Error::ReplicaSlot
                } else {
                    Error::ReplicaRows
                } && (self.pool != source.identity || slot >= source.slots || rows
                    > source.rows@[slot as int]),
            },
    {
        match self.validate_owner(source) {
            Err(e) => {
                return Err(e);
            },
            Ok(_) => {},
        }
        if slot >= source.slots {
            return Err(Error::ReplicaSlot);
        }
        if rows > source.rows[slot] {
            return Err(Error::ReplicaRows);
        }
        proof {
            layout::lemma_slot_extent(
                source.slots as int,
                self.stride as int,
                slot as int,
                0,
                self.stride as int,
            );
        }
        Ok(
            KvCacheView {
                values: self.buffers.values,
                scales: self.buffers.scales,
                pages: source.pages[slot].as_slice(),
                rows,
                device_pages: self.buffers.pages.slice(slot * self.stride * 4, self.stride * 4),
                device_rows: self.buffers.lengths.slice(slot * 8, 8),
            },
        )
    }

    pub open spec fn peer_view(
        &self,
        source: &SourceCache,
        slot: int,
        rows: usize,
        view: KvCacheView,
    ) -> bool {
        &&& view.values == self.buffers.values
        &&& view.scales == self.buffers.scales
        &&& view.pages@ == source.pages@[slot]@
        &&& view.rows == rows
        &&& view.device_pages == self.buffers.pages.slice_of(
            slot * self.stride * 4,
            self.stride * 4,
        )
        &&& view.device_rows == self.buffers.lengths.slice_of(slot * 8, 8)
    }

    /// Committed rows of an idle slot as the peer sees them.
    pub fn view<'s>(&'s self, source: &'s SourceCache, slot: usize, rows: usize) -> (r: Result<
        KvCacheView<'s>,
        Error,
    >)
        requires
            source.inv(),
            self.wf(source),
        ensures
            match r {
                Ok(view) => {
                    &&& self.pool == source.identity
                    &&& slot < source.slots && !source.writing@[slot as int]
                    &&& rows <= source.rows@[slot as int]
                    &&& self.peer_view(source, slot as int, rows, view)
                },
                Err(e) => e == if slot >= source.slots || source.writing@[slot as int] {
                    Error::PendingAppend
                } else if self.pool != source.identity {
                    Error::ForeignReplica
                } else {
                    Error::ReplicaRows
                } && (slot >= source.slots || source.writing@[slot as int] || self.pool
                    != source.identity || rows > source.rows@[slot as int]),
            },
    {
        match source.ensure_idle(slot) {
            Err(e) => {
                return Err(e);
            },
            Ok(_) => {},
        }
        self.committed_view(source, slot, rows)
    }

    /// Where a slot's metadata goes: the bytes of its page table, if there are any,
    /// and its row count.
    pub fn install_metadata(&self, slot: usize, pages: &[u8], rows: usize) -> (r: Result<
        (Option<DeviceBuffer>, DeviceBuffer),
        Error,
    >)
        requires
            self.stride <= 4096,
            self.buffers.pages.wf() && self.buffers.pages.bytes == self.slots * self.stride * 4,
            self.buffers.lengths.wf() && self.buffers.lengths.bytes == self.slots * 8,
        ensures
            ({
                let bytes = pages@.len() as int;
                let fits = slot < self.slots && bytes <= self.stride * 4 && bytes % 4 == 0
                    && source_cache::page_count(rows as int) <= bytes / 4;
                match r {
                    Ok((table, length)) => {
                        &&& fits
                        &&& table == if bytes == 0 {
                            None::<DeviceBuffer>
                        } else {
                            Some(self.buffers.pages.slice_of(slot * self.stride * 4, bytes))
                        }
                        &&& length == self.buffers.lengths.slice_of(slot * 8, 8)
                    },
                    Err(e) => e == Error::ReplicaMetadata && !fits,
                }
            }),
    {
        let bytes: usize = pages.len();
        if !(slot < self.slots && bytes <= self.stride * 4 && bytes % 4 == 0
            && source_cache::pages_for_rows(rows) <= bytes / 4) {
            return Err(Error::ReplicaMetadata);
        }
        proof {
            let (n, s, w) = (self.slots as int, slot as int, self.stride as int);
            assert(s * w * 4 + w * 4 <= n * w * 4) by (nonlinear_arith)
                requires
                    0 <= s < n,
                    0 <= w,
            ;
            assert(0 <= s * w) by (nonlinear_arith)
                requires
                    0 <= s,
                    0 <= w,
            ;
        }
        let length: DeviceBuffer = self.buffers.lengths.slice(slot * 8, 8);
        if bytes == 0 {
            return Ok((None, length));
        }
        Ok((Some(self.buffers.pages.slice(slot * self.stride * 4, bytes)), length))
    }
}

impl SourceCache {
    /// Sets up the peer copy of an empty cache.
    pub fn enable_replica(&mut self, home: Device, peer: Device, buffers: ReplicaBuffers) -> (r:
        Result<(), Error>)
        requires
            old(self).inv(),
            buffers.serve(old(self)),
        ensures
            final(self).inv(),
            match r {
                Ok(_) => {
                    &&& old(self).replica is None
                    &&& SourceReplica::admission_error(old(self), home, peer) is None
                    &&& final(self).replica matches Some(replica) && replica.device == peer
                        && replica.buffers == buffers
                    &&& *final(self) == (SourceCache { replica: final(self).replica, ..*old(self) })
                },
                Err(e) => {
                    &&& *final(self) == *old(self)
                    &&& if old(self).replica is Some {
                        e == Error::ReplicaConfigured
                    } else {
                        SourceReplica::admission_error(old(self), home, peer) == Some(e)
                    }
                },
            },
    {
        if self.replica.is_some() {
            return Err(Error::ReplicaConfigured);
        }
        let replica = match SourceReplica::new(self, home, peer, buffers) {
            Err(e) => {
                return Err(e);
            },
            Ok(replica) => replica,
        };
        let ghost before = *self;
        self.replica = Some(replica);
        proof {
            assert(self.tables() =~= before.tables());
            assert forall|p: u32|
                #![trigger self.pool.references@[p as int]]
                p < self.pool.references@.len() implies self.accounted(p) by {
                assert(before.accounted(p));
                if before.pool.references@[p as int] == 0 && !before.pool.free@.contains(p) {
                    let t = choose|t: int| #[trigger]
                        before.plans@.contains_key(t) && source_cache::fresh_pages(
                            before.plans@[t],
                        ).contains(p);
                    assert(self.plans@.contains_key(t));
                }
            }
            assert forall|s: int| 0 <= s < MAX_SLOTS implies ((#[trigger] self.writing@[s])
                <==> self.appended(s)) by {
                assert(before.writing@[s] <==> before.appended(s));
                assert(self.appended(s) == before.appended(s));
            }
        }
        Ok(())
    }

    /// The copies that complete a restored payload on the peer, if there is one,
    /// before the rebuilt prefix is exposed.
    pub fn publish_restored_prefix(&self, buffers: &SourceBuffers, prefix: &SourcePrefix) -> (r:
        Result<Vec<DeviceCopy>, Error>)
        requires
            self.inv(),
            buffers.serve(self),
            prefix.pool == self.identity ==> self.pool.in_range(prefix.pages@),
            prefix.pages@.len() <= 262144,
        ensures
            match self.replica {
                None => r matches Ok(copies) && copies@.len() == 0,
                Some(replica) => match r {
                    Ok(copies) => {
                        &&& prefix.pool == self.identity
                        &&& prefix.rows <= prefix.pages@.len() * 256
                        &&& copies@ == restored_copies(
                            replica.buffers,
                            *buffers,
                            prefix.pages@,
                            prefix.rows as int,
                            prefix.pages@.len() as int,
                        )
                    },
                    Err(e) => e == if prefix.pool != self.identity {
                        Error::ForeignPrefix
                    } else {
                        Error::RestoredTruncated
                    } && (prefix.pool != self.identity || prefix.rows > prefix.pages@.len() * 256),
                },
            },
    {
        match &self.replica {
            None => Ok(Vec::new()),
            Some(replica) => replica.copy_restored_pages(self, buffers, prefix),
        }
    }
}

} // verus!
