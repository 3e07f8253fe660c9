//! Where a paged cache lies on its device, and the copies and uploads that an
//! append transaction needs there.
use crate::device::{DeviceBuffer, DeviceCopy};
use crate::error::Error;
use crate::source_cache;
use crate::source_cache::apply;
use crate::source_cache::memory;
use crate::source_cache::{AppendView, IndexPlan, SourceCache, SourcePrefix, MAX_SLOTS, PAGE_ROWS};
use crate::tally;
use vstd::prelude::*;

verus! {

pub const INDEX_BYTES: usize = 64;

pub const INDEX_SCALE_BYTES: usize = 4;

pub const VALUE_BYTES: usize = 256;

pub const VALUE_SCALE_BYTES: usize = 32;

/// The allocations behind one paged cache.
#[derive(Debug, Clone, Copy, PartialEq, Eq, Structural)]
pub struct SourceBuffers {
    pub packed: DeviceBuffer,
    pub scales: DeviceBuffer,
    pub kv_values: DeviceBuffer,
    pub kv_scales: DeviceBuffer,
    pub page_table: DeviceBuffer,
    pub lengths: DeviceBuffer,
}

impl SourceBuffers {
    /// The allocations have the sizes that `cache` needs.
    pub open spec fn serve(&self, cache: &SourceCache) -> bool {
        &&& self.packed.wf() && self.packed.bytes == cache.capacity * 64
        &&& self.scales.wf() && self.scales.bytes == cache.capacity * 4
        &&& self.kv_values.wf() && self.kv_values.bytes == cache.capacity * 256
        &&& self.kv_scales.wf() && self.kv_scales.bytes == cache.capacity * 32
        &&& self.page_table.wf() && self.page_table.bytes == cache.slots * cache.stride * 4
        &&& self.lengths.wf() && self.lengths.bytes == cache.slots * 8
    }
}

/// Index rows of one slot. Only rows below `rows` are initialized; row `r` lies
/// in page `pages[r / 256]` at offset `r % 256`.
pub struct IndexCacheView<'a> {
    pub packed: DeviceBuffer,
    pub scales: DeviceBuffer,
    pub pages: &'a [u32],
    pub rows: usize,
    /// Page numbers of the slot, as many as the table has room for.
    pub device_pages: DeviceBuffer,
    /// Committed row count, published after the accepted rows.
    pub device_rows: DeviceBuffer,
}

/// Serving values of one slot; they share pages and publication with the index.
pub struct KvCacheView<'a> {
    pub values: DeviceBuffer,
    pub scales: DeviceBuffer,
    pub pages: &'a [u32],
    pub rows: usize,
    pub device_pages: DeviceBuffer,
    pub device_rows: DeviceBuffer,
}

/// What is written to one place of the device metadata.
#[derive(Debug)]
pub enum MetadataValue {
    Pages(Vec<u32>),
    Rows(u64),
}

/// One upload from `offset` of a staging buffer.
#[derive(Debug)]
pub struct MetadataWrite {
    pub destination: DeviceBuffer,
    pub offset: usize,
    pub value: MetadataValue,
}

#[verifier::ext_equal]
pub enum ValueView {
    Pages(Seq<u32>),
    Rows(u64),
}

#[verifier::ext_equal]
pub struct WriteView {
    pub destination: DeviceBuffer,
    pub offset: int,
    pub value: ValueView,
}

impl View for MetadataWrite {
    type V = WriteView;

    open spec fn view(&self) -> WriteView {
        WriteView {
            destination: self.destination,
            offset: self.offset as int,
            value: match self.value {
                MetadataValue::Pages(pages) => ValueView::Pages(pages@),
                MetadataValue::Rows(rows) => ValueView::Rows(rows),
            },
        }
    }
}

/// The bytes of a slot's page table and of its row count.
pub open spec fn table_slice(buffers: SourceBuffers, stride: int, slot: int) -> DeviceBuffer {
    buffers.page_table.slice_of(slot * stride * 4, stride * 4)
}

pub open spec fn length_slice(buffers: SourceBuffers, slot: int) -> DeviceBuffer {
    buffers.lengths.slice_of(slot * 8, 8)
}

/// Entries `first..first + count` of a slot's page table.
pub open spec fn entry_slice(
    buffers: SourceBuffers,
    stride: int,
    slot: int,
    first: int,
    count: int,
) -> DeviceBuffer {
    buffers.page_table.slice_of((slot * stride + first) * 4, count * 4)
}

pub proof fn lemma_slot_extent(slots: int, stride: int, slot: int, first: int, count: int)
    requires
        0 <= slot < slots,
        0 <= first,
        0 <= count,
        first + count <= stride,
        slots <= 16,
        stride <= 4096,
    ensures
        0 <= (slot * stride + first) * 4,
        (slot * stride + first) * 4 + count * 4 <= slots * stride * 4,
        slot * stride * 4 == (slot * stride + 0) * 4,
        0 <= slot * stride <= slots * stride <= 65536,
{
    assert(slot * stride + stride <= slots * stride) by (nonlinear_arith)
        requires
            0 <= slot < slots,
            0 <= stride,
    ;
    assert(0 <= slot * stride) by (nonlinear_arith)
        requires
            0 <= slot,
            0 <= stride,
    ;
    assert(slots * stride <= 16 * 4096) by (nonlinear_arith)
        requires
            0 <= slots <= 16,
            0 <= stride <= 4096,
    ;
}

impl SourceCache {
    /// The index keys of a slot's first `rows` rows, with the slot's page table and
    /// row count on the device.
    pub open spec fn index_view(
        &self,
        buffers: SourceBuffers,
        slot: int,
        rows: usize,
        view: IndexCacheView,
    ) -> bool {
        &&& view.packed == buffers.packed
        &&& view.scales == buffers.scales
        &&& view.pages@ == self.pages@[slot]@
        &&& view.rows == rows
        &&& view.device_pages == table_slice(buffers, self.stride as int, slot)
        &&& view.device_rows == length_slice(buffers, slot)
    }

    /// The serving values of a slot's first `rows` rows, with the slot's page table
    /// and row count on the device.
    pub open spec fn value_view(
        &self,
        buffers: SourceBuffers,
        slot: int,
        rows: usize,
        view: KvCacheView,
    ) -> bool {
        &&& view.values == buffers.kv_values
        &&& view.scales == buffers.kv_scales
        &&& view.pages@ == self.pages@[slot]@
        &&& view.rows == rows
        &&& view.device_pages == table_slice(buffers, self.stride as int, slot)
        &&& view.device_rows == length_slice(buffers, slot)
    }

    pub fn view(&self, buffers: &SourceBuffers, slot: usize, rows: usize) -> (r: IndexCacheView<'_>)
        requires
            self.inv(),
            buffers.serve(self),
            slot < self.slots,
        ensures
            self.index_view(*buffers, slot as int, rows, r),
    {
        proof {
            lemma_slot_extent(
                self.slots as int,
                self.stride as int,
                slot as int,
                0,
                self.stride as int,
            );
        }
        IndexCacheView {
            packed: buffers.packed,
            scales: buffers.scales,
            pages: self.pages[slot].as_slice(),
            rows,
            device_pages: buffers.page_table.slice(slot * self.stride * 4, self.stride * 4),
            device_rows: buffers.lengths.slice(slot * 8, 8),
        }
    }

    pub fn kv_view(&self, buffers: &SourceBuffers, slot: usize, rows: usize) -> (r: KvCacheView<'_>)
        requires
            self.inv(),
            buffers.serve(self),
            slot < self.slots,
        ensures
            self.value_view(*buffers, slot as int, rows, r),
    {
        let index = self.view(buffers, slot, rows);
        KvCacheView {
            values: buffers.kv_values,
            scales: buffers.kv_scales,
            pages: index.pages,
            rows: index.rows,
            device_pages: index.device_pages,
            device_rows: index.device_rows,
        }
    }

    /// The four device segments holding `page`'s rows (packed index, index
    /// scales, values, value scales), in the order the host cache stores them.
    pub fn page_segments(&self, buffers: &SourceBuffers, page: u32) -> (r: [DeviceBuffer; 4])
        requires
            self.inv(),
            buffers.serve(self),
            page < self.pool.references@.len(),
        ensures
            r@ == page_slices(*buffers, page),
    {
        let row: usize = page as usize * PAGE_ROWS;
        let r = [
            buffers.packed.slice(row * INDEX_BYTES, PAGE_ROWS * INDEX_BYTES),
            buffers.scales.slice(row * INDEX_SCALE_BYTES, PAGE_ROWS * INDEX_SCALE_BYTES),
            buffers.kv_values.slice(row * VALUE_BYTES, PAGE_ROWS * VALUE_BYTES),
            buffers.kv_scales.slice(row * VALUE_SCALE_BYTES, PAGE_ROWS * VALUE_SCALE_BYTES),
        ];
        assert(r@ =~= page_slices(*buffers, page));
        r
    }
}

/// The four device segments of a page.
pub open spec fn page_slices(buffers: SourceBuffers, page: u32) -> Seq<DeviceBuffer> {
    seq![
        buffers.packed.slice_of(page * 256 * 64, 16384),
        buffers.scales.slice_of(page * 256 * 4, 1024),
        buffers.kv_values.slice_of(page * 256 * 256, 65536),
        buffers.kv_scales.slice_of(page * 256 * 32, 8192),
    ]
}

/// The copies that give every moved tail its private page.
pub open spec fn tail_copies(buffers: SourceBuffers, plan: Seq<AppendView>) -> Seq<DeviceCopy>
    decreases plan.len(),
{
    if plan.len() == 0 {
        Seq::empty()
    } else {
        let before = tail_copies(buffers, plan.drop_last());
        match plan.last().replacement {
            Some(pair) => before + Seq::new(
                4,
                |k: int|
                    DeviceCopy {
                        destination: page_slices(buffers, pair.1)[k],
                        source: page_slices(buffers, pair.0)[k],
                    },
            ),
            None => before,
        }
    }
}

/// Uploads of the private tail page numbers of the first `n` appends.
pub open spec fn tail_uploads(
    buffers: SourceBuffers,
    stride: int,
    plan: Seq<AppendView>,
    n: int,
) -> Seq<WriteView>
    decreases n,
{
    if n <= 0 {
        Seq::empty()
    } else {
        let before = tail_uploads(buffers, stride, plan, n - 1);
        let a = plan[n - 1];
        match a.replacement {
            Some(pair) => before.push(
                WriteView {
                    destination: entry_slice(buffers, stride, a.slot, a.tail(), 1),
                    offset: 4 * before.len() as int,
                    value: ValueView::Pages(seq![pair.1]),
                },
            ),
            None => before,
        }
    }
}

/// Pages added by the first `n` appends.
pub open spec fn added_pages(plan: Seq<AppendView>, n: int) -> int
    decreases n,
{
    if n <= 0 {
        0
    } else {
        added_pages(plan, n - 1) + plan[n - 1].additions.len()
    }
}

/// Uploads of the page numbers that the first `n` appends add, staged from `base` on.
pub open spec fn addition_uploads(
    buffers: SourceBuffers,
    stride: int,
    plan: Seq<AppendView>,
    n: int,
    base: int,
) -> Seq<WriteView>
    decreases n,
{
    if n <= 0 {
        Seq::empty()
    } else {
        let before = addition_uploads(buffers, stride, plan, n - 1, base);
        let a = plan[n - 1];
        if a.additions.len() == 0 {
            before
        } else {
            before.push(
                WriteView {
                    destination: entry_slice(
                        buffers,
                        stride,
                        a.slot,
                        source_cache::page_count(a.start),
                        a.additions.len() as int,
                    ),
                    offset: base + 4 * added_pages(plan, n - 1),
                    value: ValueView::Pages(a.additions),
                },
            )
        }
    }
}

/// Uploads of the new row counts, staged from `base` on.
pub open spec fn length_uploads(
    buffers: SourceBuffers,
    plan: Seq<AppendView>,
    base: int,
) -> Seq<WriteView> {
    Seq::new(
        plan.len(),
        |i: int|
            WriteView {
                destination: length_slice(buffers, plan[i].slot),
                offset: base + 8 * i,
                value: ValueView::Rows(plan[i].end as u64),
            },
    )
}

/// Moved tails among the first `n` appends.
pub open spec fn moved_tails(plan: Seq<AppendView>, n: int) -> int
    decreases n,
{
    if n <= 0 {
        0
    } else {
        moved_tails(plan, n - 1) + if plan[n - 1].replacement is Some {
            1int
        } else {
            0int
        }
    }
}

/// Staging bytes of a transaction's metadata.
pub open spec fn metadata_bytes(plan: Seq<AppendView>) -> int {
    4 * moved_tails(plan, plan.len() as int) + 4 * added_pages(plan, plan.len() as int) + 8
        * plan.len()
}

/// All uploads of a transaction: page numbers first, row counts last, so that a
/// published length never exposes a stale page.
pub open spec fn metadata_uploads(
    buffers: SourceBuffers,
    stride: int,
    plan: Seq<AppendView>,
) -> Seq<WriteView> {
    let n = plan.len() as int;
    let tails = 4 * moved_tails(plan, n);
    let added = tails + 4 * added_pages(plan, n);
    tail_uploads(buffers, stride, plan, n) + addition_uploads(buffers, stride, plan, n, tails)
        + length_uploads(buffers, plan, added)
}

/// The uploads that give a slot `pages` and `rows` rows.
pub open spec fn restored_uploads(
    buffers: SourceBuffers,
    stride: int,
    slot: int,
    pages: Seq<u32>,
    rows: u64,
) -> Seq<WriteView> {
    let length = WriteView {
        destination: length_slice(buffers, slot),
        offset: 4 * pages.len() as int,
        value: ValueView::Rows(rows),
    };
    if pages.len() == 0 {
        seq![length]
    } else {
        seq![
            WriteView {
                destination: entry_slice(buffers, stride, slot, 0, pages.len() as int),
                offset: 0,
                value: ValueView::Pages(pages),
            },
            length,
        ]
    }
}

/// The upload that leaves a slot without rows.
pub open spec fn emptied_upload(buffers: SourceBuffers, slot: int) -> WriteView {
    WriteView { destination: length_slice(buffers, slot), offset: 0, value: ValueView::Rows(0) }
}

pub open spec fn writes_view(writes: Seq<MetadataWrite>) -> Seq<WriteView> {
    Seq::new(writes.len(), |i: int| writes[i]@)
}

impl SourceCache {
    /// The plan was reserved from this cache and its slots are still claimed.
    pub fn validate_plan(&self, plan: &IndexPlan) -> (r: Result<(), Error>)
        requires
            self.inv(),
            forall|i: int|
                0 <= i < plan.appends@.len() ==> (#[trigger] plan.appends@[i]).slot < MAX_SLOTS,
        ensures
            match r {
                Ok(_) => plan.pool == self.identity && forall|i: int|
                    0 <= i < plan.appends@.len()
                        ==> self.writing@[(#[trigger] plan.appends@[i]).slot as int],
                Err(e) => e == Error::ForeignPlan && (plan.pool != self.identity || exists|i: int|
                    0 <= i < plan.appends@.len()
                        && !self.writing@[(#[trigger] plan.appends@[i]).slot as int]),
            },
            self.in_flight(plan) ==> r is Ok,
    {
        proof {
            if self.in_flight(plan) {
                assert forall|i: int| 0 <= i < plan.appends@.len() implies self.writing@[(
                #[trigger] plan.appends@[i]).slot as int] by {
                    let t = plan.ticket@;
                    assert(self.plans@[t][i].slot == plan.appends@[i].slot);
                    assert(self.appended(plan.appends@[i].slot as int));
                }
            }
        }
        if plan.pool != self.identity {
            return Err(Error::ForeignPlan);
        }
        let mut i: usize = 0;
        while i < plan.appends.len()
            invariant
                i <= plan.appends@.len(),
                self.inv(),
                forall|k: int|
                    0 <= k < plan.appends@.len() ==> (#[trigger] plan.appends@[k]).slot < MAX_SLOTS,
                forall|k: int|
                    0 <= k < i ==> self.writing@[(#[trigger] plan.appends@[k]).slot as int],
                self.in_flight(plan) ==> forall|k: int|
                    0 <= k < plan.appends@.len()
                        ==> self.writing@[(#[trigger] plan.appends@[k]).slot as int],
            decreases plan.appends@.len() - i,
        {
            if !self.writing[plan.appends[i].slot] {
                return Err(Error::ForeignPlan);
            }
            i = i + 1;
        }
        Ok(())
    }

    /// Bounds that a reserved transaction keeps.
    pub proof fn lemma_plan_extent(&self, plan: &IndexPlan, i: int)
        requires
            self.inv(),
            self.in_flight(plan),
            0 <= i < plan.appends@.len(),
        ensures
            plan@[i] == plan.appends@[i]@,
            plan@[i].slot < self.slots,
            source_cache::page_count(plan@[i].end) <= self.stride,
            plan@[i].start <= plan@[i].end <= 1048576,
            self.pages@[plan@[i].slot]@.len() == source_cache::page_count(plan@[i].start),
            plan@[i].additions.len() == source_cache::page_count(plan@[i].end)
                - source_cache::page_count(plan@[i].start),
            match plan@[i].replacement {
                Some(pair) => plan@[i].tail() < self.pages@[plan@[i].slot]@.len() && pair.0
                    < self.pool.references@.len() && pair.1 < self.pool.references@.len() && pair.0
                    == self.pages@[plan@[i].slot]@[plan@[i].tail()],
                None => true,
            },
    {
        let t = plan.ticket@;
        let a = plan@[i];
        assert(source_cache::plan_fits(
            self.tables(),
            self.rows@,
            self.pool.references@,
            self.slots as int,
            self.plans@[t],
        ));
        self.lemma_new_table(t, i);
        let table = apply::new_table(self.tables()[a.slot], a);
        tally::lemma_distinct_bound(table, self.pool.references@.len());
        if let Some(pair) = a.replacement {
            assert(self.pool.in_range(self.pages@[a.slot]@));
            assert(a.fresh()[0] == pair.1);
            assert(a.fresh().contains(pair.1));
            self.lemma_fresh_untouched(t, i, pair.1);
            assert(self.tables()[a.slot] == self.pages@[a.slot]@);
        }
    }

    /// The copies to enqueue before any accepted row is written.
    pub fn copy_shared_tails(&self, buffers: &SourceBuffers, plan: &IndexPlan) -> (r: Vec<
        DeviceCopy,
    >)
        requires
            self.inv(),
            self.in_flight(plan),
            buffers.serve(self),
        ensures
            r@ == tail_copies(*buffers, plan@),
    {
        let mut copies: Vec<DeviceCopy> = Vec::new();
        let mut i: usize = 0;
        while i < plan.appends.len()
            invariant
                i <= plan.appends@.len(),
                self.inv(),
                self.in_flight(plan),
                buffers.serve(self),
                copies@ == tail_copies(*buffers, plan@.take(i as int)),
            decreases plan.appends@.len() - i,
        {
            proof {
                self.lemma_plan_extent(plan, i as int);
                assert(plan@.take(i + 1).drop_last() =~= plan@.take(i as int));
                assert(plan@.take(i + 1).last() == plan@[i as int]);
            }
            let ghost before = copies@;
            if let Some((source, destination)) = plan.appends[i].replacement {
                let from = self.page_segments(buffers, source);
                let to = self.page_segments(buffers, destination);
                let mut k: usize = 0;
                while k < 4
                    invariant
                        k <= 4,
                        from@ == page_slices(*buffers, source),
                        to@ == page_slices(*buffers, destination),
                        copies@ =~= before + Seq::new(
                            k as nat,
                            |x: int|
                                DeviceCopy {
                                    destination: page_slices(*buffers, destination)[x],
                                    source: page_slices(*buffers, source)[x],
                                },
                        ),
                    decreases 4 - k,
                {
                    copies.push(DeviceCopy { destination: to[k], source: from[k] });
                    k = k + 1;
                }
            }
            i = i + 1;
        }
        assert(plan@.take(i as int) =~= plan@);
        copies
    }

    /// The metadata uploads of a transaction, to follow the accepted rows on the
    /// same stream. `staging` is the number of staging bytes at hand.
    #[verifier::rlimit(40)]
    pub fn upload_staged(&self, buffers: &SourceBuffers, plan: &IndexPlan, staging: usize) -> (r:
        Result<Vec<MetadataWrite>, Error>)
        requires
            self.inv(),
            self.in_flight(plan),
            buffers.serve(self),
        ensures
            match r {
                Ok(writes) => metadata_bytes(plan@) <= staging && writes_view(writes@)
                    == metadata_uploads(*buffers, self.stride as int, plan@),
                Err(e) => e == Error::StagingTooSmall && metadata_bytes(plan@) > staging,
            },
    {
        let mut writes: Vec<MetadataWrite> = Vec::new();
        let mut offset: usize = 0;
        let mut i: usize = 0;
        let n: usize = plan.appends.len();
        let ghost view = plan@;
        let ghost stride = self.stride as int;
        proof {
            self.lemma_append_count(plan);
            assert(writes_view(writes@) =~= Seq::<WriteView>::empty());
        }
        while i < n
            invariant
                i <= n <= 16,
                n == plan.appends@.len(),
                self.inv(),
                self.in_flight(plan),
                buffers.serve(self),
                view == plan@,
                stride == self.stride,
                writes_view(writes@) == tail_uploads(*buffers, stride, view, i as int),
                offset == 4 * writes@.len(),
                writes@.len() == moved_tails(view, i as int),
                writes@.len() <= i,
            decreases n - i,
        {
            proof {
                self.lemma_plan_extent(plan, i as int);
            }
            let append = &plan.appends[i];
            if let Some((_, destination)) = append.replacement {
                let ghost before = writes@;
                let logical: usize = append.start / PAGE_ROWS;
                proof {
                    lemma_slot_extent(
                        self.slots as int,
                        self.stride as int,
                        append.slot as int,
                        logical as int,
                        1,
                    );
                }
                let mut pages: Vec<u32> = Vec::new();
                pages.push(destination);
                assert(pages@ =~= seq![destination]);
                writes.push(
                    MetadataWrite {
                        destination: buffers.page_table.slice(
                            (append.slot * self.stride + logical) * 4,
                            4,
                        ),
                        offset,
                        value: MetadataValue::Pages(pages),
                    },
                );
                offset = offset + 4;
                assert(writes_view(writes@) =~= writes_view(before).push(
                    writes@[writes@.len() - 1]@,
                ));
            }
            i = i + 1;
        }
        let ghost tails = writes_view(writes@);
        let ghost base = offset as int;
        let mut added: usize = 0;
        i = 0;
        assert(writes_view(writes@) =~= tails + addition_uploads(*buffers, stride, view, 0, base));
        while i < n
            invariant
                i <= n <= 16,
                n == plan.appends@.len(),
                self.inv(),
                self.in_flight(plan),
                buffers.serve(self),
                view == plan@,
                stride == self.stride,
                base <= 4 * 16,
                offset == base + 4 * added,
                added == added_pages(view, i as int),
                added <= i * 4096,
                writes_view(writes@) == tails + addition_uploads(
                    *buffers,
                    stride,
                    view,
                    i as int,
                    base,
                ),
            decreases n - i,
        {
            proof {
                self.lemma_plan_extent(plan, i as int);
            }
            let append = &plan.appends[i];
            let count: usize = append.additions.len();
            if count > 0 {
                let ghost before = writes@;
                let first: usize = self.pages[append.slot].len();
                proof {
                    lemma_slot_extent(
                        self.slots as int,
                        self.stride as int,
                        append.slot as int,
                        first as int,
                        count as int,
                    );
                }
                let pages = copy_all(&append.additions);
                writes.push(
                    MetadataWrite {
                        destination: buffers.page_table.slice(
                            (append.slot * self.stride + first) * 4,
                            count * 4,
                        ),
                        offset,
                        value: MetadataValue::Pages(pages),
                    },
                );
                offset = offset + count * 4;
                added = added + count;
                assert(writes_view(writes@) =~= writes_view(before).push(
                    writes@[writes@.len() - 1]@,
                ));
                assert(writes_view(writes@) =~= tails + addition_uploads(
                    *buffers,
                    stride,
                    view,
                    i + 1,
                    base,
                ));
            }
            i = i + 1;
        }
        if staging < offset + n * 8 {
            return Err(Error::StagingTooSmall);
        }
        let ghost pages = writes_view(writes@);
        let ghost lengths = offset as int;
        i = 0;
        assert(writes_view(writes@) =~= pages + length_uploads(*buffers, view, lengths).take(0));
        while i < n
            invariant
                i <= n <= 16,
                n == plan.appends@.len(),
                self.inv(),
                self.in_flight(plan),
                buffers.serve(self),
                view == plan@,
                lengths <= 1_000_000,
                offset == lengths + 8 * i,
                writes_view(writes@) == pages + length_uploads(*buffers, view, lengths).take(
                    i as int,
                ),
            decreases n - i,
        {
            proof {
                self.lemma_plan_extent(plan, i as int);
            }
            let append = &plan.appends[i];
            let ghost before = writes@;
            writes.push(
                MetadataWrite {
                    destination: buffers.lengths.slice(append.slot * 8, 8),
                    offset,
                    value: MetadataValue::Rows(append.end as u64),
                },
            );
            offset = offset + 8;
            assert(writes_view(writes@) =~= writes_view(before).push(writes@[writes@.len() - 1]@));
            assert(writes_view(writes@) =~= pages + length_uploads(*buffers, view, lengths).take(
                i + 1,
            ));
            i = i + 1;
        }
        assert(writes_view(writes@) =~= metadata_uploads(*buffers, stride, view));
        Ok(writes)
    }

    /// At most one append per slot.
    proof fn lemma_append_count(&self, plan: &IndexPlan)
        requires
            self.inv(),
            self.in_flight(plan),
        ensures
            plan.appends@.len() <= 16,
    {
        let t = plan.ticket@;
        let slots = Seq::new(plan@.len(), |i: int| plan@[i].slot as u32);
        assert(source_cache::plan_fits(
            self.tables(),
            self.rows@,
            self.pool.references@,
            self.slots as int,
            self.plans@[t],
        ));
        assert forall|i: int, j: int| 0 <= i < slots.len() && 0 <= j < slots.len() && i
            != j implies slots[i] != slots[j] by {
            if i < j {
                assert(plan@[i].slot != plan@[j].slot);
            } else {
                assert(plan@[j].slot != plan@[i].slot);
            }
        }
        assert forall|i: int| 0 <= i < slots.len() implies (#[trigger] slots[i]) < 16 by {
            assert(plan@[i].slot < self.slots);
        }
        tally::lemma_distinct_bound(slots, 16);
    }
}

fn copy_all(pages: &Vec<u32>) -> (r: Vec<u32>)
    ensures
        r@ == pages@,
{
    let mut copy: Vec<u32> = Vec::new();
    let mut i: usize = 0;
    while i < pages.len()
        invariant
            i <= pages@.len(),
            copy@ == pages@.take(i as int),
        decreases pages@.len() - i,
    {
        copy.push(pages[i]);
        i = i + 1;
    }
    assert(pages@.take(i as int) =~= pages@);
    copy
}

impl SourceCache {
    /// The upload that empties an idle slot's published row count.
    pub fn reset(&self, buffers: &SourceBuffers, slot: usize) -> (r: Result<MetadataWrite, Error>)
        requires
            self.inv(),
            buffers.serve(self),
        ensures
            match r {
                Ok(write) => {
                    &&& slot < self.slots && !self.writing@[slot as int]
                    &&& write@ == emptied_upload(*buffers, slot as int)
                },
                Err(e) => e == Error::PendingAppend && (slot >= self.slots
                    || self.writing@[slot as int]),
            },
    {
        match self.ensure_idle(slot) {
            Err(e) => {
                return Err(e);
            },
            Ok(_) => {},
        }
        Ok(
            MetadataWrite {
                destination: buffers.lengths.slice(slot * 8, 8),
                offset: 0,
                value: MetadataValue::Rows(0),
            },
        )
    }

    /// The uploads that install a retained source's page numbers and row count,
    /// to be completed before the source is attached to `slot`.
    pub fn restore_uploads(&self, buffers: &SourceBuffers, slot: usize, prefix: &SourcePrefix) -> (r:
        Result<Vec<MetadataWrite>, Error>)
        requires
            self.inv(),
            buffers.serve(self),
        ensures
            match r {
                Ok(writes) => {
                    &&& self.restore_error(slot as int, prefix) is None
                    &&& writes_view(writes@) == restored_uploads(
                        *buffers,
                        self.stride as int,
                        slot as int,
                        prefix.pages@,
                        prefix.rows as u64,
                    )
                },
                Err(e) => self.restore_error(slot as int, prefix) == Some(e),
            },
    {
        match self.check_restore(slot, prefix) {
            Err(e) => {
                return Err(e);
            },
            Ok(_) => {},
        }
        let mut writes: Vec<MetadataWrite> = Vec::new();
        let count: usize = prefix.pages.len();
        proof {
            lemma_slot_extent(
                self.slots as int,
                self.stride as int,
                slot as int,
                0,
                count as int,
            );
        }
        if count > 0 {
            writes.push(
                MetadataWrite {
                    destination: buffers.page_table.slice(slot * self.stride * 4, count * 4),
                    offset: 0,
                    value: MetadataValue::Pages(copy_all(&prefix.pages)),
                },
            );
        }
        writes.push(
            MetadataWrite {
                destination: buffers.lengths.slice(slot * 8, 8),
                offset: count * 4,
                value: MetadataValue::Rows(prefix.rows as u64),
            },
        );
        proof {
            let length = writes@[writes@.len() - 1]@;
            if count > 0 {
                assert(writes_view(writes@) =~= seq![writes@[0]@, length]);
            } else {
                assert(writes_view(writes@) =~= seq![length]);
            }
        }
        Ok(writes)
    }

    /// Physical row of logical row `row` of `slot` once `plan` has been applied.
    pub fn destination(&self, plan: &IndexPlan, slot: usize, row: usize) -> (r: Result<u64, Error>)
        requires
            self.inv(),
            self.in_flight(plan),
            slot < MAX_SLOTS,
        ensures
            ({
                let after = apply::applied_tables(self.tables(), plan@, plan@.len() as int);
                match r {
                    Ok(physical) => {
                        &&& row / 256 < after[slot as int].len()
                        &&& physical == memory::physical_row(after[slot as int], row as int)
                    },
                    Err(e) => {
                        &&& row / 256 >= after[slot as int].len()
                        &&& e == if apply::untouched(plan@, plan@.len() as int, slot as int) {
                            Error::AppendMissing
                        } else {
                            Error::AppendOutsideReservation
                        }
                    },
                }
            }),
    {
        let logical: usize = row / PAGE_ROWS;
        let ghost view = plan@;
        let ghost n = view.len() as int;
        let ghost after = apply::applied_tables(self.tables(), view, n);
        proof {
            assert(source_cache::plan_fits(
                self.tables(),
                self.rows@,
                self.pool.references@,
                self.slots as int,
                self.plans@[plan.ticket@],
            ));
            apply::lemma_applied(self.tables(), self.rows@, view, n);
            assert(self.tables()[slot as int] == self.pages@[slot as int]@);
        }
        let mut i: usize = 0;
        while i < plan.appends.len()
            invariant
                i <= plan.appends@.len(),
                self.inv(),
                self.in_flight(plan),
                slot < MAX_SLOTS,
                logical == row / 256,
                view == plan@,
                n == view.len(),
                after == apply::applied_tables(self.tables(), view, n),
                self.tables()[slot as int] == self.pages@[slot as int]@,
                forall|k: int|
                    0 <= k < n ==> after[(#[trigger] view[k]).slot] == apply::new_table(
                        self.tables()[view[k].slot],
                        view[k],
                    ),
                forall|k: int| 0 <= k < i ==> (#[trigger] view[k]).slot != slot,
            decreases plan.appends@.len() - i,
        {
            let append = &plan.appends[i];
            proof {
                self.lemma_plan_extent(plan, i as int);
                assert(view[i as int] == append@);
            }
            if append.slot == slot {
                let old: usize = self.pages[slot].len();
                let ghost a = view[i as int];
                assert(after[slot as int] == apply::new_table(self.tables()[slot as int], a));
                assert(!apply::untouched(view, n, slot as int));
                let page: u32 = if logical >= old {
                    if logical - old >= append.additions.len() {
                        return Err(Error::AppendOutsideReservation);
                    }
                    append.additions[logical - old]
                } else {
                    match append.replacement {
                        Some((_, target)) => if logical == append.start / PAGE_ROWS {
                            target
                        } else {
                            self.pages[slot][logical]
                        },
                        None => self.pages[slot][logical],
                    }
                };
                assert(page == after[slot as int][logical as int]);
                return Ok(page as u64 * PAGE_ROWS as u64 + (row % PAGE_ROWS) as u64);
            }
            i = i + 1;
        }
        assert(apply::untouched(view, n, slot as int)) by {
            assert forall|k: int| 0 <= k < n implies (#[trigger] view[k]).slot != slot by {}
        }
        if logical < self.pages[slot].len() {
            Ok(
                self.pages[slot][logical] as u64 * PAGE_ROWS as u64 + (row % PAGE_ROWS) as u64,
            )
        } else {
            Err(Error::AppendMissing)
        }
    }
}

proof fn lemma_metadata_pages(plan: Seq<AppendView>, n: int)
    requires
        0 <= n <= plan.len(),
    ensures
        moved_tails(plan, n) + added_pages(plan, n) == source_cache::fresh_pages(
            plan.take(n),
        ).len(),
    decreases n,
{
    if n > 0 {
        lemma_metadata_pages(plan, n - 1);
        assert(plan.take(n).drop_last() =~= plan.take(n - 1));
        assert(plan.take(n).last() == plan[n - 1]);
    }
}

impl SourceCache {
    /// The cache's own staging memory: an entry for each page, a row count for
    /// each slot.
    pub open spec fn own_staging(&self) -> int {
        self.pool.references@.len() * 4 + self.slots * 8
    }

    /// The cache's own staging memory holds the metadata of every transaction.
    pub proof fn law_own_staging_suffices(&self, ticket: int)
        requires
            self.inv(),
            self.plans@.contains_key(ticket),
        ensures
            metadata_bytes(self.plans@[ticket]) <= self.own_staging(),
    {
        let plan = self.plans@[ticket];
        let n = plan.len() as int;
        assert(source_cache::plan_fits(
            self.tables(),
            self.rows@,
            self.pool.references@,
            self.slots as int,
            plan,
        ));
        lemma_metadata_pages(plan, n);
        assert(plan.take(n) =~= plan);
        tally::lemma_distinct_bound(
            source_cache::fresh_pages(plan),
            self.pool.references@.len(),
        );
        let slots = Seq::new(plan.len(), |i: int| plan[i].slot as u32);
        assert forall|i: int, j: int| 0 <= i < slots.len() && 0 <= j < slots.len() && i
            != j implies slots[i] != slots[j] by {
            assert(0 <= plan[i].slot < self.slots && 0 <= plan[j].slot < self.slots);
            if i < j {
                assert(plan[i].slot != plan[j].slot);
            } else {
                assert(plan[j].slot != plan[i].slot);
            }
        }
        assert forall|i: int| 0 <= i < slots.len() implies (#[trigger] slots[i]) < self.slots by {
            assert(0 <= plan[i].slot < self.slots);
        }
        tally::lemma_distinct_bound(slots, self.slots as nat);
    }

    /// The metadata uploads of a transaction from the cache's own staging memory,
    /// to follow the accepted rows on the same stream.
    #[verifier::rlimit(40)]
    pub fn upload(&self, buffers: &SourceBuffers, plan: &IndexPlan) -> (r: Result<
        Vec<MetadataWrite>,
        Error,
    >)
        requires
            self.inv(),
            self.in_flight(plan),
            buffers.serve(self),
        ensures
            r matches Ok(writes) && writes_view(writes@) == metadata_uploads(
                *buffers,
                self.stride as int,
                plan@,
            ),
    {
        let pages: usize = self.capacity / PAGE_ROWS;
        assert(pages == self.pool.references@.len() && pages <= 262144);
        assert(self.slots <= MAX_SLOTS);
        let staging: usize = pages * 4 + self.slots * 8;
        assert(metadata_bytes(plan@) <= staging) by {
            self.law_own_staging_suffices(plan.ticket@);
        }
        self.upload_staged(buffers, plan, staging)
    }
}

/// The bytes that are counted for a pool are those of its buffers: the rows of every
/// page, 356 bytes each, and per slot the table and the length; a peer copy has 288 of
/// the bytes of each row.
pub proof fn law_pool_bytes_are_those_of_the_buffers(cache: &SourceCache, buffers: SourceBuffers)
    requires
        cache.inv(),
        buffers.serve(cache),
        source_cache::pool_bytes(
            cache.pool.references@.len() as int,
            cache.slots as int,
            356,
        ) is Ok,
    ensures
        ({
            let pages = cache.pool.references@.len() as int;
            let tables = buffers.page_table.bytes + buffers.lengths.bytes;
            let values = buffers.kv_values.bytes + buffers.kv_scales.bytes;
            let index = buffers.packed.bytes + buffers.scales.bytes;
            &&& source_cache::pool_bytes(pages, cache.slots as int, 356) == Ok::<int, Error>(
                index + values + tables,
            )
            &&& source_cache::pool_bytes(pages, cache.slots as int, 288) == Ok::<int, Error>(
                values + tables,
            )
        }),
{
    let slots = cache.slots as int;
    let stride = cache.stride as int;
    assert(slots * (stride * 4 + 8) == slots * stride * 4 + slots * 8) by (nonlinear_arith);
}

} // verus!
