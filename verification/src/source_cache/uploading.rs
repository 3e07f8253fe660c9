//! What the metadata uploads of a paged cache leave on its device.
use crate::device_memory;
use crate::source_cache;
use crate::source_cache::apply;
use crate::source_cache::layout;
use crate::source_cache::layout::{SourceBuffers, ValueView, WriteView};
use crate::source_cache::{AppendView, SourceCache};
use vstd::prelude::*;

verus! {

/// How the machine lays out page numbers and row counts in memory.
pub struct Encoding {
    pub page: spec_fn(u32) -> Seq<u8>,
    pub rows: spec_fn(u64) -> Seq<u8>,
}

/// Byte `b` of an uploaded value.
pub open spec fn value_byte(encoding: Encoding, value: ValueView, b: int) -> u8 {
    match value {
        ValueView::Pages(pages) => (encoding.page)(pages[b / 4])[b % 4],
        ValueView::Rows(rows) => (encoding.rows)(rows)[b],
    }
}

/// Bytes of an uploaded value.
pub open spec fn value_bytes(value: ValueView) -> int {
    match value {
        ValueView::Pages(pages) => 4 * pages.len() as int,
        ValueView::Rows(_) => 8,
    }
}

/// The bytes of all devices after one upload.
pub open spec fn written(
    memory: spec_fn(i32, int) -> u8,
    encoding: Encoding,
    write: WriteView,
) -> spec_fn(i32, int) -> u8 {
    |device: i32, address: int|
        if device_memory::covers(write.destination, device, address) {
            value_byte(encoding, write.value, address - write.destination.address)
        } else {
            memory(device, address)
        }
}

/// The bytes of all devices after `writes`, one after the other.
pub open spec fn upload(
    memory: spec_fn(i32, int) -> u8,
    encoding: Encoding,
    writes: Seq<WriteView>,
) -> spec_fn(i32, int) -> u8
    decreases writes.len(),
{
    if writes.len() == 0 {
        memory
    } else {
        written(upload(memory, encoding, writes.drop_last()), encoding, writes.last())
    }
}

/// Entry `l` of a slot's page table reads `page` on the device.
pub open spec fn entry_reads(
    memory: spec_fn(i32, int) -> u8,
    encoding: Encoding,
    buffers: SourceBuffers,
    stride: int,
    slot: int,
    l: int,
    page: u32,
) -> bool {
    forall|b: int|
        0 <= b < 4 ==> memory(
            buffers.page_table.device,
            #[trigger] entry_byte(buffers, stride, slot, l, b),
        ) == (encoding.page)(page)[b]
}

/// Where byte `b` of entry `l` of a slot's page table lies.
pub open spec fn entry_byte(
    buffers: SourceBuffers,
    stride: int,
    slot: int,
    l: int,
    b: int,
) -> int {
    buffers.page_table.address + 4 * (slot * stride + l) + b
}

/// A slot's row count reads `rows` on the device.
pub open spec fn count_reads(
    memory: spec_fn(i32, int) -> u8,
    encoding: Encoding,
    buffers: SourceBuffers,
    slot: int,
    rows: u64,
) -> bool {
    forall|b: int|
        0 <= b < 8 ==> memory(buffers.lengths.device, #[trigger] count_byte(buffers, slot, b))
            == (encoding.rows)(rows)[b]
}

/// Where byte `b` of a slot's row count lies.
pub open spec fn count_byte(buffers: SourceBuffers, slot: int, b: int) -> int {
    buffers.lengths.address + 8 * slot + b
}

/// A write that covers the byte gives it the value `v`.
spec fn gives(
    write: WriteView,
    encoding: Encoding,
    device: i32,
    address: int,
    v: u8,
) -> bool {
    device_memory::covers(write.destination, device, address) ==> value_byte(
        encoding,
        write.value,
        address - write.destination.address,
    ) == v
}

/// A byte that every write covering it gives the value `v`, and that some write covers
/// or that had the value before, has it afterwards.
proof fn lemma_given(
    memory: spec_fn(i32, int) -> u8,
    encoding: Encoding,
    writes: Seq<WriteView>,
    device: i32,
    address: int,
    v: u8,
)
    requires
        forall|k: int|
            0 <= k < writes.len() ==> gives(#[trigger] writes[k], encoding, device, address, v),
        memory(device, address) == v || exists|k: int|
            0 <= k < writes.len() && device_memory::covers(
                (#[trigger] writes[k]).destination,
                device,
                address,
            ),
    ensures
        upload(memory, encoding, writes)(device, address) == v,
    decreases writes.len(),
{
    if writes.len() > 0 {
        let init = writes.drop_last();
        let last = writes[writes.len() - 1];
        assert(gives(last, encoding, device, address, v));
        assert forall|k: int| 0 <= k < init.len() implies gives(
            #[trigger] init[k],
            encoding,
            device,
            address,
            v,
        ) by {
            assert(init[k] == writes[k]);
        }
        if !device_memory::covers(last.destination, device, address) {
            if memory(device, address) != v {
                let k = choose|k: int|
                    0 <= k < writes.len() && device_memory::covers(
                        (#[trigger] writes[k]).destination,
                        device,
                        address,
                    );
                assert(init[k] == writes[k]);
            }
            lemma_given(memory, encoding, init, device, address, v);
        }
    }
}

proof fn lemma_not_given(
    memory: spec_fn(i32, int) -> u8,
    encoding: Encoding,
    writes: Seq<WriteView>,
    device: i32,
    address: int,
)
    requires
        forall|k: int|
            0 <= k < writes.len() ==> !device_memory::covers(
                (#[trigger] writes[k]).destination,
                device,
                address,
            ),
    ensures
        upload(memory, encoding, writes)(device, address) == memory(device, address),
    decreases writes.len(),
{
    if writes.len() > 0 {
        let init = writes.drop_last();
        assert(!device_memory::covers(
            writes[writes.len() - 1].destination,
            device,
            address,
        ));
        assert forall|k: int| 0 <= k < init.len() implies !device_memory::covers(
            (#[trigger] init[k]).destination,
            device,
            address,
        ) by {
            assert(init[k] == writes[k]);
        }
        lemma_not_given(memory, encoding, init, device, address);
    }
}

/// The upload sets entries `first..` of append `i`'s slot to `pages`.
spec fn sets_entries(
    buffers: SourceBuffers,
    stride: int,
    plan: Seq<AppendView>,
    i: int,
    first: int,
    pages: Seq<u32>,
    write: WriteView,
) -> bool {
    &&& write.destination == layout::entry_slice(
        buffers,
        stride,
        plan[i].slot,
        first,
        pages.len() as int,
    )
    &&& write.value == ValueView::Pages(pages)
}

/// What an upload of a transaction can be, for append `i`.
spec fn is_entry_upload(
    buffers: SourceBuffers,
    stride: int,
    plan: Seq<AppendView>,
    i: int,
    write: WriteView,
) -> bool {
    let a = plan[i];
    &&& 0 <= i < plan.len()
    &&& {
        ||| a.replacement is Some && sets_entries(
            buffers,
            stride,
            plan,
            i,
            a.start / 256,
            seq![a.replacement->Some_0.1],
            write,
        )
        ||| sets_entries(
            buffers,
            stride,
            plan,
            i,
            source_cache::page_count(a.start),
            a.additions,
            write,
        )
    }
}

spec fn some_entry_upload(
    buffers: SourceBuffers,
    stride: int,
    plan: Seq<AppendView>,
    write: WriteView,
) -> bool {
    exists|i: int| #[trigger] is_entry_upload(buffers, stride, plan, i, write)
}

proof fn lemma_tail_uploads(
    buffers: SourceBuffers,
    stride: int,
    plan: Seq<AppendView>,
    n: int,
)
    requires
        0 <= n <= plan.len(),
    ensures
        ({
            let writes = layout::tail_uploads(buffers, stride, plan, n);
            &&& forall|k: int|
                0 <= k < writes.len() ==> some_entry_upload(
                    buffers,
                    stride,
                    plan,
                    #[trigger] writes[k],
                )
            &&& forall|i: int|
                0 <= i < n && (#[trigger] plan[i]).replacement is Some ==> exists|k: int|
                    0 <= k < writes.len() && sets_entries(
                        buffers,
                        stride,
                        plan,
                        i,
                        plan[i].start / 256,
                        seq![plan[i].replacement->Some_0.1],
                        #[trigger] writes[k],
                    )
        }),
    decreases n,
{
    if n > 0 {
        lemma_tail_uploads(buffers, stride, plan, n - 1);
        let before = layout::tail_uploads(buffers, stride, plan, n - 1);
        let writes = layout::tail_uploads(buffers, stride, plan, n);
        assert forall|k: int| 0 <= k < writes.len() implies some_entry_upload(
            buffers,
            stride,
            plan,
            #[trigger] writes[k],
        ) by {
            if k < before.len() {
                assert(writes[k] == before[k]);
            } else {
                assert(is_entry_upload(buffers, stride, plan, n - 1, writes[k]));
            }
        }
        assert forall|i: int|
            0 <= i < n && (#[trigger] plan[i]).replacement is Some implies exists|k: int|
            0 <= k < writes.len() && sets_entries(
                buffers,
                stride,
                plan,
                i,
                plan[i].start / 256,
                seq![plan[i].replacement->Some_0.1],
                #[trigger] writes[k],
            ) by {
            if i < n - 1 {
                let k = choose|k: int|
                    0 <= k < before.len() && sets_entries(
                        buffers,
                        stride,
                        plan,
                        i,
                        plan[i].start / 256,
                        seq![plan[i].replacement->Some_0.1],
                        #[trigger] before[k],
                    );
                assert(writes[k] == before[k]);
            } else {
                assert(sets_entries(
                    buffers,
                    stride,
                    plan,
                    i,
                    plan[i].start / 256,
                    seq![plan[i].replacement->Some_0.1],
                    writes[before.len() as int],
                ));
            }
        }
    }
}

proof fn lemma_addition_uploads(
    buffers: SourceBuffers,
    stride: int,
    plan: Seq<AppendView>,
    n: int,
    base: int,
)
    requires
        0 <= n <= plan.len(),
    ensures
        ({
            let writes = layout::addition_uploads(buffers, stride, plan, n, base);
            &&& forall|k: int|
                0 <= k < writes.len() ==> some_entry_upload(
                    buffers,
                    stride,
                    plan,
                    #[trigger] writes[k],
                )
            &&& forall|i: int|
                0 <= i < n && (#[trigger] plan[i]).additions.len() > 0 ==> exists|k: int|
                    0 <= k < writes.len() && sets_entries(
                        buffers,
                        stride,
                        plan,
                        i,
                        source_cache::page_count(plan[i].start),
                        plan[i].additions,
                        #[trigger] writes[k],
                    )
        }),
    decreases n,
{
    if n > 0 {
        lemma_addition_uploads(buffers, stride, plan, n - 1, base);
        let before = layout::addition_uploads(buffers, stride, plan, n - 1, base);
        let writes = layout::addition_uploads(buffers, stride, plan, n, base);
        assert forall|k: int| 0 <= k < writes.len() implies some_entry_upload(
            buffers,
            stride,
            plan,
            #[trigger] writes[k],
        ) by {
            if k < before.len() {
                assert(writes[k] == before[k]);
            } else {
                assert(is_entry_upload(buffers, stride, plan, n - 1, writes[k]));
            }
        }
        assert forall|i: int|
            0 <= i < n && (#[trigger] plan[i]).additions.len() > 0 implies exists|k: int|
            0 <= k < writes.len() && sets_entries(
                buffers,
                stride,
                plan,
                i,
                source_cache::page_count(plan[i].start),
                plan[i].additions,
                #[trigger] writes[k],
            ) by {
            if i < n - 1 {
                let k = choose|k: int|
                    0 <= k < before.len() && sets_entries(
                        buffers,
                        stride,
                        plan,
                        i,
                        source_cache::page_count(plan[i].start),
                        plan[i].additions,
                        #[trigger] before[k],
                    );
                assert(writes[k] == before[k]);
            } else {
                assert(sets_entries(
                    buffers,
                    stride,
                    plan,
                    i,
                    source_cache::page_count(plan[i].start),
                    plan[i].additions,
                    writes[before.len() as int],
                ));
            }
        }
    }
}

proof fn lemma_entries_apart(stride: int, s: int, l: int, t: int, m: int)
    requires
        0 <= l < stride,
        0 <= m < stride,
        s * stride + l == t * stride + m,
    ensures
        s == t,
        l == m,
{
    if s < t {
        assert((s + 1) * stride <= t * stride) by (nonlinear_arith)
            requires
                s + 1 <= t,
                0 < stride,
        ;
        assert((s + 1) * stride == s * stride + stride) by (nonlinear_arith);
    } else if t < s {
        assert((t + 1) * stride <= s * stride) by (nonlinear_arith)
            requires
                t + 1 <= s,
                0 < stride,
        ;
        assert((t + 1) * stride == t * stride + stride) by (nonlinear_arith);
    }
}

impl SourceCache {
    /// An upload of the transaction gives an entry its place in the new tables.
    proof fn lemma_entry_given(
        &self,
        buffers: SourceBuffers,
        encoding: Encoding,
        ticket: int,
        s: int,
        l: int,
        b: int,
        write: WriteView,
    )
        requires
            self.inv(),
            self.plans@.contains_key(ticket),
            buffers.serve(self),
            0 <= s < self.slots,
            0 <= l < self.stride,
            0 <= b < 4,
            some_entry_upload(buffers, self.stride as int, self.plans@[ticket], write),
        ensures
            ({
                let plan = self.plans@[ticket];
                let table = apply::applied_tables(self.tables(), plan, plan.len() as int)[s];
                let at = entry_byte(buffers, self.stride as int, s, l, b);
                &&& gives(
                    write,
                    encoding,
                    buffers.page_table.device,
                    at,
                    (encoding.page)(table[l])[b],
                )
                &&& device_memory::covers(write.destination, buffers.page_table.device, at) ==> {
                    &&& l < table.len()
                    &&& !apply::untouched(plan, plan.len() as int, s)
                }
                &&& write.destination.device == buffers.page_table.device
                &&& write.destination.address >= buffers.page_table.address
                &&& write.destination.address + write.destination.bytes
                    <= buffers.page_table.address + buffers.page_table.bytes
            }),
    {
        let plan = self.plans@[ticket];
        let stride = self.stride as int;
        let i = choose|i: int| #[trigger]
            is_entry_upload(buffers, stride, plan, i, write);
        let a = plan[i];
        let at = entry_byte(buffers, stride, s, l, b);
        self.lemma_append_table(ticket, i);
        self.lemma_added_entries(ticket, i);
        layout::lemma_slot_extent(self.slots as int, stride, s, l, 1);
        let tail = a.replacement is Some && sets_entries(
            buffers,
            stride,
            plan,
            i,
            a.start / 256,
            seq![a.replacement->Some_0.1],
            write,
        );
        let first = if tail {
            a.start / 256
        } else {
            source_cache::page_count(a.start)
        };
        let count = if tail {
            1
        } else {
            a.additions.len() as int
        };
        layout::lemma_slot_extent(self.slots as int, stride, a.slot, first, count);
        assert(write.destination == layout::entry_slice(buffers, stride, a.slot, first, count));
        if device_memory::covers(write.destination, buffers.page_table.device, at) {
            let off = at - write.destination.address;
            assert(write.destination.address == buffers.page_table.address + (a.slot * stride
                + first) * 4);
            let m = first + off / 4;
            assert(off == 4 * (s * stride + l) + b - (a.slot * stride + first) * 4);
            assert(s * stride + l == a.slot * stride + m);
            assert(off % 4 == b);
            assert(0 <= m < stride);
            lemma_entries_apart(stride, s, l, a.slot, m);
            assert(plan[i].slot == s);
        }
    }

    /// What the tables of an appended slot hold behind its old entries.
    proof fn lemma_added_entries(&self, ticket: int, i: int)
        requires
            self.inv(),
            self.plans@.contains_key(ticket),
            0 <= i < self.plans@[ticket].len(),
        ensures
            ({
                let plan = self.plans@[ticket];
                let a = plan[i];
                let old = self.tables()[a.slot];
                let table = apply::applied_tables(self.tables(), plan, plan.len() as int)[a.slot];
                forall|k: int|
                    0 <= k < a.additions.len() ==> #[trigger] table[old.len() + k]
                        == a.additions[k]
            }),
    {
        let plan = self.plans@[ticket];
        assert(source_cache::plan_fits(
            self.tables(),
            self.rows@,
            self.pool.references@,
            self.slots as int,
            plan,
        ));
        apply::lemma_applied(self.tables(), self.rows@, plan, plan.len() as int);
        self.lemma_append_table(ticket, i);
    }

    /// All uploads of a transaction, in their two parts.
    proof fn lemma_uploads(&self, buffers: SourceBuffers, ticket: int)
        requires
            self.inv(),
            self.plans@.contains_key(ticket),
        ensures
            ({
                let plan = self.plans@[ticket];
                let n = plan.len() as int;
                let stride = self.stride as int;
                let writes = layout::metadata_uploads(buffers, stride, plan);
                let head = writes.take(writes.len() - n);
                &&& writes.len() >= n
                &&& forall|k: int|
                    0 <= k < head.len() ==> some_entry_upload(
                        buffers,
                        stride,
                        plan,
                        #[trigger] head[k],
                    )
                &&& forall|i: int|
                    0 <= i < n && (#[trigger] plan[i]).replacement is Some ==> exists|k: int|
                        0 <= k < head.len() && sets_entries(
                            buffers,
                            stride,
                            plan,
                            i,
                            plan[i].start / 256,
                            seq![plan[i].replacement->Some_0.1],
                            #[trigger] head[k],
                        )
                &&& forall|i: int|
                    0 <= i < n && (#[trigger] plan[i]).additions.len() > 0 ==> exists|k: int|
                        0 <= k < head.len() && sets_entries(
                            buffers,
                            stride,
                            plan,
                            i,
                            source_cache::page_count(plan[i].start),
                            plan[i].additions,
                            #[trigger] head[k],
                        )
                &&& forall|i: int|
                    0 <= i < n ==> {
                        let write = #[trigger] writes[head.len() + i];
                        &&& write.destination == buffers.lengths.slice_of(plan[i].slot * 8, 8)
                        &&& write.value == ValueView::Rows(plan[i].end as u64)
                    }
            }),
    {
        let plan = self.plans@[ticket];
        let n = plan.len() as int;
        let stride = self.stride as int;
        let tails = 4 * layout::moved_tails(plan, n);
        let x = layout::tail_uploads(buffers, stride, plan, n);
        let y = layout::addition_uploads(buffers, stride, plan, n, tails);
        let z = layout::length_uploads(
            buffers,
            plan,
            tails + 4 * layout::added_pages(plan, n),
        );
        let writes = layout::metadata_uploads(buffers, stride, plan);
        let head = writes.take(writes.len() - n);
        assert(writes == x + y + z);
        assert(head =~= x + y);
        lemma_tail_uploads(buffers, stride, plan, n);
        lemma_addition_uploads(buffers, stride, plan, n, tails);
        assert forall|k: int| 0 <= k < head.len() implies some_entry_upload(
            buffers,
            stride,
            plan,
            #[trigger] head[k],
        ) by {
            if k < x.len() {
                assert(head[k] == x[k]);
            } else {
                assert(head[k] == y[k - x.len()]);
            }
        }
        assert forall|i: int|
            0 <= i < n && (#[trigger] plan[i]).replacement is Some implies exists|k: int|
            0 <= k < head.len() && sets_entries(
                buffers,
                stride,
                plan,
                i,
                plan[i].start / 256,
                seq![plan[i].replacement->Some_0.1],
                #[trigger] head[k],
            ) by {
            let k = choose|k: int|
                0 <= k < x.len() && sets_entries(
                    buffers,
                    stride,
                    plan,
                    i,
                    plan[i].start / 256,
                    seq![plan[i].replacement->Some_0.1],
                    #[trigger] x[k],
                );
            assert(head[k] == x[k]);
        }
        assert forall|i: int|
            0 <= i < n && (#[trigger] plan[i]).additions.len() > 0 implies exists|k: int|
            0 <= k < head.len() && sets_entries(
                buffers,
                stride,
                plan,
                i,
                source_cache::page_count(plan[i].start),
                plan[i].additions,
                #[trigger] head[k],
            ) by {
            let k = choose|k: int|
                0 <= k < y.len() && sets_entries(
                    buffers,
                    stride,
                    plan,
                    i,
                    source_cache::page_count(plan[i].start),
                    plan[i].additions,
                    #[trigger] y[k],
                );
            assert(head[x.len() + k] == y[k]);
        }
        assert forall|i: int| 0 <= i < n implies {
            let write = #[trigger] writes[head.len() + i];
            &&& write.destination == buffers.lengths.slice_of(plan[i].slot * 8, 8)
            &&& write.value == ValueView::Rows(plan[i].end as u64)
        } by {
            assert(writes[head.len() + i] == z[i]);
        }
    }
}

impl SourceCache {
    proof fn lemma_entry_uploaded(
        &self,
        buffers: SourceBuffers,
        encoding: Encoding,
        ticket: int,
        memory: spec_fn(i32, int) -> u8,
        writes: Seq<WriteView>,
        s: int,
        l: int,
    )
        requires
            self.inv(),
            self.plans@.contains_key(ticket),
            buffers.serve(self),
            buffers.page_table.disjoint(buffers.lengths),
            0 <= s < self.slots,
            ({
                let plan = self.plans@[ticket];
                let n = plan.len() as int;
                let all = layout::metadata_uploads(buffers, self.stride as int, plan);
                writes == all || writes == all.take(all.len() - n)
            }),
            ({
                let plan = self.plans@[ticket];
                0 <= l < apply::applied_tables(
                    self.tables(),
                    plan,
                    plan.len() as int,
                )[s].len()
            }),
            l < self.tables()[s].len() ==> entry_reads(
                memory,
                encoding,
                buffers,
                self.stride as int,
                s,
                l,
                self.tables()[s][l],
            ),
        ensures
            ({
                let plan = self.plans@[ticket];
                entry_reads(
                    upload(memory, encoding, writes),
                    encoding,
                    buffers,
                    self.stride as int,
                    s,
                    l,
                    apply::applied_tables(self.tables(), plan, plan.len() as int)[s][l],
                )
            }),
    {
        let plan = self.plans@[ticket];
        let n = plan.len() as int;
        let stride = self.stride as int;
        let tables = apply::applied_tables(self.tables(), plan, n);
        let table = tables[s];
        let old = self.tables()[s];
        let all = layout::metadata_uploads(buffers, stride, plan);
        let head = all.take(all.len() - n);
        let device = buffers.page_table.device;
        self.lemma_uploads(buffers, ticket);
        assert(source_cache::plan_fits(
            self.tables(),
            self.rows@,
            self.pool.references@,
            self.slots as int,
            plan,
        ));
        apply::lemma_applied(self.tables(), self.rows@, plan, n);
        assert(self.tables()[s] == self.pages@[s]@);
        if !apply::untouched(plan, n, s) {
            let i = choose|i: int| 0 <= i < n && (#[trigger] plan[i]).slot == s;
            self.lemma_append_table(ticket, i);
            self.lemma_added_entries(ticket, i);
        }
        assert(l < stride);
        layout::lemma_slot_extent(self.slots as int, stride, s, l, 1);
        assert forall|b: int| 0 <= b < 4 implies upload(memory, encoding, writes)(
            device,
            #[trigger] entry_byte(buffers, stride, s, l, b),
        ) == (encoding.page)(table[l])[b] by {
            let at = entry_byte(buffers, stride, s, l, b);
            let v = (encoding.page)(table[l])[b];
            assert forall|k: int| 0 <= k < writes.len() implies gives(
                #[trigger] writes[k],
                encoding,
                device,
                at,
                v,
            ) by {
                if k < head.len() {
                    assert(writes[k] == head[k]);
                    self.lemma_entry_given(buffers, encoding, ticket, s, l, b, writes[k]);
                } else {
                    let i = k - head.len();
                    assert(writes[k] == all[head.len() + i]);
                    self.lemma_append_table(ticket, i);
                }
            }
            if memory(device, at) != v {
                assert(!apply::untouched(plan, n, s));
                let i = choose|i: int| 0 <= i < n && (#[trigger] plan[i]).slot == s;
                let a = plan[i];
                if l >= old.len() {
                    let k = choose|k: int|
                        0 <= k < head.len() && sets_entries(
                            buffers,
                            stride,
                            plan,
                            i,
                            source_cache::page_count(plan[i].start),
                            plan[i].additions,
                            #[trigger] head[k],
                        );
                    layout::lemma_slot_extent(
                        self.slots as int,
                        stride,
                        s,
                        old.len() as int,
                        a.additions.len() as int,
                    );
                    assert(writes[k] == head[k]);
                    assert(device_memory::covers(writes[k].destination, device, at));
                } else {
                    assert(a.replacement is Some && l == a.tail());
                    let k = choose|k: int|
                        0 <= k < head.len() && sets_entries(
                            buffers,
                            stride,
                            plan,
                            i,
                            plan[i].start / 256,
                            seq![plan[i].replacement->Some_0.1],
                            #[trigger] head[k],
                        );
                    assert(writes[k] == head[k]);
                    assert(device_memory::covers(writes[k].destination, device, at));
                }
            }
            lemma_given(memory, encoding, writes, device, at, v);
        }
    }

    /// Once a transaction's uploads are done, the device's page table of every slot
    /// reads the slot's new pages, whether the slot appends or not, and the row count
    /// of every slot that appends reads its new rows, which those pages hold. All other
    /// row counts stay. The entries are there before any row count changes.
    pub proof fn law_uploads_install_the_new_tables(
        &self,
        buffers: SourceBuffers,
        encoding: Encoding,
        ticket: int,
        memory: spec_fn(i32, int) -> u8,
        s: int,
    )
        requires
            self.inv(),
            self.plans@.contains_key(ticket),
            buffers.serve(self),
            buffers.page_table.disjoint(buffers.lengths),
            0 <= s < self.slots,
            forall|l: int|
                0 <= l < self.tables()[s].len() ==> #[trigger] entry_reads(
                    memory,
                    encoding,
                    buffers,
                    self.stride as int,
                    s,
                    l,
                    self.tables()[s][l],
                ),
        ensures
            ({
                let plan = self.plans@[ticket];
                let n = plan.len() as int;
                let stride = self.stride as int;
                let tables = apply::applied_tables(self.tables(), plan, n);
                let writes = layout::metadata_uploads(buffers, stride, plan);
                let ready = upload(memory, encoding, writes.take(writes.len() - n));
                let after = upload(memory, encoding, writes);
                &&& forall|l: int|
                    0 <= l < tables[s].len() ==> #[trigger] entry_reads(
                        after,
                        encoding,
                        buffers,
                        stride,
                        s,
                        l,
                        tables[s][l],
                    ) && entry_reads(ready, encoding, buffers, stride, s, l, tables[s][l])
                &&& forall|i: int|
                    0 <= i < n && (#[trigger] plan[i]).slot == s ==> {
                        &&& count_reads(after, encoding, buffers, s, plan[i].end as u64)
                        &&& plan[i].end <= tables[s].len() * 256
                    }
                &&& forall|b: int|
                    0 <= b < 8 ==> ready(
                        buffers.lengths.device,
                        #[trigger] count_byte(buffers, s, b),
                    ) == memory(buffers.lengths.device, count_byte(buffers, s, b))
                &&& (forall|i: int| 0 <= i < n ==> (#[trigger] plan[i]).slot != s) ==> forall|b: int|
                    0 <= b < 8 ==> after(
                        buffers.lengths.device,
                        #[trigger] count_byte(buffers, s, b),
                    ) == memory(buffers.lengths.device, count_byte(buffers, s, b))
            }),
    {
        let plan = self.plans@[ticket];
        let n = plan.len() as int;
        let stride = self.stride as int;
        let tables = apply::applied_tables(self.tables(), plan, n);
        let writes = layout::metadata_uploads(buffers, stride, plan);
        let head = writes.take(writes.len() - n);
        let ready = upload(memory, encoding, head);
        let after = upload(memory, encoding, writes);
        let device = buffers.lengths.device;
        self.lemma_uploads(buffers, ticket);
        assert forall|l: int| 0 <= l < tables[s].len() implies #[trigger] entry_reads(
            after,
            encoding,
            buffers,
            stride,
            s,
            l,
            tables[s][l],
        ) && entry_reads(ready, encoding, buffers, stride, s, l, tables[s][l]) by {
            self.lemma_entry_uploaded(buffers, encoding, ticket, memory, writes, s, l);
            self.lemma_entry_uploaded(buffers, encoding, ticket, memory, head, s, l);
        }
        assert forall|k: int, b: int| 0 <= k < head.len() && 0 <= b < 8 implies !(
        #[trigger] device_memory::covers(
            head[k].destination,
            device,
            count_byte(buffers, s, b),
        )) by {
            self.lemma_entry_given(buffers, encoding, ticket, s, 0, 0, head[k]);
        }
        assert forall|b: int| 0 <= b < 8 implies ready(
            device,
            #[trigger] count_byte(buffers, s, b),
        ) == memory(device, count_byte(buffers, s, b)) by {
            assert forall|k: int| 0 <= k < head.len() implies !device_memory::covers(
                (#[trigger] head[k]).destination,
                device,
                count_byte(buffers, s, b),
            ) by {}
            lemma_not_given(memory, encoding, head, device, count_byte(buffers, s, b));
        }
        assert forall|i: int| 0 <= i < n && (#[trigger] plan[i]).slot == s implies {
            &&& count_reads(after, encoding, buffers, s, plan[i].end as u64)
            &&& plan[i].end <= tables[s].len() * 256
        } by {
            self.lemma_append_table(ticket, i);
            assert forall|b: int| 0 <= b < 8 implies after(
                device,
                #[trigger] count_byte(buffers, s, b),
            ) == (encoding.rows)(plan[i].end as u64)[b] by {
                let at = count_byte(buffers, s, b);
                let v = (encoding.rows)(plan[i].end as u64)[b];
                assert forall|k: int| 0 <= k < writes.len() implies gives(
                    #[trigger] writes[k],
                    encoding,
                    device,
                    at,
                    v,
                ) by {
                    if k < head.len() {
                        assert(writes[k] == head[k]);
                        assert(!device_memory::covers(head[k].destination, device, at));
                    } else {
                        let j = k - head.len();
                        assert(writes[k] == writes[head.len() + j]);
                        self.lemma_append_table(ticket, j);
                        if i != j {
                            self.lemma_slots_differ(ticket, i, j);
                        }
                    }
                }
                assert(device_memory::covers(
                    writes[head.len() + i].destination,
                    device,
                    at,
                ));
                lemma_given(memory, encoding, writes, device, at, v);
            }
        }
        if forall|i: int| 0 <= i < n ==> (#[trigger] plan[i]).slot != s {
            assert forall|b: int| 0 <= b < 8 implies after(
                device,
                #[trigger] count_byte(buffers, s, b),
            ) == memory(device, count_byte(buffers, s, b)) by {
                let at = count_byte(buffers, s, b);
                assert forall|k: int| 0 <= k < writes.len() implies !device_memory::covers(
                    (#[trigger] writes[k]).destination,
                    device,
                    at,
                ) by {
                    if k < head.len() {
                        assert(writes[k] == head[k]);
                        assert(!device_memory::covers(head[k].destination, device, at));
                    } else {
                        let j = k - head.len();
                        assert(writes[k] == writes[head.len() + j]);
                        self.lemma_append_table(ticket, j);
                        assert(plan[j].slot != s);
                    }
                }
                lemma_not_given(memory, encoding, writes, device, at);
            }
        }
    }

    proof fn lemma_slots_differ(&self, ticket: int, i: int, j: int)
        requires
            self.inv(),
            self.plans@.contains_key(ticket),
            0 <= i < self.plans@[ticket].len(),
            0 <= j < self.plans@[ticket].len(),
            i != j,
        ensures
            self.plans@[ticket][i].slot != self.plans@[ticket][j].slot,
    {
        let plan = self.plans@[ticket];
        assert(source_cache::plan_fits(
            self.tables(),
            self.rows@,
            self.pool.references@,
            self.slots as int,
            plan,
        ));
        if i < j {
            assert(plan[i].slot != plan[j].slot);
        } else {
            assert(plan[j].slot != plan[i].slot);
        }
    }
}

/// The staged values lie side by side, from the start of the staging memory to the bytes
/// that the transaction is counted by, and each is as long as its place on the device.
pub proof fn law_uploads_tile_the_staging(
    buffers: SourceBuffers,
    stride: int,
    plan: Seq<AppendView>,
    k: int,
)
    requires
        0 <= k < layout::metadata_uploads(buffers, stride, plan).len(),
        forall|i: int| 0 <= i < plan.len() ==> (#[trigger] plan[i]).additions.len() <= 4096,
    ensures
        ({
            let writes = layout::metadata_uploads(buffers, stride, plan);
            let write = writes[k];
            let end = write.offset + value_bytes(write.value);
            &&& k == 0 ==> write.offset == 0
            &&& end == if k + 1 < writes.len() {
                writes[k + 1].offset
            } else {
                layout::metadata_bytes(plan)
            }
            &&& write.destination.bytes == value_bytes(write.value)
        }),
{
    let n = plan.len() as int;
    let tails = 4 * layout::moved_tails(plan, n);
    let added = tails + 4 * layout::added_pages(plan, n);
    let total = added + 8 * n;
    let x = layout::tail_uploads(buffers, stride, plan, n);
    let y = layout::addition_uploads(buffers, stride, plan, n, tails);
    let z = layout::length_uploads(buffers, plan, added);
    lemma_tails_tile(buffers, stride, plan, n);
    lemma_additions_tile(buffers, stride, plan, n, tails);
    assert(tiles(z, added, total));
    lemma_tiles_join(x, y, 0, tails, added);
    lemma_tiles_join(x + y, z, 0, added, total);
    assert(layout::metadata_uploads(buffers, stride, plan) == x + y + z);
    assert(tile(x + y + z, k, total));
}

/// Upload `k` is as long as its place on the device and ends where the next one starts,
/// the last one at `end`.
spec fn tile(writes: Seq<WriteView>, k: int, end: int) -> bool {
    &&& writes[k].offset + value_bytes(writes[k].value) == if k + 1 < writes.len() {
        writes[k + 1].offset
    } else {
        end
    }
    &&& writes[k].destination.bytes == value_bytes(writes[k].value)
}

/// The uploads are staged side by side from `start` to `end`.
spec fn tiles(writes: Seq<WriteView>, start: int, end: int) -> bool {
    &&& if writes.len() == 0 {
        start == end
    } else {
        writes[0].offset == start
    }
    &&& forall|k: int| 0 <= k < writes.len() ==> #[trigger] tile(writes, k, end)
}

proof fn lemma_tiles_join(
    left: Seq<WriteView>,
    right: Seq<WriteView>,
    start: int,
    middle: int,
    end: int,
)
    requires
        tiles(left, start, middle),
        tiles(right, middle, end),
    ensures
        tiles(left + right, start, end),
{
    let all = left + right;
    assert forall|k: int| 0 <= k < all.len() implies #[trigger] tile(all, k, end) by {
        if k < left.len() {
            assert(tile(left, k, middle));
        } else {
            assert(tile(right, k - left.len(), end));
        }
    }
}

proof fn lemma_tails_tile(buffers: SourceBuffers, stride: int, plan: Seq<AppendView>, n: int)
    requires
        0 <= n <= plan.len(),
    ensures
        ({
            let writes = layout::tail_uploads(buffers, stride, plan, n);
            &&& writes.len() == layout::moved_tails(plan, n)
            &&& tiles(writes, 0, 4 * layout::moved_tails(plan, n))
        }),
    decreases n,
{
    if n > 0 {
        lemma_tails_tile(buffers, stride, plan, n - 1);
        let before = layout::tail_uploads(buffers, stride, plan, n - 1);
        let writes = layout::tail_uploads(buffers, stride, plan, n);
        if plan[n - 1].replacement is Some {
            let own = seq![writes[before.len() as int]];
            assert(writes =~= before + own);
            assert(tile(own, 0, 4 * layout::moved_tails(plan, n)));
            lemma_tiles_join(
                before,
                own,
                0,
                4 * layout::moved_tails(plan, n - 1),
                4 * layout::moved_tails(plan, n),
            );
        }
    }
}

proof fn lemma_additions_tile(
    buffers: SourceBuffers,
    stride: int,
    plan: Seq<AppendView>,
    n: int,
    base: int,
)
    requires
        0 <= n <= plan.len(),
        forall|i: int| 0 <= i < plan.len() ==> (#[trigger] plan[i]).additions.len() <= 4096,
    ensures
        tiles(
            layout::addition_uploads(buffers, stride, plan, n, base),
            base,
            base + 4 * layout::added_pages(plan, n),
        ),
    decreases n,
{
    if n > 0 {
        lemma_additions_tile(buffers, stride, plan, n - 1, base);
        let before = layout::addition_uploads(buffers, stride, plan, n - 1, base);
        let writes = layout::addition_uploads(buffers, stride, plan, n, base);
        assert(plan[n - 1].additions.len() <= 4096);
        if plan[n - 1].additions.len() > 0 {
            let own = seq![writes[before.len() as int]];
            assert(writes =~= before + own);
            assert(tile(own, 0, base + 4 * layout::added_pages(plan, n)));
            lemma_tiles_join(
                before,
                own,
                base,
                base + 4 * layout::added_pages(plan, n - 1),
                base + 4 * layout::added_pages(plan, n),
            );
        }
    }
}

impl SourceCache {
    /// Once the uploads of a restored prefix are done, the slot's page table reads the
    /// prefix's pages and its row count the prefix's rows; the staged values lie side
    /// by side.
    pub proof fn law_restored_uploads_install_the_prefix(
        &self,
        buffers: SourceBuffers,
        encoding: Encoding,
        memory: spec_fn(i32, int) -> u8,
        slot: int,
        pages: Seq<u32>,
        rows: u64,
    )
        requires
            self.inv(),
            buffers.serve(self),
            buffers.page_table.disjoint(buffers.lengths),
            0 <= slot < self.slots,
            pages.len() <= self.stride,
        ensures
            ({
                let stride = self.stride as int;
                let writes = layout::restored_uploads(buffers, stride, slot, pages, rows);
                let after = upload(memory, encoding, writes);
                let last = writes.len() - 1;
                &&& forall|l: int|
                    0 <= l < pages.len() ==> #[trigger] entry_reads(
                        after,
                        encoding,
                        buffers,
                        stride,
                        slot,
                        l,
                        pages[l],
                    )
                &&& count_reads(after, encoding, buffers, slot, rows)
                &&& writes[0].offset == 0
                &&& writes[last].offset + 8 == 4 * pages.len() + 8
                &&& writes[last].value is Rows
            }),
    {
        let stride = self.stride as int;
        let writes = layout::restored_uploads(buffers, stride, slot, pages, rows);
        let after = upload(memory, encoding, writes);
        let last = writes.len() - 1;
        layout::lemma_slot_extent(self.slots as int, stride, slot, 0, pages.len() as int);
        assert forall|l: int| 0 <= l < pages.len() implies #[trigger] entry_reads(
            after,
            encoding,
            buffers,
            stride,
            slot,
            l,
            pages[l],
        ) by {
            assert forall|b: int| 0 <= b < 4 implies after(
                buffers.page_table.device,
                #[trigger] entry_byte(buffers, stride, slot, l, b),
            ) == (encoding.page)(pages[l])[b] by {
                let at = entry_byte(buffers, stride, slot, l, b);
                let v = (encoding.page)(pages[l])[b];
                assert forall|k: int| 0 <= k < writes.len() implies gives(
                    #[trigger] writes[k],
                    encoding,
                    buffers.page_table.device,
                    at,
                    v,
                ) by {
                    assert(k == 0 || k == 1);
                    if k == 0 {
                        assert(at - writes[0].destination.address == 4 * l + b);
                    }
                }
                assert(device_memory::covers(
                    writes[0].destination,
                    buffers.page_table.device,
                    at,
                ));
                lemma_given(memory, encoding, writes, buffers.page_table.device, at, v);
            }
        }
        assert forall|b: int| 0 <= b < 8 implies after(
            buffers.lengths.device,
            #[trigger] count_byte(buffers, slot, b),
        ) == (encoding.rows)(rows)[b] by {
            let at = count_byte(buffers, slot, b);
            let v = (encoding.rows)(rows)[b];
            assert forall|k: int| 0 <= k < writes.len() implies gives(
                #[trigger] writes[k],
                encoding,
                buffers.lengths.device,
                at,
                v,
            ) by {
                assert(k == last || k == 0);
            }
            assert(device_memory::covers(
                writes[last].destination,
                buffers.lengths.device,
                at,
            ));
            lemma_given(memory, encoding, writes, buffers.lengths.device, at, v);
        }
    }

    /// A slot that is reset has no rows on the device, and no other row count changes.
    pub proof fn law_reset_empties_the_slot(
        &self,
        buffers: SourceBuffers,
        encoding: Encoding,
        memory: spec_fn(i32, int) -> u8,
        slot: int,
        other: int,
    )
        requires
            self.inv(),
            buffers.serve(self),
            0 <= slot < self.slots,
            0 <= other < self.slots,
        ensures
            ({
                let after = written(memory, encoding, layout::emptied_upload(buffers, slot));
                &&& count_reads(after, encoding, buffers, slot, 0)
                &&& slot != other ==> forall|b: int|
                    0 <= b < 8 ==> after(
                        buffers.lengths.device,
                        #[trigger] count_byte(buffers, other, b),
                    ) == memory(buffers.lengths.device, count_byte(buffers, other, b))
                &&& layout::emptied_upload(buffers, slot).offset == 0
            }),
    {
    }

    /// The views of a slot read, on the device, the page table and the row count that
    /// uploads write for it, and the rows of the cache's own buffers.
    pub proof fn law_views_read_what_is_uploaded(
        &self,
        buffers: SourceBuffers,
        slot: int,
        rows: usize,
        index: layout::IndexCacheView,
        values: layout::KvCacheView,
        l: int,
        b: int,
    )
        requires
            self.inv(),
            buffers.serve(self),
            0 <= slot < self.slots,
            self.index_view(buffers, slot, rows, index),
            self.value_view(buffers, slot, rows, values),
            0 <= l < self.stride,
        ensures
            index.packed == buffers.packed,
            index.scales == buffers.scales,
            values.values == buffers.kv_values,
            values.scales == buffers.kv_scales,
            index.rows == rows,
            values.rows == rows,
            index.pages@ == self.tables()[slot],
            values.pages@ == self.tables()[slot],
            index.device_pages == values.device_pages,
            index.device_rows == values.device_rows,
            index.device_pages.device == buffers.page_table.device,
            index.device_pages.address + 4 * l + b == entry_byte(
                buffers,
                self.stride as int,
                slot,
                l,
                b,
            ),
            index.device_pages.bytes == 4 * self.stride,
            index.device_rows.device == buffers.lengths.device,
            index.device_rows.address + b == count_byte(buffers, slot, b),
            index.device_rows.bytes == 8,
    {
        layout::lemma_slot_extent(
            self.slots as int,
            self.stride as int,
            slot,
            0,
            self.stride as int,
        );
        assert(self.tables()[slot] == self.pages@[slot]@);
    }
}

} // verus!
