//! What the copies to a peer device do to the bytes there.
use crate::device::{DeviceBuffer, DeviceCopy};
use crate::device_memory;
use crate::source_cache;
use crate::source_cache::apply;
use crate::source_cache::layout;
use crate::source_cache::layout::{KvCacheView, SourceBuffers};
use crate::source_cache::memory;
use crate::source_cache::replica;
use crate::source_cache::replica::{ReplicaBuffers, SourceReplica};
use crate::source_cache::{AppendView, SourceCache};
use vstd::prelude::*;

verus! {

/// Every buffer of a replica, with the authoritative buffer that it follows: values,
/// their scales, page numbers, row counts.
pub open spec fn mirrored(replica: ReplicaBuffers, source: SourceBuffers) -> Seq<
    (DeviceBuffer, DeviceBuffer),
> {
    seq![
        (replica.values, source.kv_values),
        (replica.scales, source.kv_scales),
        (replica.pages, source.page_table),
        (replica.lengths, source.lengths),
    ]
}

/// No buffer of the replica overlaps another or an authoritative one.
pub open spec fn peers_apart(replica: ReplicaBuffers, source: SourceBuffers) -> bool {
    &&& forall|j: int, k: int|
        0 <= j < 4 && 0 <= k < 4 ==> (#[trigger] mirrored(replica, source)[j]).0.disjoint(
            (#[trigger] mirrored(replica, source)[k]).1,
        )
    &&& forall|j: int, k: int|
        0 <= j < k < 4 ==> (#[trigger] mirrored(replica, source)[j]).0.disjoint(
            (#[trigger] mirrored(replica, source)[k]).0,
        )
}

/// Byte `b` of the two buffers of pair `p` is the same.
pub open spec fn in_step(
    memory: spec_fn(i32, int) -> u8,
    replica: ReplicaBuffers,
    source: SourceBuffers,
    p: int,
    b: int,
) -> bool {
    let (to, from) = mirrored(replica, source)[p];
    memory(to.device, to.address + b) == memory(from.device, from.address + b)
}

/// So are all bytes from `first` up to `end`.
pub open spec fn run_in_step(
    memory: spec_fn(i32, int) -> u8,
    replica: ReplicaBuffers,
    source: SourceBuffers,
    p: int,
    first: int,
    end: int,
) -> bool {
    forall|b: int| first <= b < end ==> #[trigger] in_step(memory, replica, source, p, b)
}

/// Physical row `x`, values and scales, is the same on both devices.
pub open spec fn row_in_step(
    memory: spec_fn(i32, int) -> u8,
    replica: ReplicaBuffers,
    source: SourceBuffers,
    x: int,
) -> bool {
    &&& run_in_step(memory, replica, source, 0, x * 256, x * 256 + 256)
    &&& run_in_step(memory, replica, source, 1, x * 32, x * 32 + 32)
}

/// Entry `l` of a slot's page table is the same on both devices.
pub open spec fn entry_in_step(
    memory: spec_fn(i32, int) -> u8,
    replica: ReplicaBuffers,
    source: SourceBuffers,
    stride: int,
    slot: int,
    l: int,
) -> bool {
    run_in_step(
        memory,
        replica,
        source,
        2,
        (slot * stride + l) * 4,
        (slot * stride + l) * 4 + 4,
    )
}

/// The slot's row count is the same on both devices.
pub open spec fn length_in_step(
    memory: spec_fn(i32, int) -> u8,
    replica: ReplicaBuffers,
    source: SourceBuffers,
    slot: int,
) -> bool {
    run_in_step(memory, replica, source, 3, slot * 8, slot * 8 + 8)
}

/// `copy` brings `bytes` bytes from `offset` on to the same place of the peer's buffer.
pub open spec fn follows(
    replica: ReplicaBuffers,
    source: SourceBuffers,
    copy: DeviceCopy,
    p: int,
    offset: int,
    bytes: int,
) -> bool {
    let (to, from) = mirrored(replica, source)[p];
    &&& 0 <= p < 4
    &&& 0 <= offset
    &&& 0 <= bytes
    &&& offset + bytes <= to.bytes
    &&& offset + bytes <= from.bytes
    &&& copy == (DeviceCopy {
        destination: to.slice_of(offset, bytes),
        source: from.slice_of(offset, bytes),
    })
}

/// The copy follows one of the first `top` pairs.
spec fn follows_some(replica: ReplicaBuffers, source: SourceBuffers, copy: DeviceCopy, top: int) -> bool {
    exists|p: int, offset: int, bytes: int|
        p < top && #[trigger] follows(replica, source, copy, p, offset, bytes)
}

spec fn all_follow(
    replica: ReplicaBuffers,
    source: SourceBuffers,
    copies: Seq<DeviceCopy>,
    top: int,
) -> bool {
    forall|x: int| 0 <= x < copies.len() ==> follows_some(replica, source, #[trigger] copies[x], top)
}

/// Some copy writes byte `b` of the replica's buffer in pair `p`.
spec fn reached(
    replica: ReplicaBuffers,
    source: SourceBuffers,
    copies: Seq<DeviceCopy>,
    p: int,
    b: int,
) -> bool {
    let to = mirrored(replica, source)[p].0;
    exists|x: int|
        0 <= x < copies.len() && device_memory::covers(
            (#[trigger] copies[x]).destination,
            to.device,
            to.address + b,
        )
}

spec fn peers_wf(replica: ReplicaBuffers, source: SourceBuffers) -> bool {
    forall|p: int|
        0 <= p < 4 ==> (#[trigger] mirrored(replica, source)[p]).0.wf() && mirrored(
            replica,
            source,
        )[p].1.wf() && mirrored(replica, source)[p].0.bytes == mirrored(replica, source)[p].1.bytes
}

/// Where a copy that follows its pair writes, and from where.
proof fn lemma_follow(
    replica: ReplicaBuffers,
    source: SourceBuffers,
    copy: DeviceCopy,
    p: int,
    b: int,
)
    requires
        peers_wf(replica, source),
        peers_apart(replica, source),
        follows_some(replica, source, copy, 4),
        0 <= p < 4,
        0 <= b < mirrored(replica, source)[p].0.bytes,
    ensures
        ({
            let (to, from) = mirrored(replica, source)[p];
            &&& device_memory::takes_from(
                copy,
                to.device,
                to.address + b,
                (from.device, from.address + b),
            )
            &&& !device_memory::covers(copy.destination, from.device, from.address + b)
        }),
{
    let (q, offset, bytes) = choose|q: int, offset: int, bytes: int| #[trigger]
        follows(replica, source, copy, q, offset, bytes);
    let (to, from) = mirrored(replica, source)[p];
    let (there, here) = mirrored(replica, source)[q];
    assert(there.wf() && here.wf());
    assert(to.wf() && from.wf());
    assert(mirrored(replica, source)[q].0.disjoint(mirrored(replica, source)[p].1));
    if p < q {
        assert(mirrored(replica, source)[p].0.disjoint(mirrored(replica, source)[q].0));
    } else if q < p {
        assert(mirrored(replica, source)[q].0.disjoint(mirrored(replica, source)[p].0));
    }
}

/// A byte that is reached, or was in step, is in step afterwards.
proof fn lemma_stays_in_step(
    memory: spec_fn(i32, int) -> u8,
    replica: ReplicaBuffers,
    source: SourceBuffers,
    copies: Seq<DeviceCopy>,
    p: int,
    b: int,
)
    requires
        peers_wf(replica, source),
        peers_apart(replica, source),
        all_follow(replica, source, copies, 4),
        0 <= p < 4,
        0 <= b < mirrored(replica, source)[p].0.bytes,
        reached(replica, source, copies, p, b) || in_step(memory, replica, source, p, b),
    ensures
        in_step(device_memory::run(memory, copies), replica, source, p, b),
{
    let (to, from) = mirrored(replica, source)[p];
    assert forall|x: int| 0 <= x < copies.len() implies !device_memory::covers(
        (#[trigger] copies[x]).destination,
        from.device,
        from.address + b,
    ) by {
        lemma_follow(replica, source, copies[x], p, b);
    }
    device_memory::lemma_spared(memory, copies, from.device, from.address + b);
    if reached(replica, source, copies, p, b) {
        let k = choose|k: int|
            0 <= k < copies.len() && device_memory::covers(
                (#[trigger] copies[k]).destination,
                to.device,
                to.address + b,
            );
        assert forall|x: int| 0 <= x < copies.len() implies device_memory::takes_from(
            #[trigger] copies[x],
            to.device,
            to.address + b,
            (from.device, from.address + b),
        ) by {
            lemma_follow(replica, source, copies[x], p, b);
        }
        device_memory::lemma_copied(
            memory,
            copies,
            k,
            to.device,
            to.address + b,
            (from.device, from.address + b),
        );
    } else {
        device_memory::lemma_spared(memory, copies, to.device, to.address + b);
    }
}

/// The copies reach the bytes from `first` up to `end` of the replica's buffer in pair
/// `p`.
spec fn run_reached(
    replica: ReplicaBuffers,
    source: SourceBuffers,
    copies: Seq<DeviceCopy>,
    p: int,
    first: int,
    end: int,
) -> bool {
    forall|b: int| first <= b < end ==> #[trigger] reached(replica, source, copies, p, b)
}

proof fn lemma_reaches(
    replica: ReplicaBuffers,
    source: SourceBuffers,
    copies: Seq<DeviceCopy>,
    x: int,
    p: int,
    offset: int,
    bytes: int,
)
    requires
        peers_wf(replica, source),
        0 <= x < copies.len(),
        follows(replica, source, copies[x], p, offset, bytes),
    ensures
        run_reached(replica, source, copies, p, offset, offset + bytes),
{
    let (to, from) = mirrored(replica, source)[p];
    assert(to.wf());
    assert forall|b: int| offset <= b < offset + bytes implies #[trigger] reached(
        replica,
        source,
        copies,
        p,
        b,
    ) by {
        assert(device_memory::covers(copies[x].destination, to.device, to.address + b));
    }
}

/// Copies in front of others or behind them reach what they reach.
proof fn lemma_reaches_more(
    replica: ReplicaBuffers,
    source: SourceBuffers,
    left: Seq<DeviceCopy>,
    copies: Seq<DeviceCopy>,
    right: Seq<DeviceCopy>,
    p: int,
    first: int,
    end: int,
)
    requires
        run_reached(replica, source, copies, p, first, end),
    ensures
        run_reached(replica, source, left + copies + right, p, first, end),
{
    let to = mirrored(replica, source)[p].0;
    let all = left + copies + right;
    assert forall|b: int| first <= b < end implies #[trigger] reached(
        replica,
        source,
        all,
        p,
        b,
    ) by {
        assert(reached(replica, source, copies, p, b));
        let x = choose|x: int|
            0 <= x < copies.len() && device_memory::covers(
                (#[trigger] copies[x]).destination,
                to.device,
                to.address + b,
            );
        assert(all[left.len() + x] == copies[x]);
    }
}

proof fn lemma_follow_both(
    replica: ReplicaBuffers,
    source: SourceBuffers,
    left: Seq<DeviceCopy>,
    right: Seq<DeviceCopy>,
)
    requires
        all_follow(replica, source, left, 3),
        all_follow(replica, source, right, 3),
    ensures
        all_follow(replica, source, left + right, 3),
{
    let all = left + right;
    assert forall|x: int| 0 <= x < all.len() implies follows_some(
        replica,
        source,
        #[trigger] all[x],
        3,
    ) by {
        if x < left.len() {
            assert(all[x] == left[x]);
        } else {
            assert(all[x] == right[x - left.len()]);
        }
    }
}

impl SourceCache {
    spec fn peers(&self, replica: ReplicaBuffers, buffers: SourceBuffers) -> bool {
        &&& self.inv()
        &&& buffers.serve(self)
        &&& replica.serve(self)
    }

    proof fn lemma_peers(&self, replica: ReplicaBuffers, buffers: SourceBuffers)
        requires
            self.peers(replica, buffers),
        ensures
            peers_wf(replica, buffers),
            replica.values.bytes == self.capacity * 256,
            replica.scales.bytes == self.capacity * 32,
    {
    }

    /// The copies of `count` physical rows reach those rows, values and scales.
    proof fn lemma_row_copies(
        &self,
        replica: ReplicaBuffers,
        buffers: SourceBuffers,
        row: int,
        count: int,
    )
        requires
            self.peers(replica, buffers),
            0 <= row,
            0 <= count,
            row + count <= self.capacity,
        ensures
            all_follow(replica, buffers, replica::row_copies(replica, buffers, row, count), 3),
            run_reached(
                replica,
                buffers,
                replica::row_copies(replica, buffers, row, count),
                0,
                row * 256,
                (row + count) * 256,
            ),
            run_reached(
                replica,
                buffers,
                replica::row_copies(replica, buffers, row, count),
                1,
                row * 32,
                (row + count) * 32,
            ),
    {
        let copies = replica::row_copies(replica, buffers, row, count);
        self.lemma_peers(replica, buffers);
        assert(follows(replica, buffers, copies[0], 0, row * 256, count * 256));
        assert(follows(replica, buffers, copies[1], 1, row * 32, count * 32));
        lemma_reaches(replica, buffers, copies, 0, 0, row * 256, count * 256);
        lemma_reaches(replica, buffers, copies, 1, 1, row * 32, count * 32);
    }
}

/// The copies reach physical row `x`, values and scales.
spec fn row_reached(
    replica: ReplicaBuffers,
    source: SourceBuffers,
    copies: Seq<DeviceCopy>,
    x: int,
) -> bool {
    &&& run_reached(replica, source, copies, 0, x * 256, x * 256 + 256)
    &&& run_reached(replica, source, copies, 1, x * 32, x * 32 + 32)
}

proof fn lemma_row_reached_more(
    replica: ReplicaBuffers,
    source: SourceBuffers,
    left: Seq<DeviceCopy>,
    copies: Seq<DeviceCopy>,
    right: Seq<DeviceCopy>,
    x: int,
)
    requires
        row_reached(replica, source, copies, x),
    ensures
        row_reached(replica, source, left + copies + right, x),
{
    lemma_reaches_more(replica, source, left, copies, right, 0, x * 256, x * 256 + 256);
    lemma_reaches_more(replica, source, left, copies, right, 1, x * 32, x * 32 + 32);
}

impl SourceCache {
    proof fn lemma_run_copies(
        &self,
        replica: ReplicaBuffers,
        buffers: SourceBuffers,
        table: Seq<u32>,
        row: int,
        end: int,
    )
        requires
            self.peers(replica, buffers),
            self.pool.in_range(table),
            0 <= row,
            end <= table.len() * 256,
        ensures
            all_follow(replica, buffers, replica::run_copies(replica, buffers, table, row, end), 3),
            forall|r: int|
                row <= r < end ==> row_reached(
                    replica,
                    buffers,
                    replica::run_copies(replica, buffers, table, row, end),
                    #[trigger] memory::physical_row(table, r),
                ),
        decreases end - row,
    {
        if row < end {
            let count = replica::chunk(row, end);
            let first = memory::physical_row(table, row);
            let head = replica::row_copies(replica, buffers, first, count);
            let rest = replica::run_copies(replica, buffers, table, row + count, end);
            let all = replica::run_copies(replica, buffers, table, row, end);
            assert(table[row / 256] < self.pool.references@.len());
            self.lemma_row_copies(replica, buffers, first, count);
            self.lemma_run_copies(replica, buffers, table, row + count, end);
            lemma_follow_both(replica, buffers, head, rest);
            assert(all == head + rest);
            assert(Seq::<DeviceCopy>::empty() + head + rest =~= all);
            assert(head + rest + Seq::<DeviceCopy>::empty() =~= all);
            assert forall|r: int| row <= r < end implies row_reached(
                replica,
                buffers,
                all,
                #[trigger] memory::physical_row(table, r),
            ) by {
                let x = memory::physical_row(table, r);
                if r < row + count {
                    assert(r / 256 == row / 256);
                    assert(x == first + (r - row));
                    assert(row_reached(replica, buffers, head, x));
                    lemma_row_reached_more(replica, buffers, Seq::empty(), head, rest, x);
                } else {
                    lemma_row_reached_more(replica, buffers, head, rest, Seq::empty(), x);
                }
            }
        }
    }

    spec fn planned_peers(
        &self,
        replica: ReplicaBuffers,
        buffers: SourceBuffers,
        ticket: int,
    ) -> bool {
        self.peers(replica, buffers) && self.plans@.contains_key(ticket)
    }

    /// The table of an appended slot, and what is in it.
    pub proof fn lemma_append_table(&self, ticket: int, i: int)
        requires
            self.inv(),
            self.plans@.contains_key(ticket),
            0 <= i < self.plans@[ticket].len(),
        ensures
            ({
                let plan = self.plans@[ticket];
                let a = plan[i];
                let old = self.tables()[a.slot];
                let table = apply::applied_tables(self.tables(), plan, plan.len() as int)[a.slot];
                &&& 0 <= a.slot < self.slots
                &&& 0 <= a.start <= a.end
                &&& old.len() == source_cache::page_count(a.start)
                &&& a.additions.len() == source_cache::page_count(a.end)
                    - source_cache::page_count(a.start)
                &&& table.len() == source_cache::page_count(a.end)
                &&& table.len() <= self.stride <= 4096
                &&& self.pool.in_range(table)
                &&& self.pool.in_range(old)
                &&& forall|l: int|
                    0 <= l < old.len() && !(a.replacement is Some && l == a.tail())
                        ==> #[trigger] table[l] == old[l]
                &&& a.replacement matches Some(pair) ==> 0 <= a.tail() < old.len()
                    && table[a.tail()] == pair.1 && pair.1 < self.pool.references@.len()
            }),
    {
        let plan = self.plans@[ticket];
        let a = plan[i];
        assert(source_cache::plan_fits(
            self.tables(),
            self.rows@,
            self.pool.references@,
            self.slots as int,
            plan,
        ));
        apply::lemma_applied(self.tables(), self.rows@, plan, plan.len() as int);
        self.lemma_new_table(ticket, i);
        assert(self.tables()[a.slot] == self.pages@[a.slot]@);
        assert(self.pool.in_range(self.pages@[a.slot]@));
        let table = apply::new_table(self.tables()[a.slot], a);
        crate::tally::lemma_distinct_bound(table, self.pool.references@.len());
        if let Some(pair) = a.replacement {
            assert(a.tail() < self.tables()[a.slot].len());
            assert(table[a.tail()] == pair.1);
        }
    }

    proof fn lemma_tail_page_copies(
        &self,
        replica: ReplicaBuffers,
        buffers: SourceBuffers,
        ticket: int,
        n: int,
    )
        requires
            self.planned_peers(replica, buffers, ticket),
            0 <= n <= self.plans@[ticket].len(),
        ensures
            ({
                let plan = self.plans@[ticket];
                let copies = replica::tail_page_copies(replica, buffers, plan, n);
                &&& all_follow(replica, buffers, copies, 3)
                &&& forall|i: int, r: int|
                    0 <= i < n && 0 <= r < 256 && plan[i].replacement is Some
                        ==> #[trigger] tail_row_reached(replica, buffers, copies, plan, i, r)
            }),
        decreases n,
    {
        if n > 0 {
            self.lemma_tail_page_copies(replica, buffers, ticket, n - 1);
            let plan = self.plans@[ticket];
            let before = replica::tail_page_copies(replica, buffers, plan, n - 1);
            let all = replica::tail_page_copies(replica, buffers, plan, n);
            self.lemma_append_table(ticket, n - 1);
            let none = Seq::<DeviceCopy>::empty();
            match plan[n - 1].replacement {
                Some(pair) => {
                    let own = replica::row_copies(replica, buffers, pair.1 * 256, 256);
                    self.lemma_row_copies(replica, buffers, pair.1 * 256, 256);
                    lemma_follow_both(replica, buffers, before, own);
                    assert(none + before + own =~= all);
                    assert(before + own + none =~= all);
                    assert forall|i: int, r: int|
                        0 <= i < n && 0 <= r < 256
                            && plan[i].replacement is Some implies #[trigger] tail_row_reached(
                        replica,
                        buffers,
                        all,
                        plan,
                        i,
                        r,
                    ) by {
                        let x = plan[i].replacement->Some_0.1 * 256 + r;
                        if i < n - 1 {
                            assert(tail_row_reached(replica, buffers, before, plan, i, r));
                            lemma_row_reached_more(replica, buffers, none, before, own, x);
                        } else {
                            assert(row_reached(replica, buffers, own, x));
                            lemma_row_reached_more(replica, buffers, before, own, none, x);
                        }
                    }
                },
                None => {
                    assert forall|i: int, r: int|
                        0 <= i < n && 0 <= r < 256
                            && plan[i].replacement is Some implies #[trigger] tail_row_reached(
                        replica,
                        buffers,
                        all,
                        plan,
                        i,
                        r,
                    ) by {
                        assert(tail_row_reached(replica, buffers, before, plan, i, r));
                    }
                },
            }
        }
    }

    proof fn lemma_append_copies(
        &self,
        replica: ReplicaBuffers,
        buffers: SourceBuffers,
        ticket: int,
        n: int,
    )
        requires
            self.planned_peers(replica, buffers, ticket),
            0 <= n <= self.plans@[ticket].len(),
        ensures
            ({
                let plan = self.plans@[ticket];
                let after = apply::applied_tables(self.tables(), plan, plan.len() as int);
                let copies = replica::append_copies(replica, buffers, after, plan, n);
                &&& all_follow(replica, buffers, copies, 3)
                &&& forall|i: int, r: int|
                    0 <= i < n && plan[i].start <= r < plan[i].end
                        ==> #[trigger] new_row_reached(replica, buffers, copies, after, plan, i, r)
            }),
        decreases n,
    {
        if n > 0 {
            self.lemma_append_copies(replica, buffers, ticket, n - 1);
            let plan = self.plans@[ticket];
            let after = apply::applied_tables(self.tables(), plan, plan.len() as int);
            let before = replica::append_copies(replica, buffers, after, plan, n - 1);
            let all = replica::append_copies(replica, buffers, after, plan, n);
            let a = plan[n - 1];
            let table = after[a.slot];
            let none = Seq::<DeviceCopy>::empty();
            let own = replica::run_copies(replica, buffers, table, a.start, a.end);
            self.lemma_append_table(ticket, n - 1);
            self.lemma_run_copies(replica, buffers, table, a.start, a.end);
            lemma_follow_both(replica, buffers, before, own);
            assert(none + before + own =~= all);
            assert(before + own + none =~= all);
            assert forall|i: int, r: int|
                0 <= i < n && plan[i].start <= r < plan[i].end implies #[trigger] new_row_reached(
                replica,
                buffers,
                all,
                after,
                plan,
                i,
                r,
            ) by {
                let x = memory::physical_row(after[plan[i].slot], r);
                if i < n - 1 {
                    assert(new_row_reached(replica, buffers, before, after, plan, i, r));
                    lemma_row_reached_more(replica, buffers, none, before, own, x);
                } else {
                    assert(row_reached(replica, buffers, own, x));
                    lemma_row_reached_more(replica, buffers, before, own, none, x);
                }
            }
        }
    }
}

spec fn tail_row_reached(
    replica: ReplicaBuffers,
    source: SourceBuffers,
    copies: Seq<DeviceCopy>,
    plan: Seq<AppendView>,
    i: int,
    r: int,
) -> bool {
    row_reached(replica, source, copies, plan[i].replacement->Some_0.1 * 256 + r)
}

spec fn new_row_reached(
    replica: ReplicaBuffers,
    source: SourceBuffers,
    copies: Seq<DeviceCopy>,
    after: Seq<Seq<u32>>,
    plan: Seq<AppendView>,
    i: int,
    r: int,
) -> bool {
    row_reached(replica, source, copies, memory::physical_row(after[plan[i].slot], r))
}

/// The copies reach entry `l` of the page table of append `i`'s slot.
spec fn entry_reached(
    replica: ReplicaBuffers,
    source: SourceBuffers,
    copies: Seq<DeviceCopy>,
    stride: int,
    plan: Seq<AppendView>,
    i: int,
    l: int,
) -> bool {
    let at = (plan[i].slot * stride + l) * 4;
    run_reached(replica, source, copies, 2, at, at + 4)
}

/// The copies reach the row count of append `i`'s slot.
spec fn length_reached(
    replica: ReplicaBuffers,
    source: SourceBuffers,
    copies: Seq<DeviceCopy>,
    plan: Seq<AppendView>,
    i: int,
) -> bool {
    run_reached(replica, source, copies, 3, plan[i].slot * 8, plan[i].slot * 8 + 8)
}

proof fn lemma_entry_reached_more(
    replica: ReplicaBuffers,
    source: SourceBuffers,
    left: Seq<DeviceCopy>,
    copies: Seq<DeviceCopy>,
    right: Seq<DeviceCopy>,
    stride: int,
    plan: Seq<AppendView>,
    i: int,
    l: int,
)
    requires
        entry_reached(replica, source, copies, stride, plan, i, l),
    ensures
        entry_reached(replica, source, left + copies + right, stride, plan, i, l),
{
    let at = (plan[i].slot * stride + l) * 4;
    lemma_reaches_more(replica, source, left, copies, right, 2, at, at + 4);
}

impl SourceCache {
    proof fn lemma_tail_entry_copies(
        &self,
        replica: ReplicaBuffers,
        buffers: SourceBuffers,
        ticket: int,
        n: int,
    )
        requires
            self.planned_peers(replica, buffers, ticket),
            0 <= n <= self.plans@[ticket].len(),
        ensures
            ({
                let plan = self.plans@[ticket];
                let stride = self.stride as int;
                let copies = replica::tail_entry_copies(replica, buffers, stride, plan, n);
                &&& all_follow(replica, buffers, copies, 3)
                &&& forall|i: int|
                    0 <= i < n && plan[i].replacement is Some ==> #[trigger] entry_reached(
                        replica,
                        buffers,
                        copies,
                        stride,
                        plan,
                        i,
                        plan[i].tail(),
                    )
            }),
        decreases n,
    {
        if n > 0 {
            self.lemma_tail_entry_copies(replica, buffers, ticket, n - 1);
            let plan = self.plans@[ticket];
            let stride = self.stride as int;
            let before = replica::tail_entry_copies(replica, buffers, stride, plan, n - 1);
            let all = replica::tail_entry_copies(replica, buffers, stride, plan, n);
            let a = plan[n - 1];
            self.lemma_peers(replica, buffers);
            self.lemma_append_table(ticket, n - 1);
            let none = Seq::<DeviceCopy>::empty();
            if a.replacement is Some {
                layout::lemma_slot_extent(self.slots as int, stride, a.slot, a.tail(), 1);
                let own = seq![all[before.len() as int]];
                assert(follows(
                    replica,
                    buffers,
                    own[0],
                    2,
                    (a.slot * stride + a.tail()) * 4,
                    4,
                ));
                lemma_reaches(
                    replica,
                    buffers,
                    own,
                    0,
                    2,
                    (a.slot * stride + a.tail()) * 4,
                    4,
                );
                lemma_follow_both(replica, buffers, before, own);
                assert(before + own =~= all);
                assert(none + before + own =~= all);
                assert(before + own + none =~= all);
                assert forall|i: int|
                    0 <= i < n && plan[i].replacement is Some implies #[trigger] entry_reached(
                    replica,
                    buffers,
                    all,
                    stride,
                    plan,
                    i,
                    plan[i].tail(),
                ) by {
                    let l = plan[i].tail();
                    if i < n - 1 {
                        assert(entry_reached(replica, buffers, before, stride, plan, i, l));
                        lemma_entry_reached_more(
                            replica,
                            buffers,
                            none,
                            before,
                            own,
                            stride,
                            plan,
                            i,
                            l,
                        );
                    } else {
                        assert(entry_reached(replica, buffers, own, stride, plan, i, l));
                        lemma_entry_reached_more(
                            replica,
                            buffers,
                            before,
                            own,
                            none,
                            stride,
                            plan,
                            i,
                            l,
                        );
                    }
                }
            }
        }
    }

    proof fn lemma_addition_entry_copies(
        &self,
        replica: ReplicaBuffers,
        buffers: SourceBuffers,
        ticket: int,
        n: int,
    )
        requires
            self.planned_peers(replica, buffers, ticket),
            0 <= n <= self.plans@[ticket].len(),
        ensures
            ({
                let plan = self.plans@[ticket];
                let stride = self.stride as int;
                let copies = replica::addition_entry_copies(replica, buffers, stride, plan, n);
                &&& all_follow(replica, buffers, copies, 3)
                &&& forall|i: int, l: int|
                    0 <= i < n && source_cache::page_count(plan[i].start) <= l
                        < source_cache::page_count(plan[i].end) ==> #[trigger] entry_reached(
                        replica,
                        buffers,
                        copies,
                        stride,
                        plan,
                        i,
                        l,
                    )
            }),
        decreases n,
    {
        if n > 0 {
            self.lemma_addition_entry_copies(replica, buffers, ticket, n - 1);
            let plan = self.plans@[ticket];
            let stride = self.stride as int;
            let before = replica::addition_entry_copies(replica, buffers, stride, plan, n - 1);
            let all = replica::addition_entry_copies(replica, buffers, stride, plan, n);
            let a = plan[n - 1];
            let first = source_cache::page_count(a.start);
            let count = a.additions.len() as int;
            self.lemma_peers(replica, buffers);
            self.lemma_append_table(ticket, n - 1);
            let none = Seq::<DeviceCopy>::empty();
            let own = if count > 0 {
                seq![all[before.len() as int]]
            } else {
                none
            };
            let at = (a.slot * stride + first) * 4;
            if count > 0 {
                layout::lemma_slot_extent(self.slots as int, stride, a.slot, first, count);
                assert(follows(replica, buffers, own[0], 2, at, count * 4));
                lemma_reaches(replica, buffers, own, 0, 2, at, count * 4);
            }
            lemma_follow_both(replica, buffers, before, own);
            assert(before + own =~= all);
            assert(none + before + own =~= all);
            assert(before + own + none =~= all);
            assert forall|i: int, l: int|
                0 <= i < n && source_cache::page_count(plan[i].start) <= l
                    < source_cache::page_count(plan[i].end) implies #[trigger] entry_reached(
                replica,
                buffers,
                all,
                stride,
                plan,
                i,
                l,
            ) by {
                if i < n - 1 {
                    assert(entry_reached(replica, buffers, before, stride, plan, i, l));
                    lemma_entry_reached_more(
                        replica,
                        buffers,
                        none,
                        before,
                        own,
                        stride,
                        plan,
                        i,
                        l,
                    );
                } else {
                    assert(entry_reached(replica, buffers, own, stride, plan, i, l));
                    lemma_entry_reached_more(
                        replica,
                        buffers,
                        before,
                        own,
                        none,
                        stride,
                        plan,
                        i,
                        l,
                    );
                }
            }
        }
    }

    proof fn lemma_length_copies(
        &self,
        replica: ReplicaBuffers,
        buffers: SourceBuffers,
        ticket: int,
    )
        requires
            self.planned_peers(replica, buffers, ticket),
        ensures
            ({
                let plan = self.plans@[ticket];
                let copies = replica::length_copies(replica, buffers, plan);
                &&& all_follow(replica, buffers, copies, 4)
                &&& forall|i: int|
                    0 <= i < plan.len() ==> #[trigger] length_reached(
                        replica,
                        buffers,
                        copies,
                        plan,
                        i,
                    )
            }),
    {
        let plan = self.plans@[ticket];
        let copies = replica::length_copies(replica, buffers, plan);
        self.lemma_peers(replica, buffers);
        assert forall|i: int| 0 <= i < plan.len() implies follows(
            replica,
            buffers,
            #[trigger] copies[i],
            3,
            plan[i].slot * 8,
            8,
        ) by {
            self.lemma_append_table(ticket, i);
        }
        assert forall|i: int| 0 <= i < copies.len() implies follows_some(
            replica,
            buffers,
            #[trigger] copies[i],
            4,
        ) by {
            assert(follows(replica, buffers, copies[i], 3, plan[i].slot * 8, 8));
        }
        assert forall|i: int| 0 <= i < plan.len() implies #[trigger] length_reached(
            replica,
            buffers,
            copies,
            plan,
            i,
        ) by {
            assert(follows(replica, buffers, copies[i], 3, plan[i].slot * 8, 8));
            lemma_reaches(replica, buffers, copies, i, 3, plan[i].slot * 8, 8);
        }
    }

    /// All copies of an append follow their pairs; the rows and entries that it needs
    /// are reached before the row counts.
    proof fn lemma_publication(
        &self,
        replica: ReplicaBuffers,
        buffers: SourceBuffers,
        ticket: int,
    )
        requires
            self.planned_peers(replica, buffers, ticket),
        ensures
            ({
                let plan = self.plans@[ticket];
                let stride = self.stride as int;
                let after = apply::applied_tables(self.tables(), plan, plan.len() as int);
                let all = replica::publication(replica, buffers, stride, after, plan);
                let head = all.take(all.len() - plan.len());
                &&& all == head + replica::length_copies(replica, buffers, plan)
                &&& all_follow(replica, buffers, head, 3)
                &&& forall|i: int, r: int|
                    0 <= i < plan.len() && 0 <= r < 256 && plan[i].replacement is Some
                        ==> #[trigger] tail_row_reached(replica, buffers, head, plan, i, r)
                &&& forall|i: int, r: int|
                    0 <= i < plan.len() && plan[i].start <= r < plan[i].end
                        ==> #[trigger] new_row_reached(replica, buffers, head, after, plan, i, r)
                &&& forall|i: int|
                    0 <= i < plan.len() && plan[i].replacement is Some ==> #[trigger] entry_reached(
                        replica,
                        buffers,
                        head,
                        stride,
                        plan,
                        i,
                        plan[i].tail(),
                    )
                &&& forall|i: int, l: int|
                    0 <= i < plan.len() && source_cache::page_count(plan[i].start) <= l
                        < source_cache::page_count(plan[i].end) ==> #[trigger] entry_reached(
                        replica,
                        buffers,
                        head,
                        stride,
                        plan,
                        i,
                        l,
                    )
            }),
    {
        let plan = self.plans@[ticket];
        let n = plan.len() as int;
        let stride = self.stride as int;
        let after = apply::applied_tables(self.tables(), plan, n);
        let all = replica::publication(replica, buffers, stride, after, plan);
        let a = replica::tail_page_copies(replica, buffers, plan, n);
        let b = replica::append_copies(replica, buffers, after, plan, n);
        let c = replica::tail_entry_copies(replica, buffers, stride, plan, n);
        let d = replica::addition_entry_copies(replica, buffers, stride, plan, n);
        let e = replica::length_copies(replica, buffers, plan);
        let none = Seq::<DeviceCopy>::empty();
        let head = all.take(all.len() - plan.len());
        assert(head =~= a + b + c + d);
        assert(all =~= head + e);
        self.lemma_tail_page_copies(replica, buffers, ticket, n);
        self.lemma_append_copies(replica, buffers, ticket, n);
        self.lemma_tail_entry_copies(replica, buffers, ticket, n);
        self.lemma_addition_entry_copies(replica, buffers, ticket, n);
        lemma_follow_both(replica, buffers, a, b);
        lemma_follow_both(replica, buffers, a + b, c);
        lemma_follow_both(replica, buffers, a + b + c, d);
        assert(none + a + (b + c + d) =~= head);
        assert(a + b + (c + d) =~= head);
        assert((a + b) + c + d =~= head);
        assert((a + b + c) + d + none =~= head);
        assert forall|i: int, r: int|
            0 <= i < n && 0 <= r < 256
                && plan[i].replacement is Some implies #[trigger] tail_row_reached(
            replica,
            buffers,
            head,
            plan,
            i,
            r,
        ) by {
            assert(tail_row_reached(replica, buffers, a, plan, i, r));
            lemma_row_reached_more(
                replica,
                buffers,
                none,
                a,
                b + c + d,
                plan[i].replacement->Some_0.1 * 256 + r,
            );
        }
        assert forall|i: int, r: int|
            0 <= i < n && plan[i].start <= r < plan[i].end implies #[trigger] new_row_reached(
            replica,
            buffers,
            head,
            after,
            plan,
            i,
            r,
        ) by {
            assert(new_row_reached(replica, buffers, b, after, plan, i, r));
            lemma_row_reached_more(
                replica,
                buffers,
                a,
                b,
                c + d,
                memory::physical_row(after[plan[i].slot], r),
            );
        }
        assert forall|i: int|
            0 <= i < n && plan[i].replacement is Some implies #[trigger] entry_reached(
            replica,
            buffers,
            head,
            stride,
            plan,
            i,
            plan[i].tail(),
        ) by {
            let l = plan[i].tail();
            assert(entry_reached(replica, buffers, c, stride, plan, i, l));
            lemma_entry_reached_more(replica, buffers, a + b, c, d, stride, plan, i, l);
        }
        assert forall|i: int, l: int|
            0 <= i < n && source_cache::page_count(plan[i].start) <= l < source_cache::page_count(
                plan[i].end,
            ) implies #[trigger] entry_reached(replica, buffers, head, stride, plan, i, l) by {
            assert(entry_reached(replica, buffers, d, stride, plan, i, l));
            lemma_entry_reached_more(replica, buffers, a + b + c, d, none, stride, plan, i, l);
        }
    }
}

/// A run that is reached, or was in step, is in step afterwards.
proof fn lemma_run_stays(
    memory: spec_fn(i32, int) -> u8,
    replica: ReplicaBuffers,
    source: SourceBuffers,
    copies: Seq<DeviceCopy>,
    p: int,
    first: int,
    end: int,
)
    requires
        peers_wf(replica, source),
        peers_apart(replica, source),
        all_follow(replica, source, copies, 4),
        0 <= p < 4,
        0 <= first,
        end <= mirrored(replica, source)[p].0.bytes,
        run_reached(replica, source, copies, p, first, end) || run_in_step(
            memory,
            replica,
            source,
            p,
            first,
            end,
        ),
    ensures
        run_in_step(device_memory::run(memory, copies), replica, source, p, first, end),
{
    assert forall|b: int| first <= b < end implies #[trigger] in_step(
        device_memory::run(memory, copies),
        replica,
        source,
        p,
        b,
    ) by {
        if run_reached(replica, source, copies, p, first, end) {
            assert(reached(replica, source, copies, p, b));
        } else {
            assert(in_step(memory, replica, source, p, b));
        }
        lemma_stays_in_step(memory, replica, source, copies, p, b);
    }
}

proof fn lemma_follow_any(
    replica: ReplicaBuffers,
    source: SourceBuffers,
    copies: Seq<DeviceCopy>,
)
    requires
        all_follow(replica, source, copies, 3),
    ensures
        all_follow(replica, source, copies, 4),
{
    assert forall|x: int| 0 <= x < copies.len() implies follows_some(
        replica,
        source,
        #[trigger] copies[x],
        4,
    ) by {
        assert(follows_some(replica, source, copies[x], 3));
    }
}

/// Copies that follow the first three pairs leave the row counts alone.
proof fn lemma_counts_wait(
    memory: spec_fn(i32, int) -> u8,
    replica: ReplicaBuffers,
    source: SourceBuffers,
    copies: Seq<DeviceCopy>,
    b: int,
)
    requires
        peers_wf(replica, source),
        peers_apart(replica, source),
        all_follow(replica, source, copies, 3),
        0 <= b < replica.lengths.bytes,
    ensures
        device_memory::run(memory, copies)(replica.lengths.device, replica.lengths.address + b)
            == memory(replica.lengths.device, replica.lengths.address + b),
{
    let to = mirrored(replica, source)[3].0;
    assert forall|x: int| 0 <= x < copies.len() implies !device_memory::covers(
        (#[trigger] copies[x]).destination,
        to.device,
        to.address + b,
    ) by {
        assert(follows_some(replica, source, copies[x], 3));
        let (q, offset, bytes) = choose|q: int, offset: int, bytes: int|
            q < 3 && #[trigger] follows(replica, source, copies[x], q, offset, bytes);
        assert(mirrored(replica, source)[q].0.disjoint(mirrored(replica, source)[3].0));
        assert(mirrored(replica, source)[q].0.wf());
    }
    device_memory::lemma_spared(memory, copies, to.device, to.address + b);
}

impl SourceCache {
    /// Once its copies have run, everything that an append's slot can read is the same
    /// on the peer: every row up to the new end, looked up through the new page table,
    /// every entry of that table, and the row count. Before the append only what the
    /// slot could read then has to be the same.
    ///
    /// The rows and the entries are there before any row count changes, so a count on
    /// the peer never covers a row that is not there.
    pub proof fn law_append_reaches_the_peer(
        &self,
        replica: ReplicaBuffers,
        buffers: SourceBuffers,
        ticket: int,
        memory: spec_fn(i32, int) -> u8,
        i: int,
    )
        requires
            self.inv(),
            self.plans@.contains_key(ticket),
            buffers.serve(self),
            replica.serve(self),
            peers_apart(replica, buffers),
            0 <= i < self.plans@[ticket].len(),
            ({
                let a = self.plans@[ticket][i];
                &&& forall|row: int|
                    0 <= row < a.start ==> row_in_step(
                        memory,
                        replica,
                        buffers,
                        #[trigger] memory::physical_row(self.tables()[a.slot], row),
                    )
                &&& forall|l: int|
                    0 <= l < self.tables()[a.slot].len() && !(a.replacement is Some && l
                        == a.start / 256) ==> #[trigger] entry_in_step(
                        memory,
                        replica,
                        buffers,
                        self.stride as int,
                        a.slot,
                        l,
                    )
            }),
        ensures
            ({
                let plan = self.plans@[ticket];
                let a = plan[i];
                let tables = apply::applied_tables(self.tables(), plan, plan.len() as int);
                let copies = replica::publication(
                    replica,
                    buffers,
                    self.stride as int,
                    tables,
                    plan,
                );
                let ready = device_memory::run(memory, copies.take(copies.len() - plan.len()));
                let after = device_memory::run(memory, copies);
                &&& forall|row: int|
                    0 <= row < a.end ==> row_in_step(
                        after,
                        replica,
                        buffers,
                        #[trigger] tables[a.slot][row / 256] * 256 + row % 256,
                    ) && row_in_step(
                        ready,
                        replica,
                        buffers,
                        tables[a.slot][row / 256] * 256 + row % 256,
                    )
                &&& forall|l: int|
                    0 <= l && l * 256 < a.end ==> #[trigger] entry_in_step(
                        after,
                        replica,
                        buffers,
                        self.stride as int,
                        a.slot,
                        l,
                    ) && entry_in_step(
                        ready,
                        replica,
                        buffers,
                        self.stride as int,
                        a.slot,
                        l,
                    )
                &&& length_in_step(after, replica, buffers, a.slot)
                &&& forall|b: int|
                    0 <= b < replica.lengths.bytes ==> #[trigger] ready(
                        replica.lengths.device,
                        replica.lengths.address + b,
                    ) == memory(replica.lengths.device, replica.lengths.address + b)
            }),
    {
        let plan = self.plans@[ticket];
        let a = plan[i];
        let stride = self.stride as int;
        let tables = apply::applied_tables(self.tables(), plan, plan.len() as int);
        let copies = replica::publication(replica, buffers, stride, tables, plan);
        let head = copies.take(copies.len() - plan.len());
        let lengths = replica::length_copies(replica, buffers, plan);
        let ready = device_memory::run(memory, head);
        let after = device_memory::run(memory, copies);
        let table = tables[a.slot];
        let old = self.tables()[a.slot];
        let none = Seq::<DeviceCopy>::empty();
        self.lemma_peers(replica, buffers);
        self.lemma_append_table(ticket, i);
        self.lemma_publication(replica, buffers, ticket);
        self.lemma_length_copies(replica, buffers, ticket);
        lemma_follow_any(replica, buffers, head);
        assert(all_follow(replica, buffers, copies, 4)) by {
            assert forall|x: int| 0 <= x < copies.len() implies follows_some(
                replica,
                buffers,
                #[trigger] copies[x],
                4,
            ) by {
                if x < head.len() {
                    assert(copies[x] == head[x]);
                } else {
                    assert(copies[x] == lengths[x - head.len()]);
                }
            }
        }
        assert(none + head + lengths =~= copies);
        assert(head + lengths + none =~= copies);
        assert forall|row: int| 0 <= row < a.end implies row_in_step(
            after,
            replica,
            buffers,
            #[trigger] table[row / 256] * 256 + row % 256,
        ) && row_in_step(ready, replica, buffers, table[row / 256] * 256 + row % 256) by {
            let l = row / 256;
            let x = table[l] * 256 + row % 256;
            assert(l < table.len());
            assert(table[l] < self.pool.references@.len());
            assert(x < self.capacity);
            if row >= a.start {
                assert(new_row_reached(replica, buffers, head, tables, plan, i, row));
                assert(row_reached(replica, buffers, head, x));
            } else if a.replacement is Some && l == a.tail() {
                assert(tail_row_reached(replica, buffers, head, plan, i, row % 256));
                assert(row_reached(replica, buffers, head, x));
            } else {
                assert(l < old.len());
                assert(table[l] == old[l]);
                assert(memory::physical_row(old, row) == x);
            }
            if row_reached(replica, buffers, head, x) {
                lemma_row_reached_more(replica, buffers, none, head, lengths, x);
            }
            lemma_run_stays(memory, replica, buffers, head, 0, x * 256, x * 256 + 256);
            lemma_run_stays(memory, replica, buffers, head, 1, x * 32, x * 32 + 32);
            lemma_run_stays(memory, replica, buffers, copies, 0, x * 256, x * 256 + 256);
            lemma_run_stays(memory, replica, buffers, copies, 1, x * 32, x * 32 + 32);
        }
        assert forall|l: int| 0 <= l && l * 256 < a.end implies #[trigger] entry_in_step(
            after,
            replica,
            buffers,
            stride,
            a.slot,
            l,
        ) && entry_in_step(ready, replica, buffers, stride, a.slot, l) by {
            let at = (a.slot * stride + l) * 4;
            assert(l < table.len());
            layout::lemma_slot_extent(self.slots as int, stride, a.slot, l, 1);
            if l >= old.len() {
                assert(entry_reached(replica, buffers, head, stride, plan, i, l));
            } else if a.replacement is Some && l == a.tail() {
                assert(entry_reached(replica, buffers, head, stride, plan, i, plan[i].tail()));
            } else {
                assert(entry_in_step(memory, replica, buffers, stride, a.slot, l));
            }
            if entry_reached(replica, buffers, head, stride, plan, i, l) {
                lemma_entry_reached_more(
                    replica,
                    buffers,
                    none,
                    head,
                    lengths,
                    stride,
                    plan,
                    i,
                    l,
                );
            }
            lemma_run_stays(memory, replica, buffers, head, 2, at, at + 4);
            lemma_run_stays(memory, replica, buffers, copies, 2, at, at + 4);
        }
        assert(length_reached(replica, buffers, lengths, plan, i));
        lemma_reaches_more(
            replica,
            buffers,
            head,
            lengths,
            none,
            3,
            a.slot * 8,
            a.slot * 8 + 8,
        );
        lemma_run_stays(memory, replica, buffers, copies, 3, a.slot * 8, a.slot * 8 + 8);
        assert forall|b: int| 0 <= b < replica.lengths.bytes implies #[trigger] ready(
            replica.lengths.device,
            replica.lengths.address + b,
        ) == memory(replica.lengths.device, replica.lengths.address + b) by {
            lemma_counts_wait(memory, replica, buffers, head, b);
        }
    }

    /// The copies of an append put nothing out of step: what was the same on both
    /// devices stays the same.
    pub proof fn law_append_keeps_the_peer_in_step(
        &self,
        replica: ReplicaBuffers,
        buffers: SourceBuffers,
        ticket: int,
        memory: spec_fn(i32, int) -> u8,
        p: int,
        b: int,
    )
        requires
            self.inv(),
            self.plans@.contains_key(ticket),
            buffers.serve(self),
            replica.serve(self),
            peers_apart(replica, buffers),
            0 <= p < 4,
            0 <= b < mirrored(replica, buffers)[p].0.bytes,
            in_step(memory, replica, buffers, p, b),
        ensures
            ({
                let plan = self.plans@[ticket];
                let tables = apply::applied_tables(self.tables(), plan, plan.len() as int);
                in_step(
                    device_memory::run(
                        memory,
                        replica::publication(
                            replica,
                            buffers,
                            self.stride as int,
                            tables,
                            plan,
                        ),
                    ),
                    replica,
                    buffers,
                    p,
                    b,
                )
            }),
    {
        self.lemma_peers(replica, buffers);
        self.lemma_publication_follows(replica, buffers, ticket);
        let plan = self.plans@[ticket];
        let tables = apply::applied_tables(self.tables(), plan, plan.len() as int);
        lemma_stays_in_step(
            memory,
            replica,
            buffers,
            replica::publication(replica, buffers, self.stride as int, tables, plan),
            p,
            b,
        );
    }

    proof fn lemma_publication_follows(
        &self,
        replica: ReplicaBuffers,
        buffers: SourceBuffers,
        ticket: int,
    )
        requires
            self.planned_peers(replica, buffers, ticket),
        ensures
            ({
                let plan = self.plans@[ticket];
                let tables = apply::applied_tables(self.tables(), plan, plan.len() as int);
                all_follow(
                    replica,
                    buffers,
                    replica::publication(replica, buffers, self.stride as int, tables, plan),
                    4,
                )
            }),
    {
        let plan = self.plans@[ticket];
        let tables = apply::applied_tables(self.tables(), plan, plan.len() as int);
        let copies = replica::publication(replica, buffers, self.stride as int, tables, plan);
        let head = copies.take(copies.len() - plan.len());
        let lengths = replica::length_copies(replica, buffers, plan);
        self.lemma_publication(replica, buffers, ticket);
        self.lemma_length_copies(replica, buffers, ticket);
        lemma_follow_any(replica, buffers, head);
        assert forall|x: int| 0 <= x < copies.len() implies follows_some(
            replica,
            buffers,
            #[trigger] copies[x],
            4,
        ) by {
            if x < head.len() {
                assert(copies[x] == head[x]);
            } else {
                assert(copies[x] == lengths[x - head.len()]);
            }
        }
    }

    /// The copies of an append write nothing but the replica's own buffers.
    pub proof fn law_append_writes_only_the_replica(
        &self,
        replica: ReplicaBuffers,
        buffers: SourceBuffers,
        ticket: int,
        memory: spec_fn(i32, int) -> u8,
        device: i32,
        address: int,
    )
        requires
            self.inv(),
            self.plans@.contains_key(ticket),
            buffers.serve(self),
            replica.serve(self),
            !device_memory::covers(replica.values, device, address),
            !device_memory::covers(replica.scales, device, address),
            !device_memory::covers(replica.pages, device, address),
            !device_memory::covers(replica.lengths, device, address),
        ensures
            ({
                let plan = self.plans@[ticket];
                let tables = apply::applied_tables(self.tables(), plan, plan.len() as int);
                device_memory::run(
                    memory,
                    replica::publication(replica, buffers, self.stride as int, tables, plan),
                )(device, address) == memory(device, address)
            }),
    {
        let plan = self.plans@[ticket];
        let tables = apply::applied_tables(self.tables(), plan, plan.len() as int);
        let copies = replica::publication(replica, buffers, self.stride as int, tables, plan);
        self.lemma_peers(replica, buffers);
        self.lemma_publication_follows(replica, buffers, ticket);
        assert forall|x: int| 0 <= x < copies.len() implies !device_memory::covers(
            (#[trigger] copies[x]).destination,
            device,
            address,
        ) by {
            assert(follows_some(replica, buffers, copies[x], 4));
            let (q, offset, bytes) = choose|q: int, offset: int, bytes: int|
                q < 4 && #[trigger] follows(replica, buffers, copies[x], q, offset, bytes);
            assert(mirrored(replica, buffers)[q].0.wf());
            assert(q == 0 || q == 1 || q == 2 || q == 3);
            assert(!device_memory::covers(mirrored(replica, buffers)[q].0, device, address));
        }
        device_memory::lemma_spared(memory, copies, device, address);
    }
}

impl SourceCache {
    proof fn lemma_restored_copies(
        &self,
        replica: ReplicaBuffers,
        buffers: SourceBuffers,
        pages: Seq<u32>,
        rows: int,
        n: int,
    )
        requires
            self.peers(replica, buffers),
            self.pool.in_range(pages),
            0 <= n <= pages.len(),
        ensures
            all_follow(
                replica,
                buffers,
                replica::restored_copies(replica, buffers, pages, rows, n),
                3,
            ),
            forall|r: int|
                0 <= r < rows && r < n * 256 ==> row_reached(
                    replica,
                    buffers,
                    replica::restored_copies(replica, buffers, pages, rows, n),
                    #[trigger] memory::physical_row(pages, r),
                ),
        decreases n,
    {
        if n > 0 {
            self.lemma_restored_copies(replica, buffers, pages, rows, n - 1);
            let before = replica::restored_copies(replica, buffers, pages, rows, n - 1);
            let all = replica::restored_copies(replica, buffers, pages, rows, n);
            let left = rows - (n - 1) * 256;
            let count = if left > 256 {
                256
            } else {
                left
            };
            let none = Seq::<DeviceCopy>::empty();
            if left > 0 {
                let own = replica::row_copies(replica, buffers, pages[n - 1] * 256, count);
                assert(pages[n - 1] < self.pool.references@.len());
                self.lemma_row_copies(replica, buffers, pages[n - 1] * 256, count);
                lemma_follow_both(replica, buffers, before, own);
                assert(none + before + own =~= all);
                assert(before + own + none =~= all);
                assert forall|r: int| 0 <= r < rows && r < n * 256 implies row_reached(
                    replica,
                    buffers,
                    all,
                    #[trigger] memory::physical_row(pages, r),
                ) by {
                    let x = memory::physical_row(pages, r);
                    if r < (n - 1) * 256 {
                        lemma_row_reached_more(replica, buffers, none, before, own, x);
                    } else {
                        assert(r / 256 == n - 1);
                        assert(row_reached(replica, buffers, own, x));
                        lemma_row_reached_more(replica, buffers, before, own, none, x);
                    }
                }
            }
        }
    }

    /// Once its copies have run, every row of a restored prefix is the same on the peer.
    pub proof fn law_restored_rows_reach_the_peer(
        &self,
        replica: ReplicaBuffers,
        buffers: SourceBuffers,
        pages: Seq<u32>,
        rows: int,
        memory: spec_fn(i32, int) -> u8,
        row: int,
    )
        requires
            self.inv(),
            buffers.serve(self),
            replica.serve(self),
            peers_apart(replica, buffers),
            self.pool.in_range(pages),
            0 <= row < rows <= pages.len() * 256,
        ensures
            row_in_step(
                device_memory::run(
                    memory,
                    replica::restored_copies(replica, buffers, pages, rows, pages.len() as int),
                ),
                replica,
                buffers,
                pages[row / 256] * 256 + row % 256,
            ),
    {
        let copies = replica::restored_copies(replica, buffers, pages, rows, pages.len() as int);
        let x = pages[row / 256] * 256 + row % 256;
        self.lemma_peers(replica, buffers);
        self.lemma_restored_copies(replica, buffers, pages, rows, pages.len() as int);
        lemma_follow_any(replica, buffers, copies);
        assert(x == memory::physical_row(pages, row));
        assert(pages[row / 256] < self.pool.references@.len());
        lemma_run_stays(memory, replica, buffers, copies, 0, x * 256, x * 256 + 256);
        lemma_run_stays(memory, replica, buffers, copies, 1, x * 32, x * 32 + 32);
    }

    /// Once its metadata has been copied, a slot's page table and its row count are the
    /// same on the peer, and nothing else has been put out of step.
    pub proof fn law_slot_metadata_reaches_the_peer(
        &self,
        replica: ReplicaBuffers,
        buffers: SourceBuffers,
        slot: int,
        memory: spec_fn(i32, int) -> u8,
    )
        requires
            self.inv(),
            buffers.serve(self),
            replica.serve(self),
            peers_apart(replica, buffers),
            0 <= slot < self.slots,
        ensures
            ({
                let count = self.pages@[slot]@.len() as int;
                let stride = self.stride as int;
                let after = device_memory::run(
                    memory,
                    replica::slot_copies(replica, buffers, stride, slot, count),
                );
                &&& forall|l: int|
                    0 <= l < count ==> #[trigger] entry_in_step(
                        after,
                        replica,
                        buffers,
                        stride,
                        slot,
                        l,
                    )
                &&& length_in_step(after, replica, buffers, slot)
                &&& forall|p: int, b: int|
                    0 <= p < 4 && 0 <= b < mirrored(replica, buffers)[p].0.bytes && in_step(
                        memory,
                        replica,
                        buffers,
                        p,
                        b,
                    ) ==> #[trigger] in_step(after, replica, buffers, p, b)
            }),
    {
        let count = self.pages@[slot]@.len() as int;
        let stride = self.stride as int;
        let copies = replica::slot_copies(replica, buffers, stride, slot, count);
        let after = device_memory::run(memory, copies);
        let last = copies.len() - 1;
        self.lemma_peers(replica, buffers);
        layout::lemma_slot_extent(self.slots as int, stride, slot, 0, count);
        assert(follows(replica, buffers, copies[last], 3, slot * 8, 8));
        if count > 0 {
            assert(follows(replica, buffers, copies[0], 2, slot * stride * 4, count * 4));
        }
        assert forall|x: int| 0 <= x < copies.len() implies follows_some(
            replica,
            buffers,
            #[trigger] copies[x],
            4,
        ) by {
            assert(x == last || (x == 0 && count > 0));
        }
        lemma_reaches(replica, buffers, copies, last, 3, slot * 8, 8);
        lemma_run_stays(memory, replica, buffers, copies, 3, slot * 8, slot * 8 + 8);
        assert forall|l: int| 0 <= l < count implies #[trigger] entry_in_step(
            after,
            replica,
            buffers,
            stride,
            slot,
            l,
        ) by {
            let at = (slot * stride + l) * 4;
            layout::lemma_slot_extent(self.slots as int, stride, slot, l, 1);
            lemma_reaches(replica, buffers, copies, 0, 2, slot * stride * 4, count * 4);
            assert(run_reached(replica, buffers, copies, 2, at, at + 4));
            lemma_run_stays(memory, replica, buffers, copies, 2, at, at + 4);
        }
        assert forall|p: int, b: int|
            0 <= p < 4 && 0 <= b < mirrored(replica, buffers)[p].0.bytes && in_step(
                memory,
                replica,
                buffers,
                p,
                b,
            ) implies #[trigger] in_step(after, replica, buffers, p, b) by {
            lemma_stays_in_step(memory, replica, buffers, copies, p, b);
        }
    }
}

/// A peer's view of a slot reads the entries and the row count that copies bring there,
/// over the replica's own values and scales.
pub proof fn law_peer_view_reads_the_replica(
    replica: &SourceReplica,
    source: &SourceCache,
    slot: int,
    rows: usize,
    view: KvCacheView,
    l: int,
    b: int,
)
    requires
        source.inv(),
        replica.pool == source.identity,
        replica.wf(source),
        0 <= slot < source.slots,
        replica.peer_view(source, slot, rows, view),
    ensures
        view.values == replica.buffers.values,
        view.scales == replica.buffers.scales,
        view.rows == rows,
        view.pages@ == source.tables()[slot],
        view.device_pages.device == replica.buffers.pages.device,
        view.device_pages.address + 4 * l + b == replica.buffers.pages.address + (slot
            * source.stride + l) * 4 + b,
        view.device_pages.bytes == 4 * source.stride,
        view.device_rows.device == replica.buffers.lengths.device,
        view.device_rows.address + b == replica.buffers.lengths.address + slot * 8 + b,
        view.device_rows.bytes == 8,
{
    layout::lemma_slot_extent(
        source.slots as int,
        source.stride as int,
        slot,
        0,
        source.stride as int,
    );
    assert(source.tables()[slot] == source.pages@[slot]@);
}

} // verus!
