//! What the copies of a paged cache do to the bytes of its rows.
use crate::device::{DeviceBuffer, DeviceCopy};
use crate::device_memory;
use crate::source_cache;
use crate::source_cache::apply;
use crate::source_cache::layout;
use crate::source_cache::layout::SourceBuffers;
use crate::source_cache::memory;
use crate::source_cache::{AppendView, SourceCache};
use vstd::prelude::*;

verus! {

/// The buffers that hold a cache's rows, each with the bytes of one row: packed index
/// keys, their scales, serving values, their scales.
pub open spec fn row_storage(buffers: SourceBuffers) -> Seq<(DeviceBuffer, int)> {
    seq![
        (buffers.packed, 64),
        (buffers.scales, 4),
        (buffers.kv_values, 256),
        (buffers.kv_scales, 32),
    ]
}

/// No two of the buffers overlap.
pub open spec fn rows_apart(buffers: SourceBuffers) -> bool {
    forall|j: int, k: int|
        0 <= j < k < 4 ==> (#[trigger] row_storage(buffers)[j]).0.disjoint(
            (#[trigger] row_storage(buffers)[k]).0,
        )
}

/// Physical row `x` of a buffer with `width` bytes per row.
pub open spec fn row_bytes(
    memory: spec_fn(i32, int) -> u8,
    buffer: DeviceBuffer,
    width: int,
) -> spec_fn(int) -> Seq<u8> {
    |x: int|
        Seq::new(
            width as nat,
            |b: int| memory(buffer.device, buffer.address + x * width + b),
        )
}

/// Append `i` of the plan moves its tail, and `copy` moves it in buffer `k`.
pub open spec fn moves_tail(
    buffers: SourceBuffers,
    plan: Seq<AppendView>,
    i: int,
    k: int,
    copy: DeviceCopy,
) -> bool {
    let (buffer, width) = row_storage(buffers)[k];
    &&& 0 <= i < plan.len()
    &&& 0 <= k < 4
    &&& plan[i].replacement matches Some(pair) && copy == (DeviceCopy {
        destination: buffer.slice_of(pair.1 * 256 * width, 256 * width),
        source: buffer.slice_of(pair.0 * 256 * width, 256 * width),
    })
}

/// The byte lies in buffer `k` of the page that append `i` moves its tail to.
pub open spec fn in_new_tail(
    buffers: SourceBuffers,
    plan: Seq<AppendView>,
    i: int,
    k: int,
    device: i32,
    address: int,
) -> bool {
    let (buffer, width) = row_storage(buffers)[k];
    &&& 0 <= i < plan.len()
    &&& 0 <= k < 4
    &&& device == buffer.device
    &&& plan[i].replacement matches Some(pair) && buffer.address + pair.1 * 256 * width <= address
        < buffer.address + (pair.1 + 1) * 256 * width
}

spec fn moves_some_tail(buffers: SourceBuffers, plan: Seq<AppendView>, copy: DeviceCopy) -> bool {
    exists|i: int, k: int| #[trigger] moves_tail(buffers, plan, i, k, copy)
}

spec fn has_move(
    buffers: SourceBuffers,
    plan: Seq<AppendView>,
    copies: Seq<DeviceCopy>,
    i: int,
    k: int,
) -> bool {
    exists|x: int| 0 <= x < copies.len() && moves_tail(buffers, plan, i, k, #[trigger] copies[x])
}

proof fn lemma_tail_copies(buffers: SourceBuffers, plan: Seq<AppendView>)
    ensures
        forall|x: int|
            0 <= x < layout::tail_copies(buffers, plan).len() ==> moves_some_tail(
                buffers,
                plan,
                #[trigger] layout::tail_copies(buffers, plan)[x],
            ),
        forall|i: int, k: int|
            0 <= i < plan.len() && 0 <= k < 4 && plan[i].replacement is Some ==> #[trigger] has_move(
                buffers,
                plan,
                layout::tail_copies(buffers, plan),
                i,
                k,
            ),
    decreases plan.len(),
{
    if plan.len() > 0 {
        let init = plan.drop_last();
        let n = plan.len() - 1;
        lemma_tail_copies(buffers, init);
        let before = layout::tail_copies(buffers, init);
        let all = layout::tail_copies(buffers, plan);
        assert(plan.last() == plan[n]);
        assert forall|x: int| 0 <= x < all.len() implies moves_some_tail(
            buffers,
            plan,
            #[trigger] all[x],
        ) by {
            if x < before.len() {
                assert(all[x] == before[x]);
                let (i, k) = choose|i: int, k: int| #[trigger]
                    moves_tail(buffers, init, i, k, before[x]);
                assert(plan[i] == init[i]);
                assert(moves_tail(buffers, plan, i, k, all[x]));
            } else {
                let k = x - before.len();
                assert(k == 0 || k == 1 || k == 2 || k == 3);
                assert(moves_tail(buffers, plan, n, k, all[x]));
            }
        }
        assert forall|i: int, k: int|
            0 <= i < plan.len() && 0 <= k < 4 && plan[i].replacement is Some implies #[trigger] has_move(
            buffers,
            plan,
            all,
            i,
            k,
        ) by {
            if i < n {
                assert(plan[i] == init[i]);
                assert(has_move(buffers, init, before, i, k));
                let x = choose|x: int|
                    0 <= x < before.len() && moves_tail(buffers, init, i, k, #[trigger] before[x]);
                assert(all[x] == before[x]);
                assert(moves_tail(buffers, plan, i, k, all[x]));
            } else {
                let x = before.len() + k;
                assert(k == 0 || k == 1 || k == 2 || k == 3);
                assert(moves_tail(buffers, plan, n, k, all[x]));
            }
        }
    }
}

pub proof fn lemma_pages_apart(p: int, q: int, width: int, b: int)
    requires
        p != q,
        0 < width,
        0 <= b < 256 * width,
    ensures
        !(q * 256 * width <= p * 256 * width + b < q * 256 * width + 256 * width),
{
    if p < q {
        assert((p + 1) * 256 * width <= q * 256 * width) by (nonlinear_arith)
            requires
                p + 1 <= q,
                0 < width,
        ;
        assert((p + 1) * 256 * width == p * 256 * width + 256 * width) by (nonlinear_arith);
    } else {
        assert((q + 1) * 256 * width <= p * 256 * width) by (nonlinear_arith)
            requires
                q + 1 <= p,
                0 < width,
        ;
        assert((q + 1) * 256 * width == q * 256 * width + 256 * width) by (nonlinear_arith);
    }
}

impl SourceCache {
    /// A page of the pool lies inside every row buffer.
    proof fn lemma_page_extent(&self, buffers: SourceBuffers, k: int, page: int)
        requires
            self.inv(),
            buffers.serve(self),
            0 <= k < 4,
            0 <= page < self.pool.references@.len(),
        ensures
            ({
                let (buffer, width) = row_storage(buffers)[k];
                &&& 0 < width
                &&& buffer.wf()
                &&& 0 <= page * 256 * width
                &&& page * 256 * width + 256 * width <= buffer.bytes
                &&& (page + 1) * 256 * width == page * 256 * width + 256 * width
            }),
    {
        let (buffer, width) = row_storage(buffers)[k];
        assert(k == 0 || k == 1 || k == 2 || k == 3);
        let n = self.pool.references@.len() as int;
        assert(self.capacity * width == n * 256 * width) by (nonlinear_arith)
            requires
                self.capacity == n * 256,
        ;
        assert((page + 1) * 256 * width <= n * 256 * width) by (nonlinear_arith)
            requires
                page + 1 <= n,
                0 < width,
        ;
        assert((page + 1) * 256 * width == page * 256 * width + 256 * width) by (nonlinear_arith);
        assert(0 <= page * 256 * width) by (nonlinear_arith)
            requires
                0 <= page,
                0 < width,
        ;
    }

    /// A moved tail goes from a page in use to a page that nobody uses, and no other
    /// tail goes there.
    proof fn lemma_moved_pages(&self, ticket: int, i: int, j: int)
        requires
            self.inv(),
            self.plans@.contains_key(ticket),
            0 <= i < self.plans@[ticket].len(),
            0 <= j < self.plans@[ticket].len(),
            self.plans@[ticket][i].replacement is Some,
            self.plans@[ticket][j].replacement is Some,
        ensures
            ({
                let from = self.plans@[ticket][i].replacement->Some_0;
                let to = self.plans@[ticket][j].replacement->Some_0;
                &&& from.0 < self.pool.references@.len()
                &&& to.1 < self.pool.references@.len()
                &&& from.0 != to.1
                &&& i != j ==> from.1 != to.1
            }),
    {
        let plan = self.plans@[ticket];
        let from = plan[i].replacement->Some_0;
        let to = plan[j].replacement->Some_0;
        assert(source_cache::plan_fits(
            self.tables(),
            self.rows@,
            self.pool.references@,
            self.slots as int,
            plan,
        ));
        assert(plan[j].fresh()[0] == to.1);
        assert(plan[i].fresh()[0] == from.1);
        assert(plan[j].fresh().contains(to.1));
        assert(plan[i].fresh().contains(from.1));
        self.lemma_fresh_untouched(ticket, j, to.1);
        apply::lemma_fresh_distinct(plan);
        let s = plan[i].slot;
        assert(self.tables()[s] == self.pages@[s]@);
        assert(self.pool.in_range(self.pages@[s]@));
        assert(plan[i].tail() < self.tables()[s].len());
        assert(self.tables()[s][plan[i].tail()] == from.0);
        assert(self.tables()[s].contains(from.0));
    }

    proof fn lemma_move_at(
        &self,
        buffers: SourceBuffers,
        ticket: int,
        i: int,
        k: int,
        b: int,
        x: int,
    )
        requires
            self.inv(),
            self.plans@.contains_key(ticket),
            buffers.serve(self),
            rows_apart(buffers),
            0 <= i < self.plans@[ticket].len(),
            0 <= k < 4,
            0 <= b < 256 * row_storage(buffers)[k].1,
            self.plans@[ticket][i].replacement is Some,
            0 <= x < layout::tail_copies(buffers, self.plans@[ticket]).len(),
        ensures
            ({
                let (buffer, width) = row_storage(buffers)[k];
                let pair = self.plans@[ticket][i].replacement->Some_0;
                let copy = layout::tail_copies(buffers, self.plans@[ticket])[x];
                let to = buffer.address + pair.1 * 256 * width + b;
                let from = buffer.address + pair.0 * 256 * width + b;
                &&& device_memory::takes_from(copy, buffer.device, to, (buffer.device, from))
                &&& !device_memory::covers(copy.destination, buffer.device, from)
                &&& moves_tail(buffers, self.plans@[ticket], i, k, copy)
                    ==> device_memory::covers(copy.destination, buffer.device, to)
            }),
    {
        let plan = self.plans@[ticket];
        let copies = layout::tail_copies(buffers, plan);
        lemma_tail_copies(buffers, plan);
        assert(moves_some_tail(buffers, plan, copies[x]));
        let (j, l) = choose|j: int, l: int| #[trigger] moves_tail(buffers, plan, j, l, copies[x]);
        self.lemma_moved_pages(ticket, i, j);
        self.lemma_moved_pages(ticket, j, i);
        let (buffer, width) = row_storage(buffers)[k];
        let (other, wide) = row_storage(buffers)[l];
        if k < l {
            assert(row_storage(buffers)[k].0.disjoint(row_storage(buffers)[l].0));
        } else if l < k {
            assert(row_storage(buffers)[l].0.disjoint(row_storage(buffers)[k].0));
        }
        let pair = plan[i].replacement->Some_0;
        let moved = plan[j].replacement->Some_0;
        self.lemma_page_extent(buffers, k, pair.0 as int);
        self.lemma_page_extent(buffers, k, pair.1 as int);
        self.lemma_page_extent(buffers, l, moved.0 as int);
        self.lemma_page_extent(buffers, l, moved.1 as int);
        if k == l {
            lemma_pages_apart(pair.0 as int, moved.1 as int, width, b);
            if i != j {
                lemma_pages_apart(pair.1 as int, moved.1 as int, width, b);
            }
        }
    }

    /// Run on the devices, the copies of the shared tails bring every byte of a moved
    /// tail to its private page: index keys, index scales, values and value scales.
    pub proof fn law_tail_copies_move_every_byte(
        &self,
        buffers: SourceBuffers,
        ticket: int,
        memory: spec_fn(i32, int) -> u8,
        i: int,
        k: int,
        b: int,
    )
        requires
            self.inv(),
            self.plans@.contains_key(ticket),
            buffers.serve(self),
            rows_apart(buffers),
            0 <= i < self.plans@[ticket].len(),
            0 <= k < 4,
            0 <= b < 256 * row_storage(buffers)[k].1,
            self.plans@[ticket][i].replacement is Some,
        ensures
            ({
                let (buffer, width) = row_storage(buffers)[k];
                let pair = self.plans@[ticket][i].replacement->Some_0;
                let after = device_memory::run(
                    memory,
                    layout::tail_copies(buffers, self.plans@[ticket]),
                );
                after(buffer.device, buffer.address + pair.1 * 256 * width + b) == memory(
                    buffer.device,
                    buffer.address + pair.0 * 256 * width + b,
                )
            }),
    {
        let plan = self.plans@[ticket];
        let copies = layout::tail_copies(buffers, plan);
        let (buffer, width) = row_storage(buffers)[k];
        let pair = plan[i].replacement->Some_0;
        let to = buffer.address + pair.1 * 256 * width + b;
        let from = (buffer.device, buffer.address + pair.0 * 256 * width + b);
        lemma_tail_copies(buffers, plan);
        assert(has_move(buffers, plan, copies, i, k));
        let x = choose|x: int|
            0 <= x < copies.len() && moves_tail(buffers, plan, i, k, #[trigger] copies[x]);
        self.lemma_move_at(buffers, ticket, i, k, b, x);
        assert forall|y: int| 0 <= y < copies.len() implies device_memory::takes_from(
            #[trigger] copies[y],
            buffer.device,
            to,
            from,
        ) by {
            self.lemma_move_at(buffers, ticket, i, k, b, y);
        }
        assert forall|y: int| 0 <= y < copies.len() implies !device_memory::covers(
            (#[trigger] copies[y]).destination,
            from.0,
            from.1,
        ) by {
            self.lemma_move_at(buffers, ticket, i, k, b, y);
        }
        device_memory::lemma_copied(memory, copies, x, buffer.device, to, from);
    }

    /// The byte lies in the private page of a moved tail.
    pub open spec fn in_private_page(
        &self,
        buffers: SourceBuffers,
        ticket: int,
        device: i32,
        address: int,
    ) -> bool {
        exists|i: int, k: int| #[trigger]
            in_new_tail(buffers, self.plans@[ticket], i, k, device, address)
    }

    /// Run on the devices, the copies of the shared tails change nothing but the private
    /// pages.
    pub proof fn law_tail_copies_spare_the_rest(
        &self,
        buffers: SourceBuffers,
        ticket: int,
        memory: spec_fn(i32, int) -> u8,
        device: i32,
        address: int,
    )
        requires
            self.inv(),
            self.plans@.contains_key(ticket),
            buffers.serve(self),
            !self.in_private_page(buffers, ticket, device, address),
        ensures
            device_memory::run(memory, layout::tail_copies(buffers, self.plans@[ticket]))(
                device,
                address,
            ) == memory(device, address),
    {
        let plan = self.plans@[ticket];
        let copies = layout::tail_copies(buffers, plan);
        lemma_tail_copies(buffers, plan);
        assert forall|x: int| 0 <= x < copies.len() implies !device_memory::covers(
            (#[trigger] copies[x]).destination,
            device,
            address,
        ) by {
            assert(moves_some_tail(buffers, plan, copies[x]));
            let (j, l) = choose|j: int, l: int| #[trigger]
                moves_tail(buffers, plan, j, l, copies[x]);
            self.lemma_moved_pages(ticket, j, j);
            self.lemma_page_extent(buffers, l, plan[j].replacement->Some_0.1 as int);
            if device_memory::covers(copies[x].destination, device, address) {
                assert(in_new_tail(buffers, plan, j, l, device, address));
            }
        }
        device_memory::lemma_spared(memory, copies, device, address);
    }

    /// In every row buffer the copies of the shared tails do to the physical rows what
    /// an append transaction asks for.
    pub proof fn law_tail_copies_make_tails_private(
        &self,
        buffers: SourceBuffers,
        ticket: int,
        memory: spec_fn(i32, int) -> u8,
        k: int,
        x: int,
    )
        requires
            self.inv(),
            self.plans@.contains_key(ticket),
            buffers.serve(self),
            rows_apart(buffers),
            0 <= k < 4,
            0 <= x < self.capacity,
        ensures
            ({
                let (buffer, width) = row_storage(buffers)[k];
                let plan = self.plans@[ticket];
                let after = device_memory::run(memory, layout::tail_copies(buffers, plan));
                row_bytes(after, buffer, width)(x) == memory::after_copies(
                    row_bytes(memory, buffer, width),
                    plan,
                )(x)
            }),
    {
        let (buffer, width) = row_storage(buffers)[k];
        let plan = self.plans@[ticket];
        let after = device_memory::run(memory, layout::tail_copies(buffers, plan));
        let page = x / 256;
        self.lemma_page_extent(buffers, k, page);
        let r = x % 256;
        assert(x * width == page * 256 * width + r * width) by (nonlinear_arith)
            requires
                x == page * 256 + r,
        ;
        assert(r * width + width <= 256 * width && 0 <= r * width) by (nonlinear_arith)
            requires
                0 <= r < 256,
                0 < width,
        ;
        if exists|i: int| #[trigger] memory::copies_to(plan, i, page) {
            let i = choose|i: int| #[trigger] memory::copies_to(plan, i, page);
            let pair = plan[i].replacement->Some_0;
            assert forall|b: int| 0 <= b < width implies #[trigger] row_bytes(after, buffer, width)(
                x,
            )[b] == row_bytes(memory, buffer, width)(pair.0 * 256 + x % 256)[b] by {
                assert((pair.0 * 256 + r) * width == pair.0 * 256 * width + r * width)
                    by (nonlinear_arith);
                self.law_tail_copies_move_every_byte(
                    buffers,
                    ticket,
                    memory,
                    i,
                    k,
                    r * width + b,
                );
            }
            assert(row_bytes(after, buffer, width)(x) =~= row_bytes(memory, buffer, width)(
                pair.0 * 256 + x % 256,
            ));
        } else {
            assert forall|b: int| 0 <= b < width implies #[trigger] row_bytes(after, buffer, width)(
                x,
            )[b] == row_bytes(memory, buffer, width)(x)[b] by {
                let address = buffer.address + x * width + b;
                if self.in_private_page(buffers, ticket, buffer.device, address) {
                    let (j, l) = choose|j: int, l: int| #[trigger]
                        in_new_tail(buffers, plan, j, l, buffer.device, address);
                    self.lemma_moved_pages(ticket, j, j);
                    let target = plan[j].replacement->Some_0.1 as int;
                    self.lemma_page_extent(buffers, l, target);
                    if k < l {
                        assert(row_storage(buffers)[k].0.disjoint(row_storage(buffers)[l].0));
                    } else if l < k {
                        assert(row_storage(buffers)[l].0.disjoint(row_storage(buffers)[k].0));
                    }
                    if target != page {
                        lemma_pages_apart(page, target, width, r * width + b);
                    }
                    assert(memory::copies_to(plan, j, page));
                }
                self.law_tail_copies_spare_the_rest(
                    buffers,
                    ticket,
                    memory,
                    buffer.device,
                    address,
                );
            }
            assert(row_bytes(after, buffer, width)(x) =~= row_bytes(memory, buffer, width)(x));
        }
    }
}

} // verus!
