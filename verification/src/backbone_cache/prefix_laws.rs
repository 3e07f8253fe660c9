//! What the copies of a retained prefix keep and give back.
use crate::backbone_cache::prefix;
use crate::backbone_cache::prefix::BackbonePrefix;
use crate::backbone_cache::restore;
use crate::backbone_cache::{BackboneCache, CacheLease, SOURCE_COUNT};
use crate::cache_phase::CachePhase;
use crate::compressor::prefix::CarryBuffers;
use crate::compressor::CompressorState;
use crate::device::{DeviceBuffer, DeviceCopy};
use crate::device_memory;
use crate::source_cache;
use vstd::prelude::*;

verus! {

/// The projection (`k` is 0) or the scores (`k` is 1) that source `i` carries.
pub open spec fn carried(carries: Seq<Option<CarryBuffers>>, i: int, k: int) -> DeviceBuffer {
    if k == 0 {
        carries[i]->Some_0.projected
    } else {
        carries[i]->Some_0.scores
    }
}

/// Source `i` carries rows.
pub open spec fn carries_rows(sources: Seq<CompressorState>, i: int) -> bool {
    0 <= i < SOURCE_COUNT && sources[i].step() == 2
}

/// No two carried buffers overlap, and none overlaps the tail.
pub open spec fn carries_apart(
    sources: Seq<CompressorState>,
    carries: Seq<Option<CarryBuffers>>,
    tail: DeviceBuffer,
) -> bool {
    &&& forall|i: int, k: int|
        carries_rows(sources, i) && 0 <= k < 2 ==> #[trigger] carried(carries, i, k).disjoint(tail)
    &&& forall|i: int, k: int, j: int, l: int|
        carries_rows(sources, i) && carries_rows(sources, j) && 0 <= k < 2 && 0 <= l < 2 && (i != j
            || k != l) ==> #[trigger] carried(carries, i, k).disjoint(
            #[trigger] carried(carries, j, l),
        )
}

/// Where a tail keeps part `k` of the carried row of source `i`.
pub open spec fn kept_at(window_bytes: int, i: int, k: int) -> int {
    40 * window_bytes + i * 4096 + k * 2048
}

/// `copy` moves part `k` of the carried row of source `i` at `slot` to or from the tail.
spec fn moves(
    sources: Seq<CompressorState>,
    carries: Seq<Option<CarryBuffers>>,
    tail: DeviceBuffer,
    window_bytes: int,
    slot: int,
    save: bool,
    i: int,
    k: int,
    copy: DeviceCopy,
) -> bool {
    let live = carried(carries, i, k).slice_of(slot * 2048, 2048);
    let kept = tail.slice_of(kept_at(window_bytes, i, k), 2048);
    &&& carries_rows(sources, i)
    &&& 0 <= k < 2
    &&& copy.destination == if save {
        kept
    } else {
        live
    }
    &&& copy.source == if save {
        live
    } else {
        kept
    }
}

spec fn moves_some(
    sources: Seq<CompressorState>,
    carries: Seq<Option<CarryBuffers>>,
    tail: DeviceBuffer,
    window_bytes: int,
    slot: int,
    save: bool,
    copy: DeviceCopy,
) -> bool {
    exists|i: int, k: int| #[trigger]
        moves(sources, carries, tail, window_bytes, slot, save, i, k, copy)
}

spec fn has_move(
    sources: Seq<CompressorState>,
    carries: Seq<Option<CarryBuffers>>,
    tail: DeviceBuffer,
    window_bytes: int,
    slot: int,
    save: bool,
    copies: Seq<DeviceCopy>,
    i: int,
    k: int,
) -> bool {
    exists|x: int|
        0 <= x < copies.len() && moves(
            sources,
            carries,
            tail,
            window_bytes,
            slot,
            save,
            i,
            k,
            #[trigger] copies[x],
        )
}

/// The copies move the carried rows of the first `n` sources, and nothing else.
spec fn are_moves(
    sources: Seq<CompressorState>,
    carries: Seq<Option<CarryBuffers>>,
    tail: DeviceBuffer,
    window_bytes: int,
    slot: int,
    save: bool,
    copies: Seq<DeviceCopy>,
    n: int,
) -> bool {
    &&& forall|x: int|
        0 <= x < copies.len() ==> moves_some(
            sources,
            carries,
            tail,
            window_bytes,
            slot,
            save,
            #[trigger] copies[x],
        )
    &&& forall|i: int, k: int|
        i < n && carries_rows(sources, i) && 0 <= k < 2 ==> #[trigger] has_move(
            sources,
            carries,
            tail,
            window_bytes,
            slot,
            save,
            copies,
            i,
            k,
        )
}

proof fn lemma_moves_step(
    sources: Seq<CompressorState>,
    carries: Seq<Option<CarryBuffers>>,
    tail: DeviceBuffer,
    window_bytes: int,
    slot: int,
    save: bool,
    before: Seq<DeviceCopy>,
    n: int,
)
    requires
        0 < n <= SOURCE_COUNT,
        tail.wf(),
        0 <= window_bytes,
        prefix::tail_bytes(window_bytes) <= tail.bytes,
        are_moves(sources, carries, tail, window_bytes, slot, save, before, n - 1),
    ensures
        ({
            let own = if sources[n - 1].step() == 2 {
                crate::compressor::prefix::carry_copies(
                    carries[n - 1]->Some_0,
                    slot,
                    prefix::carry_part(tail, window_bytes, n - 1),
                    save,
                )
            } else {
                Seq::empty()
            };
            are_moves(sources, carries, tail, window_bytes, slot, save, before + own, n)
        }),
{
    let own = if sources[n - 1].step() == 2 {
        crate::compressor::prefix::carry_copies(
            carries[n - 1]->Some_0,
            slot,
            prefix::carry_part(tail, window_bytes, n - 1),
            save,
        )
    } else {
        Seq::empty()
    };
    let all = before + own;
    let part = prefix::carry_part(tail, window_bytes, n - 1);
    assert(part.address == tail.address + 40 * window_bytes + (n - 1) * 4096);
    assert forall|x: int| 0 <= x < own.len() implies moves(
        sources,
        carries,
        tail,
        window_bytes,
        slot,
        save,
        n - 1,
        x,
        #[trigger] own[x],
    ) by {
        assert(x == 0 || x == 1);
    }
    assert forall|x: int| 0 <= x < all.len() implies moves_some(
        sources,
        carries,
        tail,
        window_bytes,
        slot,
        save,
        #[trigger] all[x],
    ) by {
        if x < before.len() {
            assert(all[x] == before[x]);
        } else {
            assert(all[x] == own[x - before.len()]);
            assert(moves(
                sources,
                carries,
                tail,
                window_bytes,
                slot,
                save,
                n - 1,
                x - before.len(),
                all[x],
            ));
        }
    }
    assert forall|i: int, k: int|
        i < n && carries_rows(sources, i) && 0 <= k < 2 implies #[trigger] has_move(
        sources,
        carries,
        tail,
        window_bytes,
        slot,
        save,
        all,
        i,
        k,
    ) by {
        if i < n - 1 {
            assert(has_move(sources, carries, tail, window_bytes, slot, save, before, i, k));
            let x = choose|x: int|
                0 <= x < before.len() && moves(
                    sources,
                    carries,
                    tail,
                    window_bytes,
                    slot,
                    save,
                    i,
                    k,
                    #[trigger] before[x],
                );
            assert(all[x] == before[x]);
        } else {
            assert(all[before.len() + k] == own[k]);
        }
    }
}

proof fn lemma_saved(
    sources: Seq<CompressorState>,
    carries: Seq<Option<CarryBuffers>>,
    tail: DeviceBuffer,
    window_bytes: int,
    slot: int,
    end: u64,
    n: int,
)
    requires
        0 <= n <= SOURCE_COUNT,
        tail.wf(),
        0 <= window_bytes,
        prefix::tail_bytes(window_bytes) <= tail.bytes,
        end % 2 == 1,
    ensures
        are_moves(
            sources,
            carries,
            tail,
            window_bytes,
            slot,
            true,
            prefix::carried_copies(
                sources,
                carries,
                tail,
                window_bytes,
                slot,
                end,
                true,
                n,
            ),
            n,
        ),
    decreases n,
{
    if n > 0 {
        lemma_saved(sources, carries, tail, window_bytes, slot, end, n - 1);
        lemma_moves_step(
            sources,
            carries,
            tail,
            window_bytes,
            slot,
            true,
            prefix::carried_copies(
                sources,
                carries,
                tail,
                window_bytes,
                slot,
                end,
                true,
                n - 1,
            ),
            n,
        );
    }
}

proof fn lemma_restored(
    sources: Seq<CompressorState>,
    carries: Seq<Option<CarryBuffers>>,
    saved: &BackbonePrefix,
    window_bytes: int,
    slot: int,
    n: int,
)
    requires
        0 <= n <= SOURCE_COUNT,
        saved.tail.wf(),
        0 <= window_bytes,
        prefix::tail_bytes(window_bytes) <= saved.tail.bytes,
        forall|i: int|
            0 <= i < SOURCE_COUNT ==> (#[trigger] saved.sources@[i]).end % 2 == 1,
    ensures
        are_moves(
            sources,
            carries,
            saved.tail,
            window_bytes,
            slot,
            false,
            restore::restored_copies(sources, carries, saved, window_bytes, slot, n),
            n,
        ),
    decreases n,
{
    if n > 0 {
        lemma_restored(sources, carries, saved, window_bytes, slot, n - 1);
        assert(saved.sources@[n - 1].end % 2 == 1);
        lemma_moves_step(
            sources,
            carries,
            saved.tail,
            window_bytes,
            slot,
            false,
            restore::restored_copies(sources, carries, saved, window_bytes, slot, n - 1),
            n,
        );
    }
}

/// What a byte of a carried row becomes when the rows are moved to or from the tail.
proof fn lemma_moved_byte(
    sources: Seq<CompressorState>,
    carries: Seq<Option<CarryBuffers>>,
    tail: DeviceBuffer,
    window_bytes: int,
    slot: int,
    save: bool,
    copies: Seq<DeviceCopy>,
    memory: spec_fn(i32, int) -> u8,
    i: int,
    k: int,
    b: int,
)
    requires
        prefix::carries_serve(sources, carries),
        forall|j: int|
            0 <= j < SOURCE_COUNT ==> slot < (#[trigger] sources[j]).slot_count <= 16,
        0 <= slot,
        tail.wf(),
        0 <= window_bytes,
        prefix::tail_bytes(window_bytes) <= tail.bytes,
        carries_apart(sources, carries, tail),
        are_moves(sources, carries, tail, window_bytes, slot, save, copies, SOURCE_COUNT as int),
        carries_rows(sources, i),
        0 <= k < 2,
        0 <= b < 2048,
    ensures
        ({
            let part = carried(carries, i, k);
            let live = (part.device, part.address + slot * 2048 + b);
            let kept = (tail.device, tail.address + kept_at(window_bytes, i, k) + b);
            let after = device_memory::run(memory, copies);
            if save {
                after(kept.0, kept.1) == memory(live.0, live.1)
            } else {
                after(live.0, live.1) == memory(kept.0, kept.1)
            }
        }),
{
    let part = carried(carries, i, k);
    let live = (part.device, part.address + slot * 2048 + b);
    let kept = (tail.device, tail.address + kept_at(window_bytes, i, k) + b);
    let (to, from) = if save {
        (kept, live)
    } else {
        (live, kept)
    };
    assert(sources[i].carried_by(carries[i]));
    assert(carried(carries, i, k).disjoint(tail));
    assert(has_move(sources, carries, tail, window_bytes, slot, save, copies, i, k));
    let x = choose|x: int|
        0 <= x < copies.len() && moves(
            sources,
            carries,
            tail,
            window_bytes,
            slot,
            save,
            i,
            k,
            #[trigger] copies[x],
        );
    assert(device_memory::covers(copies[x].destination, to.0, to.1));
    assert forall|y: int| 0 <= y < copies.len() implies device_memory::takes_from(
        #[trigger] copies[y],
        to.0,
        to.1,
        from,
    ) && !device_memory::covers(copies[y].destination, from.0, from.1) by {
        assert(moves_some(sources, carries, tail, window_bytes, slot, save, copies[y]));
        let (j, l) = choose|j: int, l: int| #[trigger]
            moves(sources, carries, tail, window_bytes, slot, save, j, l, copies[y]);
        assert(sources[j].carried_by(carries[j]));
        assert(carried(carries, j, l).disjoint(tail));
        if i != j || k != l {
            assert(carried(carries, i, k).disjoint(carried(carries, j, l)));
        }
    }
    device_memory::lemma_copied(memory, copies, x, to.0, to.1, from);
}

/// The carried row of every ratio-two source comes back: saved with a prefix that ends
/// inside a group, and restored at any slot, it has the bytes that it had.
pub proof fn law_prefix_gives_back_carried_rows(
    sources: Seq<CompressorState>,
    carries: Seq<Option<CarryBuffers>>,
    saved: &BackbonePrefix,
    window_bytes: int,
    from: int,
    to: int,
    end: u64,
    memory: spec_fn(i32, int) -> u8,
    i: int,
    k: int,
    b: int,
)
    requires
        prefix::carries_serve(sources, carries),
        forall|j: int|
            0 <= j < SOURCE_COUNT ==> from < (#[trigger] sources[j]).slot_count <= 16 && to
                < sources[j].slot_count,
        0 <= from,
        0 <= to,
        saved.tail.wf(),
        0 <= window_bytes,
        prefix::tail_bytes(window_bytes) <= saved.tail.bytes,
        carries_apart(sources, carries, saved.tail),
        end % 2 == 1,
        forall|j: int| 0 <= j < SOURCE_COUNT ==> (#[trigger] saved.sources@[j]).end == end,
        0 <= i < SOURCE_COUNT,
        sources[i].step() == 2,
        0 <= k < 2,
        0 <= b < 2048,
    ensures
        ({
            let part = carried(carries, i, k);
            let kept = device_memory::run(
                memory,
                prefix::carried_copies(
                    sources,
                    carries,
                    saved.tail,
                    window_bytes,
                    from,
                    end,
                    true,
                    SOURCE_COUNT as int,
                ),
            );
            let after = device_memory::run(
                kept,
                restore::restored_copies(
                    sources,
                    carries,
                    saved,
                    window_bytes,
                    to,
                    SOURCE_COUNT as int,
                ),
            );
            after(part.device, part.address + to * 2048 + b) == memory(
                part.device,
                part.address + from * 2048 + b,
            )
        }),
{
    let n = SOURCE_COUNT as int;
    let save = prefix::carried_copies(
        sources,
        carries,
        saved.tail,
        window_bytes,
        from,
        end,
        true,
        n,
    );
    let load = restore::restored_copies(sources, carries, saved, window_bytes, to, n);
    let kept = device_memory::run(memory, save);
    lemma_saved(sources, carries, saved.tail, window_bytes, from, end, n);
    lemma_restored(sources, carries, saved, window_bytes, to, n);
    lemma_moved_byte(
        sources,
        carries,
        saved.tail,
        window_bytes,
        from,
        true,
        save,
        memory,
        i,
        k,
        b,
    );
    lemma_moved_byte(
        sources,
        carries,
        saved.tail,
        window_bytes,
        to,
        false,
        load,
        kept,
        i,
        k,
        b,
    );
}

/// A prefix that ends on a group carries nothing.
pub proof fn law_even_prefix_carries_nothing(
    sources: Seq<CompressorState>,
    carries: Seq<Option<CarryBuffers>>,
    tail: DeviceBuffer,
    window_bytes: int,
    slot: int,
    end: u64,
    n: int,
)
    requires
        end % 2 == 0,
    ensures
        prefix::carried_copies(
            sources,
            carries,
            tail,
            window_bytes,
            slot,
            end,
            true,
            n,
        ).len() == 0,
    decreases n,
{
    if n > 0 {
        law_even_prefix_carries_nothing(sources, carries, tail, window_bytes, slot, end, n - 1);
    }
}

/// A tail has a place for each of the forty windows and then for the carried row of each
/// of the four sources, one behind the other, which together fill it.
pub proof fn law_prefix_parts_fill_the_tail(
    tail: DeviceBuffer,
    window_bytes: int,
    l: int,
    i: int,
)
    requires
        tail.wf(),
        0 <= window_bytes,
        tail.bytes == prefix::tail_bytes(window_bytes),
        0 <= l < 40,
        0 <= i < 4,
    ensures
        ({
            let window = prefix::window_part(tail, window_bytes, l);
            let next = prefix::window_part(tail, window_bytes, l + 1);
            let first = prefix::carry_part(tail, window_bytes, 0);
            let carry = prefix::carry_part(tail, window_bytes, i);
            let after = prefix::carry_part(tail, window_bytes, i + 1);
            &&& prefix::window_part(tail, window_bytes, 0).address == tail.address
            &&& window.device == tail.device && carry.device == tail.device
            &&& window.bytes == window_bytes
            &&& window.address + window.bytes == if l + 1 < 40 {
                next.address
            } else {
                first.address
            }
            &&& carry.bytes == 4096
            &&& carry.address + carry.bytes == if i + 1 < 4 {
                after.address as int
            } else {
                tail.address + tail.bytes
            }
        }),
{
    assert(l * window_bytes + window_bytes == (l + 1) * window_bytes) by (nonlinear_arith);
    assert((l + 1) * window_bytes <= 40 * window_bytes) by (nonlinear_arith)
        requires
            l + 1 <= 40,
            0 <= window_bytes,
    ;
    assert(0 <= l * window_bytes) by (nonlinear_arith)
        requires
            0 <= l,
            0 <= window_bytes,
    ;
}

/// A restored prefix reads what the request read when it was kept: every window ends
/// where it ended, and every committed row of every source is found on the page where
/// it was. Other slots read what they read before.
pub proof fn law_restored_prefix_reads_its_rows(
    saving: &BackboneCache,
    lease: CacheLease,
    saved: BackbonePrefix,
    window_bytes: usize,
    budget: usize,
    before: &BackboneCache,
    new: CacheLease,
    restored: &BackboneCache,
    layer: int,
    i: int,
    row: int,
    other: int,
)
    requires
        saving.inv(),
        before.inv(),
        restored.inv(),
        saving.prefix_error(lease, window_bytes, budget) is None,
        saving.is_prefix(lease, saved, saved.tail),
        restored.attached(before, new, &saved, CachePhase::Full),
        new.slot < before.requests@.len(),
        0 <= layer < 40,
        0 <= i < 4,
        0 <= row,
        (row + 1) * saving.sources@[i].step() <= saving.sources@[i].slots@[lease.slot as int].end,
        0 <= other < before.requests@.len(),
        other != new.slot,
    ensures
        ({
            let was = saving.sources@[i];
            let now = restored.sources@[i];
            let from = lease.slot as int;
            let to = new.slot as int;
            &&& restored.windows@[layer].slots@[to].end == saving.windows@[layer].slots@[from].end
            &&& restored.windows@[layer].slots@[other] == before.windows@[layer].slots@[other]
            &&& now.slots@[to].end == was.slots@[from].end
            &&& row < now.index.rows@[to]
            &&& row / 256 < now.index.pages@[to]@.len()
            &&& now.index.pages@[to]@[row / 256] == was.index.pages@[from]@[row / 256]
            &&& now.index.rows@[other] == before.sources@[i].index.rows@[other]
            &&& now.index.pages@[other]@ == before.sources@[i].index.pages@[other]@
        }),
{
    let from = lease.slot as int;
    let to = new.slot as int;
    let was = saving.sources@[i];
    let now = restored.sources@[i];
    assert(saving.is_source_prefix(i, from, saved.sources@[i]));
    assert(restored.source_attached(before, i, to, saved.sources@[i]));
    assert(restore::window_moved(
        &restored.windows@[layer],
        &before.windows@[layer],
        to,
        saved.windows@[layer].end,
    ));
    assert(saved.windows@[layer].end == saving.windows@[layer].slots@[from].end);
    assert(now.index.tables()[to] == now.index.pages@[to]@);
    assert(now.index.tables()[other] == now.index.pages@[other]@);
    assert(before.sources@[i].index.tables()[other] == before.sources@[i].index.pages@[other]@);
    assert(was.inv());
    let end = was.slots@[from].end as int;
    let step = was.step();
    assert(step == 1 || step == 2);
    assert(row < end / step) by {
        if step == 2 {
            assert((row + 1) * step == 2 * row + 2);
        } else {
            assert(row + 1 <= end) by {
                assert(step == 1 ==> (row + 1) * step == row + 1) by (nonlinear_arith);
            }
            assert(end / step == end);
        }
    }
    let request = saving.live(lease);
    assert(saving.leases_wf(from, &request));
    saving.lemma_retainable(&request, 4, i);
    assert(was.index.rows@[from] >= end / step);
    assert(was.index.pages@[from]@.len() >= source_cache::page_count(end / step));
    assert(saved.sources@[i].source.rows == end / step);
    assert(row / 256 < source_cache::page_count(end / step));
}

/// A window is restored from where it was kept, however many windows are restored, and
/// no two windows are kept in the same place.
pub proof fn law_windows_return_from_their_places(
    tail: DeviceBuffer,
    window_bytes: int,
    n: int,
    l: int,
    m: int,
)
    requires
        tail.wf(),
        0 <= window_bytes,
        prefix::tail_bytes(window_bytes) <= tail.bytes,
        0 <= n <= 40,
        0 <= l < m < n,
    ensures
        ({
            let kept = prefix::window_parts(tail, window_bytes, 40);
            let read = prefix::window_parts(tail, window_bytes, n);
            &&& kept.len() == 40 && read.len() == n
            &&& read[l] == kept[l]
            &&& read[l].bytes == window_bytes
            &&& read[l].disjoint(read[m])
            &&& tail.address <= read[l].address
            &&& read[m].address + read[m].bytes <= tail.address + tail.bytes
        }),
{
    assert(0 <= l * window_bytes && l * window_bytes + window_bytes <= m * window_bytes)
        by (nonlinear_arith)
        requires
            0 <= l < m,
            0 <= window_bytes,
    ;
    assert(m * window_bytes + window_bytes <= 40 * window_bytes) by (nonlinear_arith)
        requires
            m + 1 <= 40,
            0 <= window_bytes,
    ;
}

/// A restored encoder prefix replays exactly the window before its end: the encoder's
/// windows stand where the replay goes on, no position that a window still looks back to
/// lies before that, none further back is replayed, and the replay leads to the
/// encoder's pass over the rest of the prompt. The sources read every group of the
/// prefix on the page where it was kept, and no half group.
pub proof fn law_encoder_prefix_replays_its_window(
    before: &BackboneCache,
    restored: &BackboneCache,
    lease: CacheLease,
    saved: &BackbonePrefix,
    end: u64,
    prompt_end: u64,
    position: int,
    layer: int,
    i: int,
    row: int,
)
    requires
        before.inv(),
        restored.inv(),
        lease.slot < before.requests@.len(),
        before.encoder_frontier(lease, saved, end, prompt_end),
        restored.encoder_attached(before, lease, saved, end),
        0 <= position < end,
        0 <= layer < 40,
        0 <= i < 4,
        0 <= row,
        (row + 1) * before.sources@[i].step() <= end,
        end as int / before.sources@[i].step() <= 256 * saved.sources@[i].source.pages@.len(),
    ensures
        ({
            let pending = BackboneCache::encoder_pending(lease, end, prompt_end);
            let slot = lease.slot as int;
            let at = pending.phase.next_position(pending.end);
            let now = restored.sources@[i];
            &&& pending.lease == lease && pending.end == end
            &&& pending.phase.fits(end)
            &&& pending.phase.limit() == Some(end)
            &&& pending.phase.advanced(end, end) == (
                CachePhase::Encoder { target: prompt_end },
                end,
            )
            &&& layer < 20 ==> restored.windows@[layer].slots@[slot].end == at
            &&& layer >= 20 ==> restored.windows@[layer] == before.windows@[layer]
            &&& end - position <= 128 <==> at <= position
            &&& now.slots@[slot].end == end
            &&& end as int % now.step() == 0
            &&& row < now.index.rows@[slot]
            &&& row / 256 < now.index.pages@[slot]@.len()
            &&& now.index.pages@[slot]@[row / 256] == saved.sources@[i].source.pages@[row / 256]
        }),
{
    let slot = lease.slot as int;
    let now = restored.sources@[i];
    let step = before.sources@[i].step();
    assert(before.sources@[i].inv());
    assert(step == 1 || step == 2);
    assert(restored.source_trimmed(before, i, slot, saved.sources@[i], end));
    if layer < 20 {
        assert(restore::window_moved(
            &restored.windows@[layer],
            &before.windows@[layer],
            slot,
            BackboneCache::replay_start(end),
        ));
    }
    assert(now.index.tables()[slot] == now.index.pages@[slot]@);
    let end = end as int;
    assert(row < end / step) by {
        if step == 2 {
            assert((row + 1) * step == 2 * row + 2);
        } else {
            assert(step == 1 ==> (row + 1) * step == row + 1) by (nonlinear_arith);
            assert(end / step == end);
        }
    }
    assert(row / 256 < source_cache::page_count(end / step));
    assert(source_cache::page_count(end / step) <= saved.sources@[i].source.pages@.len());
}

} // verus!
