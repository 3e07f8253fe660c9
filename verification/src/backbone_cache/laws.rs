//! What holds of the bank across its operations.
use crate::backbone_cache::plan;
use crate::backbone_cache::plan::CacheBatch;
use crate::backbone_cache::prefix;
use crate::backbone_cache::prefix::BackbonePrefix;
use crate::backbone_cache::release;
use crate::backbone_cache::restore;
use crate::backbone_cache::restore::PendingRestore;
use crate::backbone_cache::transaction;
use crate::backbone_cache::{BackboneCache, CacheLease, Request, LAYERS, SOURCE_COUNT};
use crate::cache_phase;
use crate::cache_phase::CachePhase;
use crate::compressor::commit;
use crate::compressor::wave::{CompressorWave, Prepared};
use crate::compressor::Slot;
use crate::window;
use crate::window::{WindowChunk, WindowSlot, WindowWave};
use vstd::prelude::*;

verus! {

/// Two banks agree on everything that a request's history at `slot` depends on.
pub open spec fn same_at(a: &BackboneCache, b: &BackboneCache, slot: int) -> bool {
    &&& a.requests@[slot] == b.requests@[slot]
    &&& forall|l: int|
        0 <= l < LAYERS ==> {
            &&& (#[trigger] a.windows@[l]).owner == b.windows@[l].owner
            &&& a.windows@[l].slots@.len() == b.windows@[l].slots@.len()
            &&& a.windows@[l].slots@[slot] == b.windows@[l].slots@[slot]
        }
    &&& forall|i: int|
        0 <= i < SOURCE_COUNT ==> {
            &&& (#[trigger] a.sources@[i]).same_identity(&b.sources@[i])
            &&& a.sources@[i].slots@[slot] == b.sources@[i].slots@[slot]
        }
}

proof fn lemma_same_windows(a: &BackboneCache, b: &BackboneCache, slot: int, request: &Request, n: int)
    requires
        b.inv(),
        b.leases_wf(slot, request),
        same_at(a, b, slot),
        0 <= n <= 40,
    ensures
        a.first_window_fault(request, n) == b.first_window_fault(request, n),
    decreases n,
{
    if n > 0 {
        lemma_same_windows(a, b, slot, request, n - 1);
        assert(a.windows@[n - 1].owner == b.windows@[n - 1].owner);
        assert(request.windows@[n - 1].slot == slot);
    }
}

proof fn lemma_same_sources(a: &BackboneCache, b: &BackboneCache, slot: int, request: &Request, n: int)
    requires
        b.inv(),
        b.leases_wf(slot, request),
        same_at(a, b, slot),
        0 <= n <= 4,
    ensures
        a.first_source_fault(request, n) == b.first_source_fault(request, n),
    decreases n,
{
    if n > 0 {
        lemma_same_sources(a, b, slot, request, n - 1);
        assert(a.sources@[n - 1].same_identity(&b.sources@[n - 1]));
        assert(request.sources@[n - 1].slot == slot);
    }
}

pub proof fn lemma_same_history(a: &BackboneCache, b: &BackboneCache, slot: int, request: &Request)
    requires
        b.inv(),
        b.leases_wf(slot, request),
        same_at(a, b, slot),
    ensures
        a.component_error(request) == b.component_error(request),
{
    lemma_same_windows(a, b, slot, request, 40);
    lemma_same_sources(a, b, slot, request, 4);
}

/// A new request starts with an empty history in every component.
pub proof fn law_new_request_starts_empty(
    before: &BackboneCache,
    after: &BackboneCache,
    slot: int,
    id: u64,
    lease: CacheLease,
)
    requires
        before.inv(),
        after.inv(),
        0 <= slot < before.requests@.len(),
        before.admission_error(slot, id) is None,
        after.begun(before, slot, id),
        lease == (CacheLease {
            owner: before.owner,
            slot: slot as usize,
            generation: (before.generations@[slot] + 1) as u64,
        }),
    ensures
        after.history_error(lease) is None,
        after.live(lease).id == id,
        after.live(lease).end == 0,
{
    let request = after.requests@[slot]->Some_0;
    lemma_fresh_windows(before, after, slot, id, &request, 40);
    lemma_fresh_sources(before, after, slot, id, &request, 4);
    assert(!after.snapshotting(lease));
}

proof fn lemma_fresh_windows(
    before: &BackboneCache,
    after: &BackboneCache,
    slot: int,
    id: u64,
    request: &Request,
    n: int,
)
    requires
        after.begun(before, slot, id),
        before.inv(),
        after.inv(),
        0 <= slot < before.requests@.len(),
        *request == after.requests@[slot]->Some_0,
        0 <= n <= 40,
    ensures
        after.first_window_fault(request, n) is None,
    decreases n,
{
    if n > 0 {
        lemma_fresh_windows(before, after, slot, id, request, n - 1);
        assert(after.window_claimed(before, n - 1, slot, id, request.windows@[n - 1]));
    }
}

proof fn lemma_fresh_sources(
    before: &BackboneCache,
    after: &BackboneCache,
    slot: int,
    id: u64,
    request: &Request,
    n: int,
)
    requires
        after.begun(before, slot, id),
        before.inv(),
        after.inv(),
        0 <= slot < before.requests@.len(),
        *request == after.requests@[slot]->Some_0,
        0 <= n <= 4,
    ensures
        after.first_source_fault(request, n) is None,
    decreases n,
{
    if n > 0 {
        lemma_fresh_sources(before, after, slot, id, request, n - 1);
        assert(after.source_claimed(before, n - 1, slot, id, request.sources@[n - 1]));
    }
}

proof fn lemma_unused_windows_admit(bank: &BackboneCache, first: int, slots: int, slot: int, id: u64, n: int)
    requires
        bank.unused(first, slots),
        0 <= slot < slots,
        0 <= n <= 40,
    ensures
        bank.first_window_refusal(slot, id, n) is None,
    decreases n,
{
    if n > 0 {
        lemma_unused_windows_admit(bank, first, slots, slot, id, n - 1);
        assert(bank.windows@[n - 1].slots@.len() == slots);
        assert(!bank.windows@[n - 1].serves(id));
    }
}

proof fn lemma_unused_sources_admit(bank: &BackboneCache, first: int, slots: int, slot: int, id: u64, n: int)
    requires
        bank.unused(first, slots),
        0 <= slot < slots,
        0 <= n <= 4,
    ensures
        bank.first_source_refusal(slot, id, n) is None,
    decreases n,
{
    if n > 0 {
        lemma_unused_sources_admit(bank, first, slots, slot, id, n - 1);
        assert(bank.sources@[n - 1].slot_count == slots);
        assert(!bank.sources@[n - 1].serves(id));
    }
}

/// A new bank admits any request at any of its slots.
pub proof fn law_new_bank_admits_requests(
    bank: &BackboneCache,
    first: int,
    slots: int,
    slot: int,
    id: u64,
)
    requires
        bank.unused(first, slots),
        0 <= slot < slots,
    ensures
        bank.admission_error(slot, id) is None,
        bank.refusal(slot, id) is None,
{
    lemma_unused_windows_admit(bank, first, slots, slot, id, 40);
    lemma_unused_sources_admit(bank, first, slots, slot, id, 4);
    assert(bank.generations@[slot] == 0);
    assert(!bank.serves(id));
}

/// Admitting a request changes no other request's history.
pub proof fn law_admission_spares_other_requests(
    before: &BackboneCache,
    after: &BackboneCache,
    slot: int,
    id: u64,
    lease: CacheLease,
)
    requires
        before.inv(),
        after.inv(),
        0 <= slot < before.requests@.len(),
        !before.poisoned,
        after.begun(before, slot, id),
        lease.slot != slot,
    ensures
        after.history_error(lease) == before.history_error(lease),
        before.identity_error(lease) is None ==> after.live(lease) == before.live(lease),
{
    let s = lease.slot as int;
    assert(after.snapshotting(lease) == before.snapshotting(lease));
    if before.request_error(lease) is None {
        assert(after.requests@[s] == before.requests@[s]);
        let request = before.live(lease);
        let new = after.requests@[slot]->Some_0;
        assert(before.leases_wf(s, &request));
        assert(same_at(after, before, s)) by {
            assert forall|l: int| 0 <= l < LAYERS implies {
                &&& (#[trigger] after.windows@[l]).owner == before.windows@[l].owner
                &&& after.windows@[l].slots@.len() == before.windows@[l].slots@.len()
                &&& after.windows@[l].slots@[s] == before.windows@[l].slots@[s]
            } by {
                assert(after.window_claimed(before, l, slot, id, new.windows@[l]));
            }
            assert forall|i: int| 0 <= i < SOURCE_COUNT implies {
                &&& (#[trigger] after.sources@[i]).same_identity(&before.sources@[i])
                &&& after.sources@[i].slots@[s] == before.sources@[i].slots@[s]
            } by {
                assert(after.source_claimed(before, i, slot, id, new.sources@[i]));
            }
        }
        lemma_same_history(after, before, s, &request);
    } else if s < before.requests@.len() {
        assert(after.requests@[s] == before.requests@[s]);
    }
}

/// Releasing requests changes no other request's history.
pub proof fn law_release_spares_other_requests(
    before: &BackboneCache,
    after: &BackboneCache,
    leases: Seq<CacheLease>,
    lease: CacheLease,
)
    requires
        before.inv(),
        after.inv(),
        after.all_ended(before, leases, leases.len() as int),
        !release::names_slot(leases, leases.len() as int, lease.slot as int),
    ensures
        after.history_error(lease) == before.history_error(lease),
        before.identity_error(lease) is None ==> after.live(lease) == before.live(lease),
{
    let s = lease.slot as int;
    assert(after.snapshotting(lease) == before.snapshotting(lease));
    if before.request_error(lease) is None {
        assert(after.requests@[s] == before.requests@[s]);
        let request = before.live(lease);
        assert(before.leases_wf(s, &request));
        assert(same_at(after, before, s)) by {
            assert forall|l: int| 0 <= l < LAYERS implies {
                &&& (#[trigger] after.windows@[l]).owner == before.windows@[l].owner
                &&& after.windows@[l].slots@.len() == before.windows@[l].slots@.len()
                &&& after.windows@[l].slots@[s] == before.windows@[l].slots@[s]
            } by {
                assert(after.windows@[l].same_rings(&before.windows@[l]));
            }
            assert forall|i: int| 0 <= i < SOURCE_COUNT implies {
                &&& (#[trigger] after.sources@[i]).same_identity(&before.sources@[i])
                &&& after.sources@[i].slots@[s] == before.sources@[i].slots@[s]
            } by {
                assert(after.sources@[i].slots@[s] == before.sources@[i].slots@[s]);
            }
        }
        lemma_same_history(after, before, s, &request);
    } else if s < before.requests@.len() {
        assert(after.requests@[s] == before.requests@[s]);
    }
}

/// The batch's component leases are those of its live requests, as planning
/// makes them.
pub open spec fn batch_holds(bank: &BackboneCache, batch: &CacheBatch) -> bool {
    forall|r: int|
        0 <= r < batch.requests@.len() ==> {
            let planned = #[trigger] batch.requests@[r];
            let live = bank.live(planned.work.lease);
            planned.windows@ == live.windows@ && planned.sources@ == live.sources@
        }
}

/// Committing chunks of different slots moves each slot by its own chunk only.
proof fn lemma_moved_at(
    slots: Seq<WindowSlot>,
    chunks: Seq<WindowChunk>,
    accepted: Seq<u32>,
    n: int,
    slot: int,
)
    requires
        0 <= n <= chunks.len(),
        0 <= slot < slots.len(),
        forall|i: int| 0 <= i < chunks.len() ==> (#[trigger] chunks[i]).lease.slot < slots.len(),
        forall|i: int, j: int|
            0 <= i < j < chunks.len() ==> (#[trigger] chunks[i]).lease.slot != (
            #[trigger] chunks[j]).lease.slot,
    ensures
        window::moved(slots, chunks, accepted, n).len() == slots.len(),
        (forall|i: int| 0 <= i < n ==> (#[trigger] chunks[i]).lease.slot != slot) ==> window::moved(
            slots,
            chunks,
            accepted,
            n,
        )[slot] == slots[slot],
        forall|i: int|
            0 <= i < n && (#[trigger] chunks[i]).lease.slot == slot ==> window::moved(
                slots,
                chunks,
                accepted,
                n,
            )[slot] == (WindowSlot {
                end: (chunks[i].position + accepted[i]) as u64,
                ..slots[slot]
            }),
    decreases n,
{
    if n > 0 {
        lemma_moved_at(slots, chunks, accepted, n - 1, slot);
    }
}

proof fn lemma_committed_at(
    slots: Seq<Slot>,
    p: &Prepared,
    accepted: Seq<u32>,
    n: int,
    slot: int,
)
    requires
        0 <= n <= p.chunks@.len(),
        0 <= slot < slots.len(),
        forall|i: int|
            0 <= i < p.chunks@.len() ==> (#[trigger] p.chunks@[i]).lease.slot < slots.len(),
        forall|i: int, j: int|
            0 <= i < j < p.chunks@.len() ==> (#[trigger] p.chunks@[i]).lease.slot != (
            #[trigger] p.chunks@[j]).lease.slot,
    ensures
        commit::committed_slots(slots, p, accepted, n).len() == slots.len(),
        (forall|i: int| 0 <= i < n ==> (#[trigger] p.chunks@[i]).lease.slot != slot)
            ==> commit::committed_slots(slots, p, accepted, n)[slot] == slots[slot],
        forall|i: int|
            0 <= i < n && (#[trigger] p.chunks@[i]).lease.slot == slot ==> {
                let now = commit::committed_slots(slots, p, accepted, n)[slot];
                &&& now.end == (p.chunks@[i].position + accepted[i]) as u64
                &&& now.request == slots[slot].request
                &&& now.generation == slots[slot].generation
            },
    decreases n,
{
    if n > 0 {
        lemma_committed_at(slots, p, accepted, n - 1, slot);
    }
}

/// Nothing of the batch has been published ahead of the commit.
pub open spec fn unpublished(bank: &BackboneCache, batch: &CacheBatch) -> bool {
    forall|r: int|
        0 <= r < batch.requests@.len() ==> bank.live(
            (#[trigger] batch.requests@[r]).work.lease,
        ).publication@.len() == 0
}

proof fn lemma_owes_all(bank: &BackboneCache, batch: &CacheBatch, l: int, i: int)
    requires
        batch.wf(),
        unpublished(bank, batch),
        0 <= l < 40,
        0 <= i < 4,
    ensures
        bank.owes_window(batch, l) == batch.stage.has_window(l),
        bank.owes_source(batch, i) == (i < batch.stage.sources()),
{
    assert(bank.live(batch.requests@[0].work.lease).publication@.len() == 0);
    assert(bank.batch_masks(batch) == (0u64, 0u8));
    let shift = 1u64 << (l as u64);
    assert(0u64 & shift == 0) by (bit_vector);
    let small = 1u8 << (i as u8);
    assert(0u8 & small == 0) by (bit_vector);
}

/// What a commit that the bank has accepted leaves of one slot.
proof fn lemma_commit_at(
    before: &BackboneCache,
    after: &BackboneCache,
    batch: &CacheBatch,
    windows: Seq<WindowWave>,
    windows_were: Seq<WindowWave>,
    sources: Seq<CompressorWave>,
    sources_were: Seq<CompressorWave>,
    accepted: Seq<u32>,
    slot: int,
    l: int,
    i: int,
)
    requires
        before.inv(),
        batch.wf(),
        batch_holds(before, batch),
        unpublished(before, batch),
        before.lanes_fit(windows_were, sources_were),
        before.commit_error(batch, windows_were, sources_were, accepted) is None,
        forall|k: int|
            0 <= k < SOURCE_COUNT && #[trigger] before.owes_source(batch, k)
                ==> sources_were[k].pending_commit is Some,
        after.committed(
            before,
            batch,
            windows,
            windows_were,
            sources,
            sources_were,
            accepted,
        ),
        0 <= slot < before.requests@.len(),
        0 <= l < 40,
        0 <= i < 4,
    ensures
        after.windows@[l].owner == before.windows@[l].owner,
        after.windows@[l].slots@.len() == before.windows@[l].slots@.len(),
        after.sources@[i].same_identity(&before.sources@[i]),
        !transaction::batch_names(batch, batch.requests@.len() as int, slot)
            || !batch.stage.has_window(l) ==> after.windows@[l].slots@[slot]
            == before.windows@[l].slots@[slot],
        !transaction::batch_names(batch, batch.requests@.len() as int, slot) || i
            >= batch.stage.sources() ==> after.sources@[i].slots@[slot]
            == before.sources@[i].slots@[slot],
        forall|r: int|
            0 <= r < batch.requests@.len() && (#[trigger] batch.requests@[r]).work.lease.slot == slot
                && batch.stage.has_window(l) ==> after.windows@[l].slots@[slot] == (WindowSlot {
                end: (batch.requests@[r].position + accepted[r]) as u64,
                ..before.windows@[l].slots@[slot]
            }),
        forall|r: int|
            0 <= r < batch.requests@.len() && (#[trigger] batch.requests@[r]).work.lease.slot == slot
                && i < batch.stage.sources() ==> {
                let now = after.sources@[i].slots@[slot];
                let was = before.sources@[i].slots@[slot];
                &&& now.end == (batch.requests@[r].position + accepted[r]) as u64
                &&& now.request == was.request
                &&& now.generation == was.generation
            },
{
    let n = batch.requests@.len() as int;
    lemma_owes_all(before, batch, l, i);
    assert(after.window_published(before, batch, windows, windows_were, accepted, l));
    assert(after.source_published(before, batch, sources, sources_were, accepted, i));
    assert forall|r: int| 0 <= r < n implies {
        let planned = #[trigger] batch.requests@[r];
        let s = planned.work.lease.slot;
        &&& s < before.requests@.len()
        &&& planned.windows@[l].slot == s
        &&& planned.sources@[i].slot == s
    } by {
        before.lemma_batch_good(batch, n, r);
        let planned = batch.requests@[r];
        assert(before.leases_wf(
            planned.work.lease.slot as int,
            &before.live(planned.work.lease),
        ));
    }
    assert forall|a: int, b: int| 0 <= a < b < n implies (
    #[trigger] batch.requests@[a]).work.lease.slot != (
    #[trigger] batch.requests@[b]).work.lease.slot by {
        before.lemma_batch_good(batch, n, a);
        before.lemma_batch_good(batch, n, b);
    }
    if batch.stage.has_window(l) {
        before.lemma_window_wave_good(batch, windows_were, 40, l);
        let chunks = windows_were[l].prepared->Some_0.chunks@;
        assert(chunks == batch.window_chunks_of(l));
        assert forall|a: int| 0 <= a < chunks.len() implies (#[trigger] chunks[a]).lease.slot
            == batch.requests@[a].work.lease.slot by {
            assert(chunks[a] == plan::window_chunk(batch.requests@[a], l));
        }
        lemma_moved_at(before.windows@[l].slots@, chunks, accepted, n, slot);
        assert forall|r: int|
            0 <= r < n && (#[trigger] batch.requests@[r]).work.lease.slot == slot implies after.windows@[l].slots@[slot]
            == (WindowSlot {
            end: (batch.requests@[r].position + accepted[r]) as u64,
            ..before.windows@[l].slots@[slot]
        }) by {
            assert(chunks[r].lease.slot == slot);
        }
    }
    if i < batch.stage.sources() {
        before.lemma_source_wave_good(batch, sources_were, 4, i);
        assert(before.owes_source(batch, i));
        let p = sources_were[i].pending_commit->Some_0.prepared;
        assert(p.chunks@ == batch.source_chunks_of(i));
        assert forall|a: int| 0 <= a < p.chunks@.len() implies (#[trigger] p.chunks@[a]).lease.slot
            == batch.requests@[a].work.lease.slot by {
            assert(p.chunks@[a] == plan::source_chunk(batch.requests@[a], i));
        }
        lemma_committed_at(before.sources@[i].slots@, &p, accepted, n, slot);
        assert forall|r: int|
            0 <= r < n && (#[trigger] batch.requests@[r]).work.lease.slot == slot implies {
            let now = after.sources@[i].slots@[slot];
            let was = before.sources@[i].slots@[slot];
            &&& now.end == (batch.requests@[r].position + accepted[r]) as u64
            &&& now.request == was.request
            &&& now.generation == was.generation
        } by {
            assert(p.chunks@[r].lease.slot == slot);
        }
    }
    if !transaction::batch_names(batch, n, slot) {
        assert forall|r: int| 0 <= r < n implies (#[trigger] batch.requests@[r]).work.lease.slot
            != slot by {}
    }
}

/// Two banks agree on the rows, pages and pending writes at `slot`.
pub open spec fn same_rows_at(a: &BackboneCache, b: &BackboneCache, slot: int) -> bool {
    &&& forall|l: int|
        0 <= l < LAYERS ==> (#[trigger] a.windows@[l]).slots@[slot] == b.windows@[l].slots@[slot]
            && a.windows@[l].writing@[slot] == b.windows@[l].writing@[slot]
    &&& forall|i: int|
        0 <= i < SOURCE_COUNT ==> {
            &&& (#[trigger] a.sources@[i]).slots@[slot] == b.sources@[i].slots@[slot]
            &&& a.sources@[i].index.pages@[slot]@ == b.sources@[i].index.pages@[slot]@
            &&& a.sources@[i].index.rows@[slot] == b.sources@[i].index.rows@[slot]
            &&& a.sources@[i].index.writing@[slot] == b.sources@[i].index.writing@[slot]
        }
}

/// A commit leaves requests outside the batch untouched: their books, histories,
/// rows, pages and pending writes are as they were.
pub proof fn law_commit_spares_other_requests(
    before: &BackboneCache,
    after: &BackboneCache,
    batch: &CacheBatch,
    windows: Seq<WindowWave>,
    windows_were: Seq<WindowWave>,
    sources: Seq<CompressorWave>,
    sources_were: Seq<CompressorWave>,
    accepted: Seq<u32>,
    lease: CacheLease,
)
    requires
        before.inv(),
        after.inv(),
        batch.wf(),
        batch_holds(before, batch),
        before.lanes_fit(windows_were, sources_were),
        before.commit_error(batch, windows_were, sources_were, accepted) is None,
        after.committed(
            before,
            batch,
            windows,
            windows_were,
            sources,
            sources_were,
            accepted,
        ),
        !transaction::batch_names(batch, batch.requests@.len() as int, lease.slot as int),
    ensures
        after.history_error(lease) == before.history_error(lease),
        before.identity_error(lease) is None ==> after.live(lease) == before.live(lease),
        lease.slot < before.requests@.len() ==> same_at(after, before, lease.slot as int)
            && same_rows_at(after, before, lease.slot as int),
{
    let s = lease.slot as int;
    assert(after.snapshotting(lease) == before.snapshotting(lease));
    if s < before.requests@.len() {
        assert(after.requests@[s] == before.requests@[s]);
        assert forall|l: int| 0 <= l < LAYERS implies {
            &&& (#[trigger] after.windows@[l]).owner == before.windows@[l].owner
            &&& after.windows@[l].slots@[s] == before.windows@[l].slots@[s]
            &&& after.windows@[l].writing@[s] == before.windows@[l].writing@[s]
        } by {
            before.lemma_not_reached(batch, windows_were, sources_were, accepted, l, 0, s);
            assert(after.window_published(before, batch, windows, windows_were, accepted, l));
            if before.owes_window(batch, l) {
                before.lemma_window_wave_good(batch, windows_were, 40, l);
                after.lemma_window_left(
                    before,
                    after,
                    batch,
                    windows,
                    windows_were,
                    accepted,
                    l,
                    s,
                );
                assert(after.window_left(before, batch, windows_were, l, s));
            }
        }
        assert forall|i: int| 0 <= i < SOURCE_COUNT implies {
            &&& (#[trigger] after.sources@[i]).same_identity(&before.sources@[i])
            &&& after.sources@[i].slots@[s] == before.sources@[i].slots@[s]
            &&& after.sources@[i].index.pages@[s]@ == before.sources@[i].index.pages@[s]@
            &&& after.sources@[i].index.rows@[s] == before.sources@[i].index.rows@[s]
            &&& after.sources@[i].index.writing@[s] == before.sources@[i].index.writing@[s]
        } by {
            before.lemma_not_reached(batch, windows_were, sources_were, accepted, 0, i, s);
            assert(after.source_published(before, batch, sources, sources_were, accepted, i));
            assert(before.lane_fits(i, &sources_were[i]));
            if before.owes_source(batch, i) {
                after.lemma_source_left(
                    before,
                    after,
                    batch,
                    sources,
                    sources_were,
                    accepted,
                    i,
                    s,
                );
                assert(after.source_left(before, batch, sources_were, i, s));
            }
        }
    }
    if before.request_error(lease) is None {
        let request = before.live(lease);
        assert(before.leases_wf(s, &request));
        assert(same_at(after, before, s));
        lemma_same_history(after, before, s, &request);
    }
}

/// The lane has queued nothing but what the batch's commit takes.
pub open spec fn queued_for(
    bank: &BackboneCache,
    batch: &CacheBatch,
    windows: Seq<WindowWave>,
    sources: Seq<CompressorWave>,
) -> bool {
    &&& forall|l: int|
        0 <= l < LAYERS && (#[trigger] windows[l]).pending is Some ==> bank.owes_window(batch, l)
    &&& forall|i: int|
        0 <= i < SOURCE_COUNT && (#[trigger] sources[i]).pending_commit is Some
            ==> bank.owes_source(batch, i)
}

/// A commit that fails ends the batch's requests only: all others keep their books,
/// histories, rows, pages and pending writes, and retained prefixes their pages.
pub proof fn law_failed_commit_spares_other_requests(
    before: &BackboneCache,
    after: &BackboneCache,
    batch: &CacheBatch,
    windows: Seq<WindowWave>,
    sources: Seq<CompressorWave>,
    accepted: Seq<u32>,
    lease: CacheLease,
)
    requires
        before.inv(),
        after.inv(),
        batch.wf(),
        batch_holds(before, batch),
        before.commit_error(batch, windows, sources, accepted) is None,
        queued_for(before, batch, windows, sources),
        after.gave_up(before, batch, windows, sources),
        !transaction::batch_names(batch, batch.requests@.len() as int, lease.slot as int),
    ensures
        after.history_error(lease) == before.history_error(lease),
        before.identity_error(lease) is None ==> after.live(lease) == before.live(lease),
        lease.slot < before.requests@.len() ==> same_at(after, before, lease.slot as int)
            && same_rows_at(after, before, lease.slot as int),
        forall|i: int, page: u32|
            0 <= i < SOURCE_COUNT && page < before.sources@[i].index.pool.references@.len()
                ==> after.sources@[i].index.retained(page)
                == #[trigger] before.sources@[i].index.retained(page),
{
    let s = lease.slot as int;
    assert(after.snapshotting(lease) == before.snapshotting(lease));
    assert forall|i: int, page: u32|
        0 <= i < SOURCE_COUNT && page < before.sources@[i].index.pool.references@.len() implies after.sources@[i].index.retained(
        page,
    ) == #[trigger] before.sources@[i].index.retained(page) by {
        assert(after.sources@[i].same_identity(&before.sources@[i]));
    }
    if s < before.requests@.len() {
        assert(after.requests@[s] == before.requests@[s]);
        assert forall|l: int| 0 <= l < LAYERS implies {
            &&& (#[trigger] after.windows@[l]).owner == before.windows@[l].owner
            &&& after.windows@[l].slots@[s] == before.windows@[l].slots@[s]
            &&& after.windows@[l].writing@[s] == before.windows@[l].writing@[s]
        } by {
            before.lemma_not_reached(batch, windows, sources, accepted, l, 0, s);
            assert(windows[l].pending is Some ==> before.owes_window(batch, l));
            assert(after.window_left(before, batch, windows, l, s));
        }
        assert forall|i: int| 0 <= i < SOURCE_COUNT implies {
            &&& (#[trigger] after.sources@[i]).same_identity(&before.sources@[i])
            &&& after.sources@[i].slots@[s] == before.sources@[i].slots@[s]
            &&& after.sources@[i].index.pages@[s]@ == before.sources@[i].index.pages@[s]@
            &&& after.sources@[i].index.rows@[s] == before.sources@[i].index.rows@[s]
            &&& after.sources@[i].index.writing@[s] == before.sources@[i].index.writing@[s]
        } by {
            before.lemma_not_reached(batch, windows, sources, accepted, 0, i, s);
            assert(sources[i].pending_commit is Some ==> before.owes_source(batch, i));
            assert(after.source_left(before, batch, sources, i, s));
        }
    }
    if before.request_error(lease) is None {
        let request = before.live(lease);
        assert(before.leases_wf(s, &request));
        assert(same_at(after, before, s));
        lemma_same_history(after, before, s, &request);
    }
}

/// A commit leaves all components of a participating request in step: the bank
/// finds its history good and at the accepted frontier.
pub proof fn law_commit_keeps_components_in_step(
    before: &BackboneCache,
    after: &BackboneCache,
    batch: &CacheBatch,
    windows: Seq<WindowWave>,
    windows_were: Seq<WindowWave>,
    sources: Seq<CompressorWave>,
    sources_were: Seq<CompressorWave>,
    accepted: Seq<u32>,
    r: int,
)
    requires
        before.inv(),
        after.inv(),
        batch.wf(),
        !batch.reserved,
        batch_holds(before, batch),
        unpublished(before, batch),
        before.lanes_fit(windows_were, sources_were),
        before.commit_error(batch, windows_were, sources_were, accepted) is None,
        forall|k: int|
            0 <= k < SOURCE_COUNT && #[trigger] before.owes_source(batch, k)
                ==> sources_were[k].pending_commit is Some,
        after.committed(
            before,
            batch,
            windows,
            windows_were,
            sources,
            sources_were,
            accepted,
        ),
        0 <= r < batch.requests@.len(),
        before.live(batch.requests@[r].work.lease).phase.fits(
            before.live(batch.requests@[r].work.lease).end,
        ),
    ensures
        after.history_error(batch.requests@[r].work.lease) is None,
        after.live(batch.requests@[r].work.lease).phase.next_position(
            after.live(batch.requests@[r].work.lease).end,
        ) == batch.requests@[r].position + accepted[r] || after.live(
            batch.requests@[r].work.lease,
        ).phase.stage_of() != batch.stage,
{
    let planned = batch.requests@[r];
    let lease = planned.work.lease;
    let slot = lease.slot as int;
    let n = batch.requests@.len() as int;
    before.lemma_batch_good(batch, n, r);
    BackboneCache::lemma_accepted(batch, accepted, n, r);
    let was = before.live(lease);
    let now = after.live(lease);
    let to = (planned.position + accepted[r]) as u64;
    assert(before.leases_wf(slot, &was));
    assert(transaction::request_advanced(&now, &was, to));
    assert(was.publication@.len() == 0);
    assert(now.publication@.len() == 0);
    assert(after.snapshotting(lease) == before.snapshotting(lease));
    assert forall|l: int| 0 <= l < 40 implies #[trigger] after.window_fault(&now, l) is None by {
        before.lemma_history(&was, l, 0);
        lemma_commit_at(
            before,
            after,
            batch,
            windows,
            windows_were,
            sources,
            sources_were,
            accepted,
            slot,
            l,
            0,
        );
        cache_phase::law_windows_follow_their_stage(was.phase, was.end, to, l);
    }
    assert forall|i: int| 0 <= i < 4 implies #[trigger] after.source_fault(&now, i) is None by {
        before.lemma_history(&was, 0, i);
        lemma_commit_at(
            before,
            after,
            batch,
            windows,
            windows_were,
            sources,
            sources_were,
            accepted,
            slot,
            0,
            i,
        );
    }
    lemma_no_fault(after, &now, 40, 4);
}

proof fn lemma_no_fault(bank: &BackboneCache, request: &Request, n: int, m: int)
    requires
        0 <= n <= 40,
        0 <= m <= 4,
        forall|l: int| 0 <= l < 40 ==> #[trigger] bank.window_fault(request, l) is None,
        forall|i: int| 0 <= i < 4 ==> #[trigger] bank.source_fault(request, i) is None,
    ensures
        bank.first_window_fault(request, n) is None,
        bank.first_source_fault(request, m) is None,
    decreases n + m,
{
    if n > 0 {
        lemma_no_fault(bank, request, n - 1, m);
        assert(bank.window_fault(request, n - 1) is None);
    } else if m > 0 {
        lemma_no_fault(bank, request, n, m - 1);
        assert(bank.source_fault(request, m - 1) is None);
    }
}

/// The bank's components are those of `other`.
pub open spec fn same_components(bank: &BackboneCache, other: &BackboneCache) -> bool {
    &&& bank.owner == other.owner
    &&& forall|l: int|
        0 <= l < LAYERS ==> (#[trigger] bank.windows@[l]).owner == other.windows@[l].owner
    &&& forall|i: int|
        0 <= i < SOURCE_COUNT ==> {
            &&& (#[trigger] bank.sources@[i]).same_identity(&other.sources@[i])
            &&& bank.sources@[i].index.same_shape(&other.sources@[i].index)
        }
}

/// A retained prefix gives a new request what it kept: the restoration is not
/// refused, every component then stands at the saved frontier, and the bank finds
/// the history good.
pub proof fn law_restored_prefix_gives_back_its_frontier(
    saving: &BackboneCache,
    lease: CacheLease,
    kept: BackbonePrefix,
    window_bytes: usize,
    budget: usize,
    before: &BackboneCache,
    fresh: &BackboneCache,
    slot: int,
    id: u64,
    new: CacheLease,
    attached: &BackboneCache,
    after: &BackboneCache,
)
    requires
        saving.inv(),
        saving.prefix_error(lease, window_bytes, budget) is None,
        saving.is_prefix(lease, kept, kept.tail),
        before.inv(),
        fresh.inv(),
        after.inv(),
        0 <= slot < before.requests@.len(),
        fresh.begun(before, slot, id),
        same_components(fresh, saving),
        fresh.request_error(new) is None,
        new.slot == slot,
        attached.attached(fresh, new, &kept, CachePhase::Full),
        after.resumed(
            attached,
            PendingRestore { lease: new, end: kept.end, phase: CachePhase::Full },
        ),
    ensures
        fresh.retained_restore_error(new, &kept, CachePhase::Full, window_bytes as int) is None,
        after.history_error(new) is None,
        after.live(new).end == saving.live(lease).end,
{
    let request = fresh.live(new);
    let saved = saving.live(lease);
    let at = lease.slot as int;
    assert(saving.leases_wf(at, &saved));
    assert(fresh.leases_wf(slot, &request));
    assert forall|l: int| 0 <= l < 40 implies (#[trigger] fresh.windows@[l]).restore_error(
        request.windows@[l],
        kept.windows@[l],
    ) is None by {
        assert(fresh.window_claimed(before, l, slot, id, request.windows@[l]));
        assert(kept.windows@[l].owner == saving.windows@[l].owner);
    }
    assert forall|i: int| 0 <= i < 4 implies (#[trigger] fresh.sources@[i]).restore_error(
        request.sources@[i],
        &kept.sources@[i],
        prefix::carry_part(kept.tail, window_bytes as int, i),
    ) is None by {
        assert(fresh.source_claimed(before, i, slot, id, request.sources@[i]));
        assert(saving.is_source_prefix(i, at, kept.sources@[i]));
        assert(fresh.sources@[i].same_identity(&saving.sources@[i]));
        assert(before.sources@[i].slots@[slot].request is None);
        assert(before.sources@[i].inv());
        assert(before.sources@[i].index.pages@[slot]@.len() == 0);
        assert(saving.sources@[i].inv());
        let table = saving.sources@[i].index.pages@[at]@;
        assert(table.len() <= saving.sources@[i].index.stride);
        saving.lemma_history(&saved, 0, i);
        saving.lemma_retainable(&saved, 4, i);
    }
    lemma_restorable(fresh, &request, &kept, window_bytes as int, 40, 4);
    let now = after.live(new);
    assert(after.snapshotting(new) == fresh.snapshotting(new));
    assert forall|l: int| 0 <= l < 40 implies #[trigger] after.window_fault(&now, l) is None by {
        assert(fresh.window_claimed(before, l, slot, id, request.windows@[l]));
        assert(restore::window_moved(
            &attached.windows@[l],
            &fresh.windows@[l],
            slot,
            kept.windows@[l].end,
        ));
        saving.lemma_history(&saved, l, 0);
        assert(saved.window_end(l) == saved.end);
        assert(now.window_end(l) == now.end);
    }
    assert forall|i: int| 0 <= i < 4 implies #[trigger] after.source_fault(&now, i) is None by {
        assert(fresh.source_claimed(before, i, slot, id, request.sources@[i]));
        assert(attached.source_attached(fresh, i, slot, kept.sources@[i]));
        assert(saving.is_source_prefix(i, at, kept.sources@[i]));
        saving.lemma_history(&saved, 0, i);
        assert(saved.source_end(i) == saved.end);
        assert(now.source_end(i) == now.end);
        assert(fresh.sources@[i].inv());
    }
    lemma_no_fault(after, &now, 40, 4);
}

proof fn lemma_restorable(
    bank: &BackboneCache,
    request: &Request,
    kept: &BackbonePrefix,
    window_bytes: int,
    n: int,
    m: int,
)
    requires
        0 <= n <= 40,
        0 <= m <= 4,
        forall|l: int|
            0 <= l < 40 ==> (#[trigger] bank.windows@[l]).restore_error(
                request.windows@[l],
                kept.windows@[l],
            ) is None,
        forall|i: int|
            0 <= i < 4 ==> (#[trigger] bank.sources@[i]).restore_error(
                request.sources@[i],
                &kept.sources@[i],
                prefix::carry_part(kept.tail, window_bytes, i),
            ) is None,
    ensures
        bank.first_window_restore_error(request, kept.windows@, n) is None,
        bank.first_source_restore_error(
            request,
            kept.sources@,
            kept.tail,
            window_bytes,
            m,
        ) is None,
    decreases n + m,
{
    if n > 0 {
        lemma_restorable(bank, request, kept, window_bytes, n - 1, m);
        assert(bank.windows@[n - 1].restore_error(
            request.windows@[n - 1],
            kept.windows@[n - 1],
        ) is None);
    } else if m > 0 {
        lemma_restorable(bank, request, kept, window_bytes, n, m - 1);
        assert(bank.sources@[m - 1].restore_error(
            request.sources@[m - 1],
            &kept.sources@[m - 1],
            prefix::carry_part(kept.tail, window_bytes, m - 1),
        ) is None);
    }
}

} // verus!
