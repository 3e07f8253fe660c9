//! Every operation of the bank is a step of its history.
use crate::backbone_cache::history;
use crate::backbone_cache::laws;
use crate::backbone_cache::plan::CacheBatch;
use crate::backbone_cache::prefix::BackbonePrefix;
use crate::backbone_cache::publish;
use crate::backbone_cache::release;
use crate::backbone_cache::restore::PendingRestore;
use crate::backbone_cache::transaction;
use crate::backbone_cache::{BackboneCache, CacheLease, LAYERS, SNAPSHOT_LANES, SOURCE_COUNT};
use crate::compressor::commit::CommitWork;
use crate::compressor::wave::CompressorWave;
use crate::error::Error;
use crate::window;
use crate::window::WindowWave;
use vstd::prelude::*;

verus! {

/// A live lease that a lane holds is the lease of its slot's request.
proof fn lemma_lease_at(bank: &BackboneCache, lease: CacheLease)
    requires
        history::names_live(bank, lease),
    ensures
        history::lease_at(bank, lease.slot as int) == lease,
{
}

/// Admitting a request is a step: its slot is begun.
pub proof fn law_admission_is_a_step(
    before: &BackboneCache,
    after: &BackboneCache,
    slot: int,
    id: u64,
)
    requires
        before.inv(),
        0 <= slot,
        before.admission_error(slot, id) is None,
        after.begun(before, slot, id),
    ensures
        history::is_step(before, after),
        history::slot_begun(before, after, slot),
        after.requests@[slot]->Some_0.id == id,
{
    assert forall|s: int| 0 <= s < before.requests@.len() implies #[trigger] history::slot_kept(
        before,
        after,
        s,
    ) || history::slot_begun(before, after, s) by {
        if s != slot {
            assert(after.requests@[s] == before.requests@[s]);
        }
    }
    let new = after.requests@[slot]->Some_0;
    assert forall|lane: int| 0 <= lane < SNAPSHOT_LANES implies ((
    #[trigger] before.prefix_copies@[lane]) matches Some(pending) ==> (history::names_live(
        before,
        pending.lease,
    ) ==> laws::same_at(after, before, pending.lease.slot as int))) by {
        if let Some(pending) = before.prefix_copies@[lane] {
            let s = pending.lease.slot as int;
            if history::names_live(before, pending.lease) {
                assert(s != slot);
                assert(after.requests@[s] == before.requests@[s]);
                assert forall|l: int| 0 <= l < LAYERS implies {
                    &&& (#[trigger] after.windows@[l]).owner == before.windows@[l].owner
                    &&& after.windows@[l].slots@.len() == before.windows@[l].slots@.len()
                    &&& after.windows@[l].slots@[s] == before.windows@[l].slots@[s]
                } by {
                    assert(after.window_claimed(before, l, slot, id, new.windows@[l]));
                }
                assert forall|i: int| 0 <= i < SOURCE_COUNT implies {
                    &&& (#[trigger] after.sources@[i]).same_identity(&before.sources@[i])
                    &&& after.sources@[i].slots@[s] == before.sources@[i].slots@[s]
                } by {
                    assert(after.source_claimed(before, i, slot, id, new.sources@[i]));
                }
            }
        }
    }
}

/// A refused admission is a step too: at most it poisons the bank.
pub proof fn law_refused_admission_is_a_step(before: &BackboneCache, after: &BackboneCache)
    requires
        before.inv(),
        !before.poisoned,
        after.poisoned,
        after.same_books(before),
    ensures
        history::is_step(before, after),
{
    assert forall|s: int| 0 <= s < before.requests@.len() implies #[trigger] history::slot_kept(
        before,
        after,
        s,
    ) by {}
}

/// Releasing requests is a step: their slots are ended, all others are kept.
pub proof fn law_release_is_a_step(
    before: &BackboneCache,
    after: &BackboneCache,
    leases: Seq<CacheLease>,
)
    requires
        before.inv(),
        after.inv(),
        !before.poisoned,
        before.first_release_error(leases, leases.len() as int) is None,
        after.all_ended(before, leases, leases.len() as int),
    ensures
        history::is_step(before, after),
        forall|k: int|
            0 <= k < leases.len() ==> history::slot_ended(
                before,
                after,
                (#[trigger] leases[k]).slot as int,
            ),
{
    let n = leases.len() as int;
    assert forall|k: int| 0 <= k < n implies history::slot_ended(
        before,
        after,
        (#[trigger] leases[k]).slot as int,
    ) && !before.snapshotting(leases[k]) && history::lease_at(before, leases[k].slot as int)
        == leases[k] by {
        before.lemma_releasable(leases, n, k);
        assert(release::names_slot(leases, n, leases[k].slot as int));
        assert(after.requests@[leases[k].slot as int] is None);
    }
    assert forall|s: int| 0 <= s < before.requests@.len() implies #[trigger] history::slot_kept(
        before,
        after,
        s,
    ) || (history::slot_ended(before, after, s) && !before.snapshotting(
        history::lease_at(before, s),
    )) by {
        if release::names_slot(leases, n, s) {
            let k = choose|k: int| 0 <= k < n && (#[trigger] leases[k]).slot == s;
            assert(history::slot_ended(before, after, leases[k].slot as int));
        } else {
            assert(after.requests@[s] == before.requests@[s]);
        }
    }
    assert forall|lane: int| 0 <= lane < SNAPSHOT_LANES implies ((
    #[trigger] before.prefix_copies@[lane]) matches Some(pending) ==> (history::names_live(
        before,
        pending.lease,
    ) ==> laws::same_at(after, before, pending.lease.slot as int))) by {
        if let Some(pending) = before.prefix_copies@[lane] {
            let s = pending.lease.slot as int;
            if history::names_live(before, pending.lease) {
                lemma_lease_at(before, pending.lease);
                assert(before.snapshotting(pending.lease));
                if release::names_slot(leases, n, s) {
                    let k = choose|k: int| 0 <= k < n && (#[trigger] leases[k]).slot == s;
                    assert(history::slot_ended(before, after, leases[k].slot as int));
                }
                assert(after.requests@[s] == before.requests@[s]);
                assert forall|l: int| 0 <= l < LAYERS implies {
                    &&& (#[trigger] after.windows@[l]).owner == before.windows@[l].owner
                    &&& after.windows@[l].slots@.len() == before.windows@[l].slots@.len()
                    &&& after.windows@[l].slots@[s] == before.windows@[l].slots@[s]
                } by {
                    assert(after.windows@[l].same_rings(&before.windows@[l]));
                }
                assert forall|i: int| 0 <= i < SOURCE_COUNT implies {
                    &&& (#[trigger] after.sources@[i]).same_identity(&before.sources@[i])
                    &&& after.sources@[i].slots@[s] == before.sources@[i].slots@[s]
                } by {
                    assert(after.sources@[i].slots@[s] == before.sources@[i].slots@[s]);
                }
            }
        }
    }
}

/// A usable batch has no request whose prefix is being copied.
proof fn lemma_batch_is_not_copied(before: &BackboneCache, batch: &CacheBatch, lane: int)
    requires
        before.inv(),
        batch.wf(),
        before.batch_error(batch) is None,
        0 <= lane < SNAPSHOT_LANES,
        before.prefix_copies@[lane] is Some,
        history::names_live(before, before.prefix_copies@[lane]->Some_0.lease),
    ensures
        !transaction::batch_names(
            batch,
            batch.requests@.len() as int,
            before.prefix_copies@[lane]->Some_0.lease.slot as int,
        ),
{
    let lease = before.prefix_copies@[lane]->Some_0.lease;
    let n = batch.requests@.len() as int;
    assert(before.snapshotting(lease));
    if transaction::batch_names(batch, n, lease.slot as int) {
        let r = choose|r: int|
            0 <= r < n && (#[trigger] batch.requests@[r]).work.lease.slot == lease.slot;
        before.lemma_batch_good(batch, n, r);
        assert(batch.requests@[r].work.lease == lease);
    }
}

/// Giving a batch's commit up is a step: its requests end, or are kept.
pub proof fn law_given_up_commit_is_a_step(
    before: &BackboneCache,
    after: &BackboneCache,
    batch: &CacheBatch,
    windows: Seq<WindowWave>,
    sources: Seq<CompressorWave>,
    accepted: Seq<u32>,
)
    requires
        before.inv(),
        after.inv(),
        !before.poisoned,
        batch.wf(),
        laws::batch_holds(before, batch),
        before.commit_error(batch, windows, sources, accepted) is None,
        laws::queued_for(before, batch, windows, sources),
        after.gave_up(before, batch, windows, sources),
    ensures
        history::is_step(before, after),
{
    let n = batch.requests@.len() as int;
    assert forall|s: int| 0 <= s < before.requests@.len() implies #[trigger] history::slot_kept(
        before,
        after,
        s,
    ) || (history::slot_ended(before, after, s) && !before.snapshotting(
        history::lease_at(before, s),
    )) by {
        if transaction::batch_names(batch, n, s) {
            let k = choose|k: int|
                0 <= k < n && (#[trigger] batch.requests@[k]).work.lease.slot == s;
            before.lemma_batch_good(batch, n, k);
            assert(history::lease_at(before, s) == batch.requests@[k].work.lease);
        } else {
            assert(after.requests@[s] == before.requests@[s]);
        }
    }
    assert forall|lane: int| 0 <= lane < SNAPSHOT_LANES implies ((
    #[trigger] before.prefix_copies@[lane]) matches Some(pending) ==> (history::names_live(
        before,
        pending.lease,
    ) ==> laws::same_at(after, before, pending.lease.slot as int))) by {
        if let Some(pending) = before.prefix_copies@[lane] {
            if history::names_live(before, pending.lease) {
                lemma_batch_is_not_copied(before, batch, lane);
                laws::law_failed_commit_spares_other_requests(
                    before,
                    after,
                    batch,
                    windows,
                    sources,
                    accepted,
                    pending.lease,
                );
            }
        }
    }
}

/// Giving up what a lane has queued is a step, as long as none of it belongs to a
/// request whose prefix is being copied.
pub proof fn law_aborted_commit_is_a_step(
    before: &BackboneCache,
    after: &BackboneCache,
    windows: Seq<WindowWave>,
    sources: Seq<CompressorWave>,
)
    requires
        before.inv(),
        !before.poisoned,
        windows.len() == LAYERS,
        sources.len() == SOURCE_COUNT,
        before.lanes_fit(windows, sources),
        after.same_books(before),
        forall|l: int|
            0 <= l < LAYERS ==> publish::window_dropped(
                #[trigger] &after.windows@[l],
                &before.windows@[l],
                &windows[l],
            ),
        forall|i: int|
            0 <= i < SOURCE_COUNT ==> publish::source_dropped(
                #[trigger] &after.sources@[i],
                &before.sources@[i],
                &sources[i],
            ),
        forall|lane: int, l: int|
            #![trigger before.prefix_copies@[lane], windows[l]]
            0 <= lane < SNAPSHOT_LANES && 0 <= l < LAYERS && before.prefix_copies@[lane] is Some
                ==> !before.window_pending_at(
                windows,
                l,
                before.prefix_copies@[lane]->Some_0.lease.slot as int,
            ),
        forall|lane: int, i: int|
            #![trigger before.prefix_copies@[lane], sources[i]]
            0 <= lane < SNAPSHOT_LANES && 0 <= i < SOURCE_COUNT && before.prefix_copies@[lane] is Some
                ==> !BackboneCache::source_pending_at(
                sources,
                i,
                before.prefix_copies@[lane]->Some_0.lease.slot as int,
            ),
    ensures
        history::is_step(before, after),
{
    assert forall|s: int| 0 <= s < before.requests@.len() implies #[trigger] history::slot_kept(
        before,
        after,
        s,
    ) by {}
    assert forall|lane: int| 0 <= lane < SNAPSHOT_LANES implies ((
    #[trigger] before.prefix_copies@[lane]) matches Some(pending) ==> (history::names_live(
        before,
        pending.lease,
    ) ==> laws::same_at(after, before, pending.lease.slot as int))) by {
        if let Some(pending) = before.prefix_copies@[lane] {
            let s = pending.lease.slot as int;
            if history::names_live(before, pending.lease) {
                assert forall|l: int| 0 <= l < LAYERS implies {
                    &&& (#[trigger] after.windows@[l]).owner == before.windows@[l].owner
                    &&& after.windows@[l].slots@.len() == before.windows@[l].slots@.len()
                    &&& after.windows@[l].slots@[s] == before.windows@[l].slots@[s]
                } by {
                    assert(publish::window_dropped(
                        &after.windows@[l],
                        &before.windows@[l],
                        &windows[l],
                    ));
                    assert(!before.window_pending_at(windows, l, s));
                    assert(windows[l].fits(&before.windows@[l]));
                    if windows[l].pending is Some && windows[l].prepared is Some
                        && windows[l].prepared->Some_0.owner == before.windows@[l].owner {
                        let chunks = windows[l].prepared->Some_0.chunks@;
                        window::lemma_revoked_slot(
                            before.windows@[l].slots@,
                            chunks,
                            chunks.len() as int,
                            s,
                        );
                    }
                }
                assert forall|i: int| 0 <= i < SOURCE_COUNT implies {
                    &&& (#[trigger] after.sources@[i]).same_identity(&before.sources@[i])
                    &&& after.sources@[i].slots@[s] == before.sources@[i].slots@[s]
                } by {
                    assert(publish::source_dropped(
                        &after.sources@[i],
                        &before.sources@[i],
                        &sources[i],
                    ));
                    assert(!BackboneCache::source_pending_at(sources, i, s));
                    assert(before.sources@[i].inv());
                    assert(after.sources@[i].slots@[s] == after.sources@[i].slots@[s]);
                }
            }
        }
    }
}

/// What leaves the books, the lanes and every component's requests alone is a step.
/// Keeping and giving up a prefix, and asking for pages, are of this kind.
pub proof fn law_quiet_operation_is_a_step(before: &BackboneCache, after: &BackboneCache)
    requires
        before.inv(),
        !before.poisoned,
        after.owner == before.owner,
        after.requests@ == before.requests@,
        after.generations@ == before.generations@,
        after.prefix_copies@ == before.prefix_copies@,
        forall|l: int|
            0 <= l < LAYERS ==> (#[trigger] after.windows@[l]).owner == before.windows@[l].owner
                && after.windows@[l].slots@ == before.windows@[l].slots@,
        forall|i: int|
            0 <= i < SOURCE_COUNT ==> (#[trigger] after.sources@[i]).same_identity(
                &before.sources@[i],
            ) && after.sources@[i].slots@ == before.sources@[i].slots@,
    ensures
        history::is_step(before, after),
{
    assert forall|s: int| 0 <= s < before.requests@.len() implies #[trigger] history::slot_kept(
        before,
        after,
        s,
    ) by {}
    assert forall|lane: int| 0 <= lane < SNAPSHOT_LANES implies ((
    #[trigger] before.prefix_copies@[lane]) matches Some(pending) ==> (history::names_live(
        before,
        pending.lease,
    ) ==> laws::same_at(after, before, pending.lease.slot as int))) by {}
}

/// Committing a batch is a step, whether it is refused, fails or succeeds.
pub proof fn law_commit_is_a_step(
    before: &BackboneCache,
    after: &BackboneCache,
    batch: &CacheBatch,
    windows: Seq<WindowWave>,
    windows_were: Seq<WindowWave>,
    sources: Seq<CompressorWave>,
    sources_were: Seq<CompressorWave>,
    accepted: Seq<u32>,
    window_done: Seq<bool>,
    source_done: Seq<bool>,
    r: Result<(), Error>,
)
    requires
        before.inv(),
        after.inv(),
        !before.poisoned,
        batch.wf(),
        laws::batch_holds(before, batch),
        laws::queued_for(before, batch, windows_were, sources_were),
        before.lanes_fit(windows_were, sources_were),
        after.commit_ended(
            before,
            batch,
            windows,
            windows_were,
            sources,
            sources_were,
            accepted,
            window_done,
            source_done,
            r,
        ),
    ensures
        history::is_step(before, after),
{
    let n = batch.requests@.len() as int;
    if before.commit_error(batch, windows_were, sources_were, accepted) is Some {
        law_quiet_operation_is_a_step(before, after);
    } else if r is Err {
        law_given_up_commit_is_a_step(
            before,
            after,
            batch,
            windows_were,
            sources_were,
            accepted,
        );
    } else {
        assert forall|s: int| 0 <= s < before.requests@.len() implies #[trigger] history::slot_kept(
            before,
            after,
            s,
        ) || (history::slot_ended(before, after, s) && !before.snapshotting(
            history::lease_at(before, s),
        )) by {
            if transaction::batch_names(batch, n, s) {
                let k = choose|k: int|
                    0 <= k < n && (#[trigger] batch.requests@[k]).work.lease.slot == s;
                before.lemma_batch_good(batch, n, k);
                assert(history::lease_at(before, s) == batch.requests@[k].work.lease);
            } else {
                assert(after.requests@[s] == before.requests@[s]);
            }
        }
        assert forall|lane: int| 0 <= lane < SNAPSHOT_LANES implies ((
        #[trigger] before.prefix_copies@[lane]) matches Some(pending) ==> (history::names_live(
            before,
            pending.lease,
        ) ==> laws::same_at(after, before, pending.lease.slot as int))) by {
            if let Some(pending) = before.prefix_copies@[lane] {
                if history::names_live(before, pending.lease) {
                    lemma_batch_is_not_copied(before, batch, lane);
                    laws::law_commit_spares_other_requests(
                        before,
                        after,
                        batch,
                        windows,
                        windows_were,
                        sources,
                        sources_were,
                        accepted,
                        pending.lease,
                    );
                }
            }
        }
    }
}

/// Queueing a commit is a step, even where it fails half way.
pub proof fn law_queued_commit_is_a_step(
    before: &BackboneCache,
    after: &BackboneCache,
    batch: &CacheBatch,
    windows: Seq<WindowWave>,
    windows_were: Seq<WindowWave>,
    sources: Seq<CompressorWave>,
    sources_were: Seq<CompressorWave>,
    accepted: Seq<u32>,
    direct: bool,
    r: Result<Vec<(usize, CommitWork)>, Error>,
)
    requires
        before.inv(),
        !before.poisoned,
        after.same_books(before),
        after.poisoned == before.poisoned,
        after.commit_queued(
            before,
            batch,
            windows,
            windows_were,
            sources,
            sources_were,
            accepted,
            direct,
            r,
        ),
    ensures
        history::is_step(before, after),
{
    if before.commit_error(batch, windows_were, sources_were, accepted) is Some {
        law_quiet_operation_is_a_step(before, after);
    } else {
        assert forall|s: int| 0 <= s < before.requests@.len() implies #[trigger] history::slot_kept(
            before,
            after,
            s,
        ) by {}
        assert forall|l: int| 0 <= l < LAYERS implies {
            &&& (#[trigger] after.windows@[l]).owner == before.windows@[l].owner
            &&& after.windows@[l].slots@ == before.windows@[l].slots@
        } by {
            assert(after.window_step(before, batch, windows, windows_were, accepted, l));
        }
        assert forall|i: int| 0 <= i < SOURCE_COUNT implies {
            &&& (#[trigger] after.sources@[i]).same_identity(&before.sources@[i])
            &&& after.sources@[i].slots@ == before.sources@[i].slots@
        } by {
            if r is Ok {
                assert(after.source_step(
                    before,
                    batch,
                    sources,
                    sources_were,
                    accepted,
                    direct,
                    i,
                ));
            } else {
                assert(after.source_tried(
                    before,
                    batch,
                    sources,
                    sources_were,
                    accepted,
                    direct,
                    i,
                ));
            }
        }
        assert forall|lane: int| 0 <= lane < SNAPSHOT_LANES implies ((
        #[trigger] before.prefix_copies@[lane]) matches Some(pending) ==> (history::names_live(
            before,
            pending.lease,
        ) ==> laws::same_at(after, before, pending.lease.slot as int))) by {}
    }
}

/// Queueing a prefix is a step: its lane is filled.
pub proof fn law_queued_prefix_is_a_step(
    before: &BackboneCache,
    after: &BackboneCache,
    lane: int,
    lease: CacheLease,
)
    requires
        before.inv(),
        0 <= lane < SNAPSHOT_LANES,
        history::is_queued(before, after, lane, lease),
    ensures
        history::is_step(before, after),
        history::lane_filled(before, after, lane),
{
    assert forall|s: int| 0 <= s < before.requests@.len() implies #[trigger] history::slot_kept(
        before,
        after,
        s,
    ) by {}
    let kept = after.prefix_copies@[lane]->Some_0.prefix;
    assert forall|i: int| 0 <= i < SOURCE_COUNT implies {
        &&& (#[trigger] after.sources@[i]).same_identity(&before.sources@[i])
        &&& after.sources@[i].slots@ == before.sources@[i].slots@
    } by {
        assert(after.source_retained(before, i, kept.sources@[i]));
    }
    assert forall|k: int| 0 <= k < SNAPSHOT_LANES implies ((
    #[trigger] before.prefix_copies@[k]) matches Some(pending) ==> (history::names_live(
        before,
        pending.lease,
    ) ==> laws::same_at(after, before, pending.lease.slot as int))) by {}
}

/// Taking a finished prefix or giving one up is a step: its lane is emptied.
pub proof fn law_ended_prefix_is_a_step(before: &BackboneCache, after: &BackboneCache, lane: int)
    requires
        before.inv(),
        !before.poisoned,
        0 <= lane < SNAPSHOT_LANES,
        before.prefix_copies@[lane] is Some,
        after.prefix_copies@ == before.prefix_copies@.update(lane, None),
        after.owner == before.owner,
        after.requests@ == before.requests@,
        after.generations@ == before.generations@,
        after.windows@ == before.windows@,
        after.sources@ == before.sources@ || forall|i: int|
            0 <= i < SOURCE_COUNT ==> after.source_evicted(
                before,
                i,
                #[trigger] before.prefix_copies@[lane]->Some_0.prefix.sources@[i],
            ),
    ensures
        history::is_step(before, after),
        history::lane_emptied(before, after, lane),
{
    let kept = before.prefix_copies@[lane]->Some_0.prefix;
    assert forall|s: int| 0 <= s < before.requests@.len() implies #[trigger] history::slot_kept(
        before,
        after,
        s,
    ) by {}
    assert forall|i: int| 0 <= i < SOURCE_COUNT implies {
        &&& (#[trigger] after.sources@[i]).same_identity(&before.sources@[i])
        &&& after.sources@[i].slots@ == before.sources@[i].slots@
    } by {
        if after.sources@ != before.sources@ {
            assert(after.source_evicted(before, i, kept.sources@[i]));
        }
    }
    assert forall|k: int| 0 <= k < SNAPSHOT_LANES implies (#[trigger] after.prefix_copies@[k])
        == before.prefix_copies@[k] || history::lane_emptied(before, after, k) by {}
    assert forall|k: int| 0 <= k < SNAPSHOT_LANES implies ((
    #[trigger] before.prefix_copies@[k]) matches Some(pending) ==> (history::names_live(
        before,
        pending.lease,
    ) ==> laws::same_at(after, before, pending.lease.slot as int))) by {}
}

/// Attaching a prefix to a request, resuming it and giving it up are steps.
pub proof fn law_restoring_is_a_step(
    before: &BackboneCache,
    after: &BackboneCache,
    lease: CacheLease,
    saved: &BackbonePrefix,
    pending: PendingRestore,
    end: u64,
)
    requires
        before.inv(),
        before.request_error(lease) is None,
        pending.lease == lease,
        after.attached(before, lease, saved, pending.phase) || after.encoder_attached(
            before,
            lease,
            saved,
            end,
        ) || after.resumed(before, pending) || after.given_up(before, lease),
    ensures
        history::is_step(before, after),
{
    let slot = lease.slot as int;
    assert(history::lease_at(before, slot) == lease);
    assert forall|s: int| 0 <= s < before.requests@.len() implies #[trigger] history::slot_kept(
        before,
        after,
        s,
    ) || (history::slot_ended(before, after, s) && !before.snapshotting(
        history::lease_at(before, s),
    )) by {}
    assert forall|k: int| 0 <= k < SNAPSHOT_LANES implies ((
    #[trigger] before.prefix_copies@[k]) matches Some(copied) ==> (history::names_live(
        before,
        copied.lease,
    ) ==> laws::same_at(after, before, copied.lease.slot as int))) by {
        if let Some(copied) = before.prefix_copies@[k] {
            if history::names_live(before, copied.lease) {
                let s = copied.lease.slot as int;
                assert(before.snapshotting(copied.lease));
                assert(s != slot);
                if !after.resumed(before, pending) {
                    assert(after.others_kept(before, slot));
                    assert forall|l: int| 0 <= l < LAYERS implies {
                        &&& (#[trigger] after.windows@[l]).owner == before.windows@[l].owner
                        &&& after.windows@[l].slots@.len() == before.windows@[l].slots@.len()
                        &&& after.windows@[l].slots@[s] == before.windows@[l].slots@[s]
                    } by {
                        assert(after.windows@[l].same_rings(&before.windows@[l]));
                        assert(before.windows@[l].slots@.len() == before.requests@.len());
                    }
                    assert forall|i: int| 0 <= i < SOURCE_COUNT implies {
                        &&& (#[trigger] after.sources@[i]).same_identity(&before.sources@[i])
                        &&& after.sources@[i].slots@[s] == before.sources@[i].slots@[s]
                    } by {
                        assert(before.sources@[i].inv());
                    }
                }
            }
        }
    }
}

} // verus!
