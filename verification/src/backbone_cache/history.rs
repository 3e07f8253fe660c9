//! What holds of leases and snapshot lanes over any run of operations.
//!
//! Every operation is a step of the bank: a slot is kept, given to a new request or
//! freed, a lane is kept, filled or emptied, and a request whose prefix is being
//! copied does not change.
use crate::backbone_cache::laws;
use crate::backbone_cache::release;
use crate::backbone_cache::{BackboneCache, CacheLease, LAYERS, SNAPSHOT_LANES, SOURCE_COUNT};
use crate::error::Error;
use vstd::prelude::*;

verus! {

/// The lease names a request that the bank serves.
pub open spec fn names_live(bank: &BackboneCache, lease: CacheLease) -> bool {
    &&& lease.owner == bank.owner
    &&& lease.slot < bank.requests@.len()
    &&& bank.generations@[lease.slot as int] == lease.generation
    &&& bank.requests@[lease.slot as int] is Some
}

/// The slot serves the request that it served, if any.
pub open spec fn slot_kept(before: &BackboneCache, after: &BackboneCache, s: int) -> bool {
    &&& after.generations@[s] == before.generations@[s]
    &&& after.requests@[s] is Some == before.requests@[s] is Some
    &&& before.requests@[s] is Some ==> after.requests@[s]->Some_0.id
        == before.requests@[s]->Some_0.id
}

/// The slot is given to a new request, under a new generation.
pub open spec fn slot_begun(before: &BackboneCache, after: &BackboneCache, s: int) -> bool {
    &&& before.requests@[s] is None
    &&& after.requests@[s] is Some
    &&& after.generations@[s] == before.generations@[s] + 1
}

/// The slot's request has ended.
pub open spec fn slot_ended(before: &BackboneCache, after: &BackboneCache, s: int) -> bool {
    &&& before.requests@[s] is Some
    &&& after.requests@[s] is None
    &&& after.generations@[s] == before.generations@[s]
}

/// The lease of the request at `s`.
pub open spec fn lease_at(bank: &BackboneCache, s: int) -> CacheLease {
    CacheLease { owner: bank.owner, slot: s as usize, generation: bank.generations@[s] }
}

/// The lane starts to copy a prefix of a usable request.
pub open spec fn lane_filled(before: &BackboneCache, after: &BackboneCache, lane: int) -> bool {
    &&& before.prefix_copies@[lane] is None
    &&& after.prefix_copies@[lane] matches Some(pending) && {
        &&& before.history_error(pending.lease) is None
        &&& before.is_prefix(pending.lease, pending.prefix, pending.prefix.tail)
    }
}

/// The lane hands its prefix out or gives it up.
pub open spec fn lane_emptied(before: &BackboneCache, after: &BackboneCache, lane: int) -> bool {
    before.prefix_copies@[lane] is Some && after.prefix_copies@[lane] is None
}

/// One operation of a healthy bank leads from `before` to `after`.
pub open spec fn is_step(before: &BackboneCache, after: &BackboneCache) -> bool {
    &&& !before.poisoned
    &&& after.owner == before.owner
    &&& after.requests@.len() == before.requests@.len()
    &&& after.generations@.len() == before.generations@.len()
    &&& after.prefix_copies@.len() == before.prefix_copies@.len()
    &&& forall|s: int|
        0 <= s < before.requests@.len() ==> #[trigger] slot_kept(before, after, s) || slot_begun(
            before,
            after,
            s,
        ) || (slot_ended(before, after, s) && !before.snapshotting(lease_at(before, s)))
    &&& forall|lane: int|
        0 <= lane < SNAPSHOT_LANES ==> (#[trigger] after.prefix_copies@[lane])
            == before.prefix_copies@[lane] || lane_filled(before, after, lane) || lane_emptied(
            before,
            after,
            lane,
        )
    &&& !after.poisoned ==> forall|lane: int|
        0 <= lane < SNAPSHOT_LANES ==> ((#[trigger] before.prefix_copies@[lane]) matches Some(
            pending,
        ) ==> (names_live(before, pending.lease) ==> laws::same_at(
            after,
            before,
            pending.lease.slot as int,
        )))
}

/// Step `k` of the run.
pub open spec fn step_at(states: Seq<BackboneCache>, k: int) -> bool {
    is_step(&states[k], &states[k + 1])
}

/// The states that a bank goes through.
pub open spec fn is_history(states: Seq<BackboneCache>) -> bool {
    &&& states.len() > 0
    &&& states[0].inv()
    &&& forall|k: int| 0 <= k < states.len() - 1 ==> #[trigger] step_at(states, k)
}

/// Step `k` gives `lease` out, for a request of number `id`.
pub open spec fn given_out(states: Seq<BackboneCache>, k: int, lease: CacheLease, id: u64) -> bool {
    let s = lease.slot as int;
    &&& lease.owner == states[k].owner
    &&& s < states[k].requests@.len()
    &&& slot_begun(&states[k], &states[k + 1], s)
    &&& states[k + 1].generations@[s] == lease.generation
    &&& states[k + 1].requests@[s]->Some_0.id == id
}

/// Step `k` ends the request at `s`.
pub open spec fn ended_at(states: Seq<BackboneCache>, k: int, s: int) -> bool {
    slot_ended(&states[k], &states[k + 1], s)
}

/// The lease was given out for `id` in one of the first `m` steps, and its request
/// has not ended in a later one of them.
pub open spec fn holds_out(states: Seq<BackboneCache>, lease: CacheLease, id: u64, m: int) -> bool {
    exists|k: int|
        0 <= k < m && #[trigger] given_out(states, k, lease, id) && forall|j: int|
            k < j < m ==> !#[trigger] ended_at(states, j, lease.slot as int)
}

proof fn lemma_sizes(states: Seq<BackboneCache>, m: int)
    requires
        is_history(states),
        0 <= m < states.len(),
    ensures
        states[m].owner == states[0].owner,
        states[m].requests@.len() == states[0].requests@.len(),
        states[m].generations@.len() == states[0].requests@.len(),
        states[m].prefix_copies@.len() == SNAPSHOT_LANES,
    decreases m,
{
    if m > 0 {
        lemma_sizes(states, m - 1);
        assert(step_at(states, m - 1));
    }
}

proof fn lemma_lease_history(states: Seq<BackboneCache>, lease: CacheLease, id: u64, m: int)
    requires
        is_history(states),
        forall|s: int|
            0 <= s < states[0].requests@.len() ==> (#[trigger] states[0].requests@[s]) is None,
        0 <= m < states.len(),
    ensures
        (names_live(&states[m], lease) && states[m].live(lease).id == id) == holds_out(
            states,
            lease,
            id,
            m,
        ),
    decreases m,
{
    let s = lease.slot as int;
    lemma_sizes(states, m);
    if m > 0 {
        lemma_lease_history(states, lease, id, m - 1);
        lemma_sizes(states, m - 1);
        assert(step_at(states, m - 1));
        if s < states[0].requests@.len() {
            let before = states[m - 1];
            let after = states[m];
            assert(slot_kept(&before, &after, s) || slot_begun(&before, &after, s) || slot_ended(
                &before,
                &after,
                s,
            ));
            if holds_out(states, lease, id, m - 1) && !ended_at(states, m - 1, s) {
                let k = choose|k: int|
                    0 <= k < m - 1 && #[trigger] given_out(states, k, lease, id) && forall|j: int|
                        k < j < m - 1 ==> !#[trigger] ended_at(states, j, s);
                assert(given_out(states, k, lease, id));
                assert forall|j: int| k < j < m implies !#[trigger] ended_at(states, j, s) by {}
                assert(holds_out(states, lease, id, m));
            }
            if given_out(states, m - 1, lease, id) {
                assert(holds_out(states, lease, id, m));
            }
            if holds_out(states, lease, id, m) {
                let k = choose|k: int|
                    0 <= k < m && #[trigger] given_out(states, k, lease, id) && forall|j: int|
                        k < j < m ==> !#[trigger] ended_at(states, j, s);
                if k < m - 1 {
                    assert(!ended_at(states, m - 1, s));
                    assert(holds_out(states, lease, id, m - 1));
                }
            }
        } else if holds_out(states, lease, id, m) {
            let k = choose|k: int|
                0 <= k < m && #[trigger] given_out(states, k, lease, id) && forall|j: int|
                    k < j < m ==> !#[trigger] ended_at(states, j, s);
            lemma_sizes(states, k);
        }
    } else if s < states[0].requests@.len() {
        assert(states[0].requests@[s] is None);
    }
}

/// A healthy bank says `id` of a lease exactly where it has given that lease out
/// itself, for a request of that number, and the request has not ended since.
pub proof fn law_request_id_follows_its_lease(
    states: Seq<BackboneCache>,
    lease: CacheLease,
    id: u64,
)
    requires
        is_history(states),
        forall|s: int|
            0 <= s < states[0].requests@.len() ==> (#[trigger] states[0].requests@[s]) is None,
        !states.last().poisoned,
    ensures
        (states.last().identity_error(lease) is None && states.last().live(lease).id == id)
            == holds_out(states, lease, id, states.len() - 1),
{
    lemma_lease_history(states, lease, id, states.len() - 1);
}

/// A lease that the bank has given out and whose request has ended names no request
/// again, whatever its slot serves later, even a request of the same number. Nor
/// does a lease of another bank.
pub proof fn law_dead_lease_stays_dead(states: Seq<BackboneCache>, lease: CacheLease)
    requires
        is_history(states),
        lease.owner != states[0].owner || (states[0].issued(lease) && !names_live(
            &states[0],
            lease,
        )),
    ensures
        states.last().identity_error(lease) is Some,
{
    lemma_dead(states, lease, states.len() - 1);
}

proof fn lemma_dead(states: Seq<BackboneCache>, lease: CacheLease, m: int)
    requires
        is_history(states),
        lease.owner != states[0].owner || (states[0].issued(lease) && !names_live(
            &states[0],
            lease,
        )),
        0 <= m < states.len(),
    ensures
        lease.owner != states[m].owner || (states[m].issued(lease) && !names_live(
            &states[m],
            lease,
        )),
        states[m].identity_error(lease) is Some,
    decreases m,
{
    if m > 0 {
        lemma_dead(states, lease, m - 1);
        lemma_sizes(states, m - 1);
        assert(step_at(states, m - 1));
        let s = lease.slot as int;
        if s < states[m - 1].requests@.len() {
            assert(slot_kept(&states[m - 1], &states[m], s) || slot_begun(
                &states[m - 1],
                &states[m],
                s,
            ) || slot_ended(&states[m - 1], &states[m], s));
        }
    }
}

/// No lane but `lane` copies a prefix of the request.
pub open spec fn only_lane(bank: &BackboneCache, lane: int, lease: CacheLease) -> bool {
    forall|k: int|
        0 <= k < SNAPSHOT_LANES && k != lane ==> !((#[trigger] bank.prefix_copies@[k]) matches Some(
            pending,
        ) && pending.lease == lease)
}

/// The lane stays occupied through the first `m` steps.
pub open spec fn lane_busy(states: Seq<BackboneCache>, lane: int, m: int) -> bool {
    forall|k: int|
        0 <= k < m ==> !lane_emptied(#[trigger] &states[k], &states[k + 1], lane)
}

proof fn lemma_queued(states: Seq<BackboneCache>, lane: int, m: int)
    requires
        is_history(states),
        0 <= lane < SNAPSHOT_LANES,
        states[0].prefix_copies@[lane] is Some,
        names_live(&states[0], states[0].prefix_copies@[lane]->Some_0.lease),
        only_lane(&states[0], lane, states[0].prefix_copies@[lane]->Some_0.lease),
        lane_busy(states, lane, states.len() - 1),
        0 <= m < states.len(),
        !states[m].poisoned,
    ensures
        ({
            let lease = states[0].prefix_copies@[lane]->Some_0.lease;
            &&& states[m].prefix_copies@[lane] == states[0].prefix_copies@[lane]
            &&& names_live(&states[m], lease)
            &&& only_lane(&states[m], lane, lease)
            &&& laws::same_at(&states[m], &states[0], lease.slot as int)
        }),
    decreases m,
{
    let lease = states[0].prefix_copies@[lane]->Some_0.lease;
    let s = lease.slot as int;
    if m > 0 {
        assert(step_at(states, m - 1));
        lemma_queued(states, lane, m - 1);
        lemma_sizes(states, m - 1);
        let before = states[m - 1];
        let after = states[m];
        assert(!lane_emptied(&states[m - 1], &states[m], lane));
        assert(after.prefix_copies@[lane] == before.prefix_copies@[lane]);
        assert(before.snapshotting(lease));
        assert(lease_at(&before, s) == lease);
        assert(slot_kept(&before, &after, s) || slot_begun(&before, &after, s));
        assert(before.prefix_copies@[lane] is Some);
        assert(laws::same_at(&after, &before, s));
        assert(only_lane(&after, lane, lease)) by {
            assert forall|k: int| 0 <= k < SNAPSHOT_LANES && k != lane implies !((
            #[trigger] after.prefix_copies@[k]) matches Some(pending) && pending.lease == lease) by {
                assert(after.prefix_copies@[k] == before.prefix_copies@[k] || lane_filled(
                    &before,
                    &after,
                    k,
                ) || lane_emptied(&before, &after, k));
            }
        }
        assert(laws::same_at(&after, &states[0], s)) by {
            assert forall|l: int| 0 <= l < LAYERS implies {
                &&& (#[trigger] after.windows@[l]).owner == states[0].windows@[l].owner
                &&& after.windows@[l].slots@.len() == states[0].windows@[l].slots@.len()
                &&& after.windows@[l].slots@[s] == states[0].windows@[l].slots@[s]
            } by {
                assert(before.windows@[l].owner == states[0].windows@[l].owner);
            }
            assert forall|i: int| 0 <= i < SOURCE_COUNT implies {
                &&& (#[trigger] after.sources@[i]).same_identity(&states[0].sources@[i])
                &&& after.sources@[i].slots@[s] == states[0].sources@[i].slots@[s]
            } by {
                assert(before.sources@[i].same_identity(&states[0].sources@[i]));
            }
        }
    }
}

/// While a lane copies a request's prefix, whatever else runs: the request keeps its
/// number and its history, but its frontier and its stage are not told, it is
/// neither released nor used, and the lane takes no other prefix.
pub proof fn law_copied_request_is_frozen(states: Seq<BackboneCache>, lane: int)
    requires
        is_history(states),
        0 <= lane < SNAPSHOT_LANES,
        states[0].prefix_copies@[lane] is Some,
        names_live(&states[0], states[0].prefix_copies@[lane]->Some_0.lease),
        only_lane(&states[0], lane, states[0].prefix_copies@[lane]->Some_0.lease),
        lane_busy(states, lane, states.len() - 1),
        !states.last().poisoned,
    ensures
        ({
            let lease = states[0].prefix_copies@[lane]->Some_0.lease;
            let last = states.last();
            &&& last.prefix_copies@[lane] == states[0].prefix_copies@[lane]
            &&& last.identity_error(lease) is None
            &&& last.live(lease) == states[0].live(lease)
            &&& last.request_error(lease) == Some(Error::SnapshotPending)
            &&& last.history_error(lease) == Some(Error::SnapshotPending)
            &&& last.release_error(lease) == Some(Error::SnapshotPending)
            &&& laws::same_at(&last, &states[0], lease.slot as int)
        }),
{
    lemma_queued(states, lane, states.len() - 1);
    lemma_sizes(states, states.len() - 1);
    let last = states.last();
    let lease = states[0].prefix_copies@[lane]->Some_0.lease;
    assert(last.prefix_copies@[lane] matches Some(pending) && pending.lease == lease);
    assert(last.snapshotting(lease));
}

/// Starting to copy a prefix changes nothing for other leases.
pub proof fn law_copying_spares_other_leases(
    before: &BackboneCache,
    after: &BackboneCache,
    lane: int,
    lease: CacheLease,
    other: CacheLease,
)
    requires
        before.inv(),
        0 <= lane < SNAPSHOT_LANES,
        is_queued(before, after, lane, lease),
        other != lease,
    ensures
        after.history_error(other) == before.history_error(other),
        after.release_error(other) == before.release_error(other),
{
    assert(after.snapshotting(other) == before.snapshotting(other)) by {
        if before.snapshotting(other) {
            let k = choose|k: int|
                0 <= k < before.prefix_copies@.len() && ((
                #[trigger] before.prefix_copies@[k]) matches Some(p) && p.lease == other);
            assert(after.prefix_copies@[k] == before.prefix_copies@[k]);
        }
        if after.snapshotting(other) {
            let k = choose|k: int|
                0 <= k < after.prefix_copies@.len() && ((
                #[trigger] after.prefix_copies@[k]) matches Some(p) && p.lease == other);
            assert(after.prefix_copies@[k] == before.prefix_copies@[k]);
        }
    }
    if before.request_error(other) is None {
        let s = other.slot as int;
        let request = before.live(other);
        assert(before.leases_wf(s, &request));
        lemma_queued_same(before, after, lane, lease, s);
        laws::lemma_same_history(after, before, s, &request);
        assert forall|l: int| 0 <= l < LAYERS implies #[trigger] release::window_busy(
            after,
            &request,
            l,
        ) == release::window_busy(before, &request, l) by {}
        assert forall|i: int| 0 <= i < SOURCE_COUNT implies #[trigger] release::source_busy(
            after,
            &request,
            i,
        ) == release::source_busy(before, &request, i) by {
            let kept = after.prefix_copies@[lane]->Some_0.prefix;
            assert(after.source_retained(before, i, kept.sources@[i]));
        }
        if before.release_error(other) is None {
            assert forall|l: int| 0 <= l < LAYERS implies !#[trigger] release::window_busy(
                after,
                &request,
                l,
            ) by {
                assert(!release::window_busy(before, &request, l));
            }
            assert forall|i: int| 0 <= i < SOURCE_COUNT implies !#[trigger] release::source_busy(
                after,
                &request,
                i,
            ) by {
                assert(!release::source_busy(before, &request, i));
            }
        }
        if exists|l: int| 0 <= l < LAYERS && #[trigger] release::window_busy(before, &request, l) {
            let l = choose|l: int|
                0 <= l < LAYERS && #[trigger] release::window_busy(before, &request, l);
            assert(release::window_busy(after, &request, l));
        } else {
            assert forall|l: int| 0 <= l < LAYERS implies !#[trigger] release::window_busy(
                after,
                &request,
                l,
            ) by {
                assert(!release::window_busy(before, &request, l));
            }
            if exists|i: int|
                0 <= i < SOURCE_COUNT && #[trigger] release::source_busy(before, &request, i) {
                let i = choose|i: int|
                    0 <= i < SOURCE_COUNT && #[trigger] release::source_busy(before, &request, i);
                assert(release::source_busy(after, &request, i));
            }
        }
    }
}

/// What queueing a prefix of `lease` on `lane` leaves.
pub open spec fn is_queued(
    before: &BackboneCache,
    after: &BackboneCache,
    lane: int,
    lease: CacheLease,
) -> bool {
    &&& before.prefix_copies@[lane] is None
    &&& before.history_error(lease) is None
    &&& after.prefix_copies@.len() == SNAPSHOT_LANES
    &&& forall|k: int|
        0 <= k < SNAPSHOT_LANES && k != lane ==> #[trigger] after.prefix_copies@[k]
            == before.prefix_copies@[k]
    &&& after.prefix_copies@[lane] matches Some(pending) && {
        &&& pending.lease == lease
        &&& before.is_prefix(lease, pending.prefix, pending.prefix.tail)
        &&& forall|i: int|
            0 <= i < SOURCE_COUNT ==> after.source_retained(
                before,
                i,
                #[trigger] pending.prefix.sources@[i],
            )
    }
    &&& after.owner == before.owner
    &&& after.requests@ == before.requests@
    &&& after.generations@ == before.generations@
    &&& after.windows@ == before.windows@
    &&& after.poisoned == before.poisoned
}

proof fn lemma_queued_same(
    before: &BackboneCache,
    after: &BackboneCache,
    lane: int,
    lease: CacheLease,
    s: int,
)
    requires
        is_queued(before, after, lane, lease),
    ensures
        laws::same_at(after, before, s),
{
    let kept = after.prefix_copies@[lane]->Some_0.prefix;
    assert forall|i: int| 0 <= i < SOURCE_COUNT implies {
        &&& (#[trigger] after.sources@[i]).same_identity(&before.sources@[i])
        &&& after.sources@[i].slots@[s] == before.sources@[i].slots@[s]
    } by {
        assert(after.source_retained(before, i, kept.sources@[i]));
    }
}

/// A finished snapshot has the owner and the end that its request had when it was
/// queued, whatever ran in between. Its lane is free again, and the request goes on
/// from the same frontier.
pub proof fn law_finished_snapshot_is_its_request(
    before: &BackboneCache,
    states: Seq<BackboneCache>,
    after: &BackboneCache,
    lane: int,
    lease: CacheLease,
)
    requires
        before.inv(),
        0 <= lane < SNAPSHOT_LANES,
        is_queued(before, &states[0], lane, lease),
        is_history(states),
        lane_busy(states, lane, states.len() - 1),
        !states.last().poisoned,
        after.prefix_copies@ == states.last().prefix_copies@.update(lane, None),
        after.owner == states.last().owner,
        after.poisoned == states.last().poisoned,
        after.requests@ == states.last().requests@,
        after.generations@ == states.last().generations@,
        after.windows@ == states.last().windows@,
        after.sources@ == states.last().sources@,
    ensures
        ({
            let kept = states.last().prefix_copies@[lane]->Some_0.prefix;
            &&& kept.owner == before.owner
            &&& kept.end == before.live(lease).end
            &&& after.prefix_copies@[lane] is None
            &&& after.history_error(lease) is None
            &&& after.live(lease).end == kept.end
        }),
{
    let s = lease.slot as int;
    let request = before.live(lease);
    lemma_queued_same(before, &states[0], lane, lease, s);
    assert(only_lane(&states[0], lane, lease)) by {
        assert forall|k: int| 0 <= k < SNAPSHOT_LANES && k != lane implies !((
        #[trigger] states[0].prefix_copies@[k]) matches Some(pending) && pending.lease == lease) by {
            assert(states[0].prefix_copies@[k] == before.prefix_copies@[k]);
            if before.prefix_copies@[k] matches Some(pending) && pending.lease == lease {
                assert(before.snapshotting(lease));
            }
        }
    }
    lemma_queued(states, lane, states.len() - 1);
    lemma_sizes(states, states.len() - 1);
    assert(!after.snapshotting(lease)) by {
        if after.snapshotting(lease) {
            let k = choose|k: int|
                0 <= k < after.prefix_copies@.len() && ((
                #[trigger] after.prefix_copies@[k]) matches Some(p) && p.lease == lease);
            assert(k != lane);
            assert(states.last().prefix_copies@[k] == after.prefix_copies@[k]);
        }
    }
    assert(before.leases_wf(s, &request));
    assert(laws::same_at(after, before, s)) by {
        assert forall|l: int| 0 <= l < LAYERS implies {
            &&& (#[trigger] after.windows@[l]).owner == before.windows@[l].owner
            &&& after.windows@[l].slots@.len() == before.windows@[l].slots@.len()
            &&& after.windows@[l].slots@[s] == before.windows@[l].slots@[s]
        } by {
            assert(states.last().windows@[l].owner == states[0].windows@[l].owner);
        }
        assert forall|i: int| 0 <= i < SOURCE_COUNT implies {
            &&& (#[trigger] after.sources@[i]).same_identity(&before.sources@[i])
            &&& after.sources@[i].slots@[s] == before.sources@[i].slots@[s]
        } by {
            assert(states.last().sources@[i].same_identity(&states[0].sources@[i]));
            assert(states[0].sources@[i].same_identity(&before.sources@[i]));
        }
    }
    laws::lemma_same_history(after, before, s, &request);
}

} // verus!
