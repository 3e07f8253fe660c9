//! What a commit and a given-up commit make of the windows.
use crate::window;
use crate::window::{WindowChunk, WindowSlot, WindowState, WindowWave};
use vstd::prelude::*;

verus! {

/// No two chunks are for the same slot, and all are for slots of the state.
pub open spec fn slots_differ(slots: Seq<WindowSlot>, chunks: Seq<WindowChunk>) -> bool {
    &&& forall|i: int|
        0 <= i < chunks.len() ==> (#[trigger] chunks[i]).lease.slot < slots.len()
    &&& forall|i: int, j: int|
        0 <= i < j < chunks.len() ==> (#[trigger] chunks[i]).lease.slot != (
        #[trigger] chunks[j]).lease.slot
}

/// Some of the first `n` chunks is for `slot`.
pub open spec fn takes_slot(chunks: Seq<WindowChunk>, n: int, slot: int) -> bool {
    exists|i: int| 0 <= i < n && (#[trigger] chunks[i]).lease.slot == slot
}

proof fn lemma_moved(
    slots: Seq<WindowSlot>,
    chunks: Seq<WindowChunk>,
    accepted: Seq<u32>,
    n: int,
    s: int,
)
    requires
        0 <= n <= chunks.len() == accepted.len(),
        slots_differ(slots, chunks),
        0 <= s < slots.len(),
        forall|i: int|
            0 <= i < chunks.len() ==> (#[trigger] chunks[i]).position + accepted[i] <= u64::MAX,
    ensures
        ({
            let now = window::moved(slots, chunks, accepted, n);
            &&& now.len() == slots.len()
            &&& now[s].request == slots[s].request
            &&& now[s].generation == slots[s].generation
            &&& !takes_slot(chunks, n, s) ==> now[s] == slots[s]
            &&& forall|i: int|
                0 <= i < n && (#[trigger] chunks[i]).lease.slot == s ==> now[s].end
                    == chunks[i].position + accepted[i]
        }),
    decreases n,
{
    if n > 0 {
        lemma_moved(slots, chunks, accepted, n - 1, s);
        window::lemma_moved_len(slots, chunks, accepted, n - 1);
        lemma_moved(slots, chunks, accepted, n - 1, chunks[n - 1].lease.slot as int);
        if takes_slot(chunks, n - 1, s) {
            let i = choose|i: int| 0 <= i < n - 1 && (#[trigger] chunks[i]).lease.slot == s;
            assert(takes_slot(chunks, n, s));
        }
        if chunks[n - 1].lease.slot == s {
            assert(takes_slot(chunks, n, s));
        }
    }
}

proof fn lemma_current(state: &WindowState, chunks: Seq<WindowChunk>, n: int, i: int)
    requires
        window::window_stale(state, chunks, n) is None,
        0 <= i < n,
    ensures
        state.lease_error(chunks[i].lease) is None,
        state.slots@[chunks[i].lease.slot as int].end == chunks[i].position,
    decreases n,
{
    if i < n - 1 {
        lemma_current(state, chunks, n - 1, i);
    }
}

/// A commit moves every window of its requests on by the tokens that were accepted,
/// and leaves the requests themselves and all other windows as they were.
pub proof fn law_commit_moves_windows_by_the_accepted_tokens(
    wave: &WindowWave,
    state: &WindowState,
    accepted: Seq<u32>,
    i: int,
    s: int,
)
    requires
        state.inv(),
        wave.fits(state),
        wave.commit_error(state, accepted, true) is None,
        slots_differ(state.slots@, wave.prepared->Some_0.chunks@),
        forall|k: int|
            0 <= k < accepted.len() ==> #[trigger] accepted[k]
                <= wave.prepared->Some_0.chunks@[k].tokens,
        0 <= i < wave.prepared->Some_0.chunks@.len(),
        0 <= s < state.slots@.len(),
    ensures
        ({
            let chunks = wave.prepared->Some_0.chunks@;
            let now = window::moved(state.slots@, chunks, accepted, chunks.len() as int);
            let slot = chunks[i].lease.slot as int;
            &&& now.len() == state.slots@.len()
            &&& now[slot].end == state.slots@[slot].end + accepted[i]
            &&& now[s].request == state.slots@[s].request
            &&& now[s].generation == state.slots@[s].generation
            &&& !takes_slot(chunks, chunks.len() as int, s) ==> now[s].end == state.slots@[s].end
        }),
{
    let chunks = wave.prepared->Some_0.chunks@;
    let n = chunks.len() as int;
    assert forall|k: int| 0 <= k < chunks.len() implies (#[trigger] chunks[k]).position
        + accepted[k] <= u64::MAX by {
        assert(accepted[k] <= chunks[k].tokens);
    }
    lemma_moved(state.slots@, chunks, accepted, n, s);
    lemma_moved(state.slots@, chunks, accepted, n, chunks[i].lease.slot as int);
    lemma_current(state, chunks, n, i);
}

proof fn lemma_revoked(slots: Seq<WindowSlot>, chunks: Seq<WindowChunk>, n: int, s: int)
    requires
        0 <= n <= chunks.len(),
        forall|i: int|
            0 <= i < chunks.len() ==> (#[trigger] chunks[i]).lease.slot < slots.len(),
        0 <= s < slots.len(),
    ensures
        ({
            let now = window::revoked(slots, chunks, n);
            &&& now.len() == slots.len()
            &&& now[s].end == slots[s].end
            &&& now[s].generation == slots[s].generation
            &&& now[s].request == if takes_slot(chunks, n, s) {
                None
            } else {
                slots[s].request
            }
        }),
    decreases n,
{
    if n > 0 {
        lemma_revoked(slots, chunks, n - 1, s);
        lemma_revoked(slots, chunks, n - 1, chunks[n - 1].lease.slot as int);
        if takes_slot(chunks, n - 1, s) {
            let i = choose|i: int| 0 <= i < n - 1 && (#[trigger] chunks[i]).lease.slot == s;
            assert(takes_slot(chunks, n, s));
        }
        if chunks[n - 1].lease.slot == s {
            assert(takes_slot(chunks, n, s));
        }
    }
}

/// Giving up a queued commit ends exactly the requests that take part in it, and
/// moves no window.
pub proof fn law_given_up_commit_ends_its_requests(
    slots: Seq<WindowSlot>,
    chunks: Seq<WindowChunk>,
    s: int,
)
    requires
        forall|i: int|
            0 <= i < chunks.len() ==> (#[trigger] chunks[i]).lease.slot < slots.len(),
        0 <= s < slots.len(),
    ensures
        ({
            let now = window::revoked(slots, chunks, chunks.len() as int);
            &&& now.len() == slots.len()
            &&& now[s].end == slots[s].end
            &&& now[s].generation == slots[s].generation
            &&& takes_slot(chunks, chunks.len() as int, s) ==> now[s].request is None
            &&& !takes_slot(chunks, chunks.len() as int, s) ==> now[s].request == slots[s].request
        }),
{
    lemma_revoked(slots, chunks, chunks.len() as int, s);
}

proof fn lemma_marked(
    marks: Seq<bool>,
    chunks: Seq<WindowChunk>,
    n: int,
    value: bool,
    s: int,
)
    requires
        0 <= n <= chunks.len(),
        forall|i: int|
            0 <= i < chunks.len() ==> (#[trigger] chunks[i]).lease.slot < marks.len(),
        0 <= s < marks.len(),
    ensures
        window::marked(marks, chunks, n, value).len() == marks.len(),
        window::marked(marks, chunks, n, value)[s] == if takes_slot(chunks, n, s) {
            value
        } else {
            marks[s]
        },
    decreases n,
{
    if n > 0 {
        lemma_marked(marks, chunks, n - 1, value, s);
        if takes_slot(chunks, n - 1, s) {
            let i = choose|i: int| 0 <= i < n - 1 && (#[trigger] chunks[i]).lease.slot == s;
            assert(takes_slot(chunks, n, s));
        }
        if chunks[n - 1].lease.slot == s {
            assert(takes_slot(chunks, n, s));
        }
    }
}

/// Queueing a commit marks exactly the windows that take part in it as being written,
/// and its end, one way or the other, clears exactly these marks.
pub proof fn law_queued_commit_marks_its_windows(
    marks: Seq<bool>,
    chunks: Seq<WindowChunk>,
    s: int,
)
    requires
        forall|i: int|
            0 <= i < chunks.len() ==> (#[trigger] chunks[i]).lease.slot < marks.len(),
        0 <= s < marks.len(),
    ensures
        ({
            let n = chunks.len() as int;
            let queued = window::marked(marks, chunks, n, true);
            let ended = window::marked(queued, chunks, n, false);
            &&& queued.len() == marks.len() && ended.len() == marks.len()
            &&& takes_slot(chunks, n, s) ==> queued[s] && !ended[s]
            &&& !takes_slot(chunks, n, s) ==> queued[s] == marks[s] && ended[s] == marks[s]
        }),
{
    let n = chunks.len() as int;
    lemma_marked(marks, chunks, n, true, s);
    lemma_marked(window::marked(marks, chunks, n, true), chunks, n, false, s);
}

} // verus!
