//! Publishing the accepted part of a proposal. A lane's page claims survive the
//! device work between queueing a commit and completing it.
use crate::compressor::wave;
use crate::compressor::wave::{CompressorWave, Prepared};
use crate::compressor::{CompressorChunk, CompressorLatentRow, CompressorLease, CompressorState, Slot, MAX_CONTEXT};
use crate::error::Error;
use crate::page_pool;
use crate::source_cache;
use crate::source_cache::apply;
use crate::source_cache::memory;
use crate::source_cache::replica::{Device, SourceReplica};
use crate::source_cache::{Append, AppendView, IndexPlan, SourceCache, MAX_SLOTS};
use vstd::prelude::*;

verus! {

/// A commit whose rows are being written.
pub struct PendingCommit {
    pub prepared: Prepared,
    pub plan: IndexPlan,
    pub completed: Vec<CompressorLatentRow>,
    pub accepted: Vec<u32>,
}

/// What the device has to do for a commit, besides the copies and uploads of
/// its page plan.
pub struct CommitWork {
    /// Physical row of every proposal row, or `u64::MAX` for rows to skip.
    pub destinations: Vec<u64>,
    /// Slots whose unfinished group is carried, with the proposal row to keep.
    pub carries: Vec<(usize, usize)>,
}

/// The appends that commit `accepted` tokens of each chunk.
pub open spec fn commit_appends(prepared: &Prepared, accepted: Seq<u32>, step: int) -> Seq<Append> {
    Seq::new(
        prepared.chunks@.len(),
        |i: int|
            {
                let chunk = prepared.chunks@[i];
                (
                    chunk.lease.slot,
                    (chunk.position as int / step) as usize,
                    ((chunk.position + accepted[i]) / step) as usize,
                )
            },
    )
}

/// The accepted completed rows of the first `n` chunks.
pub open spec fn accepted_rows(prepared: &Prepared, accepted: Seq<u32>, step: int, n: int) -> Seq<
    CompressorLatentRow,
>
    decreases n,
{
    if n <= 0 {
        Seq::empty()
    } else {
        accepted_rows(prepared, accepted, step, n - 1) + wave::chunk_completed(
            prepared.chunks@[n - 1],
            step,
            wave::chunk_rows(prepared.chunks@, n - 1),
            accepted[n - 1] as int,
        )
    }
}

/// Slots of the first `n` chunks that end inside a ratio-two group, with their
/// last accepted row.
pub open spec fn carried_rows(prepared: &Prepared, accepted: Seq<u32>, step: int, n: int) -> Seq<
    (usize, usize),
>
    decreases n,
{
    if n <= 0 {
        Seq::empty()
    } else {
        let before = carried_rows(prepared, accepted, step, n - 1);
        let chunk = prepared.chunks@[n - 1];
        let count = accepted[n - 1];
        if step == 2 && count > 0 && (chunk.position + count) % 2 == 1 {
            before.push(
                (
                    chunk.lease.slot,
                    (wave::chunk_rows(prepared.chunks@, n - 1) + count - 1) as usize,
                ),
            )
        } else {
            before
        }
    }
}

/// The first of the first `n` chunks that cannot be committed.
pub open spec fn accept_error(
    state: &CompressorState,
    prepared: &Prepared,
    accepted: Seq<u32>,
    n: int,
) -> Option<Error>
    decreases n,
{
    if n <= 0 {
        None
    } else {
        let chunk = prepared.chunks@[n - 1];
        let slot = state.slots@[chunk.lease.slot as int];
        match accept_error(state, prepared, accepted, n - 1) {
            Some(e) => Some(e),
            None => match state.idle_error(chunk.lease) {
                Some(e) => Some(e),
                None => if !(slot.version == prepared.versions@[n - 1] && slot.end
                    == chunk.position) {
                    Some(Error::StaleCompressorProposal)
                } else if accepted[n - 1] > chunk.tokens {
                    Some(Error::CompressorAcceptance)
                } else if slot.version == u64::MAX {
                    Some(Error::CompressorVersions)
                } else {
                    None
                },
            },
        }
    }
}

proof fn lemma_accept_error_stays(
    state: &CompressorState,
    prepared: &Prepared,
    accepted: Seq<u32>,
    n: int,
    m: int,
)
    requires
        accept_error(state, prepared, accepted, n) is Some,
        0 <= n <= m,
    ensures
        accept_error(state, prepared, accepted, m) == accept_error(state, prepared, accepted, n),
    decreases m,
{
    if n < m {
        lemma_accept_error_stays(state, prepared, accepted, n, m - 1);
    }
}

proof fn lemma_acceptable(
    state: &CompressorState,
    prepared: &Prepared,
    accepted: Seq<u32>,
    n: int,
    i: int,
)
    requires
        accept_error(state, prepared, accepted, n) is None,
        0 <= i < n,
    ensures
        state.idle_error(prepared.chunks@[i].lease) is None,
        state.slots@[prepared.chunks@[i].lease.slot as int].version == prepared.versions@[i],
        state.slots@[prepared.chunks@[i].lease.slot as int].end == prepared.chunks@[i].position,
        accepted[i] <= prepared.chunks@[i].tokens,
        prepared.versions@[i] < u64::MAX,
    decreases n,
{
    if i < n - 1 {
        lemma_acceptable(state, prepared, accepted, n - 1, i);
    }
}

impl CompressorWave {
    /// Why the published proposal cannot be committed, if it cannot. The page
    /// pool may still be too full.
    pub open spec fn commit_error(&self, state: &CompressorState, accepted: Seq<u32>) -> Option<Error> {
        if self.pending_commit is Some {
            Some(Error::CompressorCommitQueued)
        } else if state.index.replica is Some && self.replica != Some(state.index.identity) {
            Some(Error::ProducerReplica)
        } else if self.replica is Some && self.replica != Some(state.index.identity) {
            Some(Error::ForeignReplica)
        } else {
            match self.ready {
                None => Some(Error::NoProposal),
                Some(p) => if !(p.owner == state.owner && accepted.len() == p.chunks@.len()) {
                    Some(Error::CommitBinding)
                } else {
                    accept_error(state, &p, accepted, p.chunks@.len() as int)
                },
            }
        }
    }

    /// A commit is refused before the proposal is taken.
    pub open spec fn keeps_proposal(&self, state: &CompressorState) -> bool {
        let published = self.replica == Some(state.index.identity);
        self.pending_commit is Some || (state.index.replica is Some || self.replica is Some)
            && !published
    }

    /// A queued commit belongs to this lane and holds its page claims.
    pub open spec fn commit_fits(&self, state: &CompressorState) -> bool {
        self.pending_commit matches Some(pending) ==> (pending.prepared.owner == state.owner
            ==> pending_fits(self, state, &pending))
    }
}

pub open spec fn pending_fits(
    wave: &CompressorWave,
    state: &CompressorState,
    pending: &PendingCommit,
) -> bool {
    let p = &pending.prepared;
    let n = p.chunks@.len() as int;
    &&& state.layer == wave.layer
    &&& wave.fits(p, state.slot_count as int)
    &&& state.index.in_flight(&pending.plan)
    &&& pending.accepted@.len() == n
    &&& pending.completed@ == accepted_rows(p, pending.accepted@, wave.step(), n)
    &&& pending.plan@.len() == n
    &&& forall|i: int|
        0 <= i < n ==> {
            let chunk = #[trigger] p.chunks@[i];
            &&& pending.plan@[i].slot == chunk.lease.slot
            &&& pending.plan@[i].start == chunk.position as int / wave.step()
            &&& pending.plan@[i].end == (chunk.position + pending.accepted@[i]) / wave.step()
            &&& pending.accepted@[i] <= chunk.tokens
            &&& p.versions@[i] < u64::MAX
        }
}

impl CompressorWave {
    /// Checks the chunks of a proposal against the state and the acceptance.
    fn check_acceptance(state: &CompressorState, prepared: &Prepared, accepted: &[u32]) -> (r: Result<
        (),
        Error,
    >)
        requires
            state.inv(),
            prepared.versions@.len() == prepared.chunks@.len(),
            accepted@.len() == prepared.chunks@.len(),
        ensures
            match r {
                Ok(_) => accept_error(
                    state,
                    prepared,
                    accepted@,
                    prepared.chunks@.len() as int,
                ) is None,
                Err(e) => accept_error(state, prepared, accepted@, prepared.chunks@.len() as int)
                    == Some(e),
            },
    {
        let mut i: usize = 0;
        while i < prepared.chunks.len()
            invariant
                i <= prepared.chunks@.len(),
                state.inv(),
                prepared.versions@.len() == prepared.chunks@.len(),
                accepted@.len() == prepared.chunks@.len(),
                accept_error(state, prepared, accepted@, i as int) is None,
            decreases prepared.chunks@.len() - i,
        {
            let chunk = prepared.chunks[i];
            proof {
                if accept_error(state, prepared, accepted@, i + 1) is Some {
                    lemma_accept_error_stays(
                        state,
                        prepared,
                        accepted@,
                        i + 1,
                        prepared.chunks@.len() as int,
                    );
                }
            }
            let slot: usize = match state.validate(chunk.lease) {
                Err(e) => {
                    return Err(e);
                },
                Ok(slot) => slot,
            };
            if state.slots[slot].version != prepared.versions[i] || state.slots[slot].end
                != chunk.position {
                return Err(Error::StaleCompressorProposal);
            }
            if accepted[i] > chunk.tokens {
                return Err(Error::CompressorAcceptance);
            }
            if state.slots[slot].version == u64::MAX {
                return Err(Error::CompressorVersions);
            }
            i = i + 1;
        }
        Ok(())
    }

    /// The accepted completed rows, the appends that publish them, and the rows
    /// to carry.
    fn split_acceptance(&self, prepared: &Prepared, accepted: &[u32], slot_count: usize) -> (r: (
        Vec<CompressorLatentRow>,
        Vec<Append>,
        Vec<(usize, usize)>,
    ))
        requires
            self.inv(),
            self.fits(prepared, slot_count as int),
            accepted@.len() == prepared.chunks@.len(),
            forall|i: int|
                0 <= i < accepted@.len() ==> (#[trigger] accepted@[i]) <= prepared.chunks@[i].tokens,
        ensures
            r.0@ == accepted_rows(
                prepared,
                accepted@,
                self.step(),
                prepared.chunks@.len() as int,
            ),
            r.1@ == commit_appends(prepared, accepted@, self.step()),
            r.2@ == carried_rows(prepared, accepted@, self.step(), prepared.chunks@.len() as int),
    {
        let step: u64 = if self.layer == 20 {
            1
        } else {
            2
        };
        let ghost n = prepared.chunks@.len() as int;
        let mut completed: Vec<CompressorLatentRow> = Vec::new();
        let mut appends: Vec<Append> = Vec::new();
        let mut carries: Vec<(usize, usize)> = Vec::new();
        let mut i: usize = 0;
        while i < prepared.chunks.len()
            invariant
                i <= prepared.chunks@.len() == n,
                self.inv(),
                self.fits(prepared, slot_count as int),
                step == self.step(),
                accepted@.len() == n,
                forall|k: int|
                    0 <= k < n ==> (#[trigger] accepted@[k]) <= prepared.chunks@[k].tokens,
                completed@ == accepted_rows(prepared, accepted@, step as int, i as int),
                appends@ == commit_appends(prepared, accepted@, step as int).take(i as int),
                carries@ == carried_rows(prepared, accepted@, step as int, i as int),
            decreases n - i,
        {
            let chunk = prepared.chunks[i];
            let base: usize = prepared.offsets[i];
            let count: u32 = accepted[i];
            proof {
                wave::lemma_chunk_rows_monotonic(prepared.chunks@, i as int, i + 1);
                wave::lemma_chunk_rows_monotonic(prepared.chunks@, i + 1, n);
                assert(base == wave::chunk_rows(prepared.chunks@, i as int));
                assert(base + chunk.tokens <= prepared.rows);
            }
            let ghost before = completed@;
            let mut j: u32 = 0;
            while j < count
                invariant
                    j <= count <= chunk.tokens,
                    step == 1 || step == 2,
                    base + chunk.tokens <= 4096,
                    chunk.position + chunk.tokens <= MAX_CONTEXT,
                    completed@ == before + wave::chunk_completed(
                        chunk,
                        step as int,
                        base as int,
                        j as int,
                    ),
                decreases count - j,
            {
                let position: u64 = chunk.position + j as u64;
                if step == 1 || position % 2 == 1 {
                    completed.push(
                        CompressorLatentRow {
                            lease: chunk.lease,
                            source_row: (base + j as usize) as u32,
                            position: position + 1 - step,
                        },
                    );
                }
                j = j + 1;
                assert(completed@ =~= before + wave::chunk_completed(
                    chunk,
                    step as int,
                    base as int,
                    j as int,
                ));
            }
            let start: usize = (chunk.position / step) as usize;
            let end: usize = ((chunk.position + count as u64) / step) as usize;
            appends.push((chunk.lease.slot, start, end));
            if step == 2 && count > 0 && (chunk.position + count as u64) % 2 == 1 {
                carries.push((chunk.lease.slot, base + count as usize - 1));
            }
            assert(appends@ =~= commit_appends(prepared, accepted@, step as int).take(i + 1));
            i = i + 1;
        }
        assert(appends@ =~= commit_appends(prepared, accepted@, step as int));
        (completed, appends, carries)
    }

    /// Physical rows of the accepted completed rows.
    fn place_rows(
        index: &SourceCache,
        plan: &IndexPlan,
        completed: &Vec<CompressorLatentRow>,
        rows: usize,
        step: u64,
    ) -> (r: Vec<u64>)
        requires
            index.inv(),
            index.in_flight(plan),
            step == 1 || step == 2,
            forall|k: int|
                0 <= k < completed@.len() ==> {
                    let row = #[trigger] completed@[k];
                    &&& row.source_row < rows
                    &&& row.lease.slot < MAX_SLOTS
                    &&& row.position as int / step as int <= MAX_CONTEXT
                    &&& row.position as int / step as int / 256 < apply::applied_tables(
                        index.tables(),
                        plan@,
                        plan@.len() as int,
                    )[row.lease.slot as int].len()
                },
            forall|k: int, l: int|
                0 <= k < l < completed@.len() ==> (#[trigger] completed@[k]).source_row != (
                #[trigger] completed@[l]).source_row,
        ensures
            placed(index, plan, completed@, rows as int, step as int, r@),
    {
        let mut destinations: Vec<u64> = Vec::new();
        let mut i: usize = 0;
        while i < rows
            invariant
                i <= rows,
                destinations@ == Seq::new(i as nat, |x: int| u64::MAX),
            decreases rows - i,
        {
            destinations.push(u64::MAX);
            i = i + 1;
        }
        let ghost after = apply::applied_tables(
            index.tables(),
            plan@,
            plan@.len() as int,
        );
        i = 0;
        while i < completed.len()
            invariant
                i <= completed@.len(),
                index.inv(),
                index.in_flight(plan),
                step == 1 || step == 2,
                destinations@.len() == rows,
                after == apply::applied_tables(index.tables(), plan@, plan@.len() as int),
                forall|k: int|
                    0 <= k < completed@.len() ==> {
                        let row = #[trigger] completed@[k];
                        &&& row.source_row < rows
                        &&& row.lease.slot < MAX_SLOTS
                        &&& row.position as int / step as int <= MAX_CONTEXT
                        &&& row.position as int / step as int / 256
                            < after[row.lease.slot as int].len()
                    },
                forall|k: int, l: int|
                    0 <= k < l < completed@.len() ==> (#[trigger] completed@[k]).source_row != (
                    #[trigger] completed@[l]).source_row,
                forall|k: int|
                    0 <= k < i ==> destinations@[(#[trigger] completed@[k]).source_row as int]
                        == row_home(after, completed@[k], step as int),
                forall|x: int|
                    #![trigger destinations@[x]]
                    0 <= x < rows && (forall|k: int|
                        0 <= k < i ==> (#[trigger] completed@[k]).source_row != x)
                        ==> destinations@[x] == u64::MAX,
            decreases completed@.len() - i,
        {
            let row = completed[i];
            let logical: usize = (row.position / step) as usize;
            let physical: u64 = match index.destination(plan, row.lease.slot, logical) {
                Ok(physical) => physical,
                Err(_) => 0,
            };
            assert(physical == row_home(after, row, step as int));
            let ghost before = destinations@;
            destinations[row.source_row as usize] = physical;
            i = i + 1;
            proof {
                assert forall|k: int| 0 <= k < i implies destinations@[(
                #[trigger] completed@[k]).source_row as int] == row_home(
                    after,
                    completed@[k],
                    step as int,
                ) by {
                    if k < i - 1 {
                        assert(completed@[k].source_row != completed@[i - 1].source_row);
                    }
                }
                assert forall|x: int|
                    #![trigger destinations@[x]]
                    0 <= x < rows && (forall|k: int|
                        0 <= k < i ==> (#[trigger] completed@[k]).source_row
                            != x) implies destinations@[x] == u64::MAX by {
                    assert(completed@[i - 1].source_row != x);
                    assert(before[x] == u64::MAX) by {
                        assert forall|k: int| 0 <= k < i - 1 implies (
                        #[trigger] completed@[k]).source_row != x by {}
                    }
                }
            }
        }
        destinations
    }
}

/// Where an accepted row goes.
pub open spec fn row_home(after: Seq<Seq<u32>>, row: CompressorLatentRow, step: int) -> u64 {
    memory::physical_row(after[row.lease.slot as int], row.position as int / step) as u64
}

/// Every accepted row goes to its place in the new tables, every other row of
/// the proposal nowhere.
pub open spec fn placed(
    index: &SourceCache,
    plan: &IndexPlan,
    completed: Seq<CompressorLatentRow>,
    rows: int,
    step: int,
    destinations: Seq<u64>,
) -> bool {
    let after = apply::applied_tables(index.tables(), plan@, plan@.len() as int);
    &&& destinations.len() == rows
    &&& forall|k: int|
        0 <= k < completed.len() ==> destinations[(#[trigger] completed[k]).source_row as int]
            == row_home(after, completed[k], step)
    &&& forall|x: int|
        #![trigger destinations[x]]
        0 <= x < rows && (forall|k: int|
            0 <= k < completed.len() ==> (#[trigger] completed[k]).source_row != x)
            ==> destinations[x] == u64::MAX
}

/// Accepted rows lie in their chunks, in order, and continue the committed rows.
proof fn lemma_accepted_rows(prepared: &Prepared, accepted: Seq<u32>, step: int, n: int)
    requires
        step == 1 || step == 2,
        0 <= n <= prepared.chunks@.len(),
        accepted.len() == prepared.chunks@.len(),
        wave::chunk_rows(prepared.chunks@, prepared.chunks@.len() as int) <= 4096,
        forall|i: int|
            0 <= i < prepared.chunks@.len() ==> accepted[i] <= (
            #[trigger] prepared.chunks@[i]).tokens && prepared.chunks@[i].position
                + prepared.chunks@[i].tokens <= MAX_CONTEXT,
    ensures
        ({
            let rows = accepted_rows(prepared, accepted, step, n);
            &&& forall|k: int|
                0 <= k < rows.len() ==> (#[trigger] rows[k]).source_row < wave::chunk_rows(
                    prepared.chunks@,
                    n,
                ) && row_of_chunk(prepared, accepted, step, n, rows[k])
            &&& forall|k: int, l: int|
                0 <= k < l < rows.len() ==> (#[trigger] rows[k]).source_row < (
                #[trigger] rows[l]).source_row
        }),
    decreases n,
{
    if n > 0 {
        lemma_accepted_rows(prepared, accepted, step, n - 1);
        let before = accepted_rows(prepared, accepted, step, n - 1);
        let chunk = prepared.chunks@[n - 1];
        let base = wave::chunk_rows(prepared.chunks@, n - 1);
        let own = wave::chunk_completed(chunk, step, base, accepted[n - 1] as int);
        let rows = accepted_rows(prepared, accepted, step, n);
        wave::lemma_chunk_rows_monotonic(prepared.chunks@, n - 1, n);
        wave::lemma_chunk_rows_monotonic(
            prepared.chunks@,
            n,
            prepared.chunks@.len() as int,
        );
        assert(accepted[n - 1] <= prepared.chunks@[n - 1].tokens);
        wave::law_completed_rows_are_strided(chunk, step, base, accepted[n - 1] as int);
        assert forall|k: int| 0 <= k < own.len() implies {
            &&& base <= (#[trigger] own[k]).source_row < base + accepted[n - 1]
            &&& own[k].lease == chunk.lease
            &&& chunk.position as int / step <= own[k].position as int / step < (chunk.position
                + accepted[n - 1]) / step
        } by {
            let first = chunk.position as int / step;
            if step == 1 {
                assert(own[k].source_row == base + k);
            } else {
                assert(own[k].position == (first + k) * 2);
                assert(own[k].position as int / 2 == first + k);
            }
        }
        assert forall|k: int| 0 <= k < rows.len() implies (#[trigger] rows[k]).source_row
            < wave::chunk_rows(prepared.chunks@, n) && row_of_chunk(
            prepared,
            accepted,
            step,
            n,
            rows[k],
        ) by {
            if k < before.len() {
                assert(rows[k] == before[k]);
                let i = choose|i: int| 0 <= i < n - 1 && in_chunk(prepared, accepted, step, i, rows[k]);
                assert(in_chunk(prepared, accepted, step, i, rows[k]));
            } else {
                assert(rows[k] == own[k - before.len()]);
                assert(in_chunk(prepared, accepted, step, n - 1, rows[k]));
            }
        }
        assert forall|k: int, l: int| 0 <= k < l < rows.len() implies (
        #[trigger] rows[k]).source_row < (#[trigger] rows[l]).source_row by {
            if l < before.len() {
                assert(rows[k] == before[k] && rows[l] == before[l]);
            } else if k < before.len() {
                assert(rows[k] == before[k] && rows[l] == own[l - before.len()]);
            } else {
                assert(rows[k] == own[k - before.len()] && rows[l] == own[l - before.len()]);
            }
        }
    }
}

/// `row` is an accepted completed row of chunk `i`.
pub open spec fn in_chunk(
    prepared: &Prepared,
    accepted: Seq<u32>,
    step: int,
    i: int,
    row: CompressorLatentRow,
) -> bool {
    let chunk = prepared.chunks@[i];
    &&& row.lease == chunk.lease
    &&& chunk.position as int / step <= row.position as int / step < (chunk.position + accepted[i])
        / step
}

pub open spec fn row_of_chunk(
    prepared: &Prepared,
    accepted: Seq<u32>,
    step: int,
    n: int,
    row: CompressorLatentRow,
) -> bool {
    exists|i: int| 0 <= i < n && #[trigger] in_chunk(prepared, accepted, step, i, row)
}

/// The slots' frontiers after a commit.
pub open spec fn committed_slots(
    slots: Seq<Slot>,
    prepared: &Prepared,
    accepted: Seq<u32>,
    n: int,
) -> Seq<Slot>
    decreases n,
{
    if n <= 0 {
        slots
    } else {
        let before = committed_slots(slots, prepared, accepted, n - 1);
        let chunk = prepared.chunks@[n - 1];
        let slot = chunk.lease.slot as int;
        before.update(
            slot,
            Slot {
                end: (chunk.position + accepted[n - 1]) as u64,
                version: (slots[slot].version + 1) as u64,
                ..slots[slot]
            },
        )
    }
}

impl SourceCache {
    /// The places of accepted rows lie in the tables that their append leaves.
    proof fn lemma_accepted_homes(
        &self,
        plan: &IndexPlan,
        prepared: &Prepared,
        accepted: Seq<u32>,
        step: int,
        slot_count: int,
        capacity: int,
    )
        requires
            self.inv(),
            self.in_flight(plan),
            step == 1 || step == 2,
            capacity <= 4096,
            prepared.wf(step, slot_count, capacity),
            accepted.len() == prepared.chunks@.len(),
            forall|i: int|
                0 <= i < accepted.len() ==> (#[trigger] accepted[i]) <= prepared.chunks@[i].tokens,
            plan@.len() == prepared.chunks@.len(),
            forall|i: int|
                0 <= i < plan@.len() ==> {
                    let appends = commit_appends(prepared, accepted, step);
                    &&& (#[trigger] plan@[i]).slot == appends[i].0
                    &&& plan@[i].end == appends[i].2
                },
        ensures
            ({
                let rows = accepted_rows(
                    prepared,
                    accepted,
                    step,
                    prepared.chunks@.len() as int,
                );
                let after = apply::applied_tables(self.tables(), plan@, plan@.len() as int);
                &&& forall|k: int|
                    0 <= k < rows.len() ==> {
                        let row = #[trigger] rows[k];
                        &&& row.source_row < prepared.rows
                        &&& row.lease.slot < MAX_SLOTS
                        &&& row.position as int / step <= MAX_CONTEXT
                        &&& row.position as int / step / 256 < after[row.lease.slot as int].len()
                    }
                &&& forall|k: int, l: int|
                    0 <= k < l < rows.len() ==> (#[trigger] rows[k]).source_row != (
                    #[trigger] rows[l]).source_row
            }),
    {
        let n = prepared.chunks@.len() as int;
        let rows = accepted_rows(prepared, accepted, step, n);
        let after = apply::applied_tables(self.tables(), plan@, plan@.len() as int);
        assert forall|i: int| 0 <= i < n implies accepted[i] <= (
        #[trigger] prepared.chunks@[i]).tokens by {
            assert(accepted[i] <= prepared.chunks@[i].tokens);
        }
        lemma_accepted_rows(prepared, accepted, step, n);
        assert(source_cache::plan_fits(
            self.tables(),
            self.rows@,
            self.pool.references@,
            self.slots as int,
            self.plans@[plan.ticket@],
        ));
        apply::lemma_applied(self.tables(), self.rows@, plan@, plan@.len() as int);
        assert forall|k: int| 0 <= k < rows.len() implies {
            let row = #[trigger] rows[k];
            &&& row.source_row < prepared.rows
            &&& row.lease.slot < MAX_SLOTS
            &&& row.position as int / step <= MAX_CONTEXT
            &&& row.position as int / step / 256 < after[row.lease.slot as int].len()
        } by {
            let row = rows[k];
            assert(row_of_chunk(prepared, accepted, step, n, row));
            let i = choose|i: int|
                0 <= i < n && #[trigger] in_chunk(prepared, accepted, step, i, row);
            let chunk = prepared.chunks@[i];
            assert(accepted[i] <= chunk.tokens);
            assert(plan@[i].slot == chunk.lease.slot);
            self.lemma_new_table(plan.ticket@, i);
            assert(after[plan@[i].slot] == apply::new_table(
                self.tables()[plan@[i].slot],
                plan@[i],
            ));
            assert(plan@[i].end == (chunk.position + accepted[i]) / step);
        }
    }
}

impl CompressorState {
    /// Claiming pages for live requests keeps the state sound.
    proof fn lemma_claimed(&self, before: &Self, ticket: int, plan: Seq<AppendView>)
        requires
            before.inv(),
            self.same_identity(before),
            self.slots@ == before.slots@,
            self.index.inv(),
            self.index.same_shape(&before.index),
            self.index.pages@ == before.index.pages@,
            self.index.plans@ == before.index.plans@.insert(ticket, plan),
            forall|k: int|
                0 <= k < plan.len() ==> 0 <= (#[trigger] plan[k]).slot < MAX_SLOTS
                    && before.slots@[plan[k].slot].request is Some,
        ensures
            self.inv(),
    {
        assert forall|s: int| 0 <= s < MAX_SLOTS implies {
            &&& (#[trigger] self.slots@[s]).end <= MAX_CONTEXT
            &&& s >= self.slot_count ==> self.slots@[s].request is None
            &&& self.slots@[s].request is None ==> self.index.pages@[s]@.len() == 0
                && !self.index.writing@[s]
        } by {
            assert(before.slots@[s].end <= MAX_CONTEXT);
            if self.slots@[s].request is None && self.index.writing@[s] {
                assert(self.index.appended(s));
                let (t, k) = choose|t: int, k: int|
                    #![trigger self.index.plans@[t][k]]
                    self.index.plans@.contains_key(t) && 0 <= k < self.index.plans@[t].len()
                        && self.index.plans@[t][k].slot == s;
                if t == ticket {
                    assert(plan[k].slot == s);
                } else {
                    assert(before.index.plans@[t][k].slot == s);
                    assert(before.index.appended(s));
                    assert(before.index.writing@[s]);
                }
            }
        }
    }
}

impl CompressorWave {
    /// Claims pages for the accepted part of the published proposal. The caller
    /// then copies shared tails, stores the rows, carries unfinished groups and
    /// uploads the metadata. The proposal is consumed even where this fails, unless
    /// a commit is queued already or the lane's peer copy is not the source's.
    pub fn enqueue_commit(&mut self, state: &mut CompressorState, accepted: &[u32]) -> (r: Result<
        CommitWork,
        Error,
    >)
        requires
            old(self).inv(),
            old(state).inv(),
            old(self).ready matches Some(p) ==> (p.owner == old(state).owner ==> old(self).fits(
                &p,
                old(state).slot_count as int,
            ) && old(state).layer == old(self).layer),
        ensures
            final(self).inv(),
            final(state).inv(),
            match r {
                Err(e) => {
                    &&& *final(state) == *old(state)
                    &&& *final(self) == if old(self).keeps_proposal(old(state)) {
                        *old(self)
                    } else {
                        CompressorWave { ready: None, ..*old(self) }
                    }
                    &&& match old(self).commit_error(old(state), accepted@) {
                        Some(reason) => e == reason,
                        None => old(state).index.planned(
                            commit_appends(
                                &old(self).ready->Some_0,
                                accepted@,
                                old(self).step(),
                            ),
                        ) == Err::<Seq<AppendView>, Error>(e),
                    }
                },
                Ok(work) => {
                    let p = old(self).ready->Some_0;
                    let n = p.chunks@.len() as int;
                    &&& old(self).commit_error(old(state), accepted@) is None
                    &&& *final(self) == (CompressorWave {
                        ready: None,
                        pending_commit: final(self).pending_commit,
                        ..*old(self)
                    })
                    &&& final(self).commit_fits(final(state))
                    &&& final(self).pending_commit matches Some(pending) && {
                        &&& pending.prepared == p
                        &&& pending.accepted@ == accepted@
                        &&& old(state).index.planned(
                            commit_appends(&p, accepted@, old(self).step()),
                        ) == Ok::<Seq<AppendView>, Error>(pending.plan@)
                        &&& placed(
                            &final(state).index,
                            &pending.plan,
                            pending.completed@,
                            p.rows as int,
                            old(self).step(),
                            work.destinations@,
                        )
                        &&& !old(state).index.plans@.contains_key(pending.plan.ticket@)
                        &&& final(state).index.plans@ == old(state).index.plans@.insert(
                            pending.plan.ticket@,
                            pending.plan@,
                        )
                        &&& old(state).index.pool.free@ == final(state).index.pool.free@
                            + pending.plan.pages@
                    }
                    &&& work.carries@ == carried_rows(&p, accepted@, old(self).step(), n)
                    &&& final(state).slots@ == old(state).slots@
                    &&& final(state).same_identity(old(state))
                    &&& final(state).index.same_shape(&old(state).index)
                    &&& final(state).index.pages@ == old(state).index.pages@
                    &&& final(state).index.rows@ == old(state).index.rows@
                    &&& final(state).index.pool.references@ == old(state).index.pool.references@
                    &&& final(state).index.pool.generations@ == old(state).index.pool.generations@
                },
            },
    {
        if self.pending_commit.is_some() {
            return Err(Error::CompressorCommitQueued);
        }
        let published: bool = match self.replica {
            Some(pool) => pool == state.index.identity,
            None => false,
        };
        if state.index.replica.is_some() && !published {
            return Err(Error::ProducerReplica);
        }
        if self.replica.is_some() && !published {
            return Err(Error::ForeignReplica);
        }
        let prepared = match self.ready.take() {
            None => {
                return Err(Error::NoProposal);
            },
            Some(prepared) => prepared,
        };
        if prepared.owner != state.owner || accepted.len() != prepared.chunks.len() {
            return Err(Error::CommitBinding);
        }
        match Self::check_acceptance(state, &prepared, accepted) {
            Err(e) => {
                return Err(e);
            },
            Ok(_) => {},
        }
        let ghost n = prepared.chunks@.len() as int;
        let ghost step_value = self.step();
        proof {
            assert forall|i: int| 0 <= i < accepted@.len() implies (#[trigger] accepted@[i])
                <= prepared.chunks@[i].tokens by {
                lemma_acceptable(state, &prepared, accepted@, n, i);
            }
        }
        let (completed, appends, carries) = self.split_acceptance(
            &prepared,
            accepted,
            state.slot_count,
        );
        let ghost index = state.index;
        let plan = match state.index.reserve(appends.as_slice()) {
            Err(e) => {
                return Err(e);
            },
            Ok(plan) => plan,
        };
        let step: u64 = if self.layer == 20 {
            1
        } else {
            2
        };
        proof {
            index.lemma_planned(appends@, plan@);
            state.index.lemma_accepted_homes(
                &plan,
                &prepared,
                accepted@,
                step as int,
                state.slot_count as int,
                self.capacity as int,
            );
            assert forall|k: int| 0 <= k < n implies {
                let chunk = #[trigger] prepared.chunks@[k];
                &&& plan@[k].slot == chunk.lease.slot
                &&& plan@[k].start == chunk.position as int / step_value
                &&& plan@[k].end == (chunk.position + accepted@[k]) / step_value
                &&& accepted@[k] <= chunk.tokens
                &&& prepared.versions@[k] < u64::MAX
                &&& old(state).slots@[chunk.lease.slot as int].request is Some
            } by {
                lemma_acceptable(old(state), &prepared, accepted@, n, k);
                assert(plan@[k].slot == appends@[k].0);
            }
            state.lemma_claimed(old(state), plan.ticket@, plan@);
        }
        let destinations = Self::place_rows(&state.index, &plan, &completed, prepared.rows, step);
        let mut kept: Vec<u32> = Vec::new();
        let mut i: usize = 0;
        while i < accepted.len()
            invariant
                i <= accepted@.len(),
                kept@ == accepted@.take(i as int),
            decreases accepted@.len() - i,
        {
            kept.push(accepted[i]);
            i = i + 1;
        }
        proof {
            assert(kept@ =~= accepted@);
        }
        self.pending_commit = Some(PendingCommit { prepared, plan, completed, accepted: kept });
        Ok(CommitWork { destinations, carries })
    }
}

/// The first of the first `n` chunks whose request has changed under a queued
/// commit.
pub open spec fn binding_error(state: &CompressorState, prepared: &Prepared, n: int) -> Option<Error>
    decreases n,
{
    if n <= 0 {
        None
    } else {
        let chunk = prepared.chunks@[n - 1];
        let slot = state.slots@[chunk.lease.slot as int];
        match binding_error(state, prepared, n - 1) {
            Some(e) => Some(e),
            None => match state.lease_error(chunk.lease) {
                Some(e) => Some(e),
                None => if slot.version == prepared.versions@[n - 1] && slot.end
                    == chunk.position {
                    None
                } else {
                    Some(Error::QueuedSourceBinding)
                },
            },
        }
    }
}

proof fn lemma_binding_error_stays(state: &CompressorState, prepared: &Prepared, n: int, m: int)
    requires
        binding_error(state, prepared, n) is Some,
        0 <= n <= m,
    ensures
        binding_error(state, prepared, m) == binding_error(state, prepared, n),
    decreases m,
{
    if n < m {
        lemma_binding_error_stays(state, prepared, n, m - 1);
    }
}

proof fn lemma_bound(state: &CompressorState, prepared: &Prepared, n: int, i: int)
    requires
        binding_error(state, prepared, n) is None,
        0 <= i < n,
    ensures
        state.lease_error(prepared.chunks@[i].lease) is None,
        state.slots@[prepared.chunks@[i].lease.slot as int].version == prepared.versions@[i],
        state.slots@[prepared.chunks@[i].lease.slot as int].end == prepared.chunks@[i].position,
    decreases n,
{
    if i < n - 1 {
        lemma_bound(state, prepared, n - 1, i);
    }
}

pub proof fn lemma_committed_slots(
    slots: Seq<Slot>,
    prepared: &Prepared,
    accepted: Seq<u32>,
    n: int,
)
    requires
        slots.len() == MAX_SLOTS,
        0 <= n <= prepared.chunks@.len(),
        forall|i: int|
            0 <= i < prepared.chunks@.len() ==> (#[trigger] prepared.chunks@[i]).lease.slot
                < MAX_SLOTS,
        forall|i: int, j: int|
            0 <= i < j < prepared.chunks@.len() ==> (#[trigger] prepared.chunks@[i]).lease.slot != (
            #[trigger] prepared.chunks@[j]).lease.slot,
    ensures
        committed_slots(slots, prepared, accepted, n).len() == MAX_SLOTS,
        forall|s: int|
            0 <= s < MAX_SLOTS && !chunk_slot(prepared, n, s) ==> #[trigger] committed_slots(
                slots,
                prepared,
                accepted,
                n,
            )[s] == slots[s],
        forall|i: int|
            0 <= i < n ==> {
                let chunk = #[trigger] prepared.chunks@[i];
                let slot = chunk.lease.slot as int;
                committed_slots(slots, prepared, accepted, n)[slot] == (Slot {
                    end: (chunk.position + accepted[i]) as u64,
                    version: (slots[slot].version + 1) as u64,
                    ..slots[slot]
                })
            },
    decreases n,
{
    if n > 0 {
        lemma_committed_slots(slots, prepared, accepted, n - 1);
        assert forall|i: int| 0 <= i < n implies {
            let chunk = #[trigger] prepared.chunks@[i];
            let slot = chunk.lease.slot as int;
            committed_slots(slots, prepared, accepted, n)[slot] == (Slot {
                end: (chunk.position + accepted[i]) as u64,
                version: (slots[slot].version + 1) as u64,
                ..slots[slot]
            })
        } by {
            if i < n - 1 {
                assert(prepared.chunks@[i].lease.slot != prepared.chunks@[n - 1].lease.slot);
            }
        }
        assert forall|s: int|
            0 <= s < MAX_SLOTS && !chunk_slot(
                prepared,
                n,
                s,
            ) implies #[trigger] committed_slots(slots, prepared, accepted, n)[s] == slots[s] by {
            assert(in_chunk_slot(prepared, n - 1, s) ==> chunk_slot(prepared, n, s));
            if chunk_slot(prepared, n - 1, s) {
                let i = choose|i: int| 0 <= i < n - 1 && #[trigger] in_chunk_slot(prepared, i, s);
                assert(in_chunk_slot(prepared, i, s));
            }
        }
    }
}

pub open spec fn in_chunk_slot(prepared: &Prepared, i: int, slot: int) -> bool {
    prepared.chunks@[i].lease.slot == slot
}

/// One of the first `n` chunks belongs to `slot`.
pub open spec fn chunk_slot(prepared: &Prepared, n: int, slot: int) -> bool {
    exists|i: int| 0 <= i < n && #[trigger] in_chunk_slot(prepared, i, slot)
}

impl CompressorWave {
    /// Why the queued commit cannot be completed, if it cannot.
    pub open spec fn pending_error(&self, state: &CompressorState) -> Option<Error> {
        match self.pending_commit {
            None => Some(Error::SourceCommitAbsent),
            Some(pending) => if pending.prepared.owner != state.owner {
                Some(Error::QueuedSourceOwner)
            } else {
                binding_error(
                    state,
                    &pending.prepared,
                    pending.prepared.chunks@.len() as int,
                )
            },
        }
    }

    /// Whether a queued commit is written; `drained` is what the stream says.
    pub fn poll_commit(&self, drained: Result<bool, Error>) -> (r: Result<bool, Error>)
        ensures
            r == if self.pending_commit is Some {
                drained
            } else {
                Ok::<bool, Error>(true)
            },
    {
        if self.pending_commit.is_none() {
            return Ok(true);
        }
        drained
    }

    /// The queued commit still fits the state.
    pub fn validate_pending_commit(&self, state: &CompressorState) -> (r: Result<&Prepared, Error>)
        requires
            self.inv(),
            state.inv(),
            self.commit_fits(state),
        ensures
            match r {
                Ok(prepared) => self.pending_error(state) is None && *prepared
                    == self.pending_commit->Some_0.prepared,
                Err(e) => self.pending_error(state) == Some(e),
            },
    {
        let pending: &PendingCommit = match &self.pending_commit {
            None => {
                return Err(Error::SourceCommitAbsent);
            },
            Some(pending) => pending,
        };
        let prepared: &Prepared = &pending.prepared;
        if prepared.owner != state.owner {
            return Err(Error::QueuedSourceOwner);
        }
        proof {
            assert forall|i: int| 0 <= i < pending.plan.appends@.len() implies (
            #[trigger] pending.plan.appends@[i]).slot < MAX_SLOTS by {
                assert(pending.plan@[i].slot == pending.plan.appends@[i].slot);
                assert(prepared.chunks@[i].lease.slot < state.slot_count);
            }
        }
        match state.index.validate_plan(&pending.plan) {
            Err(e) => {
                return Err(e);
            },
            Ok(_) => {},
        }
        let mut i: usize = 0;
        while i < prepared.chunks.len()
            invariant
                i <= prepared.chunks@.len(),
                state.inv(),
                prepared.versions@.len() == prepared.chunks@.len(),
                binding_error(state, prepared, i as int) is None,
                self.pending_commit matches Some(p) && p.prepared == *prepared,
                prepared.owner == state.owner,
            decreases prepared.chunks@.len() - i,
        {
            let chunk = prepared.chunks[i];
            proof {
                if binding_error(state, prepared, i + 1) is Some {
                    lemma_binding_error_stays(
                        state,
                        prepared,
                        i + 1,
                        prepared.chunks@.len() as int,
                    );
                }
            }
            let slot: usize = match state.validate_identity(chunk.lease) {
                Err(e) => {
                    return Err(e);
                },
                Ok(slot) => slot,
            };
            if state.slots[slot].version != prepared.versions[i] || state.slots[slot].end
                != chunk.position {
                return Err(Error::QueuedSourceBinding);
            }
            i = i + 1;
        }
        Ok(prepared)
    }

    /// Completes a queued commit once its device work is done: the accepted rows
    /// and frontiers become the committed ones.
    pub fn commit(&mut self, state: &mut CompressorState, accepted: &[u32], complete: bool) -> (r:
        Result<Vec<CompressorLatentRow>, Error>)
        requires
            old(self).inv(),
            old(state).inv(),
            old(self).commit_fits(old(state)),
        ensures
            final(self).inv(),
            final(state).inv(),
            match r {
                Err(e) => {
                    &&& *final(self) == *old(self)
                    &&& *final(state) == *old(state)
                    &&& match old(self).pending_error(old(state)) {
                        Some(reason) => e == reason,
                        None => if old(self).pending_commit->Some_0.accepted@ != accepted@ {
                            e == Error::AcceptanceChanged
                        } else {
                            e == Error::SourceCommitIncomplete && !complete
                        },
                    }
                },
                Ok(rows) => {
                    let pending = old(self).pending_commit->Some_0;
                    let p = pending.prepared;
                    let n = p.chunks@.len() as int;
                    &&& old(self).pending_error(old(state)) is None
                    &&& pending.accepted@ == accepted@
                    &&& complete
                    &&& rows@ == accepted_rows(&p, accepted@, old(self).step(), n)
                    &&& source_done(final(state), final(self), old(state), old(self), accepted@)
                },
            },
    {
        match self.validate_pending_commit(state) {
            Err(e) => {
                return Err(e);
            },
            Ok(_) => {},
        }
        let ghost before = *state;
        let ghost wave_before = *self;
        match &self.pending_commit {
            Some(pending) => {
                if !same_counts(&pending.accepted, accepted) {
                    return Err(Error::AcceptanceChanged);
                }
            },
            None => {},
        }
        if !complete {
            return Err(Error::SourceCommitIncomplete);
        }
        assert(self.pending_commit is Some);
        match self.pending_commit.take() {
            None => Err(Error::SourceCommitAbsent),
            Some(pending) => {
                let PendingCommit { prepared, plan, completed, accepted: counts } = pending;
                let ghost n = prepared.chunks@.len() as int;
                let ghost view = plan@;
                let ghost ticket = plan.ticket@;
                assert(counts@ == accepted@);
                state.index.apply(plan);
                let ghost applied = state.index;
                let mut i: usize = 0;
                while i < prepared.chunks.len()
                    invariant
                        i <= prepared.chunks@.len() == n,
                        before.inv(),
                        counts@.len() == n,
                        before.slots@.len() == MAX_SLOTS,
                        binding_error(&before, &prepared, n) is None,
                        state.slots@ == committed_slots(
                            before.slots@,
                            &prepared,
                            counts@,
                            i as int,
                        ),
                        state.slots@.len() == MAX_SLOTS,
                        state.same_identity(&before),
                        state.index == applied,
                        prepared.wf(
                            wave_before.step(),
                            before.slot_count as int,
                            wave_before.capacity as int,
                        ),
                        before.slot_count <= MAX_SLOTS,
                        forall|k: int|
                            0 <= k < n ==> counts@[k] <= (#[trigger] prepared.chunks@[k]).tokens
                                && prepared.versions@[k] < u64::MAX,
                    decreases n - i,
                {
                    let chunk = prepared.chunks[i];
                    let slot: usize = chunk.lease.slot;
                    proof {
                        lemma_bound(&before, &prepared, n, i as int);
                        lemma_committed_slots(before.slots@, &prepared, counts@, i as int);
                        assert(!chunk_slot(&prepared, i as int, slot as int)) by {
                            if chunk_slot(&prepared, i as int, slot as int) {
                                let k = choose|k: int|
                                    0 <= k < i && #[trigger] in_chunk_slot(
                                        &prepared,
                                        k,
                                        slot as int,
                                    );
                                assert(prepared.chunks@[k].lease.slot
                                    != prepared.chunks@[i as int].lease.slot);
                            }
                        }
                        assert(state.slots@[slot as int] == before.slots@[slot as int]);
                        assert(counts@[i as int] <= prepared.chunks@[i as int].tokens);
                    }
                    let was: Slot = state.slots[slot];
                    state.slots[slot] = Slot {
                        generation: was.generation,
                        version: was.version + 1,
                        request: was.request,
                        end: chunk.position + counts[i] as u64,
                    };
                    i = i + 1;
                }
                proof {
                    state.lemma_committed(&before, &prepared, counts@, ticket, view);
                    assert forall|page: u32|
                        page < before.index.pool.references@.len() implies state.index.retained(
                        page,
                    ) == #[trigger] before.index.retained(page) by {
                        assert(state.index.pool.references@[page as int]
                            == state.index.pool.references@[page as int]);
                    }
                }
                Ok(completed)
            },
        }
    }
}

impl CompressorState {
    /// Completing a commit keeps the state sound.
    proof fn lemma_committed(
        &self,
        before: &Self,
        prepared: &Prepared,
        accepted: Seq<u32>,
        ticket: int,
        plan: Seq<AppendView>,
    )
        requires
            before.inv(),
            self.same_identity(before),
            self.index.inv(),
            self.index.same_shape(&before.index),
            before.index.plans@.contains_key(ticket),
            before.index.plans@[ticket] == plan,
            self.index.plans@ == before.index.plans@.remove(ticket),
            self.index.tables() == apply::applied_tables(
                before.index.tables(),
                plan,
                plan.len() as int,
            ),
            plan.len() == prepared.chunks@.len(),
            forall|i: int|
                0 <= i < plan.len() ==> (#[trigger] plan[i]).slot == prepared.chunks@[i].lease.slot,
            forall|i: int|
                0 <= i < prepared.chunks@.len() ==> {
                    let chunk = #[trigger] prepared.chunks@[i];
                    &&& chunk.lease.slot < before.slot_count
                    &&& chunk.position + chunk.tokens <= MAX_CONTEXT
                    &&& accepted[i] <= chunk.tokens
                },
            forall|i: int, j: int|
                0 <= i < j < prepared.chunks@.len() ==> (#[trigger] prepared.chunks@[i]).lease.slot
                    != (#[trigger] prepared.chunks@[j]).lease.slot,
            self.slots@ == committed_slots(
                before.slots@,
                prepared,
                accepted,
                prepared.chunks@.len() as int,
            ),
        ensures
            self.inv(),
    {
        let n = prepared.chunks@.len() as int;
        lemma_committed_slots(before.slots@, prepared, accepted, n);
        assert(source_cache::plan_fits(
            before.index.tables(),
            before.index.rows@,
            before.index.pool.references@,
            before.index.slots as int,
            plan,
        ));
        apply::lemma_applied(before.index.tables(), before.index.rows@, plan, n);
        assert forall|s: int| 0 <= s < MAX_SLOTS implies {
            &&& (#[trigger] self.slots@[s]).end <= MAX_CONTEXT
            &&& s >= self.slot_count ==> self.slots@[s].request is None
            &&& self.slots@[s].request is None ==> self.index.pages@[s]@.len() == 0
                && !self.index.writing@[s]
        } by {
            assert(before.slots@[s].end <= MAX_CONTEXT);
            assert(self.index.tables()[s] == self.index.pages@[s]@);
            assert(before.index.tables()[s] == before.index.pages@[s]@);
            if chunk_slot(prepared, n, s) {
                let i = choose|i: int| 0 <= i < n && #[trigger] in_chunk_slot(prepared, i, s);
                assert(prepared.chunks@[i].lease.slot == s);
                assert(accepted[i] <= prepared.chunks@[i].tokens);
                assert(plan[i].slot == s);
                assert(before.index.plans@[ticket][i].slot == s);
                assert(before.index.appended(s));
                assert(before.index.writing@[s]);
            } else {
                assert(self.slots@[s] == before.slots@[s]);
                assert(apply::untouched(plan, n, s)) by {
                    assert forall|i: int| 0 <= i < n implies (#[trigger] plan[i]).slot != s by {
                        assert(in_chunk_slot(prepared, i, s) ==> chunk_slot(prepared, n, s));
                    }
                }
                if self.slots@[s].request is None && self.index.writing@[s] {
                    assert(self.index.appended(s));
                    let (t, k) = choose|t: int, k: int|
                        #![trigger self.index.plans@[t][k]]
                        self.index.plans@.contains_key(t) && 0 <= k < self.index.plans@[t].len()
                            && self.index.plans@[t][k].slot == s;
                    assert(before.index.plans@[t][k].slot == s);
                    assert(before.index.appended(s));
                }
            }
        }
    }
}

/// Two lists of counts are equal.
fn same_counts(left: &Vec<u32>, right: &[u32]) -> (r: bool)
    ensures
        r == (left@ == right@),
{
    if left.len() != right.len() {
        return false;
    }
    let mut i: usize = 0;
    while i < left.len()
        invariant
            i <= left@.len() == right@.len(),
            forall|k: int| 0 <= k < i ==> left@[k] == right@[k],
        decreases left@.len() - i,
    {
        if left[i] != right[i] {
            assert(left@[i as int] != right@[i as int]);
            return false;
        }
        i = i + 1;
    }
    assert(left@ =~= right@);
    true
}

/// The queued rows of the wave are the source's history.
pub open spec fn source_done(
    now: &CompressorState,
    wave: &CompressorWave,
    was: &CompressorState,
    before: &CompressorWave,
    accepted: Seq<u32>,
) -> bool {
    let pending = before.pending_commit->Some_0;
    let p = pending.prepared;
    let n = p.chunks@.len() as int;
    &&& before.pending_commit is Some
    &&& *wave == (CompressorWave { pending_commit: None, ..*before })
    &&& now.same_identity(was)
    &&& now.slots@ == committed_slots(was.slots@, &p, accepted, n)
    &&& now.index.same_shape(&was.index)
    &&& now.index.tables() == apply::applied_tables(was.index.tables(), pending.plan@, n)
    &&& now.index.rows@ == apply::applied_rows(was.index.rows@, pending.plan@, n)
    &&& now.index.plans@ == was.index.plans@.remove(pending.plan.ticket@)
    &&& apply::pool_applied(&now.index.pool, &was.index.pool, pending.plan@)
    &&& forall|page: u32|
        page < was.index.pool.references@.len() ==> now.index.retained(page)
            == #[trigger] was.index.retained(page)
}

/// The leases of a proposal's chunks.
pub open spec fn chunk_leases(prepared: &Prepared) -> Seq<CompressorLease> {
    Seq::new(prepared.chunks@.len(), |k: int| prepared.chunks@[k].lease)
}

/// What giving up a queued commit leaves of its source: the participating requests
/// have lost their slots and pages, and the claimed pages are free again.
pub open spec fn given_up(
    now: &CompressorState,
    was: &CompressorState,
    pending: &PendingCommit,
) -> bool {
    let p = pending.prepared;
    let n = p.chunks@.len() as int;
    &&& now.same_identity(was)
    &&& now.index.same_shape(&was.index)
    &&& now.index.plans@ == was.index.plans@.remove(pending.plan.ticket@)
    &&& now.index.pool.gave_back_claims(
        &was.index.pool,
        pending.plan.pages@,
        was.leased_pages(chunk_leases(&p), n),
    )
    &&& forall|page: u32|
        page < was.index.pool.references@.len() ==> now.index.retained(page)
            == #[trigger] was.index.retained(page)
    &&& forall|s: int|
        0 <= s < MAX_SLOTS ==> if chunk_slot(&p, n, s) {
            &&& (#[trigger] now.slots@[s]) == (Slot { request: None, ..was.slots@[s] })
            &&& now.index.pages@[s]@.len() == 0
            &&& now.index.rows@[s] == 0
            &&& !now.index.writing@[s]
        } else {
            &&& now.slots@[s] == was.slots@[s]
            &&& now.index.pages@[s]@ == was.index.pages@[s]@
            &&& now.index.rows@[s] == was.index.rows@[s]
            &&& now.index.writing@[s] == was.index.writing@[s]
        }
}

impl CompressorWave {
    /// Gives up a queued commit after its stream has been drained: the claimed
    /// pages return to the pool and the participating requests are revoked.
    pub fn abort_commit(&mut self, state: &mut CompressorState)
        requires
            old(self).inv(),
            old(state).inv(),
            old(self).commit_fits(old(state)),
            old(self).pending_commit matches Some(pending) ==> pending.prepared.owner == old(state).owner,
        ensures
            final(self).inv(),
            final(state).inv(),
            *final(self) == (CompressorWave { pending_commit: None, ..*old(self) }),
            match old(self).pending_commit {
                None => *final(state) == *old(state),
                Some(pending) => given_up(final(state), old(state), &pending),
            },
    {
        let pending = match self.pending_commit.take() {
            None => {
                return;
            },
            Some(pending) => pending,
        };
        let PendingCommit { prepared, plan, completed: _, accepted: _ } = pending;
        let ghost before = *state;
        let ghost view = plan@;
        let ghost ticket = plan.ticket@;
        let ghost claims = plan.pages@;
        let ghost n = prepared.chunks@.len() as int;
        let mut leases: Vec<CompressorLease> = Vec::new();
        let mut i: usize = 0;
        while i < prepared.chunks.len()
            invariant
                i <= prepared.chunks@.len() == n,
                leases@ == chunk_leases(&prepared).take(i as int),
            decreases n - i,
        {
            leases.push(prepared.chunks[i].lease);
            i = i + 1;
            assert(leases@ =~= chunk_leases(&prepared).take(i as int));
        }
        assert(leases@ =~= chunk_leases(&prepared));
        state.index.discard(plan);
        let ghost discarded = *state;
        proof {
            assert forall|s: int| 0 <= s < MAX_SLOTS implies (#[trigger] state.index.writing@[s])
                == (before.index.writing@[s] && !chunk_slot(&prepared, n, s)) by {
                state.lemma_writing_after(&before, ticket, view, s);
                if chunk_slot(&prepared, n, s) {
                    let k = choose|k: int| 0 <= k < n && #[trigger] in_chunk_slot(&prepared, k, s);
                    assert(prepared.chunks@[k].lease.slot == s);
                    assert(view[k].slot == s);
                    assert(!apply::untouched(view, n, s));
                }
                if !apply::untouched(view, n, s) {
                    let k = choose|k: int| 0 <= k < n && (#[trigger] view[k]).slot == s;
                    assert(prepared.chunks@[k].lease.slot == s);
                    assert(in_chunk_slot(&prepared, k, s));
                }
            }
            assert forall|s: int| 0 <= s < MAX_SLOTS implies {
                &&& (#[trigger] state.slots@[s]).end <= MAX_CONTEXT
                &&& s >= state.slot_count ==> state.slots@[s].request is None
                &&& state.slots@[s].request is None ==> state.index.pages@[s]@.len() == 0
                    && !state.index.writing@[s]
            } by {
                assert(before.slots@[s].end <= MAX_CONTEXT);
                assert(state.index.writing@[s] ==> before.index.writing@[s]);
            }
            assert forall|k: int| 0 <= k < leases@.len() implies (#[trigger] leases@[k]).slot
                < state.slot_count && !state.index.writing@[leases@[k].slot as int] by {
                assert(prepared.chunks@[k].lease.slot < state.slot_count);
                assert(in_chunk_slot(&prepared, k, leases@[k].slot as int));
            }
        }
        state.revoke(leases.as_slice());
        proof {
            assert(state.index.plans@ == before.index.plans@.remove(ticket));
            assert(discarded.index.tables() =~= before.index.tables());
            discarded.lemma_same_leased_pages(&before, leases@, n);
            assert(state.index.pool.free@ =~= before.index.pool.free@ + claims
                + page_pool::freed(
                before.index.pool.references@,
                before.leased_pages(leases@, n),
            ));
            assert forall|page: u32|
                page < before.index.pool.references@.len() implies state.index.retained(page)
                == #[trigger] before.index.retained(page) by {
                assert(discarded.index.retained(page) == before.index.retained(page));
            }
            assert forall|s: int| 0 <= s < MAX_SLOTS implies CompressorState::names_slot(
                leases@,
                n,
                s,
            ) == #[trigger] chunk_slot(&prepared, n, s) by {
                if chunk_slot(&prepared, n, s) {
                    let k = choose|k: int| 0 <= k < n && #[trigger] in_chunk_slot(&prepared, k, s);
                    assert(leases@[k].slot == s);
                }
                if CompressorState::names_slot(leases@, n, s) {
                    let k = choose|k: int| 0 <= k < n && (#[trigger] leases@[k]).slot == s;
                    assert(in_chunk_slot(&prepared, k, s));
                }
            }
            assert forall|s: int| 0 <= s < MAX_SLOTS implies if chunk_slot(&prepared, n, s) {
                &&& (#[trigger] state.slots@[s]) == (Slot { request: None, ..before.slots@[s] })
                &&& state.index.pages@[s]@.len() == 0
                &&& state.index.rows@[s] == 0
                &&& !state.index.writing@[s]
            } else {
                &&& state.slots@[s] == before.slots@[s]
                &&& state.index.pages@[s]@ == before.index.pages@[s]@
                &&& state.index.rows@[s] == before.index.rows@[s]
                &&& state.index.writing@[s] == before.index.writing@[s]
            } by {
                assert(CompressorState::names_slot(leases@, n, s) == chunk_slot(&prepared, n, s));
                assert(discarded.slots@[s] == before.slots@[s]);
            }
        }
    }

    /// Ends a commit that was queued to be completed at once; `work` is how its
    /// device work went, and the stream has been drained. Where the work failed the
    /// commit is given up.
    pub fn finish_direct_commit(
        &mut self,
        state: &mut CompressorState,
        accepted: &[u32],
        work: Result<(), Error>,
    ) -> (r: Result<Vec<CompressorLatentRow>, Error>)
        requires
            old(self).inv(),
            old(state).inv(),
            old(self).commit_fits(old(state)),
            old(self).pending_commit matches Some(pending) ==> pending.prepared.owner == old(state).owner,
        ensures
            final(self).inv(),
            final(state).inv(),
            match work {
                Err(reason) => {
                    &&& r == Err::<Vec<CompressorLatentRow>, Error>(reason)
                    &&& *final(self) == (CompressorWave { pending_commit: None, ..*old(self) })
                    &&& match old(self).pending_commit {
                        None => *final(state) == *old(state),
                        Some(pending) => given_up(final(state), old(state), &pending),
                    }
                },
                Ok(_) => match r {
                    Err(e) => {
                        &&& *final(self) == *old(self)
                        &&& *final(state) == *old(state)
                        &&& match old(self).pending_error(old(state)) {
                            Some(reason) => e == reason,
                            None => e == Error::AcceptanceChanged
                                && old(self).pending_commit->Some_0.accepted@ != accepted@,
                        }
                    },
                    Ok(rows) => {
                        let pending = old(self).pending_commit->Some_0;
                        let n = pending.prepared.chunks@.len() as int;
                        &&& old(self).pending_error(old(state)) is None
                        &&& pending.accepted@ == accepted@
                        &&& rows@ == accepted_rows(
                            &pending.prepared,
                            accepted@,
                            old(self).step(),
                            n,
                        )
                        &&& source_done(final(state), final(self), old(state), old(self), accepted@)
                    },
                },
            },
    {
        match work {
            Err(e) => {
                self.abort_commit(state);
                Err(e)
            },
            Ok(_) => self.commit(state, accepted, true),
        }
    }

    /// Why this lane cannot publish its commits to a peer copy.
    pub open spec fn replica_error(
        &self,
        state: &CompressorState,
        replica_pool: u64,
        home: Device,
        producer: Device,
    ) -> Option<Error> {
        if self.ready is Some || self.pending_query is Some || self.pending_commit is Some
            || self.replica is Some {
            Some(Error::ReplicaWaveUsed)
        } else if replica_pool != state.index.identity {
            Some(Error::ForeignReplica)
        } else if !(state.layer == self.layer && home == producer) {
            Some(Error::ReplicaProducer)
        } else {
            None
        }
    }

    /// Ties an unused lane to the source's peer copy. `home` is the source's
    /// device and `producer` the lane's.
    pub fn enable_replica(
        &mut self,
        state: &CompressorState,
        replica: &SourceReplica,
        home: Device,
        producer: Device,
    ) -> (r: Result<(), Error>)
        requires
            old(self).inv(),
        ensures
            final(self).inv(),
            match r {
                Ok(_) => old(self).replica_error(state, replica.pool, home, producer) is None
                    && *final(self) == (CompressorWave {
                    replica: Some(replica.pool),
                    ..*old(self)
                }),
                Err(e) => old(self).replica_error(state, replica.pool, home, producer) == Some(e)
                    && *final(self) == *old(self),
            },
    {
        if self.ready.is_some() || self.pending_query.is_some() || self.pending_commit.is_some()
            || self.replica.is_some() {
            return Err(Error::ReplicaWaveUsed);
        }
        match replica.validate_owner(&state.index) {
            Err(e) => {
                return Err(e);
            },
            Ok(_) => {},
        }
        if !(state.layer == self.layer && home == producer) {
            return Err(Error::ReplicaProducer);
        }
        self.replica = Some(replica.pool);
        Ok(())
    }

    /// The proposal that an enclosing transaction would commit.
    pub open spec fn current(&self) -> Option<Prepared> {
        match self.pending_commit {
            Some(pending) => Some(pending.prepared),
            None => self.ready,
        }
    }

    /// An enclosing transaction names exactly the chunks of the current proposal.
    pub fn validate_batch(&self, state: &CompressorState, chunks: &[CompressorChunk]) -> (r: Result<
        (),
        Error,
    >)
        requires
            self.inv(),
            state.inv(),
            self.commit_fits(state),
            self.ready_fits(state),
        ensures
            ({
                let reason = if self.pending_commit is Some {
                    self.pending_error(state)
                } else {
                    self.output_error(state)
                };
                match r {
                    Ok(_) => reason is None && self.current()->Some_0.chunks@ == chunks@,
                    Err(e) => match reason {
                        Some(why) => e == why,
                        None => e == Error::CompressorTransaction && self.current()->Some_0.chunks@
                            != chunks@,
                    },
                }
            }),
    {
        if self.pending_commit.is_some() {
            match self.validate_pending_commit(state) {
                Err(e) => Err(e),
                Ok(prepared) => if same_chunks(&prepared.chunks, chunks) {
                    Ok(())
                } else {
                    Err(Error::CompressorTransaction)
                },
            }
        } else {
            match self.output(state) {
                Err(e) => {
                    return Err(e);
                },
                Ok(_) => {},
            }
            match &self.ready {
                None => Err(Error::CompressorOutputIncomplete),
                Some(prepared) => if same_chunks(&prepared.chunks, chunks) {
                    Ok(())
                } else {
                    Err(Error::CompressorTransaction)
                },
            }
        }
    }
}

/// Two lists of chunks are equal.
fn same_chunks(left: &Vec<CompressorChunk>, right: &[CompressorChunk]) -> (r: bool)
    ensures
        r == (left@ == right@),
{
    if left.len() != right.len() {
        return false;
    }
    let mut i: usize = 0;
    while i < left.len()
        invariant
            i <= left@.len() == right@.len(),
            forall|k: int| 0 <= k < i ==> left@[k] == right@[k],
        decreases left@.len() - i,
    {
        if left[i] != right[i] {
            assert(left@[i as int] != right@[i as int]);
            return false;
        }
        i = i + 1;
    }
    assert(left@ =~= right@);
    true
}

impl CompressorState {
    /// Which slots still have a reserved append once one transaction is gone.
    pub proof fn lemma_writing_after(&self, before: &Self, ticket: int, plan: Seq<AppendView>, s: int)
        requires
            before.index.inv(),
            self.index.inv(),
            before.index.plans@.contains_key(ticket),
            before.index.plans@[ticket] == plan,
            self.index.plans@ == before.index.plans@.remove(ticket),
            0 <= s < MAX_SLOTS,
        ensures
            self.index.writing@[s] == (before.index.writing@[s] && apply::untouched(
                plan,
                plan.len() as int,
                s,
            )),
    {
        assert(self.index.writing@[s] <==> self.index.appended(s));
        assert(before.index.writing@[s] <==> before.index.appended(s));
        if self.index.appended(s) {
            let (t, i) = choose|t: int, i: int|
                #![trigger self.index.plans@[t][i]]
                self.index.plans@.contains_key(t) && 0 <= i < self.index.plans@[t].len()
                    && self.index.plans@[t][i].slot == s;
            assert(before.index.plans@[t][i].slot == s);
            assert forall|k: int| 0 <= k < plan.len() implies (#[trigger] plan[k]).slot != s by {
                assert(before.index.plans@[ticket][k].slot != before.index.plans@[t][i].slot);
            }
        }
        if before.index.appended(s) && apply::untouched(plan, plan.len() as int, s) {
            let (t, i) = choose|t: int, i: int|
                #![trigger before.index.plans@[t][i]]
                before.index.plans@.contains_key(t) && 0 <= i < before.index.plans@[t].len()
                    && before.index.plans@[t][i].slot == s;
            if t == ticket {
                assert(plan[i].slot == s);
            }
            assert(self.index.plans@[t][i].slot == s);
        }
    }
}

} // verus!
