//! What a source's proposals and commits do to the tokens of their requests.
use crate::compressor::commit;
use crate::compressor::wave;
use crate::compressor::upload;
use crate::compressor::wave::{CompressorOutput, CompressorWave, IndexProposal, Prepared};
use crate::compressor::{CompressorChunk, CompressorLatentRow, CompressorLease, CompressorState, Slot, MAX_CONTEXT};
use crate::device::DeviceBuffer;
use crate::source_cache::layout::SourceBuffers;
use crate::source_cache::apply;
use crate::source_cache::{IndexPlan, SourceCache, MAX_SLOTS};
use vstd::prelude::*;

verus! {

/// Tokens of the chunks that come before chunk `i`.
pub open spec fn tokens_before(chunks: Seq<CompressorChunk>, i: int) -> int {
    chunks.take(i).fold_left(0int, |sum: int, chunk: CompressorChunk| sum + chunk.tokens)
}

pub proof fn lemma_tokens_before(chunks: Seq<CompressorChunk>, i: int)
    requires
        0 <= i <= chunks.len(),
    ensures
        tokens_before(chunks, i) == wave::chunk_rows(chunks, i),
        i < chunks.len() ==> tokens_before(chunks, i + 1) == tokens_before(chunks, i)
            + chunks[i].tokens,
    decreases i,
{
    reveal_with_fuel(Seq::fold_left, 2);
    if i > 0 {
        lemma_tokens_before(chunks, i - 1);
    }
    if i < chunks.len() {
        assert(chunks.take(i + 1).drop_last() =~= chunks.take(i));
        assert(chunks.take(i + 1).last() == chunks[i]);
    }
}

proof fn lemma_tokens_apart(chunks: Seq<CompressorChunk>, i: int, k: int)
    requires
        0 <= i <= k <= chunks.len(),
    ensures
        0 <= tokens_before(chunks, i) <= tokens_before(chunks, k),
        i < k ==> tokens_before(chunks, i) + chunks[i].tokens <= tokens_before(chunks, k),
    decreases k,
{
    if k > i {
        lemma_tokens_apart(chunks, i, k - 1);
        lemma_tokens_before(chunks, k - 1);
    } else if k > 0 {
        lemma_tokens_apart(chunks, k - 1, k - 1);
        lemma_tokens_before(chunks, k - 1);
    } else {
        lemma_tokens_before(chunks, 0);
    }
}

/// A proposal has one row for each token of its chunks, chunk after chunk: every row
/// lies in exactly one chunk, at the token's distance from the chunk's first row.
pub proof fn law_proposal_has_a_row_per_token(
    prepared: &Prepared,
    step: int,
    slot_count: int,
    capacity: int,
)
    requires
        prepared.wf(step, slot_count, capacity),
        capacity <= 4096,
    ensures
        prepared.rows == tokens_before(prepared.chunks@, prepared.chunks@.len() as int),
        prepared.descriptors@.len() == prepared.rows,
        prepared.offsets@.len() == prepared.chunks@.len(),
        prepared.offsets@[0] == 0,
        forall|i: int|
            0 <= i < prepared.chunks@.len() ==> #[trigger] prepared.offsets@[i] == tokens_before(
                prepared.chunks@,
                i,
            ) && prepared.offsets@[i] + prepared.chunks@[i].tokens == if i + 1
                < prepared.chunks@.len() {
                prepared.offsets@[i + 1]
            } else {
                prepared.rows
            },
{
    let chunks = prepared.chunks@;
    let n = chunks.len() as int;
    lemma_tokens_before(chunks, n);
    lemma_tokens_before(chunks, 0);
    lemma_descriptor_count(chunks, slot_count, n);
    assert forall|i: int| 0 <= i < n implies #[trigger] prepared.offsets@[i] == tokens_before(
        chunks,
        i,
    ) && prepared.offsets@[i] + chunks[i].tokens == if i + 1 < n {
        prepared.offsets@[i + 1]
    } else {
        prepared.rows
    } by {
        lemma_tokens_before(chunks, i);
        lemma_tokens_before(chunks, i + 1);
        lemma_tokens_apart(chunks, 0, i);
        lemma_tokens_apart(chunks, i, n);
        lemma_tokens_apart(chunks, i + 1, n);
        assert(prepared.offsets@[i] == wave::chunk_rows(chunks, i) as usize);
        if i + 1 < n {
            assert(prepared.offsets@[i + 1] == wave::chunk_rows(chunks, i + 1) as usize);
        }
    }
    assert(prepared.offsets@[0] == wave::chunk_rows(chunks, 0) as usize);
}

proof fn lemma_descriptor_count(chunks: Seq<CompressorChunk>, slot_count: int, n: int)
    requires
        0 <= n,
    ensures
        wave::descriptors(chunks, slot_count, n).len() == wave::chunk_rows(chunks, n),
    decreases n,
{
    if n > 0 {
        lemma_descriptor_count(chunks, slot_count, n - 1);
    }
}

proof fn lemma_descriptor_at(
    chunks: Seq<CompressorChunk>,
    slot_count: int,
    n: int,
    i: int,
    j: int,
)
    requires
        0 <= i < n <= chunks.len(),
        0 <= j < chunks[i].tokens,
    ensures
        wave::descriptors(chunks, slot_count, n)[tokens_before(chunks, i) + j]
            == wave::chunk_descriptors(
            chunks[i],
            slot_count,
            tokens_before(chunks, i),
            chunks[i].tokens as int,
        )[j],
    decreases n,
{
    lemma_tokens_before(chunks, i);
    lemma_descriptor_count(chunks, slot_count, n - 1);
    lemma_tokens_before(chunks, n - 1);
    if i < n - 1 {
        lemma_descriptor_at(chunks, slot_count, n - 1, i, j);
        lemma_tokens_apart(chunks, i, n - 1);
        lemma_tokens_apart(chunks, 0, i);
    }
}

/// Row `x` of what the pool kernel reads holds the token at `position` of the request
/// in `slot`. The carried rows come first, one per slot: each is the last token that
/// its request has committed. The rows of the proposal follow.
pub open spec fn holds_token(
    chunks: Seq<CompressorChunk>,
    slot_count: int,
    x: int,
    slot: int,
    position: int,
) -> bool {
    ||| exists|i: int|
        0 <= i < chunks.len() && 0 <= x < slot_count && x == slot && (
        #[trigger] chunks[i]).lease.slot == slot && position == chunks[i].position - 1
    ||| exists|i: int|
        0 <= i < chunks.len() && (#[trigger] chunks[i]).lease.slot == slot && chunks[i].position
            <= position < chunks[i].position + chunks[i].tokens && x == slot_count + tokens_before(
            chunks,
            i,
        ) + (position - chunks[i].position)
}

/// In a ratio-two proposal a row that completes a group is pooled with the token just
/// before its own, of the same request: with the row before it where that token is in
/// the same chunk, with the slot's carried row only where it was committed before. A
/// row that completes no group is pooled with nothing.
pub proof fn law_groups_pool_neighbouring_tokens(
    prepared: &Prepared,
    step: int,
    slot_count: int,
    capacity: int,
    i: int,
    j: int,
)
    requires
        prepared.wf(step, slot_count, capacity),
        slot_count <= MAX_SLOTS,
        capacity <= 4096,
        0 <= i < prepared.chunks@.len(),
        0 <= j < prepared.chunks@[i].tokens,
    ensures
        ({
            let chunk = prepared.chunks@[i];
            let row = tokens_before(prepared.chunks@, i) + j;
            let partner = prepared.descriptors@[row];
            &&& 0 <= row < prepared.descriptors@.len()
            &&& (chunk.position + j) % 2 == 0 ==> partner == u64::MAX
            &&& (chunk.position + j) % 2 == 1 ==> {
                &&& holds_token(
                    prepared.chunks@,
                    slot_count,
                    partner as int,
                    chunk.lease.slot as int,
                    chunk.position + j - 1,
                )
                &&& j > 0 ==> partner == slot_count + row - 1
                &&& j == 0 ==> partner == chunk.lease.slot && partner < slot_count
            }
        }),
{
    let chunks = prepared.chunks@;
    let n = chunks.len() as int;
    let chunk = chunks[i];
    let row = tokens_before(chunks, i) + j;
    law_proposal_has_a_row_per_token(prepared, step, slot_count, capacity);
    lemma_tokens_apart(chunks, 0, i);
    lemma_tokens_apart(chunks, i, n);
    lemma_descriptor_at(chunks, slot_count, n, i, j);
    assert(prepared.offsets@[i] == tokens_before(chunks, i));
    assert(chunks[i].lease.slot < slot_count);
}

/// Rows that complete different groups are pooled with different rows.
pub proof fn law_groups_share_no_row(
    prepared: &Prepared,
    step: int,
    slot_count: int,
    capacity: int,
    i: int,
    j: int,
    k: int,
    l: int,
)
    requires
        prepared.wf(step, slot_count, capacity),
        slot_count <= MAX_SLOTS,
        capacity <= 4096,
        0 <= i <= k < prepared.chunks@.len(),
        0 <= j < prepared.chunks@[i].tokens,
        0 <= l < prepared.chunks@[k].tokens,
        i < k || j != l,
        (prepared.chunks@[i].position + j) % 2 == 1,
        (prepared.chunks@[k].position + l) % 2 == 1,
    ensures
        prepared.descriptors@[tokens_before(prepared.chunks@, i) + j]
            != prepared.descriptors@[tokens_before(prepared.chunks@, k) + l],
{
    law_groups_pool_neighbouring_tokens(prepared, step, slot_count, capacity, i, j);
    law_groups_pool_neighbouring_tokens(prepared, step, slot_count, capacity, k, l);
    lemma_tokens_apart(prepared.chunks@, 0, i);
    lemma_tokens_apart(prepared.chunks@, i, k);
    if i < k {
        assert(prepared.chunks@[i].lease.slot != prepared.chunks@[k].lease.slot);
    }
}

/// `row` is the group that the token at its last position completes, if the first
/// `counts[i]` tokens of chunk `i` are taken.
pub open spec fn completes(
    chunks: Seq<CompressorChunk>,
    counts: Seq<u32>,
    step: int,
    i: int,
    row: CompressorLatentRow,
) -> bool {
    let chunk = chunks[i];
    let last = row.position + step - 1;
    &&& 0 <= i < chunks.len()
    &&& row.lease == chunk.lease
    &&& row.position as int % step == 0
    &&& chunk.position <= last < chunk.position + counts[i]
    &&& row.source_row == tokens_before(chunks, i) + (last - chunk.position)
}

/// `row` is a group of one of the first `n` chunks.
pub open spec fn some_chunk_completes(
    chunks: Seq<CompressorChunk>,
    counts: Seq<u32>,
    step: int,
    n: int,
    row: CompressorLatentRow,
) -> bool {
    exists|i: int| i < n && #[trigger] completes(chunks, counts, step, i, row)
}

/// `rows` are the groups that the first `counts[i]` tokens of every chunk complete, in
/// the order of their rows.
pub open spec fn are_groups(
    chunks: Seq<CompressorChunk>,
    counts: Seq<u32>,
    step: int,
    rows: Seq<CompressorLatentRow>,
) -> bool {
    &&& forall|k: int|
        0 <= k < rows.len() ==> some_chunk_completes(
            chunks,
            counts,
            step,
            chunks.len() as int,
            #[trigger] rows[k],
        )
    &&& forall|i: int, position: int|
        #![trigger chunks[i].position + position]
        0 <= i < chunks.len() && 0 <= position < counts[i] && (chunks[i].position + position + 1)
            % step == 0 ==> exists|k: int|
            0 <= k < rows.len() && (#[trigger] rows[k]).lease == chunks[i].lease && rows[k].position
                == chunks[i].position + position + 1 - step
    &&& forall|k: int, l: int|
        0 <= k < l < rows.len() ==> (#[trigger] rows[k]).source_row < (
        #[trigger] rows[l]).source_row
}

/// As `are_groups`, for the first `n` chunks.
spec fn groups_so_far(
    chunks: Seq<CompressorChunk>,
    counts: Seq<u32>,
    step: int,
    rows: Seq<CompressorLatentRow>,
    n: int,
) -> bool {
    &&& forall|k: int|
        0 <= k < rows.len() ==> (#[trigger] rows[k]).source_row < tokens_before(chunks, n)
            && some_chunk_completes(chunks, counts, step, n, rows[k])
    &&& forall|i: int, position: int|
        #![trigger chunks[i].position + position]
        0 <= i < n && 0 <= position < counts[i] && (chunks[i].position + position + 1) % step == 0
            ==> exists|k: int|
            0 <= k < rows.len() && (#[trigger] rows[k]).lease == chunks[i].lease && rows[k].position
                == chunks[i].position + position + 1 - step
    &&& forall|k: int, l: int|
        0 <= k < l < rows.len() ==> (#[trigger] rows[k]).source_row < (
        #[trigger] rows[l]).source_row
}

proof fn lemma_groups_step(
    chunks: Seq<CompressorChunk>,
    counts: Seq<u32>,
    step: int,
    before: Seq<CompressorLatentRow>,
    n: int,
)
    requires
        step == 1 || step == 2,
        0 < n <= chunks.len() == counts.len(),
        tokens_before(chunks, n) <= 4096,
        counts[n - 1] <= chunks[n - 1].tokens,
        chunks[n - 1].position + chunks[n - 1].tokens <= MAX_CONTEXT,
        groups_so_far(chunks, counts, step, before, n - 1),
    ensures
        groups_so_far(
            chunks,
            counts,
            step,
            before + wave::chunk_completed(
                chunks[n - 1],
                step,
                wave::chunk_rows(chunks, n - 1),
                counts[n - 1] as int,
            ),
            n,
        ),
{
    let chunk = chunks[n - 1];
    let m = counts[n - 1] as int;
    lemma_tokens_before(chunks, n - 1);
    lemma_tokens_apart(chunks, 0, n - 1);
    let base = tokens_before(chunks, n - 1);
    let own = wave::chunk_completed(chunk, step, base, m);
    let rows = before + own;
    let first = chunk.position as int / step;
    wave::law_completed_rows_are_strided(chunk, step, base, m);
    assert forall|k: int| 0 <= k < own.len() implies {
        &&& base <= (#[trigger] own[k]).source_row < base + m
        &&& completes(chunks, counts, step, n - 1, own[k])
    } by {
        if step == 1 {
            assert(own[k].position == first + k);
        } else {
            assert(own[k].position == (first + k) * 2);
        }
    }
    assert forall|k: int| 0 <= k < rows.len() implies (#[trigger] rows[k]).source_row
        < tokens_before(chunks, n) && some_chunk_completes(chunks, counts, step, n, rows[k]) by {
        if k < before.len() {
            assert(rows[k] == before[k]);
            let i = choose|i: int| i < n - 1 && #[trigger] completes(chunks, counts, step, i, before[k]);
            assert(completes(chunks, counts, step, i, rows[k]));
        } else {
            assert(rows[k] == own[k - before.len()]);
            assert(completes(chunks, counts, step, n - 1, rows[k]));
        }
    }
    assert forall|i: int, position: int|
        #![trigger chunks[i].position + position]
        0 <= i < n && 0 <= position < counts[i] && (chunks[i].position + position + 1) % step
            == 0 implies exists|k: int|
        0 <= k < rows.len() && (#[trigger] rows[k]).lease == chunks[i].lease && rows[k].position
            == chunks[i].position + position + 1 - step by {
        if i < n - 1 {
            let k = choose|k: int|
                0 <= k < before.len() && (#[trigger] before[k]).lease == chunks[i].lease
                    && before[k].position == chunks[i].position + position + 1 - step;
            assert(rows[k] == before[k]);
        } else {
            let k = (chunk.position + position + 1) / step - 1 - first;
            if step == 1 {
                assert(0 <= k < own.len());
            } else {
                assert((chunk.position + position + 1) / 2 <= (chunk.position + m) / 2);
                assert(0 <= k < own.len());
            }
            assert(own[k].position == (first + k) * step);
            assert(rows[before.len() + k] == own[k]);
        }
    }
    assert forall|k: int, l: int| 0 <= k < l < rows.len() implies (#[trigger] rows[k]).source_row
        < (#[trigger] rows[l]).source_row by {
        if l < before.len() {
            assert(rows[k] == before[k] && rows[l] == before[l]);
        } else if k < before.len() {
            assert(rows[k] == before[k] && rows[l] == own[l - before.len()]);
        } else {
            assert(rows[k] == own[k - before.len()] && rows[l] == own[l - before.len()]);
        }
    }
}

/// The completed rows of a proposal are the groups that its tokens complete, each at
/// the row of its last token, none left out and none twice.
pub proof fn law_completed_rows_are_the_groups(
    prepared: &Prepared,
    step: int,
    slot_count: int,
    capacity: int,
)
    requires
        step == 1 || step == 2,
        prepared.wf(step, slot_count, capacity),
        capacity <= 4096,
    ensures
        are_groups(
            prepared.chunks@,
            Seq::new(prepared.chunks@.len(), |i: int| prepared.chunks@[i].tokens),
            step,
            prepared.completed@,
        ),
{
    let chunks = prepared.chunks@;
    let counts = Seq::new(chunks.len(), |i: int| chunks[i].tokens);
    let n = chunks.len() as int;
    lemma_tokens_before(chunks, n);
    lemma_completed_groups(chunks, counts, step, n);
    lemma_whole(chunks, counts, step, prepared.completed@);
}

proof fn lemma_whole(
    chunks: Seq<CompressorChunk>,
    counts: Seq<u32>,
    step: int,
    rows: Seq<CompressorLatentRow>,
)
    requires
        groups_so_far(chunks, counts, step, rows, chunks.len() as int),
    ensures
        are_groups(chunks, counts, step, rows),
{
}

proof fn lemma_completed_groups(
    chunks: Seq<CompressorChunk>,
    counts: Seq<u32>,
    step: int,
    n: int,
)
    requires
        step == 1 || step == 2,
        0 <= n <= chunks.len() == counts.len(),
        tokens_before(chunks, n) <= 4096,
        forall|i: int|
            0 <= i < n ==> counts[i] == (#[trigger] chunks[i]).tokens && chunks[i].position
                + chunks[i].tokens <= MAX_CONTEXT,
    ensures
        groups_so_far(chunks, counts, step, wave::completed_rows(chunks, step, n), n),
    decreases n,
{
    if n > 0 {
        lemma_tokens_apart(chunks, n - 1, n);
        lemma_completed_groups(chunks, counts, step, n - 1);
        lemma_groups_step(chunks, counts, step, wave::completed_rows(chunks, step, n - 1), n);
    }
}

proof fn lemma_accepted_groups(prepared: &Prepared, accepted: Seq<u32>, step: int, n: int)
    requires
        step == 1 || step == 2,
        0 <= n <= prepared.chunks@.len() == accepted.len(),
        tokens_before(prepared.chunks@, n) <= 4096,
        forall|i: int|
            0 <= i < n ==> accepted[i] <= (#[trigger] prepared.chunks@[i]).tokens
                && prepared.chunks@[i].position + prepared.chunks@[i].tokens <= MAX_CONTEXT,
    ensures
        groups_so_far(
            prepared.chunks@,
            accepted,
            step,
            commit::accepted_rows(prepared, accepted, step, n),
            n,
        ),
    decreases n,
{
    if n > 0 {
        lemma_tokens_apart(prepared.chunks@, n - 1, n);
        lemma_accepted_groups(prepared, accepted, step, n - 1);
        lemma_groups_step(
            prepared.chunks@,
            accepted,
            step,
            commit::accepted_rows(prepared, accepted, step, n - 1),
            n,
        );
    }
}

/// The rows that a commit publishes are the groups that the accepted tokens complete.
pub proof fn law_accepted_rows_are_the_groups(
    prepared: &Prepared,
    accepted: Seq<u32>,
    step: int,
    slot_count: int,
    capacity: int,
)
    requires
        step == 1 || step == 2,
        prepared.wf(step, slot_count, capacity),
        capacity <= 4096,
        accepted.len() == prepared.chunks@.len(),
        forall|i: int|
            0 <= i < accepted.len() ==> (#[trigger] accepted[i]) <= prepared.chunks@[i].tokens,
    ensures
        are_groups(
            prepared.chunks@,
            accepted,
            step,
            commit::accepted_rows(prepared, accepted, step, accepted.len() as int),
        ),
{
    let n = accepted.len() as int;
    lemma_tokens_before(prepared.chunks@, n);
    assert forall|i: int| 0 <= i < n implies accepted[i] <= (
    #[trigger] prepared.chunks@[i]).tokens && prepared.chunks@[i].position
        + prepared.chunks@[i].tokens <= MAX_CONTEXT by {
        assert(accepted[i] <= prepared.chunks@[i].tokens);
    }
    lemma_accepted_groups(prepared, accepted, step, n);
    lemma_whole(
        prepared.chunks@,
        accepted,
        step,
        commit::accepted_rows(prepared, accepted, step, n),
    );
}

/// The carry `(slot, row)` keeps the last accepted token of chunk `i`, which ends inside
/// a group.
pub open spec fn keeps_last_token(
    chunks: Seq<CompressorChunk>,
    accepted: Seq<u32>,
    i: int,
    slot: int,
    row: int,
) -> bool {
    &&& 0 <= i < chunks.len()
    &&& slot == chunks[i].lease.slot
    &&& tokens_before(chunks, i) <= row < tokens_before(chunks, i) + accepted[i]
    &&& row - tokens_before(chunks, i) + chunks[i].position == chunks[i].position + accepted[i] - 1
    &&& (chunks[i].position + accepted[i]) % 2 == 1
}

/// The carry keeps the last accepted token of one of the first `n` chunks.
pub open spec fn keeps_some_last_token(
    chunks: Seq<CompressorChunk>,
    accepted: Seq<u32>,
    n: int,
    carry: (usize, usize),
) -> bool {
    exists|i: int|
        i < n && #[trigger] keeps_last_token(chunks, accepted, i, carry.0 as int, carry.1 as int)
}

/// A commit carries, of every request whose accepted tokens end inside a group of two,
/// the proposal row of its last accepted token, and nothing else: no row of another
/// request, no row of a request that ends on a group, none where groups have one token.
pub proof fn law_commit_carries_last_accepted_tokens(
    prepared: &Prepared,
    accepted: Seq<u32>,
    step: int,
    slot_count: int,
    capacity: int,
)
    requires
        step == 1 || step == 2,
        prepared.wf(step, slot_count, capacity),
        capacity <= 4096,
        accepted.len() == prepared.chunks@.len(),
        forall|i: int|
            0 <= i < accepted.len() ==> (#[trigger] accepted[i]) <= prepared.chunks@[i].tokens,
    ensures
        ({
            let chunks = prepared.chunks@;
            let carries = commit::carried_rows(prepared, accepted, step, accepted.len() as int);
            &&& step == 1 ==> carries.len() == 0
            &&& forall|k: int|
                0 <= k < carries.len() ==> keeps_some_last_token(
                    chunks,
                    accepted,
                    chunks.len() as int,
                    #[trigger] carries[k],
                )
            &&& forall|i: int|
                0 <= i < chunks.len() && step == 2 && accepted[i] > 0 && ((
                #[trigger] chunks[i]).position + accepted[i]) % 2 == 1 ==> exists|k: int|
                    0 <= k < carries.len() && (#[trigger] carries[k]).0 == chunks[i].lease.slot
            &&& forall|k: int, l: int|
                0 <= k < l < carries.len() ==> (#[trigger] carries[k]).0 != (
                #[trigger] carries[l]).0
        }),
{
    lemma_carries(prepared, accepted, step, slot_count, capacity, accepted.len() as int);
}

#[verifier::spinoff_prover]
#[verifier::rlimit(40)]
proof fn lemma_carries(
    prepared: &Prepared,
    accepted: Seq<u32>,
    step: int,
    slot_count: int,
    capacity: int,
    n: int,
)
    requires
        step == 1 || step == 2,
        prepared.wf(step, slot_count, capacity),
        capacity <= 4096,
        accepted.len() == prepared.chunks@.len(),
        0 <= n <= accepted.len(),
        forall|i: int|
            0 <= i < accepted.len() ==> (#[trigger] accepted[i]) <= prepared.chunks@[i].tokens,
    ensures
        ({
            let chunks = prepared.chunks@;
            let carries = commit::carried_rows(prepared, accepted, step, n);
            &&& step == 1 ==> carries.len() == 0
            &&& forall|k: int|
                0 <= k < carries.len() ==> keeps_some_last_token(
                    chunks,
                    accepted,
                    n,
                    #[trigger] carries[k],
                )
            &&& forall|i: int|
                0 <= i < n && step == 2 && accepted[i] > 0 && ((#[trigger] chunks[i]).position
                    + accepted[i]) % 2 == 1 ==> exists|k: int|
                    0 <= k < carries.len() && (#[trigger] carries[k]).0 == chunks[i].lease.slot
            &&& forall|k: int, l: int|
                0 <= k < l < carries.len() ==> (#[trigger] carries[k]).0 != (
                #[trigger] carries[l]).0
        }),
    decreases n,
{
    if n > 0 {
        lemma_carries(prepared, accepted, step, slot_count, capacity, n - 1);
        let chunks = prepared.chunks@;
        let before = commit::carried_rows(prepared, accepted, step, n - 1);
        let carries = commit::carried_rows(prepared, accepted, step, n);
        lemma_tokens_before(chunks, n - 1);
        lemma_tokens_apart(chunks, 0, n - 1);
        lemma_tokens_apart(chunks, n - 1, chunks.len() as int);
        lemma_tokens_before(chunks, chunks.len() as int);
        assert(accepted[n - 1] <= chunks[n - 1].tokens);
        assert forall|k: int| 0 <= k < carries.len() implies keeps_some_last_token(
            chunks,
            accepted,
            n,
            #[trigger] carries[k],
        ) by {
            if k < before.len() {
                assert(carries[k] == before[k]);
                let i = choose|i: int|
                    i < n - 1 && #[trigger] keeps_last_token(
                        chunks,
                        accepted,
                        i,
                        before[k].0 as int,
                        before[k].1 as int,
                    );
                assert(keeps_last_token(
                    chunks,
                    accepted,
                    i,
                    carries[k].0 as int,
                    carries[k].1 as int,
                ));
            } else {
                assert(keeps_last_token(
                    chunks,
                    accepted,
                    n - 1,
                    carries[k].0 as int,
                    carries[k].1 as int,
                ));
            }
        }
        assert forall|i: int|
            0 <= i < n && step == 2 && accepted[i] > 0 && ((#[trigger] chunks[i]).position
                + accepted[i]) % 2 == 1 implies exists|k: int|
            0 <= k < carries.len() && (#[trigger] carries[k]).0 == chunks[i].lease.slot by {
            if i < n - 1 {
                let k = choose|k: int|
                    0 <= k < before.len() && (#[trigger] before[k]).0 == chunks[i].lease.slot;
                assert(carries[k] == before[k]);
            } else {
                assert(carries[before.len() as int].0 == chunks[i].lease.slot);
            }
        }
        assert forall|k: int, l: int| 0 <= k < l < carries.len() implies (
        #[trigger] carries[k]).0 != (#[trigger] carries[l]).0 by {
            assert(carries[k] == before[k]);
            if l < before.len() {
                assert(carries[l] == before[l]);
            } else {
                let i = choose|i: int|
                    i < n - 1 && #[trigger] keeps_last_token(
                        chunks,
                        accepted,
                        i,
                        before[k].0 as int,
                        before[k].1 as int,
                    );
                assert(chunks[i].lease.slot != chunks[n - 1].lease.slot);
            }
        }
    }
}

/// A commit's appends run from the groups that a request had to the groups that it has
/// with its accepted tokens: no group is counted that is not full, no full group is
/// left out.
pub proof fn law_appends_count_full_groups(
    prepared: &Prepared,
    accepted: Seq<u32>,
    step: int,
    slot_count: int,
    capacity: int,
    i: int,
)
    requires
        step == 1 || step == 2,
        prepared.wf(step, slot_count, capacity),
        accepted.len() == prepared.chunks@.len(),
        0 <= i < accepted.len(),
        accepted[i] <= prepared.chunks@[i].tokens,
    ensures
        ({
            let chunk = prepared.chunks@[i];
            let appends = commit::commit_appends(prepared, accepted, step);
            let (slot, start, end) = appends[i];
            &&& appends.len() == prepared.chunks@.len()
            &&& slot == chunk.lease.slot
            &&& start * step <= chunk.position < (start + 1) * step
            &&& end * step <= chunk.position + accepted[i] < (end + 1) * step
        }),
{
    let chunk = prepared.chunks@[i];
    assert(chunk.position + chunk.tokens <= MAX_CONTEXT);
}

/// Every group that accepted tokens complete is stored: the proposal row of its last
/// token goes to the physical row that the request's new page table gives the group,
/// which is the row of that number in the page for every 256 groups.
pub proof fn law_commit_stores_every_group(
    index: &SourceCache,
    plan: &IndexPlan,
    prepared: &Prepared,
    accepted: Seq<u32>,
    step: int,
    slot_count: int,
    capacity: int,
    destinations: Seq<u64>,
    i: int,
    group: int,
)
    requires
        step == 1 || step == 2,
        prepared.wf(step, slot_count, capacity),
        capacity <= 4096,
        accepted.len() == prepared.chunks@.len(),
        forall|k: int|
            0 <= k < accepted.len() ==> (#[trigger] accepted[k]) <= prepared.chunks@[k].tokens,
        commit::placed(
            index,
            plan,
            commit::accepted_rows(prepared, accepted, step, accepted.len() as int),
            prepared.rows as int,
            step,
            destinations,
        ),
        0 <= i < accepted.len(),
        prepared.chunks@[i].position <= (group + 1) * step - 1 < prepared.chunks@[i].position
            + accepted[i],
    ensures
        ({
            let chunk = prepared.chunks@[i];
            let row = tokens_before(prepared.chunks@, i) + (group + 1) * step - 1 - chunk.position;
            let table = apply::applied_tables(index.tables(), plan@, plan@.len() as int)[
                chunk.lease.slot as int
            ];
            &&& 0 <= row < destinations.len() == prepared.rows
            &&& destinations[row] == (table[group / 256] * 256 + group % 256) as u64
        }),
{
    let chunks = prepared.chunks@;
    let chunk = chunks[i];
    let n = chunks.len() as int;
    let rows = commit::accepted_rows(prepared, accepted, step, n);
    law_accepted_rows_are_the_groups(prepared, accepted, step, slot_count, capacity);
    let j = (group + 1) * step - 1 - chunk.position;
    assert((chunks[i].position + j + 1) % step == 0) by {
        if step == 2 {
            assert(((group + 1) * 2) % 2 == 0);
        }
    }
    assert(accepted[i] <= chunk.tokens);
    let k = choose|k: int|
        0 <= k < rows.len() && (#[trigger] rows[k]).lease == chunk.lease && rows[k].position
            == chunk.position + j + 1 - step;
    assert(some_chunk_completes(chunks, accepted, step, n, rows[k]));
    let h = choose|h: int| h < n && #[trigger] completes(chunks, accepted, step, h, rows[k]);
    if h < i {
        assert(chunks[h].lease.slot != chunks[i].lease.slot);
    } else if h > i {
        assert(chunks[i].lease.slot != chunks[h].lease.slot);
    }
    assert(h == i);
    lemma_tokens_apart(chunks, 0, i);
    lemma_tokens_apart(chunks, i, n);
    lemma_tokens_before(chunks, n);
    assert(rows[k].position as int / step == group) by {
        if step == 2 {
            assert(rows[k].position == group * 2);
        }
    }
}

/// A row of the proposal that completes no group of accepted tokens is stored nowhere.
pub proof fn law_commit_stores_nothing_else(
    index: &SourceCache,
    plan: &IndexPlan,
    prepared: &Prepared,
    accepted: Seq<u32>,
    step: int,
    slot_count: int,
    capacity: int,
    destinations: Seq<u64>,
    i: int,
    j: int,
)
    requires
        step == 1 || step == 2,
        prepared.wf(step, slot_count, capacity),
        capacity <= 4096,
        accepted.len() == prepared.chunks@.len(),
        forall|k: int|
            0 <= k < accepted.len() ==> (#[trigger] accepted[k]) <= prepared.chunks@[k].tokens,
        commit::placed(
            index,
            plan,
            commit::accepted_rows(prepared, accepted, step, accepted.len() as int),
            prepared.rows as int,
            step,
            destinations,
        ),
        0 <= i < accepted.len(),
        0 <= j < prepared.chunks@[i].tokens,
        j >= accepted[i] || (prepared.chunks@[i].position + j + 1) % step != 0,
    ensures
        0 <= tokens_before(prepared.chunks@, i) + j < destinations.len(),
        destinations[tokens_before(prepared.chunks@, i) + j] == u64::MAX,
{
    let chunks = prepared.chunks@;
    let n = chunks.len() as int;
    let rows = commit::accepted_rows(prepared, accepted, step, n);
    let x = tokens_before(chunks, i) + j;
    law_accepted_rows_are_the_groups(prepared, accepted, step, slot_count, capacity);
    lemma_tokens_apart(chunks, 0, i);
    lemma_tokens_apart(chunks, i, n);
    lemma_tokens_before(chunks, n);
    assert forall|k: int| 0 <= k < rows.len() implies (#[trigger] rows[k]).source_row != x by {
        assert(some_chunk_completes(chunks, accepted, step, n, rows[k]));
        let h = choose|h: int| h < n && #[trigger] completes(chunks, accepted, step, h, rows[k]);
        assert(accepted[h] <= chunks[h].tokens);
        if h < i {
            lemma_tokens_apart(chunks, h, i);
        } else if h > i {
            lemma_tokens_apart(chunks, i, h);
        } else if rows[k].source_row == x {
            assert(rows[k].position + step - 1 == chunks[i].position + j);
            if step == 2 {
                assert(rows[k].position as int % 2 == 0);
            }
        }
    }
}

/// A request's proposal shows every group of its tokens once. The groups that were full
/// before the chunk are the committed rows; each group that the chunk completes is a
/// private row, the one of the group's last token; a group that stays open is not shown.
pub proof fn law_proposal_shows_every_group(
    wave: &CompressorWave,
    state: &CompressorState,
    buffers: SourceBuffers,
    prepared: &Prepared,
    i: int,
    proposal: IndexProposal,
    group: int,
)
    requires
        wave.inv(),
        state.inv(),
        state.layer == wave.layer,
        buffers.serve(&state.index),
        wave.fits(prepared, state.slot_count as int),
        0 <= i < prepared.chunks@.len(),
        wave.proposal_of(state, buffers, prepared, i, proposal),
        0 <= group,
    ensures
        ({
            let chunk = prepared.chunks@[i];
            let end = chunk.position + chunk.tokens;
            let step = proposal.step as int;
            let last = (group + 1) * step - 1;
            let row = proposal.offset + (group - proposal.start) * step;
            &&& step == if wave.layer == 20 {
                1int
            } else {
                2int
            }
            &&& proposal.first_token == chunk.position
            &&& proposal.end_token == end
            &&& proposal.binding.lease == chunk.lease
            &&& proposal.binding.snapshot == prepared.snapshot
            &&& proposal.source_layer == wave.layer
            &&& Some(proposal.request) == state.slots@[chunk.lease.slot as int].request
            &&& proposal.cache.rows == proposal.start
            &&& proposal.kv_cache.rows == proposal.start
            &&& proposal.cache.pages@ == state.index.tables()[chunk.lease.slot as int]
            &&& proposal.capacity == prepared.rows
            &&& last < chunk.position <==> group < proposal.start
            &&& chunk.position <= last < end <==> proposal.start <= group < proposal.start
                + proposal.count
            &&& proposal.start <= group < proposal.start + proposal.count ==> row
                == tokens_before(prepared.chunks@, i) + (last - chunk.position) && 0 <= row
                < proposal.capacity
        }),
{
    let chunks = prepared.chunks@;
    let chunk = chunks[i];
    let n = chunks.len() as int;
    lemma_tokens_before(chunks, i);
    lemma_tokens_before(chunks, n);
    lemma_tokens_apart(chunks, 0, i);
    lemma_tokens_apart(chunks, i, n);
    assert(chunk.position + chunk.tokens <= MAX_CONTEXT);
    let start = chunk.position as int / proposal.step as int;
    if wave.layer == 20 {
        assert(proposal.step == 1);
    } else {
        assert(proposal.step == 2);
        assert((group + 1) * 2 - 1 < chunk.position <==> group < chunk.position as int / 2);
        assert((group - proposal.start) * 2 == group * 2 - proposal.start * 2);
    }
    assert(chunk.lease.slot < state.slot_count);
    assert(state.index.tables()[chunk.lease.slot as int]
        == state.index.pages@[chunk.lease.slot as int]@);
}

/// A proposal's rows lie in the lane's own buffers, one after the other, as many bytes
/// as the rows take.
pub proof fn law_proposal_lies_in_its_lane(
    wave: &CompressorWave,
    state: &CompressorState,
    buffers: SourceBuffers,
    prepared: &Prepared,
    i: int,
    proposal: IndexProposal,
    output: CompressorOutput,
)
    requires
        wave.inv(),
        wave.fits(prepared, state.slot_count as int),
        0 <= i < prepared.chunks@.len(),
        wave.proposal_of(state, buffers, prepared, i, proposal),
        wave.output_of(prepared, output),
    ensures
        ({
            let rows = tokens_before(prepared.chunks@, prepared.chunks@.len() as int);
            &&& starts(output.buffer, wave.buffers.output, 1024 * rows)
            &&& starts(output.frequencies, wave.buffers.frequencies, 256 * rows)
            &&& starts(output.index_key, wave.buffers.index_key, 256 * rows)
            &&& starts(output.index_packed, wave.buffers.index_packed, 64 * rows)
            &&& starts(output.index_scales, wave.buffers.index_scales, 4 * rows)
            &&& starts(output.kv_values, wave.buffers.kv_values, 256 * rows)
            &&& starts(output.kv_scales, wave.buffers.kv_scales, 32 * rows)
            &&& output.completed@ == prepared.completed@
            &&& proposal.packed == output.index_packed
            &&& proposal.scales == output.index_scales
            &&& proposal.kv_values == output.kv_values
            &&& proposal.kv_scales == output.kv_scales
        }),
{
    lemma_tokens_before(prepared.chunks@, prepared.chunks@.len() as int);
}

/// `part` is the first `bytes` bytes of `buffer`.
pub open spec fn starts(part: DeviceBuffer, buffer: DeviceBuffer, bytes: int) -> bool {
    part.device == buffer.device && part.address == buffer.address && part.bytes == bytes
}

/// A query sees just the groups whose tokens all lie at or before it, and finds the
/// private ones where the proposal shows them.
pub proof fn law_query_sees_the_groups_behind_it(
    proposal: IndexProposal,
    position: u64,
    group: int,
)
    requires
        proposal.step == 1 || proposal.step == 2,
        proposal.first_token <= position < proposal.end_token,
        proposal.end_token <= MAX_CONTEXT,
        0 <= group,
    ensures
        ({
            let words = proposal.query_words(position);
            &&& words.len() == 6
            &&& words[0] == 0
            &&& (group + 1) * proposal.step - 1 <= position <==> group < words[1]
            &&& words[2] == proposal.start
            &&& words[3] == proposal.count
            &&& words[4] == proposal.offset
            &&& words[5] == proposal.step
        }),
{
    if proposal.step == 2 {
        assert((group + 1) * 2 - 1 <= position <==> group < (position + 1) / 2);
    }
}

proof fn lemma_position_words(completed: Seq<CompressorLatentRow>, rows: int, n: int)
    requires
        0 <= n <= completed.len(),
        0 <= rows,
        forall|k: int| 0 <= k < completed.len() ==> (#[trigger] completed[k]).source_row < rows,
        forall|k: int, l: int|
            0 <= k < l < completed.len() ==> (#[trigger] completed[k]).source_row < (
            #[trigger] completed[l]).source_row,
    ensures
        ({
            let words = upload::position_words(completed, rows, n);
            &&& words.len() == rows
            &&& forall|k: int|
                0 <= k < n ==> words[(#[trigger] completed[k]).source_row as int]
                    == completed[k].position
            &&& forall|x: int|
                #![trigger words[x]]
                0 <= x < rows && (forall|k: int|
                    0 <= k < n ==> (#[trigger] completed[k]).source_row != x) ==> words[x] == 0
        }),
    decreases n,
{
    if n > 0 {
        lemma_position_words(completed, rows, n - 1);
        let before = upload::position_words(completed, rows, n - 1);
        let words = upload::position_words(completed, rows, n);
        assert forall|k: int| 0 <= k < n implies words[(#[trigger] completed[k]).source_row as int]
            == completed[k].position by {
            if k < n - 1 {
                assert(completed[k].source_row < completed[n - 1].source_row);
            }
        }
        assert forall|x: int|
            #![trigger words[x]]
            0 <= x < rows && (forall|k: int|
                0 <= k < n ==> (#[trigger] completed[k]).source_row != x) implies words[x] == 0 by {
            assert(completed[n - 1].source_row != x);
            assert(before[x] == 0);
        }
    }
}

/// The kernel is told, for the row of each token that completes a group, the position
/// of the group's first token, and zero for every other row.
pub proof fn law_rows_are_told_their_groups(
    prepared: &Prepared,
    step: int,
    slot_count: int,
    capacity: int,
    i: int,
    j: int,
)
    requires
        step == 1 || step == 2,
        prepared.wf(step, slot_count, capacity),
        capacity <= 4096,
        0 <= i < prepared.chunks@.len(),
        0 <= j < prepared.chunks@[i].tokens,
    ensures
        ({
            let words = upload::position_words(
                prepared.completed@,
                prepared.rows as int,
                prepared.completed@.len() as int,
            );
            let position = prepared.chunks@[i].position + j;
            &&& words.len() == prepared.rows
            &&& words[tokens_before(prepared.chunks@, i) + j] == if (position + 1) % step == 0 {
                position + 1 - step
            } else {
                0
            }
        }),
{
    let chunks = prepared.chunks@;
    let n = chunks.len() as int;
    let counts = Seq::new(chunks.len(), |k: int| chunks[k].tokens);
    let completed = prepared.completed@;
    let rows = prepared.rows as int;
    let position = chunks[i].position + j;
    let x = tokens_before(chunks, i) + j;
    law_completed_rows_are_the_groups(prepared, step, slot_count, capacity);
    lemma_tokens_before(chunks, n);
    lemma_tokens_apart(chunks, 0, i);
    lemma_tokens_apart(chunks, i, n);
    assert forall|k: int| 0 <= k < completed.len() implies (#[trigger] completed[k]).source_row
        < rows by {
        assert(some_chunk_completes(chunks, counts, step, n, completed[k]));
        let h = choose|h: int| h < n && #[trigger] completes(chunks, counts, step, h, completed[k]);
        lemma_tokens_apart(chunks, h, n);
    }
    lemma_position_words(completed, rows, completed.len() as int);
    if (position + 1) % step == 0 {
        assert(counts[i] == chunks[i].tokens);
        assert((chunks[i].position + j + 1) % step == 0);
        let k = choose|k: int|
            0 <= k < completed.len() && (#[trigger] completed[k]).lease == chunks[i].lease
                && completed[k].position == chunks[i].position + j + 1 - step;
        assert(some_chunk_completes(chunks, counts, step, n, completed[k]));
        let h = choose|h: int| h < n && #[trigger] completes(chunks, counts, step, h, completed[k]);
        if h < i {
            assert(chunks[h].lease.slot != chunks[i].lease.slot);
        } else if h > i {
            assert(chunks[i].lease.slot != chunks[h].lease.slot);
        }
        assert(completed[k].source_row == x);
    } else {
        assert forall|k: int| 0 <= k < completed.len() implies (#[trigger] completed[k]).source_row
            != x by {
            assert(some_chunk_completes(chunks, counts, step, n, completed[k]));
            let h = choose|h: int|
                h < n && #[trigger] completes(chunks, counts, step, h, completed[k]);
            if h < i {
                lemma_tokens_apart(chunks, h, i);
            } else if h > i {
                lemma_tokens_apart(chunks, i, h);
            } else if completed[k].source_row == x {
                assert(completed[k].position + step - 1 == position);
                if step == 2 {
                    assert(completed[k].position as int % 2 == 0);
                }
            }
        }
    }
}

/// A commit moves the frontier of each of its requests by its accepted tokens and of no
/// other; a request that took part gets a new version, also where none was accepted.
pub proof fn law_commit_advances_by_the_accepted_tokens(
    slots: Seq<Slot>,
    prepared: &Prepared,
    accepted: Seq<u32>,
    step: int,
    slot_count: int,
    capacity: int,
    s: int,
)
    requires
        slots.len() == MAX_SLOTS,
        slot_count <= MAX_SLOTS,
        prepared.wf(step, slot_count, capacity),
        accepted.len() == prepared.chunks@.len(),
        forall|i: int|
            0 <= i < accepted.len() ==> (#[trigger] accepted[i]) <= prepared.chunks@[i].tokens,
        forall|i: int|
            0 <= i < prepared.chunks@.len() ==> {
                let slot = slots[(#[trigger] prepared.chunks@[i]).lease.slot as int];
                slot.end == prepared.chunks@[i].position && slot.version < u64::MAX
            },
        0 <= s < MAX_SLOTS,
    ensures
        ({
            let now = commit::committed_slots(slots, prepared, accepted, accepted.len() as int)[s];
            &&& now.request == slots[s].request
            &&& now.generation == slots[s].generation
            &&& forall|i: int|
                0 <= i < accepted.len() && (#[trigger] prepared.chunks@[i]).lease.slot == s ==> {
                    &&& now.end == slots[s].end + accepted[i]
                    &&& now.version == slots[s].version + 1
                }
            &&& (forall|i: int|
                0 <= i < accepted.len() ==> (#[trigger] prepared.chunks@[i]).lease.slot != s)
                ==> now == slots[s]
        }),
{
    lemma_advanced(slots, prepared, accepted, step, slot_count, capacity, s, accepted.len() as int);
}

proof fn lemma_advanced(
    slots: Seq<Slot>,
    prepared: &Prepared,
    accepted: Seq<u32>,
    step: int,
    slot_count: int,
    capacity: int,
    s: int,
    n: int,
)
    requires
        slots.len() == MAX_SLOTS,
        slot_count <= MAX_SLOTS,
        prepared.wf(step, slot_count, capacity),
        accepted.len() == prepared.chunks@.len(),
        0 <= n <= accepted.len(),
        forall|i: int|
            0 <= i < accepted.len() ==> (#[trigger] accepted[i]) <= prepared.chunks@[i].tokens,
        forall|i: int|
            0 <= i < prepared.chunks@.len() ==> {
                let slot = slots[(#[trigger] prepared.chunks@[i]).lease.slot as int];
                slot.end == prepared.chunks@[i].position && slot.version < u64::MAX
            },
        0 <= s < MAX_SLOTS,
    ensures
        ({
            let all = commit::committed_slots(slots, prepared, accepted, n);
            let now = all[s];
            &&& all.len() == MAX_SLOTS
            &&& now.request == slots[s].request
            &&& now.generation == slots[s].generation
            &&& forall|i: int|
                0 <= i < n && (#[trigger] prepared.chunks@[i]).lease.slot == s ==> {
                    &&& now.end == slots[s].end + accepted[i]
                    &&& now.version == slots[s].version + 1
                }
            &&& (forall|i: int|
                0 <= i < n ==> (#[trigger] prepared.chunks@[i]).lease.slot != s) ==> now
                == slots[s]
        }),
    decreases n,
{
    if n > 0 {
        lemma_advanced(slots, prepared, accepted, step, slot_count, capacity, s, n - 1);
        let chunk = prepared.chunks@[n - 1];
        assert(accepted[n - 1] <= prepared.chunks@[n - 1].tokens);
        assert(chunk.position + chunk.tokens <= MAX_CONTEXT);
        assert forall|i: int|
            0 <= i < n && (#[trigger] prepared.chunks@[i]).lease.slot == s implies {
            let now = commit::committed_slots(slots, prepared, accepted, n)[s];
            &&& now.end == slots[s].end + accepted[i]
            &&& now.version == slots[s].version + 1
        } by {
            if i < n - 1 {
                assert(prepared.chunks@[i].lease.slot != prepared.chunks@[n - 1].lease.slot);
            }
        }
    }
}

/// A committed range shows the request's committed groups and no private rows.
pub proof fn law_committed_range_shows_the_history(
    state: &CompressorState,
    buffers: SourceBuffers,
    lease: CompressorLease,
    first: u64,
    end: u64,
    snapshot: u64,
    proposal: IndexProposal,
    group: int,
)
    requires
        state.inv(),
        lease.slot < state.slot_count,
        state.committed_range(buffers, lease, first, end, snapshot, proposal),
        0 <= group,
    ensures
        ({
            let slot = state.slots@[lease.slot as int];
            let step = proposal.step as int;
            &&& step == if state.layer == 20 {
                1int
            } else {
                2int
            }
            &&& (group + 1) * step - 1 < slot.end <==> group < proposal.cache.rows
            &&& proposal.kv_cache.rows == proposal.cache.rows
            &&& proposal.start == proposal.cache.rows
            &&& proposal.count == 0
            &&& proposal.first_token == first
            &&& proposal.end_token == end
            &&& proposal.binding.lease == lease
            &&& proposal.binding.snapshot == snapshot
            &&& Some(proposal.request) == slot.request
            &&& proposal.source_layer == state.layer
            &&& proposal.cache.pages@ == state.index.tables()[lease.slot as int]
            &&& proposal.kv_cache.pages@ == state.index.tables()[lease.slot as int]
            &&& proposal.packed == buffers.packed
            &&& proposal.scales == buffers.scales
            &&& proposal.kv_values == buffers.kv_values
            &&& proposal.kv_scales == buffers.kv_scales
        }),
{
    let slot = state.slots@[lease.slot as int];
    assert(slot.end <= MAX_CONTEXT);
    if state.layer != 20 {
        assert((group + 1) * 2 - 1 < slot.end <==> group < slot.end as int / 2);
    }
    assert(state.index.tables()[lease.slot as int] == state.index.pages@[lease.slot as int]@);
}

/// A proposal's private rows are the published ones: selection and attention read the
/// very buffers that the run has filled, all rows of them.
pub proof fn law_proposal_reads_the_published_rows(
    wave: &CompressorWave,
    state: &CompressorState,
    buffers: SourceBuffers,
    prepared: &Prepared,
    i: int,
    proposal: IndexProposal,
    output: CompressorOutput,
)
    requires
        wave.output_of(prepared, output),
        wave.proposal_of(state, buffers, prepared, i, proposal),
        prepared.rows <= 4096,
    ensures
        proposal.packed == output.index_packed,
        proposal.scales == output.index_scales,
        proposal.kv_values == output.kv_values,
        proposal.kv_scales == output.kv_scales,
        proposal.packed.bytes == 64 * proposal.capacity,
        proposal.scales.bytes == 4 * proposal.capacity,
        proposal.kv_values.bytes == 256 * proposal.capacity,
        proposal.kv_scales.bytes == 32 * proposal.capacity,
        output.buffer.bytes == 1024 * proposal.capacity,
        output.completed@ == prepared.completed@,
{
}

} // verus!
