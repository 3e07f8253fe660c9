//! What a planned batch says of its requests, and where each token's row is.
use crate::backbone_cache;
use crate::backbone_cache::attention;
use crate::backbone_cache::attention::{AttentionRequest, CacheAttention};
use crate::backbone_cache::plan;
use crate::backbone_cache::plan::{
    BatchIds, BatchRequest, CacheBatch, CacheWork, WorkKind,
};
use crate::backbone_cache::{BackboneCache, SOURCE_COUNT};
use crate::cache_phase::CacheStage;
use crate::compressor::laws;
use crate::compressor::wave::CompressorWave;
use crate::compressor::MAX_CONTEXT;
use crate::error::Error;
use crate::source_cache::layout::SourceBuffers;
use crate::window::WindowWave;
use vstd::prelude::*;

verus! {

/// Tokens of the first `n` requests.
pub open spec fn rows_before(requests: Seq<BatchRequest>, n: int) -> int
    decreases n,
{
    if n <= 0 {
        0
    } else {
        rows_before(requests, n - 1) + requests[n - 1].work.tokens
    }
}

proof fn lemma_rows_before(requests: Seq<BatchRequest>, a: int, b: int)
    requires
        0 <= a <= b,
    ensures
        0 <= rows_before(requests, a) <= rows_before(requests, b),
        a < b ==> rows_before(requests, a) + requests[a].work.tokens <= rows_before(requests, b),
    decreases b,
{
    if a < b {
        lemma_rows_before(requests, a, b - 1);
    } else if a > 0 {
        lemma_rows_before(requests, a - 1, b - 1);
    }
}

proof fn lemma_row(requests: Seq<BatchRequest>, n: int, r: int, t: int)
    requires
        0 <= r < n <= requests.len(),
        0 <= t < requests[r].work.tokens,
        forall|i: int|
            0 <= i < requests.len() ==> (#[trigger] requests[i]).position + requests[i].work.tokens
                <= MAX_CONTEXT,
    ensures
        plan::batch_rows(requests, n).len() == rows_before(requests, n),
        plan::batch_positions(requests, n).len() == rows_before(requests, n),
        plan::batch_rows(requests, n)[rows_before(requests, r) + t].request_id == requests[r].id,
        plan::batch_rows(requests, n)[rows_before(requests, r) + t].position
            == requests[r].position + t,
        plan::batch_rows(requests, n)[rows_before(requests, r) + t].kind == requests[r].work.kind,
        plan::batch_positions(requests, n)[rows_before(requests, r) + t] == requests[r].position
            + t,
    decreases n,
{
    lemma_lengths(requests, n);
    lemma_lengths(requests, n - 1);
    lemma_rows_before(requests, r, n);
    if r < n - 1 {
        lemma_rows_before(requests, r, n - 1);
        lemma_row(requests, n - 1, r, t);
    } else {
        let rows = plan::request_rows(requests[r]);
        assert(plan::batch_rows(requests, n)[rows_before(requests, r) + t] == rows[t]);
        let positions = plan::request_positions(requests[r]);
        assert(plan::batch_positions(requests, n)[rows_before(requests, r) + t] == positions[t]);
    }
}

proof fn lemma_lengths(requests: Seq<BatchRequest>, n: int)
    requires
        n <= requests.len(),
    ensures
        plan::batch_rows(requests, n).len() == rows_before(requests, n),
        plan::batch_positions(requests, n).len() == rows_before(requests, n),
    decreases n,
{
    if n > 0 {
        lemma_lengths(requests, n - 1);
    }
}

/// A batch has one row per token. The rows of a request follow those of the requests
/// before it, in the order of their positions; each has the request's number and kind.
pub proof fn law_batch_has_a_row_per_token(batch: &CacheBatch, r: int, t: int)
    requires
        batch.wf(),
        0 <= r < batch.requests@.len(),
        0 <= t < batch.requests@[r].work.tokens,
    ensures
        ({
            let requests = batch.requests@;
            let n = requests.len() as int;
            let rows = plan::batch_rows(requests, n);
            let positions = plan::batch_positions(requests, n);
            let row = rows_before(requests, r) + t;
            &&& rows.len() == rows_before(requests, n)
            &&& positions.len() == rows_before(requests, n)
            &&& 0 <= row < rows.len()
            &&& rows[row].request_id == requests[r].id
            &&& rows[row].position == requests[r].position + t
            &&& rows[row].kind == requests[r].work.kind
            &&& positions[row] == rows[row].position
        }),
{
    let n = batch.requests@.len() as int;
    lemma_row(batch.requests@, n, r, t);
    lemma_rows_before(batch.requests@, r, n);
}

proof fn lemma_chunk_rows(batch: &CacheBatch, i: int, r: int)
    requires
        0 <= r <= batch.requests@.len(),
    ensures
        laws::tokens_before(batch.source_chunks_of(i), r) == rows_before(batch.requests@, r),
    decreases r,
{
    if r > 0 {
        lemma_chunk_rows(batch, i, r - 1);
        laws::lemma_tokens_before(batch.source_chunks_of(i), r - 1);
    } else {
        laws::lemma_tokens_before(batch.source_chunks_of(i), 0);
    }
}

/// Windows and sources see the same rows as the batch: one chunk per request, in the
/// same order, of the same tokens at the same position, under the request's own lease.
pub proof fn law_chunks_follow_the_batch(batch: &CacheBatch, layer: int, i: int, r: int)
    requires
        batch.wf(),
        0 <= r < batch.requests@.len(),
    ensures
        ({
            let request = batch.requests@[r];
            let windows = batch.window_chunks_of(layer);
            let sources = batch.source_chunks_of(i);
            &&& windows.len() == batch.requests@.len()
            &&& sources.len() == batch.requests@.len()
            &&& windows[r].lease == request.windows@[layer]
            &&& windows[r].position == request.position
            &&& windows[r].tokens == request.work.tokens
            &&& sources[r].lease == request.sources@[i]
            &&& sources[r].position == request.position
            &&& sources[r].tokens == request.work.tokens
            &&& laws::tokens_before(sources, r) == rows_before(batch.requests@, r)
        }),
{
    lemma_chunk_rows(batch, i, r);
}

proof fn lemma_items(
    bank: &BackboneCache,
    work: Seq<CacheWork>,
    replay: bool,
    reserve: bool,
    n: int,
    i: int,
)
    requires
        bank.first_item_error(work, replay, reserve, n) is None,
        0 <= i < n,
    ensures
        bank.item_error(work, replay, reserve, i) is None,
    decreases n,
{
    if i < n - 1 {
        lemma_items(bank, work, replay, reserve, n - 1, i);
    }
}

proof fn lemma_planned_rows(
    bank: &BackboneCache,
    work: Seq<CacheWork>,
    reserve: bool,
    batch: CacheBatch,
    n: int,
)
    requires
        0 <= n <= work.len() == batch.requests@.len(),
        forall|i: int|
            0 <= i < work.len() ==> bank.planned_request(
                #[trigger] work[i],
                reserve,
                batch.requests@[i],
            ),
    ensures
        rows_before(batch.requests@, n) == plan::work_rows(work, n),
    decreases n,
{
    if n > 0 {
        lemma_planned_rows(bank, work, reserve, batch, n - 1);
        assert(bank.planned_request(work[n - 1], reserve, batch.requests@[n - 1]));
    }
}

/// A planned batch continues its requests: every item is some live request's own, has
/// tokens, and starts where the request's running pass has got to, or where its last
/// chunk under way ends. All rows fit one lane and the context, and no request is in
/// the batch twice.
pub proof fn law_planned_batch_continues_its_requests(
    bank: &BackboneCache,
    ids: BatchIds,
    after: BatchIds,
    work: Seq<CacheWork>,
    replay: bool,
    reserve: bool,
    batch: CacheBatch,
    i: int,
    j: int,
    layer: int,
)
    requires
        bank.inv(),
        bank.plan_result(ids, after, work, replay, reserve, Ok::<CacheBatch, Error>(batch)),
        0 <= i < work.len(),
        0 <= j < work.len(),
        0 <= layer < 40,
    ensures
        ({
            let planned = batch.requests@[i];
            let live = bank.live(work[i].lease);
            &&& batch.requests@.len() == work.len()
            &&& planned.work == work[i]
            &&& planned.id == live.id
            &&& planned.version == live.version
            &&& planned.windows@ == live.windows@
            &&& planned.sources@ == live.sources@
            &&& planned.work.tokens > 0
            &&& planned.position + planned.work.tokens <= 1048576
            &&& rows_before(batch.requests@, work.len() as int) <= 4096
            &&& i != j ==> planned.work.lease != batch.requests@[j].work.lease
            &&& !reserve && batch.stage.has_window(layer) ==> planned.position
                == live.phase.window_frontier(layer, live.end)
            &&& reserve && live.publication@.len() == 0 ==> planned.position == live.end
            &&& reserve && live.publication@.len() > 0 ==> planned.position
                == live.publication@[live.publication@.len() - 1].end
            &&& reserve ==> batch.stage == CacheStage::Encoder
            &&& replay <==> batch.stage == CacheStage::Replay
            &&& batch.stage != CacheStage::Full ==> planned.work.kind == WorkKind::Prefill
            &&& live.phase.limit() is Some ==> planned.position + planned.work.tokens
                <= live.phase.limit()->Some_0
        }),
{
    let n = work.len() as int;
    lemma_items(bank, work, replay, reserve, n, i);
    lemma_items(bank, work, replay, reserve, n, 0);
    lemma_items(bank, work, replay, reserve, n, n - 1);
    assert(bank.planned_request(work[i], reserve, batch.requests@[i]));
    assert(bank.planned_request(work[j], reserve, batch.requests@[j]));
    lemma_planned_rows(bank, work, reserve, batch, n);
    if i < j {
        assert(batch.requests@[i].work.lease != batch.requests@[j].work.lease);
    } else if j < i {
        assert(batch.requests@[j].work.lease != batch.requests@[i].work.lease);
    }
}

/// A source belongs to every sixth layer from the third on, the last of them the first
/// of the decoder; no other layer has one.
pub proof fn law_sources_stand_six_layers_apart(layer: int)
    ensures
        plan::source_of(layer) is Some <==> 0 <= layer <= 20 && layer % 6 == 2,
        plan::source_of(layer) is Some ==> 0 <= plan::source_of(layer)->Some_0 < SOURCE_COUNT
            && backbone_cache::source_layer(plan::source_of(layer)->Some_0) == layer && layer == 2
            + 6 * plan::source_of(layer)->Some_0,
{
}

/// Below the third layer attention reads no source; from there on it reads the last one
/// that does not lie above it.
pub proof fn law_layer_reads_the_nearest_source(layer: int, j: int)
    requires
        0 <= layer < 40,
        0 <= j < SOURCE_COUNT,
    ensures
        attention::read_source(layer) is Some <==> layer >= 2,
        attention::read_source(layer) is Some ==> {
            let i = attention::read_source(layer)->Some_0;
            &&& 0 <= i < SOURCE_COUNT
            &&& backbone_cache::source_layer(i) <= layer
            &&& backbone_cache::source_layer(j) <= layer ==> backbone_cache::source_layer(j)
                <= backbone_cache::source_layer(i)
        },
{
}

/// Attention covers the batch: the request at place `r` reads its own window's rows and
/// those of the nearest source under its own lease, and its queries have the positions
/// of the batch's rows, token by token.
pub proof fn law_attention_covers_the_batch(
    bank: &BackboneCache,
    batch: &CacheBatch,
    layer: int,
    window: &WindowWave,
    source: Option<&CompressorWave>,
    buffers: SourceBuffers,
    reads: CacheAttention,
    request: AttentionRequest,
    r: int,
    t: int,
)
    requires
        bank.inv(),
        batch.wf(),
        0 <= layer < 40,
        bank.readable(layer, source, &buffers),
        bank.attention_error(batch, layer, window, source) is None,
        bank.attends(batch, layer, window, source, buffers, reads),
        reads.is_request(r, request),
        0 <= r < batch.requests@.len(),
        0 <= t < batch.requests@[r].work.tokens,
    ensures
        ({
            let planned = batch.requests@[r];
            let row = rows_before(batch.requests@, r) + t;
            let n = batch.requests@.len() as int;
            &&& reads.windows@.len() == n
            &&& request.window.lease == planned.windows@[layer]
            &&& request.window.layer == window.layer
            &&& request.window.tokens == request.positions@.len()
            &&& request.positions@.len() == planned.work.tokens
            &&& request.positions@[t] == request.window.position + t
            &&& request.positions@[t] == plan::batch_rows(batch.requests@, n)[row].position
            &&& request.source is Some <==> layer >= 2
            &&& request.source is Some ==> {
                let i = attention::read_source(layer)->Some_0;
                &&& request.source->Some_0.binding.lease == planned.sources@[i]
                &&& request.source->Some_0.source_layer == bank.sources@[i].layer
            }
            &&& bank.reads_committed(batch, layer) && request.source is Some ==> {
                &&& request.source->Some_0.first_token == request.window.position
                &&& request.source->Some_0.end_token == request.window.position
                    + request.window.tokens
            }
        }),
{
    law_batch_has_a_row_per_token(batch, r, t);
    assert(reads.windows@[r].lease == batch.requests@[r].windows@[layer]);
    assert(reads.positions@[r]@ == plan::request_positions(batch.requests@[r]));
    if layer >= 2 {
        assert(bank.source_view(batch, layer, source, buffers, r, reads.sources@[r]));
    }
}

} // verus!
