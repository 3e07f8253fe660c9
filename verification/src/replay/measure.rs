//! What is counted of the replies to a replayed chain.
use crate::replay::{ReductionPath, TP_WORLD};
use crate::text;
use crate::text::append_count;
use vstd::prelude::*;
use vstd::string::*;

verus! {

/// What one dispatch reports.
pub struct DispatchStats {
    pub global_rows: usize,
    pub output_dim: usize,
    pub request_wire_bytes: usize,
    pub response_wire_bytes: usize,
    pub response_executor_ids: Vec<u64>,
}

#[derive(Debug, Clone, Copy, PartialEq, Eq, Structural)]
pub enum DispatchFault {
    RequestIds,
    Rows { returned: usize, expected: usize },
    Width { returned: usize, expected: usize },
    NoExecutors,
    RequestBytes,
    ResponseBytes,
    ResponseChunks,
}

impl DispatchFault {
    pub open spec fn words(self, path: ReductionPath) -> Seq<char> {
        match self {
            DispatchFault::RequestIds => "expert reduction replay request ID overflow"@,
            DispatchFault::Rows { returned, expected } => path.label_text() + " replay returned "@
                + text::decimal(returned as nat) + " global rows, expected "@ + text::decimal(
                expected as nat,
            ),
            DispatchFault::Width { returned, expected } => path.label_text()
                + " replay returned output width "@ + text::decimal(returned as nat)
                + ", expected "@ + text::decimal(expected as nat),
            DispatchFault::NoExecutors => path.label_text() + " replay returned no executor IDs"@,
            DispatchFault::RequestBytes => "replay request wire byte count overflow"@,
            DispatchFault::ResponseBytes => "replay response wire byte count overflow"@,
            DispatchFault::ResponseChunks => "replay response chunk count overflow"@,
        }
    }

    pub fn message(&self, path: ReductionPath) -> (r: String)
        ensures
            r@ == self.words(path),
    {
        let mut out = String::new();
        match self {
            DispatchFault::RequestIds => {
                out.append("expert reduction replay request ID overflow");
            },
            DispatchFault::Rows { returned, expected } => {
                out.append(path.label());
                out.append(" replay returned ");
                append_count(&mut out, *returned);
                out.append(" global rows, expected ");
                append_count(&mut out, *expected);
            },
            DispatchFault::Width { returned, expected } => {
                out.append(path.label());
                out.append(" replay returned output width ");
                append_count(&mut out, *returned);
                out.append(", expected ");
                append_count(&mut out, *expected);
            },
            DispatchFault::NoExecutors => {
                out.append(path.label());
                out.append(" replay returned no executor IDs");
            },
            DispatchFault::RequestBytes => {
                out.append("replay request wire byte count overflow");
            },
            DispatchFault::ResponseBytes => {
                out.append("replay response wire byte count overflow");
            },
            DispatchFault::ResponseChunks => {
                out.append("replay response chunk count overflow");
            },
        }
        assert(out@ =~= self.words(path));
        out
    }
}

pub open spec fn stats_fault(stats: &DispatchStats, physical_m: usize, hidden_size: usize) -> Option<
    DispatchFault,
> {
    if stats.global_rows != physical_m {
        Some(DispatchFault::Rows { returned: stats.global_rows, expected: physical_m })
    } else if stats.output_dim != hidden_size {
        Some(DispatchFault::Width { returned: stats.output_dim, expected: hidden_size })
    } else if stats.response_executor_ids@.len() == 0 {
        Some(DispatchFault::NoExecutors)
    } else {
        None
    }
}

/// A reply covers every row at full width and names who computed it.
pub fn validate_dispatch_stats(
    stats: &DispatchStats,
    physical_m: usize,
    hidden_size: usize,
) -> (r: Result<(), DispatchFault>)
    ensures
        match r {
            Ok(_) => stats_fault(stats, physical_m, hidden_size) is None,
            Err(fault) => stats_fault(stats, physical_m, hidden_size) == Some(fault),
        },
{
    if stats.global_rows != physical_m {
        return Err(DispatchFault::Rows { returned: stats.global_rows, expected: physical_m });
    }
    if stats.output_dim != hidden_size {
        return Err(DispatchFault::Width { returned: stats.output_dim, expected: hidden_size });
    }
    if stats.response_executor_ids.len() == 0 {
        return Err(DispatchFault::NoExecutors);
    }
    Ok(())
}

/// The sums over a chain's layers so far.
pub struct ReplayTotals {
    pub request_wire_bytes: usize,
    pub response_wire_bytes: usize,
    pub response_chunks: usize,
    /// The executors that replied, ascending and each once.
    pub executor_ids: Vec<u64>,
}

pub open spec fn ascending(ids: Seq<u64>) -> bool {
    forall|i: int, j: int| 0 <= i < j < ids.len() ==> ids[i] < ids[j]
}

impl ReplayTotals {
    pub open spec fn inv(&self) -> bool {
        ascending(self.executor_ids@)
    }

    pub fn new() -> (r: Self)
        ensures
            r.inv(),
            r.request_wire_bytes == 0,
            r.response_wire_bytes == 0,
            r.response_chunks == 0,
            r.executor_ids@.len() == 0,
    {
        ReplayTotals {
            request_wire_bytes: 0,
            response_wire_bytes: 0,
            response_chunks: 0,
            executor_ids: Vec::new(),
        }
    }

    /// Why a reply cannot be counted, if it cannot.
    pub open spec fn record_fault(
        &self,
        request_id: u64,
        stats: &DispatchStats,
        chunks: usize,
        physical_m: usize,
        hidden_size: usize,
    ) -> Option<DispatchFault> {
        if request_id + TP_WORLD > u64::MAX {
            Some(DispatchFault::RequestIds)
        } else if stats_fault(stats, physical_m, hidden_size) is Some {
            stats_fault(stats, physical_m, hidden_size)
        } else if self.request_wire_bytes + stats.request_wire_bytes > usize::MAX {
            Some(DispatchFault::RequestBytes)
        } else if self.response_wire_bytes + stats.response_wire_bytes > usize::MAX {
            Some(DispatchFault::ResponseBytes)
        } else if self.response_chunks + chunks > usize::MAX {
            Some(DispatchFault::ResponseChunks)
        } else {
            None
        }
    }

    /// The sums with one more reply counted.
    pub open spec fn counts(&self, before: &Self, stats: &DispatchStats, chunks: usize) -> bool {
        &&& self.request_wire_bytes == before.request_wire_bytes + stats.request_wire_bytes
        &&& self.response_wire_bytes == before.response_wire_bytes + stats.response_wire_bytes
        &&& self.response_chunks == before.response_chunks + chunks
        &&& forall|id: u64| #[trigger]
            self.executor_ids@.contains(id) <==> before.executor_ids@.contains(id)
                || stats.response_executor_ids@.contains(id)
    }

    /// Counts a reply; each request takes one number for every rank.
    pub fn record(
        &mut self,
        request_id: &mut u64,
        stats: &DispatchStats,
        chunks: usize,
        physical_m: usize,
        hidden_size: usize,
    ) -> (r: Result<(), DispatchFault>)
        requires
            old(self).inv(),
        ensures
            final(self).inv(),
            match r {
                Err(fault) => {
                    &&& old(self).record_fault(
                        *old(request_id),
                        stats,
                        chunks,
                        physical_m,
                        hidden_size,
                    ) == Some(fault)
                    &&& *final(self) == *old(self)
                    &&& *final(request_id) == if fault is RequestIds {
                        *old(request_id) as int
                    } else {
                        *old(request_id) + TP_WORLD
                    }
                },
                Ok(_) => {
                    &&& old(self).record_fault(
                        *old(request_id),
                        stats,
                        chunks,
                        physical_m,
                        hidden_size,
                    ) is None
                    &&& *final(request_id) == *old(request_id) + TP_WORLD
                    &&& final(self).counts(old(self), stats, chunks)
                },
            },
    {
        let next: u64 = match request_id.checked_add(TP_WORLD as u64) {
            None => {
                return Err(DispatchFault::RequestIds);
            },
            Some(next) => next,
        };
        *request_id = next;
        match validate_dispatch_stats(stats, physical_m, hidden_size) {
            Err(fault) => {
                return Err(fault);
            },
            Ok(_) => {},
        }
        let request_bytes: usize = match self.request_wire_bytes.checked_add(
            stats.request_wire_bytes,
        ) {
            None => {
                return Err(DispatchFault::RequestBytes);
            },
            Some(sum) => sum,
        };
        let response_bytes: usize = match self.response_wire_bytes.checked_add(
            stats.response_wire_bytes,
        ) {
            None => {
                return Err(DispatchFault::ResponseBytes);
            },
            Some(sum) => sum,
        };
        let response_chunks: usize = match self.response_chunks.checked_add(chunks) {
            None => {
                return Err(DispatchFault::ResponseChunks);
            },
            Some(sum) => sum,
        };
        self.request_wire_bytes = request_bytes;
        self.response_wire_bytes = response_bytes;
        self.response_chunks = response_chunks;
        let ghost before = self.executor_ids@;
        let ghost added = stats.response_executor_ids@;
        let mut i: usize = 0;
        assert(added.take(0) =~= Seq::empty());
        while i < stats.response_executor_ids.len()
            invariant
                i <= added.len(),
                added == stats.response_executor_ids@,
                ascending(self.executor_ids@),
                self.request_wire_bytes == request_bytes,
                self.response_wire_bytes == response_bytes,
                self.response_chunks == response_chunks,
                forall|id: u64| #[trigger]
                    self.executor_ids@.contains(id) <==> before.contains(id) || added.take(
                        i as int,
                    ).contains(id),
            decreases added.len() - i,
        {
            let ghost prior = self.executor_ids@;
            let id: u64 = stats.response_executor_ids[i];
            insert_id(&mut self.executor_ids, id);
            proof {
                assert forall|x: u64| #[trigger] self.executor_ids@.contains(x) <==> before.contains(
                    x,
                ) || added.take(i + 1).contains(x) by {
                    assert(self.executor_ids@.contains(x) <==> prior.contains(x) || x == id);
                    assert(prior.contains(x) <==> before.contains(x) || added.take(
                        i as int,
                    ).contains(x));
                    lemma_take_contains(added, i as int, x);
                }
            }
            i = i + 1;
        }
        assert(added.take(i as int) =~= added);
        Ok(())
    }
}

proof fn lemma_take_contains(items: Seq<u64>, i: int, x: u64)
    requires
        0 <= i < items.len(),
    ensures
        items.take(i + 1).contains(x) <==> items.take(i).contains(x) || x == items[i],
{
    let longer = items.take(i + 1);
    let shorter = items.take(i);
    if longer.contains(x) {
        let k = longer.index_of(x);
        if k < i {
            assert(shorter[k] == x);
        }
    }
    if shorter.contains(x) {
        let k = shorter.index_of(x);
        assert(longer[k] == x);
    }
    assert(longer[i] == items[i]);
}

/// Adds a number to an ascending list, unless it is there.
fn insert_id(ids: &mut Vec<u64>, id: u64)
    requires
        ascending(old(ids)@),
    ensures
        ascending(final(ids)@),
        forall|x: u64| #[trigger] final(ids)@.contains(x) <==> old(ids)@.contains(x) || x == id,
{
    let mut at: usize = 0;
    while at < ids.len() && ids[at] < id
        invariant
            at <= ids@.len(),
            ids@ == old(ids)@,
            forall|k: int| 0 <= k < at ==> ids@[k] < id,
        decreases ids@.len() - at,
    {
        at = at + 1;
    }
    let ghost before = ids@;
    if at < ids.len() && ids[at] == id {
        assert(before.contains(id));
        return;
    }
    ids.insert(at, id);
    proof {
        assert forall|x: u64| #[trigger] ids@.contains(x) <==> before.contains(x) || x == id by {
            if before.contains(x) {
                let k = before.index_of(x);
                if k < at {
                    assert(ids@[k] == x);
                } else {
                    assert(ids@[k + 1] == x);
                }
            }
            assert(ids@[at as int] == id);
            if ids@.contains(x) && x != id {
                let k = ids@.index_of(x);
                if k < at {
                    assert(before[k] == x);
                } else {
                    assert(before[k - 1] == x);
                }
            }
        }
    }
}

/// The bytes of all replies.
pub open spec fn sent_bytes(replies: Seq<DispatchStats>) -> int {
    replies.fold_left(0int, |sum: int, reply: DispatchStats| sum + reply.request_wire_bytes)
}

pub open spec fn received_bytes(replies: Seq<DispatchStats>) -> int {
    replies.fold_left(0int, |sum: int, reply: DispatchStats| sum + reply.response_wire_bytes)
}

/// Some reply names the executor.
pub open spec fn replied(replies: Seq<DispatchStats>, id: u64) -> bool {
    exists|k: int|
        0 <= k < replies.len() && (#[trigger] replies[k]).response_executor_ids@.contains(id)
}

/// The sums over a chain are those of its replies, whichever came when: `totals[k]` are
/// the sums after the first `k` of them, from nothing on.
pub proof fn law_totals_are_those_of_the_replies(
    totals: Seq<ReplayTotals>,
    replies: Seq<DispatchStats>,
    chunks: Seq<usize>,
    id: u64,
)
    requires
        totals.len() == replies.len() + 1,
        chunks.len() == replies.len(),
        totals[0].request_wire_bytes == 0,
        totals[0].response_wire_bytes == 0,
        totals[0].response_chunks == 0,
        totals[0].executor_ids@.len() == 0,
        forall|k: int|
            0 <= k < replies.len() ==> totals[k + 1].counts(
                &totals[k],
                &#[trigger] replies[k],
                chunks[k],
            ),
    ensures
        totals.last().request_wire_bytes == sent_bytes(replies),
        totals.last().response_wire_bytes == received_bytes(replies),
        totals.last().response_chunks == chunks.fold_left(0int, |sum: int, n: usize| sum + n),
        totals.last().executor_ids@.contains(id) <==> replied(replies, id),
    decreases replies.len(),
{
    reveal_with_fuel(Seq::fold_left, 2);
    if replies.len() > 0 {
        let n = replies.len() - 1;
        let before = replies.drop_last();
        assert(forall|k: int| 0 <= k < before.len() ==> #[trigger] before[k] == replies[k]);
        law_totals_are_those_of_the_replies(totals.drop_last(), before, chunks.drop_last(), id);
        assert(totals[n + 1].counts(&totals[n], &replies[n], chunks[n]));
        assert(totals[n + 1].executor_ids@.contains(id) <==> totals[n].executor_ids@.contains(id)
            || replies[n].response_executor_ids@.contains(id));
        if replied(replies, id) {
            let k = choose|k: int|
                0 <= k < replies.len() && (#[trigger] replies[k]).response_executor_ids@.contains(
                    id,
                );
            if k < n {
                assert(before[k].response_executor_ids@.contains(id));
            }
        }
        if replied(before, id) {
            let k = choose|k: int|
                0 <= k < before.len() && (#[trigger] before[k]).response_executor_ids@.contains(id);
            assert(replies[k].response_executor_ids@.contains(id));
        }
    }
}

} // verus!
