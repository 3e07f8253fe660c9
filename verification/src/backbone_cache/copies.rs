//! The pages that prefixes keep while they are being copied.
use crate::backbone_cache::{PendingPrefix, SNAPSHOT_LANES, SOURCE_COUNT};
use crate::compressor::CompressorState;
use crate::tally;
use vstd::prelude::*;

verus! {

/// The pages of source `i` that a lane's prefix keeps.
pub open spec fn lane_pages(copies: Seq<Option<PendingPrefix>>, lane: int, i: int) -> Seq<u32> {
    match copies[lane] {
        Some(pending) => pending.prefix.sources@[i].source.pages@,
        None => Seq::empty(),
    }
}

/// How often the prefixes of the first `n` lanes keep a page of source `i`.
pub open spec fn copied(copies: Seq<Option<PendingPrefix>>, n: int, i: int, page: u32) -> int
    decreases n,
{
    if n <= 0 {
        0
    } else {
        copied(copies, n - 1, i, page) + tally::occurrences(lane_pages(copies, n - 1, i), page)
    }
}

/// The source has a retained reference for every page that a lane's prefix keeps.
pub open spec fn source_held(
    copies: Seq<Option<PendingPrefix>>,
    state: &CompressorState,
    i: int,
) -> bool {
    forall|page: u32|
        page < state.index.pool.references@.len() ==> copied(
            copies,
            SNAPSHOT_LANES as int,
            i,
            page,
        ) <= #[trigger] state.index.retained(page)
}

/// The lane's prefix names pages of source `i`.
pub open spec fn copy_fits(
    copies: Seq<Option<PendingPrefix>>,
    sources: Seq<CompressorState>,
    lane: int,
    i: int,
) -> bool {
    copies[lane] matches Some(pending) ==> {
        &&& pending.prefix.sources@.len() == SOURCE_COUNT
        &&& pending.prefix.sources@[i].source.wf()
        &&& sources[i].index.pool.in_range(pending.prefix.sources@[i].source.pages@)
    }
}

/// The sources keep the pages of all prefixes that are being copied.
#[verifier::opaque]
pub open spec fn copies_held(
    copies: Seq<Option<PendingPrefix>>,
    sources: Seq<CompressorState>,
) -> bool {
    &&& forall|lane: int, i: int|
        0 <= lane < SNAPSHOT_LANES && 0 <= i < SOURCE_COUNT ==> #[trigger] copy_fits(
            copies,
            sources,
            lane,
            i,
        )
    &&& forall|i: int| 0 <= i < SOURCE_COUNT ==> source_held(copies, #[trigger] &sources[i], i)
}

/// No retained reference of the source is lost.
pub open spec fn keeps_retained(now: &CompressorState, was: &CompressorState) -> bool {
    &&& now.index.pool.references@.len() == was.index.pool.references@.len()
    &&& forall|page: u32|
        page < was.index.pool.references@.len() ==> now.index.retained(page)
            >= #[trigger] was.index.retained(page)
}

/// Prefixes that are being copied keep their pages as long as no retained reference
/// is lost.
pub proof fn lemma_copies_stay(
    copies: Seq<Option<PendingPrefix>>,
    before: Seq<CompressorState>,
    after: Seq<CompressorState>,
)
    requires
        copies_held(copies, before),
        forall|i: int| 0 <= i < SOURCE_COUNT ==> keeps_retained(#[trigger] &after[i], &before[i]),
    ensures
        copies_held(copies, after),
{
    reveal(copies_held);
    assert forall|lane: int, i: int|
        0 <= lane < SNAPSHOT_LANES && 0 <= i < SOURCE_COUNT implies #[trigger] copy_fits(
        copies,
        after,
        lane,
        i,
    ) by {
        assert(keeps_retained(&after[i], &before[i]));
        assert(copy_fits(copies, before, lane, i));
    }
    assert forall|i: int| 0 <= i < SOURCE_COUNT implies source_held(
        copies,
        #[trigger] &after[i],
        i,
    ) by {
        assert(keeps_retained(&after[i], &before[i]));
        assert(source_held(copies, &before[i], i));
        assert forall|page: u32| page < after[i].index.pool.references@.len() implies copied(
            copies,
            SNAPSHOT_LANES as int,
            i,
            page,
        ) <= #[trigger] after[i].index.retained(page) by {
            assert(before[i].index.retained(page) <= after[i].index.retained(page));
        }
    }
}

/// As `lemma_copies_stay`, where only source `i` has changed.
pub proof fn lemma_copies_stay_at(
    copies: Seq<Option<PendingPrefix>>,
    before: Seq<CompressorState>,
    after: Seq<CompressorState>,
    i: int,
)
    requires
        copies_held(copies, before),
        keeps_retained(&after[i], &before[i]),
        forall|k: int| 0 <= k < SOURCE_COUNT && k != i ==> #[trigger] after[k] == before[k],
    ensures
        copies_held(copies, after),
{
    assert forall|k: int| 0 <= k < SOURCE_COUNT implies keeps_retained(
        #[trigger] &after[k],
        &before[k],
    ) by {
        if k != i {
            assert(after[k] == before[k]);
        }
    }
    lemma_copies_stay(copies, before, after);
}

/// Nothing is kept while no lane copies.
pub proof fn lemma_no_copies(copies: Seq<Option<PendingPrefix>>, sources: Seq<CompressorState>)
    requires
        forall|lane: int| 0 <= lane < SNAPSHOT_LANES ==> (#[trigger] copies[lane]) is None,
        forall|i: int| 0 <= i < SOURCE_COUNT ==> (#[trigger] sources[i]).inv(),
    ensures
        copies_held(copies, sources),
{
    reveal(copies_held);
    assert forall|i: int| 0 <= i < SOURCE_COUNT implies source_held(
        copies,
        #[trigger] &sources[i],
        i,
    ) by {
        assert forall|page: u32| page < sources[i].index.pool.references@.len() implies copied(
            copies,
            SNAPSHOT_LANES as int,
            i,
            page,
        ) <= #[trigger] sources[i].index.retained(page) by {
            reveal_with_fuel(copied, 3);
            assert(copies[0] is None && copies[1] is None);
            assert(tally::occurrences(Seq::<u32>::empty(), page) == 0);
            assert(sources[i].index.pool.references@[page as int] >= 0);
        }
    }
}

/// The pages can be given up: the lanes' prefixes do not need them.
pub open spec fn spared(
    copies: Seq<Option<PendingPrefix>>,
    state: &CompressorState,
    i: int,
    pages: Seq<u32>,
) -> bool {
    forall|page: u32|
        page < state.index.pool.references@.len() ==> copied(
            copies,
            SNAPSHOT_LANES as int,
            i,
            page,
        ) + tally::occurrences(pages, page) <= #[trigger] state.index.retained(page)
}

/// What no lane needs may be given up.
pub proof fn lemma_copies_spared(
    copies: Seq<Option<PendingPrefix>>,
    before: Seq<CompressorState>,
    after: Seq<CompressorState>,
    i: int,
    pages: Seq<u32>,
)
    requires
        copies_held(copies, before),
        0 <= i < SOURCE_COUNT,
        spared(copies, &before[i], i, pages),
        after[i].index.pool.references@.len() == before[i].index.pool.references@.len(),
        forall|page: u32|
            page < before[i].index.pool.references@.len() ==> after[i].index.retained(page)
                == before[i].index.retained(page) - #[trigger] tally::occurrences(pages, page),
        forall|k: int| 0 <= k < SOURCE_COUNT && k != i ==> #[trigger] after[k] == before[k],
    ensures
        copies_held(copies, after),
{
    reveal(copies_held);
    assert forall|lane: int, k: int|
        0 <= lane < SNAPSHOT_LANES && 0 <= k < SOURCE_COUNT implies #[trigger] copy_fits(
        copies,
        after,
        lane,
        k,
    ) by {
        assert(copy_fits(copies, before, lane, k));
        if k != i {
            assert(after[k] == before[k]);
        }
    }
    assert forall|k: int| 0 <= k < SOURCE_COUNT implies source_held(
        copies,
        #[trigger] &after[k],
        k,
    ) by {
        assert(source_held(copies, &before[k], k));
        if k == i {
            assert forall|page: u32| page < after[i].index.pool.references@.len() implies copied(
                copies,
                SNAPSHOT_LANES as int,
                i,
                page,
            ) <= #[trigger] after[i].index.retained(page) by {
                assert(before[i].index.retained(page) - tally::occurrences(pages, page)
                    == after[i].index.retained(page));
            }
        } else {
            assert(after[k] == before[k]);
        }
    }
}

/// A lane that keeps `kept` more pages needs as many more references.
pub proof fn lemma_copies_added(
    copies: Seq<Option<PendingPrefix>>,
    before: Seq<CompressorState>,
    after: Seq<CompressorState>,
    lane: int,
    pending: PendingPrefix,
)
    requires
        copies_held(copies, before),
        copies.len() == SNAPSHOT_LANES,
        0 <= lane < SNAPSHOT_LANES,
        copies[lane] is None,
        pending.prefix.sources@.len() == SOURCE_COUNT,
        forall|i: int|
            0 <= i < SOURCE_COUNT ==> {
                let pages = (#[trigger] pending.prefix.sources@[i]).source.pages@;
                &&& after[i].index.holds(&pending.prefix.sources@[i].source)
                &&& after[i].index.pool.references@.len() == before[i].index.pool.references@.len()
                &&& forall|page: u32|
                    page < before[i].index.pool.references@.len() ==> after[i].index.retained(page)
                        == before[i].index.retained(page) + #[trigger] tally::occurrences(
                        pages,
                        page,
                    )
            },
    ensures
        copies_held(copies.update(lane, Some(pending)), after),
{
    reveal(copies_held);
    let now = copies.update(lane, Some(pending));
    assert forall|k: int, i: int|
        0 <= k < SNAPSHOT_LANES && 0 <= i < SOURCE_COUNT implies #[trigger] copy_fits(
        now,
        after,
        k,
        i,
    ) by {
        assert(after[i].index.holds(&pending.prefix.sources@[i].source));
        assert(copy_fits(copies, before, k, i));
    }
    assert forall|i: int| 0 <= i < SOURCE_COUNT implies source_held(now, #[trigger] &after[i], i) by {
        let pages = pending.prefix.sources@[i].source.pages@;
        assert(source_held(copies, &before[i], i));
        assert forall|page: u32| page < after[i].index.pool.references@.len() implies copied(
            now,
            SNAPSHOT_LANES as int,
            i,
            page,
        ) <= #[trigger] after[i].index.retained(page) by {
            reveal_with_fuel(copied, 3);
            assert(tally::occurrences(Seq::<u32>::empty(), page) == 0);
            assert(before[i].index.retained(page) + tally::occurrences(pages, page)
                == after[i].index.retained(page));
        }
    }
}

/// A lane that gives its prefix out no longer needs it: the prefix can be given up,
/// and the other lanes still have theirs.
pub proof fn lemma_copies_taken(
    copies: Seq<Option<PendingPrefix>>,
    sources: Seq<CompressorState>,
    lane: int,
)
    requires
        copies_held(copies, sources),
        copies.len() == SNAPSHOT_LANES,
        0 <= lane < SNAPSHOT_LANES,
        copies[lane] is Some,
    ensures
        copies_held(copies.update(lane, None), sources),
        copies[lane]->Some_0.prefix.sources@.len() == SOURCE_COUNT,
        forall|i: int|
            0 <= i < SOURCE_COUNT ==> {
                let kept = (#[trigger] copies[lane]->Some_0.prefix.sources@[i]).source;
                &&& sources[i].index.holds(&kept)
                &&& spared(copies.update(lane, None), &sources[i], i, kept.pages@)
            },
{
    reveal(copies_held);
    let now = copies.update(lane, None);
    let pending = copies[lane]->Some_0;
    assert(copy_fits(copies, sources, lane, 0));
    assert forall|i: int, page: u32|
        0 <= i < SOURCE_COUNT && page < sources[i].index.pool.references@.len() implies copied(
        now,
        SNAPSHOT_LANES as int,
        i,
        page,
    ) + tally::occurrences(pending.prefix.sources@[i].source.pages@, page)
        <= #[trigger] sources[i].index.retained(page) by {
        reveal_with_fuel(copied, 3);
        assert(tally::occurrences(Seq::<u32>::empty(), page) == 0);
        assert(source_held(copies, &sources[i], i));
    }
    assert forall|k: int, i: int|
        0 <= k < SNAPSHOT_LANES && 0 <= i < SOURCE_COUNT implies #[trigger] copy_fits(
        now,
        sources,
        k,
        i,
    ) by {
        assert(copy_fits(copies, sources, k, i));
    }
    assert forall|i: int| 0 <= i < SOURCE_COUNT implies source_held(
        now,
        #[trigger] &sources[i],
        i,
    ) by {}
    assert forall|i: int| 0 <= i < SOURCE_COUNT implies {
        let kept = (#[trigger] copies[lane]->Some_0.prefix.sources@[i]).source;
        &&& sources[i].index.holds(&kept)
        &&& spared(now, &sources[i], i, kept.pages@)
    } by {
        let kept = pending.prefix.sources@[i].source;
        assert(copy_fits(copies, sources, lane, i));
        assert forall|j: int| 0 <= j < kept.pages@.len() implies sources[i].index.retained(
            #[trigger] kept.pages@[j],
        ) > 0 by {
            let page = kept.pages@[j];
            tally::lemma_occurrences_contains(kept.pages@, page);
            assert(kept.pages@.contains(page));
            lemma_copied_nonnegative(now, SNAPSHOT_LANES as int, i, page);
            assert(sources[i].index.retained(page) == sources[i].index.retained(page));
        }
    }
}

proof fn lemma_copied_nonnegative(copies: Seq<Option<PendingPrefix>>, n: int, i: int, page: u32)
    ensures
        0 <= copied(copies, n, i, page),
    decreases n,
{
    if n > 0 {
        lemma_copied_nonnegative(copies, n - 1, i, page);
    }
}

} // verus!
