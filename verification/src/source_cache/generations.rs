//! A page's generation counts how often the page was freed.
use crate::page_pool;
use crate::page_pool::PagePool;
use crate::source_cache;
use crate::source_cache::apply;
use crate::source_cache::SourceCache;
use crate::tally;
use vstd::prelude::*;

verus! {

/// The page's last reference goes.
pub open spec fn loses_last(before: &PagePool, after: &PagePool, page: int) -> bool {
    before.references@[page] > 0 && after.references@[page] == 0
}

/// One operation leads from `before` to `after`: pages whose last reference goes get
/// the next generation, all others keep theirs.
pub open spec fn is_step(before: &PagePool, after: &PagePool) -> bool {
    &&& after.references@.len() == before.references@.len()
    &&& after.generations@.len() == before.generations@.len()
    &&& forall|p: int|
        0 <= p < before.references@.len() ==> (#[trigger] after.generations@[p]) == if loses_last(
            before,
            after,
            p,
        ) {
            page_pool::next_generation(before.generations@[p])
        } else {
            before.generations@[p]
        }
}

pub open spec fn step_at(pools: Seq<PagePool>, k: int) -> bool {
    is_step(&pools[k], &pools[k + 1])
}

/// The states that a page pool goes through.
pub open spec fn is_history(pools: Seq<PagePool>) -> bool {
    &&& pools.len() > 0
    &&& forall|k: int| 0 <= k < pools.len() - 1 ==> #[trigger] step_at(pools, k)
}

/// How often the page was freed in the first `m` steps.
pub open spec fn frees(pools: Seq<PagePool>, page: int, m: int) -> int
    decreases m,
{
    if m <= 0 {
        0
    } else {
        frees(pools, page, m - 1) + if loses_last(&pools[m - 1], &pools[m], page) {
            1int
        } else {
            0
        }
    }
}

proof fn lemma_counts(pools: Seq<PagePool>, page: int, m: int)
    requires
        is_history(pools),
        0 <= page < pools[0].references@.len(),
        0 <= m < pools.len(),
    ensures
        pools[m].references@.len() == pools[0].references@.len(),
        0 <= frees(pools, page, m),
        pools[m].generations@[page] == (pools[0].generations@[page] + frees(pools, page, m))
            % 0x1_0000_0000,
    decreases m,
{
    if m > 0 {
        lemma_counts(pools, page, m - 1);
        assert(step_at(pools, m - 1));
        assert(pools[m].generations@[page] == pools[m].generations@[page]);
        let total = pools[0].generations@[page] + frees(pools, page, m - 1);
        assert((total + 1) % 0x1_0000_0000 == if total % 0x1_0000_0000 == u32::MAX {
            0
        } else {
            total % 0x1_0000_0000 + 1
        });
    }
}

/// A page's generation goes up by one whenever its last reference goes, and at no
/// other time; it starts over after the largest one.
pub proof fn law_generation_counts_frees(pools: Seq<PagePool>, page: int)
    requires
        is_history(pools),
        0 <= page < pools[0].references@.len(),
    ensures
        pools.last().generations@[page] == (pools[0].generations@[page] + frees(
            pools,
            page,
            pools.len() - 1,
        )) % 0x1_0000_0000,
{
    lemma_counts(pools, page, pools.len() - 1);
}

/// A page keeps its generation for as long as it has a reference.
pub proof fn law_owned_page_keeps_its_generation(pools: Seq<PagePool>, page: int)
    requires
        is_history(pools),
        0 <= page < pools[0].references@.len(),
        forall|k: int| 0 <= k < pools.len() ==> (#[trigger] pools[k]).references@[page] > 0,
    ensures
        pools.last().generations@[page] == pools[0].generations@[page],
{
    lemma_owned(pools, page, pools.len() - 1);
}

proof fn lemma_owned(pools: Seq<PagePool>, page: int, m: int)
    requires
        is_history(pools),
        0 <= page < pools[0].references@.len(),
        forall|k: int| 0 <= k < pools.len() ==> (#[trigger] pools[k]).references@[page] > 0,
        0 <= m < pools.len(),
    ensures
        pools[m].generations@[page] == pools[0].generations@[page],
        pools[m].references@.len() == pools[0].references@.len(),
    decreases m,
{
    if m > 0 {
        lemma_owned(pools, page, m - 1);
        assert(step_at(pools, m - 1));
        assert(pools[m].references@[page] > 0);
        assert(pools[m].generations@[page] == pools[m].generations@[page]);
    }
}

/// A page that has been freed and is used again is told from its earlier uses: as
/// long as it was freed less often than there are generations, the page and its
/// generation are a pair that did not occur before the last time it was freed.
pub proof fn law_reused_page_is_new(pools: Seq<PagePool>, page: int, earlier: int)
    requires
        is_history(pools),
        0 <= page < pools[0].references@.len(),
        0 <= earlier < pools.len(),
        frees(pools, page, earlier) < frees(pools, page, pools.len() - 1),
        frees(pools, page, pools.len() - 1) < 0x1_0000_0000,
    ensures
        pools.last().generations@[page] != pools[earlier].generations@[page],
{
    let first = pools[0].generations@[page] as int;
    let a = frees(pools, page, earlier);
    let b = frees(pools, page, pools.len() - 1);
    lemma_counts(pools, page, earlier);
    lemma_counts(pools, page, pools.len() - 1);
    assert((first + a) % 0x1_0000_0000 != (first + b) % 0x1_0000_0000) by {
        let x = first + a;
        let y = first + b;
        assert(0 < y - x < 0x1_0000_0000);
        if x % 0x1_0000_0000 == y % 0x1_0000_0000 {
            assert(x == 0x1_0000_0000 * (x / 0x1_0000_0000) + x % 0x1_0000_0000);
            assert(y == 0x1_0000_0000 * (y / 0x1_0000_0000) + y % 0x1_0000_0000);
        }
    }
}

/// Giving references back, after claimed pages or without any, is a step.
pub proof fn law_giving_back_is_a_step(
    before: &PagePool,
    after: &PagePool,
    claims: Seq<u32>,
    pages: Seq<u32>,
)
    requires
        before.wf(),
        after.gave_back_claims(before, claims, pages),
    ensures
        is_step(before, after),
{
    assert forall|p: int| 0 <= p < before.references@.len() implies (
    #[trigger] after.generations@[p]) == if loses_last(before, after, p) {
        page_pool::next_generation(before.generations@[p])
    } else {
        before.generations@[p]
    } by {
        let page = p as u32;
        assert(after.references@[page as int] == before.references@[page as int]
            - tally::occurrences(pages, page));
        assert(after.generations@[page as int] == after.generations@[p]);
    }
}

/// Adding references, claiming pages and giving the claim up are steps.
pub proof fn law_owning_is_a_step(before: &PagePool, after: &PagePool)
    requires
        after.generations@ == before.generations@,
        after.references@.len() == before.references@.len(),
        forall|p: int|
            0 <= p < before.references@.len() && before.references@[p] > 0 ==> (
            #[trigger] after.references@[p]) > 0,
    ensures
        is_step(before, after),
{
    assert forall|p: int| 0 <= p < before.references@.len() implies (
    #[trigger] after.generations@[p]) == if loses_last(before, after, p) {
        page_pool::next_generation(before.generations@[p])
    } else {
        before.generations@[p]
    } by {
        if before.references@[p] > 0 {
            assert(after.references@[p] > 0);
        }
    }
}

/// Publishing an append is a step: its own pages get their first reference, and a
/// shared tail that every owner has moved away from is freed.
pub proof fn law_publishing_is_a_step(
    cache: &SourceCache,
    after: &PagePool,
    ticket: int,
)
    requires
        cache.inv(),
        cache.plans@.contains_key(ticket),
        apply::pool_applied(after, &cache.pool, cache.plans@[ticket]),
    ensures
        is_step(&cache.pool, after),
{
    let plan = cache.plans@[ticket];
    assert forall|p: int| 0 <= p < cache.pool.references@.len() implies (
    #[trigger] after.generations@[p]) == if loses_last(&cache.pool, after, p) {
        page_pool::next_generation(cache.pool.generations@[p])
    } else {
        cache.pool.generations@[p]
    } by {
        let page = p as u32;
        let fresh = source_cache::fresh_pages(plan);
        assert(after.references@[page as int] == cache.pool.references@[page as int]
            + tally::occurrences(fresh, page) - tally::occurrences(apply::lost_pages(plan), page));
        assert(after.generations@[page as int] == after.generations@[p]);
        if cache.pool.references@[p] > 0 {
            assert(!fresh.contains(page)) by {
                if fresh.contains(page) {
                    assert(source_cache::fresh_pages(cache.plans@[ticket]).contains(page));
                }
            }
            tally::lemma_occurrences_contains(fresh, page);
        }
    }
}

} // verus!
