//! Reference-counted page ownership for immutable source prefixes. Active
//! request tables own one reference per page; retained prefixes give theirs
//! back on eviction.
use crate::tally;
use vstd::prelude::*;

verus! {

/// Pages whose last reference goes when `pages` are released in order, in the
/// order in which they become free.
pub open spec fn freed(references: Seq<usize>, pages: Seq<u32>) -> Seq<u32>
    decreases pages.len(),
{
    if pages.len() == 0 {
        Seq::empty()
    } else {
        let before = freed(references, pages.drop_last());
        if tally::occurrences(pages, pages.last()) == references[pages.last() as int] {
            before.push(pages.last())
        } else {
            before
        }
    }
}

pub struct PagePool {
    pub free: Vec<u32>,
    pub references: Vec<usize>,
    /// Changed when a page's last reference goes, so a reused index is a new identity.
    pub generations: Vec<u32>,
}

impl PagePool {
    /// Every free page exists, stands once in the free list and has no owner.
    pub open spec fn wf(&self) -> bool {
        &&& self.references@.len() == self.generations@.len()
        &&& self.references@.len() <= u32::MAX
        &&& self.free@.no_duplicates()
        &&& forall|i: int|
            0 <= i < self.free@.len() ==> (#[trigger] self.free@[i]) < self.references@.len()
                && self.references@[self.free@[i] as int] == 0
    }

    /// One reference per listed page has been given back since `before`. Pages
    /// without references are free, in the order in which they became so, and under
    /// a new generation.
    pub open spec fn gave_back(&self, before: &Self, pages: Seq<u32>) -> bool {
        self.gave_back_claims(before, Seq::empty(), pages)
    }

    /// As `gave_back`, once the pages of `claims`, which have no references, have
    /// returned to the free list.
    pub open spec fn gave_back_claims(
        &self,
        before: &Self,
        claims: Seq<u32>,
        pages: Seq<u32>,
    ) -> bool {
        &&& self.free@ == before.free@ + claims + freed(before.references@, pages)
        &&& self.references@.len() == before.references@.len()
        &&& forall|p: u32|
            p < before.references@.len() ==> (#[trigger] self.references@[p as int])
                == before.references@[p as int] - tally::occurrences(pages, p)
        &&& self.generations@.len() == before.generations@.len()
        &&& forall|p: u32|
            p < before.references@.len() ==> (#[trigger] self.generations@[p as int])
                == if tally::occurrences(pages, p) > 0 && tally::occurrences(pages, p)
                == before.references@[p as int] {
                next_generation(before.generations@[p as int])
            } else {
                before.generations@[p as int]
            }
    }

    pub open spec fn in_range(&self, pages: Seq<u32>) -> bool {
        forall|i: int| 0 <= i < pages.len() ==> (#[trigger] pages[i]) < self.references@.len()
    }

    pub fn new(pages: usize) -> (r: Self)
        requires
            pages <= u32::MAX,
        ensures
            r.wf(),
            r.free@ =~= Seq::new(pages as nat, |i: int| (pages - 1 - i) as u32),
            r.references@ =~= Seq::new(pages as nat, |i: int| 0usize),
            r.generations@ =~= Seq::new(pages as nat, |i: int| 0u32),
    {
        let mut free: Vec<u32> = Vec::new();
        let mut references: Vec<usize> = Vec::new();
        let mut generations: Vec<u32> = Vec::new();
        let mut next: usize = pages;
        while next > 0
            invariant
                next <= pages <= u32::MAX,
                free@ =~= Seq::new((pages - next) as nat, |i: int| (pages - 1 - i) as u32),
                references@ =~= Seq::new((pages - next) as nat, |i: int| 0usize),
                generations@ =~= Seq::new((pages - next) as nat, |i: int| 0u32),
            decreases next,
        {
            next = next - 1;
            free.push(next as u32);
            references.push(0);
            generations.push(0);
        }
        PagePool { free, references, generations }
    }

    pub fn capacity(&self) -> (r: usize)
        ensures
            r == self.references@.len(),
    {
        self.references.len()
    }

    pub fn generation(&self, page: u32) -> (r: u32)
        requires
            self.wf(),
            page < self.references@.len(),
        ensures
            r == self.generations@[page as int],
    {
        self.generations[page as usize]
    }

    pub fn references(&self, page: u32) -> (r: usize)
        requires
            page < self.references@.len(),
        ensures
            r == self.references@[page as int],
    {
        self.references[page as usize]
    }

    pub fn shared(&self, page: u32) -> (r: bool)
        requires
            page < self.references@.len(),
        ensures
            r == (self.references@[page as int] > 1),
    {
        self.references(page) > 1
    }

    /// One more reference per listed page.
    pub fn retain(&mut self, pages: &[u32])
        requires
            old(self).in_range(pages@),
            forall|p: u32|
                p < old(self).references@.len() ==> (#[trigger] old(self).references@[p as int])
                    + tally::occurrences(pages@, p) <= usize::MAX,
        ensures
            final(self).free@ == old(self).free@,
            final(self).generations@ == old(self).generations@,
            final(self).references@.len() == old(self).references@.len(),
            forall|p: u32|
                p < old(self).references@.len() ==> (#[trigger] final(self).references@[p as int])
                    == old(self).references@[p as int] + tally::occurrences(pages@, p),
            old(self).wf() && (forall|i: int|
                0 <= i < pages@.len() ==> !old(self).free@.contains(#[trigger] pages@[i]))
                ==> final(self).wf(),
    {
        let mut i: usize = 0;
        while i < pages.len()
            invariant
                i <= pages@.len(),
                old(self).in_range(pages@),
                self.free@ == old(self).free@,
                self.generations@ == old(self).generations@,
                self.references@.len() == old(self).references@.len(),
                forall|p: u32|
                    p < old(self).references@.len() ==> (#[trigger] old(self).references@[p as int])
                        + tally::occurrences(pages@, p) <= usize::MAX,
                forall|p: u32|
                    p < old(self).references@.len() ==> (#[trigger] self.references@[p as int])
                        == old(self).references@[p as int] + tally::occurrences(pages@.take(i as int), p),
            decreases pages@.len() - i,
        {
            let page = pages[i];
            proof {
                assert(pages@.take(i + 1).drop_last() =~= pages@.take(i as int));
                assert(pages@.take(i + 1).last() == page);
                tally::lemma_occurrences_take(pages@, i + 1, page);
                assert(old(self).references@[page as int] + tally::occurrences(pages@, page)
                    <= usize::MAX);
            }
            self.references[page as usize] = self.references[page as usize] + 1;
            i = i + 1;
        }
        proof {
            assert(pages@.take(i as int) =~= pages@);
            if old(self).wf() && (forall|k: int|
                0 <= k < pages@.len() ==> !old(self).free@.contains(#[trigger] pages@[k])) {
                assert forall|k: int| 0 <= k < self.free@.len() implies (#[trigger] self.free@[k])
                    < self.references@.len() && self.references@[self.free@[k] as int] == 0 by {
                    let p = self.free@[k];
                    assert(old(self).free@[k] == p);
                    tally::lemma_occurrences_contains(pages@, p);
                }
            }
        }
    }

    /// Gives back one reference per listed page. A page without references
    /// becomes free under a new generation.
    pub fn release(&mut self, pages: &[u32])
        requires
            old(self).wf(),
            old(self).in_range(pages@),
            forall|p: u32|
                p < old(self).references@.len() ==> tally::occurrences(pages@, p) <= (
                #[trigger] old(self).references@[p as int]),
        ensures
            final(self).wf(),
            final(self).gave_back(old(self), pages@),
    {
        let mut i: usize = 0;
        while i < pages.len()
            invariant
                i <= pages@.len(),
                old(self).in_range(pages@),
                self.wf(),
                self.free@ == old(self).free@ + freed(
                    old(self).references@,
                    pages@.take(i as int),
                ),
                self.references@.len() == old(self).references@.len(),
                forall|p: u32|
                    p < old(self).references@.len() ==> tally::occurrences(pages@, p) <= (
                    #[trigger] old(self).references@[p as int]),
                forall|p: u32|
                    p < old(self).references@.len() ==> (#[trigger] self.references@[p as int])
                        == old(self).references@[p as int] - tally::occurrences(pages@.take(i as int), p),
                self.generations@.len() == old(self).generations@.len(),
                forall|p: u32|
                    p < old(self).references@.len() ==> (#[trigger] self.generations@[p as int])
                        == if tally::occurrences(pages@.take(i as int), p) > 0 && tally::occurrences(
                        pages@.take(i as int),
                        p,
                    ) == old(self).references@[p as int] {
                        next_generation(old(self).generations@[p as int])
                    } else {
                        old(self).generations@[p as int]
                    },
            decreases pages@.len() - i,
        {
            let page = pages[i];
            let ghost seen = pages@.take(i as int);
            proof {
                assert(pages@.take(i + 1).drop_last() =~= seen);
                assert(pages@.take(i + 1).last() == page);
                tally::lemma_occurrences_take(pages@, i + 1, page);
                assert(tally::occurrences(pages@, page) <= old(self).references@[page as int]);
                assert(self.references@[page as int] == old(self).references@[page as int]
                    - tally::occurrences(seen, page));
            }
            let count: usize = self.references[page as usize] - 1;
            proof {
                if self.free@.contains(page) {
                    let k = choose|k: int| 0 <= k < self.free@.len() && self.free@[k] == page;
                    assert(self.references@[self.free@[k] as int] == 0);
                }
            }
            self.references[page as usize] = count;
            if count == 0 {
                self.generations[page as usize] = self.generations[page as usize].wrapping_add(1);
                self.free.push(page);
            }
            i = i + 1;
            assert(self.free@ =~= old(self).free@ + freed(
                old(self).references@,
                pages@.take(i as int),
            ));
        }
        assert(pages@.take(i as int) =~= pages@);
    }

    /// The last free pages have been handed out since `before`, each with one
    /// reference.
    pub open spec fn handed_out(&self, before: &Self, pages: Seq<u32>) -> bool {
        &&& before.free@ == self.free@ + pages
        &&& self.generations@ == before.generations@
        &&& self.references@.len() == before.references@.len()
        &&& forall|p: u32|
            p < before.references@.len() ==> (#[trigger] self.references@[p as int])
                == if pages.contains(p) {
                1
            } else {
                before.references@[p as int]
            }
    }

    /// Takes `count` free pages, each with one reference owned by the caller;
    /// `None` if fewer are free.
    pub fn allocate(&mut self, count: usize) -> (r: Option<Vec<u32>>)
        requires
            old(self).wf(),
        ensures
            final(self).wf(),
            match r {
                None => {
                    &&& old(self).free@.len() < count
                    &&& *final(self) == *old(self)
                },
                Some(pages) => pages@.len() == count && final(self).handed_out(old(self), pages@),
            },
    {
        if self.free.len() < count {
            return None;
        }
        let ghost before = self.free@;
        let keep: usize = self.free.len() - count;
        let pages = self.free.split_off(keep);
        proof {
            assert(before =~= self.free@ + pages@);
            assert forall|i: int| 0 <= i < pages@.len() implies (#[trigger] pages@[i])
                < self.references@.len() && self.references@[pages@[i] as int] == 0
                && !self.free@.contains(pages@[i]) by {
                assert(before[keep + i] == pages@[i]);
            }
            assert(pages@.no_duplicates());
            assert forall|p: u32| p < self.references@.len() implies (
            #[trigger] self.references@[p as int]) + tally::occurrences(pages@, p) <= usize::MAX by {
                tally::lemma_occurrences_distinct(pages@, p);
                if pages@.contains(p) {
                    let i = choose|i: int| 0 <= i < pages@.len() && pages@[i] == p;
                    assert(self.references@[pages@[i] as int] == 0);
                }
            }
            assert forall|p: u32| tally::occurrences(pages@, p) == if pages@.contains(p) {
                1nat
            } else {
                0nat
            } by {
                tally::lemma_occurrences_distinct(pages@, p);
            }
        }
        self.retain(pages.as_slice());
        proof {
            assert forall|p: u32| p < old(self).references@.len() implies (
            #[trigger] self.references@[p as int]) == if pages@.contains(p) {
                1
            } else {
                old(self).references@[p as int]
            } by {
                if pages@.contains(p) {
                    let i = choose|i: int| 0 <= i < pages@.len() && pages@[i] == p;
                    assert(old(self).references@[pages@[i] as int] == 0);
                }
            }
        }
        Some(pages)
    }
}

/// The identity that a page gets when its last owner leaves.
pub open spec fn next_generation(generation: u32) -> u32 {
    if generation == u32::MAX {
        0
    } else {
        (generation + 1) as u32
    }
}

/// A page's generation changes whenever the page is freed.
pub proof fn law_freed_page_changes_generation(generation: u32)
    ensures
        next_generation(generation) != generation,
{
}

/// Giving pages back in two steps frees the same pages in the same order as in one.
proof fn lemma_freed_concat(
    references: Seq<usize>,
    between: Seq<usize>,
    first: Seq<u32>,
    second: Seq<u32>,
)
    requires
        forall|i: int| 0 <= i < second.len() ==> (#[trigger] second[i]) < references.len(),
        forall|p: u32|
            p < references.len() ==> (#[trigger] between[p as int]) == references[p as int]
                - tally::occurrences(first, p),
    ensures
        freed(references, first + second) == freed(references, first) + freed(between, second),
    decreases second.len(),
{
    if second.len() == 0 {
        assert(first + second =~= first);
        assert(freed(between, second) =~= Seq::<u32>::empty());
    } else {
        let last = second.last();
        assert((first + second).drop_last() =~= first + second.drop_last());
        assert((first + second).last() == last);
        lemma_freed_concat(references, between, first, second.drop_last());
        tally::lemma_occurrences_concat(first, second, last);
        assert(second[second.len() - 1] == last);
        assert(between[last as int] == references[last as int] - tally::occurrences(first, last));
    }
}

/// Giving nothing back changes nothing.
pub proof fn lemma_gave_back_nothing(pool: &PagePool)
    requires
        pool.wf(),
    ensures
        pool.gave_back(pool, Seq::empty()),
{
    assert(freed(pool.references@, Seq::empty()) =~= Seq::<u32>::empty());
    assert(pool.free@ + Seq::<u32>::empty() + Seq::<u32>::empty() =~= pool.free@);
    assert forall|p: u32| tally::occurrences(Seq::<u32>::empty(), p) == 0 by {}
}

/// Two steps of giving pages back are one.
pub proof fn lemma_gave_back_twice(
    start: &PagePool,
    middle: &PagePool,
    end: &PagePool,
    first: Seq<u32>,
    second: Seq<u32>,
)
    requires
        middle.gave_back(start, first),
        end.gave_back(middle, second),
        start.in_range(second),
    ensures
        end.gave_back(start, first + second),
{
    lemma_freed_concat(start.references@, middle.references@, first, second);
    assert(end.free@ =~= start.free@ + freed(start.references@, first + second));
    assert forall|p: u32| p < start.references@.len() implies (
    #[trigger] end.references@[p as int]) == start.references@[p as int] - tally::occurrences(
        first + second,
        p,
    ) by {
        tally::lemma_occurrences_concat(first, second, p);
        assert(middle.references@[p as int] == start.references@[p as int] - tally::occurrences(
            first,
            p,
        ));
    }
    assert forall|p: u32| p < start.references@.len() implies (
    #[trigger] end.generations@[p as int]) == if tally::occurrences(first + second, p) > 0
        && tally::occurrences(first + second, p) == start.references@[p as int] {
        next_generation(start.generations@[p as int])
    } else {
        start.generations@[p as int]
    } by {
        tally::lemma_occurrences_concat(first, second, p);
        assert(middle.references@[p as int] == start.references@[p as int] - tally::occurrences(
            first,
            p,
        ));
        assert(end.references@[p as int] == middle.references@[p as int] - tally::occurrences(
            second,
            p,
        ));
        assert(middle.generations@[p as int] == middle.generations@[p as int]);
    }
}

/// A page that lost all its references has been freed.
pub proof fn lemma_freed_when_gone(references: Seq<usize>, pages: Seq<u32>, page: u32)
    requires
        tally::occurrences(pages, page) >= references[page as int],
        references[page as int] > 0,
    ensures
        freed(references, pages).contains(page),
    decreases pages.len(),
{
    if pages.len() > 0 {
        let init = pages.drop_last();
        let gone = freed(references, init);
        if tally::occurrences(init, page) >= references[page as int] {
            lemma_freed_when_gone(references, init, page);
            let k = choose|k: int| 0 <= k < gone.len() && gone[k] == page;
            assert(freed(references, pages)[k] == page);
        } else {
            assert(freed(references, pages)[gone.len() as int] == page);
        }
    }
}

pub proof fn lemma_freed_members(references: Seq<usize>, pages: Seq<u32>)
    ensures
        forall|i: int|
            0 <= i < freed(references, pages).len() ==> pages.contains(
                #[trigger] freed(references, pages)[i],
            ),
    decreases pages.len(),
{
    if pages.len() > 0 {
        let init = pages.drop_last();
        lemma_freed_members(references, init);
        assert forall|i: int| 0 <= i < freed(
            references,
            pages,
        ).len() implies pages.contains(
            #[trigger] freed(references, pages)[i],
        ) by {
            let p = freed(references, pages)[i];
            if i < freed(references, init).len() {
                assert(freed(references, init)[i] == p);
                let k = choose|k: int| 0 <= k < init.len() && init[k] == p;
                assert(pages[k] == p);
            } else {
                assert(pages[pages.len() - 1] == p);
            }
        }
    }
}

/// Pages are handed out once: each was free and nobody's, is its taker's alone, stands
/// no longer among the free ones, and nothing else changes hands.
pub proof fn law_pages_are_handed_out_once(
    before: &PagePool,
    after: &PagePool,
    pages: Seq<u32>,
    i: int,
    j: int,
    other: u32,
)
    requires
        before.wf(),
        after.wf(),
        after.handed_out(before, pages),
        0 <= i < pages.len(),
        0 <= j < pages.len(),
        other < before.references@.len(),
        !pages.contains(other),
    ensures
        pages[i] < before.references@.len(),
        before.references@[pages[i] as int] == 0,
        after.references@[pages[i] as int] == 1,
        before.free@.contains(pages[i]),
        !after.free@.contains(pages[i]),
        i != j ==> pages[i] != pages[j],
        after.references@[other as int] == before.references@[other as int],
        before.free@.contains(other) <==> after.free@.contains(other),
        before.free@.len() == after.free@.len() + pages.len(),
{
    let kept = after.free@;
    let all = before.free@;
    assert(all[kept.len() + i] == pages[i]);
    assert(all[kept.len() + j] == pages[j]);
    assert(pages.contains(pages[i]));
    if kept.contains(pages[i]) {
        let k = choose|k: int| 0 <= k < kept.len() && kept[k] == pages[i];
        assert(all[k] == pages[i]);
    }
    if all.contains(other) {
        let k = choose|k: int| 0 <= k < all.len() && all[k] == other;
        if k >= kept.len() {
            assert(pages[k - kept.len()] == other);
        }
        assert(kept[k] == other);
    }
    if kept.contains(other) {
        let k = choose|k: int| 0 <= k < kept.len() && kept[k] == other;
        assert(all[k] == other);
    }
}

proof fn lemma_freed_all(references: Seq<usize>, pages: Seq<u32>)
    requires
        pages.no_duplicates(),
        forall|i: int| 0 <= i < pages.len() ==> references[#[trigger] pages[i] as int] == 1,
    ensures
        freed(references, pages) == pages,
    decreases pages.len(),
{
    if pages.len() > 0 {
        let init = pages.drop_last();
        assert(forall|i: int| 0 <= i < init.len() ==> #[trigger] init[i] == pages[i]);
        lemma_freed_all(references, init);
        let last = pages[pages.len() - 1];
        lemma_once(pages, last);
        assert(freed(references, pages) =~= pages);
    } else {
        assert(freed(references, pages) =~= pages);
    }
}

proof fn lemma_once(pages: Seq<u32>, page: u32)
    requires
        pages.no_duplicates(),
    ensures
        tally::occurrences(pages, page) == if pages.contains(page) {
            1int
        } else {
            0
        },
    decreases pages.len(),
{
    if pages.len() > 0 {
        let init = pages.drop_last();
        assert(forall|i: int| 0 <= i < init.len() ==> #[trigger] init[i] == pages[i]);
        lemma_once(init, page);
        if init.contains(page) {
            let k = choose|k: int| 0 <= k < init.len() && init[k] == page;
            assert(pages[k] == page);
        }
        if pages.contains(page) && pages.last() != page {
            let k = choose|k: int| 0 <= k < pages.len() && pages[k] == page;
            assert(init[k] == page);
        }
        if pages.last() == page {
            assert(pages[pages.len() - 1] == page);
        }
    }
}

/// Giving pages back undoes having taken them: they are free again in the old order and
/// nobody's, but each is a new page from then on.
pub proof fn law_giving_back_undoes_taking(
    before: &PagePool,
    taken: &PagePool,
    after: &PagePool,
    pages: Seq<u32>,
    page: u32,
)
    requires
        before.wf(),
        taken.wf(),
        taken.handed_out(before, pages),
        after.gave_back(taken, pages),
        page < before.references@.len(),
    ensures
        after.free@ == before.free@,
        after.references@[page as int] == before.references@[page as int],
        pages.contains(page) <==> after.generations@[page as int]
            != before.generations@[page as int],
{
    let kept = taken.free@;
    let all = before.free@;
    assert forall|i: int, j: int| 0 <= i < pages.len() && 0 <= j < pages.len() && i != j implies (
    #[trigger] pages[i]) != (#[trigger] pages[j]) by {
        assert(all[kept.len() + i] == pages[i] && all[kept.len() + j] == pages[j]);
    }
    assert forall|i: int| 0 <= i < pages.len() implies taken.references@[
        #[trigger] pages[i] as int
    ] == 1 by {
        assert(all[kept.len() + i] == pages[i]);
        assert(pages.contains(pages[i]));
    }
    lemma_freed_all(taken.references@, pages);
    assert(after.free@ =~= before.free@);
    lemma_once(pages, page);
    if pages.contains(page) {
        let k = choose|k: int| 0 <= k < pages.len() && pages[k] == page;
        assert(all[kept.len() + k] == page);
    }
    law_freed_page_changes_generation(taken.generations@[page as int]);
}

} // verus!
