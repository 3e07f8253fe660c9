//! Counting how often a page is named by ownership tables.
use vstd::prelude::*;

verus! {

/// How often `page` stands in `pages`.
pub open spec fn occurrences(pages: Seq<u32>, page: u32) -> nat
    decreases pages.len(),
{
    if pages.len() == 0 {
        0
    } else {
        occurrences(pages.drop_last(), page) + if pages.last() == page {
            1nat
        } else {
            0nat
        }
    }
}

/// How often `page` stands in all `tables` together.
pub open spec fn total(tables: Seq<Seq<u32>>, page: u32) -> nat
    decreases tables.len(),
{
    if tables.len() == 0 {
        0
    } else {
        total(tables.drop_last(), page) + occurrences(tables.last(), page)
    }
}

pub proof fn lemma_occurrences_single(only: u32, page: u32)
    ensures
        occurrences(seq![only], page) == if only == page {
            1nat
        } else {
            0nat
        },
{
    assert(seq![only].drop_last() =~= Seq::<u32>::empty());
    assert(occurrences(Seq::<u32>::empty(), page) == 0);
}

pub proof fn lemma_occurrences_concat(left: Seq<u32>, right: Seq<u32>, page: u32)
    ensures
        occurrences(left + right, page) == occurrences(left, page) + occurrences(right, page),
    decreases right.len(),
{
    if right.len() == 0 {
        assert(left + right =~= left);
    } else {
        assert((left + right).drop_last() =~= left + right.drop_last());
        lemma_occurrences_concat(left, right.drop_last(), page);
    }
}

pub proof fn lemma_occurrences_take(pages: Seq<u32>, n: int, page: u32)
    requires
        0 <= n <= pages.len(),
    ensures
        occurrences(pages.take(n), page) <= occurrences(pages, page),
    decreases pages.len(),
{
    if n < pages.len() {
        assert(pages.drop_last().take(n) =~= pages.take(n));
        lemma_occurrences_take(pages.drop_last(), n, page);
    } else {
        assert(pages.take(n) =~= pages);
    }
}

pub proof fn lemma_occurrences_contains(pages: Seq<u32>, page: u32)
    ensures
        occurrences(pages, page) > 0 <==> pages.contains(page),
    decreases pages.len(),
{
    if pages.len() > 0 {
        let init = pages.drop_last();
        lemma_occurrences_contains(init, page);
        if init.contains(page) {
            let i = choose|i: int| 0 <= i < init.len() && init[i] == page;
            assert(pages[i] == page);
        }
        if pages.contains(page) && pages.last() != page {
            let i = choose|i: int| 0 <= i < pages.len() && pages[i] == page;
            assert(init[i] == page);
        }
        if pages.last() == page {
            assert(pages[pages.len() - 1] == page);
        }
    }
}

pub proof fn lemma_occurrences_distinct(pages: Seq<u32>, page: u32)
    requires
        pages.no_duplicates(),
    ensures
        occurrences(pages, page) == if pages.contains(page) {
            1nat
        } else {
            0nat
        },
    decreases pages.len(),
{
    lemma_occurrences_contains(pages, page);
    if pages.len() > 0 {
        let init = pages.drop_last();
        assert(init.no_duplicates());
        lemma_occurrences_distinct(init, page);
        lemma_occurrences_contains(init, page);
        if pages.last() == page && init.contains(page) {
            let i = choose|i: int| 0 <= i < init.len() && init[i] == page;
            assert(pages[i] == pages[pages.len() - 1]);
        }
    }
}

/// Replacing entry `i` swaps one occurrence of the old page for one of the new.
pub proof fn lemma_occurrences_update(pages: Seq<u32>, i: int, new: u32, page: u32)
    requires
        0 <= i < pages.len(),
    ensures
        occurrences(pages.update(i, new), page) + (if pages[i] == page {
            1nat
        } else {
            0nat
        }) == occurrences(pages, page) + if new == page {
            1nat
        } else {
            0nat
        },
    decreases pages.len(),
{
    let after = pages.update(i, new);
    if i == pages.len() - 1 {
        assert(after.drop_last() =~= pages.drop_last());
    } else {
        assert(after.drop_last() =~= pages.drop_last().update(i, new));
        lemma_occurrences_update(pages.drop_last(), i, new, page);
    }
}

pub proof fn lemma_total_update(tables: Seq<Seq<u32>>, i: int, table: Seq<u32>, page: u32)
    requires
        0 <= i < tables.len(),
    ensures
        total(tables.update(i, table), page) + occurrences(tables[i], page) == total(tables, page)
            + occurrences(table, page),
    decreases tables.len(),
{
    let after = tables.update(i, table);
    if i == tables.len() - 1 {
        assert(after.drop_last() =~= tables.drop_last());
    } else {
        assert(after.drop_last() =~= tables.drop_last().update(i, table));
        lemma_total_update(tables.drop_last(), i, table, page);
    }
}

/// One table's share of the total.
pub proof fn lemma_total_includes(tables: Seq<Seq<u32>>, i: int, page: u32)
    requires
        0 <= i < tables.len(),
    ensures
        occurrences(tables[i], page) <= total(tables, page),
    decreases tables.len(),
{
    if i < tables.len() - 1 {
        assert(tables.drop_last()[i] == tables[i]);
        lemma_total_includes(tables.drop_last(), i, page);
    }
}

/// Two tables' share of the total.
pub proof fn lemma_total_includes_both(tables: Seq<Seq<u32>>, i: int, j: int, page: u32)
    requires
        0 <= i < j < tables.len(),
    ensures
        occurrences(tables[i], page) + occurrences(tables[j], page) <= total(tables, page),
    decreases tables.len(),
{
    if j < tables.len() - 1 {
        assert(tables.drop_last()[i] == tables[i]);
        assert(tables.drop_last()[j] == tables[j]);
        lemma_total_includes_both(tables.drop_last(), i, j, page);
    } else {
        assert(tables.drop_last()[i] == tables[i]);
        lemma_total_includes(tables.drop_last(), i, page);
    }
}

/// A page that only table `i` names.
pub proof fn lemma_total_only(tables: Seq<Seq<u32>>, i: int, page: u32)
    requires
        0 <= i < tables.len(),
        forall|k: int|
            0 <= k < tables.len() && k != i ==> !(#[trigger] tables[k]).contains(page),
    ensures
        total(tables, page) == occurrences(tables[i], page),
{
    let rest = tables.update(i, Seq::empty());
    lemma_total_update(tables, i, Seq::empty(), page);
    assert forall|k: int| 0 <= k < rest.len() implies !(#[trigger] rest[k]).contains(page) by {
        if k != i {
            assert(rest[k] == tables[k]);
        }
    }
    lemma_total_absent(rest, page);
}

pub proof fn lemma_total_absent(tables: Seq<Seq<u32>>, page: u32)
    requires
        forall|i: int| 0 <= i < tables.len() ==> !(#[trigger] tables[i]).contains(page),
    ensures
        total(tables, page) == 0,
    decreases tables.len(),
{
    if tables.len() > 0 {
        assert(!tables[tables.len() - 1].contains(page));
        lemma_occurrences_contains(tables.last(), page);
        assert forall|i: int| 0 <= i < tables.drop_last().len() implies !(
        #[trigger] tables.drop_last()[i]).contains(page) by {
            assert(tables.drop_last()[i] == tables[i]);
        }
        lemma_total_absent(tables.drop_last(), page);
    }
}

/// Distinct page numbers below `limit` are at most `limit` many.
pub proof fn lemma_distinct_bound(pages: Seq<u32>, limit: nat)
    requires
        pages.no_duplicates(),
        forall|i: int| 0 <= i < pages.len() ==> (#[trigger] pages[i]) < limit,
    ensures
        pages.len() <= limit,
    decreases limit,
{
    if limit == 0 {
        if pages.len() > 0 {
            assert(pages[0] < limit);
        }
    } else {
        let top = (limit - 1) as nat;
        if exists|i: int| 0 <= i < pages.len() && pages[i] == top {
            let i = choose|i: int| 0 <= i < pages.len() && pages[i] == top;
            let rest = pages.remove(i);
            assert forall|k: int| 0 <= k < rest.len() implies (#[trigger] rest[k]) < top by {
                let source = if k < i {
                    k
                } else {
                    k + 1
                };
                assert(rest[k] == pages[source]);
                assert(pages[source] != pages[i]);
            }
            assert forall|k: int, l: int| 0 <= k < rest.len() && 0 <= l < rest.len() && k
                != l implies rest[k] != rest[l] by {
                let a = if k < i {
                    k
                } else {
                    k + 1
                };
                let b = if l < i {
                    l
                } else {
                    l + 1
                };
                assert(rest[k] == pages[a] && rest[l] == pages[b]);
            }
            lemma_distinct_bound(rest, top);
        } else {
            lemma_distinct_bound(pages, top);
        }
    }
}

} // verus!
