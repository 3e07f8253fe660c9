//! Completing or giving up a reserved append transaction.
use crate::page_pool;
use crate::page_pool::PagePool;
use crate::source_cache;
use crate::source_cache::{AppendView, IndexPlan, SourceCache, MAX_SLOTS, PAGE_ROWS};
use crate::tally;
use vstd::prelude::*;

verus! {

/// A slot's page table after its append.
pub open spec fn new_table(table: Seq<u32>, append: AppendView) -> Seq<u32> {
    (match append.replacement {
        Some(pair) => table.update(append.tail(), pair.1),
        None => table,
    }) + append.additions
}

/// All page tables after the first `n` appends of a transaction.
pub open spec fn applied_tables(tables: Seq<Seq<u32>>, plan: Seq<AppendView>, n: int) -> Seq<
    Seq<u32>,
>
    decreases n,
{
    if n <= 0 {
        tables
    } else {
        let before = applied_tables(tables, plan, n - 1);
        let append = plan[n - 1];
        before.update(append.slot, new_table(tables[append.slot], append))
    }
}

/// All row counts after the first `n` appends of a transaction.
pub open spec fn applied_rows(rows: Seq<usize>, plan: Seq<AppendView>, n: int) -> Seq<usize>
    decreases n,
{
    if n <= 0 {
        rows
    } else {
        applied_rows(rows, plan, n - 1).update(plan[n - 1].slot, plan[n - 1].end as usize)
    }
}

/// None of the first `n` appends belongs to `slot`.
pub open spec fn untouched(plan: Seq<AppendView>, n: int, slot: int) -> bool {
    forall|i: int| 0 <= i < n ==> (#[trigger] plan[i]).slot != slot
}

pub proof fn lemma_applied(
    tables: Seq<Seq<u32>>,
    rows: Seq<usize>,
    plan: Seq<AppendView>,
    n: int,
)
    requires
        0 <= n <= plan.len(),
        tables.len() == MAX_SLOTS,
        rows.len() == MAX_SLOTS,
        forall|i: int| 0 <= i < plan.len() ==> 0 <= (#[trigger] plan[i]).slot < MAX_SLOTS,
        forall|i: int, j: int|
            0 <= i < j < plan.len() ==> (#[trigger] plan[i]).slot != (#[trigger] plan[j]).slot,
    ensures
        applied_tables(tables, plan, n).len() == MAX_SLOTS,
        applied_rows(rows, plan, n).len() == MAX_SLOTS,
        forall|i: int|
            0 <= i < n ==> {
                let s = (#[trigger] plan[i]).slot;
                &&& applied_tables(tables, plan, n)[s] == new_table(tables[s], plan[i])
                &&& applied_rows(rows, plan, n)[s] == plan[i].end as usize
            },
        forall|s: int|
            0 <= s < MAX_SLOTS && #[trigger] untouched(plan, n, s) ==> applied_tables(
                tables,
                plan,
                n,
            )[s] == tables[s] && applied_rows(rows, plan, n)[s] == rows[s],
    decreases n,
{
    if n > 0 {
        lemma_applied(tables, rows, plan, n - 1);
        assert forall|i: int| 0 <= i < n implies {
            let s = (#[trigger] plan[i]).slot;
            &&& applied_tables(tables, plan, n)[s] == new_table(tables[s], plan[i])
            &&& applied_rows(rows, plan, n)[s] == plan[i].end as usize
        } by {
            if i < n - 1 {
                assert(plan[i].slot != plan[n - 1].slot);
            }
        }
        assert forall|s: int|
            0 <= s < MAX_SLOTS && #[trigger] untouched(plan, n, s) implies applied_tables(
            tables,
            plan,
            n,
        )[s] == tables[s] && applied_rows(rows, plan, n)[s] == rows[s] by {
            assert(plan[n - 1].slot != s);
            assert(untouched(plan, n - 1, s));
        }
    }
}

/// How one append changes the number of owners of `page`.
pub proof fn lemma_new_table_tally(table: Seq<u32>, append: AppendView, page: u32)
    requires
        append.replacement matches Some(pair) ==> 0 <= append.tail() < table.len() && pair.0
            == table[append.tail()],
    ensures
        tally::occurrences(new_table(table, append), page) == tally::occurrences(table, page)
            + tally::occurrences(append.additions, page) + (match append.replacement {
            Some(pair) => (if pair.1 == page {
                1int
            } else {
                0int
            }) - (if pair.0 == page {
                1int
            } else {
                0int
            }),
            None => 0int,
        }),
{
    match append.replacement {
        Some(pair) => {
            tally::lemma_occurrences_update(table, append.tail(), pair.1, page);
            tally::lemma_occurrences_concat(
                table.update(append.tail(), pair.1),
                append.additions,
                page,
            );
        },
        None => {
            tally::lemma_occurrences_concat(table, append.additions, page);
        },
    }
}

/// Pages claimed by different appends differ, and so do the pages of one.
pub proof fn lemma_fresh_distinct(plan: Seq<AppendView>)
    requires
        source_cache::fresh_pages(plan).no_duplicates(),
    ensures
        forall|i: int| 0 <= i < plan.len() ==> (#[trigger] plan[i]).fresh().no_duplicates(),
        forall|i: int, j: int, p: u32|
            0 <= i < plan.len() && 0 <= j < plan.len() && i != j
                && #[trigger] plan[i].fresh().contains(p) ==> !(
            #[trigger] plan[j].fresh().contains(p)),
    decreases plan.len(),
{
    if plan.len() > 0 {
        let init = plan.drop_last();
        let last = plan.last();
        let left = source_cache::fresh_pages(init);
        let all = left + last.fresh();
        assert(all == source_cache::fresh_pages(plan));
        assert forall|i: int, j: int| 0 <= i < left.len() && 0 <= j < left.len() && i
            != j implies left[i] != left[j] by {
            assert(all[i] == left[i] && all[j] == left[j]);
        }
        lemma_fresh_distinct(init);
        let n = left.len() as int;
        assert forall|i: int, j: int| 0 <= i < last.fresh().len() && 0 <= j < last.fresh().len()
            && i != j implies last.fresh()[i] != last.fresh()[j] by {
            assert(all[n + i] == last.fresh()[i] && all[n + j] == last.fresh()[j]);
        }
        assert forall|i: int| 0 <= i < plan.len() implies (
        #[trigger] plan[i]).fresh().no_duplicates() by {
            if i < init.len() {
                assert(plan[i] == init[i]);
            }
        }
        assert forall|i: int, j: int, p: u32|
            0 <= i < plan.len() && 0 <= j < plan.len() && i != j
                && #[trigger] plan[i].fresh().contains(p) implies !(
        #[trigger] plan[j].fresh().contains(p)) by {
            if i < init.len() && j < init.len() {
                assert(plan[i] == init[i] && plan[j] == init[j]);
            } else if plan[j].fresh().contains(p) {
                let k = if i < init.len() {
                    i
                } else {
                    j
                };
                assert(plan[k] == init[k]);
                assert(init[k].fresh().contains(p));
                source_cache::lemma_fresh_pages_contains(init, p);
                let x = choose|x: int| 0 <= x < left.len() && left[x] == p;
                let y = choose|y: int| 0 <= y < last.fresh().len() && last.fresh()[y] == p;
                assert(all[x] == all[n + y]);
            }
        }
    }
}

impl SourceCache {
    /// Gives the claimed pages back and ends the append without new rows.
    pub fn discard(&mut self, plan: IndexPlan)
        requires
            old(self).inv(),
            old(self).in_flight(&plan),
        ensures
            final(self).inv(),
            final(self).same_shape(old(self)),
            final(self).pages@ == old(self).pages@,
            final(self).rows@ == old(self).rows@,
            final(self).pool.references@ == old(self).pool.references@,
            final(self).pool.generations@ == old(self).pool.generations@,
            final(self).pool.free@ == old(self).pool.free@ + plan.pages@,
            final(self).plans@ == old(self).plans@.remove(plan.ticket@),
    {
        let ghost ticket = plan.ticket@;
        let ghost view = plan@;
        let ghost fresh = source_cache::fresh_pages(view);
        let ghost given = plan.pages@;
        let mut i: usize = 0;
        proof {
            assert(source_cache::plan_fits(
                self.tables(),
                self.rows@,
                self.pool.references@,
                self.slots as int,
                view,
            ));
            assert forall|k: int| 0 <= k < plan.appends@.len() implies (
            #[trigger] plan.appends@[k]).slot < MAX_SLOTS by {
                assert(view[k].slot == plan.appends@[k].slot);
            }
        }
        while i < plan.appends.len()
            invariant
                i <= plan.appends@.len(),
                self.writing@.len() == MAX_SLOTS,
                old(self).writing@.len() == MAX_SLOTS,
                forall|k: int|
                    0 <= k < plan.appends@.len() ==> (#[trigger] plan.appends@[k]).slot < MAX_SLOTS,
                forall|s: int|
                    0 <= s < MAX_SLOTS ==> ((#[trigger] self.writing@[s]) <==> old(self).writing@[s] && forall|k: int|
                        0 <= k < i ==> (#[trigger] plan.appends@[k]).slot != s),
                *self == (SourceCache { writing: self.writing, ..*old(self) }),
            decreases plan.appends@.len() - i,
        {
            let slot: usize = plan.appends[i].slot;
            self.writing[slot] = false;
            i = i + 1;
            proof {
                assert forall|s: int| 0 <= s < MAX_SLOTS implies ((#[trigger] self.writing@[s])
                    <==> old(self).writing@[s] && forall|k: int|
                    0 <= k < i ==> (#[trigger] plan.appends@[k]).slot != s) by {
                    if s == slot {
                        assert(plan.appends@[i - 1].slot == s);
                    }
                }
            }
        }
        let mut pages = plan.pages;
        self.pool.free.append(&mut pages);
        self.plans = Ghost(self.plans@.remove(ticket));
        proof {
            assert(self.pool.free@ =~= old(self).pool.free@ + given);
            assert(self.tables() =~= old(self).tables());
            assert forall|p: u32| fresh.contains(p) <==> given.contains(p) by {
                if fresh.contains(p) {
                    let k = choose|k: int| 0 <= k < fresh.len() && fresh[k] == p;
                    assert(given[fresh.len() - 1 - k] == p);
                }
                if given.contains(p) {
                    let k = choose|k: int| 0 <= k < given.len() && given[k] == p;
                    assert(fresh[fresh.len() - 1 - k] == p);
                }
            }
            let before = old(self).pool.free@;
            assert forall|k: int, l: int| 0 <= k < self.pool.free@.len() && 0 <= l
                < self.pool.free@.len() && k != l implies self.pool.free@[k]
                != self.pool.free@[l] by {
                if k < before.len() && l >= before.len() {
                    assert(given.contains(given[l - before.len()]));
                    assert(before.contains(before[k]));
                } else if l < before.len() && k >= before.len() {
                    assert(given.contains(given[k - before.len()]));
                    assert(before.contains(before[l]));
                } else if k >= before.len() {
                    assert(fresh[fresh.len() - 1 - (k - before.len())] == given[k - before.len()]);
                    assert(fresh[fresh.len() - 1 - (l - before.len())] == given[l - before.len()]);
                }
            }
            assert forall|k: int| 0 <= k < self.pool.free@.len() implies (
            #[trigger] self.pool.free@[k]) < self.pool.references@.len()
                && self.pool.references@[self.pool.free@[k] as int] == 0 by {
                if k >= before.len() {
                    let p = given[k - before.len()];
                    assert(given.contains(p));
                    let x = choose|x: int| 0 <= x < fresh.len() && fresh[x] == p;
                    assert(fresh[x] < self.pool.references@.len());
                }
            }
            assert forall|p: u32|
                #![trigger self.pool.references@[p as int]]
                p < self.pool.references@.len() implies self.accounted(p) by {
                assert(old(self).accounted(p));
                if before.contains(p) {
                    let k = choose|k: int| 0 <= k < before.len() && before[k] == p;
                    assert(self.pool.free@[k] == p);
                } else if fresh.contains(p) {
                    let k = choose|k: int| 0 <= k < given.len() && given[k] == p;
                    assert(self.pool.free@[before.len() + k] == p);
                } else if self.pool.references@[p as int] == 0 {
                    let t = choose|t: int| #[trigger]
                        old(self).plans@.contains_key(t) && source_cache::fresh_pages(
                            old(self).plans@[t],
                        ).contains(p);
                    assert(self.plans@.contains_key(t));
                }
            }
            assert forall|p: u32| self.pool.free@.contains(p) implies #[trigger] before.contains(p)
                || fresh.contains(p) by {
                let k = choose|k: int| 0 <= k < self.pool.free@.len() && self.pool.free@[k] == p;
                if k < before.len() {
                    assert(before[k] == p);
                } else {
                    assert(given[k - before.len()] == p);
                }
            }
            assert forall|s: int| 0 <= s < MAX_SLOTS implies ((#[trigger] self.writing@[s])
                <==> old(self).writing@[s] && forall|k: int|
                0 <= k < view.len() ==> (#[trigger] view[k]).slot != s) by {
                assert(forall|k: int|
                    0 <= k < view.len() ==> (#[trigger] view[k]).slot == plan.appends@[k].slot);
                if forall|k: int| 0 <= k < view.len() ==> (#[trigger] view[k]).slot != s {
                    assert forall|k: int| 0 <= k < plan.appends@.len() implies (
                    #[trigger] plan.appends@[k]).slot != s by {
                        assert(view[k].slot != s);
                    }
                }
            }
            assert(self.tables_wf()) by {
                assert forall|s: int| 0 <= s < MAX_SLOTS implies {
                    &&& (#[trigger] self.pages@[s])@.no_duplicates()
                    &&& self.pool.in_range(self.pages@[s]@)
                    &&& self.pages@[s]@.len() <= self.stride
                    &&& self.rows@[s] <= self.pages@[s]@.len() * 256
                    &&& s >= self.slots ==> self.pages@[s]@.len() == 0 && !self.writing@[s]
                } by {
                    assert(old(self).pages@[s]@.no_duplicates());
                }
            }
            self.lemma_plan_removed(old(self), ticket);
        }
    }

    /// Removing a transaction that no longer claims anything keeps the
    /// bookkeeping of the others.
    proof fn lemma_plan_removed(&self, before: &Self, ticket: int)
        requires
            before.inv(),
            before.plans@.contains_key(ticket),
            self.plans@ == before.plans@.remove(ticket),
            self.next_ticket == before.next_ticket,
            self.slots == before.slots,
            self.pool.references@.len() == before.pool.references@.len(),
            self.writing@.len() == MAX_SLOTS,
            forall|s: int|
                0 <= s < MAX_SLOTS ==> ((#[trigger] self.writing@[s]) <==> before.writing@[s]
                    && forall|k: int|
                    0 <= k < before.plans@[ticket].len() ==> (
                    #[trigger] before.plans@[ticket][k]).slot != s),
            forall|t: int| #[trigger]
                before.plans@.contains_key(t) && t != ticket ==> {
                    &&& source_cache::plan_fits(
                        self.tables(),
                        self.rows@,
                        self.pool.references@,
                        self.slots as int,
                        before.plans@[t],
                    )
                    &&& forall|p: u32|
                        #![trigger source_cache::fresh_pages(before.plans@[t]).contains(p)]
                        source_cache::fresh_pages(before.plans@[t]).contains(p)
                            ==> self.pool.references@[p as int] == 0 && !self.pool.free@.contains(p)
                },
        ensures
            self.plans_wf(),
    {
        assert forall|t: int| #[trigger] self.plans@.contains_key(t) implies {
            &&& t < self.next_ticket@
            &&& source_cache::plan_fits(
                self.tables(),
                self.rows@,
                self.pool.references@,
                self.slots as int,
                self.plans@[t],
            )
            &&& self.pool.in_range(source_cache::fresh_pages(self.plans@[t]))
            &&& forall|p: u32|
                #![trigger source_cache::fresh_pages(self.plans@[t]).contains(p)]
                source_cache::fresh_pages(self.plans@[t]).contains(p)
                    ==> self.pool.references@[p as int] == 0 && !self.pool.free@.contains(p)
        } by {
            assert(before.plans@.contains_key(t));
            assert(self.plans@[t] == before.plans@[t]);
        }
        assert forall|t: int, u: int, p: u32|
            #![trigger source_cache::fresh_pages(self.plans@[t]).contains(p), source_cache::fresh_pages(self.plans@[u]).contains(p)]
            self.plans@.contains_key(t) && self.plans@.contains_key(u) && t != u
                && source_cache::fresh_pages(self.plans@[t]).contains(
                p,
            ) implies !source_cache::fresh_pages(self.plans@[u]).contains(p) by {
            assert(before.plans@.contains_key(t) && before.plans@.contains_key(u));
            assert(source_cache::fresh_pages(before.plans@[t]).contains(p));
            if source_cache::fresh_pages(before.plans@[u]).contains(p) {
            }
        }
        assert forall|t: int, u: int, i: int, j: int|
            #![trigger self.plans@[t][i], self.plans@[u][j]]
            self.plans@.contains_key(t) && self.plans@.contains_key(u) && t != u && 0 <= i
                < self.plans@[t].len() && 0 <= j < self.plans@[u].len() implies self.plans@[t][i].slot
            != self.plans@[u][j].slot by {
            assert(before.plans@.contains_key(t) && before.plans@.contains_key(u));
            assert(before.plans@[t][i].slot != before.plans@[u][j].slot);
        }
        assert forall|s: int| 0 <= s < MAX_SLOTS implies ((#[trigger] self.writing@[s])
            <==> self.appended(s)) by {
            if self.writing@[s] {
                assert(before.appended(s));
                let (t, i) = choose|t: int, i: int|
                    #![trigger before.plans@[t][i]]
                    before.plans@.contains_key(t) && 0 <= i < before.plans@[t].len()
                        && before.plans@[t][i].slot == s;
                assert(t != ticket);
                assert(self.plans@.contains_key(t));
                assert(self.plans@[t][i].slot == s);
            }
            if self.appended(s) {
                let (t, i) = choose|t: int, i: int|
                    #![trigger self.plans@[t][i]]
                    self.plans@.contains_key(t) && 0 <= i < self.plans@[t].len()
                        && self.plans@[t][i].slot == s;
                assert(before.plans@.contains_key(t));
                assert(before.plans@[t][i].slot == s);
                assert(before.appended(s));
                assert forall|k: int| 0 <= k < before.plans@[ticket].len() implies (
                #[trigger] before.plans@[ticket][k]).slot != s by {
                    assert(before.plans@[ticket][k].slot != before.plans@[t][i].slot);
                }
            }
        }
    }
}

/// Pages given up by the tails that a transaction moves, in order.
pub open spec fn lost_pages(plan: Seq<AppendView>) -> Seq<u32>
    decreases plan.len(),
{
    if plan.len() == 0 {
        Seq::empty()
    } else {
        lost_pages(plan.drop_last()) + source_cache::lost_page(plan.last().replacement)
    }
}

proof fn lemma_lost_page(replacement: Option<(u32, u32)>)
    ensures
        forall|p: u32| #[trigger]
            tally::occurrences(source_cache::lost_page(replacement), p) == (
            if replacement matches Some(pair) && pair.0 == p {
                1nat
            } else {
                0nat
            }),
        forall|p: u32| #[trigger]
            tally::occurrences(source_cache::gained_page(replacement), p) == (
            if replacement matches Some(pair) && pair.1 == p {
                1nat
            } else {
                0nat
            }),
        forall|references: Seq<usize>| #[trigger]
            page_pool::freed(references, source_cache::lost_page(replacement)) == (
            if replacement matches Some(pair) && references[pair.0 as int] == 1 {
                source_cache::lost_page(replacement)
            } else {
                Seq::empty()
            }),
{
    match replacement {
        Some(pair) => {
            let lost = seq![pair.0];
            assert forall|p: u32| #[trigger] tally::occurrences(lost, p) == (if pair.0 == p {
                1nat
            } else {
                0nat
            }) by {
                tally::lemma_occurrences_single(pair.0, p);
            }
            assert forall|p: u32| #[trigger] tally::occurrences(seq![pair.1], p) == (if pair.1
                == p {
                1nat
            } else {
                0nat
            }) by {
                tally::lemma_occurrences_single(pair.1, p);
            }
            assert(lost.drop_last() =~= Seq::<u32>::empty());
            assert forall|references: Seq<usize>| #[trigger]
                page_pool::freed(references, lost) == (if references[pair.0 as int] == 1 {
                lost
            } else {
                Seq::empty()
            }) by {
                assert(page_pool::freed(references, lost.drop_last()) =~= Seq::<
                    u32,
                >::empty());
                assert(Seq::<u32>::empty().push(pair.0) =~= lost);
            }
        },
        None => {},
    }
}

/// Moves the references of one append: the claimed pages get their owner, and
/// the shared tail loses one.
fn transfer_references(pool: &mut PagePool, replacement: Option<(u32, u32)>, additions: &[u32])
    requires
        old(pool).wf(),
        (source_cache::gained_page(replacement) + additions@).no_duplicates(),
        forall|p: u32| #[trigger]
            (source_cache::gained_page(replacement) + additions@).contains(p) ==> p < old(pool).references@.len() && old(pool).references@[p as int] == 0 && !old(pool).free@.contains(p),
        replacement matches Some(pair) ==> pair.0 < old(pool).references@.len() && old(pool).references@[pair.0 as int] > 0,
    ensures
        final(pool).wf(),
        final(pool).references@.len() == old(pool).references@.len(),
        final(pool).generations@.len() == old(pool).generations@.len(),
        forall|p: u32|
            p < old(pool).references@.len() ==> (#[trigger] final(pool).references@[p as int])
                == old(pool).references@[p as int] + tally::occurrences(
                source_cache::gained_page(replacement) + additions@,
                p,
            ) - tally::occurrences(source_cache::lost_page(replacement), p),
        final(pool).free@ == old(pool).free@ + page_pool::freed(
            old(pool).references@,
            source_cache::lost_page(replacement),
        ),
        forall|p: u32|
            p < old(pool).references@.len() ==> (#[trigger] final(pool).generations@[p as int])
                == if tally::occurrences(source_cache::lost_page(replacement), p) > 0 && old(pool).references@[p as int] == 1 {
                page_pool::next_generation(old(pool).generations@[p as int])
            } else {
                old(pool).generations@[p as int]
            },
{
    let ghost start = *pool;
    let ghost target = source_cache::gained_page(replacement);
    let ghost source = source_cache::lost_page(replacement);
    let ghost fresh = target + additions@;
    proof {
        lemma_lost_page(replacement);
        assert forall|p: u32| #[trigger] tally::occurrences(fresh, p) == tally::occurrences(
            target,
            p,
        ) + tally::occurrences(additions@, p) by {
            tally::lemma_occurrences_concat(target, additions@, p);
        }
        assert forall|p: u32| #[trigger] tally::occurrences(fresh, p) <= 1 by {
            tally::lemma_occurrences_distinct(fresh, p);
        }
        assert forall|p: u32| #[trigger] additions@.contains(p) implies fresh.contains(p)
            && tally::occurrences(additions@, p) > 0 by {
            tally::lemma_occurrences_contains(additions@, p);
            let k = choose|k: int| 0 <= k < additions@.len() && additions@[k] == p;
            assert(fresh[target.len() + k] == p);
        }
        assert forall|p: u32| #[trigger] tally::occurrences(additions@, p) > 0 implies
            additions@.contains(p) by {
            tally::lemma_occurrences_contains(additions@, p);
        }
    }
    if let Some((from, to)) = replacement {
        let gained: [u32; 1] = [to];
        let lost: [u32; 1] = [from];
        assert(gained@ =~= target);
        assert(lost@ =~= source);
        assert(fresh[0] == to);
        assert(fresh.contains(to));
        assert forall|p: u32| p < pool.references@.len() implies (
        #[trigger] pool.references@[p as int]) + tally::occurrences(gained@, p) <= usize::MAX by {
            assert(tally::occurrences(target, p) <= 1);
        }
        pool.retain(gained.as_slice());
        assert forall|p: u32| p < pool.references@.len() implies tally::occurrences(lost@, p) <= (
        #[trigger] pool.references@[p as int]) by {
            assert(tally::occurrences(source, p) <= 1);
        }
        pool.release(lost.as_slice());
    }
    proof {
        assert(pool.free@ =~= start.free@ + page_pool::freed(start.references@, source));
        assert forall|p: u32| #[trigger] additions@.contains(p) implies p
            < pool.references@.len() && pool.references@[p as int] == 0 && !pool.free@.contains(
            p,
        ) by {
            assert(fresh.contains(p));
            assert(tally::occurrences(fresh, p) <= 1);
            assert(start.references@[p as int] == 0);
            assert(tally::occurrences(source, p) == 0);
            assert(tally::occurrences(target, p) == 0);
            if pool.free@.contains(p) {
                let k = choose|k: int| 0 <= k < pool.free@.len() && pool.free@[k] == p;
                if k < start.free@.len() {
                    assert(start.free@[k] == p);
                }
            }
        }
        assert forall|p: u32| p < pool.references@.len() implies (
        #[trigger] pool.references@[p as int]) + tally::occurrences(additions@, p)
            <= usize::MAX by {
            assert(tally::occurrences(fresh, p) <= 1);
            if tally::occurrences(additions@, p) > 0 {
                assert(additions@.contains(p));
            }
        }
        assert forall|k: int| 0 <= k < additions@.len() implies (#[trigger] additions@[k])
            < pool.references@.len() && !pool.free@.contains(additions@[k]) by {
            assert(additions@.contains(additions@[k]));
        }
    }
    pool.retain(additions);
    assert forall|p: u32| p < start.references@.len() implies (
    #[trigger] pool.references@[p as int]) == start.references@[p as int] + tally::occurrences(
        fresh,
        p,
    ) - tally::occurrences(source, p) by {
        assert(tally::occurrences(fresh, p) <= 1);
    }
}

impl SourceCache {
    /// The first `n` appends of the transaction `ticket` of `before` are done.
    spec fn applying(&self, before: &Self, ticket: int, n: int) -> bool {
        let plan = before.plans@[ticket];
        let done = plan.take(n);
        &&& 0 <= n <= plan.len()
        &&& self.same_shape(before)
        &&& self.plans == before.plans
        &&& self.next_ticket == before.next_ticket
        &&& self.pool.wf()
        &&& self.pool.references@.len() == before.pool.references@.len()
        &&& self.pages@.len() == MAX_SLOTS
        &&& self.rows@.len() == MAX_SLOTS
        &&& self.writing@.len() == MAX_SLOTS
        &&& self.tables() == applied_tables(before.tables(), plan, n)
        &&& self.rows@ == applied_rows(before.rows@, plan, n)
        &&& forall|s: int|
            0 <= s < MAX_SLOTS ==> ((#[trigger] self.writing@[s]) <==> before.writing@[s]
                && untouched(plan, n, s))
        &&& forall|p: u32|
            p < before.pool.references@.len() ==> {
                &&& (#[trigger] self.pool.references@[p as int]) == before.pool.references@[p as int]
                    + tally::occurrences(source_cache::fresh_pages(done), p) - tally::occurrences(
                    lost_pages(done),
                    p,
                )
                &&& self.retained(p) == before.retained(p)
            }
        &&& self.pool.free@ == before.pool.free@ + page_pool::freed(
            before.pool.references@,
            lost_pages(done),
        )
        &&& forall|p: u32|
            p < before.pool.references@.len() ==> (#[trigger] self.pool.generations@[p as int])
                == if tally::occurrences(lost_pages(done), p) > 0 && tally::occurrences(
                lost_pages(done),
                p,
            ) == before.pool.references@[p as int] {
                page_pool::next_generation(before.pool.generations@[p as int])
            } else {
                before.pool.generations@[p as int]
            }
        &&& forall|p: u32| #[trigger] lost_pages(done).contains(p) ==> before.pool.references@[p as int]
            > 0 && p < before.pool.references@.len()
    }

    /// Every page that was free or claimed stays away from the tables in use.
    pub proof fn lemma_fresh_untouched(&self, ticket: int, i: int, page: u32)
        requires
            self.inv(),
            self.plans@.contains_key(ticket),
            0 <= i < self.plans@[ticket].len(),
            self.plans@[ticket][i].fresh().contains(page),
        ensures
            page < self.pool.references@.len(),
            self.pool.references@[page as int] == 0,
            !self.pool.free@.contains(page),
            forall|s: int| 0 <= s < MAX_SLOTS ==> !(#[trigger] self.tables()[s]).contains(page),
    {
        let plan = self.plans@[ticket];
        let fresh = source_cache::fresh_pages(plan);
        source_cache::lemma_fresh_pages_contains(plan, page);
        assert(fresh.contains(page));
        let k = choose|k: int| 0 <= k < fresh.len() && fresh[k] == page;
        assert(fresh[k] < self.pool.references@.len());
        assert forall|s: int| 0 <= s < MAX_SLOTS implies !(#[trigger] self.tables()[s]).contains(
            page,
        ) by {
            tally::lemma_total_includes(self.tables(), s, page);
            tally::lemma_occurrences_contains(self.tables()[s], page);
        }
    }

    /// One more append of the transaction is done.
    proof fn lemma_settled(&self, before: &Self, current: &Self, ticket: int, n: int)
        requires
            before.inv(),
            before.plans@.contains_key(ticket),
            current.applying(before, ticket, n),
            n < before.plans@[ticket].len(),
            ({
                let a = before.plans@[ticket][n];
                let lost = source_cache::lost_page(a.replacement);
                &&& self.same_shape(current)
                &&& self.plans == current.plans
                &&& self.next_ticket == current.next_ticket
                &&& self.pages@.len() == MAX_SLOTS
                &&& self.tables() == current.tables().update(
                    a.slot,
                    new_table(before.tables()[a.slot], a),
                )
                &&& self.rows@ == current.rows@.update(a.slot, a.end as usize)
                &&& self.writing@ == current.writing@.update(a.slot, false)
                &&& self.pool.wf()
                &&& self.pool.references@.len() == current.pool.references@.len()
                &&& forall|p: u32|
                    p < current.pool.references@.len() ==> (
                    #[trigger] self.pool.references@[p as int])
                        == current.pool.references@[p as int] + tally::occurrences(a.fresh(), p)
                        - tally::occurrences(lost, p)
                &&& self.pool.free@ == current.pool.free@ + page_pool::freed(
                    current.pool.references@,
                    lost,
                )
                &&& forall|p: u32|
                    p < current.pool.references@.len() ==> (
                    #[trigger] self.pool.generations@[p as int]) == if tally::occurrences(lost, p)
                        > 0 && current.pool.references@[p as int] == 1 {
                        page_pool::next_generation(current.pool.generations@[p as int])
                    } else {
                        current.pool.generations@[p as int]
                    }
            }),
        ensures
            self.applying(before, ticket, n + 1),
    {
        let plan = before.plans@[ticket];
        let a = plan[n];
        let done = plan.take(n);
        let after = plan.take(n + 1);
        let tables = before.tables();
        let lost = source_cache::lost_page(a.replacement);
        assert(source_cache::plan_fits(
            tables,
            before.rows@,
            before.pool.references@,
            before.slots as int,
            plan,
        ));
        assert(after.drop_last() =~= done);
        assert(after.last() == a);
        lemma_applied(tables, before.rows@, plan, n);
        lemma_lost_page(a.replacement);
        assert(untouched(plan, n, a.slot));
        assert(current.tables()[a.slot] == tables[a.slot]);
        assert(tables[a.slot] == before.pages@[a.slot]@);
        assert forall|s: int| 0 <= s < MAX_SLOTS implies ((#[trigger] self.writing@[s])
            <==> before.writing@[s] && untouched(plan, n + 1, s)) by {
            if s == a.slot {
                assert(plan[n].slot == s);
            }
            if untouched(plan, n, s) && s != a.slot {
                assert forall|i: int| 0 <= i < n + 1 implies (#[trigger] plan[i]).slot != s by {
                    if i == n {
                    }
                }
            }
            if untouched(plan, n + 1, s) {
                assert(plan[n].slot != s);
                assert(untouched(plan, n, s));
            }
        }
        if let Some(pair) = a.replacement {
            assert(tables[a.slot][a.tail()] == pair.0);
            assert(before.pool.in_range(before.pages@[a.slot]@));
            tally::lemma_total_includes(tables, a.slot, pair.0);
            tally::lemma_occurrences_contains(tables[a.slot], pair.0);
            assert(before.pool.references@[pair.0 as int] > 0);
            tally::lemma_total_includes(current.tables(), a.slot, pair.0);
            assert(current.retained(pair.0) == before.retained(pair.0));
            assert(current.pool.references@[pair.0 as int] >= 1);
            // The tail that is left behind was claimed by nobody.
            tally::lemma_occurrences_contains(source_cache::fresh_pages(done), pair.0);
            if source_cache::fresh_pages(done).contains(pair.0) {
                source_cache::lemma_fresh_pages_contains(done, pair.0);
                let k = choose|k: int|
                    0 <= k < done.len() && (#[trigger] done[k]).fresh().contains(pair.0);
                assert(done[k] == plan[k]);
                before.lemma_fresh_untouched(ticket, k, pair.0);
            }
            assert(lost_pages(after) =~= lost_pages(done).push(pair.0));
            assert(lost_pages(after).drop_last() =~= lost_pages(done));
        } else {
            assert(lost_pages(after) =~= lost_pages(done));
        }
        assert forall|p: u32| p < before.pool.references@.len() implies {
            &&& (#[trigger] self.pool.references@[p as int]) == before.pool.references@[p as int]
                + tally::occurrences(source_cache::fresh_pages(after), p) - tally::occurrences(
                lost_pages(after),
                p,
            )
            &&& self.retained(p) == before.retained(p)
        } by {
            assert(current.retained(p) == before.retained(p));
            tally::lemma_occurrences_concat(source_cache::fresh_pages(done), a.fresh(), p);
            tally::lemma_occurrences_concat(lost_pages(done), lost, p);
            tally::lemma_occurrences_concat(
                source_cache::gained_page(a.replacement),
                a.additions,
                p,
            );
            tally::lemma_total_update(
                current.tables(),
                a.slot,
                new_table(tables[a.slot], a),
                p,
            );
            lemma_new_table_tally(tables[a.slot], a, p);
        }
        assert(self.pool.free@ =~= before.pool.free@ + page_pool::freed(
            before.pool.references@,
            lost_pages(after),
        ));
        assert forall|p: u32| p < before.pool.references@.len() implies (
        #[trigger] self.pool.generations@[p as int]) == if tally::occurrences(lost_pages(after), p)
            > 0 && tally::occurrences(lost_pages(after), p) == before.pool.references@[p as int] {
            page_pool::next_generation(before.pool.generations@[p as int])
        } else {
            before.pool.generations@[p as int]
        } by {
            tally::lemma_occurrences_concat(lost_pages(done), lost, p);
            let lost_before = tally::occurrences(lost_pages(done), p);
            assert(current.pool.references@[p as int] == before.pool.references@[p as int]
                + tally::occurrences(source_cache::fresh_pages(done), p) - lost_before);
            assert(tally::occurrences(lost_pages(after), p) == lost_before + tally::occurrences(
                lost,
                p,
            ));
            let was = current.pool.generations@[p as int];
            if tally::occurrences(lost, p) > 0 {
                assert(a.replacement matches Some(pair) && pair.0 == p);
                assert(tally::occurrences(lost, p) == 1);
                assert(was == before.pool.generations@[p as int]);
            } else {
                assert(self.pool.generations@[p as int] == was);
            }
        }
        assert forall|p: u32| #[trigger] lost_pages(after).contains(p) implies before.pool.references@[p as int]
            > 0 && p < before.pool.references@.len() by {
            tally::lemma_occurrences_contains(lost_pages(after), p);
            tally::lemma_occurrences_contains(lost_pages(done), p);
            tally::lemma_occurrences_concat(lost_pages(done), lost, p);
        }
    }

    /// A completed transaction leaves sound tables, and one owner on every page
    /// that received a row.
    proof fn lemma_applied_state(&self, before: &Self, ticket: int)
        requires
            before.inv(),
            before.plans@.contains_key(ticket),
            self.applying(before, ticket, before.plans@[ticket].len() as int),
        ensures
            self.tables_wf(),
            forall|p: u32|
                p < self.pool.references@.len() ==> tally::total(self.tables(), p) <= (
                #[trigger] self.pool.references@[p as int]),
            forall|i: int, row: int|
                #![trigger before.plans@[ticket][i], self.tables()[before.plans@[ticket][i].slot][row / 256]]
                0 <= i < before.plans@[ticket].len() && before.plans@[ticket][i].start <= row
                    < before.plans@[ticket][i].end
                    ==> self.pool.references@[self.tables()[before.plans@[ticket][i].slot][row
                    / 256] as int] == 1,
    {
        let plan = before.plans@[ticket];
        let n = plan.len() as int;
        let tables = before.tables();
        assert(plan.take(n) =~= plan);
        assert(source_cache::plan_fits(
            tables,
            before.rows@,
            before.pool.references@,
            before.slots as int,
            plan,
        ));
        lemma_applied(tables, before.rows@, plan, n);
        lemma_fresh_distinct(plan);
        assert forall|s: int| 0 <= s < MAX_SLOTS implies {
            &&& (#[trigger] self.pages@[s])@.no_duplicates()
            &&& self.pool.in_range(self.pages@[s]@)
            &&& self.pages@[s]@.len() <= self.stride
            &&& self.rows@[s] <= self.pages@[s]@.len() * 256
            &&& s >= self.slots ==> self.pages@[s]@.len() == 0 && !self.writing@[s]
        } by {
            assert(self.tables()[s] == self.pages@[s]@);
            assert(tables[s] == before.pages@[s]@);
            if untouched(plan, n, s) {
                assert(self.tables()[s] == tables[s]);
            } else {
                let i = choose|i: int| 0 <= i < n && (#[trigger] plan[i]).slot == s;
                let a = plan[i];
                let table = new_table(tables[s], a);
                assert(self.tables()[s] == table);
                before.lemma_new_table(ticket, i);
                tally::lemma_distinct_bound(table, self.pool.references@.len());
            }
        }
        assert forall|p: u32| p < self.pool.references@.len() implies tally::total(
            self.tables(),
            p,
        ) <= (#[trigger] self.pool.references@[p as int]) by {
            assert(self.retained(p) == before.retained(p));
            assert(tally::total(tables, p) <= before.pool.references@[p as int]);
        }
        assert forall|i: int, row: int|
            #![trigger plan[i], self.tables()[plan[i].slot][row / 256]]
            0 <= i < n && plan[i].start <= row < plan[i].end implies self.pool.references@[self.tables()[plan[i].slot][row
            / 256] as int] == 1 by {
            self.lemma_sole_owner(before, ticket, i, row);
        }
    }

    /// A slot's table after its append is sound.
    pub proof fn lemma_new_table(&self, ticket: int, i: int)
        requires
            self.inv(),
            self.plans@.contains_key(ticket),
            0 <= i < self.plans@[ticket].len(),
        ensures
            ({
                let a = self.plans@[ticket][i];
                let table = new_table(self.tables()[a.slot], a);
                &&& table.no_duplicates()
                &&& self.pool.in_range(table)
                &&& table.len() == source_cache::page_count(a.end)
                &&& forall|k: int|
                    0 <= k < table.len() ==> self.tables()[a.slot].contains(#[trigger] table[k])
                        || a.fresh().contains(table[k])
            }),
    {
        let plan = self.plans@[ticket];
        let a = plan[i];
        let old_table = self.tables()[a.slot];
        let table = new_table(old_table, a);
        assert(source_cache::plan_fits(
            self.tables(),
            self.rows@,
            self.pool.references@,
            self.slots as int,
            plan,
        ));
        lemma_fresh_distinct(plan);
        let fresh = a.fresh();
        let g = source_cache::gained_page(a.replacement).len() as int;
        assert(old_table == self.pages@[a.slot]@);
        let m = old_table.len() as int;
        assert forall|k: int| 0 <= k < table.len() implies ({
            ||| k < m && table[k] == old_table[k] && !(a.replacement is Some && k == a.tail())
            ||| k < m && a.replacement is Some && k == a.tail() && #[trigger] table[k] == fresh[0]
            ||| k >= m && table[k] == fresh[g + k - m]
        }) by {
            if k >= m {
                assert(table[k] == a.additions[k - m]);
            }
        }
        assert forall|k: int| 0 <= k < fresh.len() implies !old_table.contains(#[trigger] fresh[k])
            && fresh[k] < self.pool.references@.len() by {
            assert(fresh.contains(fresh[k]));
            self.lemma_fresh_untouched(ticket, i, fresh[k]);
        }
        assert forall|k: int, l: int| 0 <= k < table.len() && 0 <= l < table.len() && k
            != l implies table[k] != table[l] by {
            assert(old_table.no_duplicates());
            if k < m {
                assert(old_table.contains(old_table[k]));
            }
            if l < m {
                assert(old_table.contains(old_table[l]));
            }
        }
        assert forall|k: int| 0 <= k < table.len() implies (#[trigger] table[k])
            < self.pool.references@.len() && (old_table.contains(table[k]) || fresh.contains(
            table[k],
        )) by {
            if k < m && table[k] == old_table[k] {
                assert(self.pool.in_range(self.pages@[a.slot]@));
            }
        }
    }

    /// A page that receives rows belongs to no retained prefix, and after the
    /// transaction to no slot but the appending one.
    pub proof fn lemma_private_page(&self, ticket: int, i: int, row: int)
        requires
            self.inv(),
            self.plans@.contains_key(ticket),
            0 <= i < self.plans@[ticket].len(),
            self.plans@[ticket][i].start <= row < self.plans@[ticket][i].end,
        ensures
            ({
                let plan = self.plans@[ticket];
                let after = applied_tables(self.tables(), plan, plan.len() as int);
                let page = after[plan[i].slot][row / 256];
                &&& row / 256 < after[plan[i].slot].len()
                &&& page < self.pool.references@.len()
                &&& self.retained(page) == 0
                &&& forall|s: int|
                    0 <= s < MAX_SLOTS && s != plan[i].slot ==> !(#[trigger] after[s]).contains(page)
            }),
    {
        let plan = self.plans@[ticket];
        let n = plan.len() as int;
        let tables = self.tables();
        let after = applied_tables(tables, plan, n);
        let a = plan[i];
        assert(source_cache::plan_fits(
            tables,
            self.rows@,
            self.pool.references@,
            self.slots as int,
            plan,
        ));
        lemma_applied(tables, self.rows@, plan, n);
        let table = new_table(tables[a.slot], a);
        assert(after[a.slot] == table);
        assert(tables[a.slot] == self.pages@[a.slot]@);
        let page = table[row / 256];
        self.lemma_new_table(ticket, i);
        assert(table.contains(page));
        assert(page < self.pool.references@.len());
        if row / 256 < tables[a.slot].len() && a.replacement is None {
            // The append keeps its tail: every other owner moves.
            assert(a.extends_tail() && row / 256 == a.tail());
            assert(source_cache::tail_is_private(tables, self.pool.references@, plan, i));
        } else {
            let fresh = a.fresh();
            assert(fresh.contains(page)) by {
                if row / 256 < tables[a.slot].len() {
                    assert(row / 256 == a.tail());
                    assert(fresh[0] == page);
                } else {
                    let k = row / 256 - tables[a.slot].len();
                    assert(a.additions[k] == page);
                    assert(fresh[source_cache::gained_page(a.replacement).len() + k] == page);
                }
            }
            self.lemma_fresh_untouched(ticket, i, page);
            tally::lemma_total_absent(tables, page);
        }
        // No other table names the page any more.
        lemma_fresh_distinct(plan);
        assert forall|s: int| 0 <= s < MAX_SLOTS && s != a.slot implies !(
        #[trigger] after[s]).contains(page) by {
            if after[s].contains(page) {
                let l = choose|l: int| 0 <= l < after[s].len() && after[s][l] == page;
                if untouched(plan, n, s) {
                    assert(after[s] == tables[s]);
                    if a.fresh().contains(page) {
                        self.lemma_fresh_untouched(ticket, i, page);
                        assert(!tables[s].contains(page));
                    } else {
                        assert(tables[s][l] == page);
                        assert(source_cache::moved(plan, s, l));
                    }
                } else {
                    let j = choose|j: int| 0 <= j < n && (#[trigger] plan[j]).slot == s;
                    assert(after[s] == new_table(tables[s], plan[j]));
                    self.lemma_new_table(ticket, j);
                    if a.fresh().contains(page) {
                        self.lemma_fresh_untouched(ticket, i, page);
                        assert(!tables[s].contains(page));
                        assert(plan[j].fresh().contains(page));
                    } else {
                        // `page` is an old page, so it cannot have been claimed.
                        assert(!plan[j].fresh().contains(page)) by {
                            if plan[j].fresh().contains(page) {
                                self.lemma_fresh_untouched(ticket, j, page);
                                assert(tables[a.slot].contains(page));
                            }
                        }
                        assert(l < tables[s].len()) by {
                            if l >= tables[s].len() {
                                let k = l - tables[s].len();
                                assert(plan[j].additions[k] == page);
                                assert(plan[j].fresh()[source_cache::gained_page(
                                    plan[j].replacement,
                                ).len() + k] == page);
                            }
                        }
                        if plan[j].replacement is Some && l == plan[j].tail() {
                            assert(plan[j].fresh()[0] == page);
                        }
                        assert(tables[s][l] == page);
                        assert(source_cache::moved(plan, s, l));
                        let k = choose|k: int|
                            0 <= k < plan.len() && (#[trigger] plan[k]).slot == s
                                && plan[k].replacement is Some && plan[k].tail() == l;
                        assert(k == j);
                    }
                }
            }
        }
    }

    /// A page that received rows belongs to the appending slot alone.
    proof fn lemma_sole_owner(&self, before: &Self, ticket: int, i: int, row: int)
        requires
            before.inv(),
            before.plans@.contains_key(ticket),
            self.applying(before, ticket, before.plans@[ticket].len() as int),
            0 <= i < before.plans@[ticket].len(),
            before.plans@[ticket][i].start <= row < before.plans@[ticket][i].end,
        ensures
            self.pool.references@[self.tables()[before.plans@[ticket][i].slot][row / 256] as int]
                == 1,
    {
        let plan = before.plans@[ticket];
        let a = plan[i];
        let tables = before.tables();
        assert(source_cache::plan_fits(
            tables,
            before.rows@,
            before.pool.references@,
            before.slots as int,
            plan,
        ));
        lemma_applied(tables, before.rows@, plan, plan.len() as int);
        let table = new_table(tables[a.slot], a);
        let page = table[row / 256];
        before.lemma_private_page(ticket, i, row);
        before.lemma_new_table(ticket, i);
        assert(self.tables()[a.slot] == table);
        assert(table.contains(page));
        assert(self.retained(page) == before.retained(page));
        tally::lemma_total_only(self.tables(), a.slot, page);
        tally::lemma_occurrences_distinct(table, page);
    }

    /// Another transaction's claim is not disturbed.
    proof fn lemma_applied_others(&self, before: &Self, ticket: int, t: int)
        requires
            before.inv(),
            before.plans@.contains_key(ticket),
            self.applying(before, ticket, before.plans@[ticket].len() as int),
            before.plans@.contains_key(t),
            t != ticket,
        ensures
            source_cache::plan_fits(
                self.tables(),
                self.rows@,
                self.pool.references@,
                self.slots as int,
                before.plans@[t],
            ),
            forall|p: u32|
                #![trigger source_cache::fresh_pages(before.plans@[t]).contains(p)]
                source_cache::fresh_pages(before.plans@[t]).contains(p)
                    ==> self.pool.references@[p as int] == 0 && !self.pool.free@.contains(p),
    {
        let plan = before.plans@[ticket];
        let n = plan.len() as int;
        let other = before.plans@[t];
        let tables = before.tables();
        assert(plan.take(n) =~= plan);
        assert(source_cache::plan_fits(
            tables,
            before.rows@,
            before.pool.references@,
            before.slots as int,
            plan,
        ));
        assert(source_cache::plan_fits(
            tables,
            before.rows@,
            before.pool.references@,
            before.slots as int,
            other,
        ));
        lemma_applied(tables, before.rows@, plan, n);
        assert forall|i: int| 0 <= i < other.len() implies untouched(
            plan,
            n,
            (#[trigger] other[i]).slot,
        ) by {
            assert forall|k: int| 0 <= k < n implies (#[trigger] plan[k]).slot
                != other[i].slot by {
                assert(before.plans@[ticket][k].slot != before.plans@[t][i].slot);
            }
        }
        assert forall|i: int| 0 <= i < other.len() && (#[trigger] other[i]).extends_tail()
            && other[i].replacement is None implies source_cache::tail_is_private(
            self.tables(),
            self.pool.references@,
            other,
            i,
        ) by {
            assert(source_cache::tail_is_private(tables, before.pool.references@, other, i));
            let slot = other[i].slot;
            assert(untouched(plan, n, slot));
            assert(self.tables()[slot] == tables[slot]);
            let page = source_cache::tail_page(tables, slot, other[i].start);
            assert(tables[slot] == before.pages@[slot]@);
            assert(before.pool.in_range(before.pages@[slot]@));
            assert(tables[slot].contains(page));
            assert(self.retained(page) == before.retained(page));
            assert forall|s: int, l: int|
                0 <= s < self.tables().len() && 0 <= l < self.tables()[s].len() && s != slot
                    && #[trigger] self.tables()[s][l] == page implies source_cache::moved(
                other,
                s,
                l,
            ) by {
                if untouched(plan, n, s) {
                    assert(self.tables()[s] == tables[s]);
                    assert(tables[s][l] == page);
                } else {
                    let j = choose|j: int| 0 <= j < n && (#[trigger] plan[j]).slot == s;
                    assert(self.tables()[s] == new_table(tables[s], plan[j]));
                    if plan[j].fresh().contains(page) {
                        before.lemma_fresh_untouched(ticket, j, page);
                        assert(!tables[slot].contains(page));
                    }
                    if l >= tables[s].len() {
                        let k = l - tables[s].len();
                        assert(plan[j].additions[k] == page);
                        assert(plan[j].fresh()[source_cache::gained_page(
                            plan[j].replacement,
                        ).len() + k] == page);
                    } else if plan[j].replacement is Some && l == plan[j].tail() {
                        assert(plan[j].fresh()[0] == page);
                    }
                    assert(tables[s][l] == page);
                }
            }
        }
        assert forall|p: u32|
            #![trigger source_cache::fresh_pages(before.plans@[t]).contains(p)]
            source_cache::fresh_pages(before.plans@[t]).contains(
                p,
            ) implies self.pool.references@[p as int] == 0 && !self.pool.free@.contains(p) by {
            let fresh = source_cache::fresh_pages(other);
            let k = choose|k: int| 0 <= k < fresh.len() && fresh[k] == p;
            assert(before.pool.in_range(fresh));
            assert(fresh[k] < before.pool.references@.len());
            assert(!source_cache::fresh_pages(before.plans@[ticket]).contains(p));
            tally::lemma_occurrences_contains(source_cache::fresh_pages(plan), p);
            tally::lemma_occurrences_contains(lost_pages(plan), p);
            if self.pool.free@.contains(p) {
                page_pool::lemma_freed_members(before.pool.references@, lost_pages(plan));
                let x = choose|x: int| 0 <= x < self.pool.free@.len() && self.pool.free@[x] == p;
                if x < before.pool.free@.len() {
                    assert(before.pool.free@[x] == p);
                } else {
                    let gone = page_pool::freed(before.pool.references@, lost_pages(plan));
                    assert(gone[x - before.pool.free@.len()] == p);
                    assert(lost_pages(plan).contains(p));
                }
            }
        }
    }

    /// No page is lost: without an owner it is free or claimed by another.
    proof fn lemma_applied_accounted(&self, before: &Self, ticket: int, page: u32)
        requires
            before.inv(),
            before.plans@.contains_key(ticket),
            self.applying(before, ticket, before.plans@[ticket].len() as int),
            page < before.pool.references@.len(),
            self.pool.references@[page as int] == 0,
            !self.pool.free@.contains(page),
        ensures
            exists|t: int| #[trigger]
                before.plans@.contains_key(t) && t != ticket && source_cache::fresh_pages(
                    before.plans@[t],
                ).contains(page),
    {
        let plan = before.plans@[ticket];
        let fresh = source_cache::fresh_pages(plan);
        assert(plan.take(plan.len() as int) =~= plan);
        assert(before.accounted(page));
        tally::lemma_occurrences_contains(fresh, page);
        if before.pool.references@[page as int] > 0 {
            page_pool::lemma_freed_when_gone(before.pool.references@, lost_pages(plan), page);
            let gone = page_pool::freed(before.pool.references@, lost_pages(plan));
            let k = choose|k: int| 0 <= k < gone.len() && gone[k] == page;
            assert(self.pool.free@[before.pool.free@.len() + k] == page);
        } else if before.pool.free@.contains(page) {
            let k = choose|k: int| 0 <= k < before.pool.free@.len() && before.pool.free@[k] == page;
            assert(self.pool.free@[k] == page);
        } else {
            tally::lemma_occurrences_contains(lost_pages(plan), page);
            assert(!fresh.contains(page));
        }
    }

    /// Hands the claimed pages to their slots, append by append.
    fn settle_appends(&mut self, plan: &IndexPlan)
        requires
            old(self).inv(),
            old(self).in_flight(plan),
        ensures
            final(self).applying(old(self), plan.ticket@, plan@.len() as int),
    {
        let ghost ticket = plan.ticket@;
        let ghost view = plan@;
        let ghost before = *self;
        let mut i: usize = 0;
        proof {
            assert(source_cache::plan_fits(
                self.tables(),
                self.rows@,
                self.pool.references@,
                self.slots as int,
                view,
            ));
            assert(view.take(0) =~= Seq::<AppendView>::empty());
            assert(self.pool.free@ =~= self.pool.free@ + page_pool::freed(
                self.pool.references@,
                lost_pages(view.take(0)),
            ));
            lemma_fresh_distinct(view);
        }
        while i < plan.appends.len()
            invariant
                before.inv(),
                before.in_flight(plan),
                ticket == plan.ticket@,
                view == plan@,
                view == before.plans@[ticket],
                i <= plan.appends@.len(),
                self.applying(&before, ticket, i as int),
                forall|k: int| 0 <= k < view.len() ==> (#[trigger] view[k]).fresh().no_duplicates(),
                forall|k: int, j: int, p: u32|
                    0 <= k < view.len() && 0 <= j < view.len() && k != j
                        && #[trigger] view[k].fresh().contains(p) ==> !(
                    #[trigger] view[j].fresh().contains(p)),
            decreases plan.appends@.len() - i,
        {
            let ghost n = i as int;
            let ghost a = view[n];
            let ghost done = view.take(n);
            let ghost tables = before.tables();
            let ghost current = *self;
            let append = &plan.appends[i];
            let slot: usize = append.slot;
            proof {
                assert(append@ == a);
                assert(source_cache::plan_fits(
                    tables,
                    before.rows@,
                    before.pool.references@,
                    before.slots as int,
                    view,
                ));
                lemma_applied(tables, before.rows@, view, n);
                assert(untouched(view, n, a.slot));
                assert(self.tables()[a.slot] == tables[a.slot]);
                assert(tables[a.slot] == before.pages@[a.slot]@);
                // Nothing that this append claims has an owner yet.
                assert forall|p: u32| #[trigger] a.fresh().contains(p) implies p
                    < self.pool.references@.len() && self.pool.references@[p as int] == 0
                    && !self.pool.free@.contains(p) && !tables[a.slot].contains(p) by {
                    before.lemma_fresh_untouched(ticket, n, p);
                    source_cache::lemma_fresh_pages_contains(done, p);
                    assert forall|k: int| 0 <= k < done.len() implies !(
                    #[trigger] done[k]).fresh().contains(p) by {
                        assert(done[k] == view[k]);
                    }
                    tally::lemma_occurrences_contains(source_cache::fresh_pages(done), p);
                    tally::lemma_occurrences_contains(lost_pages(done), p);
                    if self.pool.free@.contains(p) {
                        page_pool::lemma_freed_members(before.pool.references@, lost_pages(done));
                        let k = choose|k: int|
                            0 <= k < self.pool.free@.len() && self.pool.free@[k] == p;
                        if k < before.pool.free@.len() {
                            assert(before.pool.free@[k] == p);
                        } else {
                            let gone = page_pool::freed(
                                before.pool.references@,
                                lost_pages(done),
                            );
                            assert(gone[k - before.pool.free@.len()] == p);
                            assert(lost_pages(done).contains(p));
                        }
                    }
                }
                if let Some(pair) = a.replacement {
                    let source = pair.0;
                    assert(tables[a.slot][a.tail()] == source);
                    assert(before.pool.in_range(before.pages@[a.slot]@));
                    tally::lemma_occurrences_contains(self.tables()[a.slot], source);
                    tally::lemma_total_includes(self.tables(), a.slot, source);
                    assert(self.retained(source) == before.retained(source));
                    assert(self.pool.references@[source as int] > 0);
                }
            }
            transfer_references(&mut self.pool, append.replacement, append.additions.as_slice());
            if let Some((_, target)) = append.replacement {
                self.pages[slot][append.start / PAGE_ROWS] = target;
            }
            self.pages[slot].extend_from_slice(append.additions.as_slice());
            self.rows[slot] = append.end;
            self.writing[slot] = false;
            i = i + 1;
            proof {
                assert(self.pages@[slot as int]@ =~= new_table(tables[a.slot], a));
                assert(self.tables() =~= current.tables().update(
                    a.slot,
                    new_table(tables[a.slot], a),
                ));
                self.lemma_settled(&before, &current, ticket, n);
            }
        }
    }
}

/// The pool once a transaction's claimed pages have an owner and the shared tails
/// that it moved away from have lost one.
pub open spec fn pool_applied(now: &PagePool, was: &PagePool, plan: Seq<AppendView>) -> bool {
    &&& now.references@.len() == was.references@.len()
    &&& forall|p: u32|
        p < was.references@.len() ==> (#[trigger] now.references@[p as int])
            == was.references@[p as int] + tally::occurrences(source_cache::fresh_pages(plan), p)
            - tally::occurrences(lost_pages(plan), p)
    &&& now.free@ == was.free@ + page_pool::freed(was.references@, lost_pages(plan))
    &&& now.generations@.len() == was.generations@.len()
    &&& forall|p: u32|
        p < was.references@.len() ==> (#[trigger] now.generations@[p as int])
            == if tally::occurrences(lost_pages(plan), p) > 0 && tally::occurrences(
            lost_pages(plan),
            p,
        ) == was.references@[p as int] {
            page_pool::next_generation(was.generations@[p as int])
        } else {
            was.generations@[p as int]
        }
}

impl SourceCache {
    /// Publishes an append transaction whose rows have been written. Every page
    /// that received a row then has a single owner.
    pub fn apply(&mut self, plan: IndexPlan)
        requires
            old(self).inv(),
            old(self).in_flight(&plan),
        ensures
            final(self).inv(),
            final(self).same_shape(old(self)),
            final(self).tables() == applied_tables(old(self).tables(), plan@, plan@.len() as int),
            final(self).rows@ == applied_rows(old(self).rows@, plan@, plan@.len() as int),
            final(self).plans@ == old(self).plans@.remove(plan.ticket@),
            pool_applied(&final(self).pool, &old(self).pool, plan@),
            forall|p: u32|
                p < old(self).pool.references@.len() ==> final(self).retained(p)
                    == #[trigger] old(self).retained(p),
            forall|i: int, row: int|
                #![trigger plan@[i], final(self).tables()[plan@[i].slot][row / 256]]
                0 <= i < plan@.len() && plan@[i].start <= row < plan@[i].end ==> final(self).pool.references@[final(self).tables()[plan@[i].slot][row / 256] as int] == 1,
    {
        let ghost ticket = plan.ticket@;
        let ghost before = *self;
        self.settle_appends(&plan);
        let ghost settled = *self;
        self.plans = Ghost(self.plans@.remove(ticket));
        proof {
            assert(plan@.take(plan@.len() as int) =~= plan@);
            assert(self.tables() =~= settled.tables());
            settled.lemma_applied_state(&before, ticket);
            assert forall|t: int| #[trigger]
                before.plans@.contains_key(t) && t != ticket implies {
                &&& source_cache::plan_fits(
                    self.tables(),
                    self.rows@,
                    self.pool.references@,
                    self.slots as int,
                    before.plans@[t],
                )
                &&& forall|p: u32|
                    #![trigger source_cache::fresh_pages(before.plans@[t]).contains(p)]
                    source_cache::fresh_pages(before.plans@[t]).contains(p)
                        ==> self.pool.references@[p as int] == 0 && !self.pool.free@.contains(p)
            } by {
                settled.lemma_applied_others(&before, ticket, t);
            }
            self.lemma_plan_removed(&before, ticket);
            assert forall|p: u32|
                #![trigger self.pool.references@[p as int]]
                p < self.pool.references@.len() implies self.accounted(p) by {
                if self.pool.references@[p as int] == 0 && !self.pool.free@.contains(p) {
                    settled.lemma_applied_accounted(&before, ticket, p);
                    let t = choose|t: int| #[trigger]
                        before.plans@.contains_key(t) && t != ticket && source_cache::fresh_pages(
                            before.plans@[t],
                        ).contains(p);
                    assert(self.plans@.contains_key(t));
                }
            }
        }
    }
}

} // verus!
