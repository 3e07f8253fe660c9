//! What reservations promise across several calls.
use crate::error::Error;
use crate::source_cache;
use crate::source_cache::apply;
use crate::source_cache::{Append, AppendView, IndexPlan, SourceCache, MAX_SLOTS};
use vstd::prelude::*;

verus! {

impl SourceCache {
    /// One slot's table and row count after two transactions.
    proof fn lemma_both_applied(&self, first: int, second: int, s: int)
        requires
            self.inv(),
            self.plans@.contains_key(first),
            self.plans@.contains_key(second),
            first != second,
            0 <= s < MAX_SLOTS,
        ensures
            ({
                let (a, b) = (self.plans@[first], self.plans@[second]);
                let (m, n) = (a.len() as int, b.len() as int);
                let tables = apply::applied_tables(self.tables(), a, m);
                let rows = apply::applied_rows(self.rows@, a, m);
                &&& apply::applied_tables(tables, b, n).len() == MAX_SLOTS
                &&& apply::applied_rows(rows, b, n).len() == MAX_SLOTS
                &&& apply::applied_tables(tables, b, n)[s] == if apply::untouched(b, n, s) {
                    tables[s]
                } else {
                    apply::applied_tables(self.tables(), b, n)[s]
                }
                &&& apply::applied_rows(rows, b, n)[s] == if apply::untouched(b, n, s) {
                    rows[s]
                } else {
                    apply::applied_rows(self.rows@, b, n)[s]
                }
                &&& apply::untouched(a, m, s) || apply::untouched(b, n, s)
                &&& apply::untouched(a, m, s) ==> tables[s] == self.tables()[s] && rows[s]
                    == self.rows@[s]
            }),
    {
        let (a, b) = (self.plans@[first], self.plans@[second]);
        let (m, n) = (a.len() as int, b.len() as int);
        let tables = apply::applied_tables(self.tables(), a, m);
        let rows = apply::applied_rows(self.rows@, a, m);
        apply::lemma_applied(self.tables(), self.rows@, a, m);
        apply::lemma_applied(self.tables(), self.rows@, b, n);
        apply::lemma_applied(tables, rows, b, n);
        if !apply::untouched(b, n, s) {
            let j = choose|j: int| 0 <= j < n && (#[trigger] b[j]).slot == s;
            assert forall|i: int| 0 <= i < m implies (#[trigger] a[i]).slot != s by {
                assert(self.plans@[first][i].slot != self.plans@[second][j].slot);
            }
            assert(apply::untouched(a, m, s));
            assert(tables[s] == self.tables()[s]);
        }
    }

    /// Two append transactions that are in flight together may be applied in
    /// either order: the page tables and row counts come out the same.
    pub proof fn law_plans_apply_in_either_order(&self, first: int, second: int)
        requires
            self.inv(),
            self.plans@.contains_key(first),
            self.plans@.contains_key(second),
            first != second,
        ensures
            ({
                let (a, b) = (self.plans@[first], self.plans@[second]);
                let (m, n) = (a.len() as int, b.len() as int);
                &&& apply::applied_tables(apply::applied_tables(self.tables(), a, m), b, n)
                    == apply::applied_tables(apply::applied_tables(self.tables(), b, n), a, m)
                &&& apply::applied_rows(apply::applied_rows(self.rows@, a, m), b, n)
                    == apply::applied_rows(apply::applied_rows(self.rows@, b, n), a, m)
            }),
    {
        let (a, b) = (self.plans@[first], self.plans@[second]);
        let (m, n) = (a.len() as int, b.len() as int);
        let one = apply::applied_tables(apply::applied_tables(self.tables(), a, m), b, n);
        let two = apply::applied_tables(apply::applied_tables(self.tables(), b, n), a, m);
        let rows_one = apply::applied_rows(apply::applied_rows(self.rows@, a, m), b, n);
        let rows_two = apply::applied_rows(apply::applied_rows(self.rows@, b, n), a, m);
        self.lemma_both_applied(first, second, 0);
        self.lemma_both_applied(second, first, 0);
        assert forall|s: int| 0 <= s < MAX_SLOTS implies #[trigger] one[s] == two[s] && rows_one[s]
            == rows_two[s] by {
            self.lemma_both_applied(first, second, s);
            self.lemma_both_applied(second, first, s);
        }
        assert(one =~= two);
        assert forall|s: int| 0 <= s < MAX_SLOTS implies #[trigger] rows_one[s] == rows_two[s] by {
            assert(one[s] == two[s]);
        }
        assert(rows_one =~= rows_two);
    }

    /// Discarding a reservation undoes it: tables, row counts, owners, page
    /// generations, the free list and the transactions are those before it.
    pub proof fn law_discard_undoes_reserve(&self, reserved: &Self, after: &Self, plan: &IndexPlan)
        requires
            self.inv(),
            after.inv(),
            reserved.same_shape(self),
            reserved.pages@ == self.pages@,
            reserved.rows@ == self.rows@,
            reserved.pool.references@ == self.pool.references@,
            reserved.pool.generations@ == self.pool.generations@,
            self.pool.free@ == reserved.pool.free@ + plan.pages@,
            !self.plans@.contains_key(plan.ticket@),
            reserved.plans@ == self.plans@.insert(plan.ticket@, plan@),
            after.same_shape(reserved),
            after.pages@ == reserved.pages@,
            after.rows@ == reserved.rows@,
            after.pool.references@ == reserved.pool.references@,
            after.pool.generations@ == reserved.pool.generations@,
            after.pool.free@ == reserved.pool.free@ + plan.pages@,
            after.plans@ == reserved.plans@.remove(plan.ticket@),
        ensures
            after.same_shape(self),
            after.pages@ == self.pages@,
            after.rows@ == self.rows@,
            after.pool.references@ == self.pool.references@,
            after.pool.generations@ == self.pool.generations@,
            after.pool.free@ == self.pool.free@,
            after.plans@ == self.plans@,
            after.writing@ == self.writing@,
    {
        assert(after.plans@ =~= self.plans@);
        assert forall|s: int| 0 <= s < MAX_SLOTS implies #[trigger] after.writing@[s]
            == self.writing@[s] by {
            assert(after.appended(s) == self.appended(s));
        }
        assert(after.writing@ =~= self.writing@);
    }
}

impl SourceCache {
    /// A reserved transaction is the one that was asked for: the same slots from the
    /// same row to the same row. A tail moves only where new rows would go into a page
    /// that others own too, and it moves from that page.
    pub proof fn law_reserve_keeps_the_request(
        &self,
        appends: Seq<Append>,
        plan: Seq<AppendView>,
        i: int,
    )
        requires
            self.inv(),
            self.planned(appends) == Ok::<Seq<AppendView>, Error>(plan),
            0 <= i < appends.len(),
        ensures
            plan.len() == appends.len(),
            plan[i].slot == appends[i].0,
            plan[i].start == appends[i].1,
            plan[i].end == appends[i].2,
            plan[i].start == self.rows@[plan[i].slot],
            plan[i].replacement matches Some(pair) ==> {
                &&& plan[i].start < plan[i].end
                &&& plan[i].start % 256 != 0
                &&& pair.0 == self.tables()[plan[i].slot][plan[i].start / 256]
                &&& self.pool.references@[pair.0 as int] > 1
                &&& self.pool.free@.contains(pair.1)
            },
            forall|k: int|
                0 <= k < plan[i].additions.len() ==> self.pool.free@.contains(
                    #[trigger] plan[i].additions[k],
                ),
    {
        self.lemma_planned_entries(appends, plan, appends.len() as int);
        self.lemma_request_kept(appends, i);
    }

    proof fn lemma_request_kept(&self, appends: Seq<Append>, i: int)
        requires
            self.first_append_error(appends, appends.len() as int) is None,
            0 <= i < appends.len(),
        ensures
            appends[i].1 == self.rows@[appends[i].0 as int],
    {
        self.lemma_first_error(appends, appends.len() as int, i);
    }

    proof fn lemma_first_error(&self, appends: Seq<Append>, n: int, i: int)
        requires
            self.first_append_error(appends, n) is None,
            0 <= i < n,
        ensures
            self.append_error(appends, i) is None,
        decreases n,
    {
        if i < n - 1 {
            self.lemma_first_error(appends, n - 1, i);
        }
    }

    proof fn lemma_planned_entries(&self, appends: Seq<Append>, plan: Seq<AppendView>, n: int)
        requires
            0 <= n <= appends.len(),
            self.first_append_error(appends, appends.len() as int) is None,
            self.plan_appends(appends, n) == Ok::<Seq<AppendView>, Error>(plan),
        ensures
            plan.len() == n,
            forall|i: int|
                0 <= i < n ==> {
                    let a = #[trigger] plan[i];
                    &&& a.slot == appends[i].0
                    &&& a.start == appends[i].1
                    &&& a.end == appends[i].2
                    &&& a.replacement matches Some(pair) ==> {
                        &&& a.start < a.end
                        &&& a.start % 256 != 0
                        &&& pair.0 == self.tables()[a.slot][a.start / 256]
                        &&& self.pool.references@[pair.0 as int] > 1
                        &&& self.pool.free@.contains(pair.1)
                    }
                    &&& forall|k: int|
                        0 <= k < a.additions.len() ==> self.pool.free@.contains(
                            #[trigger] a.additions[k],
                        )
                },
        decreases n,
    {
        if n > 0 {
            let before = self.plan_appends(appends, n - 1)->Ok_0;
            self.lemma_planned_entries(appends, before, n - 1);
            self.lemma_first_error(appends, appends.len() as int, n - 1);
            let used = source_cache::fresh_pages(before).len() as int;
            let a = self.plan_append(appends, n - 1, used)->Ok_0;
            assert(plan == before.push(a));
            let free = self.pool.free@;
            let left = free.len() - used;
            let rest = if self.copies_tail(appends, n - 1) {
                left - 1
            } else {
                left
            };
            if let Some(pair) = a.replacement {
                assert(free[left - 1] == pair.1);
            }
            assert forall|k: int| 0 <= k < a.additions.len() implies free.contains(
                #[trigger] a.additions[k],
            ) by {
                assert(free[rest - 1 - k] == a.additions[k]);
            }
            assert forall|i: int| 0 <= i < n implies ({
                let a = #[trigger] plan[i];
                &&& a.slot == appends[i].0
                &&& a.start == appends[i].1
                &&& a.end == appends[i].2
                &&& a.replacement matches Some(pair) ==> {
                    &&& a.start < a.end
                    &&& a.start % 256 != 0
                    &&& pair.0 == self.tables()[a.slot][a.start / 256]
                    &&& self.pool.references@[pair.0 as int] > 1
                    &&& self.pool.free@.contains(pair.1)
                }
                &&& forall|k: int|
                    0 <= k < a.additions.len() ==> self.pool.free@.contains(
                        #[trigger] a.additions[k],
                    )
            }) by {
                if i < n - 1 {
                    assert(plan[i] == before[i]);
                }
            }
        }
    }

    /// Applying a transaction gives each of its slots the rows that it asked for and just
    /// the pages that they need: the old ones, but for a tail that moves to its private
    /// page, then the added ones in order. Other slots keep their pages and their rows.
    pub proof fn law_applying_extends_the_tables(&self, ticket: int, s: int)
        requires
            self.inv(),
            self.plans@.contains_key(ticket),
            0 <= s < MAX_SLOTS,
        ensures
            ({
                let plan = self.plans@[ticket];
                let n = plan.len() as int;
                let old = self.tables()[s];
                let table = apply::applied_tables(self.tables(), plan, n)[s];
                let rows = apply::applied_rows(self.rows@, plan, n)[s];
                &&& forall|i: int|
                    0 <= i < n && (#[trigger] plan[i]).slot == s ==> {
                        let a = plan[i];
                        &&& rows == a.end
                        &&& rows <= table.len() * 256 < rows + 256
                        &&& table.no_duplicates()
                        &&& table.len() == old.len() + a.additions.len()
                        &&& forall|l: int|
                            0 <= l < table.len() ==> #[trigger] table[l] == if l >= old.len() {
                                a.additions[l - old.len()]
                            } else if l == a.start / 256 && a.replacement is Some {
                                a.replacement->Some_0.1
                            } else {
                                old[l]
                            }
                    }
                &&& (forall|i: int| 0 <= i < n ==> (#[trigger] plan[i]).slot != s) ==> table == old
                    && rows == self.rows@[s]
            }),
    {
        let plan = self.plans@[ticket];
        let n = plan.len() as int;
        assert(source_cache::plan_fits(
            self.tables(),
            self.rows@,
            self.pool.references@,
            self.slots as int,
            plan,
        ));
        apply::lemma_applied(self.tables(), self.rows@, plan, n);
        assert forall|i: int| 0 <= i < n && (#[trigger] plan[i]).slot == s implies {
            let a = plan[i];
            let old = self.tables()[s];
            let table = apply::applied_tables(self.tables(), plan, n)[s];
            let rows = apply::applied_rows(self.rows@, plan, n)[s];
            &&& rows == a.end
            &&& rows <= table.len() * 256 < rows + 256
            &&& table.no_duplicates()
            &&& table.len() == old.len() + a.additions.len()
            &&& forall|l: int|
                0 <= l < table.len() ==> #[trigger] table[l] == if l >= old.len() {
                    a.additions[l - old.len()]
                } else if l == a.start / 256 && a.replacement is Some {
                    a.replacement->Some_0.1
                } else {
                    old[l]
                }
        } by {
            self.lemma_new_table(ticket, i);
        }
        if forall|i: int| 0 <= i < n ==> (#[trigger] plan[i]).slot != s {
            assert(apply::untouched(plan, n, s));
        }
    }
}

} // verus!
