//! Slots and retained prefixes that share pages: attaching, keeping, shortening
//! and giving up references without copying rows.
use crate::error::{Error, SourcePoolExhausted};
use crate::page_pool;
use crate::source_cache;
use crate::source_cache::{pages_for_rows, SourceCache, SourcePrefix, MAX_SLOTS};
use crate::tally;
use vstd::prelude::*;

verus! {

impl SourceCache {
    /// Only slots with a reserved append own `page`.
    pub open spec fn only_writers_own(&self, page: u32) -> bool {
        &&& page < self.pool.references@.len()
        &&& self.pool.references@[page as int] > 0
        &&& self.retained(page) == 0
        &&& forall|s: int|
            0 <= s < MAX_SLOTS && !self.writing@[s] ==> !(#[trigger] self.tables()[s]).contains(page)
    }

    /// Reserved transactions survive a change that leaves their slots, their
    /// private tails and their claimed pages alone.
    proof fn lemma_plans_kept(&self, before: &Self)
        requires
            before.inv(),
            self.plans == before.plans,
            self.next_ticket == before.next_ticket,
            self.slots == before.slots,
            self.writing@ == before.writing@,
            self.pages@.len() == MAX_SLOTS,
            self.pool.references@.len() == before.pool.references@.len(),
            forall|s: int|
                0 <= s < MAX_SLOTS && #[trigger] self.writing@[s] ==> self.tables()[s]
                    == before.tables()[s] && self.rows@[s] == before.rows@[s],
            forall|p: u32| #[trigger]
                before.only_writers_own(p) ==> self.retained(p) == 0 && forall|s: int|
                    0 <= s < MAX_SLOTS && !self.writing@[s] ==> !(
                    #[trigger] self.tables()[s]).contains(p),
            forall|p: u32|
                #![trigger before.pool.free@.contains(p)]
                p < before.pool.references@.len() && before.pool.references@[p as int] == 0
                    && !before.pool.free@.contains(p) ==> self.pool.references@[p as int] == 0
                    && !self.pool.free@.contains(p),
        ensures
            self.plans_wf(),
    {
        assert forall|t: int| #[trigger] self.plans@.contains_key(t) implies {
            &&& t < self.next_ticket@
            &&& source_cache::plan_fits(
                self.tables(),
                self.rows@,
                self.pool.references@,
                self.slots as int,
                self.plans@[t],
            )
            &&& self.pool.in_range(source_cache::fresh_pages(self.plans@[t]))
            &&& forall|p: u32|
                #![trigger source_cache::fresh_pages(self.plans@[t]).contains(p)]
                source_cache::fresh_pages(self.plans@[t]).contains(p)
                    ==> self.pool.references@[p as int] == 0 && !self.pool.free@.contains(p)
        } by {
            assert(before.plans@.contains_key(t));
            let plan = before.plans@[t];
            let tables = before.tables();
            let fresh = source_cache::fresh_pages(plan);
            assert(source_cache::plan_fits(
                tables,
                before.rows@,
                before.pool.references@,
                before.slots as int,
                plan,
            ));
            assert forall|p: u32| #[trigger] fresh.contains(p) implies self.pool.references@[p as int]
                == 0 && !self.pool.free@.contains(p) by {
                let k = choose|k: int| 0 <= k < fresh.len() && fresh[k] == p;
                assert(fresh[k] < before.pool.references@.len());
                assert(!before.pool.free@.contains(p));
            }
            assert forall|i: int| 0 <= i < plan.len() implies 0 <= (#[trigger] plan[i]).slot
                < MAX_SLOTS && self.writing@[plan[i].slot] by {
                assert(before.plans@[t][i].slot == plan[i].slot);
                assert(before.appended(plan[i].slot));
            }
            assert forall|i: int| 0 <= i < plan.len() && (#[trigger] plan[i]).extends_tail()
                && plan[i].replacement is None implies source_cache::tail_is_private(
                self.tables(),
                self.pool.references@,
                plan,
                i,
            ) by {
                let slot = plan[i].slot;
                assert(source_cache::tail_is_private(tables, before.pool.references@, plan, i));
                let page = source_cache::tail_page(tables, slot, plan[i].start);
                assert(self.tables()[slot] == tables[slot]);
                assert(tables[slot] == before.pages@[slot]@);
                assert(before.pool.in_range(before.pages@[slot]@));
                assert(tables[slot][plan[i].tail()] == page);
                assert(tables[slot].contains(page));
                tally::lemma_occurrences_contains(tables[slot], page);
                tally::lemma_total_includes(tables, slot, page);
                assert forall|s: int| 0 <= s < MAX_SLOTS && !before.writing@[s] implies !(
                #[trigger] tables[s]).contains(page) by {
                    if tables[s].contains(page) {
                        let l = choose|l: int| 0 <= l < tables[s].len() && tables[s][l] == page;
                        assert(tables[s][l] == page);
                        assert(source_cache::moved(plan, s, l));
                        let j = choose|j: int|
                            0 <= j < plan.len() && (#[trigger] plan[j]).slot == s
                                && plan[j].replacement is Some && plan[j].tail() == l;
                        assert(self.writing@[plan[j].slot]);
                    }
                }
                assert(before.only_writers_own(page));
                assert forall|s: int, l: int|
                    0 <= s < self.tables().len() && 0 <= l < self.tables()[s].len() && s != slot
                        && #[trigger] self.tables()[s][l] == page implies source_cache::moved(
                    plan,
                    s,
                    l,
                ) by {
                    assert(self.tables()[s].contains(page));
                    assert(self.writing@[s]);
                    assert(tables[s][l] == page);
                }
            }
            assert forall|i: int| 0 <= i < plan.len() implies self.tables()[(
            #[trigger] plan[i]).slot] == tables[plan[i].slot] && self.rows@[plan[i].slot]
                == before.rows@[plan[i].slot] by {
                assert(self.writing@[plan[i].slot]);
            }
        }
        assert forall|s: int| 0 <= s < MAX_SLOTS implies ((#[trigger] self.writing@[s])
            <==> self.appended(s)) by {
            assert(before.writing@[s] <==> before.appended(s));
            assert(self.appended(s) == before.appended(s));
        }
    }

    /// A table entry has an owner.
    proof fn lemma_table_owned(&self, slot: int, page: u32)
        requires
            self.inv(),
            0 <= slot < MAX_SLOTS,
            self.tables()[slot].contains(page),
        ensures
            page < self.pool.references@.len(),
            self.pool.references@[page as int] > 0,
            !self.pool.free@.contains(page),
    {
        let table = self.tables()[slot];
        assert(table == self.pages@[slot]@);
        let k = choose|k: int| 0 <= k < table.len() && table[k] == page;
        assert(self.pool.in_range(self.pages@[slot]@));
        tally::lemma_occurrences_contains(table, page);
        tally::lemma_total_includes(self.tables(), slot, page);
        if self.pool.free@.contains(page) {
            let f = choose|f: int| 0 <= f < self.pool.free@.len() && self.pool.free@[f] == page;
            assert(self.pool.references@[self.pool.free@[f] as int] == 0);
        }
    }

    /// Ends the slot's ownership of its pages. The caller has revoked the lease
    /// and drained every consumer.
    pub fn release(&mut self, slot: usize) -> (r: Result<(), Error>)
        requires
            old(self).inv(),
        ensures
            final(self).inv(),
            match r {
                Err(e) => {
                    &&& e == Error::PendingAppend
                    &&& slot >= old(self).slots || old(self).writing@[slot as int]
                    &&& *final(self) == *old(self)
                },
                Ok(_) => {
                    let gone = old(self).pages@[slot as int]@;
                    &&& slot < old(self).slots && !old(self).writing@[slot as int]
                    &&& final(self).same_shape(old(self))
                    &&& final(self).tables() == old(self).tables().update(
                        slot as int,
                        Seq::empty(),
                    )
                    &&& final(self).rows@ == old(self).rows@.update(slot as int, 0)
                    &&& final(self).writing@ == old(self).writing@
                    &&& final(self).plans == old(self).plans
                    &&& final(self).pool.references@.len() == old(self).pool.references@.len()
                    &&& forall|p: u32|
                        p < old(self).pool.references@.len() ==> {
                            &&& (#[trigger] final(self).pool.references@[p as int]) == old(self).pool.references@[p as int] - tally::occurrences(gone, p)
                            &&& final(self).retained(p) == old(self).retained(p)
                        }
                    &&& final(self).pool.gave_back(&old(self).pool, gone)
                    &&& forall|p: u32|
                        p < old(self).pool.references@.len() ==> (
                        #[trigger] final(self).pool.generations@[p as int]) == if gone.contains(p)
                            && old(self).pool.references@[p as int] == 1 {
                            page_pool::next_generation(old(self).pool.generations@[p as int])
                        } else {
                            old(self).pool.generations@[p as int]
                        }
                },
            },
    {
        match self.ensure_idle(slot) {
            Err(e) => {
                return Err(e);
            },
            Ok(_) => {},
        }
        let ghost before = *self;
        let ghost gone = self.pages@[slot as int]@;
        proof {
            assert(self.pages@[slot as int]@.no_duplicates());
            assert(self.tables()[slot as int] == gone);
            assert forall|p: u32| #[trigger] tally::occurrences(gone, p) == if gone.contains(p) {
                1nat
            } else {
                0nat
            } by {
                tally::lemma_occurrences_distinct(gone, p);
            }
            assert forall|p: u32| p < self.pool.references@.len() implies tally::occurrences(
                gone,
                p,
            ) <= (#[trigger] self.pool.references@[p as int]) by {
                tally::lemma_total_includes(self.tables(), slot as int, p);
            }
        }
        self.pool.release(self.pages[slot].as_slice());
        self.pages[slot].clear();
        self.rows[slot] = 0;
        proof {
            assert(self.tables() =~= before.tables().update(slot as int, Seq::empty()));
            assert forall|p: u32| p < before.pool.references@.len() implies self.retained(p)
                == before.retained(p) && tally::total(self.tables(), p) <= (
            #[trigger] self.pool.references@[p as int]) by {
                tally::lemma_total_update(before.tables(), slot as int, Seq::empty(), p);
                assert(tally::occurrences(Seq::<u32>::empty(), p) == 0);
            }
            self.lemma_after_release(&before, gone);
            assert forall|p: u32| #[trigger] before.only_writers_own(p) implies self.retained(p)
                == 0 && forall|s: int|
                0 <= s < MAX_SLOTS && !self.writing@[s] ==> !(
                #[trigger] self.tables()[s]).contains(p) by {
                assert forall|s: int| 0 <= s < MAX_SLOTS && !self.writing@[s] implies !(
                #[trigger] self.tables()[s]).contains(p) by {
                    assert(!before.tables()[s].contains(p));
                }
                assert(self.retained(p) == before.retained(p));
            }
            assert forall|p: u32| gone.contains(p) implies p < before.pool.references@.len()
                && #[trigger] before.pool.references@[p as int] > 0 by {
                before.lemma_table_owned(slot as int, p);
            }
            self.lemma_plans_kept(&before);
            assert(self.tables_wf()) by {
                assert forall|s: int| 0 <= s < MAX_SLOTS implies {
                    &&& (#[trigger] self.pages@[s])@.no_duplicates()
                    &&& self.pool.in_range(self.pages@[s]@)
                    &&& self.pages@[s]@.len() <= self.stride
                    &&& self.rows@[s] <= self.pages@[s]@.len() * 256
                    &&& s >= self.slots ==> self.pages@[s]@.len() == 0 && !self.writing@[s]
                } by {
                    if s != slot {
                        assert(before.pages@[s]@.no_duplicates());
                        assert(self.pages@[s]@ == before.pages@[s]@);
                    }
                }
            }
        }
        Ok(())
    }

    /// Released pages are either still owned or free, and the claims of
    /// reserved transactions stay off the free list.
    proof fn lemma_after_release(&self, before: &Self, gone: Seq<u32>)
        requires
            before.inv(),
            self.plans == before.plans,
            self.pool.references@.len() == before.pool.references@.len(),
            forall|i: int|
                0 <= i < gone.len() ==> (#[trigger] gone[i]) < before.pool.references@.len()
                    && before.pool.references@[gone[i] as int] > 0,
            forall|p: u32|
                p < before.pool.references@.len() ==> (#[trigger] self.pool.references@[p as int])
                    == before.pool.references@[p as int] - tally::occurrences(gone, p),
            self.pool.free@ == before.pool.free@ + page_pool::freed(
                before.pool.references@,
                gone,
            ),
        ensures
            forall|p: u32|
                #![trigger self.pool.references@[p as int]]
                p < self.pool.references@.len() ==> self.accounted(p),
            forall|p: u32|
                #![trigger before.pool.free@.contains(p)]
                p < before.pool.references@.len() && before.pool.references@[p as int] == 0
                    && !before.pool.free@.contains(p) ==> self.pool.references@[p as int] == 0
                    && !self.pool.free@.contains(p),
    {
        let freed = page_pool::freed(before.pool.references@, gone);
        let n = before.pool.free@.len() as int;
        assert forall|p: u32|
            #![trigger self.pool.references@[p as int]]
            p < self.pool.references@.len() implies self.accounted(p) by {
            assert(before.accounted(p));
            if before.pool.free@.contains(p) {
                let k = choose|k: int| 0 <= k < n && before.pool.free@[k] == p;
                assert(self.pool.free@[k] == p);
            } else if before.pool.references@[p as int] > 0 {
                if self.pool.references@[p as int] == 0 {
                    page_pool::lemma_freed_when_gone(before.pool.references@, gone, p);
                    let k = choose|k: int| 0 <= k < freed.len() && freed[k] == p;
                    assert(self.pool.free@[n + k] == p);
                }
            } else {
                let t = choose|t: int| #[trigger]
                    before.plans@.contains_key(t) && source_cache::fresh_pages(
                        before.plans@[t],
                    ).contains(p);
                assert(self.plans@.contains_key(t));
            }
        }
        assert forall|p: u32|
            #![trigger before.pool.free@.contains(p)]
            p < before.pool.references@.len() && before.pool.references@[p as int] == 0
                && !before.pool.free@.contains(p) implies self.pool.references@[p as int] == 0
            && !self.pool.free@.contains(p) by {
            tally::lemma_occurrences_contains(gone, p);
            if self.pool.free@.contains(p) {
                page_pool::lemma_freed_members(before.pool.references@, gone);
                let k = choose|k: int| 0 <= k < self.pool.free@.len() && self.pool.free@[k] == p;
                if k < n {
                    assert(before.pool.free@[k] == p);
                } else {
                    assert(freed[k - n] == p);
                    assert(gone.contains(p));
                }
            }
        }
    }
}

impl SourceCache {
    /// Every page has room for one more owner.
    pub open spec fn references_fit(&self, pages: Seq<u32>) -> bool {
        forall|i: int|
            0 <= i < pages.len() ==> self.pool.references@[(#[trigger] pages[i]) as int] < usize::MAX
    }

    /// References move but tables, free list and transactions stay.
    pub open spec fn only_references_changed(&self, before: &Self) -> bool {
        &&& self.same_shape(before)
        &&& self.tables() == before.tables()
        &&& self.rows@ == before.rows@
        &&& self.writing@ == before.writing@
        &&& self.plans == before.plans
        &&& self.pool.free@ == before.pool.free@
        &&& self.pool.generations@ == before.pool.generations@
        &&& self.pool.references@.len() == before.pool.references@.len()
    }

    /// Adds one retained reference per page of `pages`.
    fn retain_pages(&mut self, pages: &[u32])
        requires
            old(self).inv(),
            pages@.no_duplicates(),
            old(self).references_fit(pages@),
            forall|i: int|
                0 <= i < pages@.len() ==> (#[trigger] pages@[i]) < old(self).pool.references@.len()
                    && old(self).pool.references@[pages@[i] as int] > 0 && !old(self).only_writers_own(pages@[i]),
        ensures
            final(self).inv(),
            final(self).only_references_changed(old(self)),
            forall|p: u32|
                p < old(self).pool.references@.len() ==> {
                    &&& (#[trigger] final(self).pool.references@[p as int]) == old(self).pool.references@[p as int] + tally::occurrences(pages@, p)
                    &&& final(self).retained(p) == old(self).retained(p) + tally::occurrences(
                        pages@,
                        p,
                    )
                },
    {
        let ghost before = *self;
        proof {
            assert forall|p: u32| #[trigger] tally::occurrences(pages@, p) == if pages@.contains(
                p,
            ) {
                1nat
            } else {
                0nat
            } by {
                tally::lemma_occurrences_distinct(pages@, p);
            }
            assert forall|p: u32| p < self.pool.references@.len() implies (
            #[trigger] self.pool.references@[p as int]) + tally::occurrences(pages@, p)
                <= usize::MAX by {
                if pages@.contains(p) {
                    let i = choose|i: int| 0 <= i < pages@.len() && pages@[i] == p;
                    assert(self.pool.references@[pages@[i] as int] < usize::MAX);
                }
            }
            assert forall|i: int| 0 <= i < pages@.len() implies !self.pool.free@.contains(
                #[trigger] pages@[i],
            ) by {
                if self.pool.free@.contains(pages@[i]) {
                    let f = choose|f: int|
                        0 <= f < self.pool.free@.len() && self.pool.free@[f] == pages@[i];
                    assert(self.pool.references@[self.pool.free@[f] as int] == 0);
                }
            }
        }
        self.pool.retain(pages);
        proof {
            assert(self.tables() =~= before.tables());
            assert forall|p: u32| p < before.pool.references@.len() implies self.retained(p)
                == before.retained(p) + tally::occurrences(pages@, p) && tally::total(
                self.tables(),
                p,
            ) <= (#[trigger] self.pool.references@[p as int]) by {
                assert(tally::total(before.tables(), p) <= before.pool.references@[p as int]);
            }
            assert forall|p: u32| #[trigger] before.only_writers_own(p) implies self.retained(p)
                == 0 && forall|s: int|
                0 <= s < MAX_SLOTS && !self.writing@[s] ==> !(
                #[trigger] self.tables()[s]).contains(p) by {
                if pages@.contains(p) {
                    let i = choose|i: int| 0 <= i < pages@.len() && pages@[i] == p;
                    assert(!before.only_writers_own(pages@[i]));
                }
                assert(self.pool.references@[p as int] == before.pool.references@[p as int]
                    + tally::occurrences(pages@, p));
            }
            assert forall|p: u32|
                #![trigger before.pool.free@.contains(p)]
                p < before.pool.references@.len() && before.pool.references@[p as int] == 0
                    && !before.pool.free@.contains(p) implies self.pool.references@[p as int] == 0
                && !self.pool.free@.contains(p) by {
                if pages@.contains(p) {
                    let i = choose|i: int| 0 <= i < pages@.len() && pages@[i] == p;
                    assert(before.pool.references@[pages@[i] as int] > 0);
                }
            }
            self.lemma_plans_kept(&before);
            assert forall|p: u32|
                #![trigger self.pool.references@[p as int]]
                p < self.pool.references@.len() implies self.accounted(p) by {
                assert(before.accounted(p));
                if self.pool.references@[p as int] == 0 && !self.pool.free@.contains(p) {
                    let t = choose|t: int| #[trigger]
                        before.plans@.contains_key(t) && source_cache::fresh_pages(
                            before.plans@[t],
                        ).contains(p);
                    assert(self.plans@.contains_key(t));
                }
            }
            assert forall|s: int| 0 <= s < MAX_SLOTS implies self.pool.in_range(
                (#[trigger] self.pages@[s])@,
            ) by {
                assert(before.pool.in_range(before.pages@[s]@));
            }
        }
    }

    /// A page that an idle slot names is not private to writers.
    proof fn lemma_idle_page(&self, slot: int, page: u32)
        requires
            self.inv(),
            0 <= slot < MAX_SLOTS,
            !self.writing@[slot],
            self.tables()[slot].contains(page),
        ensures
            !self.only_writers_own(page),
    {
    }

    /// Keeps the first `rows` rows of an idle slot without copying them. The
    /// caller supplies the committed row count after draining consumers.
    pub fn retain_prefix(&mut self, slot: usize, rows: usize) -> (r: Result<SourcePrefix, Error>)
        requires
            old(self).inv(),
            slot < old(self).slots && rows <= old(self).rows@[slot as int] ==> old(self).references_fit(
                old(self).pages@[slot as int]@.take(source_cache::page_count(rows as int)),
            ),
        ensures
            final(self).inv(),
            match r {
                Err(e) => {
                    &&& *final(self) == *old(self)
                    &&& e == if slot >= old(self).slots || old(self).writing@[slot as int] {
                        Error::PendingAppend
                    } else {
                        Error::PrefixExceedsTable
                    }
                    &&& slot >= old(self).slots || old(self).writing@[slot as int] || rows > old(self).rows@[slot as int]
                },
                Ok(prefix) => {
                    &&& slot < old(self).slots && !old(self).writing@[slot as int]
                    &&& rows <= old(self).rows@[slot as int]
                    &&& prefix.pool == old(self).identity
                    &&& prefix.keeps(old(self).pages@[slot as int]@, rows as int)
                    &&& final(self).holds(&prefix)
                    &&& final(self).only_references_changed(old(self))
                    &&& forall|p: u32|
                        p < old(self).pool.references@.len() ==> {
                            &&& (#[trigger] final(self).pool.references@[p as int]) == old(self).pool.references@[p as int] + tally::occurrences(prefix.pages@, p)
                            &&& final(self).retained(p) == old(self).retained(p)
                                + tally::occurrences(prefix.pages@, p)
                        }
                },
            },
    {
        match self.ensure_idle(slot) {
            Err(e) => {
                return Err(e);
            },
            Ok(_) => {},
        }
        if rows > self.rows[slot] {
            return Err(Error::PrefixExceedsTable);
        }
        let count: usize = pages_for_rows(rows);
        let ghost table = self.pages@[slot as int]@;
        proof {
            assert(table.no_duplicates());
            assert(count <= table.len());
        }
        let pages = copy_pages(&self.pages[slot], count);
        proof {
            assert forall|i: int| 0 <= i < pages@.len() implies (#[trigger] pages@[i])
                < self.pool.references@.len() && self.pool.references@[pages@[i] as int] > 0
                && !self.only_writers_own(pages@[i]) by {
                assert(table[i] == pages@[i]);
                assert(self.tables()[slot as int] == table);
                assert(table.contains(pages@[i]));
                self.lemma_table_owned(slot as int, pages@[i]);
                self.lemma_idle_page(slot as int, pages@[i]);
            }
        }
        self.retain_pages(pages.as_slice());
        let prefix = SourcePrefix { pool: self.identity, pages, rows };
        proof {
            self.lemma_holds_new(old(self), &prefix);
        }
        Ok(prefix)
    }

    proof fn lemma_holds_new(&self, before: &Self, prefix: &SourcePrefix)
        requires
            before.inv(),
            prefix.wf(),
            before.pool.in_range(prefix.pages@),
            self.pool.references@.len() == before.pool.references@.len(),
            forall|p: u32|
                p < before.pool.references@.len() ==> self.retained(p) == before.retained(p)
                    + #[trigger] tally::occurrences(prefix.pages@, p),
        ensures
            self.holds(prefix),
    {
        assert forall|i: int| 0 <= i < prefix.pages@.len() implies self.retained(
            #[trigger] prefix.pages@[i],
        ) > 0 by {
            let p = prefix.pages@[i];
            assert(prefix.pages@.contains(p));
            tally::lemma_occurrences_contains(prefix.pages@, p);
            assert(tally::total(before.tables(), p) <= before.pool.references@[p as int]);
        }
    }

    /// Gives up a retained prefix.
    pub fn evict_prefix(&mut self, prefix: SourcePrefix)
        requires
            old(self).inv(),
            old(self).holds(&prefix),
        ensures
            final(self).inv(),
            final(self).same_shape(old(self)),
            final(self).tables() == old(self).tables(),
            final(self).rows@ == old(self).rows@,
            final(self).writing@ == old(self).writing@,
            final(self).plans == old(self).plans,
            final(self).pool.references@.len() == old(self).pool.references@.len(),
            forall|p: u32|
                p < old(self).pool.references@.len() ==> {
                    &&& (#[trigger] final(self).pool.references@[p as int]) == old(self).pool.references@[p as int] - tally::occurrences(prefix.pages@, p)
                    &&& final(self).retained(p) == old(self).retained(p) - tally::occurrences(
                        prefix.pages@,
                        p,
                    )
                },
            final(self).pool.gave_back(&old(self).pool, prefix.pages@),
            forall|p: u32|
                p < old(self).pool.references@.len() ==> (
                #[trigger] final(self).pool.generations@[p as int]) == if prefix.pages@.contains(p)
                    && old(self).pool.references@[p as int] == 1 {
                    page_pool::next_generation(old(self).pool.generations@[p as int])
                } else {
                    old(self).pool.generations@[p as int]
                },
    {
        let ghost before = *self;
        let ghost gone = prefix.pages@;
        proof {
            assert forall|p: u32| #[trigger] tally::occurrences(gone, p) == if gone.contains(p) {
                1nat
            } else {
                0nat
            } by {
                tally::lemma_occurrences_distinct(gone, p);
            }
            assert forall|p: u32| #[trigger] gone.contains(p) implies p
                < self.pool.references@.len() && self.retained(p) > 0 by {
                let i = choose|i: int| 0 <= i < gone.len() && gone[i] == p;
                assert(self.retained(prefix.pages@[i]) > 0);
            }
            assert forall|p: u32| p < self.pool.references@.len() implies tally::occurrences(
                gone,
                p,
            ) <= (#[trigger] self.pool.references@[p as int]) by {
                if gone.contains(p) {
                }
            }
        }
        self.pool.release(prefix.pages.as_slice());
        proof {
            assert(self.tables() =~= before.tables());
            assert forall|p: u32| p < before.pool.references@.len() implies self.retained(p)
                == before.retained(p) - tally::occurrences(gone, p) && tally::total(
                self.tables(),
                p,
            ) <= (#[trigger] self.pool.references@[p as int]) by {
                assert(tally::total(before.tables(), p) <= before.pool.references@[p as int]);
                if gone.contains(p) {
                }
            }
            assert forall|i: int| 0 <= i < gone.len() implies (#[trigger] gone[i])
                < before.pool.references@.len() && before.pool.references@[gone[i] as int] > 0 by {
                assert(gone.contains(gone[i]));
            }
            self.lemma_after_release(&before, gone);
            assert forall|p: u32| #[trigger] before.only_writers_own(p) implies self.retained(p)
                == 0 && forall|s: int|
                0 <= s < MAX_SLOTS && !self.writing@[s] ==> !(
                #[trigger] self.tables()[s]).contains(p) by {
                assert(self.retained(p) == before.retained(p) - tally::occurrences(gone, p));
                if gone.contains(p) {
                }
            }
            self.lemma_plans_kept(&before);
            assert forall|s: int| 0 <= s < MAX_SLOTS implies self.pool.in_range(
                (#[trigger] self.pages@[s])@,
            ) by {
                assert(before.pool.in_range(before.pages@[s]@));
            }
        }
    }
}

/// The first `count` pages.
pub fn copy_pages(pages: &Vec<u32>, count: usize) -> (r: Vec<u32>)
    requires
        count <= pages@.len(),
    ensures
        r@ == pages@.take(count as int),
{
    let mut copy: Vec<u32> = Vec::new();
    let mut i: usize = 0;
    while i < count
        invariant
            i <= count <= pages@.len(),
            copy@ == pages@.take(i as int),
        decreases count - i,
    {
        copy.push(pages[i]);
        i = i + 1;
    }
    copy
}

impl SourcePrefix {
    /// The prefix has the first `rows` rows of a table: the pages that hold them.
    pub open spec fn keeps(&self, table: Seq<u32>, rows: int) -> bool {
        &&& self.rows == rows
        &&& self.pages@ == table.take(source_cache::page_count(rows))
    }

    /// Keeps a shorter run of an already retained prefix. Later rows in its
    /// last page remain owned by the longer one; a branch that appends there
    /// still copies the page.
    pub fn truncate(&self, cache: &mut SourceCache, rows: usize) -> (r: Result<Self, Error>)
        requires
            old(cache).inv(),
            old(cache).holds(self),
            rows <= self.rows ==> old(cache).references_fit(
                self.pages@.take(source_cache::page_count(rows as int)),
            ),
        ensures
            final(cache).inv(),
            match r {
                Err(e) => {
                    &&& e == Error::PrefixTruncation
                    &&& rows > self.rows
                    &&& *final(cache) == *old(cache)
                },
                Ok(shorter) => {
                    &&& rows <= self.rows
                    &&& shorter.pool == self.pool
                    &&& shorter.keeps(self.pages@, rows as int)
                    &&& final(cache).holds(&shorter)
                    &&& final(cache).only_references_changed(old(cache))
                    &&& forall|p: u32|
                        p < old(cache).pool.references@.len() ==> {
                            &&& (#[trigger] final(cache).pool.references@[p as int]) == old(cache).pool.references@[p as int] + tally::occurrences(shorter.pages@, p)
                            &&& final(cache).retained(p) == old(cache).retained(p)
                                + tally::occurrences(shorter.pages@, p)
                        }
                },
            },
    {
        if rows > self.rows {
            return Err(Error::PrefixTruncation);
        }
        let count: usize = pages_for_rows(rows);
        let pages = copy_pages(&self.pages, count);
        proof {
            assert forall|i: int| 0 <= i < pages@.len() implies (#[trigger] pages@[i])
                < cache.pool.references@.len() && cache.pool.references@[pages@[i] as int] > 0
                && !cache.only_writers_own(pages@[i]) by {
                assert(self.pages@[i] == pages@[i]);
                assert(cache.retained(self.pages@[i]) > 0);
            }
        }
        cache.retain_pages(pages.as_slice());
        let shorter = SourcePrefix { pool: self.pool, pages, rows };
        proof {
            cache.lemma_holds_new(old(cache), &shorter);
        }
        Ok(shorter)
    }
}

impl SourceCache {
    /// A retained source can be attached to `slot`.
    pub open spec fn restorable(&self, slot: int, prefix: &SourcePrefix) -> bool {
        &&& self.pages@[slot]@.len() == 0
        &&& prefix.pool == self.identity
        &&& prefix.pages@.len() <= self.stride
    }

    /// Why `prefix` cannot be attached to `slot`, if it cannot.
    pub open spec fn restore_error(&self, slot: int, prefix: &SourcePrefix) -> Option<Error> {
        if slot >= self.slots || self.writing@[slot] {
            Some(Error::PendingAppend)
        } else if !self.restorable(slot, prefix) {
            Some(Error::ForeignPrefix)
        } else {
            None
        }
    }

    pub fn check_restore(&self, slot: usize, prefix: &SourcePrefix) -> (r: Result<(), Error>)
        requires
            self.inv(),
        ensures
            match r {
                Ok(_) => self.restore_error(slot as int, prefix) is None,
                Err(e) => self.restore_error(slot as int, prefix) == Some(e),
            },
    {
        match self.ensure_idle(slot) {
            Err(e) => {
                return Err(e);
            },
            Ok(_) => {},
        }
        if self.pages[slot].len() == 0 && prefix.pool == self.identity && prefix.pages.len()
            <= self.stride {
            Ok(())
        } else {
            Err(Error::ForeignPrefix)
        }
    }

    /// Attaches a retained source to a fresh slot. A later append privately
    /// copies a shared tail.
    pub fn restore_prefix(&mut self, slot: usize, prefix: &SourcePrefix) -> (r: Result<(), Error>)
        requires
            old(self).inv(),
            old(self).restore_error(slot as int, prefix) is None ==> old(self).holds(prefix)
                && old(self).references_fit(prefix.pages@),
        ensures
            final(self).inv(),
            match r {
                Err(e) => {
                    &&& old(self).restore_error(slot as int, prefix) == Some(e)
                    &&& *final(self) == *old(self)
                },
                Ok(_) => {
                    &&& old(self).restore_error(slot as int, prefix) is None
                    &&& final(self).same_shape(old(self))
                    &&& final(self).tables() == old(self).tables().update(
                        slot as int,
                        prefix.pages@,
                    )
                    &&& final(self).rows@ == old(self).rows@.update(slot as int, prefix.rows)
                    &&& final(self).writing@ == old(self).writing@
                    &&& final(self).plans == old(self).plans
                    &&& final(self).pool.free@ == old(self).pool.free@
                    &&& final(self).pool.generations@ == old(self).pool.generations@
                    &&& final(self).pool.references@.len() == old(self).pool.references@.len()
                    &&& forall|p: u32|
                        p < old(self).pool.references@.len() ==> {
                            &&& (#[trigger] final(self).pool.references@[p as int]) == old(self).pool.references@[p as int] + tally::occurrences(prefix.pages@, p)
                            &&& final(self).retained(p) == old(self).retained(p)
                        }
                },
            },
    {
        match self.check_restore(slot, prefix) {
            Err(e) => {
                return Err(e);
            },
            Ok(_) => {},
        }
        let ghost start = *self;
        let ghost pages = prefix.pages@;
        proof {
            assert forall|i: int| 0 <= i < pages.len() implies (#[trigger] pages[i])
                < self.pool.references@.len() && self.pool.references@[pages[i] as int] > 0
                && !self.only_writers_own(pages[i]) by {
                assert(self.retained(prefix.pages@[i]) > 0);
            }
        }
        self.retain_pages(prefix.pages.as_slice());
        let ghost before = *self;
        self.pages[slot] = copy_pages(&prefix.pages, prefix.pages.len());
        self.rows[slot] = prefix.rows;
        proof {
            assert(pages.take(pages.len() as int) =~= pages);
            assert(before.tables()[slot as int] =~= Seq::<u32>::empty());
            assert(self.tables() =~= before.tables().update(slot as int, pages));
            assert forall|p: u32| p < before.pool.references@.len() implies self.retained(p)
                == start.retained(p) && tally::total(self.tables(), p) <= (
            #[trigger] self.pool.references@[p as int]) by {
                tally::lemma_total_update(before.tables(), slot as int, pages, p);
                assert(tally::occurrences(Seq::<u32>::empty(), p) == 0);
                assert(before.retained(p) == start.retained(p) + tally::occurrences(pages, p));
                assert(tally::total(start.tables(), p) <= start.pool.references@[p as int]);
            }
            assert forall|p: u32| #[trigger] before.only_writers_own(p) implies self.retained(p)
                == 0 && forall|s: int|
                0 <= s < MAX_SLOTS && !self.writing@[s] ==> !(
                #[trigger] self.tables()[s]).contains(p) by {
                tally::lemma_occurrences_contains(pages, p);
                assert(before.retained(p) == start.retained(p) + tally::occurrences(pages, p));
                assert(tally::total(start.tables(), p) <= start.pool.references@[p as int]);
                assert forall|s: int| 0 <= s < MAX_SLOTS && !self.writing@[s] implies !(
                #[trigger] self.tables()[s]).contains(p) by {
                    if s != slot {
                        assert(!before.tables()[s].contains(p));
                    }
                }
            }
            self.lemma_plans_kept(&before);
            assert forall|p: u32|
                #![trigger self.pool.references@[p as int]]
                p < self.pool.references@.len() implies self.accounted(p) by {
                assert(before.accounted(p));
            }
            assert forall|s: int| 0 <= s < MAX_SLOTS implies {
                &&& (#[trigger] self.pages@[s])@.no_duplicates()
                &&& self.pool.in_range(self.pages@[s]@)
                &&& self.pages@[s]@.len() <= self.stride
                &&& self.rows@[s] <= self.pages@[s]@.len() * 256
                &&& s >= self.slots ==> self.pages@[s]@.len() == 0 && !self.writing@[s]
            } by {
                if s != slot {
                    assert(before.pages@[s]@.no_duplicates());
                    assert(self.pages@[s]@ == before.pages@[s]@);
                } else {
                    assert(self.pages@[s]@ == pages);
                }
            }
        }
        Ok(())
    }

    /// A prefix over `count` fresh pages holding `rows` rows, for the host cache
    /// to fill; the prefix owns the pages.
    pub fn allocate_prefix(&mut self, count: usize, rows: usize) -> (r: Result<SourcePrefix, Error>)
        requires
            old(self).inv(),
        ensures
            final(self).inv(),
            match r {
                Err(e) => {
                    &&& *final(self) == *old(self)
                    &&& e == if rows > count * 256 {
                        Error::PrefixRowsExceedPages
                    } else {
                        Error::PoolExhausted(
                            SourcePoolExhausted {
                                work_index: 0,
                                needed: count,
                                available: old(self).pool.free@.len() as usize,
                            },
                        )
                    }
                    &&& rows > count * 256 || old(self).pool.free@.len() < count
                },
                Ok(prefix) => {
                    &&& rows <= count * 256
                    &&& prefix.pool == old(self).identity
                    &&& prefix.rows == rows
                    &&& prefix.pages@.len() == count
                    &&& old(self).pool.free@ == final(self).pool.free@ + prefix.pages@
                    &&& final(self).holds(&prefix)
                    &&& final(self).same_shape(old(self))
                    &&& final(self).tables() == old(self).tables()
                    &&& final(self).rows@ == old(self).rows@
                    &&& final(self).writing@ == old(self).writing@
                    &&& final(self).plans == old(self).plans
                    &&& final(self).pool.generations@ == old(self).pool.generations@
                    &&& final(self).pool.references@.len() == old(self).pool.references@.len()
                    &&& forall|p: u32|
                        p < old(self).pool.references@.len() ==> {
                            &&& (#[trigger] final(self).pool.references@[p as int]) == old(self).pool.references@[p as int] + tally::occurrences(prefix.pages@, p)
                            &&& final(self).retained(p) == old(self).retained(p)
                                + tally::occurrences(prefix.pages@, p)
                        }
                },
            },
    {
        if pages_for_rows(rows) > count {
            return Err(Error::PrefixRowsExceedPages);
        }
        let ghost before = *self;
        let available: usize = self.pool.free.len();
        let pages = match self.pool.allocate(count) {
            None => {
                return Err(
                    Error::PoolExhausted(
                        SourcePoolExhausted { work_index: 0, needed: count, available },
                    ),
                );
            },
            Some(pages) => pages,
        };
        let prefix = SourcePrefix { pool: self.identity, pages, rows };
        proof {
            let got = prefix.pages@;
            let kept = self.pool.free@.len() as int;
            assert forall|k: int| 0 <= k < got.len() implies #[trigger] got[k]
                == before.pool.free@[kept + k] by {}
            assert(got.no_duplicates());
            assert forall|p: u32| #[trigger] got.contains(p) implies before.pool.free@.contains(p)
                && p < before.pool.references@.len() && before.pool.references@[p as int] == 0
                && tally::total(before.tables(), p) == 0 by {
                let k = choose|k: int| 0 <= k < got.len() && got[k] == p;
                assert(before.pool.free@[kept + k] == p);
                assert(tally::total(before.tables(), p) <= before.pool.references@[p as int]);
            }
            assert(self.tables() =~= before.tables());
            assert forall|p: u32| p < before.pool.references@.len() implies {
                &&& (#[trigger] self.pool.references@[p as int])
                    == before.pool.references@[p as int] + tally::occurrences(got, p)
                &&& self.retained(p) == before.retained(p) + tally::occurrences(got, p)
                &&& tally::total(self.tables(), p) <= self.pool.references@[p as int]
            } by {
                tally::lemma_occurrences_distinct(got, p);
                assert(tally::total(before.tables(), p) <= before.pool.references@[p as int]);
                if got.contains(p) {
                }
            }
            assert(before.pool.in_range(got)) by {
                assert forall|i: int| 0 <= i < got.len() implies (#[trigger] got[i])
                    < before.pool.references@.len() by {
                    assert(got.contains(got[i]));
                }
            }
            self.lemma_holds_new(&before, &prefix);
            assert forall|p: u32| #[trigger] before.only_writers_own(p) implies self.retained(p)
                == 0 && forall|s: int|
                0 <= s < MAX_SLOTS && !self.writing@[s] ==> !(
                #[trigger] self.tables()[s]).contains(p) by {
                tally::lemma_occurrences_distinct(got, p);
                assert(self.pool.references@[p as int] == before.pool.references@[p as int]
                    + tally::occurrences(got, p));
                if got.contains(p) {
                }
            }
            assert forall|p: u32|
                #![trigger before.pool.free@.contains(p)]
                p < before.pool.references@.len() && before.pool.references@[p as int] == 0
                    && !before.pool.free@.contains(p) implies self.pool.references@[p as int] == 0
                && !self.pool.free@.contains(p) by {
                if got.contains(p) {
                }
                if self.pool.free@.contains(p) {
                    let k = choose|k: int| 0 <= k < kept && self.pool.free@[k] == p;
                    assert(before.pool.free@[k] == p);
                }
            }
            self.lemma_plans_kept(&before);
            assert forall|p: u32|
                #![trigger self.pool.references@[p as int]]
                p < self.pool.references@.len() implies self.accounted(p) by {
                assert(before.accounted(p));
                if before.pool.free@.contains(p) {
                    let k = choose|k: int|
                        0 <= k < before.pool.free@.len() && before.pool.free@[k] == p;
                    if k < kept {
                        assert(self.pool.free@[k] == p);
                    } else {
                        assert(got[k - kept] == p);
                        assert(got.contains(p));
                    }
                } else if before.pool.references@[p as int] == 0 {
                    let t = choose|t: int| #[trigger]
                        before.plans@.contains_key(t) && source_cache::fresh_pages(
                            before.plans@[t],
                        ).contains(p);
                    assert(self.plans@.contains_key(t));
                } else {
                    if got.contains(p) {
                    }
                }
            }
            assert forall|s: int| 0 <= s < MAX_SLOTS implies self.pool.in_range(
                (#[trigger] self.pages@[s])@,
            ) by {
                assert(before.pool.in_range(before.pages@[s]@));
            }
        }
        Ok(prefix)
    }
}

/// A kept prefix reads its rows on the pages where the table has them, keeps no page
/// that none of its rows is on, and shortening it is as keeping fewer rows of the table.
pub proof fn law_kept_prefix_reads_the_table(
    table: Seq<u32>,
    rows: int,
    prefix: SourcePrefix,
    fewer: int,
    shorter: SourcePrefix,
    row: int,
)
    requires
        0 <= fewer <= rows <= 256 * table.len(),
        prefix.keeps(table, rows),
        shorter.keeps(prefix.pages@, fewer),
        0 <= row < rows,
    ensures
        row / 256 < prefix.pages@.len(),
        prefix.pages@[row / 256] == table[row / 256],
        256 * (prefix.pages@.len() - 1) < rows <= 256 * prefix.pages@.len(),
        prefix.rows == rows && shorter.rows == fewer,
        shorter.keeps(table, fewer),
        row < fewer ==> row / 256 < shorter.pages@.len() && shorter.pages@[row / 256]
            == table[row / 256],
{
    assert(source_cache::page_count(fewer) <= source_cache::page_count(rows));
    assert(source_cache::page_count(rows) <= table.len());
    assert(shorter.pages@ =~= table.take(source_cache::page_count(fewer)));
}

} // verus!
