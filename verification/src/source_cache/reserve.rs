//! Planning an append transaction and claiming its pages.
use crate::error::{Error, SourcePoolExhausted};
use crate::page_pool::PagePool;
use crate::source_cache;
use crate::source_cache::{pages_for_rows, Append, AppendView, IndexPlan, PlannedAppend, SourceCache, MAX_ROWS, MAX_SLOTS, PAGE_ROWS};
use crate::tally;
use vstd::prelude::*;

verus! {

/// New rows of `append` go into a page that already holds rows.
pub open spec fn extends_tail(append: Append) -> bool {
    append.2 > append.1 && append.1 % 256 != 0
}

/// `append` writes into the partial page `page`.
pub open spec fn writes_page(tables: Seq<Seq<u32>>, append: Append, page: u32) -> bool {
    extends_tail(append) && source_cache::tail_page(tables, append.0 as int, append.1 as int) == page
}

/// Appends of the transaction that write into the partial page `page`.
pub open spec fn writers(tables: Seq<Seq<u32>>, appends: Seq<Append>, page: u32) -> nat
    decreases appends.len(),
{
    if appends.len() == 0 {
        0
    } else {
        writers(tables, appends.drop_last(), page) + if writes_page(
            tables,
            appends.last(),
            page,
        ) {
            1nat
        } else {
            0nat
        }
    }
}

impl SourceCache {
    /// Why append `i` of the transaction cannot be considered at all.
    pub open spec fn append_error(&self, appends: Seq<Append>, i: int) -> Option<Error> {
        let (slot, start, end) = appends[i];
        if slot >= self.slots || exists|j: int| 0 <= j < i && (#[trigger] appends[j]).0 == slot {
            Some(Error::AppendSlot)
        } else if self.writing@[slot as int] {
            Some(Error::PendingAppend)
        } else if !(start == self.rows@[slot as int] && start <= end && end <= MAX_ROWS
            && self.pages@[slot as int]@.len() == source_cache::page_count(start as int)) {
            Some(Error::AppendBinding)
        } else {
            None
        }
    }

    /// The first refusal among the first `n` appends.
    pub open spec fn first_append_error(&self, appends: Seq<Append>, n: int) -> Option<Error>
        decreases n,
    {
        if n <= 0 {
            None
        } else {
            match self.first_append_error(appends, n - 1) {
                Some(e) => Some(e),
                None => self.append_error(appends, n - 1),
            }
        }
    }

    /// Append `i` must leave its partial tail page to the page's other owners.
    /// If every owner appends in this transaction, the last one keeps the page.
    pub open spec fn copies_tail(&self, appends: Seq<Append>, i: int) -> bool {
        let page = source_cache::tail_page(self.tables(), appends[i].0 as int, appends[i].1 as int);
        let owners = self.pool.references@[page as int];
        &&& extends_tail(appends[i])
        &&& owners > 1
        &&& (writers(self.tables(), appends, page) != owners || exists|j: int|
            i < j < appends.len() && #[trigger] writes_page(self.tables(), appends[j], page))
    }

    /// Pages for append `i`, taken from the end of the free list after `used` others.
    pub open spec fn plan_append(&self, appends: Seq<Append>, i: int, used: int) -> Result<
        AppendView,
        Error,
    > {
        let (slot, start, end) = appends[i];
        let free = self.pool.free@;
        let left = free.len() - used;
        let copies = self.copies_tail(appends, i);
        let rest = if copies {
            left - 1
        } else {
            left
        };
        let extra = source_cache::page_count(end as int) - self.pages@[slot as int]@.len();
        if copies && left <= 0 {
            Err(
                Error::PoolExhausted(
                    SourcePoolExhausted { work_index: i as usize, needed: 1, available: left as usize },
                ),
            )
        } else if extra > rest {
            Err(
                Error::PoolExhausted(
                    SourcePoolExhausted {
                        work_index: i as usize,
                        needed: extra as usize,
                        available: rest as usize,
                    },
                ),
            )
        } else {
            Ok(
                AppendView {
                    slot: slot as int,
                    start: start as int,
                    end: end as int,
                    replacement: if copies {
                        Some(
                            (
                                source_cache::tail_page(self.tables(), slot as int, start as int),
                                free[left - 1],
                            ),
                        )
                    } else {
                        None
                    },
                    additions: Seq::new(extra as nat, |k: int| free[rest - 1 - k]),
                },
            )
        }
    }

    /// The transaction over the first `n` appends.
    pub open spec fn plan_appends(&self, appends: Seq<Append>, n: int) -> Result<
        Seq<AppendView>,
        Error,
    >
        decreases n,
    {
        if n <= 0 {
            Ok(Seq::empty())
        } else {
            match self.plan_appends(appends, n - 1) {
                Err(e) => Err(e),
                Ok(plan) => match self.plan_append(
                    appends,
                    n - 1,
                    source_cache::fresh_pages(plan).len() as int,
                ) {
                    Err(e) => Err(e),
                    Ok(a) => Ok(plan.push(a)),
                },
            }
        }
    }

    /// What a reservation of `appends` comes to.
    pub open spec fn planned(&self, appends: Seq<Append>) -> Result<Seq<AppendView>, Error> {
        match self.first_append_error(appends, appends.len() as int) {
            Some(e) => Err(e),
            None => self.plan_appends(appends, appends.len() as int),
        }
    }
}

/// Writers of one page occupy distinct slots, so together with any further slot
/// `s` they account for that many owners.
proof fn lemma_writers_are_owners(
    tables: Seq<Seq<u32>>,
    appends: Seq<Append>,
    page: u32,
    s: int,
)
    requires
        forall|i: int|
            0 <= i < appends.len() ==> (#[trigger] appends[i]).0 < tables.len() && (
            extends_tail(appends[i]) ==> appends[i].1 / 256 < tables[appends[i].0 as int].len()),
        forall|i: int, j: int|
            0 <= i < j < appends.len() ==> (#[trigger] appends[i]).0 != (#[trigger] appends[j]).0,
        forall|i: int|
            0 <= i < appends.len() && writes_page(tables, #[trigger] appends[i], page)
                ==> appends[i].0 != s,
    ensures
        writers(tables, appends, page) + (if 0 <= s < tables.len() {
            tally::occurrences(tables[s], page)
        } else {
            0
        }) <= tally::total(tables, page),
    decreases appends.len(),
{
    if appends.len() == 0 {
        if 0 <= s < tables.len() {
            tally::lemma_total_includes(tables, s, page);
        }
    } else {
        let last = appends.last();
        let init = appends.drop_last();
        assert(last == appends[appends.len() - 1]);
        assert forall|i: int| 0 <= i < init.len() implies init[i] == #[trigger] appends[i] by {}
        if writes_page(tables, last, page) {
            let slot = last.0 as int;
            let rest = tables.update(slot, Seq::empty());
            assert forall|i: int| 0 <= i < init.len() implies writes_page(
                rest,
                #[trigger] init[i],
                page,
            ) == writes_page(tables, init[i], page) && rest[init[i].0 as int]
                == tables[init[i].0 as int] by {
                assert(appends[i].0 != appends[appends.len() - 1].0);
            }
            lemma_writers_same(tables, rest, init, page);
            lemma_writers_are_owners(rest, init, page, s);
            tally::lemma_total_update(tables, slot, Seq::empty(), page);
            tally::lemma_occurrences_contains(tables[slot], page);
            assert(tables[slot][last.1 as int / 256] == page);
        } else {
            lemma_writers_are_owners(tables, init, page, s);
        }
    }
}

proof fn lemma_writers_same(
    left: Seq<Seq<u32>>,
    right: Seq<Seq<u32>>,
    appends: Seq<Append>,
    page: u32,
)
    requires
        forall|i: int|
            0 <= i < appends.len() ==> writes_page(left, #[trigger] appends[i], page)
                == writes_page(right, appends[i], page),
    ensures
        writers(left, appends, page) == writers(right, appends, page),
    decreases appends.len(),
{
    if appends.len() > 0 {
        assert(appends.last() == appends[appends.len() - 1]);
        assert forall|i: int| 0 <= i < appends.drop_last().len() implies writes_page(
            left,
            #[trigger] appends.drop_last()[i],
            page,
        ) == writes_page(right, appends.drop_last()[i], page) by {
            assert(appends.drop_last()[i] == appends[i]);
        }
        lemma_writers_same(left, right, appends.drop_last(), page);
    }
}

proof fn lemma_writers_take(tables: Seq<Seq<u32>>, appends: Seq<Append>, n: int, page: u32)
    requires
        0 <= n < appends.len(),
    ensures
        writers(tables, appends.take(n + 1), page) == writers(tables, appends.take(n), page) + if writes_page(
            tables,
            appends[n],
            page,
        ) {
            1nat
        } else {
            0nat
        },
{
    assert(appends.take(n + 1).drop_last() =~= appends.take(n));
    assert(appends.take(n + 1).last() == appends[n]);
}

impl SourceCache {
    proof fn lemma_no_append_error(&self, appends: Seq<Append>, n: int, i: int)
        requires
            self.first_append_error(appends, n) is None,
            0 <= i < n,
        ensures
            self.append_error(appends, i) is None,
        decreases n,
    {
        if i < n - 1 {
            self.lemma_no_append_error(appends, n - 1, i);
        }
    }

    proof fn lemma_append_error_stays(&self, appends: Seq<Append>, n: int, m: int)
        requires
            self.first_append_error(appends, n) is Some,
            0 <= n <= m,
        ensures
            self.first_append_error(appends, m) == self.first_append_error(appends, n),
        decreases m,
    {
        if n < m {
            self.lemma_append_error_stays(appends, n, m - 1);
        }
    }

    proof fn lemma_plan_error_stays(&self, appends: Seq<Append>, n: int, m: int)
        requires
            self.plan_appends(appends, n) is Err,
            0 <= n <= m,
        ensures
            self.plan_appends(appends, m) == self.plan_appends(appends, n),
        decreases m,
    {
        if n < m {
            self.lemma_plan_error_stays(appends, n, m - 1);
        }
    }

    /// A planned transaction, entry by entry: each keeps its request and takes
    /// its pages from the end of the free list.
    proof fn lemma_plan_entries(&self, appends: Seq<Append>, n: int)
        requires
            0 <= n,
            self.plan_appends(appends, n) is Ok,
            forall|i: int| 0 <= i < n ==> self.append_error(appends, i) is None,
        ensures
            ({
                let plan = self.plan_appends(appends, n)->Ok_0;
                let fresh = source_cache::fresh_pages(plan);
                let free = self.pool.free@;
                &&& plan.len() == n
                &&& fresh.len() <= free.len()
                &&& forall|k: int|
                    0 <= k < fresh.len() ==> #[trigger] fresh[k] == free[free.len() - 1 - k]
                &&& forall|i: int|
                    0 <= i < n ==> {
                        let a = #[trigger] plan[i];
                        &&& a.slot == appends[i].0
                        &&& a.start == appends[i].1
                        &&& a.end == appends[i].2
                        &&& a.replacement is Some == self.copies_tail(appends, i)
                        &&& a.replacement matches Some(pair) ==> pair.0 == source_cache::tail_page(
                            self.tables(),
                            a.slot,
                            a.start,
                        )
                        &&& a.additions.len() == source_cache::page_count(a.end) - source_cache::page_count(a.start)
                    }
            }),
        decreases n,
    {
        if n > 0 {
            assert(self.plan_appends(appends, n - 1) is Ok);
            self.lemma_plan_entries(appends, n - 1);
            let before = self.plan_appends(appends, n - 1)->Ok_0;
            let plan = self.plan_appends(appends, n)->Ok_0;
            let used = source_cache::fresh_pages(before).len() as int;
            let a = self.plan_append(appends, n - 1, used)->Ok_0;
            assert(plan == before.push(a));
            assert(plan.drop_last() =~= before);
            assert(plan.last() == a);
            assert(self.append_error(appends, n - 1) is None);
            let fresh = source_cache::fresh_pages(plan);
            let free = self.pool.free@;
            assert(fresh == source_cache::fresh_pages(before) + a.fresh());
            assert forall|k: int| 0 <= k < fresh.len() implies #[trigger] fresh[k]
                == free[free.len() - 1 - k] by {
                if k >= used {
                    assert(fresh[k] == a.fresh()[k - used]);
                } else {
                    assert(fresh[k] == source_cache::fresh_pages(before)[k]);
                }
            }
        }
    }

    /// An owner that keeps its partial tail is the only one left on that page
    /// once the transaction has moved the others.
    proof fn lemma_kept_tail(&self, appends: Seq<Append>, plan: Seq<AppendView>, i: int)
        requires
            self.inv(),
            forall|k: int| 0 <= k < appends.len() ==> self.append_error(appends, k) is None,
            self.plan_appends(appends, appends.len() as int) == Ok::<Seq<AppendView>, Error>(plan),
            0 <= i < appends.len(),
            extends_tail(appends[i]),
            !self.copies_tail(appends, i),
        ensures
            source_cache::tail_is_private(self.tables(), self.pool.references@, plan, i),
    {
        self.lemma_plan_entries(appends, appends.len() as int);
        let tables = self.tables();
        let slot = appends[i].0 as int;
        let page = source_cache::tail_page(tables, slot, appends[i].1 as int);
        let owners = self.pool.references@[page as int];
        assert(self.append_error(appends, i) is None);
        assert(tables[slot] == self.pages@[slot]@);
        assert(tables[slot][appends[i].1 as int / 256] == page);
        assert(self.pool.in_range(self.pages@[slot]@));
        assert(page < self.pool.references@.len());
        assert(tally::total(tables, page) <= owners);
        tally::lemma_occurrences_contains(tables[slot], page);
        tally::lemma_total_includes(tables, slot, page);
        assert forall|k: int| 0 <= k < appends.len() implies (#[trigger] appends[k]).0
            < tables.len() && (extends_tail(appends[k]) ==> appends[k].1 / 256
            < tables[appends[k].0 as int].len()) by {
            assert(self.append_error(appends, k) is None);
        }
        assert forall|k: int, j: int| 0 <= k < j < appends.len() implies (
        #[trigger] appends[k]).0 != (#[trigger] appends[j]).0 by {
            assert(self.append_error(appends, j) is None);
        }
        if owners > 1 {
            lemma_writers_are_owners(tables, appends, page, -1);
            assert(tally::total(tables, page) == owners);
        }
        assert forall|s: int, l: int|
            0 <= s < tables.len() && 0 <= l < tables[s].len() && s != plan[i].slot
                && #[trigger] tables[s][l] == page implies source_cache::moved(plan, s, l) by {
            tally::lemma_occurrences_contains(tables[s], page);
            if owners <= 1 {
                if s < slot {
                    tally::lemma_total_includes_both(tables, s, slot, page);
                } else {
                    tally::lemma_total_includes_both(tables, slot, s, page);
                }
            } else {
                if forall|k: int|
                    0 <= k < appends.len() && writes_page(tables, #[trigger] appends[k], page)
                        ==> appends[k].0 != s {
                    lemma_writers_are_owners(tables, appends, page, s);
                }
                let k = choose|k: int|
                    0 <= k < appends.len() && writes_page(tables, #[trigger] appends[k], page)
                        && appends[k].0 == s;
                assert(self.append_error(appends, k) is None);
                assert(self.pages@[s]@.no_duplicates());
                assert(tables[s] == self.pages@[s]@);
                assert(appends[k].1 as int / 256 == l);
                assert(k < i) by {
                    if k > i {
                        assert(writes_page(tables, appends[k], page));
                    }
                }
                assert(writes_page(tables, appends[i], page));
                assert(self.copies_tail(appends, k));
                assert(plan[k].slot == s && plan[k].replacement is Some && plan[k].tail() == l);
            }
        }
    }

    /// A planned transaction has one entry per request, in order.
    pub proof fn lemma_planned(&self, appends: Seq<Append>, plan: Seq<AppendView>)
        requires
            self.planned(appends) == Ok::<Seq<AppendView>, Error>(plan),
        ensures
            plan.len() == appends.len(),
            forall|i: int|
                0 <= i < plan.len() ==> {
                    let a = #[trigger] plan[i];
                    &&& a.slot == appends[i].0
                    &&& a.start == appends[i].1
                    &&& a.end == appends[i].2
                    &&& a.replacement is Some == self.copies_tail(appends, i)
                    &&& self.append_error(appends, i) is None
                },
    {
        assert forall|k: int| 0 <= k < appends.len() implies self.append_error(
            appends,
            k,
        ) is None by {
            self.lemma_no_append_error(appends, appends.len() as int, k);
        }
        self.lemma_plan_entries(appends, appends.len() as int);
    }

    /// A planned transaction fits the state that it was planned on.
    proof fn lemma_plan_fits(&self, appends: Seq<Append>, plan: Seq<AppendView>)
        requires
            self.inv(),
            self.planned(appends) == Ok::<Seq<AppendView>, Error>(plan),
        ensures
            source_cache::plan_fits(self.tables(), self.rows@, self.pool.references@, self.slots as int, plan),
            source_cache::fresh_pages(plan).len() <= self.pool.free@.len(),
            source_cache::fresh_pages(plan).reverse() == self.pool.free@.skip(
                self.pool.free@.len() - source_cache::fresh_pages(plan).len(),
            ),
            plan.len() == appends.len(),
            forall|i: int| 0 <= i < plan.len() ==> (#[trigger] plan[i]).slot == appends[i].0,
    {
        assert forall|k: int| 0 <= k < appends.len() implies self.append_error(
            appends,
            k,
        ) is None by {
            self.lemma_no_append_error(appends, appends.len() as int, k);
        }
        self.lemma_plan_entries(appends, appends.len() as int);
        let fresh = source_cache::fresh_pages(plan);
        let free = self.pool.free@;
        assert(fresh.no_duplicates());
        assert(fresh.reverse() =~= free.skip(free.len() - fresh.len()));
        assert forall|i: int| 0 <= i < plan.len() implies ({
            let a = #[trigger] plan[i];
            &&& 0 <= a.slot < self.slots
            &&& a.start == self.rows@[a.slot]
            &&& a.start <= a.end <= MAX_ROWS
            &&& self.tables()[a.slot].len() == source_cache::page_count(a.start)
            &&& a.extends_tail() && a.replacement is None ==> source_cache::tail_is_private(
                self.tables(),
                self.pool.references@,
                plan,
                i,
            )
        }) by {
            assert(self.append_error(appends, i) is None);
            if plan[i].extends_tail() && plan[i].replacement is None {
                self.lemma_kept_tail(appends, plan, i);
            }
        }
        assert forall|i: int, j: int| 0 <= i < j < plan.len() implies (#[trigger] plan[i]).slot
            != (#[trigger] plan[j]).slot by {
            assert(self.append_error(appends, j) is None);
            assert(appends[i].0 != appends[j].0);
        }
    }
}

impl SourceCache {
    /// How many appends write into the partial page `page`, and the last of them.
    fn tail_writers(&self, appends: &[Append], page: u32) -> (r: (usize, usize))
        requires
            self.inv(),
            forall|k: int| 0 <= k < appends@.len() ==> self.append_error(appends@, k) is None,
        ensures
            r.0 == writers(self.tables(), appends@, page),
            r.0 > 0 ==> r.1 < appends@.len() && writes_page(
                self.tables(),
                appends@[r.1 as int],
                page,
            ),
            forall|j: int|
                r.1 < j < appends@.len() ==> !writes_page(self.tables(), #[trigger] appends@[j], page),
    {
        let mut count: usize = 0;
        let mut last: usize = 0;
        let mut i: usize = 0;
        while i < appends.len()
            invariant
                i <= appends@.len(),
                count <= i,
                self.inv(),
                forall|k: int| 0 <= k < appends@.len() ==> self.append_error(appends@, k) is None,
                count == writers(self.tables(), appends@.take(i as int), page),
                count > 0 ==> last < i && writes_page(self.tables(), appends@[last as int], page),
                forall|j: int|
                    last < j < i ==> !writes_page(self.tables(), #[trigger] appends@[j], page),
            decreases appends@.len() - i,
        {
            let (slot, start, end) = appends[i];
            proof {
                assert(self.append_error(appends@, i as int) is None);
                assert(self.tables()[slot as int] == self.pages@[slot as int]@);
                lemma_writers_take(self.tables(), appends@, i as int, page);
            }
            if end > start && start % PAGE_ROWS != 0 && self.pages[slot][start / PAGE_ROWS] == page {
                count = count + 1;
                last = i;
            }
            i = i + 1;
        }
        assert(appends@.take(i as int) =~= appends@);
        (count, last)
    }

    /// The first pass of a reservation: every participant is admissible.
    fn check_appends(&self, appends: &[Append]) -> (r: Result<(), Error>)
        requires
            self.inv(),
        ensures
            match r {
                Ok(_) => self.first_append_error(appends@, appends@.len() as int) is None,
                Err(e) => self.first_append_error(appends@, appends@.len() as int) == Some(e),
            },
    {
        let mut seen: Vec<bool> = Vec::new();
        let mut slot: usize = 0;
        while slot < MAX_SLOTS
            invariant
                slot <= MAX_SLOTS,
                seen@ == Seq::new(slot as nat, |s: int| false),
            decreases MAX_SLOTS - slot,
        {
            seen.push(false);
            slot = slot + 1;
        }
        let mut i: usize = 0;
        while i < appends.len()
            invariant
                i <= appends@.len(),
                self.inv(),
                seen@.len() == MAX_SLOTS,
                forall|s: int|
                    0 <= s < MAX_SLOTS ==> ((#[trigger] seen@[s]) <==> exists|j: int|
                        0 <= j < i && (#[trigger] appends@[j]).0 == s),
                self.first_append_error(appends@, i as int) is None,
            decreases appends@.len() - i,
        {
            let (slot, start, end) = appends[i];
            let ghost before = i as int;
            proof {
                if self.append_error(appends@, before) is Some {
                    assert(self.first_append_error(appends@, before + 1) is Some);
                    self.lemma_append_error_stays(appends@, before + 1, appends@.len() as int);
                }
            }
            if slot >= self.slots || seen[slot] {
                return Err(Error::AppendSlot);
            }
            match self.ensure_idle(slot) {
                Err(e) => {
                    return Err(e);
                },
                Ok(_) => {},
            }
            seen[slot] = true;
            if !(start == self.rows[slot] && start <= end && end <= MAX_ROWS
                && self.pages[slot].len() == pages_for_rows(start)) {
                return Err(Error::AppendBinding);
            }
            i = i + 1;
            proof {
                assert forall|s: int| 0 <= s < MAX_SLOTS implies ((#[trigger] seen@[s])
                    <==> exists|j: int| 0 <= j < i && (#[trigger] appends@[j]).0 == s) by {
                    if s == slot {
                        assert(appends@[before].0 == s);
                    }
                }
            }
        }
        Ok(())
    }

    /// The second pass of a reservation: pages for every participant, taken from
    /// the end of the free list without changing it.
    fn claim_pages(&self, appends: &[Append]) -> (r: Result<(Vec<PlannedAppend>, usize), Error>)
        requires
            self.inv(),
            self.first_append_error(appends@, appends@.len() as int) is None,
        ensures
            match r {
                Ok((plan, used)) => {
                    let view = Seq::new(plan@.len(), |i: int| plan@[i]@);
                    &&& self.plan_appends(appends@, appends@.len() as int) == Ok::<
                        Seq<AppendView>,
                        Error,
                    >(view)
                    &&& used == source_cache::fresh_pages(view).len()
                },
                Err(e) => self.plan_appends(appends@, appends@.len() as int) == Err::<
                    Seq<AppendView>,
                    Error,
                >(e),
            },
    {
        let mut plan: Vec<PlannedAppend> = Vec::new();
        let mut used: usize = 0;
        let mut i: usize = 0;
        proof {
            assert forall|k: int| 0 <= k < appends@.len() implies self.append_error(
                appends@,
                k,
            ) is None by {
                self.lemma_no_append_error(appends@, appends@.len() as int, k);
            }
            assert(Seq::new(plan@.len(), |k: int| plan@[k]@) =~= Seq::<AppendView>::empty());
        }
        while i < appends.len()
            invariant
                i <= appends@.len(),
                plan@.len() == i,
                self.inv(),
                forall|k: int| 0 <= k < appends@.len() ==> self.append_error(appends@, k) is None,
                self.plan_appends(appends@, i as int) == Ok::<Seq<AppendView>, Error>(
                    Seq::new(plan@.len(), |k: int| plan@[k]@),
                ),
                used == source_cache::fresh_pages(Seq::new(plan@.len(), |k: int| plan@[k]@)).len(),
                used <= self.pool.free@.len(),
            decreases appends@.len() - i,
        {
            let (slot, start, end) = appends[i];
            let ghost view = Seq::new(plan@.len(), |k: int| plan@[k]@);
            let ghost tables = self.tables();
            proof {
                assert(self.append_error(appends@, i as int) is None);
                assert(tables[slot as int] == self.pages@[slot as int]@);
                if self.plan_append(appends@, i as int, used as int) is Err {
                    assert(self.plan_appends(appends@, i + 1) is Err);
                    self.lemma_plan_error_stays(appends@, i + 1, appends@.len() as int);
                }
            }
            let free_len: usize = self.pool.free.len();
            let ghost used_before = used as int;
            let mut replacement: Option<(u32, u32)> = None;
            if end > start && start % PAGE_ROWS != 0 {
                let source = self.pages[slot][start / PAGE_ROWS];
                proof {
                    assert(self.pool.in_range(self.pages@[slot as int]@));
                    assert(source == source_cache::tail_page(tables, slot as int, start as int));
                }
                if self.pool.shared(source) {
                    let (count, last) = self.tail_writers(appends, source);
                    proof {
                        assert(writes_page(tables, appends@[i as int], source));
                        assert(i <= last);
                    }
                    if count != self.pool.references(source) || i != last {
                        proof {
                            assert(self.copies_tail(appends@, i as int)) by {
                                if i != last {
                                    lemma_writers_some(tables, appends@, i as int, source);
                                    assert(writes_page(tables, appends@[last as int], source));
                                }
                            }
                        }
                        if used >= free_len {
                            return Err(
                                Error::PoolExhausted(
                                    SourcePoolExhausted {
                                        work_index: i,
                                        needed: 1,
                                        available: free_len - used,
                                    },
                                ),
                            );
                        }
                        replacement = Some((source, self.pool.free[free_len - used - 1]));
                        used = used + 1;
                    }
                }
            }
            assert(replacement is Some == self.copies_tail(appends@, i as int));
            let extra: usize = pages_for_rows(end) - self.pages[slot].len();
            if extra > free_len - used {
                return Err(
                    Error::PoolExhausted(
                        SourcePoolExhausted {
                            work_index: i,
                            needed: extra,
                            available: free_len - used,
                        },
                    ),
                );
            }
            let rest: usize = free_len - used;
            let mut additions: Vec<u32> = Vec::new();
            let mut k: usize = 0;
            while k < extra
                invariant
                    k <= extra <= rest <= self.pool.free@.len(),
                    additions@ == Seq::new(k as nat, |x: int| self.pool.free@[rest - 1 - x]),
                decreases extra - k,
            {
                additions.push(self.pool.free[rest - 1 - k]);
                k = k + 1;
            }
            used = used + extra;
            plan.push(PlannedAppend { slot, start, end, replacement, additions });
            i = i + 1;
            proof {
                let added = plan@[i - 1]@;
                let after = Seq::new(plan@.len(), |x: int| plan@[x]@);
                assert(after =~= view.push(added));
                assert(after.drop_last() =~= view);
                assert(self.plan_append(appends@, i - 1, used_before) == Ok::<AppendView, Error>(
                    added,
                )) by {
                    let expected = self.plan_append(appends@, i - 1, used_before)->Ok_0;
                    assert(expected.additions =~= added.additions);
                    assert(expected =~= added);
                }
            }
        }
        Ok((plan, used))
    }
}

proof fn lemma_writers_some(tables: Seq<Seq<u32>>, appends: Seq<Append>, i: int, page: u32)
    requires
        0 <= i < appends.len(),
        writes_page(tables, appends[i], page),
    ensures
        writers(tables, appends, page) > 0,
    decreases appends.len(),
{
    if i < appends.len() - 1 {
        assert(appends.drop_last()[i] == appends[i]);
        lemma_writers_some(tables, appends.drop_last(), i, page);
    }
}

impl SourceCache {
    /// Atomically claims the append slots and free pages after validating every
    /// participant. Disjoint plans may coexist and apply in either order.
    pub fn reserve(&mut self, appends: &[Append]) -> (r: Result<IndexPlan, Error>)
        requires
            old(self).inv(),
        ensures
            final(self).inv(),
            match r {
                Err(e) => {
                    &&& *final(self) == *old(self)
                    &&& old(self).planned(appends@) == Err::<Seq<AppendView>, Error>(e)
                },
                Ok(plan) => {
                    &&& old(self).planned(appends@) == Ok::<Seq<AppendView>, Error>(plan@)
                    &&& final(self).in_flight(&plan)
                    &&& final(self).same_shape(old(self))
                    &&& final(self).pages@ == old(self).pages@
                    &&& final(self).rows@ == old(self).rows@
                    &&& final(self).pool.references@ == old(self).pool.references@
                    &&& final(self).pool.generations@ == old(self).pool.generations@
                    &&& old(self).pool.free@ == final(self).pool.free@ + plan.pages@
                    &&& !old(self).plans@.contains_key(plan.ticket@)
                    &&& final(self).plans@ == old(self).plans@.insert(plan.ticket@, plan@)
                },
            },
    {
        match self.check_appends(appends) {
            Err(e) => {
                return Err(e);
            },
            Ok(_) => {},
        }
        let (planned, used) = match self.claim_pages(appends) {
            Err(e) => {
                return Err(e);
            },
            Ok(claimed) => claimed,
        };
        let ghost view = Seq::new(planned@.len(), |i: int| planned@[i]@);
        let ghost ticket = self.next_ticket@;
        let ghost fresh = source_cache::fresh_pages(view);
        let ghost free = self.pool.free@;
        proof {
            self.lemma_plan_fits(appends@, view);
            assert forall|k: int| 0 <= k < planned@.len() implies (
            #[trigger] planned@[k]).slot < MAX_SLOTS && !self.writing@[planned@[k].slot as int] by {
                assert(view[k].slot == planned@[k].slot);
                self.lemma_no_append_error(appends@, appends@.len() as int, k);
            }
        }
        let keep: usize = self.pool.free.len() - used;
        let pages = self.pool.free.split_off(keep);
        let mut i: usize = 0;
        while i < planned.len()
            invariant
                i <= planned@.len(),
                self.writing@.len() == MAX_SLOTS,
                old(self).writing@.len() == MAX_SLOTS,
                forall|k: int| 0 <= k < planned@.len() ==> (#[trigger] planned@[k]).slot < MAX_SLOTS,
                forall|s: int|
                    0 <= s < MAX_SLOTS ==> ((#[trigger] self.writing@[s]) <==> old(self).writing@[s] || exists|k: int|
                        0 <= k < i && (#[trigger] planned@[k]).slot == s),
                *self == (SourceCache { writing: self.writing, pool: self.pool, ..*old(self) }),
                self.pool == (PagePool { free: self.pool.free, ..old(self).pool }),
                self.pool.free@ == free.take(keep as int),
            decreases planned@.len() - i,
        {
            let slot: usize = planned[i].slot;
            let ghost before = self.writing@;
            self.writing[slot] = true;
            i = i + 1;
            proof {
                assert forall|s: int| 0 <= s < MAX_SLOTS implies ((#[trigger] self.writing@[s])
                    <==> old(self).writing@[s] || exists|k: int|
                    0 <= k < i && (#[trigger] planned@[k]).slot == s) by {
                    if s == slot {
                        assert(planned@[i - 1].slot == s);
                    }
                }
            }
        }
        self.plans = Ghost(self.plans@.insert(ticket, view));
        self.next_ticket = Ghost(ticket + 1);
        let plan = IndexPlan { appends: planned, pool: self.identity, pages, ticket: Ghost(ticket) };
        proof {
            assert(plan@ =~= view);
            assert(pages@ == fresh.reverse());
            assert(self.tables() =~= old(self).tables());
            assert(free =~= self.pool.free@ + pages@);
            assert forall|p: u32| fresh.contains(p) <==> pages@.contains(p) by {
                if fresh.contains(p) {
                    let k = choose|k: int| 0 <= k < fresh.len() && fresh[k] == p;
                    assert(pages@[fresh.len() - 1 - k] == p);
                }
                if pages@.contains(p) {
                    let k = choose|k: int| 0 <= k < pages@.len() && pages@[k] == p;
                    assert(fresh[fresh.len() - 1 - k] == p);
                }
            }
            assert forall|p: u32| #[trigger] fresh.contains(p) implies p
                < self.pool.references@.len() && self.pool.references@[p as int] == 0
                && !self.pool.free@.contains(p) && free.contains(p) by {
                let k = choose|k: int| 0 <= k < pages@.len() && pages@[k] == p;
                assert(free[keep + k] == p);
            }
            assert forall|k: int| 0 <= k < fresh.len() implies (#[trigger] fresh[k])
                < self.pool.references@.len() by {
                assert(fresh.contains(fresh[k]));
            }
            assert(self.pool.wf());
            assert forall|s: int| 0 <= s < MAX_SLOTS implies ((#[trigger] self.writing@[s]) <==> old(self).writing@[s] || exists|k: int| 0 <= k < view.len() && (#[trigger] view[k]).slot == s) by {
                if exists|k: int| 0 <= k < planned@.len() && (#[trigger] planned@[k]).slot == s {
                    let k = choose|k: int|
                        0 <= k < planned@.len() && (#[trigger] planned@[k]).slot == s;
                    assert(view[k].slot == s);
                }
                if exists|k: int| 0 <= k < view.len() && (#[trigger] view[k]).slot == s {
                    let k = choose|k: int| 0 <= k < view.len() && (#[trigger] view[k]).slot == s;
                    assert(planned@[k].slot == s);
                }
            }
            self.lemma_reserved_plans(old(self), ticket, view);
            assert forall|p: u32|
                #![trigger self.pool.references@[p as int]]
                p < self.pool.references@.len() implies self.accounted(p) by {
                assert(old(self).accounted(p));
                if old(self).pool.free@.contains(p) && !self.pool.free@.contains(p) {
                    let k = choose|k: int| 0 <= k < free.len() && free[k] == p;
                    if k < keep {
                        assert(self.pool.free@[k] == p);
                    }
                    assert(pages@[k - keep] == p);
                    assert(self.plans@.contains_key(ticket));
                } else if old(self).pool.references@[p as int] == 0 && !old(self).pool.free@.contains(p) {
                    let t = choose|t: int| #[trigger]
                        old(self).plans@.contains_key(t) && source_cache::fresh_pages(
                            old(self).plans@[t],
                        ).contains(p);
                    assert(self.plans@.contains_key(t));
                    assert(self.plans@[t] == old(self).plans@[t]);
                }
            }
            assert forall|s: int| 0 <= s < MAX_SLOTS implies {
                &&& (#[trigger] self.pages@[s])@.no_duplicates()
                &&& self.pool.in_range(self.pages@[s]@)
                &&& self.pages@[s]@.len() <= self.stride
                &&& self.rows@[s] <= self.pages@[s]@.len() * 256
                &&& s >= self.slots ==> self.pages@[s]@.len() == 0 && !self.writing@[s]
            } by {
                assert(old(self).pages@[s]@.no_duplicates());
                if s >= self.slots && self.writing@[s] {
                    let k = choose|k: int| 0 <= k < planned@.len() && (#[trigger] planned@[k]).slot == s;
                    assert(view[k].slot == s);
                }
            }
        }
        Ok(plan)
    }

    /// Adding a fitting transaction keeps the bookkeeping of all of them.
    proof fn lemma_reserved_plans(&self, before: &Self, ticket: int, plan: Seq<AppendView>)
        requires
            before.inv(),
            ticket == before.next_ticket@,
            self.next_ticket@ == ticket + 1,
            self.plans@ == before.plans@.insert(ticket, plan),
            self.tables() == before.tables(),
            self.rows@ == before.rows@,
            self.slots == before.slots,
            self.pool.references@ == before.pool.references@,
            forall|p: u32| self.pool.free@.contains(p) ==> #[trigger] before.pool.free@.contains(p),
            self.writing@.len() == MAX_SLOTS,
            forall|s: int|
                0 <= s < MAX_SLOTS ==> ((#[trigger] self.writing@[s]) <==> before.writing@[s]
                    || exists|k: int| 0 <= k < plan.len() && (#[trigger] plan[k]).slot == s),
            forall|k: int|
                0 <= k < plan.len() ==> 0 <= (#[trigger] plan[k]).slot < MAX_SLOTS
                    && !before.writing@[plan[k].slot],
            source_cache::plan_fits(self.tables(), self.rows@, self.pool.references@, self.slots as int, plan),
            forall|p: u32| #[trigger]
                source_cache::fresh_pages(plan).contains(p) ==> p < self.pool.references@.len()
                    && self.pool.references@[p as int] == 0 && !self.pool.free@.contains(p)
                    && before.pool.free@.contains(p),
        ensures
            self.plans_wf(),
    {
        assert(!before.plans@.contains_key(ticket));
        assert forall|t: int| #[trigger] self.plans@.contains_key(t) implies {
            &&& t < self.next_ticket@
            &&& source_cache::plan_fits(
                self.tables(),
                self.rows@,
                self.pool.references@,
                self.slots as int,
                self.plans@[t],
            )
            &&& self.pool.in_range(source_cache::fresh_pages(self.plans@[t]))
            &&& forall|p: u32|
                #![trigger source_cache::fresh_pages(self.plans@[t]).contains(p)]
                source_cache::fresh_pages(self.plans@[t]).contains(p) ==> self.pool.references@[p as int] == 0
                    && !self.pool.free@.contains(p)
        } by {
            if t == ticket {
                let fresh = source_cache::fresh_pages(plan);
                assert forall|k: int| 0 <= k < fresh.len() implies (#[trigger] fresh[k])
                    < self.pool.references@.len() by {
                    assert(fresh.contains(fresh[k]));
                }
            } else {
                assert(before.plans@.contains_key(t));
                assert(self.plans@[t] == before.plans@[t]);
                assert forall|p: u32|
                    #![trigger source_cache::fresh_pages(self.plans@[t]).contains(p)]
                    source_cache::fresh_pages(self.plans@[t]).contains(p) implies self.pool.references@[p as int]
                    == 0 && !self.pool.free@.contains(p) by {
                    assert(source_cache::fresh_pages(before.plans@[t]).contains(p));
                    assert(!before.pool.free@.contains(p));
                }
            }
        }
        assert forall|t: int, u: int, p: u32|
            #![trigger source_cache::fresh_pages(self.plans@[t]).contains(p), source_cache::fresh_pages(self.plans@[u]).contains(p)]
            self.plans@.contains_key(t) && self.plans@.contains_key(u) && t != u && source_cache::fresh_pages(
                self.plans@[t],
            ).contains(p) implies !source_cache::fresh_pages(self.plans@[u]).contains(p) by {
            if t == ticket {
                assert(before.plans@.contains_key(u));
                assert(self.plans@[u] == before.plans@[u]);
                assert(before.pool.free@.contains(p));
            } else {
                assert(before.plans@.contains_key(t));
                assert(self.plans@[t] == before.plans@[t]);
                if u == ticket {
                    if source_cache::fresh_pages(plan).contains(p) {
                        assert(before.pool.free@.contains(p));
                    }
                } else {
                    assert(before.plans@.contains_key(u));
                    assert(self.plans@[u] == before.plans@[u]);
                    assert(source_cache::fresh_pages(before.plans@[t]).contains(p));
                    if source_cache::fresh_pages(before.plans@[u]).contains(p) {
                    }
                }
            }
        }
        assert forall|t: int, i: int|
            #![trigger before.plans@[t][i]]
            before.plans@.contains_key(t) && 0 <= i < before.plans@[t].len() implies 0
            <= before.plans@[t][i].slot < MAX_SLOTS && before.writing@[before.plans@[t][i].slot] by {
            assert(source_cache::plan_fits(
                before.tables(),
                before.rows@,
                before.pool.references@,
                before.slots as int,
                before.plans@[t],
            ));
            let s = before.plans@[t][i].slot;
            assert(before.appended(s));
            assert(before.writing@[s]);
        }
        assert forall|t: int, u: int, i: int, j: int|
            #![trigger self.plans@[t][i], self.plans@[u][j]]
            self.plans@.contains_key(t) && self.plans@.contains_key(u) && t != u && 0 <= i
                < self.plans@[t].len() && 0 <= j < self.plans@[u].len() implies self.plans@[t][i].slot
            != self.plans@[u][j].slot by {
            if t != ticket {
                assert(before.plans@.contains_key(t));
                assert(self.plans@[t][i] == before.plans@[t][i]);
            } else {
                assert(self.plans@[t][i] == plan[i]);
            }
            if u != ticket {
                assert(before.plans@.contains_key(u));
                assert(self.plans@[u][j] == before.plans@[u][j]);
            } else {
                assert(self.plans@[u][j] == plan[j]);
            }
        }
        assert forall|s: int| 0 <= s < MAX_SLOTS implies ((#[trigger] self.writing@[s])
            <==> self.appended(s)) by {
            if before.writing@[s] {
                assert(before.appended(s));
                let (t, i) = choose|t: int, i: int|
                    #![trigger before.plans@[t][i]]
                    before.plans@.contains_key(t) && 0 <= i < before.plans@[t].len()
                        && before.plans@[t][i].slot == s;
                assert(self.plans@.contains_key(t));
                assert(self.plans@[t][i].slot == s);
            }
            if exists|k: int| 0 <= k < plan.len() && (#[trigger] plan[k]).slot == s {
                let k = choose|k: int| 0 <= k < plan.len() && (#[trigger] plan[k]).slot == s;
                assert(self.plans@.contains_key(ticket));
                assert(self.plans@[ticket][k].slot == s);
            }
            if self.appended(s) {
                let (t, i) = choose|t: int, i: int|
                    #![trigger self.plans@[t][i]]
                    self.plans@.contains_key(t) && 0 <= i < self.plans@[t].len()
                        && self.plans@[t][i].slot == s;
                if t == ticket {
                    assert(plan[i].slot == s);
                } else {
                    assert(before.plans@.contains_key(t));
                    assert(before.plans@[t][i].slot == s);
                }
            }
        }
    }
}

} // verus!
