//! Paged compressed history owned by request slots. Pages are shared between
//! requests and retained prefixes; an append transaction copies a shared tail
//! page before any new row is written.
use crate::error::Error;
use crate::page_pool::PagePool;
use crate::source_cache::replica::SourceReplica;
use crate::tally;
use vstd::prelude::*;

pub mod apply;
pub mod copying;
pub mod generations;
pub mod laws;
pub mod layout;
pub mod memory;
pub mod mirroring;
pub mod replica;
pub mod reserve;
pub mod retained;
pub mod uploading;

verus! {

pub const PAGE_ROWS: usize = 256;

pub const MAX_SLOTS: usize = 16;

/// Longest history of one slot, in compressed rows.
pub const MAX_ROWS: usize = 1048576;

/// Pages that hold `rows` rows.
pub open spec fn page_count(rows: int) -> int {
    (rows + 255) / 256
}

pub fn pages_for_rows(rows: usize) -> (r: usize)
    ensures
        r == page_count(rows as int),
{
    rows / PAGE_ROWS + if rows % PAGE_ROWS == 0 {
        0
    } else {
        1
    }
}

/// One requested append: slot, committed rows, rows after the append.
pub type Append = (usize, usize, usize);

/// One append of a transaction with the pages that it claims.
pub struct PlannedAppend {
    pub slot: usize,
    pub start: usize,
    pub end: usize,
    /// Shared partial tail and the private page that takes its place.
    pub replacement: Option<(u32, u32)>,
    pub additions: Vec<u32>,
}

/// What a planned append means.
#[verifier::ext_equal]
pub struct AppendView {
    pub slot: int,
    pub start: int,
    pub end: int,
    pub replacement: Option<(u32, u32)>,
    pub additions: Seq<u32>,
}

impl View for PlannedAppend {
    type V = AppendView;

    open spec fn view(&self) -> AppendView {
        AppendView {
            slot: self.slot as int,
            start: self.start as int,
            end: self.end as int,
            replacement: self.replacement,
            additions: self.additions@,
        }
    }
}

/// The private page that takes a shared tail's place, if one does.
pub open spec fn gained_page(replacement: Option<(u32, u32)>) -> Seq<u32> {
    match replacement {
        Some(pair) => seq![pair.1],
        None => Seq::empty(),
    }
}

/// The shared tail that is left behind, if one is.
pub open spec fn lost_page(replacement: Option<(u32, u32)>) -> Seq<u32> {
    match replacement {
        Some(pair) => seq![pair.0],
        None => Seq::empty(),
    }
}

impl AppendView {
    /// Pages claimed by this append, in the order in which they were taken.
    pub open spec fn fresh(self) -> Seq<u32> {
        gained_page(self.replacement) + self.additions
    }

    /// New rows go into a page that already holds rows.
    pub open spec fn extends_tail(self) -> bool {
        self.end > self.start && self.start % 256 != 0
    }

    pub open spec fn tail(self) -> int {
        self.start / 256
    }
}

/// Pages claimed by a whole transaction, in the order in which they were taken.
pub open spec fn fresh_pages(plan: Seq<AppendView>) -> Seq<u32>
    decreases plan.len(),
{
    if plan.len() == 0 {
        Seq::empty()
    } else {
        fresh_pages(plan.drop_last()) + plan.last().fresh()
    }
}

/// A reserved append transaction.
pub struct IndexPlan {
    pub appends: Vec<PlannedAppend>,
    /// Identity of the pool that the pages come from.
    pub pool: u64,
    /// The claimed pages in free-list order.
    pub pages: Vec<u32>,
    pub ticket: Ghost<int>,
}

impl View for IndexPlan {
    type V = Seq<AppendView>;

    open spec fn view(&self) -> Seq<AppendView> {
        Seq::new(self.appends@.len(), |i: int| self.appends@[i]@)
    }
}

/// A retained run of rows that owns one reference on each of its pages.
pub struct SourcePrefix {
    pub pool: u64,
    pub pages: Vec<u32>,
    pub rows: usize,
}

impl SourcePrefix {
    pub open spec fn wf(&self) -> bool {
        &&& self.pages@.no_duplicates()
        &&& self.rows <= self.pages@.len() * 256
    }

    pub fn pages(&self) -> (r: &[u32])
        ensures
            r@ == self.pages@,
    {
        self.pages.as_slice()
    }

    pub fn rows(&self) -> (r: usize)
        ensures
            r == self.rows,
    {
        self.rows
    }
}

pub struct SourceCache {
    /// Identity of this cache's page pool.
    pub identity: u64,
    pub slots: usize,
    pub stride: usize,
    pub capacity: usize,
    pub pages: Vec<Vec<u32>>,
    pub rows: Vec<usize>,
    pub pool: PagePool,
    pub writing: Vec<bool>,
    /// A peer device's copy of the serving values.
    pub replica: Option<SourceReplica>,
    pub plans: Ghost<Map<int, Seq<AppendView>>>,
    pub next_ticket: Ghost<int>,
}

/// Row `start` of `slot` lies in the page that `tables` names.
pub open spec fn tail_page(tables: Seq<Seq<u32>>, slot: int, start: int) -> u32 {
    tables[slot][start / 256]
}

/// The table entry `logical` of `slot` is moved to a private page by `plan`.
pub open spec fn moved(plan: Seq<AppendView>, slot: int, logical: int) -> bool {
    exists|j: int|
        0 <= j < plan.len() && (#[trigger] plan[j]).slot == slot && plan[j].replacement is Some
            && plan[j].tail() == logical
}

/// Every other owner of append `i`'s tail page moves away in the same plan.
pub open spec fn tail_is_private(
    tables: Seq<Seq<u32>>,
    references: Seq<usize>,
    plan: Seq<AppendView>,
    i: int,
) -> bool {
    let page = tail_page(tables, plan[i].slot, plan[i].start);
    &&& references[page as int] == tally::total(tables, page)
    &&& forall|s: int, l: int|
        0 <= s < tables.len() && 0 <= l < tables[s].len() && s != plan[i].slot
            && #[trigger] tables[s][l] == page ==> moved(plan, s, l)
}

/// A reserved transaction fits the state that it was planned on.
pub open spec fn plan_fits(
    tables: Seq<Seq<u32>>,
    rows: Seq<usize>,
    references: Seq<usize>,
    slots: int,
    plan: Seq<AppendView>,
) -> bool {
    &&& forall|i: int|
        0 <= i < plan.len() ==> {
            let a = #[trigger] plan[i];
            &&& 0 <= a.slot < slots
            &&& a.start == rows[a.slot]
            &&& a.start <= a.end <= MAX_ROWS
            &&& tables[a.slot].len() == page_count(a.start)
            &&& a.additions.len() == page_count(a.end) - page_count(a.start)
            &&& a.replacement matches Some(pair) ==> a.extends_tail() && pair.0 == tail_page(
                tables,
                a.slot,
                a.start,
            )
            &&& a.extends_tail() && a.replacement is None ==> tail_is_private(
                tables,
                references,
                plan,
                i,
            )
        }
    &&& forall|i: int, j: int|
        0 <= i < j < plan.len() ==> (#[trigger] plan[i]).slot != (#[trigger] plan[j]).slot
    &&& fresh_pages(plan).no_duplicates()
}

impl SourceCache {
    pub open spec fn tables(&self) -> Seq<Seq<u32>> {
        Seq::new(self.pages@.len(), |s: int| self.pages@[s]@)
    }

    /// References on `page` that belong to retained prefixes.
    pub open spec fn retained(&self, page: u32) -> int {
        self.pool.references@[page as int] - tally::total(self.tables(), page)
    }

    pub open spec fn in_flight(&self, plan: &IndexPlan) -> bool {
        &&& plan.pool == self.identity
        &&& self.plans@.contains_key(plan.ticket@)
        &&& self.plans@[plan.ticket@] == plan@
        &&& plan.pages@ == fresh_pages(plan@).reverse()
    }

    /// The retained references cover `prefix`.
    pub open spec fn holds(&self, prefix: &SourcePrefix) -> bool {
        &&& prefix.wf()
        &&& self.pool.in_range(prefix.pages@)
        &&& forall|i: int|
            0 <= i < prefix.pages@.len() ==> self.retained(#[trigger] prefix.pages@[i]) > 0
    }

    pub open spec fn tables_wf(&self) -> bool {
        &&& self.pages@.len() == MAX_SLOTS
        &&& self.rows@.len() == MAX_SLOTS
        &&& self.writing@.len() == MAX_SLOTS
        &&& forall|s: int|
            0 <= s < MAX_SLOTS ==> {
                &&& (#[trigger] self.pages@[s])@.no_duplicates()
                &&& self.pool.in_range(self.pages@[s]@)
                &&& self.pages@[s]@.len() <= self.stride
                &&& self.rows@[s] <= self.pages@[s]@.len() * 256
                &&& s >= self.slots ==> self.pages@[s]@.len() == 0 && !self.writing@[s]
            }
    }

    pub open spec fn plans_wf(&self) -> bool {
        &&& forall|t: int| #[trigger]
            self.plans@.contains_key(t) ==> {
                &&& t < self.next_ticket@
                &&& plan_fits(
                    self.tables(),
                    self.rows@,
                    self.pool.references@,
                    self.slots as int,
                    self.plans@[t],
                )
                &&& self.pool.in_range(fresh_pages(self.plans@[t]))
                &&& forall|p: u32|
                    #![trigger fresh_pages(self.plans@[t]).contains(p)]
                    fresh_pages(self.plans@[t]).contains(p) ==> self.pool.references@[p as int] == 0
                        && !self.pool.free@.contains(p)
            }
        &&& forall|t: int, u: int, p: u32|
            #![trigger fresh_pages(self.plans@[t]).contains(p), fresh_pages(self.plans@[u]).contains(p)]
            self.plans@.contains_key(t) && self.plans@.contains_key(u) && t != u && fresh_pages(
                self.plans@[t],
            ).contains(p) ==> !fresh_pages(self.plans@[u]).contains(p)
        &&& forall|t: int, u: int, i: int, j: int|
            #![trigger self.plans@[t][i], self.plans@[u][j]]
            self.plans@.contains_key(t) && self.plans@.contains_key(u) && t != u && 0 <= i
                < self.plans@[t].len() && 0 <= j < self.plans@[u].len() ==> self.plans@[t][i].slot
                != self.plans@[u][j].slot
        &&& forall|s: int|
            0 <= s < MAX_SLOTS ==> ((#[trigger] self.writing@[s]) <==> self.appended(s))
    }

    /// `slot` takes part in a reserved transaction.
    pub open spec fn appended(&self, slot: int) -> bool {
        exists|t: int, i: int|
            #![trigger self.plans@[t][i]]
            self.plans@.contains_key(t) && 0 <= i < self.plans@[t].len() && self.plans@[t][i].slot
                == slot
    }

    /// Everything but the page bookkeeping is as in `before`.
    pub open spec fn same_shape(&self, before: &Self) -> bool {
        &&& self.identity == before.identity
        &&& self.slots == before.slots
        &&& self.stride == before.stride
        &&& self.capacity == before.capacity
        &&& self.replica == before.replica
    }

    /// A page without an owner is free or claimed by a transaction.
    pub open spec fn accounted(&self, page: u32) -> bool {
        ||| self.pool.references@[page as int] > 0
        ||| self.pool.free@.contains(page)
        ||| exists|t: int| #[trigger]
            self.plans@.contains_key(t) && fresh_pages(self.plans@[t]).contains(page)
    }

    pub open spec fn inv(&self) -> bool {
        &&& 1 <= self.slots <= MAX_SLOTS
        &&& 1 <= self.pool.references@.len() <= 262144
        &&& self.stride == if self.pool.references@.len() <= 4096 {
            self.pool.references@.len() as int
        } else {
            4096
        }
        &&& self.capacity == self.pool.references@.len() * 256
        &&& self.pool.wf()
        &&& self.tables_wf()
        &&& forall|p: u32|
            p < self.pool.references@.len() ==> tally::total(self.tables(), p) <= (
            #[trigger] self.pool.references@[p as int])
        &&& forall|p: u32|
            #![trigger self.pool.references@[p as int]]
            p < self.pool.references@.len() ==> self.accounted(p)
        &&& self.plans_wf()
        &&& self.replica matches Some(replica) ==> replica.pool == self.identity && replica.wf(self)
    }
}

impl SourceCache {
    /// No page has been handed out and nothing is under way.
    pub open spec fn untouched(&self) -> bool {
        let pages = self.pool.references@.len();
        &&& self.pool.free@ == Seq::new(pages, |i: int| (pages - 1 - i) as u32)
        &&& self.pool.references@ == Seq::new(pages, |i: int| 0usize)
        &&& self.pool.generations@ == Seq::new(pages, |i: int| 0u32)
        &&& forall|s: int|
            0 <= s < MAX_SLOTS ==> (#[trigger] self.pages@[s])@.len() == 0 && self.rows@[s] == 0
                && !self.writing@[s]
        &&& self.plans@ == Map::<int, Seq<AppendView>>::empty()
    }
}

/// Device bytes of a paged cache with `row_bytes` bytes per row, or the reason
/// for which no such cache exists.
pub open spec fn pool_bytes(pages: int, slots: int, row_bytes: int) -> Result<int, Error> {
    if !(1 <= pages <= 262144) {
        Err(Error::InvalidPageCount)
    } else if !(1 <= slots <= 16) {
        Err(Error::InvalidSlotCount)
    } else {
        let bytes = pages * 256 * row_bytes + slots * ((if pages <= 4096 {
            pages
        } else {
            4096
        }) * 4 + 8);
        if bytes <= usize::MAX {
            Ok(bytes)
        } else {
            Err(Error::BudgetOverflow)
        }
    }
}

pub proof fn lemma_pool_bytes_positive(pages: int, slots: int, row_bytes: int)
    requires
        0 <= row_bytes,
    ensures
        pool_bytes(pages, slots, row_bytes) matches Ok(bytes) ==> bytes >= 0,
{
    if 1 <= pages && 1 <= slots {
        let stride = if pages <= 4096 {
            pages
        } else {
            4096
        };
        assert(pages * 256 * row_bytes >= 0 && slots * (stride * 4 + 8) >= 0) by (nonlinear_arith)
            requires
                1 <= pages,
                1 <= slots,
                1 <= stride,
                0 <= row_bytes,
        ;
    }
}

/// The machine value `actual` is what the model value `expected` says.
pub open spec fn same_count(actual: Result<usize, Error>, expected: Result<int, Error>) -> bool {
    match (actual, expected) {
        (Ok(a), Ok(b)) => a == b,
        (Err(a), Err(b)) => a == b,
        _ => false,
    }
}

pub fn pool_device_bytes(pages: usize, slots: usize, row_bytes: usize) -> (r: Result<usize, Error>)
    requires
        row_bytes <= 1024,
    ensures
        same_count(r, pool_bytes(pages as int, slots as int, row_bytes as int)),
{
    if pages < 1 || pages > 262144 {
        return Err(Error::InvalidPageCount);
    }
    if slots < 1 || slots > MAX_SLOTS {
        return Err(Error::InvalidSlotCount);
    }
    let stride: usize = if pages <= 4096 {
        pages
    } else {
        4096
    };
    proof {
        assert(slots * (stride * 4 + 8) <= 16 * (4096 * 4 + 8)) by (nonlinear_arith)
            requires
                slots <= 16,
                stride <= 4096,
        ;
    }
    let tables: usize = slots * (stride * 4 + 8);
    match (pages * PAGE_ROWS).checked_mul(row_bytes) {
        None => Err(Error::BudgetOverflow),
        Some(rows) => match rows.checked_add(tables) {
            None => Err(Error::BudgetOverflow),
            Some(bytes) => Ok(bytes),
        },
    }
}

impl SourceCache {
    /// Bytes of one row: packed index, index scale, values and value scales.
    pub const ROW_BYTES: usize = 356;

    pub fn device_bytes(pages: usize, slots: usize) -> (r: Result<usize, Error>)
        ensures
            same_count(r, pool_bytes(pages as int, slots as int, 356)),
    {
        pool_device_bytes(pages, slots, Self::ROW_BYTES)
    }

    /// An empty cache whose page pool is known as `identity`.
    pub fn new(identity: u64, pages: usize, slots: usize) -> (r: Result<Self, Error>)
        ensures
            match r {
                Err(e) => pool_bytes(pages as int, slots as int, 356) == Err::<int, Error>(e),
                Ok(c) => {
                    &&& pool_bytes(pages as int, slots as int, 356) is Ok
                    &&& c.inv()
                    &&& c.identity == identity
                    &&& c.slots == slots
                    &&& c.capacity == pages * 256
                    &&& c.pool.free@ == Seq::new(pages as nat, |i: int| (pages - 1 - i) as u32)
                    &&& c.pool.references@ == Seq::new(pages as nat, |i: int| 0usize)
                    &&& c.pool.generations@ == Seq::new(pages as nat, |i: int| 0u32)
                    &&& forall|s: int|
                        0 <= s < MAX_SLOTS ==> (#[trigger] c.pages@[s])@.len() == 0 && c.rows@[s]
                            == 0 && !c.writing@[s]
                    &&& c.replica is None
                    &&& c.plans@ == Map::<int, Seq<AppendView>>::empty()
                },
            },
    {
        match Self::device_bytes(pages, slots) {
            Err(e) => {
                return Err(e);
            },
            Ok(_) => {},
        }
        let stride: usize = if pages <= 4096 {
            pages
        } else {
            4096
        };
        let mut tables: Vec<Vec<u32>> = Vec::new();
        let mut rows: Vec<usize> = Vec::new();
        let mut writing: Vec<bool> = Vec::new();
        let mut slot: usize = 0;
        while slot < MAX_SLOTS
            invariant
                slot <= MAX_SLOTS,
                tables@.len() == slot,
                rows@ == Seq::new(slot as nat, |i: int| 0usize),
                writing@ == Seq::new(slot as nat, |i: int| false),
                forall|s: int| 0 <= s < slot ==> (#[trigger] tables@[s])@.len() == 0,
            decreases MAX_SLOTS - slot,
        {
            tables.push(Vec::new());
            rows.push(0);
            writing.push(false);
            slot = slot + 1;
        }
        let pool = PagePool::new(pages);
        let cache = SourceCache {
            identity,
            slots,
            stride,
            capacity: pages * PAGE_ROWS,
            pages: tables,
            rows,
            pool,
            writing,
            replica: None,
            plans: Ghost(Map::empty()),
            next_ticket: Ghost(0),
        };
        proof {
            assert forall|p: u32| p < cache.pool.references@.len() implies tally::total(
                cache.tables(),
                p,
            ) <= (#[trigger] cache.pool.references@[p as int]) by {
                tally::lemma_total_absent(cache.tables(), p);
            }
            assert forall|p: u32|
                #![trigger cache.pool.references@[p as int]]
                p < cache.pool.references@.len() implies cache.accounted(p) by {
                assert(cache.pool.free@[pages - 1 - p] == p);
            }
        }
        Ok(cache)
    }

    pub fn ensure_idle(&self, slot: usize) -> (r: Result<(), Error>)
        requires
            self.inv(),
        ensures
            match r {
                Ok(_) => slot < self.slots && !self.writing@[slot as int],
                Err(e) => e == Error::PendingAppend && (slot >= self.slots
                    || self.writing@[slot as int]),
            },
    {
        if slot < self.slots && !self.writing[slot] {
            Ok(())
        } else {
            Err(Error::PendingAppend)
        }
    }

    /// Identity generation of `page`: changes whenever the page is freed and reused.
    pub fn page_generation(&self, page: u32) -> (r: u32)
        requires
            self.inv(),
            page < self.pool.references@.len(),
        ensures
            r == self.pool.generations@[page as int],
    {
        self.pool.generation(page)
    }
}

/// Every page of a transaction is claimed by one of its appends.
pub proof fn lemma_fresh_pages_contains(plan: Seq<AppendView>, page: u32)
    ensures
        fresh_pages(plan).contains(page) <==> exists|i: int|
            0 <= i < plan.len() && (#[trigger] plan[i]).fresh().contains(page),
    decreases plan.len(),
{
    if plan.len() > 0 {
        let init = plan.drop_last();
        let last = plan.last();
        lemma_fresh_pages_contains(init, page);
        let left = fresh_pages(init);
        let all = left + last.fresh();
        if left.contains(page) {
            let k = choose|k: int| 0 <= k < left.len() && left[k] == page;
            assert(all[k] == page);
            let i = choose|i: int| 0 <= i < init.len() && (#[trigger] init[i]).fresh().contains(page);
            assert(plan[i] == init[i]);
        }
        if last.fresh().contains(page) {
            let k = choose|k: int| 0 <= k < last.fresh().len() && last.fresh()[k] == page;
            assert(all[left.len() + k] == page);
            assert(plan[plan.len() - 1] == last);
        }
        if all.contains(page) {
            let k = choose|k: int| 0 <= k < all.len() && all[k] == page;
            if k < left.len() {
                assert(left[k] == page);
            } else {
                assert(last.fresh()[k - left.len()] == page);
            }
        }
        if exists|i: int| 0 <= i < plan.len() && (#[trigger] plan[i]).fresh().contains(page) {
            let i = choose|i: int| 0 <= i < plan.len() && (#[trigger] plan[i]).fresh().contains(page);
            if i < init.len() {
                assert(init[i] == plan[i]);
            }
        }
    }
}

/// As many pages as the rows need, and no more: the last one is needed.
pub proof fn law_pages_hold_their_rows(rows: int)
    requires
        0 <= rows,
    ensures
        rows <= 256 * page_count(rows),
        0 < rows ==> 256 * (page_count(rows) - 1) < rows,
        rows == 0 ==> page_count(rows) == 0,
{
}

} // verus!
