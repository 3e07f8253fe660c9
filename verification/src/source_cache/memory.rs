//! What the rows of a paged cache hold while transactions copy and write them.
use crate::source_cache;
use crate::source_cache::apply;
use crate::source_cache::{AppendView, SourceCache, SourcePrefix, MAX_SLOTS};
use crate::tally;
use vstd::prelude::*;

verus! {

/// Where the table entry for `row` places it in physical rows.
pub open spec fn physical_row(table: Seq<u32>, row: int) -> int {
    table[row / 256] * 256 + row % 256
}

/// Append `i` moves its tail to `page`.
pub open spec fn copies_to(plan: Seq<AppendView>, i: int, page: int) -> bool {
    0 <= i < plan.len() && match plan[i].replacement {
        Some(pair) => pair.1 == page,
        None => false,
    }
}

/// Physical rows after the shared tails have been copied.
pub open spec fn after_copies<V>(memory: spec_fn(int) -> V, plan: Seq<AppendView>) -> spec_fn(
    int,
) -> V {
    |x: int|
        if exists|i: int| #[trigger] copies_to(plan, i, x / 256) {
            let i = choose|i: int| #[trigger] copies_to(plan, i, x / 256);
            let (source, _) = plan[i].replacement->Some_0;
            memory(source * 256 + x % 256)
        } else {
            memory(x)
        }
}

/// Append `i` writes logical row `row` to physical row `x`.
pub open spec fn writes_row(
    after: Seq<Seq<u32>>,
    plan: Seq<AppendView>,
    i: int,
    row: int,
    x: int,
) -> bool {
    &&& 0 <= i < plan.len()
    &&& plan[i].start <= row < plan[i].end
    &&& physical_row(after[plan[i].slot], row) == x
}

/// Physical rows after every append has written `value(slot, row)` to its rows.
pub open spec fn after_writes<V>(
    memory: spec_fn(int) -> V,
    after: Seq<Seq<u32>>,
    plan: Seq<AppendView>,
    value: spec_fn(int, int) -> V,
) -> spec_fn(int) -> V {
    |x: int|
        if exists|i: int, row: int| #[trigger] writes_row(after, plan, i, row, x) {
            let (i, row) = choose|i: int, row: int| #[trigger] writes_row(after, plan, i, row, x);
            value(plan[i].slot, row)
        } else {
            memory(x)
        }
}

/// Physical rows once the transaction has been carried out.
pub open spec fn after_append<V>(
    memory: spec_fn(int) -> V,
    tables: Seq<Seq<u32>>,
    plan: Seq<AppendView>,
    value: spec_fn(int, int) -> V,
) -> spec_fn(int) -> V {
    after_writes(
        after_copies(memory, plan),
        apply::applied_tables(tables, plan, plan.len() as int),
        plan,
        value,
    )
}

impl SourceCache {
    /// A page without a claim on it keeps its rows through the tail copies.
    proof fn lemma_copies_spare<V>(&self, ticket: int, memory: spec_fn(int) -> V, page: u32, x: int)
        requires
            self.inv(),
            self.plans@.contains_key(ticket),
            page < self.pool.references@.len(),
            self.pool.references@[page as int] > 0,
            x / 256 == page,
        ensures
            after_copies(memory, self.plans@[ticket])(x) == memory(x),
    {
        let plan = self.plans@[ticket];
        if exists|i: int| #[trigger] copies_to(plan, i, x / 256) {
            let i = choose|i: int| #[trigger] copies_to(plan, i, x / 256);
            assert(plan[i].fresh()[0] == page);
            assert(plan[i].fresh().contains(page));
            self.lemma_fresh_untouched(ticket, i, page);
        }
    }

    /// A written physical row belongs to the table of the slot that wrote it.
    proof fn lemma_writer(&self, ticket: int, i: int, row: int, s: int, other: int)
        requires
            self.inv(),
            self.plans@.contains_key(ticket),
            ({
                let plan = self.plans@[ticket];
                let after = apply::applied_tables(self.tables(), plan, plan.len() as int);
                &&& 0 <= i < plan.len()
                &&& plan[i].start <= row < plan[i].end
                &&& 0 <= s < MAX_SLOTS
                &&& 0 <= other < after[s].len() * 256
                &&& physical_row(after[s], other) == physical_row(after[plan[i].slot], row)
            }),
        ensures
            s == self.plans@[ticket][i].slot,
            other == row,
    {
        let plan = self.plans@[ticket];
        let n = plan.len() as int;
        let after = apply::applied_tables(self.tables(), plan, n);
        let slot = plan[i].slot;
        assert(source_cache::plan_fits(
            self.tables(),
            self.rows@,
            self.pool.references@,
            self.slots as int,
            plan,
        ));
        self.lemma_private_page(ticket, i, row);
        let page = after[slot][row / 256];
        assert(after[s][other / 256] == page);
        assert(after[s].contains(page));
        assert(s == slot);
        apply::lemma_applied(self.tables(), self.rows@, plan, n);
        self.lemma_new_table(ticket, i);
        assert(after[slot].no_duplicates());
        assert(other / 256 == row / 256);
    }

    /// An append transaction changes no row that anybody could read before: the
    /// committed rows of every slot, moved tails included, keep their contents.
    pub proof fn law_append_keeps_committed_rows<V>(
        &self,
        ticket: int,
        memory: spec_fn(int) -> V,
        value: spec_fn(int, int) -> V,
        s: int,
        row: int,
    )
        requires
            self.inv(),
            self.plans@.contains_key(ticket),
            0 <= s < self.slots,
            0 <= row < self.rows@[s],
        ensures
            ({
                let plan = self.plans@[ticket];
                let after = apply::applied_tables(self.tables(), plan, plan.len() as int);
                after_append(memory, self.tables(), plan, value)(physical_row(after[s], row))
                    == memory(physical_row(self.tables()[s], row))
            }),
    {
        let plan = self.plans@[ticket];
        let n = plan.len() as int;
        let tables = self.tables();
        let after = apply::applied_tables(tables, plan, n);
        let x = physical_row(after[s], row);
        assert(source_cache::plan_fits(
            tables,
            self.rows@,
            self.pool.references@,
            self.slots as int,
            plan,
        ));
        apply::lemma_applied(tables, self.rows@, plan, n);
        assert(tables[s] == self.pages@[s]@);
        let l = row / 256;
        assert(l < tables[s].len());
        let page = tables[s][l];
        assert(tables[s].contains(page));
        assert(self.pool.in_range(self.pages@[s]@));
        tally::lemma_occurrences_contains(tables[s], page);
        tally::lemma_total_includes(tables, s, page);
        if apply::untouched(plan, n, s) {
            assert(after[s] == tables[s]);
            self.lemma_copies_spare(ticket, memory, page, x);
        } else {
            let j = choose|j: int| 0 <= j < n && (#[trigger] plan[j]).slot == s;
            assert(after[s] == apply::new_table(tables[s], plan[j]));
            if plan[j].replacement is Some && l == plan[j].tail() {
                let pair = plan[j].replacement->Some_0;
                assert(after[s][l] == pair.1);
                assert(copies_to(plan, j, x / 256));
                let i = choose|i: int| #[trigger] copies_to(plan, i, x / 256);
                apply::lemma_fresh_distinct(plan);
                assert(plan[i].fresh()[0] == pair.1 && plan[j].fresh()[0] == pair.1);
                assert(plan[i].fresh().contains(pair.1) && plan[j].fresh().contains(pair.1));
                assert(i == j);
                assert(pair.0 == page);
            } else {
                assert(after[s][l] == page);
                self.lemma_copies_spare(ticket, memory, page, x);
            }
        }
        if exists|i: int, r: int| #[trigger] writes_row(after, plan, i, r, x) {
            let (i, r) = choose|i: int, r: int| #[trigger] writes_row(after, plan, i, r, x);
            assert(after[s].len() >= tables[s].len());
            self.lemma_writer(ticket, i, r, s, row);
        }
    }

    /// Every appended row reads back what its slot wrote.
    pub proof fn law_append_reads_back<V>(
        &self,
        ticket: int,
        memory: spec_fn(int) -> V,
        value: spec_fn(int, int) -> V,
        i: int,
        row: int,
    )
        requires
            self.inv(),
            self.plans@.contains_key(ticket),
            0 <= i < self.plans@[ticket].len(),
            self.plans@[ticket][i].start <= row < self.plans@[ticket][i].end,
        ensures
            ({
                let plan = self.plans@[ticket];
                let after = apply::applied_tables(self.tables(), plan, plan.len() as int);
                after_append(memory, self.tables(), plan, value)(
                    physical_row(after[plan[i].slot], row),
                ) == value(plan[i].slot, row)
            }),
    {
        let plan = self.plans@[ticket];
        let n = plan.len() as int;
        let after = apply::applied_tables(self.tables(), plan, n);
        let s = plan[i].slot;
        let x = physical_row(after[s], row);
        assert(writes_row(after, plan, i, row, x));
        let (j, r) = choose|j: int, r: int| #[trigger] writes_row(after, plan, j, r, x);
        assert(source_cache::plan_fits(
            self.tables(),
            self.rows@,
            self.pool.references@,
            self.slots as int,
            plan,
        ));
        self.lemma_private_page(ticket, i, row);
        self.lemma_private_page(ticket, j, r);
        self.lemma_writer(ticket, j, r, s, row);
    }

    /// A retained prefix keeps its rows through any append transaction.
    pub proof fn law_append_spares_prefixes<V>(
        &self,
        ticket: int,
        memory: spec_fn(int) -> V,
        value: spec_fn(int, int) -> V,
        prefix: &SourcePrefix,
        row: int,
    )
        requires
            self.inv(),
            self.plans@.contains_key(ticket),
            self.holds(prefix),
            0 <= row < prefix.rows,
        ensures
            after_append(memory, self.tables(), self.plans@[ticket], value)(
                physical_row(prefix.pages@, row),
            ) == memory(physical_row(prefix.pages@, row)),
    {
        let plan = self.plans@[ticket];
        let n = plan.len() as int;
        let after = apply::applied_tables(self.tables(), plan, n);
        let x = physical_row(prefix.pages@, row);
        let page = prefix.pages@[row / 256];
        assert(self.retained(page) > 0);
        self.lemma_copies_spare(ticket, memory, page, x);
        if exists|i: int, r: int| #[trigger] writes_row(after, plan, i, r, x) {
            let (i, r) = choose|i: int, r: int| #[trigger] writes_row(after, plan, i, r, x);
            self.lemma_private_page(ticket, i, r);
            assert(after[plan[i].slot][r / 256] == page);
        }
    }
}

} // verus!
