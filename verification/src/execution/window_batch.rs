//! The table of one store for all windows of a pass.
use crate::backbone_cache::LAYERS;
use crate::device::DeviceBuffer;
use crate::error::Error;
use vstd::prelude::*;

verus! {

/// Requests that one window's store can end.
pub const STORE_CHUNKS: usize = 16;

/// One window's accepted rows: where each goes, and the new end of each slot.
pub struct WindowStore {
    pub device: i32,
    pub destinations: Vec<u64>,
    pub ends: Vec<(u64, u64)>,
}

/// Where the table holds one window's rows and ends.
#[derive(Debug, Clone, Copy, PartialEq, Eq, Structural)]
pub struct StoreEntry {
    pub destinations: u64,
    pub end_pairs: u64,
}

/// What is uploaded: the entries, then the words behind them.
pub struct StoreTable {
    pub entries: Vec<StoreEntry>,
    pub words: Vec<u64>,
    pub bytes: usize,
}

/// The words of one window.
pub open spec fn store_words(store: &WindowStore) -> Seq<u64> {
    store.destinations@ + end_words(store.ends@, store.ends@.len() as int)
}

/// The first `n` ends as slot and end, one after the other.
pub open spec fn end_words(ends: Seq<(u64, u64)>, n: int) -> Seq<u64>
    decreases n,
{
    if n <= 0 {
        Seq::empty()
    } else {
        end_words(ends, n - 1).push(ends[n - 1].0).push(ends[n - 1].1)
    }
}

/// The words of the first `n` windows.
pub open spec fn all_words(stores: Seq<WindowStore>, n: int) -> Seq<u64>
    decreases n,
{
    if n <= 0 {
        Seq::empty()
    } else {
        all_words(stores, n - 1) + store_words(&stores[n - 1])
    }
}

pub struct WindowBatch {
    /// Bytes of one entry in the kernel's layout.
    pub entry: usize,
    pub capacity: usize,
    pub table: DeviceBuffer,
}

/// Bytes of the table for windows of `capacity` rows.
pub open spec fn table_bytes(entry: int, capacity: int) -> int {
    40 * (entry + capacity * 8 + 256)
}

impl WindowBatch {
    pub open spec fn inv(&self) -> bool {
        &&& self.table.wf()
        &&& self.table.bytes == table_bytes(self.entry as int, self.capacity as int)
    }

    pub fn bytes(entry: usize, capacity: usize) -> (r: usize)
        requires
            table_bytes(entry as int, capacity as int) <= usize::MAX,
        ensures
            r == table_bytes(entry as int, capacity as int),
    {
        LAYERS * (entry + capacity * 8 + STORE_CHUNKS * 16)
    }

    /// The windows can be stored together.
    pub open spec fn same_shape(&self, stores: Seq<WindowStore>) -> bool {
        let rows = stores[0].destinations@.len();
        let chunks = stores[0].ends@.len();
        &&& stores.len() <= LAYERS
        &&& rows <= self.capacity
        &&& 1 <= chunks <= STORE_CHUNKS
        &&& forall|l: int|
            0 <= l < stores.len() ==> (#[trigger] stores[l]).destinations@.len() == rows
                && stores[l].ends@.len() == chunks && stores[l].device == self.table.device
    }

    fn alike(&self, stores: &[WindowStore]) -> (r: bool)
        requires
            stores@.len() > 0,
        ensures
            r == self.same_shape(stores@),
    {
        let rows: usize = stores[0].destinations.len();
        let chunks: usize = stores[0].ends.len();
        if !(stores.len() <= LAYERS && rows <= self.capacity && 1 <= chunks && chunks
            <= STORE_CHUNKS) {
            return false;
        }
        let mut l: usize = 0;
        while l < stores.len()
            invariant
                l <= stores@.len(),
                rows == stores@[0].destinations@.len(),
                chunks == stores@[0].ends@.len(),
                forall|k: int|
                    0 <= k < l ==> (#[trigger] stores@[k]).destinations@.len() == rows
                        && stores@[k].ends@.len() == chunks && stores@[k].device
                        == self.table.device,
            decreases stores@.len() - l,
        {
            let store = &stores[l];
            if !(store.destinations.len() == rows && store.ends.len() == chunks && store.device
                == self.table.device) {
                assert(*store == stores@[l as int]);
                return false;
            }
            l = l + 1;
        }
        true
    }

    /// The table has the words of all windows behind its entries, and each entry has
    /// the addresses of its window's words.
    pub open spec fn is_table(&self, stores: Seq<WindowStore>, table: StoreTable) -> bool {
        let n = stores.len() as int;
        let rows = stores[0].destinations@.len() as int;
        let chunks = stores[0].ends@.len() as int;
        &&& table.words@ == all_words(stores, n)
        &&& table.bytes == n * self.entry + n * (rows * 8 + chunks * 16)
        &&& table.bytes <= self.table.bytes
        &&& table.entries@.len() == n
        &&& forall|l: int|
            0 <= l < n ==> {
                let start = self.table.address + n * self.entry + l * (rows * 8 + chunks * 16);
                &&& (#[trigger] table.entries@[l]).destinations == start
                &&& table.entries@[l].end_pairs == start + rows * 8
            }
    }

    /// The table of one store of all windows.
    pub fn enqueue(&self, stores: &[WindowStore]) -> (r: Result<StoreTable, Error>)
        requires
            self.inv(),
        ensures
            if stores@.len() == 0 {
                r matches Err(e) && e == Error::WindowBatchEmpty
            } else if !self.same_shape(stores@) {
                r matches Err(e) && e == Error::WindowBatchShape
            } else {
                r matches Ok(table) && self.is_table(stores@, table)
            },
    {
        if stores.len() == 0 {
            return Err(Error::WindowBatchEmpty);
        }
        if !self.alike(stores) {
            return Err(Error::WindowBatchShape);
        }
        let n: usize = stores.len();
        let rows: usize = stores[0].destinations.len();
        let chunks: usize = stores[0].ends.len();
        let ghost span = rows * 8 + chunks * 16;
        proof {
            assert(n * self.entry + n * span <= 40 * (self.entry + self.capacity * 8 + 256))
                by (nonlinear_arith)
                requires
                    0 <= n <= 40,
                    0 <= self.entry,
                    0 <= span <= self.capacity * 8 + 256,
            ;
            assert(0 <= n * self.entry) by (nonlinear_arith)
                requires
                    0 <= n,
                    0 <= self.entry,
            ;
            assert(0 <= n * span) by (nonlinear_arith)
                requires
                    0 <= n,
                    0 <= span,
            ;
        }
        let base: u64 = self.table.address as u64;
        let mut offset: usize = n * self.entry;
        let mut entries: Vec<StoreEntry> = Vec::new();
        let mut words: Vec<u64> = Vec::new();
        let mut l: usize = 0;
        assert(0 * span == 0) by (nonlinear_arith);
        while l < n
            invariant
                self.inv(),
                l <= n == stores@.len(),
                base == self.table.address,
                self.same_shape(stores@),
                rows == stores@[0].destinations@.len(),
                chunks == stores@[0].ends@.len(),
                span == rows * 8 + chunks * 16,
                offset == n * self.entry + l * span,
                0 <= n * self.entry,
                n * self.entry + n * span <= self.table.bytes,
                words@ == all_words(stores@, l as int),
                entries@.len() == l,
                forall|k: int|
                    0 <= k < l ==> {
                        let start = self.table.address + n * self.entry + k * span;
                        &&& (#[trigger] entries@[k]).destinations == start
                        &&& entries@[k].end_pairs == start + rows * 8
                    },
            decreases n - l,
        {
            proof {
                assert(l * span + span == (l + 1) * span) by (nonlinear_arith);
                assert((l + 1) * span <= n * span) by (nonlinear_arith)
                    requires
                        l + 1 <= n,
                        0 <= span,
                ;
            }
            let store = &stores[l];
            assert(stores@[l as int].destinations@.len() == rows);
            entries.push(
                StoreEntry {
                    destinations: base + offset as u64,
                    end_pairs: base + (offset + rows * 8) as u64,
                },
            );
            let ghost before = words@;
            let mut i: usize = 0;
            while i < store.destinations.len()
                invariant
                    i <= store.destinations@.len(),
                    words@ == before + store.destinations@.subrange(0, i as int),
                decreases store.destinations@.len() - i,
            {
                words.push(store.destinations[i]);
                i = i + 1;
                assert(store.destinations@.subrange(0, i as int) =~= store.destinations@.subrange(
                    0,
                    i - 1,
                ).push(store.destinations@[i - 1]));
                assert(words@ =~= before + store.destinations@.subrange(0, i as int));
            }
            assert(store.destinations@.subrange(0, i as int) =~= store.destinations@);
            let mut j: usize = 0;
            while j < store.ends.len()
                invariant
                    j <= store.ends@.len(),
                    words@ == before + store.destinations@ + end_words(store.ends@, j as int),
                decreases store.ends@.len() - j,
            {
                let (slot, end): (u64, u64) = store.ends[j];
                words.push(slot);
                words.push(end);
                j = j + 1;
                assert(words@ =~= before + store.destinations@ + end_words(store.ends@, j as int));
            }
            assert(words@ =~= before + store_words(store));
            offset = offset + (rows * 8 + chunks * 16);
            l = l + 1;
        }
        Ok(StoreTable { entries, words, bytes: offset })
    }
}

/// The tables of different windows do not overlap: each window's words start
/// where the words of the one before it end.
pub proof fn law_store_tables_are_disjoint(
    batch: &WindowBatch,
    stores: Seq<WindowStore>,
    entries: Seq<StoreEntry>,
    l: int,
    m: int,
)
    requires
        batch.inv(),
        stores.len() > 0,
        batch.same_shape(stores),
        0 <= l < m < stores.len(),
        entries.len() == stores.len(),
        forall|k: int|
            0 <= k < stores.len() ==> {
                let rows = stores[0].destinations@.len() as int;
                let start = batch.table.address + stores.len() * batch.entry + k * (rows * 8
                    + stores[0].ends@.len() * 16);
                &&& (#[trigger] entries[k]).destinations == start
                &&& entries[k].end_pairs == start + rows * 8
            },
    ensures
        entries[l].end_pairs == entries[l].destinations + stores[l].destinations@.len() * 8,
        entries[l].end_pairs + stores[l].ends@.len() * 16 <= entries[m].destinations,
{
    let span = stores[0].destinations@.len() * 8 + stores[0].ends@.len() * 16;
    assert(stores[l].destinations@.len() == stores[0].destinations@.len());
    assert(entries[l].destinations == entries[l].destinations);
    assert(entries[m].destinations == entries[m].destinations);
    assert(l * span + span <= m * span) by (nonlinear_arith)
        requires
            l + 1 <= m,
            0 <= span,
    ;
}

proof fn lemma_end_words(ends: Seq<(u64, u64)>, n: int, j: int)
    requires
        0 <= n <= ends.len(),
    ensures
        end_words(ends, n).len() == 2 * n,
        0 <= j < n ==> end_words(ends, n)[2 * j] == ends[j].0 && end_words(ends, n)[2 * j + 1]
            == ends[j].1,
    decreases n,
{
    if n > 0 {
        lemma_end_words(ends, n - 1, j);
    }
}

proof fn lemma_all_words(stores: Seq<WindowStore>, rows: int, chunks: int, n: int, l: int, w: int)
    requires
        0 <= n <= stores.len(),
        forall|k: int|
            0 <= k < stores.len() ==> (#[trigger] stores[k]).destinations@.len() == rows
                && stores[k].ends@.len() == chunks,
    ensures
        all_words(stores, n).len() == n * (rows + 2 * chunks),
        0 <= l < n && 0 <= w < rows + 2 * chunks ==> 0 <= l * (rows + 2 * chunks) + w < n * (rows
            + 2 * chunks) && all_words(stores, n)[l * (rows + 2 * chunks) + w] == store_words(
            &stores[l],
        )[w],
    decreases n,
{
    if n > 0 {
        let span = rows + 2 * chunks;
        lemma_all_words(stores, rows, chunks, n - 1, l, w);
        assert(stores[n - 1].destinations@.len() == rows);
        lemma_end_words(stores[n - 1].ends@, chunks, 0);
        assert((n - 1) * span + span == n * span) by (nonlinear_arith);
        if 0 <= l < n && 0 <= w < span {
            assert(0 <= l * span && l * span + span <= n * span) by (nonlinear_arith)
                requires
                    0 <= l,
                    l + 1 <= n,
                    0 <= span,
            ;
            if l == n - 1 {
                assert(all_words(stores, n)[l * span + w] == store_words(&stores[l])[w]);
            }
        }
    } else {
        assert(0 * (rows + 2 * chunks) == 0);
    }
}

/// The word that lies at `address` once the table's words are behind its entries.
pub open spec fn word_at(batch: &WindowBatch, table: StoreTable, address: int) -> u64 {
    table.words@[(address - batch.table.address - table.entries@.len() * batch.entry) / 8]
}

/// Through its entry every window finds its own rows and ends again: the destination of
/// each row in turn, then slot and end of each request in turn. The table holds nothing
/// else.
pub proof fn law_entries_find_their_words(
    batch: &WindowBatch,
    stores: Seq<WindowStore>,
    table: StoreTable,
    l: int,
    i: int,
    j: int,
)
    requires
        batch.inv(),
        stores.len() > 0,
        batch.same_shape(stores),
        batch.is_table(stores, table),
        0 <= l < stores.len(),
        0 <= i < stores[l].destinations@.len(),
        0 <= j < stores[l].ends@.len(),
    ensures
        table.entries@.len() == stores.len(),
        word_at(batch, table, table.entries@[l].destinations + 8 * i)
            == stores[l].destinations@[i],
        word_at(batch, table, table.entries@[l].end_pairs + 16 * j) == stores[l].ends@[j].0,
        word_at(batch, table, table.entries@[l].end_pairs + 16 * j + 8) == stores[l].ends@[j].1,
        table.bytes == stores.len() * batch.entry + 8 * table.words@.len(),
{
    let n = stores.len() as int;
    let rows = stores[0].destinations@.len() as int;
    let chunks = stores[0].ends@.len() as int;
    let span = rows + 2 * chunks;
    assert(stores[l].destinations@.len() == rows);
    lemma_end_words(stores[l].ends@, chunks, j);
    lemma_all_words(stores, rows, chunks, n, l, i);
    lemma_all_words(stores, rows, chunks, n, l, rows + 2 * j);
    lemma_all_words(stores, rows, chunks, n, l, rows + 2 * j + 1);
    assert(l * (rows * 8 + chunks * 16) == 8 * (l * span)) by (nonlinear_arith)
        requires
            span == rows + 2 * chunks,
    ;
    assert(n * (rows * 8 + chunks * 16) == 8 * (n * span)) by (nonlinear_arith)
        requires
            span == rows + 2 * chunks,
    ;
    let entry = table.entries@[l];
    let base = batch.table.address + n * batch.entry;
    assert(entry.destinations == base + 8 * (l * span));
    assert((entry.destinations + 8 * i - base) / 8 == l * span + i);
    assert((entry.end_pairs + 16 * j - base) / 8 == l * span + rows + 2 * j);
    assert((entry.end_pairs + 16 * j + 8 - base) / 8 == l * span + rows + 2 * j + 1);
}

} // verus!
