//! What a proposal's kernels read: tensor names and uploaded words.
use crate::compressor;
use crate::compressor::wave;
use crate::compressor::wave::{CompressorWave, Prepared};
use crate::compressor::{ratio, CompressorChunk, CompressorLatentRow};
use crate::error::Error;
use crate::text;
use crate::text::append_count;
use vstd::prelude::*;

verus! {

/// The tensor `part` of a layer's attention.
pub open spec fn attention_tensor(layer: nat, part: Seq<char>) -> Seq<char> {
    "layers."@ + text::decimal(layer) + ".attn."@ + part
}

/// The tensors of a compressor that joins `step` rows.
pub open spec fn compressor_parts(step: int) -> Seq<Seq<char>> {
    if step == 2 {
        seq![
            "compressor.wkv.weight"@,
            "compressor.norm.weight"@,
            "compressor.wgate.weight"@,
            "indexer.wk.weight"@,
            "indexer.k_norm.weight"@,
        ]
    } else {
        seq![
            "compressor.wkv.weight"@,
            "compressor.norm.weight"@,
            "indexer.wk.weight"@,
            "indexer.k_norm.weight"@,
        ]
    }
}

fn name(layer: usize, part: &str) -> (r: String)
    ensures
        r@ == attention_tensor(layer as nat, part@),
{
    let mut out: String = String::from_str("layers.");
    append_count(&mut out, layer);
    out.append(".attn.");
    out.append(part);
    out
}

/// The weights of one compressor and its index keys.
#[derive(Debug, Clone, Copy, PartialEq, Eq, Structural)]
pub struct CompressorWeights {
    pub layer: usize,
    pub ratio: usize,
}

impl CompressorWeights {
    pub fn names(layer: usize) -> (r: Result<Vec<String>, Error>)
        ensures
            match compressor::layer_ratio(layer as int) {
                Err(e) => r == Err::<Vec<String>, Error>(e),
                Ok(step) => r matches Ok(names) && {
                    &&& names@.len() == compressor_parts(step).len()
                    &&& forall|i: int|
                        0 <= i < names@.len() ==> (#[trigger] names@[i])@ == attention_tensor(
                            layer as nat,
                            compressor_parts(step)[i],
                        )
                },
            },
    {
        let step: usize = match ratio(layer) {
            Err(e) => {
                return Err(e);
            },
            Ok(step) => step,
        };
        let mut names: Vec<String> = Vec::new();
        names.push(name(layer, "compressor.wkv.weight"));
        names.push(name(layer, "compressor.norm.weight"));
        if step == 2 {
            names.push(name(layer, "compressor.wgate.weight"));
        }
        names.push(name(layer, "indexer.wk.weight"));
        names.push(name(layer, "indexer.k_norm.weight"));
        Ok(names)
    }

    /// The compressor of a source layer.
    pub fn load(layer: usize) -> (r: Result<Self, Error>)
        ensures
            match compressor::layer_ratio(layer as int) {
                Err(e) => r == Err::<Self, Error>(e),
                Ok(step) => r == Ok::<Self, Error>(
                    CompressorWeights { layer, ratio: step as usize },
                ),
            },
    {
        match ratio(layer) {
            Err(e) => Err(e),
            Ok(step) => Ok(CompressorWeights { layer, ratio: step }),
        }
    }
}

/// One word per row: the position of the group that the row completes, or zero.
pub open spec fn position_words(completed: Seq<CompressorLatentRow>, rows: int, n: int) -> Seq<u64>
    decreases n,
{
    if n <= 0 {
        Seq::new(rows as nat, |i: int| 0u64)
    } else {
        position_words(completed, rows, n - 1).update(
            completed[n - 1].source_row as int,
            completed[n - 1].position,
        )
    }
}

proof fn lemma_position_words_len(completed: Seq<CompressorLatentRow>, rows: int, n: int)
    requires
        0 <= rows,
        0 <= n <= completed.len(),
        forall|k: int| 0 <= k < n ==> (#[trigger] completed[k]).source_row < rows,
    ensures
        position_words(completed, rows, n).len() == rows,
    decreases n,
{
    if n > 0 {
        lemma_position_words_len(completed, rows, n - 1);
        assert(completed[n - 1].source_row < rows);
    }
}

proof fn lemma_descriptor_count(chunks: Seq<CompressorChunk>, slot_count: int, n: int)
    requires
        0 <= n,
    ensures
        wave::descriptors(chunks, slot_count, n).len() == wave::chunk_rows(chunks, n),
    decreases n,
{
    if n > 0 {
        lemma_descriptor_count(chunks, slot_count, n - 1);
    }
}

proof fn lemma_chunk_completed_rows(chunk: CompressorChunk, step: int, base: int, m: int)
    requires
        0 <= base,
        0 <= m,
        base + m <= 4096,
    ensures
        forall|k: int|
            0 <= k < wave::chunk_completed(chunk, step, base, m).len() ==> (
            #[trigger] wave::chunk_completed(chunk, step, base, m)[k]).source_row < base + m,
    decreases m,
{
    if m > 0 {
        lemma_chunk_completed_rows(chunk, step, base, m - 1);
        let before = wave::chunk_completed(chunk, step, base, m - 1);
        let now = wave::chunk_completed(chunk, step, base, m);
        assert forall|k: int| 0 <= k < now.len() implies (#[trigger] now[k]).source_row < base
            + m by {
            if k < before.len() {
                assert(now[k] == before[k]);
            }
        }
    }
}

proof fn lemma_completed_rows_bound(chunks: Seq<CompressorChunk>, step: int, n: int)
    requires
        0 <= n,
        wave::chunk_rows(chunks, n) <= 4096,
        forall|i: int| 0 <= i < n ==> 0 <= wave::chunk_rows(chunks, i),
    ensures
        forall|k: int|
            0 <= k < wave::completed_rows(chunks, step, n).len() ==> (
            #[trigger] wave::completed_rows(chunks, step, n)[k]).source_row < wave::chunk_rows(
                chunks,
                n,
            ),
    decreases n,
{
    if n > 0 {
        lemma_completed_rows_bound(chunks, step, n - 1);
        lemma_chunk_completed_rows(
            chunks[n - 1],
            step,
            wave::chunk_rows(chunks, n - 1),
            chunks[n - 1].tokens as int,
        );
        let before = wave::completed_rows(chunks, step, n - 1);
        let added = wave::chunk_completed(
            chunks[n - 1],
            step,
            wave::chunk_rows(chunks, n - 1),
            chunks[n - 1].tokens as int,
        );
        let now = wave::completed_rows(chunks, step, n);
        assert forall|k: int| 0 <= k < now.len() implies (#[trigger] now[k]).source_row
            < wave::chunk_rows(chunks, n) by {
            if k < before.len() {
                assert(now[k] == before[k]);
            } else {
                assert(now[k] == added[k - before.len()]);
            }
        }
    }
}

impl CompressorWave {
    /// The words that a proposal uploads: where rows are joined, which earlier row
    /// each one joins; then the position of each completed group.
    pub fn upload_words(&self, prepared: &Prepared) -> (r: Vec<u64>)
        requires
            self.inv(),
            exists|slot_count: int| #[trigger] self.fits(prepared, slot_count),
        ensures
            r@ == if self.step() == 2 {
                prepared.descriptors@
            } else {
                Seq::<u64>::empty()
            } + position_words(
                prepared.completed@,
                prepared.rows as int,
                prepared.completed@.len() as int,
            ),
            r@.len() == if self.step() == 2 {
                2 * prepared.rows
            } else {
                prepared.rows as int
            },
    {
        let rows: usize = prepared.rows;
        let ghost chunks = prepared.chunks@;
        let ghost n = chunks.len() as int;
        proof {
            let slot_count = choose|slot_count: int| #[trigger] self.fits(prepared, slot_count);
            lemma_descriptor_count(chunks, slot_count, n);
            assert forall|i: int| 0 <= i < n implies 0 <= wave::chunk_rows(chunks, i) by {
                wave::lemma_chunk_rows_monotonic(chunks, 0, i);
            }
            lemma_completed_rows_bound(chunks, self.step(), n);
        }
        let mut words: Vec<u64> = Vec::new();
        if self.layer != 20 {
            let mut k: usize = 0;
            while k < rows
                invariant
                    k <= rows == prepared.descriptors@.len(),
                    words@ == prepared.descriptors@.subrange(0, k as int),
                decreases rows - k,
            {
                words.push(prepared.descriptors[k]);
                k = k + 1;
                assert(words@ =~= prepared.descriptors@.subrange(0, k as int));
            }
            assert(words@ =~= prepared.descriptors@);
        }
        let ghost head = words@;
        let offset: usize = words.len();
        let mut z: usize = 0;
        while z < rows
            invariant
                z <= rows,
                words@ == head + Seq::new(z as nat, |i: int| 0u64),
            decreases rows - z,
        {
            words.push(0);
            z = z + 1;
            assert(words@ =~= head + Seq::new(z as nat, |i: int| 0u64));
        }
        let mut i: usize = 0;
        while i < prepared.completed.len()
            invariant
                i <= prepared.completed@.len(),
                rows == prepared.rows,
                rows <= 4096,
                offset == head.len(),
                offset <= 4096,
                words@ == head + position_words(prepared.completed@, rows as int, i as int),
                position_words(prepared.completed@, rows as int, i as int).len() == rows,
                forall|k: int|
                    0 <= k < prepared.completed@.len() ==> (
                    #[trigger] prepared.completed@[k]).source_row < rows,
            decreases prepared.completed@.len() - i,
        {
            let row = prepared.completed[i];
            assert(prepared.completed@[i as int].source_row < rows);
            let ghost before = position_words(prepared.completed@, rows as int, i as int);
            words.set(offset + row.source_row as usize, row.position);
            proof {
                assert(words@ =~= head + before.update(row.source_row as int, row.position));
            }
            i = i + 1;
        }
        words
    }
}

} // verus!
