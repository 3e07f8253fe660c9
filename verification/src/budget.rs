//! Sums of byte counts.
use crate::error::Error;
use vstd::prelude::*;

verus! {

/// The sum of the first `n` parts.
pub open spec fn total(parts: Seq<usize>, n: int) -> int
    decreases n,
{
    if n <= 0 {
        0
    } else {
        total(parts, n - 1) + parts[n - 1]
    }
}

pub proof fn lemma_total_monotonic(parts: Seq<usize>, n: int, m: int)
    requires
        n <= m,
    ensures
        total(parts, n) <= total(parts, m),
        0 <= total(parts, n),
    decreases m - n, n,
{
    if n < m {
        lemma_total_monotonic(parts, n, m - 1);
        if m <= 0 {
        }
    } else if n > 0 {
        lemma_total_monotonic(parts, n - 1, n - 1);
    }
}

/// A count that is `sum`, or `overflow` where no count holds it.
pub open spec fn counted(sum: int, overflow: Error) -> Result<int, Error> {
    if sum <= usize::MAX {
        Ok(sum)
    } else {
        Err(overflow)
    }
}

/// `start` and all parts together.
pub fn sum(start: usize, parts: &[usize], overflow: Error) -> (r: Result<usize, Error>)
    ensures
        crate::source_cache::same_count(
            r,
            counted(start + total(parts@, parts@.len() as int), overflow),
        ),
{
    let mut bytes: usize = start;
    let mut i: usize = 0;
    while i < parts.len()
        invariant
            i <= parts@.len(),
            bytes == start + total(parts@, i as int),
        decreases parts@.len() - i,
    {
        match bytes.checked_add(parts[i]) {
            Some(next) => {
                bytes = next;
            },
            None => {
                proof {
                    lemma_total_monotonic(parts@, i + 1, parts@.len() as int);
                }
                return Err(overflow);
            },
        }
        i = i + 1;
    }
    Ok(bytes)
}

/// The bytes of one matrix, or of two unless the second is split off.
pub open spec fn matrix_bytes(first: int, second: int, split: bool) -> int {
    first + if split {
        0
    } else {
        second
    }
}

/// `fixed` bytes and `row` bytes for each of `rows` rows.
pub fn row_bytes(fixed: usize, rows: u32, row: usize, overflow: Error) -> (r: Result<usize, Error>)
    ensures
        crate::source_cache::same_count(r, counted(fixed + rows * row, overflow)),
{
    assert(0 <= rows * row) by (nonlinear_arith)
        requires
            rows >= 0,
            row >= 0,
    ;
    match (rows as usize).checked_mul(row) {
        Some(bytes) => match fixed.checked_add(bytes) {
            Some(total) => Ok(total),
            None => Err(overflow),
        },
        None => Err(overflow),
    }
}

} // verus!
