//! What a replayed layer sends: rows, routes and a made-up NVFP4 payload.
use crate::error::Error;
use crate::replay::{ReplayChain, ReplayLayer, ReplayPlanManifest};
use vstd::prelude::*;
use vstd::string::*;

verus! {

#[derive(Debug, Clone, Copy, PartialEq, Eq, Structural)]
pub enum RowSourceKind {
    DecodeStep,
    MtpVerifyBlock,
}

pub struct ExpertBatchRow {
    pub row_id: u64,
    pub source_kind: RowSourceKind,
    pub request_id: String,
    pub sequence_id: String,
    pub token_position: u64,
    pub route_offset: usize,
    pub route_count: usize,
}

/// One row's way to one expert; its gate weight is one part in `gate_parts`.
#[derive(Debug, Clone, Copy, PartialEq, Eq, Structural)]
pub struct ExpertBatchRoute {
    pub row_index: usize,
    pub expert_id: usize,
    pub gate_parts: usize,
}

/// How hidden values are packed.
#[derive(Debug, Clone, Copy, PartialEq, Eq, Structural)]
pub enum HiddenDtype {
    F4,
}

pub struct ExpertBatch {
    pub layer_id: u32,
    pub placement_version: String,
    pub hidden_dim: usize,
    pub hidden_bytes_per_row: usize,
    pub hidden_dtype: HiddenDtype,
    /// Rows that the receiver's graph is made for.
    pub graph_bucket: usize,
    pub quantization_recipe: String,
    pub routed_experts: usize,
    pub rows: Vec<ExpertBatchRow>,
}

/// Bytes of one NVFP4 row: two values to a byte, and a scale for each sixteen.
pub open spec fn row_bytes(hidden_size: int) -> int {
    hidden_size / 2 + hidden_size / 16
}

pub fn nvfp4_row_bytes(hidden_size: usize) -> (r: Result<usize, Error>)
    ensures
        r is Ok,
        r->Ok_0 == row_bytes(hidden_size as int),
{
    Ok(hidden_size / 2 + hidden_size / 16)
}

/// The byte at `i` of a row: packed values first, then their scales.
pub open spec fn payload_byte(hidden_size: int, row: int, i: int) -> int {
    let packed = hidden_size / 2;
    if i < packed {
        (1 + (row + i) % 6) + 16 * (1 + (row * 3 + i) % 6)
    } else {
        0x38 + (row + (i - packed)) % 3
    }
}

/// The first `rows` rows.
pub open spec fn payload(hidden_size: int, rows: int) -> Seq<u8>
    decreases rows,
{
    if rows <= 0 {
        Seq::empty()
    } else {
        payload(hidden_size, rows - 1) + payload_row(hidden_size, rows - 1)
    }
}

pub open spec fn payload_row(hidden_size: int, row: int) -> Seq<u8> {
    Seq::new(
        row_bytes(hidden_size) as nat,
        |i: int| payload_byte(hidden_size, row, i) as u8,
    )
}

/// Two finite nonzero values in one byte.
fn packed_byte(row: usize, i: usize) -> (r: u8)
    ensures
        r == (1 + (row + i) % 6) + 16 * (1 + (row * 3 + i) % 6),
{
    let low: u8 = (1 + (row % 6 + i % 6) % 6) as u8;
    let high: u8 = (1 + (row % 2 * 3 + i % 6) % 6) as u8;
    proof {
        assert((row % 6 + i % 6) % 6 == (row + i) % 6);
        assert((row % 2 * 3 + i % 6) % 6 == (row * 3 + i) % 6);
    }
    assert((low | (high << 4)) == low + 16 * high) by (bit_vector)
        requires
            1 <= low <= 6,
            1 <= high <= 6,
    ;
    low | (high << 4)
}

/// A payload that is the same on every run: finite values, none of them zero,
/// with scales near one.
pub fn deterministic_nvfp4_payload(rows: usize, hidden_size: usize) -> (r: Result<
    Vec<u8>,
    Error,
>)
    ensures
        match r {
            Ok(bytes) => {
                &&& rows * row_bytes(hidden_size as int) <= usize::MAX
                &&& bytes@ == payload(hidden_size as int, rows as int)
                &&& bytes@.len() == rows * row_bytes(hidden_size as int)
            },
            Err(e) => e == Error::BudgetOverflow && rows * row_bytes(hidden_size as int)
                > usize::MAX,
        },
{
    let packed: usize = hidden_size / 2;
    let scales: usize = hidden_size / 16;
    let per_row: usize = packed + scales;
    match rows.checked_mul(per_row) {
        None => {
            return Err(Error::BudgetOverflow);
        },
        Some(_) => {},
    }
    let mut out: Vec<u8> = Vec::new();
    let mut row: usize = 0;
    proof {
        lemma_payload_len(hidden_size as int, rows as int);
    }
    while row < rows
        invariant
            row <= rows,
            packed == hidden_size as int / 2,
            scales == hidden_size as int / 16,
            per_row == row_bytes(hidden_size as int),
            out@ == payload(hidden_size as int, row as int),
        decreases rows - row,
    {
        let ghost before = out@;
        let mut i: usize = 0;
        while i < packed
            invariant
                i <= packed <= per_row,
                packed == hidden_size as int / 2,
                per_row == row_bytes(hidden_size as int),
                out@ == before + payload_row(hidden_size as int, row as int).take(i as int),
            decreases packed - i,
        {
            out.push(packed_byte(row, i));
            i = i + 1;
            assert(out@ =~= before + payload_row(hidden_size as int, row as int).take(i as int));
        }
        let mut k: usize = 0;
        while k < scales
            invariant
                k <= scales,
                packed == hidden_size as int / 2,
                scales == hidden_size as int / 16,
                per_row == packed + scales,
                per_row == row_bytes(hidden_size as int),
                out@ == before + payload_row(hidden_size as int, row as int).take(packed + k),
            decreases scales - k,
        {
            assert((row % 3 + k % 3) % 3 == (row + k) % 3);
            out.push(0x38 + ((row % 3 + k % 3) % 3) as u8);
            k = k + 1;
            assert(out@ =~= before + payload_row(hidden_size as int, row as int).take(packed + k));
        }
        proof {
            let whole = payload_row(hidden_size as int, row as int);
            assert(whole.take(packed + k) =~= whole);
        }
        row = row + 1;
    }
    Ok(out)
}

proof fn lemma_payload_len(hidden_size: int, rows: int)
    requires
        hidden_size >= 0,
        rows >= 0,
    ensures
        payload(hidden_size, rows).len() == rows * row_bytes(hidden_size),
    decreases rows,
{
    let per_row = row_bytes(hidden_size);
    if rows > 0 {
        lemma_payload_len(hidden_size, rows - 1);
        assert(rows * per_row == (rows - 1) * per_row + per_row) by (nonlinear_arith);
    } else {
        assert(0 * per_row == 0) by (nonlinear_arith);
    }
}

/// Every packed value of the payload is one of the six smallest nonzero ones,
/// and every scale one of the three from 0x38 on.
pub proof fn law_payload_is_finite_and_nonzero(hidden_size: int, row: int, i: int)
    requires
        0 <= hidden_size,
        0 <= row,
        0 <= i < row_bytes(hidden_size),
    ensures
        ({
            let byte = payload_byte(hidden_size, row, i);
            if i < hidden_size / 2 {
                1 <= byte % 16 <= 6 && 1 <= byte / 16 <= 6
            } else {
                0x38 <= byte <= 0x3a
            }
        }),
{
}

pub open spec fn row_of(chain: &ReplayChain, top_k: usize, i: int, row: ExpertBatchRow) -> bool {
    &&& row.row_id == i
    &&& row.source_kind == (if i == 0 {
        RowSourceKind::DecodeStep
    } else {
        RowSourceKind::MtpVerifyBlock
    })
    &&& row.request_id@ == chain.chain_id@
    &&& row.sequence_id@ == chain.chain_id@
    &&& row.token_position == i
    &&& row.route_offset == i * top_k
    &&& row.route_count == top_k
}

/// The routes of the first `n` rows, row by row.
pub open spec fn flat_routes(routes: Seq<Vec<usize>>, top_k: usize, n: int) -> Seq<ExpertBatchRoute>
    decreases n,
{
    if n <= 0 {
        Seq::empty()
    } else {
        flat_routes(routes, top_k, n - 1) + row_routes(routes, top_k, n - 1)
    }
}

pub open spec fn row_routes(routes: Seq<Vec<usize>>, top_k: usize, row: int) -> Seq<
    ExpertBatchRoute,
> {
    Seq::new(
        routes[row]@.len(),
        |k: int|
            ExpertBatchRoute {
                row_index: row as usize,
                expert_id: routes[row]@[k],
                gate_parts: top_k,
            },
    )
}

/// The rows and routes of one layer. The first row is a decode step, the others
/// are verified drafts; each row's routes stand together.
pub fn expert_batch_for_layer(
    manifest: &ReplayPlanManifest,
    chain: &ReplayChain,
    layer: &ReplayLayer,
) -> (r: Result<(ExpertBatch, Vec<ExpertBatchRoute>), Error>)
    requires
        chain.physical_m * manifest.top_k <= usize::MAX,
    ensures
        r is Ok,
        ({
            let (batch, routes) = r->Ok_0;
            &&& batch.layer_id == layer.layer_id
            &&& batch.placement_version@ == "expert-reduction-replay-v1"@
            &&& batch.hidden_dtype == HiddenDtype::F4
            &&& batch.hidden_dim == manifest.hidden_size
            &&& batch.hidden_bytes_per_row == row_bytes(manifest.hidden_size as int)
            &&& batch.graph_bucket == chain.physical_m
            &&& batch.quantization_recipe@ == manifest.quantization_recipe@
            &&& batch.routed_experts == manifest.routed_experts
            &&& batch.rows@.len() == chain.physical_m
            &&& forall|i: int|
                0 <= i < chain.physical_m ==> row_of(
                    chain,
                    manifest.top_k,
                    i,
                    #[trigger] batch.rows@[i],
                )
            &&& routes@ == flat_routes(
                layer.routes@,
                manifest.top_k,
                layer.routes@.len() as int,
            )
        }),
{
    let top_k: usize = manifest.top_k;
    let mut rows: Vec<ExpertBatchRow> = Vec::new();
    let mut i: usize = 0;
    while i < chain.physical_m
        invariant
            i <= chain.physical_m,
            top_k == manifest.top_k,
            chain.physical_m * manifest.top_k <= usize::MAX,
            rows@.len() == i,
            forall|k: int| 0 <= k < i ==> row_of(chain, top_k, k, #[trigger] rows@[k]),
        decreases chain.physical_m - i,
    {
        assert(i * top_k <= chain.physical_m * top_k) by (nonlinear_arith)
            requires
                i <= chain.physical_m,
        ;
        rows.push(
            ExpertBatchRow {
                row_id: i as u64,
                source_kind: if i == 0 {
                    RowSourceKind::DecodeStep
                } else {
                    RowSourceKind::MtpVerifyBlock
                },
                request_id: chain.chain_id.clone(),
                sequence_id: chain.chain_id.clone(),
                token_position: i as u64,
                route_offset: i * top_k,
                route_count: top_k,
            },
        );
        i = i + 1;
    }
    let mut routes: Vec<ExpertBatchRoute> = Vec::new();
    let mut row: usize = 0;
    while row < layer.routes.len()
        invariant
            row <= layer.routes@.len(),
            routes@ == flat_routes(layer.routes@, top_k, row as int),
        decreases layer.routes@.len() - row,
    {
        let experts = &layer.routes[row];
        let ghost before = routes@;
        let mut k: usize = 0;
        while k < experts.len()
            invariant
                row < layer.routes@.len(),
                *experts == layer.routes@[row as int],
                k <= experts@.len(),
                routes@ == before + row_routes(layer.routes@, top_k, row as int).take(k as int),
            decreases experts@.len() - k,
        {
            routes.push(
                ExpertBatchRoute { row_index: row, expert_id: experts[k], gate_parts: top_k },
            );
            k = k + 1;
            assert(routes@ =~= before + row_routes(layer.routes@, top_k, row as int).take(
                k as int,
            ));
        }
        proof {
            let whole = row_routes(layer.routes@, top_k, row as int);
            assert(whole.take(k as int) =~= whole);
        }
        row = row + 1;
    }
    Ok(
        (
            ExpertBatch {
                layer_id: layer.layer_id,
                placement_version: String::from_str("expert-reduction-replay-v1"),
                hidden_dim: manifest.hidden_size,
                hidden_bytes_per_row: manifest.hidden_size / 2 + manifest.hidden_size / 16,
                hidden_dtype: HiddenDtype::F4,
                graph_bucket: chain.physical_m,
                quantization_recipe: manifest.quantization_recipe.clone(),
                routed_experts: manifest.routed_experts,
                rows,
            },
            routes,
        ),
    )
}

/// A row's route offset and count point at that row's own routes.
pub proof fn law_rows_point_at_their_routes(
    routes: Seq<Vec<usize>>,
    top_k: usize,
    row: int,
    k: int,
)
    requires
        forall|r: int| 0 <= r < routes.len() ==> (#[trigger] routes[r])@.len() == top_k,
        0 <= row < routes.len() <= usize::MAX,
        0 <= k < top_k,
    ensures
        ({
            let flat = flat_routes(routes, top_k, routes.len() as int);
            &&& flat.len() == routes.len() * top_k
            &&& 0 <= row * top_k + k < flat.len()
            &&& flat[row * top_k + k].row_index == row
            &&& flat[row * top_k + k].expert_id == routes[row]@[k]
        }),
{
    lemma_flat_routes(routes, top_k, routes.len() as int, row, k);
}

proof fn lemma_flat_routes(routes: Seq<Vec<usize>>, top_k: usize, n: int, row: int, k: int)
    requires
        forall|r: int| 0 <= r < routes.len() ==> (#[trigger] routes[r])@.len() == top_k,
        0 <= n <= routes.len() <= usize::MAX,
        0 <= k < top_k,
        0 <= row,
    ensures
        flat_routes(routes, top_k, n).len() == n * top_k,
        row < n ==> {
            let flat = flat_routes(routes, top_k, n);
            &&& 0 <= row * top_k + k < flat.len()
            &&& flat[row * top_k + k].row_index == row
            &&& flat[row * top_k + k].expert_id == routes[row]@[k]
        },
    decreases n,
{
    if n > 0 {
        lemma_flat_routes(routes, top_k, n - 1, row, k);
        assert(routes[n - 1]@.len() == top_k);
        assert(n * top_k == (n - 1) * top_k + top_k) by (nonlinear_arith);
        if row < n {
            assert(row * top_k + k < n * top_k && 0 <= row * top_k) by (nonlinear_arith)
                requires
                    0 <= row < n,
                    0 <= k < top_k,
            ;
        }
    } else {
        assert(n * top_k == 0) by (nonlinear_arith)
            requires
                n == 0,
        ;
    }
}

proof fn lemma_payload_at(hidden_size: int, rows: int, row: int, i: int)
    requires
        0 <= hidden_size,
        0 <= row < rows,
        0 <= i < row_bytes(hidden_size),
    ensures
        0 <= row * row_bytes(hidden_size) + i < payload(hidden_size, rows).len(),
        payload(hidden_size, rows)[row * row_bytes(hidden_size) + i] == payload_byte(
            hidden_size,
            row,
            i,
        ),
    decreases rows,
{
    let width = row_bytes(hidden_size);
    lemma_payload_len(hidden_size, rows);
    lemma_payload_len(hidden_size, rows - 1);
    assert(0 <= row * width && row * width + width <= rows * width) by (nonlinear_arith)
        requires
            0 <= row,
            row + 1 <= rows,
            0 <= width,
    ;
    if row < rows - 1 {
        lemma_payload_at(hidden_size, rows - 1, row, i);
    } else {
        let own = payload_row(hidden_size, row);
        assert(payload(hidden_size, rows)[row * width + i] == own[i]);
        law_payload_is_finite_and_nonzero(hidden_size, row, i);
    }
}

proof fn lemma_packed_steps(hidden_size: int, row: int, i: int)
    requires
        0 <= row,
        0 <= i,
        i + 1 < hidden_size / 2,
    ensures
        ({
            let here = payload_byte(hidden_size, row, i);
            let next = payload_byte(hidden_size, row, i + 1);
            let below = payload_byte(hidden_size, row + 1, i);
            &&& next % 16 == here % 16 % 6 + 1
            &&& next / 16 == here / 16 % 6 + 1
            &&& below == next % 16 + 16 * ((here / 16 + 2) % 6 + 1)
        }),
{
    let x = row + i;
    let y = row * 3 + i;
    let here = payload_byte(hidden_size, row, i);
    let next = payload_byte(hidden_size, row, i + 1);
    assert(here == (1 + x % 6) + 16 * (1 + y % 6));
    assert(next == (1 + (x + 1) % 6) + 16 * (1 + (y + 1) % 6));
    assert(here % 16 == 1 + x % 6 && here / 16 == 1 + y % 6);
    assert(next % 16 == 1 + (x + 1) % 6 && next / 16 == 1 + (y + 1) % 6);
    assert((x + 1) % 6 == (1 + x % 6) % 6);
    assert((y + 1) % 6 == (1 + y % 6) % 6);
    assert((y + 3) % 6 == (3 + y % 6) % 6);
    assert((row + 1) * 3 + i == y + 3);
}

proof fn lemma_scale_steps(hidden_size: int, row: int, i: int)
    requires
        0 <= row,
        0 <= hidden_size / 2 <= i,
    ensures
        ({
            let here = payload_byte(hidden_size, row, i);
            let next = payload_byte(hidden_size, row, i + 1);
            &&& next == 56 + (here - 55) % 3
            &&& payload_byte(hidden_size, row + 1, i) == next
        }),
{
    let z = row + (i - hidden_size / 2);
    assert((z + 1) % 3 == (1 + z % 3) % 3);
}

/// A payload is its rows one behind the other, each half a byte per value and then a
/// byte per sixteen values; along a row, values and scales step through theirs in turn,
/// and the next row starts one step further.
pub proof fn law_payload_steps_through_its_values(hidden_size: int, rows: int, row: int, i: int)
    requires
        0 <= hidden_size,
        0 <= row,
        row + 1 < rows,
        0 <= i,
        i + 1 < row_bytes(hidden_size),
    ensures
        ({
            let width = row_bytes(hidden_size);
            let bytes = payload(hidden_size, rows);
            let here = bytes[row * width + i];
            let next = bytes[row * width + i + 1];
            let below = bytes[(row + 1) * width + i];
            &&& bytes.len() == rows * width
            &&& 16 * width <= 9 * hidden_size < 16 * width + 32
            &&& 0 <= row * width + i && (row + 1) * width + i < bytes.len()
            &&& i + 1 < hidden_size / 2 ==> next % 16 == here % 16 % 6 + 1 && next / 16 == here
                / 16 % 6 + 1 && below == next % 16 + 16 * ((here / 16 + 2) % 6 + 1)
            &&& i >= hidden_size / 2 ==> next == 56 + (here - 55) % 3 && below == next
        }),
{
    let width = row_bytes(hidden_size);
    lemma_payload_len(hidden_size, rows);
    lemma_payload_at(hidden_size, rows, row, i);
    lemma_payload_at(hidden_size, rows, row, i + 1);
    lemma_payload_at(hidden_size, rows, row + 1, i);
    assert(row * width + (i + 1) == row * width + i + 1);
    if i + 1 < hidden_size / 2 {
        lemma_packed_steps(hidden_size, row, i);
    } else if i >= hidden_size / 2 {
        lemma_scale_steps(hidden_size, row, i);
    }
}

} // verus!
