//! What a routing sends to remote experts.
use crate::attention_binding::QueryBinding;
use crate::backbone_cache::plan::{ExpertRow, WorkKind};
use crate::error::Error;
use crate::router;
use crate::router::{request_hidden_format, ExpertV2Dtype, RouterOutput, RouterPart, ROUTES};
use vstd::prelude::*;

verus! {

/// Values of one hidden row.
pub const HIDDEN_SIZE: u32 = 5120;

/// One row of a request.
#[derive(Debug, Clone, Copy, PartialEq, Eq, Structural)]
pub struct RowDescriptor {
    pub row_id: u64,
    pub source_kind: WorkKind,
    pub source_request_id: u64,
    pub token_position: u64,
    pub route_offset: u32,
    pub route_count: u32,
}

/// One route of a row; its gating weight is carried by its bits.
#[derive(Debug, Clone, Copy, PartialEq, Eq, Structural)]
pub struct RouteEntry {
    pub row_index: u32,
    pub expert_id: u32,
    pub gate_bits: u32,
}

/// A request to the experts of one layer, tied to the query it comes from.
pub struct BoundExpertRequest {
    pub request_id: u64,
    pub placement: u64,
    pub layer: u32,
    pub hidden_size: u32,
    pub dtype: ExpertV2Dtype,
    /// Answers are to come as compact BF16 rows.
    pub compact_bf16: bool,
    pub rows: Vec<RowDescriptor>,
    pub routes: Vec<RouteEntry>,
    pub hidden: Vec<u8>,
    pub binding: QueryBinding,
}

impl BoundExpertRequest {
    pub fn binding(&self) -> (r: QueryBinding)
        ensures
            r == self.binding,
    {
        self.binding
    }
}

/// Where a request's parts come from.
#[derive(Debug, Clone, Copy, PartialEq, Eq, Structural)]
pub enum RequestSource {
    /// The pinned memory holds them: hidden rows up to `ids`, expert numbers up to
    /// `weights`, gate weights up to `end`.
    Staged { ids: usize, weights: usize, end: usize },
    /// The memory is too small: the buffers are downloaded one by one.
    Direct { hidden: RouterPart },
}

impl<'a> RouterOutput<'a> {
    pub open spec fn wf(&self) -> bool {
        &&& 1 <= self.rows <= 4096
        &&& self.ids.bytes == self.rows * 24
        &&& self.layer < 40
    }

    pub fn binding(&self) -> (r: Result<QueryBinding, Error>)
        ensures
            match r {
                Ok(binding) => self.origin == Some(binding),
                Err(e) => e == Error::RouterUnbound && self.origin is None,
            },
    {
        match self.origin {
            Some(binding) => Ok(binding),
            None => Err(Error::RouterUnbound),
        }
    }

    /// Why the expert numbers cannot be read from `words` words of host memory.
    pub open spec fn capture_error(&self, words: int) -> Option<Error> {
        let offset = if self.full_request {
            self.rows * router::hidden_width(self.request_nvfp4)
        } else {
            0
        };
        if !(1 <= self.rows <= 4096 && self.ids.bytes == self.rows * 24) {
            Some(Error::RouteCapture)
        } else if offset + self.rows * 24 > 4 * words {
            Some(Error::RouteCaptureStaging)
        } else {
            None
        }
    }

    /// The expert numbers are those in the host memory's words.
    pub open spec fn captures(&self, staging: Seq<u32>, ids: Seq<[u32; 6]>) -> bool {
        let start = if self.full_request {
            self.rows * router::hidden_width(self.request_nvfp4) / 4
        } else {
            0
        };
        &&& ids.len() == self.rows
        &&& forall|i: int, j: int|
            0 <= i < self.rows && 0 <= j < 6 ==> (#[trigger] ids[i]@[j]) == staging[start + i * 6
                + j]
    }

    /// The expert numbers of every row, read from the host memory that the run
    /// has filled (as four-byte words).
    pub fn capture_route_ids(&self, staging: &[u32]) -> (r: Result<Vec<[u32; 6]>, Error>)
        requires
            4 * staging@.len() <= usize::MAX,
        ensures
            match r {
                Err(e) => self.capture_error(staging@.len() as int) == Some(e),
                Ok(ids) => self.capture_error(staging@.len() as int) is None && self.captures(
                    staging@,
                    ids@,
                ),
            },
    {
        if !(self.rows >= 1 && self.rows <= 4096 && self.ids.bytes == self.rows as usize * 24) {
            return Err(Error::RouteCapture);
        }
        let n: usize = self.rows as usize;
        let (_, width): (ExpertV2Dtype, usize) = request_hidden_format(self.request_nvfp4);
        assert(n * width <= 4096 * 10240) by (nonlinear_arith)
            requires
                n <= 4096,
                width <= 10240,
        ;
        let offset: usize = if self.full_request {
            n * width
        } else {
            0
        };
        if offset + n * 24 > 4 * staging.len() {
            return Err(Error::RouteCaptureStaging);
        }
        let start: usize = offset / 4;
        assert(offset % 4 == 0) by {
            if self.full_request {
                if self.request_nvfp4 {
                    assert(offset == n * 10240);
                } else {
                    assert(offset == n * 5280);
                }
            }
        }
        let mut out: Vec<[u32; 6]> = Vec::new();
        let mut i: usize = 0;
        while i < n
            invariant
                i <= n <= 4096,
                start + n * 6 <= staging@.len(),
                start <= 4096 * 2560,
                out@.len() == i,
                forall|k: int, j: int|
                    0 <= k < i && 0 <= j < 6 ==> (#[trigger] out@[k]@[j]) == staging@[start + k * 6
                        + j],
            decreases n - i,
        {
            let at: usize = start + i * ROUTES;
            out.push(
                [
                    staging[at],
                    staging[at + 1],
                    staging[at + 2],
                    staging[at + 3],
                    staging[at + 4],
                    staging[at + 5],
                ],
            );
            i = i + 1;
        }
        Ok(out)
    }

    /// The rows are those of the routed block, in its order.
    pub open spec fn names_rows(&self, rows: Seq<ExpertRow>) -> bool {
        &&& self.origin matches Some(binding) && binding.layer == self.layer
        &&& rows.len() == self.rows
        &&& self.tokens@.len() == rows.len()
        &&& forall|i: int| 0 <= i < rows.len() ==> (#[trigger] rows[i]).position == self.tokens@[i]
    }

    pub fn validate_request_rows(&self, rows: &[ExpertRow]) -> (r: Result<QueryBinding, Error>)
        ensures
            match r {
                Ok(binding) => self.names_rows(rows@) && self.origin == Some(binding),
                Err(e) => !self.names_rows(rows@) && e == if self.origin is None {
                    Error::RouterUnbound
                } else {
                    Error::RequestRows
                },
            },
    {
        let binding: QueryBinding = match self.binding() {
            Err(e) => {
                return Err(e);
            },
            Ok(binding) => binding,
        };
        if !(binding.layer == self.layer && rows.len() == self.rows as usize && self.tokens.len()
            == rows.len()) {
            return Err(Error::RequestRows);
        }
        let mut i: usize = 0;
        while i < rows.len()
            invariant
                i <= rows@.len(),
                self.tokens@.len() == rows@.len(),
                self.origin is Some,
                forall|k: int| 0 <= k < i ==> (#[trigger] rows@[k]).position == self.tokens@[k],
            decreases rows@.len() - i,
        {
            if rows[i].position != self.tokens[i] {
                assert(rows@[i as int].position != self.tokens@[i as int]);
                return Err(Error::RequestRows);
            }
            i = i + 1;
        }
        Ok(binding)
    }

    /// Where the request's parts are found.
    pub fn download_request(&self) -> (r: Result<RequestSource, Error>)
        requires
            self.wf(),
        ensures
            if !self.full_request {
                r == Err::<RequestSource, Error>(Error::LocalRouting)
            } else {
                let width = router::hidden_width(self.request_nvfp4);
                r == Ok::<RequestSource, Error>(
                    if self.rows * (width + 48) > self.staging {
                        RequestSource::Direct { hidden: router::hidden_part(self.request_nvfp4) }
                    } else {
                        RequestSource::Staged {
                            ids: (self.rows * width) as usize,
                            weights: (self.rows * width + self.rows * 24) as usize,
                            end: (self.rows * (width + 48)) as usize,
                        }
                    },
                )
            },
    {
        if !self.full_request {
            return Err(Error::LocalRouting);
        }
        let n: usize = self.rows as usize;
        let (_, width): (ExpertV2Dtype, usize) = request_hidden_format(self.request_nvfp4);
        assert(n * (width + 48) <= 4096 * 10288) by (nonlinear_arith)
            requires
                n <= 4096,
                width <= 10240,
        ;
        assert(n * width + n * 48 == n * (width + 48)) by (nonlinear_arith);
        let bytes: usize = n * (width + 48);
        if bytes > self.staging {
            let hidden = if self.request_nvfp4 {
                RouterPart::Input
            } else {
                RouterPart::ExpertInput
            };
            return Ok(RequestSource::Direct { hidden });
        }
        Ok(RequestSource::Staged { ids: n * width, weights: n * width + n * 24, end: bytes })
    }

    /// One descriptor per row, in order, with its six routes.
    pub open spec fn descriptors(rows: Seq<ExpertRow>) -> Seq<RowDescriptor> {
        Seq::new(
            rows.len(),
            |i: int|
                RowDescriptor {
                    row_id: i as u64,
                    source_kind: rows[i].kind,
                    source_request_id: rows[i].request_id,
                    token_position: rows[i].position,
                    route_offset: (i * 6) as u32,
                    route_count: 6,
                },
        )
    }

    /// One route per expert number, six to a row.
    pub open spec fn route_entries(ids: Seq<u32>, weights: Seq<u32>) -> Seq<RouteEntry> {
        Seq::new(
            ids.len(),
            |i: int|
                RouteEntry {
                    row_index: (i / 6) as u32,
                    expert_id: ids[i],
                    gate_bits: weights[i],
                },
        )
    }

    /// The request for the routed rows under the number `id`.
    pub open spec fn is_request(
        &self,
        id: u64,
        placement: u64,
        rows: Seq<ExpertRow>,
        hidden: Seq<u8>,
        ids: Seq<u32>,
        weights: Seq<u32>,
        request: BoundExpertRequest,
    ) -> bool {
        &&& request.request_id == id
        &&& request.placement == placement
        &&& request.layer == self.layer
        &&& request.hidden_size == HIDDEN_SIZE
        &&& request.dtype == router::hidden_dtype(self.request_nvfp4)
        &&& request.compact_bf16
        &&& request.rows@ == Self::descriptors(rows)
        &&& request.routes@ == Self::route_entries(ids, weights)
        &&& request.hidden@ == hidden
        &&& self.origin == Some(request.binding)
    }

    /// Why no request can be built.
    pub open spec fn request_error(
        &self,
        rows: Seq<ExpertRow>,
        next: u64,
        accepted: Result<(), Error>,
    ) -> Option<Error> {
        if !self.names_rows(rows) {
            Some(
                if self.origin is None {
                    Error::RouterUnbound
                } else {
                    Error::RequestRows
                },
            )
        } else if next == u64::MAX {
            Some(Error::ExpertIdsExhausted)
        } else if !self.full_request {
            Some(Error::LocalRouting)
        } else {
            match accepted {
                Err(e) => Some(e),
                Ok(_) => None,
            }
        }
    }

    /// The request for the routed rows, from what was downloaded: hidden rows,
    /// expert numbers and the bits of the gating weights. `accepted` is whether the
    /// receivers' batch contract admits it. A number is used up by every request
    /// whose rows are right, built or not.
    pub fn expert_request(
        &self,
        next: &mut u64,
        placement: u64,
        rows: &[ExpertRow],
        hidden: Vec<u8>,
        ids: &[u32],
        weights: &[u32],
        accepted: Result<(), Error>,
    ) -> (r: Result<BoundExpertRequest, Error>)
        requires
            self.wf(),
            ids@.len() == self.rows * 6,
            weights@.len() == self.rows * 6,
            hidden@.len() == self.rows * router::hidden_width(self.request_nvfp4),
        ensures
            *final(next) == if self.names_rows(rows@) && *old(next) < u64::MAX {
                (*old(next) + 1) as u64
            } else {
                *old(next)
            },
            match r {
                Err(e) => self.request_error(rows@, *old(next), accepted) == Some(e),
                Ok(request) => {
                    &&& self.request_error(rows@, *old(next), accepted) is None
                    &&& self.is_request(
                        *old(next),
                        placement,
                        rows@,
                        hidden@,
                        ids@,
                        weights@,
                        request,
                    )
                    &&& request.hidden == hidden
                },
            },
    {
        let binding: QueryBinding = match self.validate_request_rows(rows) {
            Err(e) => {
                return Err(e);
            },
            Ok(binding) => binding,
        };
        let request_id: u64 = *next;
        match request_id.checked_add(1) {
            None => {
                return Err(Error::ExpertIdsExhausted);
            },
            Some(following) => {
                *next = following;
            },
        }
        if !self.full_request {
            return Err(Error::LocalRouting);
        }
        match accepted {
            Err(e) => {
                return Err(e);
            },
            Ok(_) => {},
        }
        let n: usize = rows.len();
        let mut descriptors: Vec<RowDescriptor> = Vec::new();
        let mut i: usize = 0;
        while i < n
            invariant
                i <= n == rows@.len(),
                n <= 4096,
                descriptors@ == Self::descriptors(rows@).subrange(0, i as int),
            decreases n - i,
        {
            descriptors.push(
                RowDescriptor {
                    row_id: i as u64,
                    source_kind: rows[i].kind,
                    source_request_id: rows[i].request_id,
                    token_position: rows[i].position,
                    route_offset: i as u32 * 6,
                    route_count: 6,
                },
            );
            i = i + 1;
            assert(descriptors@ =~= Self::descriptors(rows@).subrange(0, i as int));
        }
        assert(descriptors@ =~= Self::descriptors(rows@));
        let count: usize = ids.len();
        let mut routes: Vec<RouteEntry> = Vec::new();
        let mut k: usize = 0;
        while k < count
            invariant
                k <= count == ids@.len(),
                count <= 24576,
                weights@.len() == count,
                routes@ == Self::route_entries(ids@, weights@).subrange(0, k as int),
            decreases count - k,
        {
            routes.push(
                RouteEntry {
                    row_index: (k / ROUTES) as u32,
                    expert_id: ids[k],
                    gate_bits: weights[k],
                },
            );
            k = k + 1;
            assert(routes@ =~= Self::route_entries(ids@, weights@).subrange(0, k as int));
        }
        assert(routes@ =~= Self::route_entries(ids@, weights@));
        let (dtype, _): (ExpertV2Dtype, usize) = request_hidden_format(self.request_nvfp4);
        Ok(
            BoundExpertRequest {
                request_id,
                placement,
                layer: self.layer as u32,
                hidden_size: HIDDEN_SIZE,
                dtype,
                compact_bf16: true,
                rows: descriptors,
                routes,
                hidden,
                binding,
            },
        )
    }
}

/// Every row of a request has exactly its own six routes: they start at the row's
/// offset, and each names the row. The row is the one that was given at its place,
/// and each route has the expert number and the weight downloaded at its place.
pub proof fn law_routes_follow_their_rows(
    rows: Seq<ExpertRow>,
    ids: Seq<u32>,
    weights: Seq<u32>,
    i: int,
    j: int,
)
    requires
        rows.len() <= 4096,
        ids.len() == rows.len() * 6,
        0 <= i < rows.len(),
        0 <= j < 6,
    ensures
        RouterOutput::descriptors(rows).len() == rows.len(),
        RouterOutput::route_entries(ids, weights).len() == 6 * rows.len(),
        ({
            let row = RouterOutput::descriptors(rows)[i];
            &&& row.row_id == i
            &&& row.source_kind == rows[i].kind
            &&& row.source_request_id == rows[i].request_id
            &&& row.token_position == rows[i].position
            &&& row.route_offset == i * 6
            &&& row.route_count == 6
        }),
        ({
            let route = RouterOutput::route_entries(ids, weights)[i * 6 + j];
            &&& route.row_index == i
            &&& route.expert_id == ids[i * 6 + j]
            &&& route.gate_bits == weights[i * 6 + j]
        }),
{
}

/// A request that is built carries the routed block whole: its layer and binding, a
/// row for every token of the block in the block's order, under that token's
/// position and the request and kind it was given with; for every row the routes
/// from its offset on are exactly those that name it, with the downloaded expert
/// numbers and gate weights; and the hidden rows side by side, each as wide as the
/// announced format.
pub proof fn law_request_carries_its_block(
    output: &RouterOutput,
    id: u64,
    placement: u64,
    rows: Seq<ExpertRow>,
    hidden: Seq<u8>,
    ids: Seq<u32>,
    weights: Seq<u32>,
    request: BoundExpertRequest,
)
    requires
        output.wf(),
        output.names_rows(rows),
        hidden.len() == output.rows * router::hidden_width(output.request_nvfp4),
        ids.len() == output.rows * 6,
        weights.len() == output.rows * 6,
        output.is_request(id, placement, rows, hidden, ids, weights, request),
    ensures
        request.request_id == id,
        request.placement == placement,
        request.compact_bf16,
        request.hidden_size == 5120,
        request.layer == output.layer,
        request.layer == request.binding.layer,
        output.origin == Some(request.binding),
        request.rows@.len() == output.tokens@.len(),
        request.routes@.len() == 6 * request.rows@.len(),
        request.hidden@ == hidden,
        match request.dtype {
            ExpertV2Dtype::Bf16 => output.request_nvfp4 && request.hidden@.len() == 10240
                * request.rows@.len(),
            ExpertV2Dtype::Fp8E4m3Ue8m0K32 => !output.request_nvfp4 && request.hidden@.len()
                == 5280 * request.rows@.len(),
        },
        forall|i: int|
            0 <= i < request.rows@.len() ==> {
                let row = #[trigger] request.rows@[i];
                &&& row.row_id == i
                &&& row.token_position == output.tokens@[i]
                &&& row.token_position == rows[i].position
                &&& row.source_request_id == rows[i].request_id
                &&& row.source_kind == rows[i].kind
            },
        forall|i: int, k: int|
            #![trigger request.rows@[i], request.routes@[k]]
            0 <= i < request.rows@.len() && 0 <= k < request.routes@.len() ==> {
                let row = request.rows@[i];
                (request.routes@[k].row_index == i <==> row.route_offset <= k < row.route_offset
                    + row.route_count)
            },
        forall|k: int|
            0 <= k < request.routes@.len() ==> {
                let route = #[trigger] request.routes@[k];
                &&& route.row_index < request.rows@.len()
                &&& route.expert_id == ids[k]
                &&& route.gate_bits == weights[k]
            },
{
    assert(rows.len() == request.rows@.len());
    assert forall|i: int, k: int|
        #![trigger request.rows@[i], request.routes@[k]]
        0 <= i < request.rows@.len() && 0 <= k < request.routes@.len() implies {
        let row = request.rows@[i];
        (request.routes@[k].row_index == i <==> row.route_offset <= k < row.route_offset
            + row.route_count)
    } by {
        law_routes_follow_their_rows(rows, ids, weights, i, 0);
        law_routes_follow_their_rows(rows, ids, weights, k / 6, k % 6);
    }
}

/// The parts of a staged request lie side by side: hidden rows, expert numbers
/// and gate weights fill the request without gap or overlap.
pub proof fn law_staged_parts_tile_the_request(nvfp4: bool, rows: u32)
    requires
        1 <= rows <= 4096,
    ensures
        ({
            let parts = router::request_downloads(nvfp4, rows as int);
            &&& parts[0].offset == 0
            &&& parts[1].offset == parts[0].bytes
            &&& parts[2].offset == parts[1].offset + parts[1].bytes
            &&& parts[2].offset + parts[2].bytes == rows * (router::hidden_width(nvfp4) + 48)
        }),
{
    let width = router::hidden_width(nvfp4);
    assert(rows * width <= 4096 * 10240) by (nonlinear_arith)
        requires
            rows <= 4096,
            0 <= width <= 10240,
    ;
    assert(0 <= rows * width) by (nonlinear_arith)
        requires
            0 <= rows,
            0 <= width,
    ;
    assert(rows * width + rows * 48 == rows * (width + 48)) by (nonlinear_arith);
}

/// Captured expert numbers are read where the run has downloaded them: row by row, six
/// words each, from the first word of that part to its last.
pub proof fn law_captured_ids_are_those_downloaded(
    output: RouterOutput,
    staging: Seq<u32>,
    ids: Seq<[u32; 6]>,
    i: int,
    j: int,
)
    requires
        output.capture_error(staging.len() as int) is None,
        output.captures(staging, ids),
        0 <= i < ids.len(),
        0 <= j < 6,
    ensures
        ({
            let rows = output.rows as int;
            let part = if output.full_request {
                router::request_downloads(output.request_nvfp4, rows)[1]
            } else {
                router::route_downloads(rows)[0]
            };
            &&& part.part == router::RouterPart::Ids
            &&& ids.len() == output.rows
            &&& part.bytes == 24 * ids.len()
            &&& part.offset % 4 == 0
            &&& part.offset / 4 + 6 * i + j < (part.offset + part.bytes) / 4
            &&& (part.offset + part.bytes) / 4 <= staging.len()
            &&& ids[i]@[j] == staging[part.offset / 4 + 6 * i + j]
        }),
{
    let rows = output.rows as int;
    let width = router::hidden_width(output.request_nvfp4);
    assert(0 <= rows * width <= 4096 * 10240) by (nonlinear_arith)
        requires
            0 <= rows <= 4096,
            0 <= width <= 10240,
    ;
    if output.request_nvfp4 {
        assert(rows * width == 10240 * rows);
    } else {
        assert(rows * width == 5280 * rows);
    }
    assert(ids[i]@[j] == ids[i]@[j]);
}

} // verus!
