//! The feed-forward half: routing, experts and the end of a layer.
use crate::attention_binding::QueryBinding;
use crate::backbone_cache::plan::ExpertRow;
use crate::backbone_cache::LAYERS;
use crate::block::{BackboneBlockWave, BlockPhase, FfnInput, PRE_BYTES, RESIDUAL_BYTES};
use crate::device::DeviceBuffer;
use crate::error::Error;
use crate::execution::cost;
use crate::lane::split::{FfnSplit, FfnTimes};
use crate::lane::{BackboneLane, Phase};
use crate::router;
use crate::router::request::BoundExpertRequest;
use crate::router::RouterOutput;
use vstd::prelude::*;

verus! {

/// Marks the feed-forward work as begun. Work that is dropped before its end
/// leaves the lane invalid.
pub fn begin_ffn_work(phase: &mut Phase) -> (r: Result<(), Error>)
    ensures
        *final(phase) == Phase::Invalid,
        r == if *old(phase) == Phase::Ffn {
            Ok::<(), Error>(())
        } else {
            Err::<(), Error>(Error::LaneFfnPending)
        },
{
    let prior: Phase = *phase;
    *phase = Phase::Invalid;
    if prior == Phase::Ffn {
        Ok(())
    } else {
        Err(Error::LaneFfnPending)
    }
}

/// Ends the feed-forward work; only success is published.
pub fn finish_ffn_work(phase: &mut Phase, result: Result<(), Error>) -> (r: Result<(), Error>)
    requires
        *old(phase) == Phase::Invalid,
    ensures
        match result {
            Ok(_) => r is Ok && *final(phase) == Phase::SharedReady,
            Err(e) => r == Err::<(), Error>(e) && *final(phase) == Phase::Invalid,
        },
{
    match result {
        Err(e) => Err(e),
        Ok(_) => {
            *phase = Phase::SharedReady;
            Ok(())
        },
    }
}

/// Where a layer's experts are.
#[derive(Debug, Clone, Copy, PartialEq, Eq, Structural)]
pub struct ExpertLayers {
    /// Routed experts are on this machine.
    pub local: bool,
    /// Routed and shared experts are split over both local devices.
    pub tp2: bool,
    /// Only the shared experts are split over both local devices.
    pub tp2_shared: bool,
}

/// What a routing left in host memory.
pub struct RoutedData<'a> {
    /// The pinned memory, as four-byte words.
    pub staging: &'a [u32],
    pub ids: &'a [u32],
    /// The bits of the gating weights.
    pub gates: &'a [u32],
    /// Whether the receivers' batch contract admits the request made of it.
    pub accepted: Result<(), Error>,
}

/// The work that follows the routing.
pub enum FfnStep {
    LocalTp2,
    Local,
    Remote { request: BoundExpertRequest, tp2_shared: bool },
}

/// Which work a step was.
#[derive(Debug, Clone, Copy, PartialEq, Eq, Structural)]
pub enum FfnKind {
    LocalTp2,
    Local,
    RemoteTp2,
    Remote,
}

impl FfnKind {
    /// The lane's own shared experts take part.
    pub open spec fn runs_shared(self) -> bool {
        self is Local || self is Remote
    }

    /// Times are summed also where the experts fail.
    pub open spec fn times_failures(self) -> bool {
        !(self is Remote)
    }
}

/// The expert numbers of each row of a request.
pub open spec fn rows_of_ids(ids: Seq<u32>, rows: Seq<[u32; 6]>) -> bool {
    &&& ids.len() == rows.len() * 6
    &&& forall|i: int, j: int|
        0 <= i < rows.len() && 0 <= j < 6 ==> (#[trigger] rows[i]@[j]) == ids[i * 6 + j]
}

fn id_rows(ids: &[u32]) -> (r: Vec<[u32; 6]>)
    requires
        ids@.len() % 6 == 0,
    ensures
        rows_of_ids(ids@, r@),
{
    let mut out: Vec<[u32; 6]> = Vec::new();
    let total: usize = ids.len();
    let count: usize = total / 6;
    let mut i: usize = 0;
    while i < count
        invariant
            i <= count,
            ids@.len() == total == count * 6,
            out@.len() == i,
            forall|k: int, j: int|
                0 <= k < i && 0 <= j < 6 ==> (#[trigger] out@[k]@[j]) == ids@[k * 6 + j],
        decreases count - i,
    {
        let at: usize = i * 6;
        out.push([ids[at], ids[at + 1], ids[at + 2], ids[at + 3], ids[at + 4], ids[at + 5]]);
        i = i + 1;
    }
    out
}

impl BackboneBlockWave {
    /// The pending feed-forward input, with its normalized values.
    pub fn pending_ffn(&self, values: DeviceBuffer) -> (r: Result<FfnInput<'_>, Error>)
        requires
            self.inv(),
        ensures
            match r {
                Err(e) => e == Error::BlockFfnPending && !(self.phase is Ffn),
                Ok(input) => self.is_ffn_input(values, input),
            },
    {
        match self.phase {
            BlockPhase::Ffn { binding, rows } => Ok(
                FfnInput {
                    residual: self.ffn_residual.prefix(rows * RESIDUAL_BYTES),
                    incoming_pre: self.ffn_pre.prefix(rows * PRE_BYTES),
                    values,
                    layer: self.layer,
                    tokens: self.tokens.as_slice(),
                    binding,
                },
            ),
            _ => Err(Error::BlockFfnPending),
        }
    }
}

impl<'w> BackboneLane<'w> {
    /// The block's feed-forward input.
    pub open spec fn has_ffn_input(&self) -> bool {
        self.block.phase is Ffn && self.values is Some
    }

    /// The router takes the pending input with this image mask.
    pub open spec fn router_takes(&self, mask: Seq<u8>) -> bool {
        let values = self.values->Some_0;
        &&& self.block.layer == self.router.weights.layer
        &&& self.block.phase matches BlockPhase::Ffn { binding, .. } && binding.layer
            == self.router.weights.layer
        &&& 1 <= self.block.tokens@.len() <= self.router.state.capacity
        &&& values.bytes == self.block.tokens@.len() * 10240
        &&& values.device == self.router.buffers.input.device
        &&& mask.len() == self.block.tokens@.len()
        &&& router::binary(mask)
    }

    /// Why the rows are not routed: the lane has no pending input, the router is
    /// busy or refuses it, or the device fails.
    pub open spec fn route_error(
        &self,
        local: bool,
        mask: Seq<u8>,
        drained: bool,
        work: Result<(), Error>,
    ) -> Option<Error> {
        if self.phase != Phase::Ffn {
            Some(Error::LaneFfnPending)
        } else if self.router.full_request == local && !drained {
            Some(Error::StreamBusy)
        } else if !self.has_ffn_input() {
            Some(Error::BlockFfnPending)
        } else if !self.router_takes(mask) {
            Some(Error::RouterInput)
        } else if mask.len() > self.router.buffers.staging {
            Some(Error::RouterStaged)
        } else {
            match work {
                Err(e) => Some(e),
                Ok(_) => None,
            }
        }
    }

    /// The rows are those of the routed block.
    pub open spec fn names_rows(&self, rows: Seq<ExpertRow>) -> bool {
        &&& rows.len() == self.block.tokens@.len()
        &&& forall|i: int|
            0 <= i < rows.len() ==> (#[trigger] rows[i]).position == self.block.tokens@[i]
    }

    /// Where the expert numbers of local experts are read.
    pub open spec fn capture_fault(&self, words: int) -> Option<Error> {
        if self.block.tokens@.len() * 24 > 4 * words {
            Some(Error::RouteCaptureStaging)
        } else {
            None
        }
    }

    /// Why the routed rows do not go to experts.
    pub open spec fn step_error(
        &self,
        experts: ExpertLayers,
        rows: Seq<ExpertRow>,
        words: int,
        next: u64,
        accepted: Result<(), Error>,
    ) -> Option<Error> {
        if experts.local {
            if !self.names_rows(rows) {
                Some(Error::RequestRows)
            } else if self.capture_routes && self.capture_fault(words) is Some {
                self.capture_fault(words)
            } else if !experts.tp2 && self.shared is None {
                Some(Error::LaneSharedWorkspace)
            } else {
                None
            }
        } else if self.shared is None && !experts.tp2_shared {
            Some(Error::LaneDecoderShared)
        } else if !self.names_rows(rows) {
            Some(Error::RequestRows)
        } else if next == u64::MAX {
            Some(Error::ExpertIdsExhausted)
        } else {
            match accepted {
                Err(e) => Some(e),
                Ok(_) => None,
            }
        }
    }

    /// A request takes the next number, whether it is admitted or not.
    pub open spec fn takes_number(
        &self,
        experts: ExpertLayers,
        rows: Seq<ExpertRow>,
        next: u64,
    ) -> bool {
        &&& !experts.local
        &&& self.shared is Some || experts.tp2_shared
        &&& self.names_rows(rows)
        &&& next < u64::MAX
    }

    /// The step that follows a routing of the pending input.
    pub open spec fn is_step(
        &self,
        experts: ExpertLayers,
        rows: Seq<ExpertRow>,
        data: &RoutedData,
        hidden: Seq<u8>,
        placement: u64,
        next: u64,
        step: FfnStep,
    ) -> bool {
        if experts.local {
            step == if experts.tp2 {
                FfnStep::LocalTp2
            } else {
                FfnStep::Local
            }
        } else {
            step matches FfnStep::Remote { request, tp2_shared } && {
                &&& tp2_shared == experts.tp2_shared
                &&& request.request_id == next
                &&& request.placement == placement
                &&& request.layer == self.block.layer
                &&& request.hidden_size == 5120
                &&& request.dtype == router::hidden_dtype(self.router.weights.nvfp4)
                &&& request.compact_bf16
                &&& request.rows@ == RouterOutput::descriptors(rows)
                &&& request.routes@ == RouterOutput::route_entries(data.ids@, data.gates@)
                &&& request.hidden@ == hidden
                &&& self.block.phase matches BlockPhase::Ffn { binding, .. } && request.binding
                    == binding
            }
        }
    }

    /// The router after the pending input was to be routed: its mode changes before
    /// anything of the input is looked at, and it publishes only what it has routed.
    pub open spec fn router_used(
        &self,
        before: &Self,
        local: bool,
        mask: Seq<u8>,
        drained: bool,
        work: Result<(), Error>,
    ) -> bool {
        if before.phase != Phase::Ffn || before.router.full_request == local && !drained {
            self.router == before.router
        } else {
            &&& self.router.weights == before.router.weights
            &&& self.router.buffers == before.router.buffers
            &&& self.router.full_request == !local
            &&& match before.route_error(local, mask, drained, work) {
                None => before.block.phase matches BlockPhase::Ffn { binding, .. }
                    && self.router.state.published_for(
                    &before.router.state,
                    binding,
                    before.block.tokens@,
                ),
                Some(_) => if before.has_ffn_input() || before.router.full_request == local {
                    self.router.state.cleared(&before.router.state)
                } else {
                    self.router.state == before.router.state
                },
            }
        }
    }

    /// The experts of the routed rows are kept.
    pub open spec fn captures(
        &self,
        experts: ExpertLayers,
        mask: Seq<u8>,
        rows: Seq<ExpertRow>,
        drained: bool,
        work: Result<(), Error>,
        words: int,
        next: u64,
        accepted: Result<(), Error>,
    ) -> bool {
        &&& self.capture_routes
        &&& self.route_error(experts.local, mask, drained, work) is None
        &&& if experts.local {
            self.names_rows(rows) && self.capture_fault(words) is None
        } else {
            self.step_error(experts, rows, words, next, accepted) is None
        }
    }

    /// Takes the pending input through the router and decides where its rows go.
    /// `work` is how the routing went; `data` and `hidden` are what it left in
    /// host memory. Until the step is finished the lane is invalid.
    #[verifier::rlimit(50)]
    pub fn begin_tp4(
        &mut self,
        experts: ExpertLayers,
        mask: &[u8],
        rows: &[ExpertRow],
        drained: bool,
        work: Result<(), Error>,
        data: &RoutedData,
        hidden: Vec<u8>,
        placement: u64,
        next: &mut u64,
    ) -> (r: Result<FfnStep, Error>)
        requires
            old(self).inv(),
            4 * data.staging@.len() <= usize::MAX,
            data.ids@.len() == old(self).block.tokens@.len() * 6,
            data.gates@.len() == old(self).block.tokens@.len() * 6,
            hidden@.len() == old(self).block.tokens@.len() * router::hidden_width(
                old(self).router.weights.nvfp4,
            ),
        ensures
            final(self).inv(),
            final(self).same_lane(old(self)),
            final(self).phase == Phase::Invalid,
            final(self).block == old(self).block,
            final(self).query == old(self).query,
            final(self).projection == old(self).projection,
            final(self).shared == old(self).shared,
            final(self).values == old(self).values,
            final(self).layer == old(self).layer,
            final(self).ffn_split == old(self).ffn_split,
            final(self).recorded == old(self).recorded,
            final(self).entry_layer == old(self).entry_layer,
            final(self).router_used(old(self), experts.local, mask@, drained, work),
            if old(self).captures(
                experts,
                mask@,
                rows@,
                drained,
                work,
                data.staging@.len() as int,
                *old(next),
                data.accepted,
            ) {
                let layer = old(self).block.layer as int;
                &&& final(self).route_capture@.len() == old(self).route_capture@.len()
                &&& rows_of_ids(
                    if experts.local {
                        data.staging@.subrange(0, data.ids@.len() as int)
                    } else {
                        data.ids@
                    },
                    final(self).route_capture@[layer]@,
                )
                &&& forall|l: int|
                    0 <= l < old(self).route_capture@.len() && l != layer
                        ==> #[trigger] final(self).route_capture@[l] == old(self).route_capture@[l]
            } else {
                final(self).route_capture == old(self).route_capture
            },
            *final(next) == if old(self).route_error(experts.local, mask@, drained, work) is None
                && old(self).takes_number(experts, rows@, *old(next)) {
                (*old(next) + 1) as u64
            } else {
                *old(next)
            },
            match r {
                Err(e) => match old(self).route_error(experts.local, mask@, drained, work) {
                    Some(reason) => e == reason,
                    None => old(self).step_error(
                        experts,
                        rows@,
                        data.staging@.len() as int,
                        *old(next),
                        data.accepted,
                    ) == Some(e),
                },
                Ok(step) => {
                    &&& old(self).route_error(experts.local, mask@, drained, work) is None
                    &&& old(self).step_error(
                        experts,
                        rows@,
                        data.staging@.len() as int,
                        *old(next),
                        data.accepted,
                    ) is None
                    &&& old(self).is_step(
                        experts,
                        rows@,
                        data,
                        hidden@,
                        placement,
                        *old(next),
                        step,
                    )
                },
            },
    {
        match begin_ffn_work(&mut self.phase) {
            Err(e) => {
                return Err(e);
            },
            Ok(_) => {},
        }
        match self.router.set_local_mode(experts.local, drained) {
            Err(e) => {
                return Err(e);
            },
            Ok(_) => {},
        }
        let values: DeviceBuffer = match self.values {
            None => {
                return Err(Error::BlockFfnPending);
            },
            Some(values) => values,
        };
        let input = match self.block.pending_ffn(values) {
            Err(e) => {
                return Err(e);
            },
            Ok(input) => input,
        };
        let layer: usize = input.layer;
        match self.router.execute_ffn(&input, mask, work) {
            Err(e) => {
                return Err(e);
            },
            Ok(_) => {},
        }
        let output = match self.router.output() {
            Err(e) => {
                assert(false);
                return Err(e);
            },
            Ok(output) => output,
        };
        assert(output.ids.bytes == output.rows * 24);
        assert(self.router.weights == old(self).router.weights);
        if experts.local {
            match output.validate_request_rows(rows) {
                Err(e) => {
                    assert(!old(self).names_rows(rows@));
                    return Err(e);
                },
                Ok(_) => {},
            }
            assert(old(self).names_rows(rows@));
            if self.capture_routes {
                match output.capture_route_ids(data.staging) {
                    Err(e) => {
                        return Err(e);
                    },
                    Ok(ids) => {
                        assert(rows_of_ids(
                            data.staging@.subrange(0, data.ids@.len() as int),
                            ids@,
                        ));
                        self.route_capture.set(layer, ids);
                    },
                }
            }
            if experts.tp2 {
                return Ok(FfnStep::LocalTp2);
            }
            if self.shared.is_none() {
                return Err(Error::LaneSharedWorkspace);
            }
            return Ok(FfnStep::Local);
        }
        if self.shared.is_none() && !experts.tp2_shared {
            return Err(Error::LaneDecoderShared);
        }
        let request: BoundExpertRequest = match output.expert_request(
            next,
            placement,
            rows,
            hidden,
            data.ids,
            data.gates,
            data.accepted,
        ) {
            Err(e) => {
                return Err(e);
            },
            Ok(request) => request,
        };
        assert(old(self).names_rows(rows@));
        if self.capture_routes {
            let ids = id_rows(data.ids);
            self.route_capture.set(layer, ids);
        }
        Ok(FfnStep::Remote { request, tp2_shared: experts.tp2_shared })
    }

    /// The shared experts take the pending input.
    pub open spec fn shared_takes(&self) -> bool {
        let values = self.values->Some_0;
        &&& self.shared matches Some(shared) && {
            &&& self.block.layer == shared.weights.layer
            &&& self.block.phase matches BlockPhase::Ffn { binding, .. } && binding.layer
                == shared.weights.layer
            &&& values.bytes == self.block.tokens@.len() * 10240
            &&& values.device == shared.buffers.input.device
        }
    }

    /// Why the lane's shared experts do not run.
    pub open spec fn shared_error(&self, work: Result<(), Error>) -> Option<Error> {
        if self.shared is None {
            Some(Error::LaneSharedAbsent)
        } else if !self.has_ffn_input() {
            Some(Error::BlockFfnPending)
        } else if !self.shared_takes() {
            Some(Error::SharedInput)
        } else {
            match work {
                Err(e) => Some(e),
                Ok(_) => None,
            }
        }
    }

    /// The lane's shared experts after a run: published for the pending input
    /// where it went well, withdrawn where it failed, as they were where there is
    /// no input.
    pub open spec fn shared_ran(&self, before: &Self, work: Result<(), Error>) -> bool {
        match before.shared {
            None => self.shared is None,
            Some(was) => if !before.has_ffn_input() {
                self.shared == before.shared
            } else {
                self.shared matches Some(now) && {
                    &&& now.same_wave(&was)
                    &&& if before.shared_error(work) is None {
                        before.block.phase matches BlockPhase::Ffn { binding, .. }
                            && now.state.published_for(&was.state, binding, before.block.tokens@)
                    } else {
                        now.state.cleared(&was.state)
                    }
                }
            },
        }
    }

    fn run_shared(&mut self, work: Result<(), Error>) -> (r: Result<(), Error>)
        requires
            old(self).inv(),
        ensures
            final(self).inv(),
            final(self).same_lane(old(self)),
            final(self).same_captures(old(self)),
            final(self).block == old(self).block,
            final(self).query == old(self).query,
            final(self).projection == old(self).projection,
            final(self).router == old(self).router,
            final(self).values == old(self).values,
            final(self).layer == old(self).layer,
            final(self).phase == old(self).phase,
            final(self).shared_ran(old(self), work),
            match r {
                Err(e) => old(self).shared_error(work) == Some(e),
                Ok(_) => old(self).shared_error(work) is None,
            },
    {
        match &mut self.shared {
            None => Err(Error::LaneSharedAbsent),
            Some(shared) => {
                let values: DeviceBuffer = match self.values {
                    None => {
                        return Err(Error::BlockFfnPending);
                    },
                    Some(values) => values,
                };
                let input = match self.block.pending_ffn(values) {
                    Err(e) => {
                        return Err(e);
                    },
                    Ok(input) => input,
                };
                shared.execute_ffn(&input, work)
            },
        }
    }

    /// Why the step does not end well.
    pub open spec fn step_fault(
        &self,
        kind: FfnKind,
        shared: Result<(), Error>,
        result: Result<(), Error>,
    ) -> Option<Error> {
        if kind.runs_shared() && self.shared_error(shared) is Some {
            self.shared_error(shared)
        } else {
            match result {
                Err(e) => Some(e),
                Ok(_) => None,
            }
        }
    }

    /// The times of the step go into the pass's sums.
    pub open spec fn counts_step(
        &self,
        kind: FfnKind,
        shared: Result<(), Error>,
        result: Result<(), Error>,
    ) -> bool {
        &&& self.capture_routes
        &&& kind.runs_shared() ==> self.shared_error(shared) is None
        &&& kind.times_failures() || result is Ok
    }

    /// Ends a step. `shared` is how the lane's shared experts went, `result` how
    /// the experts and the reduction went. Only success readies the lane for its
    /// last step.
    pub fn finish_tp4(
        &mut self,
        kind: FfnKind,
        shared: Result<(), Error>,
        result: Result<(), Error>,
        times: FfnTimes,
    ) -> (r: Result<(), Error>)
        requires
            old(self).inv(),
            old(self).phase == Phase::Invalid,
            times.ordered(),
            old(self).ffn_split.fits(times.part()),
        ensures
            final(self).inv(),
            final(self).same_lane(old(self)),
            final(self).block == old(self).block,
            final(self).query == old(self).query,
            final(self).projection == old(self).projection,
            final(self).router == old(self).router,
            final(self).values == old(self).values,
            final(self).layer == old(self).layer,
            final(self).route_capture == old(self).route_capture,
            final(self).recorded == old(self).recorded,
            final(self).entry_layer == old(self).entry_layer,
            final(self).ffn_split == if old(self).counts_step(kind, shared, result) {
                old(self).ffn_split.plus(times.part())
            } else {
                old(self).ffn_split
            },
            if kind.runs_shared() {
                final(self).shared_ran(old(self), shared)
            } else {
                final(self).shared == old(self).shared
            },
            match r {
                Err(e) => old(self).step_fault(kind, shared, result) == Some(e)
                    && final(self).phase == Phase::Invalid,
                Ok(_) => old(self).step_fault(kind, shared, result) is None && final(self).phase
                    == Phase::SharedReady,
            },
    {
        let runs: bool = match kind {
            FfnKind::Local | FfnKind::Remote => true,
            FfnKind::LocalTp2 | FfnKind::RemoteTp2 => false,
        };
        if runs {
            match self.run_shared(shared) {
                Err(e) => {
                    return Err(e);
                },
                Ok(_) => {},
            }
        }
        let strict: bool = match kind {
            FfnKind::Remote => true,
            _ => false,
        };
        if self.capture_routes && (!strict || result.is_ok()) {
            let part: FfnSplit = times.split();
            self.ffn_split.add(&part);
        }
        finish_ffn_work(&mut self.phase, result)
    }

    /// Runs only the lane's shared experts on the pending input.
    pub fn execute_shared(&mut self, work: Result<(), Error>) -> (r: Result<(), Error>)
        requires
            old(self).inv(),
        ensures
            final(self).inv(),
            final(self).same_lane(old(self)),
            final(self).same_captures(old(self)),
            final(self).block == old(self).block,
            final(self).query == old(self).query,
            final(self).projection == old(self).projection,
            final(self).router == old(self).router,
            final(self).values == old(self).values,
            final(self).layer == old(self).layer,
            if old(self).phase == Phase::Ffn {
                final(self).shared_ran(old(self), work)
            } else {
                final(self).shared == old(self).shared
            },
            match r {
                Err(e) => {
                    &&& final(self).phase == Phase::Invalid
                    &&& if old(self).phase != Phase::Ffn {
                        e == Error::LaneSharedPending
                    } else {
                        old(self).shared_error(work) == Some(e)
                    }
                },
                Ok(_) => {
                    &&& old(self).phase == Phase::Ffn
                    &&& old(self).shared_error(work) is None
                    &&& final(self).phase == Phase::SharedReady
                },
            },
    {
        let prior: Phase = self.phase;
        self.phase = Phase::Invalid;
        if prior != Phase::Ffn {
            return Err(Error::LaneSharedPending);
        }
        match self.run_shared(work) {
            Err(e) => {
                return Err(e);
            },
            Ok(_) => {},
        }
        self.phase = Phase::SharedReady;
        Ok(())
    }

    /// The next layer runs on the other device, which takes the output directly.
    pub open spec fn hands_over(&self) -> bool {
        &&& self.weights.placed
        &&& self.layer < 39
        &&& self.weights.layers@[self.layer + 1].device != self.block.residual.device
    }

    /// Whether the output is copied to this lane's inputs together with the last
    /// step: not after the final layer, and not before a hand-over.
    pub fn copies_next(&self) -> (r: bool)
        requires
            self.inv(),
        ensures
            r == (self.layer < 39 && !self.hands_over()),
    {
        if self.layer >= 39 {
            return false;
        }
        !(self.weights.placed && self.weights.layers[self.layer + 1].device
            != self.block.residual.device)
    }

    /// Ends the layer with the experts' result. `copied` tells whether the output
    /// was copied to the inputs, `work` how the device work went, `timed` whether
    /// its end was timed.
    pub fn finish_ffn(
        &mut self,
        binding: QueryBinding,
        result: DeviceBuffer,
        copied: bool,
        work: Result<(), Error>,
        timed: bool,
    ) -> (r: Result<(), Error>)
        requires
            old(self).inv(),
        ensures
            final(self).inv(),
            final(self).same_lane(old(self)),
            final(self).query == old(self).query,
            final(self).same_tail(old(self)),
            final(self).block.layer == old(self).block.layer,
            final(self).route_capture == old(self).route_capture,
            final(self).ffn_split == old(self).ffn_split,
            final(self).entry_layer == old(self).entry_layer,
            match r {
                Err(e) => {
                    &&& final(self).phase == Phase::Invalid
                    &&& final(self).recorded == old(self).recorded
                    &&& if old(self).phase != Phase::SharedReady {
                        &&& e == (Error::LanePhase {
                            expected: Phase::SharedReady,
                            got: old(self).phase,
                        })
                        &&& final(self).block == old(self).block
                    } else {
                        &&& final(self).block.idle_like(&old(self).block)
                        &&& match old(self).block.finish_error(binding, result) {
                            Some(reason) => e == reason,
                            None => work == Err::<(), Error>(e),
                        }
                    }
                },
                Ok(_) => {
                    &&& old(self).phase == Phase::SharedReady
                    &&& old(self).block.finish_error(binding, result) is None
                    &&& work is Ok
                    &&& final(self).phase == Phase::Complete
                    &&& final(self).block.tokens == old(self).block.tokens
                    &&& old(self).block.phase matches BlockPhase::Ffn { rows, .. }
                        && final(self).block.phase == (BlockPhase::Ready { binding, rows, copied })
                    &&& final(self).recorded@ == if old(self).capture_routes && timed {
                        old(self).recorded@.update(old(self).layer as int, true)
                    } else {
                        old(self).recorded@
                    }
                },
            },
    {
        match self.enter(Phase::SharedReady) {
            Err(e) => {
                return Err(e);
            },
            Ok(_) => {},
        }
        match self.block.finish_ffn(binding, result, copied, work) {
            Err(e) => {
                return Err(e);
            },
            Ok(_) => {},
        }
        if self.capture_routes && timed {
            self.recorded.set(self.layer, true);
        }
        self.phase = Phase::Complete;
        Ok(())
    }
}

impl<'w> BackboneLane<'w> {
    /// Captures the routes of the passes to come, or stops doing so. Starting
    /// forgets everything captured before; stopping keeps the buffers.
    pub fn set_route_capture(&mut self, enabled: bool)
        requires
            old(self).inv(),
        ensures
            final(self).inv(),
            final(self).capture_routes == enabled,
            final(self).phase == old(self).phase,
            final(self).layer == old(self).layer,
            final(self).block == old(self).block,
            final(self).query == old(self).query,
            final(self).projection == old(self).projection,
            final(self).router == old(self).router,
            final(self).shared == old(self).shared,
            final(self).weights == old(self).weights,
            final(self).capacity == old(self).capacity,
            final(self).values == old(self).values,
            final(self).dual_attention == old(self).dual_attention,
            final(self).tp2_query == old(self).tp2_query,
            final(self).tp2_output == old(self).tp2_output,
            if enabled {
                &&& final(self).route_capture@.len() == LAYERS
                &&& forall|l: int|
                    0 <= l < LAYERS ==> (#[trigger] final(self).route_capture@[l])@.len() == 0
                &&& forall|l: int| 0 <= l < LAYERS ==> !#[trigger] final(self).recorded@[l]
                &&& final(self).entry_layer is None
                &&& final(self).ffn_split == FfnSplit::empty()
            } else {
                final(self).same_captures(old(self))
            },
    {
        self.capture_routes = enabled;
        if enabled {
            let mut rows: Vec<Vec<[u32; 6]>> = Vec::new();
            let mut recorded: Vec<bool> = Vec::new();
            let mut l: usize = 0;
            while l < LAYERS
                invariant
                    l <= LAYERS,
                    rows@.len() == l,
                    recorded@.len() == l,
                    forall|k: int| 0 <= k < l ==> (#[trigger] rows@[k])@.len() == 0,
                    forall|k: int| 0 <= k < l ==> !#[trigger] recorded@[k],
                decreases LAYERS - l,
            {
                rows.push(Vec::new());
                recorded.push(false);
                l = l + 1;
            }
            self.route_capture = rows;
            self.recorded = recorded;
            self.entry_layer = None;
            self.ffn_split = FfnSplit::default();
        }
    }

    pub fn route_capture_enabled(&self) -> (r: bool)
        ensures
            r == self.capture_routes,
    {
        self.capture_routes
    }

    pub fn captured_routes(&self) -> (r: &Vec<Vec<[u32; 6]>>)
        ensures
            *r == self.route_capture,
    {
        &self.route_capture
    }

    pub fn captured_ffn_split(&self) -> (r: FfnSplit)
        ensures
            r == self.ffn_split,
    {
        self.ffn_split
    }

    /// Both layers' ends were timed in the captured pass.
    pub fn layers_timed(&self, from: usize, to: usize) -> (r: bool)
        requires
            self.inv(),
        ensures
            r == (from < LAYERS && to < LAYERS && self.recorded@[from as int]
                && self.recorded@[to as int]),
    {
        from < LAYERS && to < LAYERS && self.recorded[from] && self.recorded[to]
    }

    /// The layer's arrival from the other device and its end were timed.
    pub fn entry_timed(&self, layer: usize) -> (r: bool)
        requires
            self.inv(),
        ensures
            r == (self.entry_layer == Some(layer) && layer < LAYERS
                && self.recorded@[layer as int]),
    {
        match self.entry_layer {
            None => false,
            Some(entry) => entry == layer && layer < LAYERS && self.recorded[layer],
        }
    }

    /// Reserves route history of `rows` rows for the layers up to `end`, before
    /// anything runs. What is captured stays as it is.
    pub fn reserve_route_capture(&mut self, end: usize, rows: usize) -> (r: Result<(), Error>)
        requires
            old(self).inv(),
        ensures
            final(self).inv(),
            if end <= 40 && rows <= 4096 {
                &&& r is Ok
                &&& *final(self) == (BackboneLane {
                    route_capture: final(self).route_capture,
                    ..*old(self)
                })
                &&& final(self).route_capture@.len() == LAYERS
                &&& forall|l: int|
                    0 <= l < LAYERS ==> (#[trigger] final(self).route_capture@[l])@ == if l
                        < old(self).route_capture@.len() {
                        old(self).route_capture@[l]@
                    } else {
                        Seq::empty()
                    }
            } else {
                &&& r == Err::<(), Error>(Error::LaneRouteHistory)
                &&& *final(self) == *old(self)
            },
    {
        if end > LAYERS || rows > 4096 {
            return Err(Error::LaneRouteHistory);
        }
        self.route_capture.truncate(LAYERS);
        while self.route_capture.len() < LAYERS
            invariant
                self.route_capture@.len() <= LAYERS,
                *self == (BackboneLane { route_capture: self.route_capture, ..*old(self) }),
                old(self).inv(),
                forall|l: int|
                    0 <= l < self.route_capture@.len() ==> (#[trigger] self.route_capture@[l])@ == if l
                        < old(self).route_capture@.len() {
                        old(self).route_capture@[l]@
                    } else {
                        Seq::empty()
                    },
                self.route_capture@.len() >= old(self).route_capture@.len()
                    || self.route_capture@.len() == LAYERS,
            decreases LAYERS - self.route_capture@.len(),
        {
            self.route_capture.push(Vec::new());
        }
        Ok(())
    }
}

/// Feed-forward work that is dropped or fails is never taken for complete: the
/// lane's phase lets neither another step nor the last one of the layer run.
pub proof fn law_interrupted_ffn_is_not_published(
    lane: &BackboneLane,
    kind: FfnKind,
    shared: Result<(), Error>,
    reason: Error,
)
    requires
        lane.phase == Phase::Invalid,
    ensures
        lane.step_fault(kind, shared, Err(reason)) is Some,
        lane.phase != Phase::SharedReady,
        forall|local: bool, mask: Seq<u8>, drained: bool, work: Result<(), Error>| #[trigger]
            lane.route_error(local, mask, drained, work) is Some,
{
}

/// The experts that a lane keeps of a layer are the routed ones, in their order: what is
/// counted of the rows is what is counted of the numbers.
pub proof fn law_kept_routes_are_the_routed_ones(ids: Seq<u32>, rows: Seq<[u32; 6]>)
    requires
        rows_of_ids(ids, rows),
    ensures
        cost::routes_of(rows) == ids,
{
    assert forall|k: int| 0 <= k < ids.len() implies cost::routes_of(rows)[k] == #[trigger] ids[k] by {
        assert(rows[k / 6]@[k % 6] == ids[k / 6 * 6 + k % 6]);
        assert(k / 6 * 6 + k % 6 == k);
    }
    assert(cost::routes_of(rows) =~= ids);
}

/// A step goes where the layer's experts are: to this machine's, on both devices or one,
/// or to the remote ones with a request under the number that was next. The request has
/// one row for each token of the block, at its position, and each row its six routes with
/// the experts and weights that were routed.
pub proof fn law_step_sends_the_routed_rows(
    lane: &BackboneLane,
    experts: ExpertLayers,
    rows: Seq<ExpertRow>,
    data: &RoutedData,
    hidden: Seq<u8>,
    placement: u64,
    next: u64,
    step: FfnStep,
    i: int,
    j: int,
)
    requires
        lane.is_step(experts, rows, data, hidden, placement, next, step),
        lane.names_rows(rows),
        rows.len() <= 4096,
        data.ids@.len() == rows.len() * 6,
        data.gates@.len() == rows.len() * 6,
        0 <= i < rows.len(),
        0 <= j < 6,
    ensures
        step is LocalTp2 <==> experts.local && experts.tp2,
        step is Local <==> experts.local && !experts.tp2,
        step is Remote <==> !experts.local,
        step matches FfnStep::Remote { request, tp2_shared } ==> {
            let row = request.rows@[i];
            let route = request.routes@[6 * i + j];
            &&& tp2_shared == experts.tp2_shared
            &&& request.request_id == next
            &&& request.placement == placement
            &&& request.layer == lane.block.layer
            &&& request.hidden@ == hidden
            &&& request.rows@.len() == lane.block.tokens@.len()
            &&& request.routes@.len() == 6 * lane.block.tokens@.len()
            &&& row.row_id == i
            &&& row.token_position == lane.block.tokens@[i]
            &&& row.source_request_id == rows[i].request_id
            &&& row.source_kind == rows[i].kind
            &&& row.route_offset == 6 * i && row.route_count == 6
            &&& route.row_index == i
            &&& route.expert_id == data.ids@[6 * i + j]
            &&& route.gate_bits == data.gates@[6 * i + j]
        },
{
    assert((6 * i + j) / 6 == i);
    assert(rows[i].position == lane.block.tokens@[i]);
}

} // verus!
