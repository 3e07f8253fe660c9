//! Routing of a block's rows to experts, and the requests that carry them.
pub mod request;

use crate::attention_binding::{QueryBinding, LAYERS};
use crate::block;
use crate::block::FfnInput;
use crate::device::{DeviceBuffer, DeviceCopy};
use crate::device_memory;
use crate::error::Error;
use crate::graphs::CachedGraph;
use crate::text;
use crate::text::append_count;
use crate::wave_state::{StageErrors, StageState};
use vstd::prelude::*;

verus! {

/// Experts that one row goes to.
pub const ROUTES: usize = 6;

/// Bytes of a row's expert numbers, and of its gate weights.
pub const ROUTE_BYTES: usize = 24;

pub const HIDDEN_BYTES: usize = 10240;

pub const SCORE_BYTES: usize = 1536;

pub const ENCODED_BYTES: usize = 5280;

/// Bytes of a layer's router weights.
pub const WEIGHT_BYTES: usize = 3935232;

/// Bytes of one row in all of a lane's buffers.
pub const ROUTER_ROW_BYTES: usize = 17105;

/// How hidden rows travel to the experts.
#[derive(Debug, Clone, Copy, PartialEq, Eq, Structural)]
pub enum ExpertV2Dtype {
    Bf16,
    Fp8E4m3Ue8m0K32,
}

/// Bytes of one hidden row in a request.
pub open spec fn hidden_width(nvfp4: bool) -> int {
    if nvfp4 {
        10240
    } else {
        5280
    }
}

pub open spec fn hidden_dtype(nvfp4: bool) -> ExpertV2Dtype {
    if nvfp4 {
        ExpertV2Dtype::Bf16
    } else {
        ExpertV2Dtype::Fp8E4m3Ue8m0K32
    }
}

/// The format of hidden rows: packed checkpoints take them as they are, others
/// take them encoded.
pub fn request_hidden_format(nvfp4: bool) -> (r: (ExpertV2Dtype, usize))
    ensures
        r == (hidden_dtype(nvfp4), hidden_width(nvfp4) as usize),
{
    if nvfp4 {
        (ExpertV2Dtype::Bf16, 10240)
    } else {
        (ExpertV2Dtype::Fp8E4m3Ue8m0K32, 5280)
    }
}

/// The tensor `part` of a layer's router.
pub open spec fn router_tensor(layer: nat, part: Seq<char>) -> Seq<char> {
    "layers."@ + text::decimal(layer) + ".ffn.gate."@ + part
}

fn name(layer: usize, part: &str) -> (r: String)
    ensures
        r@ == router_tensor(layer as nat, part@),
{
    let mut out: String = String::from_str("layers.");
    append_count(&mut out, layer);
    out.append(".ffn.gate.");
    out.append(part);
    out
}

/// What the weights of a layer's router are.
#[derive(Debug, Clone, Copy)]
pub struct BackboneRouterWeights {
    pub library: u64,
    pub layer: usize,
    /// The devices of the weight and of the two biases.
    pub devices: [i32; 3],
    pub nvfp4: bool,
}

/// Why a router of `layer` with `bytes` bytes of weights is not one.
pub open spec fn weight_error(layer: usize, bytes: usize) -> Option<Error> {
    if layer >= LAYERS {
        Some(Error::RouterLayer)
    } else if bytes != WEIGHT_BYTES {
        Some(Error::RouterGeometry)
    } else {
        None
    }
}

impl BackboneRouterWeights {
    pub fn names(layer: usize) -> (r: Result<Vec<String>, Error>)
        ensures
            match r {
                Err(e) => e == Error::RouterLayer && layer >= LAYERS,
                Ok(names) => {
                    &&& layer < LAYERS
                    &&& names@.len() == 3
                    &&& names@[0]@ == router_tensor(layer as nat, "weight"@)
                    &&& names@[1]@ == router_tensor(layer as nat, "bias"@)
                    &&& names@[2]@ == router_tensor(layer as nat, "bias_vl"@)
                },
            },
    {
        if layer >= LAYERS {
            return Err(Error::RouterLayer);
        }
        let mut names: Vec<String> = Vec::new();
        names.push(name(layer, "weight"));
        names.push(name(layer, "bias"));
        names.push(name(layer, "bias_vl"));
        Ok(names)
    }

    /// Bytes of a layer's router, given those of its tensors.
    pub fn device_bytes(layer: usize, plan: usize) -> (r: Result<usize, Error>)
        ensures
            match r {
                Ok(bytes) => weight_error(layer, plan) is None && bytes == WEIGHT_BYTES,
                Err(e) => weight_error(layer, plan) == Some(e),
            },
    {
        if layer >= LAYERS {
            return Err(Error::RouterLayer);
        }
        if plan != WEIGHT_BYTES {
            return Err(Error::RouterGeometry);
        }
        Ok(plan)
    }

    /// The weights of a layer, within `budget` bytes.
    pub fn load(
        library: u64,
        layer: usize,
        devices: [i32; 3],
        nvfp4: bool,
        plan: usize,
        budget: usize,
    ) -> (r: Result<Self, Error>)
        ensures
            r == match weight_error(layer, plan) {
                Some(e) => Err::<Self, Error>(e),
                None => if plan > budget {
                    Err::<Self, Error>(Error::RouterWeightsBudget)
                } else {
                    Ok::<Self, Error>(BackboneRouterWeights { library, layer, devices, nvfp4 })
                },
            },
    {
        match Self::device_bytes(layer, plan) {
            Err(e) => Err(e),
            Ok(bytes) => if bytes > budget {
                Err(Error::RouterWeightsBudget)
            } else {
                Ok(BackboneRouterWeights { library, layer, devices, nvfp4 })
            },
        }
    }
}

/// Storage of one lane's router.
#[derive(Debug, Clone, Copy, PartialEq, Eq, Structural)]
pub struct RouterBuffers {
    pub input: DeviceBuffer,
    pub mask: DeviceBuffer,
    pub scores: DeviceBuffer,
    pub ids: DeviceBuffer,
    pub routing: DeviceBuffer,
    pub expert_input: DeviceBuffer,
    /// Bytes of the pinned host memory that a request is gathered in.
    pub staging: usize,
}

/// What is copied to a router before it runs.
#[derive(Debug, Clone, Copy, PartialEq, Eq, Structural)]
pub struct StagedInputs {
    pub hidden: DeviceCopy,
    /// Where the mask goes from the pinned host memory.
    pub mask: DeviceBuffer,
}

/// One lane's router.
pub struct BackboneRouterWave {
    pub weights: BackboneRouterWeights,
    pub buffers: RouterBuffers,
    /// Whole requests are gathered, not only expert numbers.
    pub full_request: bool,
    pub state: StageState,
}

/// A published routing.
pub struct RouterOutput<'a> {
    pub layer: usize,
    pub rows: u32,
    pub input: DeviceBuffer,
    pub expert_input: DeviceBuffer,
    pub mask: DeviceBuffer,
    pub scores: DeviceBuffer,
    pub ids: DeviceBuffer,
    pub routing: DeviceBuffer,
    pub tokens: &'a [u64],
    pub request_nvfp4: bool,
    pub staging: usize,
    pub full_request: bool,
    pub origin: Option<QueryBinding>,
}

/// Which buffer a download takes.
#[derive(Debug, Clone, Copy, PartialEq, Eq, Structural)]
pub enum RouterPart {
    Input,
    ExpertInput,
    Ids,
    Routing,
}

/// One download into the pinned host memory.
#[derive(Debug, Clone, Copy, PartialEq, Eq, Structural)]
pub struct RouterDownload {
    pub part: RouterPart,
    pub offset: usize,
    pub bytes: usize,
}

/// The buffer whose hidden rows a request carries.
pub open spec fn hidden_part(nvfp4: bool) -> RouterPart {
    if nvfp4 {
        RouterPart::Input
    } else {
        RouterPart::ExpertInput
    }
}

/// Hidden rows, expert numbers and gate weights of `rows` rows, one after the other.
pub open spec fn request_downloads(nvfp4: bool, rows: int) -> Seq<RouterDownload> {
    let hidden = rows * hidden_width(nvfp4);
    seq![
        RouterDownload { part: hidden_part(nvfp4), offset: 0, bytes: hidden as usize },
        RouterDownload {
            part: RouterPart::Ids,
            offset: hidden as usize,
            bytes: (rows * 24) as usize,
        },
        RouterDownload {
            part: RouterPart::Routing,
            offset: (hidden + rows * 24) as usize,
            bytes: (rows * 24) as usize,
        },
    ]
}

/// The expert numbers of `rows` rows alone.
pub open spec fn route_downloads(rows: int) -> Seq<RouterDownload> {
    seq![RouterDownload { part: RouterPart::Ids, offset: 0, bytes: (rows * 24) as usize }]
}

/// Every byte of a mask is zero or one.
pub open spec fn binary(mask: Seq<u8>) -> bool {
    forall|i: int| 0 <= i < mask.len() ==> (#[trigger] mask[i]) <= 1
}

pub fn is_binary(mask: &[u8]) -> (r: bool)
    ensures
        r == binary(mask@),
{
    let mut i: usize = 0;
    while i < mask.len()
        invariant
            i <= mask@.len(),
            forall|k: int| 0 <= k < i ==> (#[trigger] mask@[k]) <= 1,
        decreases mask@.len() - i,
    {
        if mask[i] > 1 {
            assert(mask@[i as int] > 1);
            return false;
        }
        i = i + 1;
    }
    true
}

impl BackboneRouterWave {
    pub open spec fn inv(&self) -> bool {
        &&& self.state.inv()
        &&& 1 <= self.state.capacity <= 4096
    }

    /// Only what is published differs from `before`.
    pub open spec fn same_wave(&self, before: &Self) -> bool {
        &&& self.weights == before.weights
        &&& self.buffers == before.buffers
        &&& self.full_request == before.full_request
    }

    pub fn errors() -> (r: StageErrors)
        ensures
            r == (StageErrors {
                rows: Error::RouterRows,
                captured: Error::RouterCaptured,
                missing: Error::RouterGraphMissing,
                differs: Error::RouterGraphRows,
                unpublished: Error::RouterUnpublished,
            }),
    {
        StageErrors {
            rows: Error::RouterRows,
            captured: Error::RouterCaptured,
            missing: Error::RouterGraphMissing,
            differs: Error::RouterGraphRows,
            unpublished: Error::RouterUnpublished,
        }
    }

    pub fn device_bytes(capacity: u32) -> (r: Result<usize, Error>)
        ensures
            r == if 1 <= capacity <= 4096 {
                Ok::<usize, Error>((capacity * 17105) as usize)
            } else {
                Err::<usize, Error>(Error::RouterCapacity)
            },
    {
        if capacity < 1 || capacity > 4096 {
            return Err(Error::RouterCapacity);
        }
        Ok(capacity as usize * ROUTER_ROW_BYTES)
    }

    /// Bytes of a lane's input, mask, scores, expert numbers, gate weights and encoded
    /// rows, and of the pinned host memory that a whole request is gathered in.
    pub open spec fn storage(capacity: int, nvfp4: bool) -> Seq<int> {
        seq![
            capacity * 10240,
            capacity,
            capacity * 1536,
            capacity * 24,
            capacity * 24,
            capacity * 5280,
            capacity * (hidden_width(nvfp4) + 48),
        ]
    }

    /// The sizes of a lane's storage, within `budget` bytes of device memory.
    pub fn layout(capacity: u32, nvfp4: bool, budget: usize) -> (r: Result<[usize; 7], Error>)
        ensures
            match r {
                Err(e) => if 1 <= capacity <= 4096 {
                    capacity * 17105 > budget && e == Error::RouterWaveBudget
                } else {
                    e == Error::RouterCapacity
                },
                Ok(sizes) => {
                    &&& 1 <= capacity <= 4096
                    &&& capacity * 17105 <= budget
                    &&& forall|k: int|
                        0 <= k < 7 ==> #[trigger] sizes@[k] == Self::storage(
                            capacity as int,
                            nvfp4,
                        )[k]
                },
            },
    {
        match Self::device_bytes(capacity) {
            Err(e) => {
                return Err(e);
            },
            Ok(bytes) => {
                if bytes > budget {
                    return Err(Error::RouterWaveBudget);
                }
            },
        }
        let n: usize = capacity as usize;
        let (_, width): (ExpertV2Dtype, usize) = request_hidden_format(nvfp4);
        assert(n * (width + 48) <= 4096 * 10288) by (nonlinear_arith)
            requires
                n <= 4096,
                width <= 10240,
        ;
        Ok([n * 10240, n, n * 1536, n * 24, n * 24, n * 5280, n * (width + 48)])
    }

    /// A lane of `capacity` rows within `budget` bytes, gathering whole requests.
    pub fn new(
        weights: BackboneRouterWeights,
        capacity: u32,
        budget: usize,
        buffers: RouterBuffers,
    ) -> (r: Result<Self, Error>)
        ensures
            match r {
                Err(e) => if 1 <= capacity <= 4096 {
                    capacity * 17105 > budget && e == Error::RouterWaveBudget
                } else {
                    e == Error::RouterCapacity
                },
                Ok(wave) => {
                    &&& 1 <= capacity <= 4096
                    &&& capacity * 17105 <= budget
                    &&& wave.inv()
                    &&& wave.weights == weights
                    &&& wave.buffers == buffers
                    &&& wave.full_request
                    &&& wave.state.capacity == capacity
                    &&& wave.state.ready is None
                    &&& wave.state.origin is None
                    &&& wave.state.tokens@.len() == 0
                },
            },
    {
        match Self::layout(capacity, weights.nvfp4, budget) {
            Err(e) => Err(e),
            Ok(_) => Ok(
                BackboneRouterWave {
                    weights,
                    buffers,
                    full_request: true,
                    state: StageState::new(capacity, Self::errors()),
                },
            ),
        }
    }

    /// Why the lane cannot go over to other weights.
    pub open spec fn rebind_error(&self, weights: BackboneRouterWeights, drained: bool) -> Option<
        Error,
    > {
        if self.weights.library != weights.library {
            Some(Error::RouterLibrary)
        } else if self.weights.nvfp4 != weights.nvfp4 {
            Some(Error::RouterFormat)
        } else if weights.layer >= LAYERS {
            Some(Error::RouterLayer)
        } else if weights.devices@[0] != self.buffers.input.device || weights.devices@[1]
            != self.buffers.input.device || weights.devices@[2] != self.buffers.input.device {
            Some(Error::RouterDevice)
        } else if !drained {
            Some(Error::StreamBusy)
        } else {
            None
        }
    }

    /// Reuses the lane's storage with another layer's weights.
    pub fn rebind(&mut self, weights: BackboneRouterWeights, drained: bool) -> (r: Result<
        (),
        Error,
    >)
        requires
            old(self).inv(),
        ensures
            final(self).inv(),
            final(self).buffers == old(self).buffers,
            final(self).full_request == old(self).full_request,
            final(self).state.cleared(&old(self).state),
            match r {
                Err(e) => old(self).rebind_error(weights, drained) == Some(e)
                    && final(self).weights == old(self).weights,
                Ok(_) => old(self).rebind_error(weights, drained) is None && final(self).weights
                    == weights,
            },
    {
        self.state.clear();
        if self.weights.library != weights.library {
            return Err(Error::RouterLibrary);
        }
        if self.weights.nvfp4 != weights.nvfp4 {
            return Err(Error::RouterFormat);
        }
        if weights.layer >= LAYERS {
            return Err(Error::RouterLayer);
        }
        let here: i32 = self.buffers.input.device;
        if weights.devices[0] != here || weights.devices[1] != here || weights.devices[2] != here {
            return Err(Error::RouterDevice);
        }
        if !drained {
            return Err(Error::StreamBusy);
        }
        self.weights = weights;
        Ok(())
    }

    /// Goes over to local experts or back; each has its own captured executions.
    /// Returns whether those are exchanged.
    pub fn set_local_mode(&mut self, local: bool, drained: bool) -> (r: Result<bool, Error>)
        requires
            old(self).inv(),
        ensures
            final(self).inv(),
            final(self).weights == old(self).weights,
            final(self).buffers == old(self).buffers,
            if old(self).full_request == !local {
                &&& r == Ok::<bool, Error>(false)
                &&& *final(self) == *old(self)
            } else if !drained {
                &&& r == Err::<bool, Error>(Error::StreamBusy)
                &&& *final(self) == *old(self)
            } else {
                &&& r == Ok::<bool, Error>(true)
                &&& final(self).full_request == !local
                &&& final(self).state.cleared(&old(self).state)
            },
    {
        if self.full_request == !local {
            return Ok(false);
        }
        if !drained {
            return Err(Error::StreamBusy);
        }
        self.state.clear();
        self.full_request = !local;
        Ok(true)
    }

    /// The quantization that a run launches behind the routing, from where and to
    /// where: none for NVFP4 experts, which take the BF16 rows as they are.
    pub fn quantization(&self) -> (r: Option<(DeviceBuffer, DeviceBuffer)>)
        ensures
            r == if self.weights.nvfp4 {
                None::<(DeviceBuffer, DeviceBuffer)>
            } else {
                Some((self.buffers.input, self.buffers.expert_input))
            },
    {
        if self.weights.nvfp4 {
            None
        } else {
            Some((self.buffers.input, self.buffers.expert_input))
        }
    }

    /// What a run of `rows` rows downloads into the pinned host memory: for local
    /// experts the expert numbers only; else a whole request, where it fits.
    pub fn downloads(&self, rows: u32) -> (r: Result<Vec<RouterDownload>, Error>)
        requires
            rows <= 4096,
        ensures
            if self.full_request {
                &&& r matches Ok(parts) && parts@ == if rows * (hidden_width(self.weights.nvfp4)
                    + 48) <= self.buffers.staging {
                    request_downloads(self.weights.nvfp4, rows as int)
                } else {
                    Seq::<RouterDownload>::empty()
                }
            } else if rows * 24 > self.buffers.staging {
                r matches Err(e) && e == Error::RouteStaging
            } else {
                r matches Ok(parts) && parts@ == route_downloads(rows as int)
            },
    {
        let n: usize = rows as usize;
        let mut parts: Vec<RouterDownload> = Vec::new();
        if !self.full_request {
            if n * ROUTE_BYTES > self.buffers.staging {
                return Err(Error::RouteStaging);
            }
            parts.push(
                RouterDownload { part: RouterPart::Ids, offset: 0, bytes: n * ROUTE_BYTES },
            );
            return Ok(parts);
        }
        let (_, width): (ExpertV2Dtype, usize) = request_hidden_format(self.weights.nvfp4);
        assert(n * (width + 48) <= 4096 * 10288) by (nonlinear_arith)
            requires
                n <= 4096,
                width <= 10240,
        ;
        assert(n * width + n * 48 == n * (width + 48)) by (nonlinear_arith);
        if n * (width + 48) <= self.buffers.staging {
            let part = if self.weights.nvfp4 {
                RouterPart::Input
            } else {
                RouterPart::ExpertInput
            };
            parts.push(RouterDownload { part, offset: 0, bytes: n * width });
            parts.push(
                RouterDownload {
                    part: RouterPart::Ids,
                    offset: n * width,
                    bytes: n * ROUTE_BYTES,
                },
            );
            parts.push(
                RouterDownload {
                    part: RouterPart::Routing,
                    offset: n * width + n * ROUTE_BYTES,
                    bytes: n * ROUTE_BYTES,
                },
            );
            assert(parts@ =~= request_downloads(self.weights.nvfp4, rows as int));
        }
        Ok(parts)
    }

    /// The input and its mask can be staged.
    pub open spec fn stages(&self, input: DeviceBuffer, mask: Seq<u8>) -> bool {
        &&& 1 <= mask.len() <= self.state.capacity
        &&& input.bytes == mask.len() * HIDDEN_BYTES
        &&& input.device == self.buffers.input.device
        &&& binary(mask)
        &&& mask.len() <= self.buffers.staging
    }

    /// Where an input and a mask of `rows` rows go.
    pub open spec fn staged(&self, input: DeviceBuffer, rows: int) -> StagedInputs {
        StagedInputs {
            hidden: DeviceCopy {
                destination: block::cut(self.buffers.input, input.bytes as int),
                source: input,
            },
            mask: block::cut(self.buffers.mask, rows),
        }
    }

    /// The copies that bring a completed input and its mask to the router. The mask
    /// starts from the beginning of the pinned host memory, before any download
    /// overwrites it.
    pub fn stage_inputs(&self, input: DeviceBuffer, mask: &[u8]) -> (r: Result<StagedInputs, Error>)
        requires
            self.inv(),
        ensures
            r == if self.stages(input, mask@) {
                Ok::<StagedInputs, Error>(self.staged(input, mask@.len() as int))
            } else {
                Err::<StagedInputs, Error>(Error::RouterStaged)
            },
    {
        if mask.len() >= 1 && mask.len() <= self.state.capacity as usize && input.bytes
            == mask.len() * HIDDEN_BYTES && input.device == self.buffers.input.device && is_binary(
            mask,
        ) && mask.len() <= self.buffers.staging {
            Ok(
                StagedInputs {
                    hidden: DeviceCopy {
                        destination: self.buffers.input.prefix(input.bytes),
                        source: input,
                    },
                    mask: self.buffers.mask.prefix(mask.len()),
                },
            )
        } else {
            Err(Error::RouterStaged)
        }
    }

    /// The block's input and its image mask are for this router.
    pub open spec fn takes(&self, input: &FfnInput, mask: Seq<u8>) -> bool {
        &&& input.suits(self.weights.layer, self.state.capacity, self.buffers.input.device)
        &&& mask.len() == input.tokens@.len()
        &&& binary(mask)
    }

    /// Checks a block's input before any of it is staged.
    pub fn begin_ffn(&mut self, input: &FfnInput, mask: &[u8]) -> (r: Result<u32, Error>)
        requires
            old(self).inv(),
        ensures
            final(self).inv(),
            final(self).same_wave(old(self)),
            final(self).state.cleared(&old(self).state),
            match r {
                Ok(rows) => old(self).takes(input, mask@) && rows == input.tokens@.len(),
                Err(e) => e == Error::RouterInput && !old(self).takes(input, mask@),
            },
    {
        self.state.clear();
        if !(input.is_for(self.weights.layer, self.state.capacity, self.buffers.input.device)
            && mask.len() == input.tokens.len() && is_binary(mask)) {
            return Err(Error::RouterInput);
        }
        Ok(input.tokens.len() as u32)
    }

    /// Stages and routes a block's input; `work` is how the device work went.
    pub fn execute_ffn(&mut self, input: &FfnInput, mask: &[u8], work: Result<(), Error>) -> (r:
        Result<(), Error>)
        requires
            old(self).inv(),
        ensures
            final(self).inv(),
            final(self).same_wave(old(self)),
            match r {
                Err(e) => {
                    &&& final(self).state.cleared(&old(self).state)
                    &&& if !old(self).takes(input, mask@) {
                        e == Error::RouterInput
                    } else if mask@.len() > old(self).buffers.staging {
                        e == Error::RouterStaged
                    } else {
                        work == Err::<(), Error>(e)
                    }
                },
                Ok(_) => {
                    &&& old(self).takes(input, mask@)
                    &&& mask@.len() <= old(self).buffers.staging
                    &&& work is Ok
                    &&& final(self).state.published_for(
                        &old(self).state,
                        input.binding,
                        input.tokens@,
                    )
                },
            },
    {
        match self.begin_ffn(input, mask) {
            Err(e) => {
                return Err(e);
            },
            Ok(_) => {},
        }
        match self.stage_inputs(input.values, mask) {
            Err(e) => {
                return Err(e);
            },
            Ok(_) => {},
        }
        match work {
            Err(e) => Err(e),
            Ok(_) => {
                self.state.publish(input.binding, input.tokens);
                Ok(())
            },
        }
    }

    /// What is published: the rows of the run in every buffer.
    pub open spec fn is_output(&self, output: RouterOutput) -> bool {
        &&& self.state.ready matches Some(rows) && {
            &&& output.rows == rows
            &&& output.input == block::cut(self.buffers.input, rows * HIDDEN_BYTES)
            &&& output.expert_input == block::cut(self.buffers.expert_input, rows * ENCODED_BYTES)
            &&& output.mask == block::cut(self.buffers.mask, rows as int)
            &&& output.scores == block::cut(self.buffers.scores, rows * SCORE_BYTES)
            &&& output.ids == block::cut(self.buffers.ids, rows * ROUTE_BYTES)
            &&& output.routing == block::cut(self.buffers.routing, rows * ROUTE_BYTES)
        }
        &&& output.layer == self.weights.layer
        &&& output.tokens@ == self.state.tokens@
        &&& output.request_nvfp4 == self.weights.nvfp4
        &&& output.staging == self.buffers.staging
        &&& output.full_request == self.full_request
        &&& output.origin == self.state.origin
    }

    /// The published routing.
    pub fn output(&self) -> (r: Result<RouterOutput<'_>, Error>)
        requires
            self.inv(),
        ensures
            match r {
                Err(e) => e == self.state.errors.unpublished && self.state.ready is None,
                Ok(output) => self.is_output(output),
            },
    {
        let rows: u32 = match self.state.rows() {
            Err(e) => {
                return Err(e);
            },
            Ok(rows) => rows,
        };
        let n: usize = rows as usize;
        Ok(
            RouterOutput {
                layer: self.weights.layer,
                rows,
                input: self.buffers.input.prefix(n * HIDDEN_BYTES),
                expert_input: self.buffers.expert_input.prefix(n * ENCODED_BYTES),
                mask: self.buffers.mask.prefix(n),
                scores: self.buffers.scores.prefix(n * SCORE_BYTES),
                ids: self.buffers.ids.prefix(n * ROUTE_BYTES),
                routing: self.buffers.routing.prefix(n * ROUTE_BYTES),
                tokens: self.state.tokens.as_slice(),
                request_nvfp4: self.weights.nvfp4,
                staging: self.buffers.staging,
                full_request: self.full_request,
                origin: self.state.origin,
            },
        )
    }
}

impl BackboneRouterWave {
    /// Why `rows` rows cannot be run plainly. `work` is how the device work went.
    pub open spec fn run_error(&self, rows: u32, work: Result<(), Error>) -> Option<Error> {
        if !self.state.takes(rows) {
            Some(self.state.errors.rows)
        } else {
            match work {
                Err(e) => Some(e),
                Ok(_) => None,
            }
        }
    }

    /// Runs `rows` rows whose inputs are in place. They are published without a
    /// query.
    pub fn execute(&mut self, rows: u32, work: Result<(), Error>) -> (r: Result<(), Error>)
        requires
            old(self).inv(),
        ensures
            final(self).inv(),
            final(self).same_wave(old(self)),
            match r {
                Err(e) => old(self).run_error(rows, work) == Some(e) && final(self).state.cleared(
                    &old(self).state,
                ),
                Ok(_) => old(self).run_error(rows, work) is None && final(self).state.published(
                    &old(self).state,
                    rows,
                ),
            },
    {
        match self.state.validate(rows) {
            Err(e) => {
                return Err(e);
            },
            Ok(_) => {},
        }
        self.state.execute(rows, work)
    }

    /// The warm-up of a shape that is captured next. It leaves nothing published,
    /// and a shape is captured once.
    pub fn capture(&mut self, rows: u32, cached: Option<CachedGraph>, work: Result<(), Error>) -> (r:
        Result<(), Error>)
        requires
            old(self).inv(),
        ensures
            final(self).inv(),
            final(self).same_wave(old(self)),
            final(self).state.cleared(&old(self).state),
            match r {
                Ok(_) => cached is None && old(self).run_error(rows, work) is None,
                Err(e) => if cached is Some {
                    e == old(self).state.errors.captured
                } else {
                    old(self).run_error(rows, work) == Some(e)
                },
            },
    {
        self.state.clear();
        if cached.is_some() {
            return Err(self.state.errors.captured);
        }
        match self.execute(rows, work) {
            Err(e) => Err(e),
            Ok(_) => {
                self.state.clear();
                Ok(())
            },
        }
    }

    /// Runs `rows` rows by their captured execution and returns which; `work` is how
    /// the launch went.
    pub fn replay(&mut self, rows: u32, cached: Option<CachedGraph>, work: Result<(), Error>) -> (r:
        Result<u64, Error>)
        requires
            old(self).inv(),
        ensures
            final(self).inv(),
            final(self).same_wave(old(self)),
            match r {
                Err(e) => {
                    &&& final(self).state.cleared(&old(self).state)
                    &&& match old(self).state.replay_error(rows, cached) {
                        Some(reason) => e == reason,
                        None => work == Err::<(), Error>(e),
                    }
                },
                Ok(graph) => {
                    &&& old(self).state.replay_error(rows, cached) is None
                    &&& cached matches Some(kept) && graph == kept.handle
                    &&& work is Ok
                    &&& final(self).state.published(&old(self).state, rows)
                },
            },
    {
        self.state.replay(rows, cached, work)
    }

    /// Withdraws what is published before the layer's captured executions are
    /// dropped; `drained` is how draining the stream went.
    pub fn clear_graph(&mut self, drained: Result<(), Error>) -> (r: Result<(), Error>)
        requires
            old(self).inv(),
        ensures
            final(self).inv(),
            final(self).same_wave(old(self)),
            final(self).state.cleared(&old(self).state),
            r == drained,
    {
        self.state.clear();
        drained
    }

    /// Runs `rows` rows by their captured execution and returns which. It is captured
    /// first where there is none: `warmed` is how the warm-up went, `graph` the
    /// capture, `work` the launch.
    pub fn execute_captured(
        &mut self,
        rows: u32,
        cached: Option<CachedGraph>,
        warmed: Result<(), Error>,
        graph: Result<u64, Error>,
        work: Result<(), Error>,
    ) -> (r: Result<u64, Error>)
        requires
            old(self).inv(),
        ensures
            final(self).inv(),
            final(self).same_wave(old(self)),
            ({
                let kept = match cached {
                    Some(graph) => Some(graph),
                    None => Some(CachedGraph { handle: graph->Ok_0, rows }),
                };
                let reason = if cached is None && old(self).run_error(rows, warmed) is Some {
                    old(self).run_error(rows, warmed)
                } else if cached is None && graph is Err {
                    Some(graph->Err_0)
                } else if old(self).state.replay_error(rows, kept) is Some {
                    old(self).state.replay_error(rows, kept)
                } else {
                    match work {
                        Err(e) => Some(e),
                        Ok(_) => None,
                    }
                };
                match r {
                    Err(e) => reason == Some(e) && final(self).state.cleared(&old(self).state),
                    Ok(launched) => {
                        &&& reason is None
                        &&& kept matches Some(kept) && launched == kept.handle
                        &&& final(self).state.published(&old(self).state, rows)
                    },
                }
            }),
    {
        self.state.clear();
        let kept: Option<CachedGraph> = match cached {
            Some(graph) => Some(graph),
            None => {
                match self.capture(rows, None, warmed) {
                    Err(e) => {
                        return Err(e);
                    },
                    Ok(_) => {},
                }
                match graph {
                    Err(e) => {
                        return Err(e);
                    },
                    Ok(handle) => Some(CachedGraph { handle, rows }),
                }
            },
        };
        self.replay(rows, kept, work)
    }

    /// Where the rows and their mask are put.
    pub fn inputs(&self) -> (r: [DeviceBuffer; 2])
        ensures
            r@ == seq![self.buffers.input, self.buffers.mask],
    {
        let r: [DeviceBuffer; 2] = [self.buffers.input, self.buffers.mask];
        assert(r@ =~= seq![self.buffers.input, self.buffers.mask]);
        r
    }
}

/// What a lane's buffers take on the device is what it is counted by.
pub proof fn law_router_storage_adds_up(capacity: int, nvfp4: bool)
    ensures
        ({
            let sizes = BackboneRouterWave::storage(capacity, nvfp4);
            sizes[0] + sizes[1] + sizes[2] + sizes[3] + sizes[4] + sizes[5] == capacity * 17105
        }),
{
}

/// Pinned memory of the lane's own size holds every routing of up to `capacity` rows:
/// its mask, the expert numbers of local experts, and a whole request, part by part.
pub proof fn law_router_staging_holds_every_request(capacity: int, nvfp4: bool, rows: int)
    requires
        0 <= rows <= capacity <= 4096,
    ensures
        ({
            let staging = BackboneRouterWave::storage(capacity, nvfp4)[6];
            let parts = request_downloads(nvfp4, rows);
            &&& rows <= staging
            &&& rows * 24 <= staging
            &&& rows * (hidden_width(nvfp4) + 48) <= staging
            &&& forall|k: int|
                0 <= k < parts.len() ==> (#[trigger] parts[k]).offset + parts[k].bytes <= staging
        }),
{
    let width = hidden_width(nvfp4);
    let staging = capacity * (width + 48);
    assert(rows * (width + 48) <= staging) by (nonlinear_arith)
        requires
            0 <= rows <= capacity,
            0 <= width,
            staging == capacity * (width + 48),
    ;
    assert(rows * (width + 48) == rows * width + rows * 48) by (nonlinear_arith);
    assert(0 <= rows * width <= 4096 * 10240) by (nonlinear_arith)
        requires
            0 <= rows <= 4096,
            0 <= width <= 10240,
    ;
}

/// A run routes what was staged for it: the published input is where the staged rows
/// were copied to, all of them, and the published mask where the mask went.
pub proof fn law_router_runs_on_what_is_staged(
    wave: &BackboneRouterWave,
    input: DeviceBuffer,
    mask: Seq<u8>,
    output: RouterOutput,
    memory: spec_fn(i32, int) -> u8,
    b: int,
)
    requires
        wave.inv(),
        wave.stages(input, mask),
        wave.is_output(output),
        output.rows == mask.len(),
        0 <= b < mask.len() * 10240,
        input.disjoint(output.input),
    ensures
        ({
            let staged = wave.staged(input, mask.len() as int);
            let after = device_memory::run(memory, seq![staged.hidden]);
            &&& staged.hidden.destination == output.input
            &&& staged.mask == output.mask
            &&& output.mask.bytes == mask.len()
            &&& after(output.input.device, output.input.address + b) == memory(
                input.device,
                input.address + b,
            )
        }),
{
    let staged = wave.staged(input, mask.len() as int);
    device_memory::lemma_copied(
        memory,
        seq![staged.hidden],
        0,
        output.input.device,
        output.input.address + b,
        (input.device, input.address + b),
    );
}

/// The buffer of the published routing that a download takes.
pub open spec fn part_of(output: RouterOutput, part: RouterPart) -> DeviceBuffer {
    match part {
        RouterPart::Input => output.input,
        RouterPart::ExpertInput => output.expert_input,
        RouterPart::Ids => output.ids,
        RouterPart::Routing => output.routing,
    }
}

/// Downloads take whole buffers of the published routing: a request its hidden rows, in
/// the format of the request, then its expert numbers, then its weights; local experts
/// the numbers alone.
pub proof fn law_downloads_take_whole_buffers(wave: &BackboneRouterWave, output: RouterOutput, k: int)
    requires
        wave.inv(),
        wave.is_output(output),
        output.rows <= 4096,
        0 <= k < 3,
    ensures
        ({
            let parts = request_downloads(output.request_nvfp4, output.rows as int);
            let alone = route_downloads(output.rows as int);
            &&& parts.len() == 3
            &&& parts[k].bytes == part_of(output, parts[k].part).bytes
            &&& parts[0].part == if output.request_nvfp4 {
                RouterPart::Input
            } else {
                RouterPart::ExpertInput
            }
            &&& parts[1].part == RouterPart::Ids && parts[2].part == RouterPart::Routing
            &&& alone.len() == 1 && alone[0].part == RouterPart::Ids && alone[0].offset == 0
            &&& alone[0].bytes == output.ids.bytes
        }),
{
}

/// A run publishes as much of each buffer as its share of the rows, and all of it where
/// there is no room for more.
pub proof fn law_full_routing_fills_its_storage(
    wave: &BackboneRouterWave,
    output: RouterOutput,
    capacity: int,
    nvfp4: bool,
)
    requires
        wave.is_output(output),
        0 < output.rows <= capacity <= 4096,
    ensures
        ({
            let sizes = BackboneRouterWave::storage(capacity, nvfp4);
            let rows = output.rows;
            &&& output.input.bytes * capacity == sizes[0] * rows
            &&& output.mask.bytes * capacity == sizes[1] * rows
            &&& output.scores.bytes * capacity == sizes[2] * rows
            &&& output.ids.bytes * capacity == sizes[3] * rows
            &&& output.routing.bytes * capacity == sizes[4] * rows
            &&& output.expert_input.bytes * capacity == sizes[5] * rows
        }),
{
    let rows = output.rows as int;
    assert(rows * 10240 * capacity == capacity * 10240 * rows) by (nonlinear_arith);
    assert(rows * capacity == capacity * rows) by (nonlinear_arith);
    assert(rows * 1536 * capacity == capacity * 1536 * rows) by (nonlinear_arith);
    assert(rows * 24 * capacity == capacity * 24 * rows) by (nonlinear_arith);
    assert(rows * 5280 * capacity == capacity * 5280 * rows) by (nonlinear_arith);
}

} // verus!
