//! Attention output projection: inverse rotary, grouped and full projection.
use crate::attention_binding::{QueryBinding, LAYERS};
use crate::block;
use crate::block::within_context;
use crate::budget;
use crate::budget::{row_bytes, sum};
use crate::device::DeviceBuffer;
use crate::error::Error;
use crate::graphs::CachedGraph;
use crate::source_cache;
use crate::text;
use crate::text::append_count;
use crate::wave_state::{StageErrors, StageState};
use vstd::prelude::*;

verus! {

/// Bytes per row of the attention input, the grouped and the full projection,
/// the positions and the frequencies.
pub const INPUT_BYTES: usize = 65536;

pub const GROUPED_BYTES: usize = 16384;

pub const PROJECTED_BYTES: usize = 10240;

pub const POSITION_BYTES: usize = 8;

pub const FREQUENCY_BYTES: usize = 256;

/// All of a row's buffers.
pub const OUTPUT_ROW_BYTES: usize = 92424;

/// The tensor `part` of a layer's output projection.
pub open spec fn output_tensor(layer: nat, part: Seq<char>) -> Seq<char> {
    "layers."@ + text::decimal(layer) + ".attn."@ + part
}

/// The tensors of the output projection; a split one leaves the second pair to
/// the shards.
pub open spec fn output_parts(split: bool) -> Seq<Seq<char>> {
    if split {
        seq!["wo_a.weight"@, "wo_a.scale"@]
    } else {
        seq!["wo_a.weight"@, "wo_a.scale"@, "wo_b.weight"@, "wo_b.scale"@]
    }
}

fn name(layer: usize, part: &str) -> (r: String)
    ensures
        r@ == output_tensor(layer as nat, part@),
{
    let mut out: String = String::from_str("layers.");
    append_count(&mut out, layer);
    out.append(".attn.");
    out.append(part);
    out
}

/// What the weights of a layer's output projection are.
#[derive(Debug, Clone, Copy, PartialEq, Eq, Structural)]
pub struct AttentionOutputWeights {
    pub library: u64,
    pub layer: usize,
    pub device: i32,
    /// The full projection is left to the shards of two devices.
    pub split: bool,
}

impl AttentionOutputWeights {
    pub fn names(layer: usize, split: bool) -> (r: Result<Vec<String>, Error>)
        ensures
            match r {
                Err(e) => e == Error::OutputLayer && layer >= LAYERS,
                Ok(names) => {
                    &&& layer < LAYERS
                    &&& names@.len() == output_parts(split).len()
                    &&& forall|i: int|
                        0 <= i < names@.len() ==> (#[trigger] names@[i])@ == output_tensor(
                            layer as nat,
                            output_parts(split)[i],
                        )
                },
            },
    {
        if layer >= LAYERS {
            return Err(Error::OutputLayer);
        }
        let mut names: Vec<String> = Vec::new();
        names.push(name(layer, "wo_a.weight"));
        names.push(name(layer, "wo_a.scale"));
        if !split {
            names.push(name(layer, "wo_b.weight"));
            names.push(name(layer, "wo_b.scale"));
        }
        Ok(names)
    }

    /// Bytes of the tensors (`plan`) and of the packed scales of the grouped and,
    /// unless split, of the full projection.
    pub fn device_bytes_with_split(plan: usize, grouped: usize, full: usize, split: bool) -> (r:
        Result<usize, Error>)
        ensures
            source_cache::same_count(
                r,
                budget::counted(
                    plan + budget::matrix_bytes(grouped as int, full as int, split),
                    Error::BudgetOverflow,
                ),
            ),
    {
        let last: usize = if split {
            0
        } else {
            full
        };
        proof {
            reveal_with_fuel(budget::total, 3);
        }
        let parts: [usize; 2] = [grouped, last];
        sum(plan, parts.as_slice(), Error::BudgetOverflow)
    }

    /// Bytes of the weights where the projection is whole.
    pub fn device_bytes(plan: usize, grouped: usize, full: usize) -> (r: Result<usize, Error>)
        ensures
            source_cache::same_count(
                r,
                budget::counted(plan + grouped + full, Error::BudgetOverflow),
            ),
    {
        Self::device_bytes_with_split(plan, grouped, full, false)
    }

    /// What loading a layer within `budget` bytes comes to.
    pub open spec fn loaded(
        library: u64,
        layer: usize,
        device: i32,
        need: int,
        budget: usize,
        split: bool,
    ) -> Result<Self, Error> {
        if layer >= LAYERS {
            Err(Error::OutputLayer)
        } else if need > budget {
            Err(Error::OutputWeightsBudget)
        } else {
            Ok(AttentionOutputWeights { library, layer, device, split })
        }
    }

    /// The weights of a layer with its whole projection.
    pub fn load(
        library: u64,
        layer: usize,
        device: i32,
        plan: usize,
        scales: [usize; 2],
        budget: usize,
    ) -> (r: Result<Self, Error>)
        ensures
            r == Self::loaded(
                library,
                layer,
                device,
                plan + scales@[0] + scales@[1],
                budget,
                false,
            ),
    {
        Self::load_with_split(library, layer, device, plan, scales, budget, false)
    }

    /// The weights of a layer, within `budget` bytes. The tensors take `plan` bytes
    /// and the packed scales of the grouped and the full projection `scales`.
    pub fn load_with_split(
        library: u64,
        layer: usize,
        device: i32,
        plan: usize,
        scales: [usize; 2],
        budget: usize,
        split: bool,
    ) -> (r: Result<Self, Error>)
        ensures
            r == Self::loaded(
                library,
                layer,
                device,
                plan + budget::matrix_bytes(scales@[0] as int, scales@[1] as int, split),
                budget,
                split,
            ),
    {
        if layer >= LAYERS {
            return Err(Error::OutputLayer);
        }
        match Self::device_bytes_with_split(plan, scales[0], scales[1], split) {
            Err(_) => Err(Error::OutputWeightsBudget),
            Ok(bytes) => if bytes > budget {
                Err(Error::OutputWeightsBudget)
            } else {
                Ok(AttentionOutputWeights { library, layer, device, split })
            },
        }
    }

    /// Bytes of a lane's storage: the kernels' scale, the input, the grouped and the
    /// full projection, positions and frequencies, and the scratch of the two kernels,
    /// of which a split lane has the first only.
    pub open spec fn storage(capacity: int, scratch: Seq<usize>, split: bool) -> Seq<int> {
        seq![
            4,
            capacity * 65536,
            capacity * 16384,
            capacity * 10240,
            capacity * 8,
            capacity * 256,
            scratch[0] as int,
            budget::matrix_bytes(0, scratch[1] as int, split),
        ]
    }

    /// The sizes of a lane's storage, within `budget` bytes.
    pub fn layout(&self, capacity: u32, scratch: [usize; 2], budget: usize) -> (r: Result<
        [usize; 8],
        Error,
    >)
        ensures
            ({
                let need = 4 + capacity * 92424 + budget::matrix_bytes(
                    scratch@[0] as int,
                    scratch@[1] as int,
                    self.split,
                );
                match r {
                    Err(e) => e == Error::OutputWaveBudget && need > budget,
                    Ok(sizes) => {
                        &&& need <= budget
                        &&& forall|k: int|
                            0 <= k < 8 ==> #[trigger] sizes@[k] == Self::storage(
                                capacity as int,
                                scratch@,
                                self.split,
                            )[k]
                    },
                }
            }),
    {
        match AttentionOutputWave::device_bytes_with_split(
            capacity,
            scratch[0],
            scratch[1],
            self.split,
        ) {
            Err(_) => {
                return Err(Error::OutputWaveBudget);
            },
            Ok(bytes) => {
                if bytes > budget {
                    return Err(Error::OutputWaveBudget);
                }
            },
        }
        let n: usize = capacity as usize;
        let second: usize = if self.split {
            0
        } else {
            scratch[1]
        };
        Ok([4, n * 65536, n * 16384, n * 10240, n * 8, n * 256, scratch[0], second])
    }

    /// Why a lane of `capacity` rows cannot be set up for these weights. The
    /// kernels' scratch takes `scratch` bytes.
    pub open spec fn wave_error(
        &self,
        capacity: u32,
        scratch: Seq<usize>,
        budget: usize,
        device: i32,
    ) -> Option<Error> {
        if 4 + capacity * 92424 + budget::matrix_bytes(scratch[0] as int, scratch[1] as int, self.split)
            > budget {
            Some(Error::OutputWaveBudget)
        } else if device != self.device {
            Some(Error::OutputWeightDevice)
        } else {
            None
        }
    }

    /// A lane of `capacity` rows within `budget` bytes. The kernels of the grouped
    /// and the full projection have `scratch` bytes of scratch; a split lane has the
    /// first only. The buffers are the input, the grouped and the full projection,
    /// positions and frequencies. Nothing is published.
    pub fn wave(
        &self,
        capacity: u32,
        scratch: [usize; 2],
        budget: usize,
        buffers: [DeviceBuffer; 5],
    ) -> (r: Result<AttentionOutputWave, Error>)
        ensures
            match r {
                Err(e) => self.wave_error(capacity, scratch@, budget, buffers@[0].device) == Some(e),
                Ok(wave) => {
                    &&& self.wave_error(capacity, scratch@, budget, buffers@[0].device) is None
                    &&& wave.inv()
                    &&& wave.weights == *self
                    &&& wave.split == self.split
                    &&& wave.input == buffers@[0]
                    &&& wave.grouped == buffers@[1]
                    &&& wave.projected == buffers@[2]
                    &&& wave.positions == buffers@[3]
                    &&& wave.frequencies == buffers@[4]
                    &&& wave.state.capacity == capacity
                    &&& wave.state.ready is None
                    &&& wave.state.origin is None
                    &&& wave.state.tokens@.len() == 0
                },
            },
    {
        match self.layout(capacity, scratch, budget) {
            Err(e) => {
                return Err(e);
            },
            Ok(_) => {},
        }
        if buffers[0].device != self.device {
            return Err(Error::OutputWeightDevice);
        }
        Ok(
            AttentionOutputWave {
                weights: *self,
                split: self.split,
                input: buffers[0],
                grouped: buffers[1],
                projected: buffers[2],
                positions: buffers[3],
                frequencies: buffers[4],
                state: StageState::new(capacity, AttentionOutputWave::errors()),
            },
        )
    }
}

/// A published projection.
pub struct AttentionOutput {
    pub origin: Option<QueryBinding>,
    pub layer: usize,
    pub rows: usize,
    pub input: DeviceBuffer,
    pub grouped: DeviceBuffer,
    pub projected: DeviceBuffer,
    pub positions: DeviceBuffer,
    pub frequencies: DeviceBuffer,
}

impl AttentionOutput {
    /// Why the projection cannot be tied to a query.
    pub open spec fn binding_error(&self) -> Option<Error> {
        match self.origin {
            None => Some(Error::OutputUnbound),
            Some(binding) => if binding.layer != self.layer {
                Some(Error::OutputBindingLayer)
            } else {
                None
            },
        }
    }

    pub fn binding(&self) -> (r: Result<QueryBinding, Error>)
        ensures
            match r {
                Ok(binding) => self.binding_error() is None && self.origin == Some(binding),
                Err(e) => self.binding_error() == Some(e),
            },
    {
        match self.origin {
            None => Err(Error::OutputUnbound),
            Some(binding) => if binding.layer != self.layer {
                Err(Error::OutputBindingLayer)
            } else {
                Ok(binding)
            },
        }
    }
}

/// Attention values that wait on a stream.
#[derive(Debug, Clone, Copy, PartialEq, Eq, Structural)]
pub struct QueuedSparseAttention {
    pub values: DeviceBuffer,
    pub rows: usize,
    pub layer: usize,
}

/// Completed attention of one query.
pub struct SparseAttentionOutput<'a> {
    pub binding: Option<QueryBinding>,
    pub tokens: &'a [u64],
    pub layer: usize,
    pub rows: usize,
    pub values: DeviceBuffer,
}

/// One lane's output projection.
pub struct AttentionOutputWave {
    pub weights: AttentionOutputWeights,
    /// The lane has no kernel for the full projection.
    pub split: bool,
    pub input: DeviceBuffer,
    pub grouped: DeviceBuffer,
    pub projected: DeviceBuffer,
    pub positions: DeviceBuffer,
    pub frequencies: DeviceBuffer,
    pub state: StageState,
}

impl AttentionOutputWave {
    pub open spec fn inv(&self) -> bool {
        &&& self.state.inv()
        &&& self.state.capacity * OUTPUT_ROW_BYTES <= usize::MAX
    }

    pub open spec fn same_storage(&self, before: &Self) -> bool {
        &&& self.split == before.split
        &&& self.input == before.input
        &&& self.grouped == before.grouped
        &&& self.projected == before.projected
        &&& self.positions == before.positions
        &&& self.frequencies == before.frequencies
    }

    /// Only what is published differs from `before`.
    pub open spec fn same_wave(&self, before: &Self) -> bool {
        &&& self.same_storage(before)
        &&& self.weights == before.weights
    }

    pub fn errors() -> (r: StageErrors)
        ensures
            r == (StageErrors {
                rows: Error::OutputRows,
                captured: Error::OutputCaptured,
                missing: Error::OutputGraphMissing,
                differs: Error::OutputGraphRows,
                unpublished: Error::OutputUnpublished,
            }),
    {
        StageErrors {
            rows: Error::OutputRows,
            captured: Error::OutputCaptured,
            missing: Error::OutputGraphMissing,
            differs: Error::OutputGraphRows,
            unpublished: Error::OutputUnpublished,
        }
    }

    /// Bytes of a lane of `capacity` rows, given the kernels' scratch bytes.
    pub fn device_bytes_with_split(capacity: u32, grouped: usize, full: usize, split: bool) -> (r:
        Result<usize, Error>)
        ensures
            source_cache::same_count(
                r,
                budget::counted(
                    4 + capacity * 92424 + budget::matrix_bytes(grouped as int, full as int, split),
                    Error::BudgetOverflow,
                ),
            ),
    {
        let last: usize = if split {
            0
        } else {
            full
        };
        proof {
            reveal_with_fuel(budget::total, 3);
        }
        match row_bytes(4, capacity, OUTPUT_ROW_BYTES, Error::BudgetOverflow) {
            Err(e) => Err(e),
            Ok(rows) => {
                let parts: [usize; 2] = [grouped, last];
                sum(rows, parts.as_slice(), Error::BudgetOverflow)
            },
        }
    }

    /// Bytes of a lane where the projection is whole.
    pub fn device_bytes(capacity: u32, grouped: usize, full: usize) -> (r: Result<usize, Error>)
        ensures
            source_cache::same_count(
                r,
                budget::counted(4 + capacity * 92424 + grouped + full, Error::BudgetOverflow),
            ),
    {
        Self::device_bytes_with_split(capacity, grouped, full, false)
    }

    /// Why the lane cannot go over to other weights.
    pub open spec fn rebind_error(&self, weights: AttentionOutputWeights, drained: bool) -> Option<
        Error,
    > {
        if !(self.weights.library == weights.library && self.split == weights.split && weights.device
            == self.input.device) {
            Some(Error::AttentionRebound)
        } else if !drained {
            Some(Error::StreamBusy)
        } else {
            None
        }
    }

    /// Reuses the lane's storage with another layer's weights.
    pub fn rebind(&mut self, weights: AttentionOutputWeights, drained: bool) -> (r: Result<
        (),
        Error,
    >)
        requires
            old(self).inv(),
        ensures
            final(self).inv(),
            final(self).same_storage(old(self)),
            final(self).state.cleared(&old(self).state),
            match r {
                Err(e) => old(self).rebind_error(weights, drained) == Some(e)
                    && final(self).weights == old(self).weights,
                Ok(_) => old(self).rebind_error(weights, drained) is None && final(self).weights
                    == weights,
            },
    {
        self.state.clear();
        if !(self.weights.library == weights.library && self.split == weights.split && weights.device
            == self.input.device) {
            return Err(Error::AttentionRebound);
        }
        if !drained {
            return Err(Error::StreamBusy);
        }
        self.weights = weights;
        Ok(())
    }

    /// Why completed attention is not for this lane.
    pub open spec fn origin_error(&self, attention: &SparseAttentionOutput) -> Option<Error> {
        if attention.binding is None {
            Some(Error::AttentionUnbound)
        } else if !(attention.layer == self.weights.layer && attention.rows == attention.tokens@.len()
            && attention.rows <= self.state.capacity && attention.values.device
            == self.input.device) {
            Some(Error::OutputOrigin)
        } else {
            None
        }
    }

    pub fn check_attention(&mut self, attention: &SparseAttentionOutput) -> (r: Result<(), Error>)
        requires
            old(self).inv(),
        ensures
            final(self).inv(),
            final(self).same_wave(old(self)),
            final(self).state.cleared(&old(self).state),
            match r {
                Ok(_) => old(self).origin_error(attention) is None,
                Err(e) => old(self).origin_error(attention) == Some(e),
            },
    {
        self.state.clear();
        if attention.binding.is_none() {
            return Err(Error::AttentionUnbound);
        }
        if !(attention.layer == self.weights.layer && attention.rows == attention.tokens.len()
            && attention.rows <= self.state.capacity as usize && attention.values.device
            == self.input.device) {
            return Err(Error::OutputOrigin);
        }
        Ok(())
    }

    /// Projects completed attention. `work` is how the captured execution went;
    /// a failure leaves nothing published.
    pub fn execute_attention(
        &mut self,
        attention: &SparseAttentionOutput,
        work: Result<(), Error>,
    ) -> (r: Result<(), Error>)
        requires
            old(self).inv(),
        ensures
            final(self).inv(),
            final(self).same_wave(old(self)),
            match r {
                Err(e) => {
                    &&& final(self).state.cleared(&old(self).state)
                    &&& match old(self).origin_error(attention) {
                        Some(reason) => e == reason,
                        None => if attention.rows == 0 {
                            e == old(self).state.errors.rows
                        } else {
                            work == Err::<(), Error>(e)
                        },
                    }
                },
                Ok(_) => {
                    &&& old(self).origin_error(attention) is None
                    &&& attention.rows > 0
                    &&& work is Ok
                    &&& final(self).state.published_for(
                        &old(self).state,
                        attention.binding->Some_0,
                        attention.tokens@,
                    )
                },
            },
    {
        match self.check_attention(attention) {
            Err(e) => {
                return Err(e);
            },
            Ok(_) => {},
        }
        if attention.rows == 0 {
            return Err(self.state.errors.rows);
        }
        match work {
            Err(e) => {
                return Err(e);
            },
            Ok(_) => {},
        }
        if let Some(binding) = attention.binding {
            self.state.publish(binding, attention.tokens);
        }
        Ok(())
    }

    /// The queued attention is of this layer and fits.
    pub open spec fn takes_queued(&self, attention: QueuedSparseAttention) -> bool {
        &&& attention.layer == self.weights.layer
        &&& 1 <= attention.rows <= self.state.capacity
        &&& attention.values.device == self.input.device
    }

    /// Queues the projection behind attention on a stream. Returns where the
    /// projected rows will be; nothing is published.
    pub fn enqueue_attention(&mut self, attention: QueuedSparseAttention, tokens: &[u64]) -> (r:
        Result<DeviceBuffer, Error>)
        requires
            old(self).inv(),
        ensures
            final(self).inv(),
            final(self).same_wave(old(self)),
            final(self).state.cleared(&old(self).state),
            match r {
                Err(e) => e == Error::QueuedOutputOrigin && !(old(self).takes_queued(attention)
                    && attention.rows == tokens@.len()),
                Ok(projected) => {
                    &&& old(self).takes_queued(attention)
                    &&& attention.rows == tokens@.len()
                    &&& projected == block::cut(
                        old(self).projected,
                        attention.rows * PROJECTED_BYTES,
                    )
                },
            },
    {
        self.state.clear();
        if !(attention.layer == self.weights.layer && attention.rows == tokens.len()
            && attention.rows > 0 && attention.rows <= self.state.capacity as usize
            && attention.values.device == self.input.device) {
            return Err(Error::QueuedOutputOrigin);
        }
        Ok(self.projected.prefix(attention.rows * PROJECTED_BYTES))
    }

    /// Checks the tokens of a projection that is part of a larger captured chain.
    pub fn prepare_chain_graph(&mut self, tokens: &[u64]) -> (r: Result<(), Error>)
        requires
            old(self).inv(),
        ensures
            final(self).inv(),
            final(self).same_wave(old(self)),
            final(self).state.cleared(&old(self).state),
            r == if !(1 <= tokens@.len() <= old(self).state.capacity) {
                Err::<(), Error>(old(self).state.errors.rows)
            } else if !block::in_context(tokens@) {
                Err::<(), Error>(Error::OutputContext)
            } else {
                Ok::<(), Error>(())
            },
    {
        self.state.clear();
        if tokens.len() < 1 || tokens.len() > self.state.capacity as usize {
            return Err(self.state.errors.rows);
        }
        if !within_context(tokens) {
            return Err(Error::OutputContext);
        }
        Ok(())
    }

    /// The full projection as part of a captured chain.
    pub fn enqueue_chain_graph(&self, attention: QueuedSparseAttention) -> (r: Result<
        DeviceBuffer,
        Error,
    >)
        requires
            self.inv(),
        ensures
            match r {
                Err(e) => e == if !self.takes_queued(attention) {
                    Error::OutputChain
                } else {
                    Error::OutputSplit
                } && !(self.takes_queued(attention) && !self.split),
                Ok(projected) => {
                    &&& self.takes_queued(attention)
                    &&& !self.split
                    &&& projected == block::cut(self.projected, attention.rows * PROJECTED_BYTES)
                },
            },
    {
        if !(attention.layer == self.weights.layer && attention.rows > 0 && attention.rows
            <= self.state.capacity as usize && attention.values.device == self.input.device) {
            return Err(Error::OutputChain);
        }
        if self.split {
            return Err(Error::OutputSplit);
        }
        Ok(self.projected.prefix(attention.rows * PROJECTED_BYTES))
    }

    /// Only the grouped half as part of a captured chain; the shards follow.
    pub fn enqueue_grouped_chain_graph(&self, attention: QueuedSparseAttention) -> (r: Result<
        DeviceBuffer,
        Error,
    >)
        requires
            self.inv(),
        ensures
            match r {
                Err(e) => e == Error::OutputSplitPrefix && !(self.split && self.takes_queued(
                    attention,
                )),
                Ok(grouped) => {
                    &&& self.split
                    &&& self.takes_queued(attention)
                    &&& grouped == block::cut(self.grouped, attention.rows * GROUPED_BYTES)
                },
            },
    {
        if !(self.split && attention.layer == self.weights.layer && attention.rows > 0
            && attention.rows <= self.state.capacity as usize && attention.values.device
            == self.input.device) {
            return Err(Error::OutputSplitPrefix);
        }
        Ok(self.grouped.prefix(attention.rows * GROUPED_BYTES))
    }

    /// Checks the shards that finish a split projection of `rows` rows; returns
    /// what they read and where their gathered rows go.
    pub fn finish_tp2(&mut self, rows: u32, output_shards: bool, device: i32, library: u64) -> (r:
        Result<(DeviceBuffer, DeviceBuffer), Error>)
        requires
            old(self).inv(),
        ensures
            final(self).inv(),
            final(self).same_wave(old(self)),
            final(self).state.cleared(&old(self).state),
            match r {
                Err(e) => {
                    ||| e == old(self).state.errors.rows && !old(self).state.takes(rows)
                    ||| e == Error::OutputShards && old(self).state.takes(rows) && !(old(self).split
                        && output_shards && device == old(self).input.device && library == old(self).weights.library)
                },
                Ok((grouped, projected)) => {
                    &&& old(self).state.takes(rows)
                    &&& old(self).split && output_shards
                    &&& device == old(self).input.device && library == old(self).weights.library
                    &&& grouped == block::cut(old(self).grouped, rows * GROUPED_BYTES)
                    &&& projected == block::cut(old(self).projected, rows * PROJECTED_BYTES)
                },
            },
    {
        match self.state.validate(rows) {
            Err(e) => {
                return Err(e);
            },
            Ok(_) => {},
        }
        if !(self.split && output_shards && device == self.input.device && library
            == self.weights.library) {
            return Err(Error::OutputShards);
        }
        let n: usize = rows as usize;
        Ok((self.grouped.prefix(n * GROUPED_BYTES), self.projected.prefix(n * PROJECTED_BYTES)))
    }

    /// What is published: the rows of the run in every buffer.
    pub open spec fn is_output(&self, output: AttentionOutput) -> bool {
        &&& self.state.ready matches Some(rows) && {
            &&& output.rows == rows
            &&& output.input == block::cut(self.input, rows * INPUT_BYTES)
            &&& output.grouped == block::cut(self.grouped, rows * GROUPED_BYTES)
            &&& output.projected == block::cut(self.projected, rows * PROJECTED_BYTES)
            &&& output.positions == block::cut(self.positions, rows * POSITION_BYTES)
            &&& output.frequencies == block::cut(self.frequencies, rows * FREQUENCY_BYTES)
        }
        &&& output.origin == self.state.origin
        &&& output.layer == self.weights.layer
    }

    /// The published projection.
    pub fn output(&self) -> (r: Result<AttentionOutput, Error>)
        requires
            self.inv(),
        ensures
            match r {
                Err(e) => e == self.state.errors.unpublished && self.state.ready is None,
                Ok(output) => self.is_output(output),
            },
    {
        let rows: usize = match self.state.rows() {
            Err(e) => {
                return Err(e);
            },
            Ok(rows) => rows as usize,
        };
        Ok(
            AttentionOutput {
                origin: self.state.origin,
                layer: self.weights.layer,
                rows,
                input: self.input.prefix(rows * INPUT_BYTES),
                grouped: self.grouped.prefix(rows * GROUPED_BYTES),
                projected: self.projected.prefix(rows * PROJECTED_BYTES),
                positions: self.positions.prefix(rows * POSITION_BYTES),
                frequencies: self.frequencies.prefix(rows * FREQUENCY_BYTES),
            },
        )
    }
}

impl AttentionOutputWave {
    /// Why `rows` rows cannot be run plainly. `work` is how the device work went.
    pub open spec fn run_error(&self, rows: u32, work: Result<(), Error>) -> Option<Error> {
        if !self.state.takes(rows) {
            Some(self.state.errors.rows)
        } else if self.split {
            Some(Error::OutputSplit)
        } else {
            match work {
                Err(e) => Some(e),
                Ok(_) => None,
            }
        }
    }

    /// Runs `rows` rows whose inputs are in place. They are published without a
    /// query.
    pub fn execute(&mut self, rows: u32, work: Result<(), Error>) -> (r: Result<(), Error>)
        requires
            old(self).inv(),
        ensures
            final(self).inv(),
            final(self).same_wave(old(self)),
            match r {
                Err(e) => old(self).run_error(rows, work) == Some(e) && final(self).state.cleared(
                    &old(self).state,
                ),
                Ok(_) => old(self).run_error(rows, work) is None && final(self).state.published(
                    &old(self).state,
                    rows,
                ),
            },
    {
        match self.state.validate(rows) {
            Err(e) => {
                return Err(e);
            },
            Ok(_) => {},
        }
        if self.split {
            return Err(Error::OutputSplit);
        }
        self.state.execute(rows, work)
    }

    /// The warm-up of a shape that is captured next. It leaves nothing published,
    /// and a shape is captured once.
    pub fn capture(&mut self, rows: u32, cached: Option<CachedGraph>, work: Result<(), Error>) -> (r:
        Result<(), Error>)
        requires
            old(self).inv(),
        ensures
            final(self).inv(),
            final(self).same_wave(old(self)),
            final(self).state.cleared(&old(self).state),
            match r {
                Ok(_) => cached is None && old(self).run_error(rows, work) is None,
                Err(e) => if cached is Some {
                    e == old(self).state.errors.captured
                } else {
                    old(self).run_error(rows, work) == Some(e)
                },
            },
    {
        self.state.clear();
        if cached.is_some() {
            return Err(self.state.errors.captured);
        }
        match self.execute(rows, work) {
            Err(e) => Err(e),
            Ok(_) => {
                self.state.clear();
                Ok(())
            },
        }
    }

    /// Runs `rows` rows by their captured execution and returns which; `work` is how
    /// the launch went.
    pub fn replay(&mut self, rows: u32, cached: Option<CachedGraph>, work: Result<(), Error>) -> (r:
        Result<u64, Error>)
        requires
            old(self).inv(),
        ensures
            final(self).inv(),
            final(self).same_wave(old(self)),
            match r {
                Err(e) => {
                    &&& final(self).state.cleared(&old(self).state)
                    &&& match old(self).state.replay_error(rows, cached) {
                        Some(reason) => e == reason,
                        None => work == Err::<(), Error>(e),
                    }
                },
                Ok(graph) => {
                    &&& old(self).state.replay_error(rows, cached) is None
                    &&& cached matches Some(kept) && graph == kept.handle
                    &&& work is Ok
                    &&& final(self).state.published(&old(self).state, rows)
                },
            },
    {
        self.state.replay(rows, cached, work)
    }

    /// Withdraws what is published before the layer's captured executions are
    /// dropped; `drained` is how draining the stream went.
    pub fn clear_graph(&mut self, drained: Result<(), Error>) -> (r: Result<(), Error>)
        requires
            old(self).inv(),
        ensures
            final(self).inv(),
            final(self).same_wave(old(self)),
            final(self).state.cleared(&old(self).state),
            r == drained,
    {
        self.state.clear();
        drained
    }

    pub fn input(&self) -> (r: DeviceBuffer)
        ensures
            r == self.input,
    {
        self.input
    }

    pub fn positions(&self) -> (r: DeviceBuffer)
        ensures
            r == self.positions,
    {
        self.positions
    }
}

/// What an output lane's storage takes is what it is counted by.
pub proof fn law_output_storage_adds_up(capacity: int, scratch: Seq<usize>, split: bool)
    ensures
        ({
            let sizes = AttentionOutputWeights::storage(capacity, scratch, split);
            sizes[0] + sizes[1] + sizes[2] + sizes[3] + sizes[4] + sizes[5] + sizes[6] + sizes[7] == 4 + capacity * 92424 + budget::matrix_bytes(
                scratch[0] as int,
                scratch[1] as int,
                split,
            )
        }),
{
}

/// A run publishes as much of each buffer as its share of the rows, and all of it where
/// there is no room for more.
pub proof fn law_full_output_fills_its_storage(
    wave: &AttentionOutputWave,
    output: AttentionOutput,
    capacity: int,
    scratch: Seq<usize>,
    split: bool,
)
    requires
        wave.is_output(output),
        0 < output.rows <= capacity <= 4096,
    ensures
        ({
            let sizes = AttentionOutputWeights::storage(capacity, scratch, split);
            let rows = output.rows;
            &&& output.input.bytes * capacity == sizes[1] * rows
            &&& output.grouped.bytes * capacity == sizes[2] * rows
            &&& output.projected.bytes * capacity == sizes[3] * rows
            &&& output.positions.bytes * capacity == sizes[4] * rows
            &&& output.frequencies.bytes * capacity == sizes[5] * rows
        }),
{
    let rows = output.rows as int;
    assert(rows * 65536 * capacity == capacity * 65536 * rows) by (nonlinear_arith);
    assert(rows * 16384 * capacity == capacity * 16384 * rows) by (nonlinear_arith);
    assert(rows * 10240 * capacity == capacity * 10240 * rows) by (nonlinear_arith);
    assert(rows * 8 * capacity == capacity * 8 * rows) by (nonlinear_arith);
    assert(rows * 256 * capacity == capacity * 256 * rows) by (nonlinear_arith);
}

} // verus!
