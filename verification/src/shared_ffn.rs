//! The experts that every row goes through.
use crate::attention_binding::{QueryBinding, LAYERS};
use crate::block;
use crate::block::FfnInput;
use crate::budget;
use crate::budget::{row_bytes, sum};
use crate::device::DeviceBuffer;
use crate::error::Error;
use crate::graphs::CachedGraph;
use crate::source_cache;
use crate::text;
use crate::text::append_count;
use crate::wave_state::{StageErrors, StageState};
use vstd::prelude::*;

verus! {

pub const HIDDEN_BYTES: usize = 10240;

pub const INTERMEDIATE_BYTES: usize = 4608;

/// The tensor `part` of a layer's shared experts.
pub open spec fn shared_tensor(layer: nat, part: Seq<char>) -> Seq<char> {
    "layers."@ + text::decimal(layer) + ".ffn.shared_experts."@ + part
}

fn name(layer: usize, part: &str) -> (r: String)
    ensures
        r@ == shared_tensor(layer as nat, part@),
{
    let mut out: String = String::from_str("layers.");
    append_count(&mut out, layer);
    out.append(".ffn.shared_experts.");
    out.append(part);
    out
}

/// What the weights of a layer's shared experts are.
#[derive(Debug, Clone, Copy, PartialEq, Eq, Structural)]
pub struct BackboneSharedWeights {
    pub library: u64,
    pub layer: usize,
}

impl BackboneSharedWeights {
    /// Weight and scale of the three matrices.
    pub fn names(layer: usize) -> (r: Result<Vec<String>, Error>)
        ensures
            match r {
                Err(e) => e == Error::SharedLayer && layer >= LAYERS,
                Ok(names) => {
                    &&& layer < LAYERS
                    &&& names@.len() == 6
                    &&& names@[0]@ == shared_tensor(layer as nat, "w1.weight"@)
                    &&& names@[1]@ == shared_tensor(layer as nat, "w1.scale"@)
                    &&& names@[2]@ == shared_tensor(layer as nat, "w3.weight"@)
                    &&& names@[3]@ == shared_tensor(layer as nat, "w3.scale"@)
                    &&& names@[4]@ == shared_tensor(layer as nat, "w2.weight"@)
                    &&& names@[5]@ == shared_tensor(layer as nat, "w2.scale"@)
                },
            },
    {
        if layer >= LAYERS {
            return Err(Error::SharedLayer);
        }
        let mut names: Vec<String> = Vec::new();
        names.push(name(layer, "w1.weight"));
        names.push(name(layer, "w1.scale"));
        names.push(name(layer, "w3.weight"));
        names.push(name(layer, "w3.scale"));
        names.push(name(layer, "w2.weight"));
        names.push(name(layer, "w2.scale"));
        Ok(names)
    }

    /// Bytes of the tensors (`plan`), of two packed scales of the widening
    /// matrices and of one of the narrowing matrix.
    pub fn device_bytes(plan: usize, up: usize, down: usize) -> (r: Result<usize, Error>)
        ensures
            source_cache::same_count(
                r,
                budget::counted(plan + 2 * up + down, Error::BudgetOverflow),
            ),
    {
        proof {
            reveal_with_fuel(budget::total, 4);
        }
        let parts: [usize; 3] = [up, up, down];
        sum(plan, parts.as_slice(), Error::BudgetOverflow)
    }

    /// The weights of a layer, within `budget` bytes. The tensors take `plan` bytes,
    /// a packed scale of a widening matrix `up` and that of the narrowing one `down`.
    pub fn load(library: u64, layer: usize, plan: usize, up: usize, down: usize, budget: usize) -> (r:
        Result<Self, Error>)
        ensures
            r == if layer >= LAYERS {
                Err::<Self, Error>(Error::SharedLayer)
            } else if plan + 2 * up + down > budget {
                Err::<Self, Error>(Error::SharedWeightsBudget)
            } else {
                Ok::<Self, Error>(BackboneSharedWeights { library, layer })
            },
    {
        if layer >= LAYERS {
            return Err(Error::SharedLayer);
        }
        match Self::device_bytes(plan, up, down) {
            Err(_) => Err(Error::SharedWeightsBudget),
            Ok(bytes) => if bytes > budget {
                Err(Error::SharedWeightsBudget)
            } else {
                Ok(BackboneSharedWeights { library, layer })
            },
        }
    }
}

/// Storage of one lane's shared experts.
#[derive(Debug, Clone, Copy)]
pub struct SharedBuffers {
    pub input: DeviceBuffer,
    pub result: DeviceBuffer,
    pub intermediates: [DeviceBuffer; 3],
}

/// A published shared contribution.
pub struct SharedOutput {
    pub layer: usize,
    pub rows: u32,
    pub input: DeviceBuffer,
    pub intermediates: [DeviceBuffer; 3],
    pub values: DeviceBuffer,
    pub origin: Option<QueryBinding>,
}

impl SharedOutput {
    pub fn binding(&self) -> (r: Result<QueryBinding, Error>)
        ensures
            match r {
                Ok(binding) => self.origin == Some(binding),
                Err(e) => e == Error::SharedUnbound && self.origin is None,
            },
    {
        match self.origin {
            Some(binding) => Ok(binding),
            None => Err(Error::SharedUnbound),
        }
    }
}

/// One lane's shared experts.
pub struct BackboneSharedWave {
    pub weights: BackboneSharedWeights,
    pub buffers: SharedBuffers,
    pub state: StageState,
}

impl BackboneSharedWave {
    pub open spec fn inv(&self) -> bool {
        &&& self.state.inv()
        &&& self.state.capacity * 20480 <= usize::MAX
    }

    /// Only what is published differs from `before`.
    pub open spec fn same_wave(&self, before: &Self) -> bool {
        &&& self.weights == before.weights
        &&& self.buffers == before.buffers
    }

    pub fn errors() -> (r: StageErrors)
        ensures
            r == (StageErrors {
                rows: Error::SharedRows,
                captured: Error::SharedCaptured,
                missing: Error::SharedGraphMissing,
                differs: Error::SharedGraphRows,
                unpublished: Error::SharedUnpublished,
            }),
    {
        StageErrors {
            rows: Error::SharedRows,
            captured: Error::SharedCaptured,
            missing: Error::SharedGraphMissing,
            differs: Error::SharedGraphRows,
            unpublished: Error::SharedUnpublished,
        }
    }

    /// Bytes of a lane, given those of the experts' own workspace.
    pub fn device_bytes(inner: usize, capacity: u32) -> (r: Result<usize, Error>)
        ensures
            source_cache::same_count(
                r,
                budget::counted(inner + capacity * 20480, Error::BudgetOverflow),
            ),
    {
        row_bytes(inner, capacity, 20480, Error::BudgetOverflow)
    }

    /// A lane of `capacity` rows within `budget` bytes. The experts' own workspace
    /// takes `inner` bytes.
    pub fn new(
        weights: BackboneSharedWeights,
        capacity: u32,
        inner: usize,
        budget: usize,
        buffers: SharedBuffers,
    ) -> (r: Result<Self, Error>)
        ensures
            match r {
                Err(e) => e == Error::SharedWaveBudget && inner + capacity * 20480 > budget,
                Ok(wave) => {
                    &&& inner + capacity * 20480 <= budget
                    &&& wave.inv()
                    &&& wave.weights == weights
                    &&& wave.buffers == buffers
                    &&& wave.state.capacity == capacity
                    &&& wave.state.ready is None
                    &&& wave.state.origin is None
                    &&& wave.state.tokens@.len() == 0
                },
            },
    {
        match Self::device_bytes(inner, capacity) {
            Err(_) => {
                return Err(Error::SharedWaveBudget);
            },
            Ok(bytes) => {
                if bytes > budget {
                    return Err(Error::SharedWaveBudget);
                }
            },
        }
        Ok(
            BackboneSharedWave {
                weights,
                buffers,
                state: StageState::new(capacity, Self::errors()),
            },
        )
    }

    /// Why the lane cannot go over to other weights.
    pub open spec fn rebind_error(&self, weights: BackboneSharedWeights, drained: bool) -> Option<
        Error,
    > {
        if self.weights.library != weights.library {
            Some(Error::SharedLibrary)
        } else if !drained {
            Some(Error::StreamBusy)
        } else {
            None
        }
    }

    /// Reuses the lane's storage with another layer's experts.
    pub fn rebind(&mut self, weights: BackboneSharedWeights, drained: bool) -> (r: Result<
        (),
        Error,
    >)
        requires
            old(self).inv(),
        ensures
            final(self).inv(),
            final(self).buffers == old(self).buffers,
            final(self).state.cleared(&old(self).state),
            match r {
                Err(e) => old(self).rebind_error(weights, drained) == Some(e)
                    && final(self).weights == old(self).weights,
                Ok(_) => old(self).rebind_error(weights, drained) is None && final(self).weights
                    == weights,
            },
    {
        self.state.clear();
        if self.weights.library != weights.library {
            return Err(Error::SharedLibrary);
        }
        if !drained {
            return Err(Error::StreamBusy);
        }
        self.weights = weights;
        Ok(())
    }

    /// Checks a block's input before any of it is copied.
    pub fn begin_ffn(&mut self, input: &FfnInput) -> (r: Result<u32, Error>)
        requires
            old(self).inv(),
        ensures
            final(self).inv(),
            final(self).same_wave(old(self)),
            final(self).state.cleared(&old(self).state),
            match r {
                Ok(rows) => input.suits(
                    old(self).weights.layer,
                    old(self).state.capacity,
                    old(self).buffers.input.device,
                ) && rows == input.tokens@.len(),
                Err(e) => e == Error::SharedInput && !input.suits(
                    old(self).weights.layer,
                    old(self).state.capacity,
                    old(self).buffers.input.device,
                ),
            },
    {
        self.state.clear();
        if !input.is_for(self.weights.layer, self.state.capacity, self.buffers.input.device) {
            return Err(Error::SharedInput);
        }
        Ok(input.tokens.len() as u32)
    }

    /// Runs a block's input; `work` is how the device work went.
    pub fn execute_ffn(&mut self, input: &FfnInput, work: Result<(), Error>) -> (r: Result<
        (),
        Error,
    >)
        requires
            old(self).inv(),
        ensures
            final(self).inv(),
            final(self).same_wave(old(self)),
            match r {
                Err(e) => {
                    &&& final(self).state.cleared(&old(self).state)
                    &&& if input.suits(
                        old(self).weights.layer,
                        old(self).state.capacity,
                        old(self).buffers.input.device,
                    ) {
                        work == Err::<(), Error>(e)
                    } else {
                        e == Error::SharedInput
                    }
                },
                Ok(_) => {
                    &&& input.suits(
                        old(self).weights.layer,
                        old(self).state.capacity,
                        old(self).buffers.input.device,
                    )
                    &&& work is Ok
                    &&& final(self).state.published_for(
                        &old(self).state,
                        input.binding,
                        input.tokens@,
                    )
                },
            },
    {
        match self.begin_ffn(input) {
            Err(e) => {
                return Err(e);
            },
            Ok(_) => {},
        }
        match work {
            Err(e) => Err(e),
            Ok(_) => {
                self.state.publish(input.binding, input.tokens);
                Ok(())
            },
        }
    }

    /// The published contribution.
    pub fn output(&self) -> (r: Result<SharedOutput, Error>)
        requires
            self.inv(),
        ensures
            match r {
                Err(e) => e == self.state.errors.unpublished && self.state.ready is None,
                Ok(output) => {
                    &&& self.state.ready matches Some(rows) && {
                        &&& output.rows == rows
                        &&& output.input == block::cut(self.buffers.input, rows * HIDDEN_BYTES)
                        &&& output.values == block::cut(self.buffers.result, rows * HIDDEN_BYTES)
                        &&& forall|i: int|
                            0 <= i < 3 ==> (#[trigger] output.intermediates@[i]) == block::cut(
                                self.buffers.intermediates@[i],
                                rows * INTERMEDIATE_BYTES,
                            )
                    }
                    &&& output.layer == self.weights.layer
                    &&& output.origin == self.state.origin
                },
            },
    {
        let rows: u32 = match self.state.rows() {
            Err(e) => {
                return Err(e);
            },
            Ok(rows) => rows,
        };
        let n: usize = rows as usize;
        let inner = &self.buffers.intermediates;
        Ok(
            SharedOutput {
                layer: self.weights.layer,
                rows,
                input: self.buffers.input.prefix(n * HIDDEN_BYTES),
                intermediates: [
                    inner[0].prefix(n * INTERMEDIATE_BYTES),
                    inner[1].prefix(n * INTERMEDIATE_BYTES),
                    inner[2].prefix(n * INTERMEDIATE_BYTES),
                ],
                values: self.buffers.result.prefix(n * HIDDEN_BYTES),
                origin: self.state.origin,
            },
        )
    }
}

impl BackboneSharedWave {
    /// Why `rows` rows cannot be run plainly. `work` is how the device work went.
    pub open spec fn run_error(&self, rows: u32, work: Result<(), Error>) -> Option<Error> {
        if !self.state.takes(rows) {
            Some(self.state.errors.rows)
        } else {
            match work {
                Err(e) => Some(e),
                Ok(_) => None,
            }
        }
    }

    /// Runs `rows` rows whose inputs are in place. They are published without a
    /// query.
    pub fn execute(&mut self, rows: u32, work: Result<(), Error>) -> (r: Result<(), Error>)
        requires
            old(self).inv(),
        ensures
            final(self).inv(),
            final(self).same_wave(old(self)),
            match r {
                Err(e) => old(self).run_error(rows, work) == Some(e) && final(self).state.cleared(
                    &old(self).state,
                ),
                Ok(_) => old(self).run_error(rows, work) is None && final(self).state.published(
                    &old(self).state,
                    rows,
                ),
            },
    {
        match self.state.validate(rows) {
            Err(e) => {
                return Err(e);
            },
            Ok(_) => {},
        }
        self.state.execute(rows, work)
    }

    /// The warm-up of a shape that is captured next. It leaves nothing published,
    /// and a shape is captured once.
    pub fn capture(&mut self, rows: u32, cached: Option<CachedGraph>, work: Result<(), Error>) -> (r:
        Result<(), Error>)
        requires
            old(self).inv(),
        ensures
            final(self).inv(),
            final(self).same_wave(old(self)),
            final(self).state.cleared(&old(self).state),
            match r {
                Ok(_) => cached is None && old(self).run_error(rows, work) is None,
                Err(e) => if cached is Some {
                    e == old(self).state.errors.captured
                } else {
                    old(self).run_error(rows, work) == Some(e)
                },
            },
    {
        self.state.clear();
        if cached.is_some() {
            return Err(self.state.errors.captured);
        }
        match self.execute(rows, work) {
            Err(e) => Err(e),
            Ok(_) => {
                self.state.clear();
                Ok(())
            },
        }
    }

    /// Runs `rows` rows by their captured execution and returns which; `work` is how
    /// the launch went.
    pub fn replay(&mut self, rows: u32, cached: Option<CachedGraph>, work: Result<(), Error>) -> (r:
        Result<u64, Error>)
        requires
            old(self).inv(),
        ensures
            final(self).inv(),
            final(self).same_wave(old(self)),
            match r {
                Err(e) => {
                    &&& final(self).state.cleared(&old(self).state)
                    &&& match old(self).state.replay_error(rows, cached) {
                        Some(reason) => e == reason,
                        None => work == Err::<(), Error>(e),
                    }
                },
                Ok(graph) => {
                    &&& old(self).state.replay_error(rows, cached) is None
                    &&& cached matches Some(kept) && graph == kept.handle
                    &&& work is Ok
                    &&& final(self).state.published(&old(self).state, rows)
                },
            },
    {
        self.state.replay(rows, cached, work)
    }

    /// Withdraws what is published before the layer's captured executions are
    /// dropped; `drained` is how draining the stream went.
    pub fn clear_graph(&mut self, drained: Result<(), Error>) -> (r: Result<(), Error>)
        requires
            old(self).inv(),
        ensures
            final(self).inv(),
            final(self).same_wave(old(self)),
            final(self).state.cleared(&old(self).state),
            r == drained,
    {
        self.state.clear();
        drained
    }

    pub fn input(&self) -> (r: DeviceBuffer)
        ensures
            r == self.buffers.input,
    {
        self.buffers.input
    }
}

} // verus!
