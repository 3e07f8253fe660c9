//! Low-rank query projection: budgets, buffers and publication of one lane's
//! query results.
use crate::attention_binding::{QueryBinding, LAYERS};
use crate::block;
use crate::block::within_context;
use crate::budget;
use crate::budget::{row_bytes, sum};
use crate::device::DeviceBuffer;
use crate::error::Error;
use crate::graphs::CachedGraph;
use crate::source_cache;
use crate::text;
use crate::text::append_count;
use crate::wave_state::{StageErrors, StageState};
use vstd::prelude::*;

verus! {

/// A published query of one layer.
pub struct AttentionQueryOutput<'a> {
    pub binding: Option<QueryBinding>,
    pub tokens: &'a [u64],
    pub layer: usize,
    pub rows: usize,
    pub hidden: DeviceBuffer,
    pub raw_rank: DeviceBuffer,
    pub normalized_rank: DeviceBuffer,
    pub rotated: DeviceBuffer,
    pub positions: DeviceBuffer,
    pub frequencies: DeviceBuffer,
}

impl<'a> AttentionQueryOutput<'a> {
    pub fn binding(&self) -> (r: Result<QueryBinding, Error>)
        ensures
            match r {
                Ok(binding) => self.binding == Some(binding),
                Err(e) => e == Error::QueryUnbound && self.binding is None,
            },
    {
        match self.binding {
            Some(binding) => Ok(binding),
            None => Err(Error::QueryUnbound),
        }
    }

    pub fn tokens(&self) -> (r: Result<&'a [u64], Error>)
        ensures
            match r {
                Ok(tokens) => self.binding is Some && tokens@ == self.tokens@,
                Err(e) => e == Error::QueryUnbound && self.binding is None,
            },
    {
        match self.binding {
            Some(_) => Ok(self.tokens),
            None => Err(Error::QueryUnbound),
        }
    }
}

/// Bytes per row of the hidden input, the raw and normalized rank, the projected
/// query, the positions and the frequencies.
pub const HIDDEN_BYTES: usize = 10240;

pub const RANK_BYTES: usize = 2560;

pub const QUERY_BYTES: usize = 65536;

pub const POSITION_BYTES: usize = 8;

pub const FREQUENCY_BYTES: usize = 256;

/// All of a row's buffers.
pub const QUERY_ROW_BYTES: usize = 81160;

/// The tensor `part` of a layer's query projection.
pub open spec fn query_tensor(layer: nat, part: Seq<char>) -> Seq<char> {
    "layers."@ + text::decimal(layer) + ".attn."@ + part
}

/// The tensors of the query projection; a split one leaves the second matrix to
/// the shards.
pub open spec fn query_parts(split: bool) -> Seq<Seq<char>> {
    if split {
        seq!["wq_a.weight"@, "wq_a.scale"@, "q_norm.weight"@]
    } else {
        seq!["wq_a.weight"@, "wq_a.scale"@, "wq_b.weight"@, "wq_b.scale"@, "q_norm.weight"@]
    }
}

fn name(layer: usize, part: &str) -> (r: String)
    ensures
        r@ == query_tensor(layer as nat, part@),
{
    let mut out: String = String::from_str("layers.");
    append_count(&mut out, layer);
    out.append(".attn.");
    out.append(part);
    out
}

/// What the weights of a layer's query projection are.
#[derive(Debug, Clone, Copy, PartialEq, Eq, Structural)]
pub struct AttentionQueryWeights {
    pub library: u64,
    pub layer: usize,
    pub device: i32,
    /// The second matrix is left to the shards of two devices.
    pub split: bool,
}

impl AttentionQueryWeights {
    pub fn names(layer: usize, split: bool) -> (r: Result<Vec<String>, Error>)
        ensures
            match r {
                Err(e) => e == Error::QueryLayer && layer >= LAYERS,
                Ok(names) => {
                    &&& layer < LAYERS
                    &&& names@.len() == query_parts(split).len()
                    &&& forall|i: int|
                        0 <= i < names@.len() ==> (#[trigger] names@[i])@ == query_tensor(
                            layer as nat,
                            query_parts(split)[i],
                        )
                },
            },
    {
        if layer >= LAYERS {
            return Err(Error::QueryLayer);
        }
        let mut names: Vec<String> = Vec::new();
        names.push(name(layer, "wq_a.weight"));
        names.push(name(layer, "wq_a.scale"));
        if !split {
            names.push(name(layer, "wq_b.weight"));
            names.push(name(layer, "wq_b.scale"));
        }
        names.push(name(layer, "q_norm.weight"));
        Ok(names)
    }

    /// Bytes of the tensors (`plan`) and of the matrices' packed scales.
    pub fn device_bytes_with_split(plan: usize, first: usize, second: usize, split: bool) -> (r:
        Result<usize, Error>)
        ensures
            source_cache::same_count(
                r,
                budget::counted(
                    plan + budget::matrix_bytes(first as int, second as int, split),
                    Error::BudgetOverflow,
                ),
            ),
    {
        let last: usize = if split {
            0
        } else {
            second
        };
        proof {
            reveal_with_fuel(budget::total, 3);
        }
        let parts: [usize; 2] = [first, last];
        sum(plan, parts.as_slice(), Error::BudgetOverflow)
    }

    /// Bytes of the weights where both matrices are whole.
    pub fn device_bytes(plan: usize, first: usize, second: usize) -> (r: Result<usize, Error>)
        ensures
            source_cache::same_count(
                r,
                budget::counted(plan + first + second, Error::BudgetOverflow),
            ),
    {
        Self::device_bytes_with_split(plan, first, second, false)
    }

    /// What loading a layer within `budget` bytes comes to.
    pub open spec fn loaded(
        library: u64,
        layer: usize,
        device: i32,
        need: int,
        budget: usize,
        split: bool,
    ) -> Result<Self, Error> {
        if layer >= LAYERS {
            Err(Error::QueryLayer)
        } else if need > budget {
            Err(Error::QueryWeightsBudget)
        } else {
            Ok(AttentionQueryWeights { library, layer, device, split })
        }
    }

    /// The weights of a layer with both matrices whole.
    pub fn load(
        library: u64,
        layer: usize,
        device: i32,
        plan: usize,
        scales: [usize; 2],
        budget: usize,
    ) -> (r: Result<Self, Error>)
        ensures
            r == Self::loaded(
                library,
                layer,
                device,
                plan + scales@[0] + scales@[1],
                budget,
                false,
            ),
    {
        Self::load_with_split(library, layer, device, plan, scales, budget, false)
    }

    /// The weights of a layer, within `budget` bytes. The tensors take `plan` bytes
    /// and the matrices' packed scales `scales`.
    pub fn load_with_split(
        library: u64,
        layer: usize,
        device: i32,
        plan: usize,
        scales: [usize; 2],
        budget: usize,
        split: bool,
    ) -> (r: Result<Self, Error>)
        ensures
            r == Self::loaded(
                library,
                layer,
                device,
                plan + budget::matrix_bytes(scales@[0] as int, scales@[1] as int, split),
                budget,
                split,
            ),
    {
        if layer >= LAYERS {
            return Err(Error::QueryLayer);
        }
        match Self::device_bytes_with_split(plan, scales[0], scales[1], split) {
            Err(_) => Err(Error::QueryWeightsBudget),
            Ok(bytes) => if bytes > budget {
                Err(Error::QueryWeightsBudget)
            } else {
                Ok(AttentionQueryWeights { library, layer, device, split })
            },
        }
    }

    /// Bytes of a lane's storage: the kernels' scale, the hidden, reduced, normalized
    /// and rotated rows, positions and frequencies, and the scratch of the two
    /// kernels, of which a split lane has the first only.
    pub open spec fn storage(capacity: int, scratch: Seq<usize>, split: bool) -> Seq<int> {
        seq![
            4,
            capacity * 10240,
            capacity * 2560,
            capacity * 2560,
            capacity * 65536,
            capacity * 8,
            capacity * 256,
            scratch[0] as int,
            budget::matrix_bytes(0, scratch[1] as int, split),
        ]
    }

    /// The sizes of a lane's storage, within `budget` bytes.
    pub fn layout(&self, capacity: u32, scratch: [usize; 2], budget: usize) -> (r: Result<
        [usize; 9],
        Error,
    >)
        ensures
            ({
                let need = 4 + capacity * 81160 + budget::matrix_bytes(
                    scratch@[0] as int,
                    scratch@[1] as int,
                    self.split,
                );
                match r {
                    Err(e) => e == Error::QueryWaveBudget && need > budget,
                    Ok(sizes) => {
                        &&& need <= budget
                        &&& forall|k: int|
                            0 <= k < 9 ==> #[trigger] sizes@[k] == Self::storage(
                                capacity as int,
                                scratch@,
                                self.split,
                            )[k]
                    },
                }
            }),
    {
        match AttentionQueryWave::device_bytes_with_split(
            capacity,
            scratch[0],
            scratch[1],
            self.split,
        ) {
            Err(_) => {
                return Err(Error::QueryWaveBudget);
            },
            Ok(bytes) => {
                if bytes > budget {
                    return Err(Error::QueryWaveBudget);
                }
            },
        }
        let n: usize = capacity as usize;
        let second: usize = if self.split {
            0
        } else {
            scratch[1]
        };
        Ok([4, n * 10240, n * 2560, n * 2560, n * 65536, n * 8, n * 256, scratch[0], second])
    }

    /// Why a lane of `capacity` rows cannot be set up for these weights. The
    /// kernels' scratch takes `scratch` bytes.
    pub open spec fn wave_error(
        &self,
        capacity: u32,
        scratch: Seq<usize>,
        budget: usize,
        device: i32,
    ) -> Option<Error> {
        if 4 + capacity * 81160 + budget::matrix_bytes(scratch[0] as int, scratch[1] as int, self.split)
            > budget {
            Some(Error::QueryWaveBudget)
        } else if device != self.device {
            Some(Error::QueryWeightDevice)
        } else {
            None
        }
    }

    /// A lane of `capacity` rows over `buffers`, within `budget` bytes. The kernels
    /// of the two matrices have `scratch` bytes of scratch; a split lane has the
    /// first only. Nothing is published.
    pub fn wave(&self, capacity: u32, scratch: [usize; 2], budget: usize, buffers: QueryBuffers) -> (r:
        Result<AttentionQueryWave, Error>)
        ensures
            match r {
                Err(e) => self.wave_error(capacity, scratch@, budget, buffers.hidden.device)
                    == Some(e),
                Ok(wave) => {
                    &&& self.wave_error(capacity, scratch@, budget, buffers.hidden.device) is None
                    &&& wave.inv()
                    &&& wave.weights == *self
                    &&& wave.split == self.split
                    &&& wave.buffers == buffers
                    &&& wave.state.capacity == capacity
                    &&& wave.state.ready is None
                    &&& wave.state.origin is None
                    &&& wave.state.tokens@.len() == 0
                },
            },
    {
        match self.layout(capacity, scratch, budget) {
            Err(e) => {
                return Err(e);
            },
            Ok(_) => {},
        }
        if buffers.hidden.device != self.device {
            return Err(Error::QueryWeightDevice);
        }
        Ok(
            AttentionQueryWave {
                weights: *self,
                split: self.split,
                buffers,
                state: StageState::new(capacity, AttentionQueryWave::errors()),
            },
        )
    }
}

/// The storage of one lane's query.
#[derive(Debug, Clone, Copy, PartialEq, Eq, Structural)]
pub struct QueryBuffers {
    pub hidden: DeviceBuffer,
    pub raw_rank: DeviceBuffer,
    pub normalized_rank: DeviceBuffer,
    pub rotated: DeviceBuffer,
    pub positions: DeviceBuffer,
    pub frequencies: DeviceBuffer,
}

/// One lane's query projection.
pub struct AttentionQueryWave {
    pub weights: AttentionQueryWeights,
    /// The lane has no kernel for the second matrix.
    pub split: bool,
    pub buffers: QueryBuffers,
    pub state: StageState,
}

impl AttentionQueryWave {
    pub open spec fn inv(&self) -> bool {
        &&& self.state.inv()
        &&& self.state.capacity * QUERY_ROW_BYTES <= usize::MAX
    }

    pub open spec fn same_storage(&self, before: &Self) -> bool {
        &&& self.split == before.split
        &&& self.buffers == before.buffers
    }

    /// Only what is published differs from `before`.
    pub open spec fn same_wave(&self, before: &Self) -> bool {
        &&& self.same_storage(before)
        &&& self.weights == before.weights
    }

    pub fn errors() -> (r: StageErrors)
        ensures
            r == (StageErrors {
                rows: Error::QueryRows,
                captured: Error::QueryCaptured,
                missing: Error::QueryGraphMissing,
                differs: Error::QueryGraphRows,
                unpublished: Error::QueryUnpublished,
            }),
    {
        StageErrors {
            rows: Error::QueryRows,
            captured: Error::QueryCaptured,
            missing: Error::QueryGraphMissing,
            differs: Error::QueryGraphRows,
            unpublished: Error::QueryUnpublished,
        }
    }

    /// Bytes of a lane of `capacity` rows, given the kernels' scratch bytes.
    pub fn device_bytes_with_split(capacity: u32, first: usize, second: usize, split: bool) -> (r:
        Result<usize, Error>)
        ensures
            source_cache::same_count(
                r,
                budget::counted(
                    4 + capacity * 81160 + budget::matrix_bytes(first as int, second as int, split),
                    Error::BudgetOverflow,
                ),
            ),
    {
        let last: usize = if split {
            0
        } else {
            second
        };
        proof {
            reveal_with_fuel(budget::total, 3);
        }
        match row_bytes(4, capacity, QUERY_ROW_BYTES, Error::BudgetOverflow) {
            Err(e) => Err(e),
            Ok(rows) => {
                let parts: [usize; 2] = [first, last];
                sum(rows, parts.as_slice(), Error::BudgetOverflow)
            },
        }
    }

    /// Bytes of a lane where both matrices are whole.
    pub fn device_bytes(capacity: u32, first: usize, second: usize) -> (r: Result<usize, Error>)
        ensures
            source_cache::same_count(
                r,
                budget::counted(4 + capacity * 81160 + first + second, Error::BudgetOverflow),
            ),
    {
        Self::device_bytes_with_split(capacity, first, second, false)
    }

    pub fn layer(&self) -> (r: usize)
        ensures
            r == self.weights.layer,
    {
        self.weights.layer
    }

    pub fn input(&self) -> (r: DeviceBuffer)
        ensures
            r == self.buffers.hidden,
    {
        self.buffers.hidden
    }

    /// Why the lane cannot go over to other weights.
    pub open spec fn rebind_error(&self, weights: AttentionQueryWeights, drained: bool) -> Option<
        Error,
    > {
        if !(self.weights.library == weights.library && self.split == weights.split && weights.device
            == self.buffers.hidden.device) {
            Some(Error::AttentionRebound)
        } else if !drained {
            Some(Error::StreamBusy)
        } else {
            None
        }
    }

    /// Reuses the lane's storage with another layer's weights.
    pub fn rebind(&mut self, weights: AttentionQueryWeights, drained: bool) -> (r: Result<
        (),
        Error,
    >)
        requires
            old(self).inv(),
        ensures
            final(self).inv(),
            final(self).same_storage(old(self)),
            final(self).state.cleared(&old(self).state),
            match r {
                Err(e) => old(self).rebind_error(weights, drained) == Some(e)
                    && final(self).weights == old(self).weights,
                Ok(_) => old(self).rebind_error(weights, drained) is None && final(self).weights
                    == weights,
            },
    {
        self.state.clear();
        if !(self.weights.library == weights.library && self.split == weights.split && weights.device
            == self.buffers.hidden.device) {
            return Err(Error::AttentionRebound);
        }
        if !drained {
            return Err(Error::StreamBusy);
        }
        self.weights = weights;
        Ok(())
    }

    /// Why the tokens cannot be queried.
    pub open spec fn token_error(&self, tokens: Seq<u64>, next: u64) -> Option<Error> {
        if !(1 <= tokens.len() <= self.state.capacity && block::in_context(tokens)) {
            Some(Error::QueryTokens)
        } else if self.weights.layer >= LAYERS {
            Some(Error::QueryLayer)
        } else if next == u64::MAX {
            Some(Error::QueryBindingsExhausted)
        } else {
            None
        }
    }

    /// Begins a query of `tokens` under a new binding. Nothing is published until
    /// its work is done.
    pub fn begin_tokens(&mut self, next: &mut u64, tokens: &[u64]) -> (r: Result<QueryBinding, Error>)
        requires
            old(self).inv(),
        ensures
            final(self).inv(),
            final(self).same_wave(old(self)),
            final(self).state.cleared(&old(self).state),
            match r {
                Err(e) => old(self).token_error(tokens@, *old(next)) == Some(e) && *final(next)
                    == *old(next),
                Ok(binding) => {
                    &&& old(self).token_error(tokens@, *old(next)) is None
                    &&& binding.layer == old(self).weights.layer
                    &&& binding.identity == *old(next)
                    &&& *final(next) == *old(next) + 1
                },
            },
    {
        self.state.clear();
        if !(tokens.len() >= 1 && tokens.len() <= self.state.capacity as usize && within_context(
            tokens,
        )) {
            return Err(Error::QueryTokens);
        }
        QueryBinding::new(next, self.weights.layer)
    }

    /// As `begin_tokens`, for work that is waited for. Too many or no tokens are
    /// told apart from tokens outside the context.
    pub fn begin_tokens_cooperative(&mut self, next: &mut u64, tokens: &[u64]) -> (r: Result<
        QueryBinding,
        Error,
    >)
        requires
            old(self).inv(),
        ensures
            final(self).inv(),
            final(self).same_wave(old(self)),
            if tokens@.len() <= old(self).state.capacity {
                final(self).state.cleared(&old(self).state)
            } else {
                final(self).state == old(self).state
            },
            match r {
                Err(e) => {
                    &&& *final(next) == *old(next)
                    &&& if 1 <= tokens@.len() <= old(self).state.capacity {
                        old(self).token_error(tokens@, *old(next)) == Some(e)
                    } else {
                        e == Error::QueryRows
                    }
                },
                Ok(binding) => {
                    &&& old(self).token_error(tokens@, *old(next)) is None
                    &&& binding.layer == old(self).weights.layer
                    &&& binding.identity == *old(next)
                    &&& *final(next) == *old(next) + 1
                },
            },
    {
        if tokens.len() > self.state.capacity as usize {
            return Err(Error::QueryRows);
        }
        self.state.clear();
        if tokens.len() == 0 {
            return Err(Error::QueryRows);
        }
        self.begin_tokens(next, tokens)
    }

    /// Publishes a query whose work is done (`work`), or drops it.
    pub fn finish_tokens(&mut self, binding: QueryBinding, tokens: &[u64], work: Result<(), Error>) -> (r:
        Result<(), Error>)
        requires
            old(self).inv(),
            1 <= tokens@.len() <= old(self).state.capacity,
        ensures
            final(self).inv(),
            final(self).same_wave(old(self)),
            match r {
                Err(e) => work == Err::<(), Error>(e) && final(self).state.cleared(
                    &old(self).state,
                ),
                Ok(_) => work is Ok && final(self).state.published_for(
                    &old(self).state,
                    binding,
                    tokens@,
                ),
            },
    {
        match work {
            Err(e) => {
                self.state.clear();
                Err(e)
            },
            Ok(_) => {
                self.state.publish(binding, tokens);
                Ok(())
            },
        }
    }

    /// Whether the lane runs a query without shards.
    pub fn check_whole(&self) -> (r: Result<(), Error>)
        ensures
            r == if self.split {
                Err::<(), Error>(Error::QuerySplit)
            } else {
                Ok::<(), Error>(())
            },
    {
        if self.split {
            Err(Error::QuerySplit)
        } else {
            Ok(())
        }
    }

    /// Why a query over shards cannot begin.
    pub open spec fn shard_error(
        &self,
        tokens: Seq<u64>,
        query_shards: bool,
        device: i32,
        library: u64,
        next: u64,
    ) -> Option<Error> {
        if !(1 <= tokens.len() <= self.state.capacity) {
            Some(Error::QueryRows)
        } else if !(block::in_context(tokens) && query_shards && device
            == self.buffers.hidden.device && library == self.weights.library) {
            Some(Error::QueryShards)
        } else if self.weights.layer >= LAYERS {
            Some(Error::QueryLayer)
        } else if next == u64::MAX {
            Some(Error::QueryBindingsExhausted)
        } else {
            None
        }
    }

    /// Begins a query whose second matrix is computed by shards on two devices.
    /// Their gathered result lies on `device`.
    pub fn begin_tokens_tp2(
        &mut self,
        next: &mut u64,
        tokens: &[u64],
        query_shards: bool,
        device: i32,
        library: u64,
    ) -> (r: Result<QueryBinding, Error>)
        requires
            old(self).inv(),
        ensures
            final(self).inv(),
            final(self).same_wave(old(self)),
            if tokens@.len() <= old(self).state.capacity {
                final(self).state.cleared(&old(self).state)
            } else {
                final(self).state == old(self).state
            },
            match r {
                Err(e) => old(self).shard_error(
                    tokens@,
                    query_shards,
                    device,
                    library,
                    *old(next),
                ) == Some(e) && *final(next) == *old(next),
                Ok(binding) => {
                    &&& old(self).shard_error(
                        tokens@,
                        query_shards,
                        device,
                        library,
                        *old(next),
                    ) is None
                    &&& binding.layer == old(self).weights.layer
                    &&& binding.identity == *old(next)
                    &&& *final(next) == *old(next) + 1
                },
            },
    {
        if tokens.len() > self.state.capacity as usize {
            return Err(Error::QueryRows);
        }
        self.state.clear();
        if tokens.len() == 0 {
            return Err(Error::QueryRows);
        }
        if !(within_context(tokens) && query_shards && device == self.buffers.hidden.device
            && library == self.weights.library) {
            return Err(Error::QueryShards);
        }
        QueryBinding::new(next, self.weights.layer)
    }

    /// What the lane publishes.
    pub open spec fn is_output(&self, output: AttentionQueryOutput) -> bool {
        &&& self.state.ready matches Some(rows) && {
            &&& output.rows == rows
            &&& output.hidden == block::cut(self.buffers.hidden, rows * HIDDEN_BYTES)
            &&& output.raw_rank == block::cut(self.buffers.raw_rank, rows * RANK_BYTES)
            &&& output.normalized_rank == block::cut(
                self.buffers.normalized_rank,
                rows * RANK_BYTES,
            )
            &&& output.rotated == block::cut(self.buffers.rotated, rows * QUERY_BYTES)
            &&& output.positions == block::cut(
                self.buffers.positions,
                rows * POSITION_BYTES,
            )
            &&& output.frequencies == block::cut(
                self.buffers.frequencies,
                rows * FREQUENCY_BYTES,
            )
        }
        &&& output.binding == self.state.origin
        &&& output.tokens@ == self.state.tokens@
        &&& output.layer == self.weights.layer
    }

    /// The published query.
    pub fn output(&self) -> (r: Result<AttentionQueryOutput<'_>, Error>)
        requires
            self.inv(),
        ensures
            match r {
                Err(e) => e == self.state.errors.unpublished && self.state.ready is None,
                Ok(output) => self.is_output(output),
            },
    {
        let rows: usize = match self.state.rows() {
            Err(e) => {
                return Err(e);
            },
            Ok(rows) => rows as usize,
        };
        Ok(
            AttentionQueryOutput {
                binding: self.state.origin,
                tokens: self.state.tokens.as_slice(),
                layer: self.weights.layer,
                rows,
                hidden: self.buffers.hidden.prefix(rows * HIDDEN_BYTES),
                raw_rank: self.buffers.raw_rank.prefix(rows * RANK_BYTES),
                normalized_rank: self.buffers.normalized_rank.prefix(rows * RANK_BYTES),
                rotated: self.buffers.rotated.prefix(rows * QUERY_BYTES),
                positions: self.buffers.positions.prefix(rows * POSITION_BYTES),
                frequencies: self.buffers.frequencies.prefix(rows * FREQUENCY_BYTES),
            },
        )
    }
}

/// Two queries never share a binding: a binding that is taken when the counter has gone
/// on from another is not that one, whatever their layers; each is its own layer's.
pub proof fn law_bindings_are_distinct(
    first: QueryBinding,
    second: QueryBinding,
    layers: (usize, usize),
    start: u64,
    between: u64,
    later: u64,
    end: u64,
)
    requires
        QueryBinding::is_taken(start, between, layers.0, Ok::<QueryBinding, Error>(first)),
        between <= later,
        QueryBinding::is_taken(later, end, layers.1, Ok::<QueryBinding, Error>(second)),
    ensures
        first.identity < second.identity,
        first.identity < between && second.identity < end,
        first.layer == layers.0 && first.layer < 40,
        second.layer == layers.1 && second.layer < 40,
{
}

impl AttentionQueryWave {
    /// Why `rows` rows cannot be run plainly. `work` is how the device work went.
    pub open spec fn run_error(&self, rows: u32, work: Result<(), Error>) -> Option<Error> {
        if !self.state.takes(rows) {
            Some(self.state.errors.rows)
        } else if self.split {
            Some(Error::QuerySplit)
        } else {
            match work {
                Err(e) => Some(e),
                Ok(_) => None,
            }
        }
    }

    /// Runs `rows` rows whose inputs are in place. They are published without a
    /// query.
    pub fn execute(&mut self, rows: u32, work: Result<(), Error>) -> (r: Result<(), Error>)
        requires
            old(self).inv(),
        ensures
            final(self).inv(),
            final(self).same_wave(old(self)),
            match r {
                Err(e) => old(self).run_error(rows, work) == Some(e) && final(self).state.cleared(
                    &old(self).state,
                ),
                Ok(_) => old(self).run_error(rows, work) is None && final(self).state.published(
                    &old(self).state,
                    rows,
                ),
            },
    {
        match self.state.validate(rows) {
            Err(e) => {
                return Err(e);
            },
            Ok(_) => {},
        }
        if self.split {
            return Err(Error::QuerySplit);
        }
        self.state.execute(rows, work)
    }

    /// The warm-up of a shape that is captured next. It leaves nothing published,
    /// and a shape is captured once.
    pub fn capture(&mut self, rows: u32, cached: Option<CachedGraph>, work: Result<(), Error>) -> (r:
        Result<(), Error>)
        requires
            old(self).inv(),
        ensures
            final(self).inv(),
            final(self).same_wave(old(self)),
            final(self).state.cleared(&old(self).state),
            match r {
                Ok(_) => cached is None && old(self).run_error(rows, work) is None,
                Err(e) => if cached is Some {
                    e == old(self).state.errors.captured
                } else {
                    old(self).run_error(rows, work) == Some(e)
                },
            },
    {
        self.state.clear();
        if cached.is_some() {
            return Err(self.state.errors.captured);
        }
        match self.execute(rows, work) {
            Err(e) => Err(e),
            Ok(_) => {
                self.state.clear();
                Ok(())
            },
        }
    }

    /// Runs `rows` rows by their captured execution and returns which; `work` is how
    /// the launch went.
    pub fn replay(&mut self, rows: u32, cached: Option<CachedGraph>, work: Result<(), Error>) -> (r:
        Result<u64, Error>)
        requires
            old(self).inv(),
        ensures
            final(self).inv(),
            final(self).same_wave(old(self)),
            match r {
                Err(e) => {
                    &&& final(self).state.cleared(&old(self).state)
                    &&& match old(self).state.replay_error(rows, cached) {
                        Some(reason) => e == reason,
                        None => work == Err::<(), Error>(e),
                    }
                },
                Ok(graph) => {
                    &&& old(self).state.replay_error(rows, cached) is None
                    &&& cached matches Some(kept) && graph == kept.handle
                    &&& work is Ok
                    &&& final(self).state.published(&old(self).state, rows)
                },
            },
    {
        self.state.replay(rows, cached, work)
    }

    /// Withdraws what is published before the layer's captured executions are
    /// dropped; `drained` is how draining the stream went.
    pub fn clear_graph(&mut self, drained: Result<(), Error>) -> (r: Result<(), Error>)
        requires
            old(self).inv(),
        ensures
            final(self).inv(),
            final(self).same_wave(old(self)),
            final(self).state.cleared(&old(self).state),
            r == drained,
    {
        self.state.clear();
        drained
    }

    pub fn positions(&self) -> (r: DeviceBuffer)
        ensures
            r == self.buffers.positions,
    {
        self.buffers.positions
    }
}

/// What a query lane's storage takes is what it is counted by.
pub proof fn law_query_storage_adds_up(capacity: int, scratch: Seq<usize>, split: bool)
    ensures
        ({
            let sizes = AttentionQueryWeights::storage(capacity, scratch, split);
            sizes[0] + sizes[1] + sizes[2] + sizes[3] + sizes[4] + sizes[5] + sizes[6] + sizes[7] + sizes[8] == 4 + capacity * 81160 + budget::matrix_bytes(
                scratch[0] as int,
                scratch[1] as int,
                split,
            )
        }),
{
}

/// A run of as many rows as there is room for publishes every buffer to its last byte,
/// and a shorter one as much of each as its share of the rows.
pub proof fn law_full_query_fills_its_storage(
    wave: &AttentionQueryWave,
    output: AttentionQueryOutput,
    capacity: int,
    scratch: Seq<usize>,
    split: bool,
)
    requires
        wave.is_output(output),
        0 < output.rows <= capacity <= 4096,
    ensures
        ({
            let sizes = AttentionQueryWeights::storage(capacity, scratch, split);
            let rows = output.rows;
            &&& output.hidden.bytes * capacity == sizes[1] * rows
            &&& output.raw_rank.bytes * capacity == sizes[2] * rows
            &&& output.normalized_rank.bytes * capacity == sizes[3] * rows
            &&& output.rotated.bytes * capacity == sizes[4] * rows
            &&& output.positions.bytes * capacity == sizes[5] * rows
            &&& output.frequencies.bytes * capacity == sizes[6] * rows
        }),
{
    let rows = output.rows as int;
    assert(rows * 10240 * capacity == capacity * 10240 * rows) by (nonlinear_arith);
    assert(rows * 2560 * capacity == capacity * 2560 * rows) by (nonlinear_arith);
    assert(rows * 65536 * capacity == capacity * 65536 * rows) by (nonlinear_arith);
    assert(rows * 8 * capacity == capacity * 8 * rows) by (nonlinear_arith);
    assert(rows * 256 * capacity == capacity * 256 * rows) by (nonlinear_arith);
}

} // verus!
