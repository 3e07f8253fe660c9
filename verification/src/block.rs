//! The order of attention and feed-forward work in one block, tied to the exact
//! query that it belongs to.
pub mod laws;
pub mod transfer;

use crate::attention_binding::QueryBinding;
use crate::attention_output::AttentionOutput;
use crate::compressor::MAX_CONTEXT;
use crate::device::{DeviceBuffer, DeviceCopy};
use crate::error::Error;
use vstd::prelude::*;

verus! {

/// Bytes of one row of the four residual streams.
pub const RESIDUAL_BYTES: usize = 40960;

/// Bytes of one row of the mixing coefficients.
pub const PRE_BYTES: usize = 16;

/// Bytes of one hidden row.
pub const HIDDEN_BYTES: usize = 10240;

/// The layer takes an engram update before its attention.
pub open spec fn takes_engram(layer: int) -> bool {
    layer == 1 || layer == 14
}

pub fn needs_engram(layer: usize) -> (r: bool)
    ensures
        r == takes_engram(layer as int),
{
    layer == 1 || layer == 14
}

/// Every token lies within the model's context.
pub open spec fn in_context(tokens: Seq<u64>) -> bool {
    forall|i: int| 0 <= i < tokens.len() ==> (#[trigger] tokens[i]) < MAX_CONTEXT
}

pub fn within_context(tokens: &[u64]) -> (r: bool)
    ensures
        r == in_context(tokens@),
{
    let mut i: usize = 0;
    while i < tokens.len()
        invariant
            i <= tokens@.len(),
            forall|k: int| 0 <= k < i ==> (#[trigger] tokens@[k]) < MAX_CONTEXT,
        decreases tokens@.len() - i,
    {
        if tokens[i] >= MAX_CONTEXT {
            assert(tokens@[i as int] >= MAX_CONTEXT);
            return false;
        }
        i = i + 1;
    }
    true
}

pub fn copy_tokens(tokens: &[u64]) -> (r: Vec<u64>)
    ensures
        r@ == tokens@,
{
    let mut out: Vec<u64> = Vec::new();
    let mut i: usize = 0;
    while i < tokens.len()
        invariant
            i <= tokens@.len(),
            out@ == tokens@.subrange(0, i as int),
        decreases tokens@.len() - i,
    {
        out.push(tokens[i]);
        i = i + 1;
        assert(out@ =~= tokens@.subrange(0, i as int));
    }
    assert(out@ =~= tokens@);
    out
}

#[derive(Debug, Clone, Copy, PartialEq, Eq, Structural)]
pub enum BlockPhase {
    Idle,
    /// Inputs are in place; `ready` once a due engram update is applied.
    Prepared { binding: QueryBinding, rows: usize, ready: bool },
    Attention { binding: QueryBinding, rows: usize },
    QueuedFfn { binding: QueryBinding, rows: usize },
    Ffn { binding: QueryBinding, rows: usize },
    /// The output is complete; `copied` if it is the next layer's input already.
    Ready { binding: QueryBinding, rows: usize, copied: bool },
}

/// The next layer's input after its engram work, before attention.
pub struct PreparedBlockInput<'a> {
    pub residual: DeviceBuffer,
    pub pre: DeviceBuffer,
    pub layer: usize,
    pub tokens: &'a [u64],
    pub previous: QueryBinding,
}

impl<'a> PreparedBlockInput<'a> {
    pub fn previous_binding(&self) -> (r: QueryBinding)
        ensures
            r == self.previous,
    {
        self.previous
    }
}

pub struct FfnInput<'a> {
    pub residual: DeviceBuffer,
    pub incoming_pre: DeviceBuffer,
    pub values: DeviceBuffer,
    pub layer: usize,
    pub tokens: &'a [u64],
    pub binding: QueryBinding,
}

impl<'a> FfnInput<'a> {
    pub fn binding(&self) -> (r: QueryBinding)
        ensures
            r == self.binding,
    {
        self.binding
    }

    /// The input is one of `layer` that a wave of `capacity` rows on `device` takes.
    pub open spec fn suits(&self, layer: usize, capacity: u32, device: i32) -> bool {
        &&& self.layer == layer
        &&& self.binding.layer == layer
        &&& 1 <= self.tokens@.len() <= capacity
        &&& self.values.bytes == self.tokens@.len() * HIDDEN_BYTES
        &&& self.values.device == device
    }

    pub fn is_for(&self, layer: usize, capacity: u32, device: i32) -> (r: bool)
        requires
            capacity * HIDDEN_BYTES <= usize::MAX,
        ensures
            r == self.suits(layer, capacity, device),
    {
        self.layer == layer && self.binding.layer == layer && self.tokens.len() >= 1
            && self.tokens.len() <= capacity as usize && self.values.bytes == self.tokens.len()
            * HIDDEN_BYTES && self.values.device == device
    }
}

pub struct BlockOutput<'a> {
    pub binding: QueryBinding,
    pub residual: DeviceBuffer,
    pub pre: DeviceBuffer,
    pub layer: usize,
    pub tokens: &'a [u64],
}

impl<'a> BlockOutput<'a> {
    pub fn binding(&self) -> (r: QueryBinding)
        ensures
            r == self.binding,
    {
        self.binding
    }

    /// The output can be the input of a block of `capacity` rows.
    pub open spec fn carries(&self, capacity: usize) -> bool {
        let rows = self.tokens@.len();
        &&& self.layer < 39
        &&& self.binding.layer == self.layer
        &&& 1 <= rows <= capacity
        &&& in_context(self.tokens@)
        &&& self.residual.bytes == rows * RESIDUAL_BYTES
        &&& self.pre.bytes == rows * PRE_BYTES
    }

    pub fn can_carry(&self, capacity: usize) -> (r: bool)
        requires
            capacity <= 4096,
        ensures
            r == self.carries(capacity),
    {
        let rows: usize = self.tokens.len();
        self.layer < 39 && self.binding.layer == self.layer && rows >= 1 && rows <= capacity
            && within_context(self.tokens) && self.residual.bytes == rows * RESIDUAL_BYTES
            && self.pre.bytes == rows * PRE_BYTES
    }
}

/// Text embeddings for the first block.
pub struct TargetEmbedding<'a> {
    pub token_ids: &'a [u32],
    pub positions: &'a [u64],
    pub residual: DeviceBuffer,
    pub pre: DeviceBuffer,
}

/// One lane's block: its two mixing workspaces and the phase of their work.
pub struct BackboneBlockWave {
    pub layer: usize,
    pub capacity: usize,
    /// Residual and mixing input of the attention half.
    pub residual: DeviceBuffer,
    pub pre: DeviceBuffer,
    /// Residual and mixing input of the feed-forward half.
    pub ffn_residual: DeviceBuffer,
    pub ffn_pre: DeviceBuffer,
    /// Residual and mixing output of the feed-forward half.
    pub out_residual: DeviceBuffer,
    pub out_pre: DeviceBuffer,
    pub tokens: Vec<u64>,
    pub phase: BlockPhase,
}

/// A device buffer cut to `bytes`.
pub open spec fn cut(buffer: DeviceBuffer, bytes: int) -> DeviceBuffer {
    DeviceBuffer { bytes: bytes as usize, ..buffer }
}

impl BackboneBlockWave {
    /// The rows of the phase, where it has any.
    pub open spec fn phase_rows(phase: BlockPhase) -> Option<usize> {
        match phase {
            BlockPhase::Idle => None,
            BlockPhase::Prepared { rows, .. } => Some(rows),
            BlockPhase::Attention { rows, .. } => Some(rows),
            BlockPhase::QueuedFfn { rows, .. } => Some(rows),
            BlockPhase::Ffn { rows, .. } => Some(rows),
            BlockPhase::Ready { rows, .. } => Some(rows),
        }
    }

    pub open spec fn inv(&self) -> bool {
        &&& 1 <= self.capacity <= 4096
        &&& self.layer < 40
        &&& self.residual.bytes == self.capacity * RESIDUAL_BYTES
        &&& self.pre.bytes == self.capacity * PRE_BYTES
        &&& self.residual.device == self.pre.device
        &&& match Self::phase_rows(self.phase) {
            None => true,
            Some(rows) => rows == self.tokens@.len() && 1 <= rows <= self.capacity,
        }
    }

    /// Same storage and layer as `before`.
    pub open spec fn same_storage(&self, before: &Self) -> bool {
        &&& self.capacity == before.capacity
        &&& self.residual == before.residual
        &&& self.pre == before.pre
        &&& self.ffn_residual == before.ffn_residual
        &&& self.ffn_pre == before.ffn_pre
        &&& self.out_residual == before.out_residual
        &&& self.out_pre == before.out_pre
    }

    /// Nothing is in flight and nothing is published.
    pub open spec fn idle_like(&self, before: &Self) -> bool {
        &&& self.same_storage(before)
        &&& self.phase is Idle
        &&& self.tokens@.len() == 0
    }

    pub fn device_bytes(half: usize) -> (r: Result<usize, Error>)
        ensures
            r == if 2 * half <= usize::MAX {
                Ok::<usize, Error>((2 * half) as usize)
            } else {
                Err::<usize, Error>(Error::BudgetOverflow)
            },
    {
        match half.checked_mul(2) {
            Some(bytes) => Ok(bytes),
            None => Err(Error::BudgetOverflow),
        }
    }

    pub fn inputs(&self) -> (r: [DeviceBuffer; 2])
        ensures
            r@ == seq![self.residual, self.pre],
    {
        [self.residual, self.pre]
    }

    pub fn reset(&mut self)
        ensures
            final(self).idle_like(old(self)),
            final(self).layer == old(self).layer,
            old(self).inv() ==> final(self).inv(),
    {
        self.phase = BlockPhase::Idle;
        self.tokens.clear();
    }

    /// Why the block cannot go on to `next`.
    pub open spec fn advance_error(&self, next: usize) -> Option<Error> {
        match self.phase {
            BlockPhase::Ready { binding, rows, .. } => if !(self.layer < 39 && next == self.layer
                + 1 && binding.layer == self.layer && self.tokens@.len() == rows) {
                Some(Error::BlockAdvanceLayer)
            } else {
                None
            },
            _ => Some(Error::BlockAdvance),
        }
    }

    /// Checks an advance to the weights of `next`; tells whether the output still
    /// has to be copied to the inputs.
    pub fn check_advance(&self, next: usize) -> (r: Result<bool, Error>)
        ensures
            match r {
                Err(e) => self.advance_error(next) == Some(e),
                Ok(copy) => {
                    &&& self.advance_error(next) is None
                    &&& self.phase matches BlockPhase::Ready { copied, .. } && copy == !copied
                },
            },
    {
        match self.phase {
            BlockPhase::Ready { binding, rows, copied } => {
                if !(self.layer < 39 && next == self.layer + 1 && binding.layer == self.layer
                    && self.tokens.len() == rows) {
                    return Err(Error::BlockAdvanceLayer);
                }
                Ok(!copied)
            },
            _ => Err(Error::BlockAdvance),
        }
    }

    /// Takes the block to the next layer. `work` is how binding its weights, and
    /// copying its input where due, went.
    pub fn advance(&mut self, next: usize, work: Result<(), Error>) -> (r: Result<(), Error>)
        requires
            old(self).inv(),
        ensures
            final(self).inv(),
            match r {
                Err(e) => {
                    &&& Some(e) == match old(self).advance_error(next) {
                        Some(reason) => Some(reason),
                        None => match work {
                            Err(reason) => Some(reason),
                            Ok(_) => None,
                        },
                    }
                    &&& final(self).idle_like(old(self))
                    &&& final(self).layer == old(self).layer
                },
                Ok(_) => {
                    &&& old(self).advance_error(next) is None
                    &&& work is Ok
                    &&& final(self).same_storage(old(self))
                    &&& final(self).layer == next
                    &&& final(self).tokens == old(self).tokens
                    &&& old(self).phase matches BlockPhase::Ready { binding, rows, .. }
                        && final(self).phase == (BlockPhase::Prepared {
                        binding,
                        rows,
                        ready: !takes_engram(next as int),
                    })
                },
            },
    {
        match self.check_advance(next) {
            Err(e) => {
                self.reset();
                return Err(e);
            },
            Ok(_) => {},
        }
        match work {
            Err(e) => {
                self.reset();
                return Err(e);
            },
            Ok(_) => {},
        }
        if let BlockPhase::Ready { binding, rows, .. } = self.phase {
            self.layer = next;
            self.phase = BlockPhase::Prepared { binding, rows, ready: !needs_engram(next) };
        }
        Ok(())
    }

    /// The block can start another sequence.
    pub open spec fn restartable(&self, first: usize) -> bool {
        first == 0 && (self.phase is Idle || (self.layer == 39 && self.phase is Ready))
    }

    /// Starts another sequence at layer zero.
    pub fn restart(&mut self, first: usize, work: Result<(), Error>) -> (r: Result<(), Error>)
        requires
            old(self).inv(),
        ensures
            final(self).inv(),
            final(self).idle_like(old(self)),
            match r {
                Err(e) => {
                    &&& final(self).layer == old(self).layer
                    &&& if old(self).restartable(first) {
                        work == Err::<(), Error>(e)
                    } else {
                        e == Error::BlockRestart
                    }
                },
                Ok(_) => old(self).restartable(first) && work is Ok && final(self).layer == 0,
            },
    {
        let ready: bool = match self.phase {
            BlockPhase::Idle => true,
            BlockPhase::Ready { .. } => self.layer == 39,
            _ => false,
        };
        self.reset();
        if !(first == 0 && ready) {
            return Err(Error::BlockRestart);
        }
        match work {
            Err(e) => Err(e),
            Ok(_) => {
                self.layer = 0;
                Ok(())
            },
        }
    }

    /// Why `previous` cannot be this block's input.
    pub open spec fn previous_error(&self, previous: &BlockOutput) -> Option<Error> {
        if !(previous.carries(self.capacity) && self.layer == previous.layer + 1) {
            Some(Error::PreviousBlock)
        } else if previous.residual.device != self.residual.device || previous.pre.device
            != self.pre.device {
            Some(Error::PreviousBlockDevice)
        } else {
            None
        }
    }

    /// The copies of a residual and a mixing input into this block's inputs.
    pub open spec fn input_copies(&self, residual: DeviceBuffer, pre: DeviceBuffer) -> Seq<
        DeviceCopy,
    > {
        seq![
            DeviceCopy { source: residual, destination: cut(self.residual, residual.bytes as int) },
            DeviceCopy { source: pre, destination: cut(self.pre, pre.bytes as int) },
        ]
    }

    /// The copies that bring a completed adjacent layer into this block's inputs.
    pub fn previous_copies(&self, previous: &BlockOutput) -> (r: Result<[DeviceCopy; 2], Error>)
        requires
            self.inv(),
        ensures
            match r {
                Err(e) => self.previous_error(previous) == Some(e),
                Ok(copies) => {
                    &&& self.previous_error(previous) is None
                    &&& copies@ == self.input_copies(previous.residual, previous.pre)
                },
            },
    {
        if !(previous.can_carry(self.capacity) && self.layer == previous.layer + 1) {
            return Err(Error::PreviousBlock);
        }
        if previous.residual.device != self.residual.device || previous.pre.device
            != self.pre.device {
            return Err(Error::PreviousBlockDevice);
        }
        Ok(
            [
                DeviceCopy {
                    source: previous.residual,
                    destination: self.residual.prefix(previous.residual.bytes),
                },
                DeviceCopy {
                    source: previous.pre,
                    destination: self.pre.prefix(previous.pre.bytes),
                },
            ],
        )
    }

    /// The block holds the input of its layer, taken from `previous`.
    pub open spec fn holds(&self, previous: &BlockOutput) -> bool {
        &&& self.tokens@ == previous.tokens@
        &&& self.phase == (BlockPhase::Prepared {
            binding: previous.binding,
            rows: previous.tokens@.len() as usize,
            ready: !takes_engram(self.layer as int),
        })
    }

    /// Takes a completed adjacent layer as input; `work` is how its copies went.
    /// Layers with an engram stay unavailable until it is applied.
    pub fn initialize_previous(&mut self, previous: &BlockOutput, work: Result<(), Error>) -> (r:
        Result<(), Error>)
        requires
            old(self).inv(),
        ensures
            final(self).inv(),
            final(self).same_storage(old(self)),
            final(self).layer == old(self).layer,
            match r {
                Err(e) => {
                    &&& final(self).idle_like(old(self))
                    &&& Some(e) == match old(self).previous_error(previous) {
                        Some(reason) => Some(reason),
                        None => match work {
                            Err(reason) => Some(reason),
                            Ok(_) => None,
                        },
                    }
                },
                Ok(_) => old(self).previous_error(previous) is None && work is Ok && final(self).holds(previous),
            },
    {
        self.reset();
        match self.previous_copies(previous) {
            Err(e) => {
                return Err(e);
            },
            Ok(_) => {},
        }
        match work {
            Err(e) => {
                return Err(e);
            },
            Ok(_) => {},
        }
        self.tokens = copy_tokens(previous.tokens);
        self.phase = BlockPhase::Prepared {
            binding: previous.binding,
            rows: previous.tokens.len(),
            ready: !needs_engram(self.layer),
        };
        Ok(())
    }

    /// Takes retained encoder rows into decoder layer 20. `bound` is how binding
    /// the decoder's weights went, `work` how the copies went.
    pub fn initialize_decoder(
        &mut self,
        decoder: usize,
        encoder: &BlockOutput,
        bound: Result<(), Error>,
        work: Result<(), Error>,
    ) -> (r: Result<(), Error>)
        requires
            old(self).inv(),
        ensures
            final(self).inv(),
            final(self).same_storage(old(self)),
            match r {
                Err(e) => {
                    &&& final(self).idle_like(old(self))
                    &&& final(self).layer == if decoder != 20 || encoder.layer != 19 || bound is Err {
                        old(self).layer
                    } else {
                        20
                    }
                    &&& if decoder != 20 || encoder.layer != 19 {
                        e == Error::DecoderBoundary
                    } else if bound is Err {
                        bound == Err::<(), Error>(e)
                    } else {
                        match (BackboneBlockWave { layer: 20, ..*old(self) }).previous_error(encoder) {
                            Some(reason) => e == reason,
                            None => work == Err::<(), Error>(e),
                        }
                    }
                },
                Ok(_) => {
                    &&& decoder == 20 && encoder.layer == 19
                    &&& bound is Ok && work is Ok
                    &&& (BackboneBlockWave { layer: 20, ..*old(self) }).previous_error(encoder) is None
                    &&& final(self).layer == 20
                    &&& final(self).holds(encoder)
                },
            },
    {
        self.reset();
        if decoder != 20 || encoder.layer != 19 {
            return Err(Error::DecoderBoundary);
        }
        match bound {
            Err(e) => {
                return Err(e);
            },
            Ok(_) => {},
        }
        self.layer = 20;
        self.initialize_previous(encoder, work)
    }

    /// The block waits for an engram update of its layer.
    pub open spec fn awaits_engram(&self) -> bool {
        self.phase matches BlockPhase::Prepared { ready, .. } && !ready
    }

    /// Why the gathered rows cannot be applied.
    pub open spec fn engram_error(&self, gate: usize, rows: usize) -> Option<Error> {
        match self.phase {
            BlockPhase::Prepared { rows: due, ready, .. } => if ready {
                Some(Error::BlockEngram)
            } else if gate != self.layer || rows != due {
                Some(Error::BlockEngramRows)
            } else {
                None
            },
            _ => Some(Error::BlockEngram),
        }
    }

    /// Applies the engram update of `gate`'s layer; `work` is how gating and
    /// the residual copy went. A failure resets the block.
    pub fn apply_engram(&mut self, gate: usize, rows: usize, work: Result<(), Error>) -> (r: Result<
        (),
        Error,
    >)
        requires
            old(self).inv(),
        ensures
            final(self).inv(),
            final(self).same_storage(old(self)),
            final(self).layer == old(self).layer,
            match r {
                Err(e) => {
                    &&& final(self).idle_like(old(self))
                    &&& match old(self).engram_error(gate, rows) {
                        Some(reason) => e == reason,
                        None => work == Err::<(), Error>(e),
                    }
                },
                Ok(_) => {
                    &&& old(self).engram_error(gate, rows) is None
                    &&& work is Ok
                    &&& final(self).tokens == old(self).tokens
                    &&& old(self).phase matches BlockPhase::Prepared { binding, rows: due, .. }
                        && final(self).phase == (BlockPhase::Prepared {
                        binding,
                        rows: due,
                        ready: true,
                    })
                },
            },
    {
        if let BlockPhase::Prepared { binding, rows: due, ready } = self.phase {
            if ready {
                self.reset();
                return Err(Error::BlockEngram);
            }
            if gate != self.layer || rows != due {
                self.reset();
                return Err(Error::BlockEngramRows);
            }
            match work {
                Err(e) => {
                    self.reset();
                    Err(e)
                },
                Ok(_) => {
                    self.phase = BlockPhase::Prepared { binding, rows: due, ready: true };
                    Ok(())
                },
            }
        } else {
            self.reset();
            Err(Error::BlockEngram)
        }
    }

    /// The layer and tokens that wait for an engram.
    pub fn pending_engram(&self) -> (r: Result<(usize, &[u64]), Error>)
        ensures
            match r {
                Ok((layer, tokens)) => self.awaits_engram() && layer == self.layer && tokens@
                    == self.tokens@,
                Err(e) => e == Error::BlockEngram && !self.awaits_engram(),
            },
    {
        match self.phase {
            BlockPhase::Prepared { ready, .. } => if ready {
                Err(Error::BlockEngram)
            } else {
                Ok((self.layer, self.tokens.as_slice()))
            },
            _ => Err(Error::BlockEngram),
        }
    }

    /// The block's input is complete.
    pub open spec fn input_ready(&self) -> bool {
        self.phase matches BlockPhase::Prepared { ready, .. } && ready
    }

    /// What a block whose input is complete hands out.
    pub open spec fn is_input(&self, input: PreparedBlockInput) -> bool {
        &&& self.phase matches BlockPhase::Prepared { binding, rows, ready } && {
            &&& ready
            &&& input.previous == binding
            &&& input.residual == cut(self.residual, rows * RESIDUAL_BYTES)
            &&& input.pre == cut(self.pre, rows * PRE_BYTES)
        }
        &&& input.layer == self.layer
        &&& input.tokens@ == self.tokens@
    }

    pub fn prepared_input(&self) -> (r: Result<PreparedBlockInput<'_>, Error>)
        requires
            self.inv(),
        ensures
            match r {
                Err(e) => e == Error::BlockInput && !self.input_ready(),
                Ok(input) => self.is_input(input),
            },
    {
        match self.phase {
            BlockPhase::Prepared { binding, rows, ready } => {
                if !ready {
                    return Err(Error::BlockInput);
                }
                Ok(
                    PreparedBlockInput {
                        residual: self.residual.prefix(rows * RESIDUAL_BYTES),
                        pre: self.pre.prefix(rows * PRE_BYTES),
                        layer: self.layer,
                        tokens: self.tokens.as_slice(),
                        previous: binding,
                    },
                )
            },
            _ => Err(Error::BlockInput),
        }
    }

    /// Why the embedding cannot be the first block's input.
    pub open spec fn embedding_error(&self, embedding: &TargetEmbedding) -> Option<Error> {
        let rows = embedding.positions@.len();
        if !(self.layer == 0 && 1 <= rows <= self.capacity && embedding.token_ids@.len() == rows
            && embedding.residual.bytes == rows * RESIDUAL_BYTES && embedding.pre.bytes == rows
            * PRE_BYTES) {
            Some(Error::BlockEmbedding)
        } else if self.residual.device != embedding.residual.device || self.pre.device
            != embedding.pre.device {
            Some(Error::BlockEmbeddingDevice)
        } else {
            None
        }
    }

    /// The copies that bring text embeddings into the first block's inputs.
    /// Nothing is published.
    pub fn initialize_embedding(&mut self, embedding: &TargetEmbedding) -> (r: Result<
        [DeviceCopy; 2],
        Error,
    >)
        requires
            old(self).inv(),
        ensures
            final(self).inv(),
            final(self).idle_like(old(self)),
            final(self).layer == old(self).layer,
            match r {
                Err(e) => old(self).embedding_error(embedding) == Some(e),
                Ok(copies) => {
                    &&& old(self).embedding_error(embedding) is None
                    &&& copies@ == seq![
                        DeviceCopy {
                            source: embedding.residual,
                            destination: cut(old(self).residual, embedding.residual.bytes as int),
                        },
                        DeviceCopy {
                            source: embedding.pre,
                            destination: cut(old(self).pre, embedding.pre.bytes as int),
                        },
                    ]
                },
            },
    {
        self.reset();
        let rows: usize = embedding.positions.len();
        if !(self.layer == 0 && rows >= 1 && rows <= self.capacity && embedding.token_ids.len()
            == rows && embedding.residual.bytes == rows * RESIDUAL_BYTES && embedding.pre.bytes
            == rows * PRE_BYTES) {
            return Err(Error::BlockEmbedding);
        }
        if self.residual.device != embedding.residual.device || self.pre.device
            != embedding.pre.device {
            return Err(Error::BlockEmbeddingDevice);
        }
        Ok(
            [
                DeviceCopy {
                    source: embedding.residual,
                    destination: self.residual.prefix(embedding.residual.bytes),
                },
                DeviceCopy {
                    source: embedding.pre,
                    destination: self.pre.prefix(embedding.pre.bytes),
                },
            ],
        )
    }

    /// Why attention cannot begin with the query of `query_layer`.
    pub open spec fn attention_error(
        &self,
        query_layer: usize,
        query_device: i32,
        tokens: Seq<u64>,
    ) -> Option<Error> {
        if !(query_layer == self.layer && 1 <= tokens.len() <= self.capacity && in_context(tokens)) {
            Some(Error::BlockAttention)
        } else if query_device != self.residual.device {
            Some(Error::BlockQueryDevice)
        } else {
            None
        }
    }

    pub fn check_attention(&self, query_layer: usize, query_device: i32, tokens: &[u64]) -> (r:
        Result<(), Error>)
        ensures
            match r {
                Ok(_) => self.attention_error(query_layer, query_device, tokens@) is None,
                Err(e) => self.attention_error(query_layer, query_device, tokens@) == Some(e),
            },
    {
        if !(query_layer == self.layer && tokens.len() >= 1 && tokens.len() <= self.capacity
            && within_context(tokens)) {
            return Err(Error::BlockAttention);
        }
        if query_device != self.residual.device {
            return Err(Error::BlockQueryDevice);
        }
        Ok(())
    }

    /// Begins attention; `query` is the binding of the query that was computed
    /// for the tokens, or why there is none.
    pub fn begin_attention(
        &mut self,
        query_layer: usize,
        query_device: i32,
        tokens: &[u64],
        query: Result<QueryBinding, Error>,
    ) -> (r: Result<(), Error>)
        requires
            old(self).inv(),
        ensures
            final(self).inv(),
            final(self).same_storage(old(self)),
            final(self).layer == old(self).layer,
            match r {
                Err(e) => {
                    &&& final(self).idle_like(old(self))
                    &&& match old(self).attention_error(query_layer, query_device, tokens@) {
                        Some(reason) => e == reason,
                        None => query == Err::<QueryBinding, Error>(e),
                    }
                },
                Ok(_) => {
                    &&& old(self).attention_error(query_layer, query_device, tokens@) is None
                    &&& final(self).tokens@ == tokens@
                    &&& query matches Ok(binding) && final(self).phase == (BlockPhase::Attention {
                        binding,
                        rows: tokens@.len() as usize,
                    })
                },
            },
    {
        self.reset();
        match self.check_attention(query_layer, query_device, tokens) {
            Err(e) => {
                return Err(e);
            },
            Ok(_) => {},
        }
        match query {
            Err(e) => Err(e),
            Ok(binding) => {
                self.tokens = copy_tokens(tokens);
                self.phase = BlockPhase::Attention { binding, rows: tokens.len() };
                Ok(())
            },
        }
    }

    /// Starts the first layer from text embeddings; `query` is how the copies and
    /// the query went.
    pub fn begin_embedded_attention(
        &mut self,
        query_layer: usize,
        query_device: i32,
        embedding: &TargetEmbedding,
        query: Result<QueryBinding, Error>,
    ) -> (r: Result<(), Error>)
        requires
            old(self).inv(),
        ensures
            final(self).inv(),
            final(self).same_storage(old(self)),
            final(self).layer == old(self).layer,
            ({
                let positions = embedding.positions@;
                let reason = if query_layer != 0 {
                    Some(Error::BlockQueryLayer)
                } else if old(self).embedding_error(embedding) is Some {
                    old(self).embedding_error(embedding)
                } else {
                    old(self).attention_error(query_layer, query_device, positions)
                };
                match r {
                    Err(e) => {
                        &&& final(self).idle_like(old(self))
                        &&& match reason {
                            Some(reason) => e == reason,
                            None => query == Err::<QueryBinding, Error>(e),
                        }
                    },
                    Ok(_) => {
                        &&& reason is None
                        &&& final(self).tokens@ == positions
                        &&& query matches Ok(binding) && final(self).phase
                            == (BlockPhase::Attention { binding, rows: positions.len() as usize })
                    },
                }
            }),
    {
        self.reset();
        if query_layer != 0 {
            return Err(Error::BlockQueryLayer);
        }
        match self.initialize_embedding(embedding) {
            Err(e) => {
                return Err(e);
            },
            Ok(_) => {},
        }
        self.begin_attention(query_layer, query_device, embedding.positions, query)
    }

    /// As `begin_attention`, with the tokens of the prepared input.
    pub fn begin_prepared_attention(
        &mut self,
        query_layer: usize,
        query_device: i32,
        query: Result<QueryBinding, Error>,
    ) -> (r: Result<(), Error>)
        requires
            old(self).inv(),
        ensures
            final(self).inv(),
            final(self).same_storage(old(self)),
            final(self).layer == old(self).layer,
            match r {
                Err(e) => {
                    &&& final(self).idle_like(old(self))
                    &&& if !old(self).input_ready() {
                        e == Error::BlockInput
                    } else {
                        match old(self).attention_error(
                            query_layer,
                            query_device,
                            old(self).tokens@,
                        ) {
                            Some(reason) => e == reason,
                            None => query == Err::<QueryBinding, Error>(e),
                        }
                    }
                },
                Ok(_) => {
                    &&& old(self).input_ready()
                    &&& old(self).attention_error(query_layer, query_device, old(self).tokens@) is None
                    &&& final(self).tokens@ == old(self).tokens@
                    &&& query matches Ok(binding) && final(self).phase == (BlockPhase::Attention {
                        binding,
                        rows: old(self).tokens@.len() as usize,
                    })
                },
            },
    {
        let tokens: Vec<u64> = match self.prepared_input() {
            Err(e) => {
                self.reset();
                return Err(e);
            },
            Ok(input) => copy_tokens(input.tokens),
        };
        self.begin_attention(query_layer, query_device, tokens.as_slice(), query)
    }
}

impl BackboneBlockWave {
    /// Why the attention result is not this block's.
    pub open spec fn result_error(&self, output: &AttentionOutput) -> Option<Error> {
        match self.phase {
            BlockPhase::Attention { binding, rows } => if output.binding_error() is Some {
                output.binding_error()
            } else if !(output.origin == Some(binding) && output.layer == self.layer && output.rows
                == rows && output.projected.device == self.residual.device) {
                Some(Error::BlockAttentionResult)
            } else {
                None
            },
            _ => Some(Error::BlockAttentionPending),
        }
    }

    /// The feed-forward input that the block publishes.
    pub open spec fn is_ffn_input(&self, values: DeviceBuffer, input: FfnInput) -> bool {
        &&& self.phase matches BlockPhase::Ffn { binding, rows } && {
            &&& input.binding == binding
            &&& input.residual == cut(self.ffn_residual, rows * RESIDUAL_BYTES)
            &&& input.incoming_pre == cut(self.ffn_pre, rows * PRE_BYTES)
        }
        &&& input.values == values
        &&& input.layer == self.layer
        &&& input.tokens@ == self.tokens@
    }

    /// Goes from attention to the feed-forward half. `work` is the normalized
    /// input that the device produced, or why it did not.
    pub fn begin_ffn(&mut self, output: &AttentionOutput, work: Result<DeviceBuffer, Error>) -> (r:
        Result<FfnInput<'_>, Error>)
        requires
            old(self).inv(),
            work matches Ok(values) ==> values.bytes == old(self).tokens@.len() * HIDDEN_BYTES,
        ensures
            final(self).inv(),
            final(self).same_storage(old(self)),
            final(self).layer == old(self).layer,
            match r {
                Err(e) => {
                    &&& final(self).idle_like(old(self))
                    &&& match old(self).result_error(output) {
                        Some(reason) => e == reason,
                        None => work == Err::<DeviceBuffer, Error>(e),
                    }
                },
                Ok(input) => {
                    &&& old(self).result_error(output) is None
                    &&& final(self).tokens == old(self).tokens
                    &&& old(self).phase matches BlockPhase::Attention { binding, rows }
                        && final(self).phase == (BlockPhase::Ffn { binding, rows })
                    &&& work matches Ok(values) && final(self).is_ffn_input(values, input)
                },
            },
    {
        if let BlockPhase::Attention { binding, rows } = self.phase {
            match output.binding() {
                Err(e) => {
                    self.reset();
                    return Err(e);
                },
                Ok(origin) => {
                    if !(origin == binding && output.layer == self.layer && output.rows == rows
                        && output.projected.device == self.residual.device) {
                        self.reset();
                        return Err(Error::BlockAttentionResult);
                    }
                },
            }
            match work {
                Err(e) => {
                    self.reset();
                    Err(e)
                },
                Ok(values) => {
                    self.phase = BlockPhase::Ffn { binding, rows };
                    Ok(
                        FfnInput {
                            residual: self.ffn_residual.prefix(rows * RESIDUAL_BYTES),
                            incoming_pre: self.ffn_pre.prefix(rows * PRE_BYTES),
                            values,
                            layer: self.layer,
                            tokens: self.tokens.as_slice(),
                            binding,
                        },
                    )
                },
            }
        } else {
            self.reset();
            Err(Error::BlockAttentionPending)
        }
    }

    /// Why the feed-forward half cannot be queued behind `projected`.
    pub open spec fn queue_error(&self, binding: QueryBinding, rows: usize, projected: DeviceBuffer) -> Option<
        Error,
    > {
        match self.phase {
            BlockPhase::Attention { binding: expected, rows: count } => if !(binding == expected
                && rows == count && binding.layer == self.layer && projected.device
                == self.residual.device && projected.address != 0 && projected.bytes == rows
                * HIDDEN_BYTES) {
                Some(Error::QueuedAttentionResult)
            } else {
                None
            },
            _ => Some(Error::QueuedAttentionPending),
        }
    }

    /// Queues the feed-forward half behind an attention result of the stream; `work`
    /// is how the launches went. Only `complete_queued_ffn` publishes its input.
    pub fn enqueue_ffn(
        &mut self,
        binding: QueryBinding,
        rows: usize,
        projected: DeviceBuffer,
        work: Result<(), Error>,
    ) -> (r: Result<(), Error>)
        requires
            old(self).inv(),
        ensures
            final(self).inv(),
            match old(self).queue_error(binding, rows, projected) {
                Some(reason) => r == Err::<(), Error>(reason) && *final(self) == *old(self),
                None => {
                    &&& r == work
                    &&& *final(self) == (BackboneBlockWave {
                        phase: BlockPhase::QueuedFfn { binding, rows },
                        ..*old(self)
                    })
                },
            },
    {
        match self.phase {
            BlockPhase::Attention { binding: expected, rows: count } => {
                if !(binding == expected && rows == count && binding.layer == self.layer
                    && projected.device == self.residual.device && projected.address != 0
                    && projected.bytes == rows * HIDDEN_BYTES) {
                    return Err(Error::QueuedAttentionResult);
                }
                self.phase = BlockPhase::QueuedFfn { binding, rows };
                work
            },
            _ => Err(Error::QueuedAttentionPending),
        }
    }

    /// A captured execution of the feed-forward half is about to be launched.
    /// `owners` tells whether both mixing halves take over the captured state.
    pub fn prepare_ffn_graph_replay(
        &mut self,
        binding: QueryBinding,
        rows: usize,
        owners: Result<(), Error>,
    ) -> (r: Result<(), Error>)
        requires
            old(self).inv(),
        ensures
            final(self).inv(),
            if old(self).phase == (BlockPhase::Attention { binding, rows }) {
                &&& r == owners
                &&& *final(self) == if owners is Err {
                    *old(self)
                } else {
                    BackboneBlockWave {
                        phase: BlockPhase::QueuedFfn { binding, rows },
                        ..*old(self)
                    }
                }
            } else {
                &&& r == Err::<(), Error>(Error::FfnReplay)
                &&& *final(self) == *old(self)
            },
    {
        if self.phase == (BlockPhase::Attention { binding, rows }) {
            if owners.is_ok() {
                self.phase = BlockPhase::QueuedFfn { binding, rows };
            }
            owners
        } else {
            Err(Error::FfnReplay)
        }
    }

    /// The warm-up of a capture is over: attention's result is still in place.
    /// `owner` tells whether the attention half goes back to its own state.
    pub fn restore_ffn_graph_warmup(
        &mut self,
        binding: QueryBinding,
        rows: usize,
        owner: Result<(), Error>,
    ) -> (r: Result<(), Error>)
        requires
            old(self).inv(),
        ensures
            final(self).inv(),
            if old(self).phase == (BlockPhase::QueuedFfn { binding, rows }) {
                &&& r == owner
                &&& *final(self) == if owner is Err {
                    *old(self)
                } else {
                    BackboneBlockWave {
                        phase: BlockPhase::Attention { binding, rows },
                        ..*old(self)
                    }
                }
            } else {
                &&& r == Err::<(), Error>(Error::FfnWarmup)
                &&& *final(self) == *old(self)
            },
    {
        if self.phase == (BlockPhase::QueuedFfn { binding, rows }) {
            if owner.is_ok() {
                self.phase = BlockPhase::Attention { binding, rows };
            }
            owner
        } else {
            Err(Error::FfnWarmup)
        }
    }

    /// Why the queued feed-forward input cannot be published. `completed` is how the
    /// attention half ended.
    pub open spec fn complete_error(&self, values: DeviceBuffer, completed: Result<(), Error>) -> Option<
        Error,
    > {
        match self.phase {
            BlockPhase::QueuedFfn { rows, .. } => if values.bytes != rows * HIDDEN_BYTES
                || values.device != self.residual.device {
                Some(Error::QueuedFfnExtent)
            } else {
                match completed {
                    Err(e) => Some(e),
                    Ok(_) => None,
                }
            },
            _ => Some(Error::QueuedFfnAbsent),
        }
    }

    /// Publishes the queued feed-forward input once its stream is drained;
    /// `completed` is how the attention half ended.
    pub fn complete_queued_ffn(&mut self, values: DeviceBuffer, completed: Result<(), Error>) -> (r:
        Result<FfnInput<'_>, Error>)
        requires
            old(self).inv(),
        ensures
            final(self).inv(),
            match r {
                Err(e) => *final(self) == *old(self) && old(self).complete_error(values, completed)
                    == Some(e),
                Ok(input) => {
                    &&& old(self).complete_error(values, completed) is None
                    &&& old(self).phase matches BlockPhase::QueuedFfn { binding, rows }
                        && *final(self) == (BackboneBlockWave {
                        phase: BlockPhase::Ffn { binding, rows },
                        ..*old(self)
                    })
                    &&& final(self).is_ffn_input(values, input)
                },
            },
    {
        match self.phase {
            BlockPhase::QueuedFfn { binding, rows } => {
                if values.bytes != rows * HIDDEN_BYTES || values.device != self.residual.device {
                    return Err(Error::QueuedFfnExtent);
                }
                match completed {
                    Err(e) => {
                        return Err(e);
                    },
                    Ok(_) => {},
                }
                self.phase = BlockPhase::Ffn { binding, rows };
                Ok(
                    FfnInput {
                        residual: self.ffn_residual.prefix(rows * RESIDUAL_BYTES),
                        incoming_pre: self.ffn_pre.prefix(rows * PRE_BYTES),
                        values,
                        layer: self.layer,
                        tokens: self.tokens.as_slice(),
                        binding,
                    },
                )
            },
            _ => Err(Error::QueuedFfnAbsent),
        }
    }

    /// Why the experts' result is not this block's.
    pub open spec fn finish_error(&self, binding: QueryBinding, result: DeviceBuffer) -> Option<
        Error,
    > {
        match self.phase {
            BlockPhase::Ffn { binding: expected, rows } => if !(binding == expected && result.device
                == self.residual.device && result.bytes >= rows * HIDDEN_BYTES && result.address
                != 0) {
                Some(Error::BlockFfnResult)
            } else {
                None
            },
            _ => Some(Error::BlockFfnPending),
        }
    }

    pub fn check_finish(&self, binding: QueryBinding, result: DeviceBuffer) -> (r: Result<
        (),
        Error,
    >)
        requires
            self.inv(),
        ensures
            match r {
                Ok(_) => self.finish_error(binding, result) is None,
                Err(e) => self.finish_error(binding, result) == Some(e),
            },
    {
        match self.phase {
            BlockPhase::Ffn { binding: expected, rows } => {
                if !(binding == expected && result.device == self.residual.device && result.bytes
                    >= rows * HIDDEN_BYTES && result.address != 0) {
                    return Err(Error::BlockFfnResult);
                }
                Ok(())
            },
            _ => Err(Error::BlockFfnPending),
        }
    }

    /// The copies of `rows` rows of the output into this block's inputs.
    pub open spec fn next_copies(&self, rows: int) -> Seq<DeviceCopy> {
        self.input_copies(
            cut(self.out_residual, rows * RESIDUAL_BYTES),
            cut(self.out_pre, rows * PRE_BYTES),
        )
    }

    /// The copies that make the output the next layer's input.
    pub fn next_inputs(&self, rows: usize) -> (r: [DeviceCopy; 2])
        requires
            rows <= 4096,
        ensures
            r@ == self.next_copies(rows as int),
    {
        [
            DeviceCopy {
                source: self.out_residual.prefix(rows * RESIDUAL_BYTES),
                destination: self.residual.prefix(rows * RESIDUAL_BYTES),
            },
            DeviceCopy {
                source: self.out_pre.prefix(rows * PRE_BYTES),
                destination: self.pre.prefix(rows * PRE_BYTES),
            },
        ]
    }

    /// Ends the block with the experts' result. `copied` tells that the output
    /// was copied to the next layer's inputs; `work` is how the device work went.
    pub fn finish_ffn(
        &mut self,
        binding: QueryBinding,
        result: DeviceBuffer,
        copied: bool,
        work: Result<(), Error>,
    ) -> (r: Result<(), Error>)
        requires
            old(self).inv(),
        ensures
            final(self).inv(),
            final(self).same_storage(old(self)),
            final(self).layer == old(self).layer,
            match r {
                Err(e) => {
                    &&& final(self).idle_like(old(self))
                    &&& match old(self).finish_error(binding, result) {
                        Some(reason) => e == reason,
                        None => work == Err::<(), Error>(e),
                    }
                },
                Ok(_) => {
                    &&& old(self).finish_error(binding, result) is None
                    &&& work is Ok
                    &&& final(self).tokens == old(self).tokens
                    &&& old(self).phase matches BlockPhase::Ffn { rows, .. } && final(self).phase
                        == (BlockPhase::Ready { binding, rows, copied })
                },
            },
    {
        match self.check_finish(binding, result) {
            Err(e) => {
                self.reset();
                return Err(e);
            },
            Ok(_) => {},
        }
        match work {
            Err(e) => {
                self.reset();
                return Err(e);
            },
            Ok(_) => {},
        }
        if let BlockPhase::Ffn { rows, .. } = self.phase {
            self.phase = BlockPhase::Ready { binding, rows, copied };
        }
        Ok(())
    }

    /// What a completed block publishes.
    pub open spec fn is_output(&self, output: BlockOutput) -> bool {
        &&& self.phase matches BlockPhase::Ready { binding, rows, .. } && {
            &&& output.binding == binding
            &&& output.residual == cut(self.out_residual, rows * RESIDUAL_BYTES)
            &&& output.pre == cut(self.out_pre, rows * PRE_BYTES)
        }
        &&& output.layer == self.layer
        &&& output.tokens@ == self.tokens@
    }

    pub fn output(&self) -> (r: Result<BlockOutput<'_>, Error>)
        requires
            self.inv(),
        ensures
            match r {
                Err(e) => e == Error::BlockUnpublished && !(self.phase is Ready),
                Ok(output) => self.is_output(output),
            },
    {
        match self.phase {
            BlockPhase::Ready { binding, rows, .. } => Ok(
                BlockOutput {
                    binding,
                    residual: self.out_residual.prefix(rows * RESIDUAL_BYTES),
                    pre: self.out_pre.prefix(rows * PRE_BYTES),
                    layer: self.layer,
                    tokens: self.tokens.as_slice(),
                },
            ),
            _ => Err(Error::BlockUnpublished),
        }
    }
}

/// Only the binding that began a block's attention queues its feed-forward half
/// and finishes the block: every other one is refused.
pub proof fn law_block_keeps_its_query(
    attention: &BackboneBlockWave,
    ffn: &BackboneBlockWave,
    binding: QueryBinding,
    rows: usize,
    other: QueryBinding,
    result: DeviceBuffer,
)
    requires
        attention.phase == (BlockPhase::Attention { binding, rows }),
        ffn.phase == (BlockPhase::Ffn { binding, rows }),
        other != binding,
    ensures
        attention.queue_error(other, rows, result) is Some,
        ffn.finish_error(other, result) is Some,
{
}

/// A layer that takes an engram gives no input until the update is applied.
pub proof fn law_engram_gates_its_layer(
    block: &BackboneBlockWave,
    previous: &BlockOutput,
    applied: &BackboneBlockWave,
)
    requires
        block.holds(previous),
        takes_engram(block.layer as int),
        applied.phase == (BlockPhase::Prepared {
            binding: previous.binding,
            rows: previous.tokens@.len() as usize,
            ready: true,
        }),
    ensures
        !block.input_ready(),
        block.awaits_engram(),
        applied.input_ready(),
        !applied.awaits_engram(),
{
}

} // verus!
