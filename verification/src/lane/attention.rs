//! From the query over attention to the feed-forward input.
use crate::attention_binding::QueryBinding;
use crate::attention_output::QueuedSparseAttention;
use crate::backbone_cache::attention;
use crate::block::{BackboneBlockWave, BlockPhase};
use crate::device::DeviceBuffer;
use crate::error::Error;
use crate::lane::{BackboneLane, Phase};
use vstd::prelude::*;

verus! {

/// Which attention runs.
#[derive(Debug, Clone, Copy, PartialEq, Eq, Structural)]
pub enum AttentionMode {
    /// Half of the heads on each device.
    Dual,
    /// All heads, with the nearest index selection.
    Indexed,
    /// All heads of a layer without index selection.
    Cached,
}

/// The shards that finish a split output projection.
#[derive(Debug, Clone, Copy, PartialEq, Eq, Structural)]
pub struct OutputShards {
    pub output: bool,
    pub device: i32,
    pub library: u64,
}

impl<'w> BackboneLane<'w> {
    /// Why the query's result cannot be taken to attention.
    pub open spec fn query_fault(&self) -> Option<Error> {
        if self.query.state.ready is None {
            Some(self.query.state.errors.unpublished)
        } else if self.query.state.origin is None {
            Some(Error::QueryUnbound)
        } else {
            None
        }
    }

    fn published_query(&self) -> (r: Result<(QueryBinding, usize), Error>)
        requires
            self.inv(),
        ensures
            match r {
                Err(e) => self.query_fault() == Some(e),
                Ok((binding, rows)) => {
                    &&& self.query_fault() is None
                    &&& self.query.state.origin == Some(binding)
                    &&& self.query.state.ready == Some(rows as u32)
                    &&& 1 <= rows <= self.capacity
                },
            },
    {
        let output = match self.query.output() {
            Err(e) => {
                return Err(e);
            },
            Ok(output) => output,
        };
        match output.binding() {
            Err(e) => Err(e),
            Ok(binding) => Ok((binding, output.rows)),
        }
    }

    /// The attention of the query's rows, as the projection sees it.
    pub open spec fn queued(&self, values: DeviceBuffer) -> QueuedSparseAttention {
        QueuedSparseAttention {
            values,
            rows: self.query.state.ready->Some_0 as usize,
            layer: self.query.weights.layer,
        }
    }

    /// Why the projection does not take the attention.
    pub open spec fn projection_fault(
        &self,
        values: DeviceBuffer,
        shards: Option<OutputShards>,
    ) -> Option<Error> {
        let attention = self.queued(values);
        let taken = self.projection.takes_queued(attention);
        match shards {
            None => if !taken {
                Some(Error::OutputChain)
            } else if self.projection.split {
                Some(Error::OutputSplit)
            } else {
                None
            },
            Some(owner) => if !(self.projection.split && taken) {
                Some(Error::OutputSplitPrefix)
            } else if !(owner.output && owner.device == self.projection.input.device
                && owner.library == self.projection.weights.library) {
                Some(Error::OutputShards)
            } else {
                None
            },
        }
    }

    /// Where the projected rows are.
    pub open spec fn projected(&self) -> DeviceBuffer {
        DeviceBuffer {
            bytes: (self.query.state.ready->Some_0 * 10240) as usize,
            ..self.projection.projected
        }
    }

    /// Why attention's result does not become the feed-forward input. `work` is
    /// the normalized input, or how the device work failed.
    pub open spec fn tail_error(
        &self,
        values: DeviceBuffer,
        shards: Option<OutputShards>,
        work: Result<DeviceBuffer, Error>,
    ) -> Option<Error> {
        let binding = self.query.state.origin->Some_0;
        let rows = self.query.state.ready->Some_0 as usize;
        if self.query_fault() is Some {
            self.query_fault()
        } else if self.projection_fault(values, shards) is Some {
            self.projection_fault(values, shards)
        } else if self.block.queue_error(binding, rows, self.projected()) is Some {
            self.block.queue_error(binding, rows, self.projected())
        } else {
            match work {
                Err(e) => Some(e),
                Ok(normalized) => if normalized.bytes != rows * 10240 || normalized.device
                    != self.block.residual.device {
                    Some(Error::QueuedFfnExtent)
                } else {
                    None
                },
            }
        }
    }

    /// The lane holds the feed-forward input of the query's rows.
    pub open spec fn ffn_ready(&self, before: &Self, normalized: DeviceBuffer) -> bool {
        &&& self.phase == Phase::Ffn
        &&& self.values == Some(normalized)
        &&& self.block == (BackboneBlockWave {
            phase: BlockPhase::Ffn {
                binding: before.query.state.origin->Some_0,
                rows: before.query.state.ready->Some_0 as usize,
            },
            ..before.block
        })
    }

    /// The projection after attention's result was handed to it: shards withdraw
    /// what it had published.
    pub open spec fn projection_used(
        &self,
        before: &Self,
        values: DeviceBuffer,
        shards: Option<OutputShards>,
    ) -> bool {
        if shards is Some && before.query_fault() is None && before.projection.split
            && before.projection.takes_queued(before.queued(values)) {
            &&& self.projection.same_wave(&before.projection)
            &&& self.projection.state.cleared(&before.projection.state)
        } else {
            self.projection == before.projection
        }
    }

    fn run_tail(
        &mut self,
        values: DeviceBuffer,
        shards: Option<OutputShards>,
        work: Result<DeviceBuffer, Error>,
    ) -> (r: Result<(), Error>)
        requires
            old(self).inv(),
            old(self).phase == Phase::Invalid,
        ensures
            final(self).inv(),
            final(self).same_lane(old(self)),
            final(self).same_captures(old(self)),
            final(self).query == old(self).query,
            final(self).router == old(self).router,
            final(self).shared == old(self).shared,
            final(self).layer == old(self).layer,
            final(self).block.layer == old(self).block.layer,
            final(self).projection_used(old(self), values, shards),
            match r {
                Err(e) => {
                    &&& old(self).tail_error(values, shards, work) == Some(e)
                    &&& final(self).phase == Phase::Invalid
                    &&& final(self).values == old(self).values
                    &&& final(self).block.idle_like(&old(self).block)
                },
                Ok(_) => {
                    &&& old(self).tail_error(values, shards, work) is None
                    &&& work matches Ok(normalized) && final(self).ffn_ready(
                        old(self),
                        normalized,
                    )
                },
            },
    {
        let (binding, rows): (QueryBinding, usize) = match self.published_query() {
            Err(e) => {
                self.block.reset();
                return Err(e);
            },
            Ok(found) => found,
        };
        let attention = QueuedSparseAttention { values, rows, layer: self.query.weights.layer };
        let projected: DeviceBuffer = match shards {
            None => match self.projection.enqueue_chain_graph(attention) {
                Err(e) => {
                    self.block.reset();
                    return Err(e);
                },
                Ok(projected) => projected,
            },
            Some(owner) => {
                match self.projection.enqueue_grouped_chain_graph(attention) {
                    Err(e) => {
                        self.block.reset();
                        return Err(e);
                    },
                    Ok(_) => {},
                }
                match self.projection.finish_tp2(
                    rows as u32,
                    owner.output,
                    owner.device,
                    owner.library,
                ) {
                    Err(e) => {
                        self.block.reset();
                        return Err(e);
                    },
                    Ok((_, projected)) => projected,
                }
            },
        };
        let launched: Result<(), Error> = match work {
            Err(e) => Err(e),
            Ok(_) => Ok(()),
        };
        match self.block.enqueue_ffn(binding, rows, projected, launched) {
            Err(e) => {
                self.block.reset();
                return Err(e);
            },
            Ok(_) => {},
        }
        let normalized: DeviceBuffer = match work {
            Err(e) => {
                self.block.reset();
                return Err(e);
            },
            Ok(normalized) => normalized,
        };
        match self.block.complete_queued_ffn(normalized, Ok(())) {
            Err(e) => {
                self.block.reset();
                return Err(e);
            },
            Ok(_) => {},
        }
        self.values = Some(normalized);
        self.phase = Phase::Ffn;
        Ok(())
    }

    /// Runs full-head attention and waits for it. `values` is where attention
    /// writes, `work` the normalized feed-forward input or how the work failed.
    pub fn attention_ffn(&mut self, values: DeviceBuffer, work: Result<DeviceBuffer, Error>) -> (r:
        Result<(), Error>)
        requires
            old(self).inv(),
        ensures
            final(self).inv(),
            final(self).same_lane(old(self)),
            final(self).same_captures(old(self)),
            final(self).query == old(self).query,
            final(self).router == old(self).router,
            final(self).shared == old(self).shared,
            final(self).layer == old(self).layer,
            final(self).projection == old(self).projection,
            match r {
                Err(e) => if old(self).tp2_output {
                    e == Error::LaneTp2Attention && *final(self) == *old(self)
                } else {
                    &&& final(self).phase == Phase::Invalid
                    &&& final(self).values == old(self).values
                    &&& if old(self).phase != Phase::Query {
                        &&& e == (Error::LanePhase { expected: Phase::Query, got: old(self).phase })
                        &&& final(self).block == old(self).block
                    } else if old(self).query_fault() is Some {
                        &&& old(self).query_fault() == Some(e)
                        &&& final(self).block == old(self).block
                    } else if old(self).dual_attention {
                        &&& e == Error::LaneFullHead
                        &&& final(self).block == old(self).block
                    } else {
                        &&& old(self).tail_error(values, None, work) == Some(e)
                        &&& final(self).block.idle_like(&old(self).block)
                    }
                },
                Ok(_) => {
                    &&& !old(self).tp2_output && !old(self).dual_attention
                    &&& old(self).phase == Phase::Query
                    &&& old(self).tail_error(values, None, work) is None
                    &&& work matches Ok(normalized) && final(self).ffn_ready(
                        old(self),
                        normalized,
                    )
                },
            },
    {
        if self.tp2_output {
            return Err(Error::LaneTp2Attention);
        }
        match self.enter(Phase::Query) {
            Err(e) => {
                return Err(e);
            },
            Ok(_) => {},
        }
        match self.published_query() {
            Err(e) => {
                return Err(e);
            },
            Ok(_) => {},
        }
        if self.dual_attention {
            return Err(Error::LaneFullHead);
        }
        self.run_tail(values, None, work)
    }

    /// How attention runs with or without index rows.
    pub open spec fn mode_with(&self, index: bool) -> Result<AttentionMode, Error> {
        if self.dual_attention {
            if self.layer >= 2 && !index {
                Err(Error::LaneIndexMissing)
            } else {
                Ok(AttentionMode::Dual)
            }
        } else if index {
            Ok(AttentionMode::Indexed)
        } else {
            Ok(AttentionMode::Cached)
        }
    }

    /// How the layer's attention runs, given whether index rows are at hand.
    pub fn attention_mode(&self, index: bool) -> (r: Result<AttentionMode, Error>)
        ensures
            r == self.mode_with(index),
    {
        if self.dual_attention {
            if self.layer >= 2 && !index {
                return Err(Error::LaneIndexMissing);
            }
            return Ok(AttentionMode::Dual);
        }
        if index {
            Ok(AttentionMode::Indexed)
        } else {
            Ok(AttentionMode::Cached)
        }
    }

    /// Why attention cannot be queued. `selection` tells whether index rows are
    /// selected for it: layers above the first two need them, those do not.
    pub open spec fn enqueue_error(&self, selection: bool) -> Option<Error> {
        if self.phase != Phase::Query {
            Some(Error::LanePhase { expected: Phase::Query, got: self.phase })
        } else if selection != (self.layer >= 2) {
            Some(Error::LaneSelection)
        } else {
            self.query_fault()
        }
    }

    /// Queues attention. The lane is invalid until `complete_attention`.
    pub fn enqueue_attention(&mut self, selection: bool) -> (r: Result<(), Error>)
        requires
            old(self).inv(),
        ensures
            final(self).inv(),
            *final(self) == (BackboneLane { phase: Phase::Invalid, ..*old(self) }),
            match r {
                Err(e) => old(self).enqueue_error(selection) == Some(e),
                Ok(_) => old(self).enqueue_error(selection) is None,
            },
    {
        match self.enter(Phase::Query) {
            Err(e) => {
                return Err(e);
            },
            Ok(_) => {},
        }
        if selection != (self.layer >= 2) {
            return Err(Error::LaneSelection);
        }
        match self.published_query() {
            Err(e) => Err(e),
            Ok(_) => Ok(()),
        }
    }

    /// Completes queued attention. A split output projection is finished by its
    /// shards.
    pub fn complete_attention(
        &mut self,
        values: DeviceBuffer,
        shards: Option<OutputShards>,
        work: Result<DeviceBuffer, Error>,
    ) -> (r: Result<(), Error>)
        requires
            old(self).inv(),
            old(self).phase == Phase::Invalid,
            shards is Some == old(self).tp2_output,
        ensures
            final(self).inv(),
            final(self).same_lane(old(self)),
            final(self).same_captures(old(self)),
            final(self).query == old(self).query,
            final(self).router == old(self).router,
            final(self).shared == old(self).shared,
            final(self).layer == old(self).layer,
            final(self).block.layer == old(self).block.layer,
            final(self).projection_used(old(self), values, shards),
            match r {
                Err(e) => {
                    &&& old(self).tail_error(values, shards, work) == Some(e)
                    &&& final(self).phase == Phase::Invalid
                    &&& final(self).values == old(self).values
                    &&& final(self).block.idle_like(&old(self).block)
                },
                Ok(_) => {
                    &&& old(self).tail_error(values, shards, work) is None
                    &&& work matches Ok(normalized) && final(self).ffn_ready(
                        old(self),
                        normalized,
                    )
                },
            },
    {
        self.run_tail(values, shards, work)
    }

    /// Gives queued attention up, once its streams are drained.
    pub fn cancel_attention(&mut self)
        requires
            old(self).inv(),
        ensures
            final(self).inv(),
            final(self).same_lane(old(self)),
            final(self).same_captures(old(self)),
            final(self).same_tail(old(self)),
            final(self).query == old(self).query,
            final(self).phase == Phase::Invalid,
            final(self).block.layer == old(self).block.layer,
            final(self).block.idle_like(&old(self).block),
    {
        self.block.reset();
        self.phase = Phase::Invalid;
    }
}

/// Attention on both devices lacks its index exactly where the layer reads a source and
/// none is at hand; on one device the index decides alone.
pub proof fn law_dual_attention_needs_its_index(lane: &BackboneLane, index: bool)
    requires
        lane.layer < 40,
    ensures
        lane.mode_with(index) is Err <==> lane.dual_attention && !index && attention::read_source(
            lane.layer as int,
        ) is Some,
        lane.mode_with(index) == Ok::<AttentionMode, Error>(AttentionMode::Dual) ==> lane.dual_attention,
        lane.mode_with(index) == Ok::<AttentionMode, Error>(AttentionMode::Indexed) <==> index
            && !lane.dual_attention,
        lane.mode_with(index) == Ok::<AttentionMode, Error>(AttentionMode::Cached) <==> !index
            && !lane.dual_attention,
{
}

} // verus!
