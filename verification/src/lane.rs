//! One lane of the backbone: reusable storage that takes a batch through the
//! layers, one phase at a time.
pub mod attention;
pub mod budget;
pub mod ffn;
pub mod placement;
pub mod split;

use crate::attention_binding::QueryBinding;
use crate::attention_output::{AttentionOutputWave, AttentionOutputWeights};
use crate::attention_query::{AttentionQueryOutput, AttentionQueryWave, AttentionQueryWeights};
use crate::backbone_cache::LAYERS;
use crate::block;
use crate::block::{
    BackboneBlockWave, BlockOutput, BlockPhase, PreparedBlockInput, TargetEmbedding,
};
use crate::device::DeviceBuffer;
use crate::error::Error;
use crate::lane::split::FfnSplit;
use crate::router::{BackboneRouterWave, BackboneRouterWeights};
use crate::shared_ffn::{BackboneSharedWave, BackboneSharedWeights};
use vstd::prelude::*;

verus! {

#[derive(Debug, Clone, Copy, PartialEq, Eq, Structural)]
pub enum Phase {
    Idle,
    Prepared,
    Query,
    Ffn,
    SharedReady,
    Complete,
    Invalid,
}

/// The weights of one layer and the device that holds them.
#[derive(Debug, Clone, Copy)]
pub struct LayerWeights {
    pub device: i32,
    pub query: AttentionQueryWeights,
    pub projection: AttentionOutputWeights,
    pub shared: Option<BackboneSharedWeights>,
    pub router: BackboneRouterWeights,
}

/// The weights of all layers.
pub struct BackboneLaneWeights {
    pub layers: Vec<LayerWeights>,
    /// Layers lie beside their caches, on two devices.
    pub placed: bool,
    pub split_query: bool,
    pub split_output: bool,
}

/// The shards that finish a split query projection.
#[derive(Debug, Clone, Copy, PartialEq, Eq, Structural)]
pub struct QueryShards {
    pub query: bool,
    pub device: i32,
    pub library: u64,
}

/// Which of the lane's streams are drained.
#[derive(Debug, Clone, Copy, PartialEq, Eq, Structural)]
pub struct LaneStreams {
    pub query: bool,
    pub projection: bool,
    pub shared: bool,
    pub router: bool,
}

pub struct BackboneLane<'w> {
    pub weights: &'w BackboneLaneWeights,
    pub capacity: usize,
    pub block: BackboneBlockWave,
    pub query: AttentionQueryWave,
    pub projection: AttentionOutputWave,
    pub shared: Option<BackboneSharedWave>,
    pub router: BackboneRouterWave,
    pub layer: usize,
    pub phase: Phase,
    /// The normalized feed-forward input of the phase.
    pub values: Option<DeviceBuffer>,
    pub capture_routes: bool,
    pub route_capture: Vec<Vec<[u32; 6]>>,
    pub ffn_split: FfnSplit,
    /// Layers whose end was timed in the captured pass.
    pub recorded: Vec<bool>,
    /// The layer whose arrival from the other device was timed.
    pub entry_layer: Option<usize>,
    pub dual_attention: bool,
    pub tp2_query: bool,
    pub tp2_output: bool,
}

impl<'w> BackboneLane<'w> {
    pub open spec fn inv(&self) -> bool {
        &&& self.weights.layers@.len() == LAYERS
        &&& 1 <= self.capacity <= 4096
        &&& self.block.inv()
        &&& self.block.capacity == self.capacity
        &&& self.query.inv()
        &&& self.query.state.capacity == self.capacity
        &&& self.projection.inv()
        &&& self.projection.state.capacity == self.capacity
        &&& self.router.inv()
        &&& self.router.state.capacity == self.capacity
        &&& self.shared matches Some(shared) ==> shared.inv() && shared.state.capacity
            == self.capacity
        &&& self.layer < LAYERS
        &&& self.recorded@.len() == LAYERS
        &&& self.capture_routes ==> self.route_capture@.len() == LAYERS
    }

    /// What no step of a pass changes.
    pub open spec fn same_lane(&self, before: &Self) -> bool {
        &&& self.weights == before.weights
        &&& self.capacity == before.capacity
        &&& self.block.same_storage(&before.block)
        &&& self.query.same_storage(&before.query)
        &&& self.projection.same_storage(&before.projection)
        &&& self.router.buffers == before.router.buffers
        &&& self.shared is Some == before.shared is Some
        &&& self.capture_routes == before.capture_routes
        &&& self.dual_attention == before.dual_attention
        &&& self.tp2_query == before.tp2_query
        &&& self.tp2_output == before.tp2_output
    }

    /// What was captured and timed.
    pub open spec fn same_captures(&self, before: &Self) -> bool {
        &&& self.route_capture == before.route_capture
        &&& self.ffn_split == before.ffn_split
        &&& self.recorded == before.recorded
        &&& self.entry_layer == before.entry_layer
    }

    /// Only the block, the query and the phase may differ from `before`.
    pub open spec fn same_tail(&self, before: &Self) -> bool {
        &&& self.projection == before.projection
        &&& self.shared == before.shared
        &&& self.router == before.router
        &&& self.values == before.values
        &&& self.layer == before.layer
    }

    /// Begins a step of the pass. Until it succeeds the lane is invalid.
    pub fn enter(&mut self, expected: Phase) -> (r: Result<(), Error>)
        ensures
            *final(self) == (BackboneLane { phase: Phase::Invalid, ..*old(self) }),
            r == if old(self).phase == expected {
                Ok::<(), Error>(())
            } else {
                Err::<(), Error>(Error::LanePhase { expected, got: old(self).phase })
            },
    {
        let prior: Phase = self.phase;
        self.phase = Phase::Invalid;
        if prior == expected {
            Ok(())
        } else {
            Err(Error::LanePhase { expected, got: prior })
        }
    }

    /// Cancels the pass, once all readers of its outputs are done.
    pub fn invalidate(&mut self)
        requires
            old(self).inv(),
        ensures
            final(self).inv(),
            final(self).same_lane(old(self)),
            final(self).same_captures(old(self)),
            final(self).same_tail(old(self)),
            final(self).query == old(self).query,
            final(self).phase == Phase::Invalid,
            final(self).block.idle_like(&old(self).block),
    {
        self.phase = Phase::Invalid;
        self.block.reset();
    }

    /// Why the lane's stages cannot go over to the weights of `layer`. Peer
    /// hand-over asks the router before the shared experts.
    pub open spec fn rebind_error(
        &self,
        layer: int,
        streams: LaneStreams,
        router_first: bool,
    ) -> Option<Error> {
        let w = self.weights.layers@[layer];
        let shared = self.shared_rebind_error(layer, streams.shared);
        let router = self.router.rebind_error(w.router, streams.router);
        if self.query.rebind_error(w.query, streams.query) is Some {
            self.query.rebind_error(w.query, streams.query)
        } else if self.projection.rebind_error(w.projection, streams.projection) is Some {
            self.projection.rebind_error(w.projection, streams.projection)
        } else if router_first {
            if router is Some {
                router
            } else {
                shared
            }
        } else if shared is Some {
            shared
        } else {
            router
        }
    }

    /// Every stage works with the weights of `layer`.
    pub open spec fn bound_to(&self, layer: int) -> bool {
        let w = self.weights.layers@[layer];
        &&& self.query.weights == w.query
        &&& self.projection.weights == w.projection
        &&& self.router.weights == w.router
        &&& self.shared matches Some(shared) ==> Some(shared.weights) == w.shared
    }

    /// No stage has anything published.
    pub open spec fn unpublished(&self, before: &Self) -> bool {
        &&& self.query.state.cleared(&before.query.state)
        &&& self.projection.state.cleared(&before.projection.state)
        &&& self.router.state.cleared(&before.router.state)
        &&& self.shared matches Some(shared) ==> shared.state.cleared(
            &before.shared->Some_0.state,
        )
    }

    /// The query stage once it was to go over to `layer`.
    pub open spec fn query_tried(&self, before: &Self, layer: int, streams: LaneStreams) -> bool {
        let weights = before.weights.layers@[layer].query;
        &&& self.query.same_storage(&before.query)
        &&& self.query.state.cleared(&before.query.state)
        &&& self.query.weights == if before.query.rebind_error(weights, streams.query) is None {
            weights
        } else {
            before.query.weights
        }
    }

    /// The output stage once it was to go over to `layer`.
    pub open spec fn projection_tried(&self, before: &Self, layer: int, streams: LaneStreams) -> bool {
        let weights = before.weights.layers@[layer].projection;
        &&& self.projection.same_storage(&before.projection)
        &&& self.projection.state.cleared(&before.projection.state)
        &&& self.projection.weights == if before.projection.rebind_error(
            weights,
            streams.projection,
        ) is None {
            weights
        } else {
            before.projection.weights
        }
    }

    /// The router once it was to go over to `layer`.
    pub open spec fn router_tried(&self, before: &Self, layer: int, streams: LaneStreams) -> bool {
        let weights = before.weights.layers@[layer].router;
        &&& self.router.buffers == before.router.buffers
        &&& self.router.full_request == before.router.full_request
        &&& self.router.state.cleared(&before.router.state)
        &&& self.router.weights == if before.router.rebind_error(weights, streams.router) is None {
            weights
        } else {
            before.router.weights
        }
    }

    /// Why the shared experts cannot go over to `layer`.
    pub open spec fn shared_rebind_error(&self, layer: int, drained: bool) -> Option<Error> {
        match self.shared {
            None => None,
            Some(wave) => match self.weights.layers@[layer].shared {
                None => Some(Error::LaneSharedWeights),
                Some(weights) => wave.rebind_error(weights, drained),
            },
        }
    }

    /// The shared experts once they were to go over to `layer`.
    pub open spec fn shared_tried(&self, before: &Self, layer: int, drained: bool) -> bool {
        match (before.shared, before.weights.layers@[layer].shared) {
            (Some(wave), Some(weights)) => self.shared matches Some(now) && {
                &&& now.buffers == wave.buffers
                &&& now.state.cleared(&wave.state)
                &&& now.weights == if wave.rebind_error(weights, drained) is None {
                    weights
                } else {
                    wave.weights
                }
            },
            _ => self.shared == before.shared,
        }
    }

    /// The stages once the lane was to go over to `layer`: they are bound one after
    /// the other up to the first that refuses; those behind it are untouched.
    pub open spec fn rebound(
        &self,
        before: &Self,
        layer: int,
        streams: LaneStreams,
        router_first: bool,
    ) -> bool {
        let w = before.weights.layers@[layer];
        let query = before.query.rebind_error(w.query, streams.query) is None;
        let projection = query && before.projection.rebind_error(
            w.projection,
            streams.projection,
        ) is None;
        let router = before.router.rebind_error(w.router, streams.router) is None;
        let shared = before.shared_rebind_error(layer, streams.shared) is None;
        &&& self.query_tried(before, layer, streams)
        &&& if query {
            self.projection_tried(before, layer, streams)
        } else {
            self.projection == before.projection
        }
        &&& if projection && (router_first || shared) {
            self.router_tried(before, layer, streams)
        } else {
            self.router == before.router
        }
        &&& if projection && (!router_first || router) {
            self.shared_tried(before, layer, streams.shared)
        } else {
            self.shared == before.shared
        }
    }

    /// No stage has been touched.
    pub open spec fn same_stages(&self, before: &Self) -> bool {
        &&& self.query == before.query
        &&& self.projection == before.projection
        &&& self.router == before.router
        &&& self.shared == before.shared
    }

    fn rebind_shared(&mut self, layer: usize, drained: bool) -> (r: Result<(), Error>)
        requires
            old(self).inv(),
            layer < LAYERS,
        ensures
            final(self).inv(),
            final(self).same_lane(old(self)),
            final(self).same_captures(old(self)),
            final(self).block == old(self).block,
            final(self).query == old(self).query,
            final(self).projection == old(self).projection,
            final(self).router == old(self).router,
            final(self).values == old(self).values,
            final(self).layer == old(self).layer,
            final(self).phase == old(self).phase,
            final(self).shared_tried(old(self), layer as int, drained),
            match old(self).shared_rebind_error(layer as int, drained) {
                Some(e) => r == Err::<(), Error>(e),
                None => r is Ok,
            },
    {
        let due = self.weights.layers[layer].shared;
        match &mut self.shared {
            None => Ok(()),
            Some(wave) => match due {
                None => Err(Error::LaneSharedWeights),
                Some(weights) => wave.rebind(weights, drained),
            },
        }
    }

    /// Goes over to the weights of `layer`, stage by stage.
    pub(crate) fn rebind(&mut self, layer: usize, streams: LaneStreams, router_first: bool) -> (r:
        Result<(), Error>)
        requires
            old(self).inv(),
            layer < LAYERS,
        ensures
            final(self).inv(),
            final(self).same_lane(old(self)),
            final(self).same_captures(old(self)),
            final(self).block == old(self).block,
            final(self).values == old(self).values,
            final(self).layer == old(self).layer,
            final(self).phase == old(self).phase,
            final(self).rebound(old(self), layer as int, streams, router_first),
            match r {
                Err(e) => old(self).rebind_error(layer as int, streams, router_first) == Some(e),
                Ok(_) => {
                    &&& old(self).rebind_error(layer as int, streams, router_first) is None
                    &&& final(self).bound_to(layer as int)
                    &&& final(self).unpublished(old(self))
                },
            },
    {
        let w: LayerWeights = self.weights.layers[layer];
        match self.query.rebind(w.query, streams.query) {
            Err(e) => {
                return Err(e);
            },
            Ok(_) => {},
        }
        match self.projection.rebind(w.projection, streams.projection) {
            Err(e) => {
                return Err(e);
            },
            Ok(_) => {},
        }
        if router_first {
            match self.router.rebind(w.router, streams.router) {
                Err(e) => {
                    return Err(e);
                },
                Ok(_) => {},
            }
            self.rebind_shared(layer, streams.shared)
        } else {
            match self.rebind_shared(layer, streams.shared) {
                Err(e) => {
                    return Err(e);
                },
                Ok(_) => {},
            }
            self.router.rebind(w.router, streams.router)
        }
    }

    /// Starts a new sequence on the device that holds layer zero. `bound` is how
    /// binding the block's weights went.
    pub fn restart(&mut self, streams: LaneStreams, bound: Result<(), Error>) -> (r: Result<
        (),
        Error,
    >)
        requires
            old(self).inv(),
        ensures
            final(self).inv(),
            final(self).same_lane(old(self)),
            final(self).same_captures(old(self)),
            final(self).values == old(self).values,
            final(self).block.idle_like(&old(self).block),
            match r {
                Err(e) => {
                    &&& final(self).phase == Phase::Invalid
                    &&& final(self).layer == old(self).layer
                    &&& final(self).block.layer == old(self).block.layer
                    &&& if old(self).weights.layers@[0].device != old(self).block.residual.device {
                        e == Error::LaneZeroDevice && final(self).same_stages(old(self))
                    } else {
                        final(self).rebound(old(self), 0, streams, false) && match old(self).rebind_error(0, streams, false) {
                            Some(reason) => e == reason,
                            None => bound == Err::<(), Error>(e),
                        }
                    }
                },
                Ok(_) => {
                    &&& old(self).weights.layers@[0].device == old(self).block.residual.device
                    &&& old(self).rebind_error(0, streams, false) is None
                    &&& bound is Ok
                    &&& final(self).phase == Phase::Idle
                    &&& final(self).layer == 0
                    &&& final(self).block.layer == 0
                    &&& final(self).bound_to(0)
                    &&& final(self).unpublished(old(self))
                },
            },
    {
        self.phase = Phase::Invalid;
        self.block.reset();
        if self.weights.layers[0].device != self.block.residual.device {
            return Err(Error::LaneZeroDevice);
        }
        match self.rebind(0, streams, false) {
            Err(e) => {
                return Err(e);
            },
            Ok(_) => {},
        }
        match self.block.restart(0, bound) {
            Err(e) => {
                return Err(e);
            },
            Ok(_) => {},
        }
        self.layer = 0;
        self.phase = Phase::Idle;
        Ok(())
    }

    /// Starts the decoder from retained encoder rows. `bound` is how binding the
    /// block's weights went, `copied` how copying the rows went.
    pub fn restart_decoder(
        &mut self,
        encoder: &BlockOutput,
        streams: LaneStreams,
        bound: Result<(), Error>,
        copied: Result<(), Error>,
    ) -> (r: Result<(), Error>)
        requires
            old(self).inv(),
        ensures
            final(self).inv(),
            final(self).same_lane(old(self)),
            final(self).same_captures(old(self)),
            final(self).values == old(self).values,
            match r {
                Err(e) => {
                    &&& final(self).phase == Phase::Invalid
                    &&& final(self).layer == old(self).layer
                    &&& final(self).block.idle_like(&old(self).block)
                    &&& if old(self).weights.layers@[20].device != old(self).block.residual.device {
                        final(self).same_stages(old(self))
                    } else {
                        final(self).rebound(old(self), 20, streams, false)
                    }
                    &&& final(self).block.layer == if old(self).weights.layers@[20].device
                        == old(self).block.residual.device && old(self).rebind_error(
                        20,
                        streams,
                        false,
                    ) is None && encoder.layer == 19 && bound is Ok {
                        20
                    } else {
                        old(self).block.layer
                    }
                    &&& if old(self).weights.layers@[20].device != old(self).block.residual.device {
                        e == Error::LaneDecoderDevice
                    } else if old(self).rebind_error(20, streams, false) is Some {
                        old(self).rebind_error(20, streams, false) == Some(e)
                    } else if encoder.layer != 19 {
                        e == Error::DecoderBoundary
                    } else if bound is Err {
                        bound == Err::<(), Error>(e)
                    } else {
                        match (BackboneBlockWave { layer: 20, ..old(self).block }).previous_error(
                            encoder,
                        ) {
                            Some(reason) => e == reason,
                            None => copied == Err::<(), Error>(e),
                        }
                    }
                },
                Ok(_) => {
                    &&& old(self).weights.layers@[20].device == old(self).block.residual.device
                    &&& old(self).rebind_error(20, streams, false) is None
                    &&& encoder.layer == 19
                    &&& bound is Ok
                    &&& (BackboneBlockWave { layer: 20, ..old(self).block }).previous_error(
                        encoder,
                    ) is None
                    &&& copied is Ok
                    &&& final(self).phase == Phase::Prepared
                    &&& final(self).layer == 20
                    &&& final(self).block.layer == 20
                    &&& final(self).block.holds(encoder)
                    &&& final(self).bound_to(20)
                    &&& final(self).unpublished(old(self))
                },
            },
    {
        self.phase = Phase::Invalid;
        self.block.reset();
        if self.weights.layers[20].device != self.block.residual.device {
            return Err(Error::LaneDecoderDevice);
        }
        match self.rebind(20, streams, false) {
            Err(e) => {
                return Err(e);
            },
            Ok(_) => {},
        }
        match self.block.initialize_decoder(20, encoder, bound, copied) {
            Err(e) => {
                return Err(e);
            },
            Ok(_) => {},
        }
        self.layer = 20;
        self.phase = Phase::Prepared;
        Ok(())
    }

    /// Why the query of `tokens` gets no binding.
    pub open spec fn binding_error(
        &self,
        tokens: Seq<u64>,
        next: u64,
        shards: Option<QueryShards>,
    ) -> Option<Error> {
        match self.block.attention_error(
            self.query.weights.layer,
            self.query.buffers.hidden.device,
            tokens,
        ) {
            Some(e) => Some(e),
            None => match shards {
                None => self.query.token_error(tokens, next),
                Some(owner) => self.query.shard_error(
                    tokens,
                    owner.query,
                    owner.device,
                    owner.library,
                    next,
                ),
            },
        }
    }

    /// Why the query of `tokens` fails. `work` is how its device work goes.
    pub open spec fn query_error(
        &self,
        tokens: Seq<u64>,
        next: u64,
        shards: Option<QueryShards>,
        work: Result<(), Error>,
    ) -> Option<Error> {
        match self.binding_error(tokens, next, shards) {
            Some(e) => Some(e),
            None => match work {
                Err(e) => Some(e),
                Ok(_) => if shards is None && self.query.split {
                    Some(Error::QuerySplit)
                } else {
                    None
                },
            },
        }
    }

    /// The number of the next binding after a query of `tokens`: one that gets no
    /// binding takes no number.
    pub open spec fn next_binding(
        &self,
        tokens: Seq<u64>,
        next: u64,
        shards: Option<QueryShards>,
    ) -> int {
        if self.binding_error(tokens, next, shards) is None {
            next + 1
        } else {
            next as int
        }
    }

    /// Attention waits for the result of the query of `tokens`.
    pub open spec fn queried(&self, tokens: Seq<u64>, identity: u64) -> bool {
        let binding = QueryBinding { layer: self.query.weights.layer, identity };
        &&& self.block.phase == (BlockPhase::Attention { binding, rows: tokens.len() as usize })
        &&& self.block.tokens@ == tokens
        &&& self.query.state.ready == Some(tokens.len() as u32)
        &&& self.query.state.origin == Some(binding)
        &&& self.query.state.tokens@ == tokens
    }

    /// A query of `tokens` has failed: the block is idle and nothing of the query
    /// is published.
    pub open spec fn query_dropped(&self, before: &Self, tokens: Seq<u64>) -> bool {
        &&& self.block.idle_like(&before.block)
        &&& if before.block.attention_error(
            before.query.weights.layer,
            before.query.buffers.hidden.device,
            tokens,
        ) is Some {
            self.query == before.query
        } else {
            self.query.state.cleared(&before.query.state)
        }
    }

    fn run_query(
        &mut self,
        next: &mut u64,
        tokens: &[u64],
        shards: Option<QueryShards>,
        work: Result<(), Error>,
    ) -> (r: Result<(), Error>)
        requires
            old(self).inv(),
        ensures
            final(self).inv(),
            final(self).same_lane(old(self)),
            final(self).same_captures(old(self)),
            final(self).same_tail(old(self)),
            final(self).query.same_wave(&old(self).query),
            final(self).block.layer == old(self).block.layer,
            final(self).phase == old(self).phase,
            *final(next) == old(self).next_binding(tokens@, *old(next), shards),
            match r {
                Err(e) => {
                    &&& old(self).query_error(tokens@, *old(next), shards, work) == Some(e)
                    &&& final(self).query_dropped(old(self), tokens@)
                },
                Ok(_) => {
                    &&& old(self).query_error(tokens@, *old(next), shards, work) is None
                    &&& final(self).queried(tokens@, *old(next))
                },
            },
    {
        self.block.reset();
        let device: i32 = self.query.buffers.hidden.device;
        let layer: usize = self.query.weights.layer;
        match self.block.check_attention(layer, device, tokens) {
            Err(e) => {
                return Err(e);
            },
            Ok(_) => {},
        }
        let bound: Result<QueryBinding, Error> = match shards {
            None => self.query.begin_tokens(next, tokens),
            Some(owner) => self.query.begin_tokens_tp2(
                next,
                tokens,
                owner.query,
                owner.device,
                owner.library,
            ),
        };
        let done: Result<(), Error> = match work {
            Err(e) => Err(e),
            Ok(_) => if shards.is_none() {
                self.query.check_whole()
            } else {
                Ok(())
            },
        };
        let asked: Result<QueryBinding, Error> = match bound {
            Err(e) => Err(e),
            Ok(binding) => match self.query.finish_tokens(binding, tokens, done) {
                Err(e) => Err(e),
                Ok(_) => Ok(binding),
            },
        };
        self.block.begin_attention(layer, device, tokens, asked)
    }

    /// Begins a text sequence from its embeddings.
    pub fn begin_embedded(
        &mut self,
        next: &mut u64,
        embedding: &TargetEmbedding,
        work: Result<(), Error>,
    ) -> (r: Result<(), Error>)
        requires
            old(self).inv(),
        ensures
            final(self).inv(),
            final(self).same_lane(old(self)),
            final(self).same_captures(old(self)),
            final(self).same_tail(old(self)),
            final(self).query.same_wave(&old(self).query),
            final(self).block.layer == old(self).block.layer,
            *final(next) == if old(self).phase == Phase::Idle && old(self).layer == 0
                && old(self).query.weights.layer == 0 && old(self).block.embedding_error(
                embedding,
            ) is None {
                old(self).next_binding(embedding.positions@, *old(next), None)
            } else {
                *old(next) as int
            },
            match r {
                Err(e) => {
                    &&& final(self).phase == Phase::Invalid
                    &&& if old(self).phase != Phase::Idle {
                        &&& e == (Error::LanePhase { expected: Phase::Idle, got: old(self).phase })
                        &&& *final(self) == (BackboneLane { phase: Phase::Invalid, ..*old(self) })
                    } else if old(self).layer != 0 {
                        &&& e == Error::LaneEmbedding
                        &&& *final(self) == (BackboneLane { phase: Phase::Invalid, ..*old(self) })
                    } else if old(self).query.weights.layer != 0 {
                        &&& e == Error::BlockQueryLayer
                        &&& final(self).block.idle_like(&old(self).block)
                        &&& final(self).query == old(self).query
                    } else {
                        match old(self).block.embedding_error(embedding) {
                            Some(reason) => {
                                &&& e == reason
                                &&& final(self).block.idle_like(&old(self).block)
                                &&& final(self).query == old(self).query
                            },
                            None => {
                                &&& old(self).query_error(
                                    embedding.positions@,
                                    *old(next),
                                    None,
                                    work,
                                ) == Some(e)
                                &&& final(self).query_dropped(old(self), embedding.positions@)
                            },
                        }
                    }
                },
                Ok(_) => {
                    &&& old(self).phase == Phase::Idle
                    &&& old(self).layer == 0
                    &&& old(self).query.weights.layer == 0
                    &&& old(self).block.embedding_error(embedding) is None
                    &&& old(self).query_error(
                        embedding.positions@,
                        *old(next),
                        None,
                        work,
                    ) is None
                    &&& final(self).phase == Phase::Query
                    &&& final(self).queried(embedding.positions@, *old(next))
                },
            },
    {
        match self.enter(Phase::Idle) {
            Err(e) => {
                return Err(e);
            },
            Ok(_) => {},
        }
        if self.layer != 0 {
            return Err(Error::LaneEmbedding);
        }
        self.block.reset();
        if self.query.weights.layer != 0 {
            return Err(Error::BlockQueryLayer);
        }
        match self.block.initialize_embedding(embedding) {
            Err(e) => {
                return Err(e);
            },
            Ok(_) => {},
        }
        match self.run_query(next, embedding.positions, None, work) {
            Err(e) => {
                return Err(e);
            },
            Ok(_) => {},
        }
        self.phase = Phase::Query;
        Ok(())
    }

    /// Begins a sequence whose embeddings are produced on the query's stream. A
    /// split query projection is finished by its shards.
    pub fn begin_tokens(
        &mut self,
        next: &mut u64,
        tokens: &[u32],
        positions: &[u64],
        shards: Option<QueryShards>,
        work: Result<(), Error>,
    ) -> (r: Result<(), Error>)
        requires
            old(self).inv(),
            shards is Some == old(self).tp2_query,
        ensures
            final(self).inv(),
            final(self).same_lane(old(self)),
            final(self).same_captures(old(self)),
            final(self).same_tail(old(self)),
            final(self).query.same_wave(&old(self).query),
            final(self).block.layer == old(self).block.layer,
            *final(next) == if old(self).phase == Phase::Idle && old(self).layer == 0
                && tokens@.len() == positions@.len() {
                old(self).next_binding(positions@, *old(next), shards)
            } else {
                *old(next) as int
            },
            match r {
                Err(e) => {
                    &&& final(self).phase == Phase::Invalid
                    &&& if old(self).phase != Phase::Idle {
                        &&& e == (Error::LanePhase { expected: Phase::Idle, got: old(self).phase })
                        &&& *final(self) == (BackboneLane { phase: Phase::Invalid, ..*old(self) })
                    } else if old(self).layer != 0 || tokens@.len() != positions@.len() {
                        &&& e == Error::LaneTokens
                        &&& *final(self) == (BackboneLane { phase: Phase::Invalid, ..*old(self) })
                    } else {
                        &&& old(self).query_error(positions@, *old(next), shards, work) == Some(e)
                        &&& final(self).query_dropped(old(self), positions@)
                    }
                },
                Ok(_) => {
                    &&& old(self).phase == Phase::Idle
                    &&& old(self).layer == 0
                    &&& tokens@.len() == positions@.len()
                    &&& old(self).query_error(positions@, *old(next), shards, work) is None
                    &&& final(self).phase == Phase::Query
                    &&& final(self).queried(positions@, *old(next))
                },
            },
    {
        match self.enter(Phase::Idle) {
            Err(e) => {
                return Err(e);
            },
            Ok(_) => {},
        }
        if self.layer != 0 || tokens.len() != positions.len() {
            return Err(Error::LaneTokens);
        }
        match self.run_query(next, positions, shards, work) {
            Err(e) => {
                return Err(e);
            },
            Ok(_) => {},
        }
        self.phase = Phase::Query;
        Ok(())
    }

    pub fn pending_engram(&self) -> (r: Result<(usize, &[u64]), Error>)
        ensures
            match r {
                Ok((layer, tokens)) => {
                    &&& self.phase == Phase::Prepared
                    &&& self.block.awaits_engram()
                    &&& layer == self.block.layer
                    &&& tokens@ == self.block.tokens@
                },
                Err(e) => if self.phase != Phase::Prepared {
                    e == Error::LaneUnprepared
                } else {
                    e == Error::BlockEngram && !self.block.awaits_engram()
                },
            },
    {
        if self.phase != Phase::Prepared {
            return Err(Error::LaneUnprepared);
        }
        self.block.pending_engram()
    }

    pub fn prepared_input(&self) -> (r: Result<PreparedBlockInput<'_>, Error>)
        requires
            self.inv(),
        ensures
            match r {
                Ok(input) => self.phase == Phase::Prepared && self.block.is_input(input),
                Err(e) => if self.phase != Phase::Prepared {
                    e == Error::LaneUnprepared
                } else {
                    e == Error::BlockInput && !self.block.input_ready()
                },
            },
    {
        if self.phase != Phase::Prepared {
            return Err(Error::LaneUnprepared);
        }
        self.block.prepared_input()
    }

    /// Applies a due engram update; `work` is how gating went.
    pub fn apply_engram(&mut self, gate: usize, rows: usize, work: Result<(), Error>) -> (r: Result<
        (),
        Error,
    >)
        requires
            old(self).inv(),
        ensures
            final(self).inv(),
            final(self).same_lane(old(self)),
            final(self).same_captures(old(self)),
            final(self).same_tail(old(self)),
            final(self).query == old(self).query,
            final(self).block.layer == old(self).block.layer,
            match r {
                Err(e) => {
                    &&& final(self).phase == Phase::Invalid
                    &&& if old(self).phase != Phase::Prepared {
                        &&& e == (Error::LanePhase { expected: Phase::Prepared, got: old(self).phase })
                        &&& final(self).block == old(self).block
                    } else {
                        &&& final(self).block.idle_like(&old(self).block)
                        &&& match old(self).block.engram_error(gate, rows) {
                            Some(reason) => e == reason,
                            None => work == Err::<(), Error>(e),
                        }
                    }
                },
                Ok(_) => {
                    &&& old(self).phase == Phase::Prepared
                    &&& old(self).block.engram_error(gate, rows) is None
                    &&& work is Ok
                    &&& final(self).phase == Phase::Prepared
                    &&& final(self).block.tokens == old(self).block.tokens
                    &&& old(self).block.phase matches BlockPhase::Prepared { binding, rows: due, .. }
                        && final(self).block.phase == (BlockPhase::Prepared {
                        binding,
                        rows: due,
                        ready: true,
                    })
                },
            },
    {
        match self.enter(Phase::Prepared) {
            Err(e) => {
                return Err(e);
            },
            Ok(_) => {},
        }
        match self.block.apply_engram(gate, rows, work) {
            Err(e) => {
                return Err(e);
            },
            Ok(_) => {},
        }
        self.phase = Phase::Prepared;
        Ok(())
    }

    /// Begins the prepared layer's attention; its engram must be done. A split
    /// query projection is finished by its shards, where the lane has them.
    pub fn begin_prepared(
        &mut self,
        next: &mut u64,
        shards: Option<QueryShards>,
        work: Result<(), Error>,
    ) -> (r: Result<(), Error>)
        requires
            old(self).inv(),
            shards is Some ==> old(self).tp2_query,
        ensures
            final(self).inv(),
            final(self).same_lane(old(self)),
            final(self).same_captures(old(self)),
            final(self).same_tail(old(self)),
            final(self).query.same_wave(&old(self).query),
            final(self).block.layer == old(self).block.layer,
            *final(next) == if old(self).phase == Phase::Prepared && old(self).block.input_ready() {
                old(self).next_binding(old(self).block.tokens@, *old(next), shards)
            } else {
                *old(next) as int
            },
            match r {
                Err(e) => {
                    &&& final(self).phase == Phase::Invalid
                    &&& if old(self).phase != Phase::Prepared {
                        &&& e == (Error::LanePhase { expected: Phase::Prepared, got: old(self).phase })
                        &&& *final(self) == (BackboneLane { phase: Phase::Invalid, ..*old(self) })
                    } else if !old(self).block.input_ready() {
                        &&& e == Error::BlockInput
                        &&& final(self).block.idle_like(&old(self).block)
                        &&& final(self).query == old(self).query
                    } else {
                        &&& old(self).query_error(
                            old(self).block.tokens@,
                            *old(next),
                            shards,
                            work,
                        ) == Some(e)
                        &&& final(self).query_dropped(old(self), old(self).block.tokens@)
                    }
                },
                Ok(_) => {
                    &&& old(self).phase == Phase::Prepared
                    &&& old(self).block.input_ready()
                    &&& old(self).query_error(
                        old(self).block.tokens@,
                        *old(next),
                        shards,
                        work,
                    ) is None
                    &&& final(self).phase == Phase::Query
                    &&& final(self).queried(old(self).block.tokens@, *old(next))
                },
            },
    {
        match self.enter(Phase::Prepared) {
            Err(e) => {
                return Err(e);
            },
            Ok(_) => {},
        }
        let tokens: Vec<u64> = match self.block.prepared_input() {
            Err(e) => {
                self.block.reset();
                return Err(e);
            },
            Ok(input) => crate::block::copy_tokens(input.tokens),
        };
        match self.run_query(next, tokens.as_slice(), shards, work) {
            Err(e) => {
                return Err(e);
            },
            Ok(_) => {},
        }
        self.phase = Phase::Query;
        Ok(())
    }

    pub fn query_output(&self) -> (r: Result<AttentionQueryOutput<'_>, Error>)
        requires
            self.inv(),
        ensures
            match r {
                Ok(output) => self.phase == Phase::Query && self.query.is_output(output),
                Err(e) => if self.phase != Phase::Query {
                    e == Error::LaneQuery
                } else {
                    e == self.query.state.errors.unpublished && self.query.state.ready is None
                },
            },
    {
        if self.phase != Phase::Query {
            return Err(Error::LaneQuery);
        }
        self.query.output()
    }

    pub fn output(&self) -> (r: Result<BlockOutput<'_>, Error>)
        requires
            self.inv(),
        ensures
            match r {
                Ok(output) => self.phase == Phase::Complete && self.block.is_output(output),
                Err(e) => if self.phase != Phase::Complete {
                    e == Error::LaneOutput
                } else {
                    e == Error::BlockUnpublished && !(self.block.phase is Ready)
                },
            },
    {
        if self.phase != Phase::Complete {
            return Err(Error::LaneOutput);
        }
        self.block.output()
    }

    /// Why the lane cannot go on to its next layer on this device.
    pub open spec fn advance_error(&self, streams: LaneStreams, work: Result<(), Error>) -> Option<
        Error,
    > {
        if self.phase != Phase::Complete {
            Some(Error::LanePhase { expected: Phase::Complete, got: self.phase })
        } else if self.layer >= 39 {
            Some(Error::LaneFinal)
        } else if self.weights.layers@[self.layer + 1].device != self.block.residual.device {
            Some(Error::LaneHandoff)
        } else if self.rebind_error(self.layer + 1, streams, false) is Some {
            self.rebind_error(self.layer + 1, streams, false)
        } else if self.block.advance_error((self.layer + 1) as usize) is Some {
            self.block.advance_error((self.layer + 1) as usize)
        } else {
            match work {
                Err(e) => Some(e),
                Ok(_) => None,
            }
        }
    }

    /// The lane has gone on from the layer of `before`. A layer with an engram
    /// waits for it.
    pub open spec fn advanced(&self, before: &Self) -> bool {
        let next = before.layer + 1;
        &&& self.phase == Phase::Prepared
        &&& self.layer == next
        &&& self.block.layer == next
        &&& self.block.tokens == before.block.tokens
        &&& before.block.phase matches BlockPhase::Ready { binding, rows, .. } && self.block.phase
            == (BlockPhase::Prepared { binding, rows, ready: !block::takes_engram(next) })
        &&& self.bound_to(next)
        &&& self.unpublished(before)
    }

    /// Goes on to the next layer; `work` is how binding the block's weights, and
    /// copying its input where due, went.
    pub fn advance(&mut self, streams: LaneStreams, work: Result<(), Error>) -> (r: Result<
        (),
        Error,
    >)
        requires
            old(self).inv(),
        ensures
            final(self).inv(),
            final(self).same_lane(old(self)),
            final(self).same_captures(old(self)),
            final(self).values == old(self).values,
            match r {
                Err(e) => {
                    &&& old(self).advance_error(streams, work) == Some(e)
                    &&& final(self).phase == Phase::Invalid
                    &&& final(self).layer == old(self).layer
                    &&& if old(self).phase == Phase::Complete && old(self).layer < 39
                        && old(self).weights.layers@[old(self).layer + 1].device
                        == old(self).block.residual.device {
                        final(self).rebound(old(self), old(self).layer + 1, streams, false)
                    } else {
                        final(self).same_stages(old(self))
                    }
                    &&& if old(self).phase == Phase::Complete && old(self).layer < 39
                        && old(self).weights.layers@[old(self).layer + 1].device
                        == old(self).block.residual.device && old(self).rebind_error(
                        old(self).layer + 1,
                        streams,
                        false,
                    ) is None {
                        final(self).block.idle_like(&old(self).block)
                    } else {
                        final(self).block == old(self).block
                    }
                },
                Ok(_) => {
                    &&& old(self).advance_error(streams, work) is None
                    &&& final(self).advanced(old(self))
                },
            },
    {
        match self.enter(Phase::Complete) {
            Err(e) => {
                return Err(e);
            },
            Ok(_) => {},
        }
        if self.layer >= 39 {
            return Err(Error::LaneFinal);
        }
        let next: usize = self.layer + 1;
        if self.weights.layers[next].device != self.block.residual.device {
            return Err(Error::LaneHandoff);
        }
        match self.rebind(next, streams, false) {
            Err(e) => {
                return Err(e);
            },
            Ok(_) => {},
        }
        match self.block.advance(next, work) {
            Err(e) => {
                return Err(e);
            },
            Ok(_) => {},
        }
        self.layer = next;
        self.phase = Phase::Prepared;
        Ok(())
    }
}

/// A lane that was left in the middle of a step takes no further step of a pass,
/// whatever phase the step expects: only a restart brings it back.
pub proof fn law_invalid_lane_needs_a_restart(
    lane: &BackboneLane,
    streams: LaneStreams,
    work: Result<(), Error>,
    expected: Phase,
)
    requires
        lane.phase == Phase::Invalid,
        expected != Phase::Invalid,
    ensures
        lane.phase != expected,
        lane.advance_error(streams, work) == Some(
            Error::LanePhase { expected: Phase::Complete, got: Phase::Invalid },
        ),
{
}

/// A layer with an engram cannot begin its attention right after the lane went on
/// to it: only an engram update makes its input complete. Every other layer can.
pub proof fn law_lane_waits_for_its_engram(before: &BackboneLane, after: &BackboneLane)
    requires
        after.advanced(before),
    ensures
        after.block.input_ready() == !block::takes_engram(before.layer + 1),
        after.block.awaits_engram() == block::takes_engram(before.layer + 1),
{
}

/// Two queries of a lane, or of two lanes over one counter, have different
/// bindings: a result of the earlier is never taken for the later.
pub proof fn law_lane_queries_are_distinct(
    first: &BackboneLane,
    earlier: Seq<u64>,
    start: u64,
    second: &BackboneLane,
    later: Seq<u64>,
    between: u64,
)
    requires
        first.queried(earlier, start),
        start + 1 <= between,
        second.queried(later, between),
    ensures
        first.query.state.origin != second.query.state.origin,
        first.block.phase != second.block.phase,
{
}

} // verus!
