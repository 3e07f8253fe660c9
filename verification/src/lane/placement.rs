//! Lanes beside their caches, on two devices.
use crate::attention_output::AttentionOutputWave;
use crate::attention_query::AttentionQueryWave;
use crate::backbone_cache::LAYERS;
use crate::block::transfer::BlockTransfer;
use crate::block::{BackboneBlockWave, BlockOutput};
use crate::error::Error;
use crate::lane::budget;
use crate::lane::budget::{total_workspace, LaneSizes};
use crate::lane::split::FfnSplit;
use crate::lane::{BackboneLane, BackboneLaneWeights, LaneStreams, Phase};
use crate::router::BackboneRouterWave;
use crate::shared_ffn::BackboneSharedWave;
use vstd::prelude::*;

verus! {

impl BackboneLaneWeights {
    /// The first of the first `n` layers that lies on `gpu`.
    pub open spec fn first_on(&self, gpu: i32, n: int) -> Option<int>
        decreases n,
    {
        if n <= 0 {
            None
        } else {
            match self.first_on(gpu, n - 1) {
                Some(layer) => Some(layer),
                None => if self.layers@[n - 1].device == gpu {
                    Some(n - 1)
                } else {
                    None
                },
            }
        }
    }

    proof fn lemma_first_stays(&self, gpu: i32, n: int, m: int)
        requires
            n <= m,
            self.first_on(gpu, n) is Some,
        ensures
            self.first_on(gpu, m) == self.first_on(gpu, n),
        decreases m - n,
    {
        if n < m && m > 0 {
            self.lemma_first_stays(gpu, n, m - 1);
        }
    }

    /// Bytes of a lane of `capacity` rows over these weights. Split projections and
    /// the shared experts of placed layers are not part of it.
    pub open spec fn lane_bytes(&self, capacity: u32, sizes: LaneSizes) -> int {
        budget::workspace_total(
            budget::workspace_groups(capacity, sizes, self.split_query, self.split_output),
            self.placed,
        )
    }

    /// Why no lane of `capacity` rows can be set up within `budget` bytes.
    pub open spec fn lane_error(&self, capacity: u32, sizes: LaneSizes, budget: usize) -> Option<
        Error,
    > {
        if budget::workspace_error(capacity, sizes) is Some {
            budget::workspace_error(capacity, sizes)
        } else if self.lane_bytes(capacity, sizes) > usize::MAX {
            Some(Error::LaneBudgetOverflow)
        } else if self.lane_bytes(capacity, sizes) > budget {
            Some(Error::LaneBudget)
        } else if self.layers@.len() != LAYERS {
            Some(Error::LaneLayers)
        } else {
            None
        }
    }

    fn check_lane(&self, capacity: u32, sizes: LaneSizes, budget: usize) -> (r: Result<(), Error>)
        ensures
            match r {
                Ok(_) => self.lane_error(capacity, sizes, budget) is None,
                Err(e) => self.lane_error(capacity, sizes, budget) == Some(e),
            },
    {
        let groups: [usize; 6] = match BackboneLane::workspace_bytes_with_split(
            capacity,
            sizes,
            self.split_query,
            self.split_output,
        ) {
            Err(e) => {
                return Err(e);
            },
            Ok(groups) => groups,
        };
        match total_workspace(groups, self.placed, Error::LaneBudgetOverflow) {
            Err(e) => {
                return Err(e);
            },
            Ok(total) => {
                if total > budget {
                    return Err(Error::LaneBudget);
                }
            },
        }
        if self.layers.len() != LAYERS {
            return Err(Error::LaneLayers);
        }
        Ok(())
    }

    /// Checks a lane over weights of one device; returns its first layer.
    pub fn check_new(&self, capacity: u32, sizes: LaneSizes, budget: usize) -> (r: Result<
        usize,
        Error,
    >)
        ensures
            match r {
                Ok(first) => !self.placed && self.lane_error(capacity, sizes, budget) is None
                    && first == 0,
                Err(e) => if self.placed {
                    e == Error::LanePlaced
                } else {
                    self.lane_error(capacity, sizes, budget) == Some(e)
                },
            },
    {
        if self.placed {
            return Err(Error::LanePlaced);
        }
        match self.check_lane(capacity, sizes, budget) {
            Err(e) => Err(e),
            Ok(_) => Ok(0),
        }
    }

    /// Checks a lane on one of two devices; returns the first layer that lies there.
    pub fn check_on_device(&self, capacity: u32, sizes: LaneSizes, budget: usize, gpu: usize) -> (r:
        Result<usize, Error>)
        ensures
            match r {
                Ok(first) => {
                    &&& gpu < 2 && self.placed
                    &&& self.first_on(gpu as i32, self.layers@.len() as int) == Some(first as int)
                    &&& self.lane_error(capacity, sizes, budget) is None
                },
                Err(e) => if !(gpu < 2 && self.placed) {
                    e == Error::LaneGpu
                } else if self.first_on(gpu as i32, self.layers@.len() as int) is None {
                    e == Error::LaneNoLayers
                } else {
                    self.lane_error(capacity, sizes, budget) == Some(e)
                },
            },
    {
        if !(gpu < 2 && self.placed) {
            return Err(Error::LaneGpu);
        }
        let wanted: i32 = gpu as i32;
        let mut first: Option<usize> = None;
        let mut l: usize = 0;
        while l < self.layers.len() && first.is_none()
            invariant
                l <= self.layers@.len(),
                match first {
                    Some(at) => self.first_on(wanted, l as int) == Some(at as int),
                    None => self.first_on(wanted, l as int) is None,
                },
            decreases self.layers@.len() - l,
        {
            if self.layers[l].device == wanted {
                first = Some(l);
            }
            l = l + 1;
        }
        match first {
            None => Err(Error::LaneNoLayers),
            Some(at) => {
                proof {
                    self.lemma_first_stays(wanted, l as int, self.layers@.len() as int);
                }
                match self.check_lane(capacity, sizes, budget) {
                    Err(e) => Err(e),
                    Ok(_) => Ok(at),
                }
            },
        }
    }
}

impl<'w> BackboneLane<'w> {
    /// An unused lane over the stages that were set up for its first layer.
    pub fn new(
        weights: &'w BackboneLaneWeights,
        first: usize,
        block: BackboneBlockWave,
        query: AttentionQueryWave,
        projection: AttentionOutputWave,
        shared: Option<BackboneSharedWave>,
        router: BackboneRouterWave,
    ) -> (r: Self)
        requires
            weights.layers@.len() == LAYERS,
            first < LAYERS,
            block.layer == first,
            query.weights == weights.layers@[first as int].query,
            projection.weights == weights.layers@[first as int].projection,
            router.weights == weights.layers@[first as int].router,
            shared matches Some(wave) ==> Some(wave.weights) == weights.layers@[first as int].shared,
            1 <= block.capacity <= 4096,
            block.inv(),
            query.inv(),
            query.state.capacity == block.capacity,
            projection.inv(),
            projection.state.capacity == block.capacity,
            router.inv(),
            router.state.capacity == block.capacity,
            shared matches Some(wave) ==> wave.inv() && wave.state.capacity == block.capacity,
        ensures
            r.inv(),
            r.weights == weights,
            r.block == block,
            r.query == query,
            r.projection == projection,
            r.shared == shared,
            r.router == router,
            r.layer == first,
            r.bound_to(first as int),
            r.phase == Phase::Idle,
            !r.capture_routes,
            r.route_capture@.len() == 0,
            r.ffn_split == FfnSplit::empty(),
            r.entry_layer is None,
            !r.dual_attention,
            !r.tp2_query,
            !r.tp2_output,
            forall|l: int| 0 <= l < LAYERS ==> !#[trigger] r.recorded@[l],
    {
        let mut recorded: Vec<bool> = Vec::new();
        let mut l: usize = 0;
        while l < LAYERS
            invariant
                l <= LAYERS,
                recorded@.len() == l,
                forall|k: int| 0 <= k < l ==> !#[trigger] recorded@[k],
            decreases LAYERS - l,
        {
            recorded.push(false);
            l = l + 1;
        }
        let capacity: usize = block.capacity;
        BackboneLane {
            weights,
            capacity,
            block,
            query,
            projection,
            shared,
            router,
            layer: first,
            phase: Phase::Idle,
            values: None,
            capture_routes: false,
            route_capture: Vec::new(),
            ffn_split: FfnSplit::default(),
            recorded,
            entry_layer: None,
            dual_attention: false,
            tp2_query: false,
            tp2_output: false,
        }
    }

    /// Lets shards on two devices finish this lane's queries.
    pub fn enable_tp2_query(&mut self) -> (r: Result<(), Error>)
        ensures
            if old(self).weights.split_query && !old(self).tp2_query {
                &&& r is Ok
                &&& *final(self) == (BackboneLane { tp2_query: true, ..*old(self) })
            } else {
                &&& r == Err::<(), Error>(Error::LaneQuerySplit)
                &&& *final(self) == *old(self)
            },
    {
        if !(self.weights.split_query && !self.tp2_query) {
            return Err(Error::LaneQuerySplit);
        }
        self.tp2_query = true;
        Ok(())
    }

    /// Lets shards on two devices finish this lane's output projections.
    pub fn enable_tp2_output(&mut self) -> (r: Result<(), Error>)
        ensures
            if old(self).weights.split_output && !old(self).tp2_output {
                &&& r is Ok
                &&& *final(self) == (BackboneLane { tp2_output: true, ..*old(self) })
            } else {
                &&& r == Err::<(), Error>(Error::LaneOutputSplit)
                &&& *final(self) == *old(self)
            },
    {
        if !(self.weights.split_output && !self.tp2_output) {
            return Err(Error::LaneOutputSplit);
        }
        self.tp2_output = true;
        Ok(())
    }

    /// Replaces full-head attention by one half on each device, before any use.
    pub fn enable_dual_attention(&mut self) -> (r: Result<(), Error>)
        ensures
            if old(self).phase == Phase::Idle && !old(self).dual_attention {
                &&& r is Ok
                &&& *final(self) == (BackboneLane { dual_attention: true, ..*old(self) })
            } else {
                &&& r == Err::<(), Error>(Error::LaneDualAttention)
                &&& *final(self) == *old(self)
            },
    {
        if !(self.phase == Phase::Idle && !self.dual_attention) {
            return Err(Error::LaneDualAttention);
        }
        self.dual_attention = true;
        Ok(())
    }

    /// Transfers between the devices are ordered by the host.
    pub fn uses_peer_projection(&self) -> (r: bool)
        ensures
            r == (self.dual_attention || self.tp2_query || self.tp2_output),
    {
        self.dual_attention || self.tp2_query || self.tp2_output
    }

    /// Why the other device's layer cannot be imported.
    pub open spec fn import_error(
        &self,
        previous: &BlockOutput,
        transfer: BlockTransfer,
        streams: LaneStreams,
        work: Result<(), Error>,
    ) -> Option<Error> {
        let next = previous.layer + 1;
        if previous.layer >= 39 {
            Some(Error::LaneNoSuccessor)
        } else if self.weights.layers@[next].device != self.block.residual.device {
            Some(Error::LaneImportDevice)
        } else if self.rebind_error(next, streams, true) is Some {
            self.rebind_error(next, streams, true)
        } else if self.block.import_error(next as usize, previous, transfer) is Some {
            self.block.import_error(next as usize, previous, transfer)
        } else {
            match work {
                Err(e) => Some(e),
                Ok(_) => None,
            }
        }
    }

    /// Imports the preceding layer from the other device. `work` is how the
    /// copies went; `timed` tells that its arrival was timed.
    pub fn import_previous(
        &mut self,
        previous: &BlockOutput,
        transfer: BlockTransfer,
        streams: LaneStreams,
        work: Result<(), Error>,
        timed: bool,
    ) -> (r: Result<(), Error>)
        requires
            old(self).inv(),
        ensures
            final(self).inv(),
            final(self).same_lane(old(self)),
            final(self).route_capture == old(self).route_capture,
            final(self).recorded == old(self).recorded,
            final(self).ffn_split == old(self).ffn_split,
            final(self).values == old(self).values,
            match r {
                Err(e) => {
                    &&& old(self).import_error(previous, transfer, streams, work) == Some(e)
                    &&& final(self).phase == Phase::Invalid
                    &&& final(self).layer == old(self).layer
                    &&& final(self).entry_layer == old(self).entry_layer
                    &&& if previous.layer < 39 && old(self).weights.layers@[previous.layer
                        + 1].device == old(self).block.residual.device {
                        final(self).rebound(old(self), previous.layer + 1, streams, true)
                    } else {
                        final(self).same_stages(old(self))
                    }
                    &&& if previous.layer < 39 && old(self).weights.layers@[previous.layer
                        + 1].device == old(self).block.residual.device && old(self).rebind_error(
                        previous.layer + 1,
                        streams,
                        true,
                    ) is None {
                        final(self).block.idle_like(&old(self).block)
                    } else {
                        final(self).block == old(self).block
                    }
                },
                Ok(_) => {
                    &&& old(self).import_error(previous, transfer, streams, work) is None
                    &&& final(self).phase == Phase::Prepared
                    &&& final(self).layer == previous.layer + 1
                    &&& final(self).block.layer == previous.layer + 1
                    &&& final(self).block.holds(previous)
                    &&& final(self).bound_to(previous.layer + 1)
                    &&& final(self).unpublished(old(self))
                    &&& final(self).entry_layer == if old(self).capture_routes && timed {
                        Some((previous.layer + 1) as usize)
                    } else {
                        old(self).entry_layer
                    }
                },
            },
    {
        self.phase = Phase::Invalid;
        if previous.layer >= 39 {
            return Err(Error::LaneNoSuccessor);
        }
        let next: usize = previous.layer + 1;
        if self.weights.layers[next].device != self.block.residual.device {
            return Err(Error::LaneImportDevice);
        }
        match self.rebind(next, streams, true) {
            Err(e) => {
                return Err(e);
            },
            Ok(_) => {},
        }
        match self.block.import_previous(next, previous, transfer, work) {
            Err(e) => {
                return Err(e);
            },
            Ok(_) => {},
        }
        self.layer = next;
        self.phase = Phase::Prepared;
        if self.capture_routes && timed {
            self.entry_layer = Some(next);
        }
        Ok(())
    }
}

} // verus!
