//! Cache producers and the hand-over of each backbone layer.
pub mod budget;
pub mod cost;
pub mod distributed;
pub mod layer;
pub mod poll;
pub mod production;
pub mod progress;
pub mod trace;
pub mod window_batch;

use crate::backbone_cache::{LAYERS, SOURCE_COUNT};
use crate::cache_phase::CacheStage;
use crate::compressor::wave::CompressorWave;
use crate::execution::production::Produced;
use crate::execution::progress::PassProgress;
use crate::window::WindowWave;
use vstd::prelude::*;

verus! {

/// Layers that select compressed rows anew.
pub open spec fn selects_index(layer: int) -> bool {
    layer == 2 || layer == 8 || layer == 14 || layer == 20 || layer == 24 || layer == 28 || layer
        == 32 || layer == 36
}

pub fn is_index_layer(layer: usize) -> (r: bool)
    ensures
        r == selects_index(layer as int),
{
    layer == 2 || layer == 8 || layer == 14 || layer == 20 || layer == 24 || layer == 28 || layer
        == 32 || layer == 36
}

/// One pass's producers. Every layer keeps its private proposal until the
/// accepted prefix is committed; two alternating passes need one of these each.
pub struct BackboneExecution {
    pub windows: Vec<WindowWave>,
    pub sources: Vec<CompressorWave>,
    pub progress: PassProgress,
    pub queued_production: Option<Produced>,
    /// Accepted rows of all windows are stored at once.
    pub batched_windows: bool,
}

impl BackboneExecution {
    pub open spec fn inv(&self) -> bool {
        &&& self.windows@.len() == LAYERS
        &&& self.sources@.len() == SOURCE_COUNT
    }

    /// Everything but the pass's progress is as in `before`.
    pub open spec fn same_producers(&self, before: &Self) -> bool {
        &&& self.windows == before.windows
        &&& self.sources == before.sources
        &&& self.batched_windows == before.batched_windows
    }

    /// Forgets the pass once all its consumers are done.
    pub fn restart(&mut self)
        ensures
            final(self).same_producers(old(self)),
            final(self).queued_production is None,
            final(self).progress == PassProgress::started(CacheStage::Full),
    {
        self.queued_production = None;
        self.progress = PassProgress::for_stage(CacheStage::Full);
    }

    pub fn restart_for(&mut self, stage: CacheStage)
        ensures
            final(self).same_producers(old(self)),
            final(self).queued_production is None,
            final(self).progress == PassProgress::started(stage),
    {
        self.queued_production = None;
        self.progress = PassProgress::for_stage(stage);
    }
}

} // verus!
