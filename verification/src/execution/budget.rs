//! Memory of the cache producers.
use crate::backbone_cache;
use crate::backbone_cache::placement::CachePlacement;
use crate::backbone_cache::{source_at, LAYERS, SOURCE_COUNT};
use crate::budget;
use crate::budget::sum;
use crate::cache_phase::CacheStage;
use crate::compressor::wave;
use crate::compressor::wave::CompressorWave;
use crate::error::Error;
use crate::execution::progress::PassProgress;
use crate::execution::BackboneExecution;
use crate::source_cache;
use crate::text;
use crate::text::append_count;
use crate::window::WindowWave;
use vstd::prelude::*;

verus! {

/// Bytes of all layers' attention sinks.
pub const SINK_BYTES: usize = 10240;

/// The weights of the cache producers.
pub struct CacheProducerWeights {
    pub windows: usize,
    pub sources: usize,
    pub placement: Option<CachePlacement>,
}

/// The tensor that holds a layer's attention sink.
pub open spec fn sink_name(layer: nat) -> Seq<char> {
    "layers."@ + text::decimal(layer) + ".attn.attn_sink"@
}

/// Bytes of the producers' weights: the sinks, forty windows and four sources.
pub open spec fn weight_bytes(sinks: int, windows: Seq<usize>, sources: Seq<usize>) -> Result<
    int,
    Error,
> {
    if sinks != SINK_BYTES {
        Err(Error::SinkBytes)
    } else {
        budget::counted(
            sinks + budget::total(windows, windows.len() as int) + budget::total(
                sources,
                sources.len() as int,
            ),
            Error::WeightsOverflow,
        )
    }
}

impl CacheProducerWeights {
    pub fn sinks() -> (r: Vec<String>)
        ensures
            r@.len() == LAYERS,
            forall|l: int| 0 <= l < LAYERS ==> (#[trigger] r@[l])@ == sink_name(l as nat),
    {
        let mut names: Vec<String> = Vec::new();
        let mut layer: usize = 0;
        while layer < LAYERS
            invariant
                layer <= LAYERS,
                names@.len() == layer,
                forall|l: int| 0 <= l < layer ==> (#[trigger] names@[l])@ == sink_name(l as nat),
            decreases LAYERS - layer,
        {
            let mut name: String = String::from_str("layers.");
            append_count(&mut name, layer);
            name.append(".attn.attn_sink");
            names.push(name);
            layer = layer + 1;
        }
        names
    }

    pub fn device_bytes(sinks: usize, windows: &[usize; 40], sources: &[usize; 4]) -> (r: Result<
        usize,
        Error,
    >)
        ensures
            source_cache::same_count(r, weight_bytes(sinks as int, windows@, sources@)),
    {
        if sinks != SINK_BYTES {
            return Err(Error::SinkBytes);
        }
        proof {
            budget::lemma_total_monotonic(sources@, 0, 4);
        }
        match sum(sinks, windows.as_slice(), Error::WeightsOverflow) {
            Err(e) => Err(e),
            Ok(bytes) => sum(bytes, sources.as_slice(), Error::WeightsOverflow),
        }
    }

    /// Weights on one device, within `budget` bytes.
    pub fn load(sinks: usize, windows: &[usize; 40], sources: &[usize; 4], budget: usize) -> (r:
        Result<Self, Error>)
        ensures
            match weight_bytes(sinks as int, windows@, sources@) {
                Err(e) => r == Err::<Self, Error>(e),
                Ok(bytes) => if bytes <= budget {
                    r matches Ok(weights) && weights.windows == LAYERS && weights.sources
                        == SOURCE_COUNT && weights.placement is None
                } else {
                    r == Err::<Self, Error>(Error::WeightsBudget)
                },
            },
    {
        match Self::device_bytes(sinks, windows, sources) {
            Err(e) => Err(e),
            Ok(bytes) => if bytes <= budget {
                Ok(
                    CacheProducerWeights {
                        windows: LAYERS,
                        sources: SOURCE_COUNT,
                        placement: None,
                    },
                )
            } else {
                Err(Error::WeightsBudget)
            },
        }
    }
}

/// Bytes of forty window lanes and the first `n` source lanes.
pub open spec fn lane_bytes(window: int, capacity: int, workspace: int, n: int) -> Result<int, Error>
    decreases n,
{
    if n <= 0 {
        budget::counted(40 * window, Error::WindowWorkspace)
    } else {
        match lane_bytes(window, capacity, workspace, n - 1) {
            Err(e) => Err(e),
            Ok(so_far) => match wave::wave_bytes(
                backbone_cache::source_layer(n - 1),
                capacity,
                workspace,
            ) {
                Err(e) => Err(e),
                Ok(bytes) => budget::counted(so_far + bytes, Error::SourceWorkspace),
            },
        }
    }
}

proof fn lemma_lane_error_stays(window: int, capacity: int, workspace: int, n: int, m: int)
    requires
        n <= m,
        lane_bytes(window, capacity, workspace, n) is Err,
    ensures
        lane_bytes(window, capacity, workspace, m) == lane_bytes(window, capacity, workspace, n),
    decreases m - n,
{
    if n < m && m > 0 {
        lemma_lane_error_stays(window, capacity, workspace, n, m - 1);
    }
}

impl BackboneExecution {
    /// Bytes of one pass's producers. `window` bytes go to one window lane and
    /// `workspace` bytes to one source kernel.
    pub fn workspace_bytes(window: usize, capacity: u32, workspace: usize) -> (r: Result<
        usize,
        Error,
    >)
        ensures
            source_cache::same_count(
                r,
                lane_bytes(window as int, capacity as int, workspace as int, 4),
            ),
    {
        let mut bytes: usize = match window.checked_mul(40) {
            Some(bytes) => bytes,
            None => {
                proof {
                    lemma_lane_error_stays(
                        window as int,
                        capacity as int,
                        workspace as int,
                        0,
                        4,
                    );
                }
                return Err(Error::WindowWorkspace);
            },
        };
        let mut i: usize = 0;
        while i < SOURCE_COUNT
            invariant
                i <= SOURCE_COUNT,
                lane_bytes(window as int, capacity as int, workspace as int, i as int) == Ok::<
                    int,
                    Error,
                >(bytes as int),
            decreases SOURCE_COUNT - i,
        {
            proof {
                if lane_bytes(window as int, capacity as int, workspace as int, i + 1) is Err {
                    lemma_lane_error_stays(
                        window as int,
                        capacity as int,
                        workspace as int,
                        i + 1,
                        4,
                    );
                }
            }
            match CompressorWave::device_bytes(source_at(i), capacity as usize, workspace) {
                Err(e) => {
                    return Err(e);
                },
                Ok(more) => match bytes.checked_add(more) {
                    None => {
                        return Err(Error::SourceWorkspace);
                    },
                    Some(next) => {
                        bytes = next;
                    },
                },
            }
            i = i + 1;
        }
        Ok(bytes)
    }

    /// Why a pass cannot be set up.
    pub open spec fn setup_error(
        weights: &CacheProducerWeights,
        window: int,
        capacity: int,
        workspace: int,
        budget: int,
    ) -> Option<Error> {
        if weights.placement is Some {
            Some(Error::WeightsPlaced)
        } else {
            match lane_bytes(window, capacity, workspace, 4) {
                Err(e) => Some(e),
                Ok(bytes) => if bytes > budget {
                    Some(Error::WorkspaceBudget)
                } else if weights.windows != LAYERS || weights.sources != SOURCE_COUNT {
                    Some(Error::WeightsIncomplete)
                } else {
                    None
                },
            }
        }
    }

    /// Whether a pass of `capacity` rows can be set up within `budget` bytes.
    pub fn check_setup(
        weights: &CacheProducerWeights,
        window: usize,
        capacity: u32,
        workspace: usize,
        budget: usize,
    ) -> (r: Result<(), Error>)
        ensures
            match r {
                Ok(_) => Self::setup_error(
                    weights,
                    window as int,
                    capacity as int,
                    workspace as int,
                    budget as int,
                ) is None,
                Err(e) => Self::setup_error(
                    weights,
                    window as int,
                    capacity as int,
                    workspace as int,
                    budget as int,
                ) == Some(e),
            },
    {
        if weights.placement.is_some() {
            return Err(Error::WeightsPlaced);
        }
        match Self::workspace_bytes(window, capacity, workspace) {
            Err(e) => Err(e),
            Ok(bytes) => if bytes > budget {
                Err(Error::WorkspaceBudget)
            } else if weights.windows != LAYERS || weights.sources != SOURCE_COUNT {
                Err(Error::WeightsIncomplete)
            } else {
                Ok(())
            },
        }
    }

    /// A pass over the lanes that were set up.
    pub fn new(windows: Vec<WindowWave>, sources: Vec<CompressorWave>, batched_windows: bool) -> (r:
        Self)
        requires
            windows@.len() == LAYERS,
            sources@.len() == SOURCE_COUNT,
        ensures
            r.inv(),
            r.windows == windows,
            r.sources == sources,
            r.progress == PassProgress::started(CacheStage::Full),
            r.queued_production is None,
            r.batched_windows == batched_windows,
    {
        BackboneExecution {
            windows,
            sources,
            progress: PassProgress::for_stage(CacheStage::Full),
            queued_production: None,
            batched_windows,
        }
    }
}

} // verus!
