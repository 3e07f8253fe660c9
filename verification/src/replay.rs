//! Replay of recorded expert routes through both reduction paths: the plan and
//! its rules, the order of the runs, the batches that are sent, and what is
//! counted of the replies.
pub mod batch;
pub mod measure;
pub mod plan;
pub mod schedule;
pub mod targets;

use vstd::prelude::*;
use vstd::string::*;

verus! {

/// Ranks among which one expert layer is split.
pub const TP_WORLD: usize = 4;

/// First request number of a replay.
pub const REQUEST_ID_START: u64 = 80_000_000_000;

pub struct ReplayPlanManifest {
    pub schema: String,
    pub model: String,
    pub hidden_size: usize,
    pub top_k: usize,
    pub routed_experts: usize,
    pub quantization_recipe: String,
    pub routed_layers: Vec<u32>,
}

pub struct ReplayLayer {
    pub layer_id: u32,
    /// For each row the experts it is sent to.
    pub routes: Vec<Vec<usize>>,
}

pub struct ReplayChain {
    pub chain_id: String,
    pub cohort: String,
    /// Rows of each layer.
    pub physical_m: usize,
    pub layers: Vec<ReplayLayer>,
}

/// Who adds up the experts' partial results.
#[derive(Debug, Clone, Copy, PartialEq, Eq, Structural)]
pub enum ReductionPath {
    Coordinator,
    SparkRowSharded,
}

impl ReductionPath {
    pub open spec fn label_text(self) -> Seq<char> {
        match self {
            ReductionPath::Coordinator => "coordinator"@,
            ReductionPath::SparkRowSharded => "spark-row-sharded"@,
        }
    }

    pub fn label(self) -> (r: &'static str)
        ensures
            r@ == self.label_text(),
    {
        match self {
            ReductionPath::Coordinator => "coordinator",
            ReductionPath::SparkRowSharded => "spark-row-sharded",
        }
    }

    pub open spec fn opposite(self) -> ReductionPath {
        match self {
            ReductionPath::Coordinator => ReductionPath::SparkRowSharded,
            ReductionPath::SparkRowSharded => ReductionPath::Coordinator,
        }
    }

    pub fn other(self) -> (r: ReductionPath)
        ensures
            r == self.opposite(),
    {
        match self {
            ReductionPath::Coordinator => ReductionPath::SparkRowSharded,
            ReductionPath::SparkRowSharded => ReductionPath::Coordinator,
        }
    }

    /// The rank that reduces, where a rank does.
    pub fn reducing_rank(self) -> (r: Option<usize>)
        ensures
            r == (if self is SparkRowSharded {
                Some(0usize)
            } else {
                None
            }),
    {
        match self {
            ReductionPath::Coordinator => None,
            ReductionPath::SparkRowSharded => Some(0),
        }
    }

    pub fn row_sharded(self) -> (r: bool)
        ensures
            r == (self is SparkRowSharded),
    {
        match self {
            ReductionPath::Coordinator => false,
            ReductionPath::SparkRowSharded => true,
        }
    }
}

} // verus!
