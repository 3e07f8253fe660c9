//! Rules of captured executions.
use crate::error::Error;
use vstd::prelude::*;

verus! {

/// A captured execution of one layer and shape.
#[derive(Debug, Clone, Copy, PartialEq, Eq, Structural)]
pub struct CachedGraph {
    pub handle: u64,
    pub rows: u32,
}

/// What follows from a capture.
#[derive(Debug, Clone, Copy, PartialEq, Eq, Structural)]
pub enum CaptureStep {
    /// Keep the graph for this layer and shape.
    Keep { graph: u64 },
    /// Destroy the graph of a capture whose work was not all recorded.
    Discard { graph: u64, reason: Error },
    Fail { reason: Error },
}

/// Judges a capture by how its recording (`launched`) and its end went.
pub fn captured(launched: Result<(), Error>, ended: Result<u64, Error>) -> (r: CaptureStep)
    ensures
        r == match (launched, ended) {
            (Ok(_), Ok(graph)) => CaptureStep::Keep { graph },
            (Err(reason), Ok(graph)) => CaptureStep::Discard { graph, reason },
            (Err(reason), Err(_)) => CaptureStep::Fail { reason },
            (Ok(_), Err(reason)) => CaptureStep::Fail { reason },
        },
{
    match (launched, ended) {
        (Ok(_), Ok(graph)) => CaptureStep::Keep { graph },
        (Err(reason), Ok(graph)) => CaptureStep::Discard { graph, reason },
        (Err(reason), Err(_)) => CaptureStep::Fail { reason },
        (Ok(_), Err(reason)) => CaptureStep::Fail { reason },
    }
}

/// Why a cached graph cannot stand for an execution of `rows` rows.
pub open spec fn replay_error(
    cached: Option<CachedGraph>,
    rows: u32,
    missing: Error,
    differs: Error,
) -> Option<Error> {
    match cached {
        None => Some(missing),
        Some(graph) => if graph.rows != rows {
            Some(differs)
        } else {
            None
        },
    }
}

/// The graph to launch for `rows` rows.
pub fn replayed(cached: Option<CachedGraph>, rows: u32, missing: Error, differs: Error) -> (r: Result<
    u64,
    Error,
>)
    ensures
        match r {
            Ok(handle) => replay_error(cached, rows, missing, differs) is None && cached
                == Some(CachedGraph { handle, rows }),
            Err(e) => replay_error(cached, rows, missing, differs) == Some(e),
        },
{
    match cached {
        None => Err(missing),
        Some(graph) => if graph.rows != rows {
            Err(differs)
        } else {
            Ok(graph.handle)
        },
    }
}

} // verus!
