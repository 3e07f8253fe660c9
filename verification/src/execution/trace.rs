//! Where a layer's FFN inputs go in a trace buffer.
use crate::backbone_cache::LAYERS;
use crate::device::{DeviceBuffer, DeviceCopy};
use crate::error::Error;
use vstd::prelude::*;

verus! {

/// Positions that a trace holds per layer.
pub const TRACE_POSITIONS: usize = 16;

/// Bytes that a trace sets aside for one position.
pub const TRACE_STRIDE: usize = 40976;

/// Bytes of one row that enters the FFN.
pub const FFN_ROW_BYTES: usize = 10240;

/// First byte of a layer's rows from `position` on.
pub open spec fn trace_offset(layer: int, position: int) -> int {
    (layer * TRACE_POSITIONS + position) * TRACE_STRIDE
}

/// Why the rows cannot be traced.
pub open spec fn trace_error(layer: int, position: int, rows: int, capacity: int) -> Option<Error> {
    if position + rows > TRACE_POSITIONS {
        Some(Error::TraceExtent)
    } else if trace_offset(layer, position) + rows * FFN_ROW_BYTES > capacity {
        Some(Error::TraceBuffer)
    } else {
        None
    }
}

/// The copy that traces the `rows` rows which enter the FFN of `layer`, the first
/// of them at `position`.
pub fn trace_ffn_input(
    layer: usize,
    position: u64,
    rows: usize,
    input: DeviceBuffer,
    trace: DeviceBuffer,
) -> (r: Result<DeviceCopy, Error>)
    requires
        layer < LAYERS,
        trace.wf(),
    ensures
        match trace_error(layer as int, position as int, rows as int, trace.bytes as int) {
            Some(reason) => r == Err::<DeviceCopy, Error>(reason),
            None => r == Ok::<DeviceCopy, Error>(
                DeviceCopy {
                    destination: trace.slice_of(
                        trace_offset(layer as int, position as int),
                        rows * FFN_ROW_BYTES,
                    ),
                    source: DeviceBuffer { bytes: (rows * FFN_ROW_BYTES) as usize, ..input },
                },
            ),
        },
{
    if position > TRACE_POSITIONS as u64 || rows > TRACE_POSITIONS - position as usize {
        return Err(Error::TraceExtent);
    }
    let bytes: usize = rows * FFN_ROW_BYTES;
    let offset: usize = (layer * TRACE_POSITIONS + position as usize) * TRACE_STRIDE;
    if offset + bytes > trace.bytes {
        return Err(Error::TraceBuffer);
    }
    Ok(DeviceCopy { destination: trace.slice(offset, bytes), source: input.prefix(bytes) })
}

/// A traced run copies the FFN rows from the first byte on into the place of its first
/// position: a position takes 40976 bytes, a layer its sixteen positions one behind the
/// other, and the layers follow each other.
pub proof fn law_trace_keeps_positions_in_order(layer: int, position: int)
    ensures
        trace_offset(0, 0) == 0,
        trace_offset(layer, position + 1) == trace_offset(layer, position) + 40976,
        trace_offset(layer + 1, 0) == trace_offset(layer, 16),
{
}

/// Runs that are accepted lie in the trace, and those of other positions or of other
/// layers do not overlap.
pub proof fn law_traces_do_not_overlap(
    layer: int,
    position: int,
    rows: int,
    other_layer: int,
    other: int,
    other_rows: int,
    capacity: int,
)
    requires
        0 <= layer,
        0 <= position,
        0 <= rows,
        0 <= other,
        0 <= other_rows,
        trace_error(layer, position, rows, capacity) is None,
        trace_error(other_layer, other, other_rows, capacity) is None,
        layer < other_layer || layer == other_layer && position + rows <= other,
    ensures
        0 <= trace_offset(layer, position),
        trace_offset(layer, position) + rows * 10240 <= trace_offset(other_layer, other),
        trace_offset(other_layer, other) + other_rows * 10240 <= capacity,
{
}

} // verus!
