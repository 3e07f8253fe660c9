//! Gating: what mixes gathered rows into the residual of a layer.
use crate::block;
use crate::budget;
use crate::budget::sum;
use crate::device::{DeviceBuffer, DeviceCopy};
use crate::device_memory;
use crate::engram::EngramDeviceView;
use crate::error::Error;
use crate::graphs::{captured, CaptureStep};
use crate::source_cache;
use crate::text;
use crate::text::append_count;
use vstd::prelude::*;

verus! {

pub const RESIDUAL_BYTES: usize = 40960;

pub const EMBEDDING_BYTES: usize = 12288;

/// Bytes of one row in all of the gating buffers.
pub const GATE_ROW_BYTES: usize = 145409;

/// The layer of each engram.
pub open spec fn gate_layer(index: int) -> int {
    if index == 0 {
        1
    } else {
        14
    }
}

/// The tensor `part` of a layer's engram.
pub open spec fn engram_tensor(layer: nat, part: Seq<char>) -> Seq<char> {
    "layers."@ + text::decimal(layer) + ".engram."@ + part
}

fn name(layer: usize, part: &str) -> (r: String)
    ensures
        r@ == engram_tensor(layer as nat, part@),
{
    let mut out: String = String::from_str("layers.");
    append_count(&mut out, layer);
    out.append(".engram.");
    out.append(part);
    out
}

pub fn engram_layer(index: usize) -> (r: Result<usize, Error>)
    ensures
        match r {
            Ok(layer) => index < 2 && layer == gate_layer(index as int),
            Err(e) => e == Error::EngramLayerIndex && index >= 2,
        },
{
    if index == 0 {
        Ok(1)
    } else if index == 1 {
        Ok(14)
    } else {
        Err(Error::EngramLayerIndex)
    }
}

/// What the weights of one engram are.
#[derive(Debug, Clone, Copy, PartialEq, Eq, Structural)]
pub struct EngramLayerWeights {
    pub layer_index: usize,
    pub resident: usize,
}

/// Bytes of an engram's weights and packed scales.
pub open spec fn resident_bytes(index: int, plan: int, packed: int) -> Result<int, Error> {
    if index >= 2 {
        Err(Error::EngramLayerIndex)
    } else {
        budget::counted(plan + packed, Error::EngramResident)
    }
}

impl EngramLayerWeights {
    pub fn names(index: usize) -> (r: Result<Vec<String>, Error>)
        ensures
            match r {
                Err(e) => e == Error::EngramLayerIndex && index >= 2,
                Ok(names) => {
                    let layer = gate_layer(index as int) as nat;
                    &&& index < 2
                    &&& names@.len() == 4
                    &&& names@[0]@ == engram_tensor(layer, "wkv.weight"@)
                    &&& names@[1]@ == engram_tensor(layer, "wkv.scale"@)
                    &&& names@[2]@ == engram_tensor(layer, "q_weight"@)
                    &&& names@[3]@ == engram_tensor(layer, "k_weight"@)
                },
            },
    {
        let layer: usize = match engram_layer(index) {
            Err(e) => {
                return Err(e);
            },
            Ok(layer) => layer,
        };
        let mut names: Vec<String> = Vec::new();
        names.push(name(layer, "wkv.weight"));
        names.push(name(layer, "wkv.scale"));
        names.push(name(layer, "q_weight"));
        names.push(name(layer, "k_weight"));
        Ok(names)
    }

    pub fn device_bytes(index: usize, plan: usize, packed: usize) -> (r: Result<usize, Error>)
        ensures
            source_cache::same_count(
                r,
                resident_bytes(index as int, plan as int, packed as int),
            ),
    {
        if index >= 2 {
            return Err(Error::EngramLayerIndex);
        }
        match plan.checked_add(packed) {
            Some(bytes) => Ok(bytes),
            None => Err(Error::EngramResident),
        }
    }

    /// The weights of one engram, within `budget` bytes.
    pub fn load(index: usize, plan: usize, packed: usize, budget: usize) -> (r: Result<Self, Error>)
        ensures
            match resident_bytes(index as int, plan as int, packed as int) {
                Err(e) => r == Err::<Self, Error>(e),
                Ok(bytes) => r == if bytes > budget {
                    Err::<Self, Error>(Error::EngramWeightsBudget)
                } else {
                    Ok::<Self, Error>(
                        EngramLayerWeights { layer_index: index, resident: bytes as usize },
                    )
                },
            },
    {
        match Self::device_bytes(index, plan, packed) {
            Err(e) => Err(e),
            Ok(bytes) => if bytes > budget {
                Err(Error::EngramWeightsBudget)
            } else {
                Ok(EngramLayerWeights { layer_index: index, resident: bytes })
            },
        }
    }

    pub fn resident_bytes(&self) -> (r: usize)
        ensures
            r == self.resident,
    {
        self.resident
    }
}

/// A captured gating execution.
#[derive(Debug, Clone, Copy, PartialEq, Eq, Structural)]
pub struct GateGraph {
    pub handle: u64,
    pub rows: usize,
}

/// One lane's gate.
pub struct EngramGate {
    pub layer_index: usize,
    pub residual: DeviceBuffer,
    pub embeddings: DeviceBuffer,
    pub text_mask: DeviceBuffer,
    pub output: DeviceBuffer,
    pub capacity: usize,
    pub graph: Option<GateGraph>,
    pub ready_rows: Option<usize>,
}

/// Bytes of a gate's workspace for `capacity` rows.
pub open spec fn gate_bytes(capacity: int, scratch: int) -> Result<int, Error> {
    if !(1 <= capacity <= 4096) {
        Err(Error::GateCapacity)
    } else {
        budget::counted(capacity * 145409 + scratch + 4, Error::GateOverflow)
    }
}

/// Why the source cannot be copied beside the first `n` destinations.
pub open spec fn slot_error(
    start: int,
    size: int,
    index: int,
    destinations: Seq<DeviceBuffer>,
    n: int,
) -> Option<Error>
    decreases n,
{
    if n <= 0 {
        None
    } else {
        match slot_error(start, size, index, destinations, n - 1) {
            Some(e) => Some(e),
            None => {
                let to = destinations[n - 1];
                if to.address + to.bytes > usize::MAX {
                    Some(Error::GateDestination)
                } else if !((n - 1 == index && start == to.address) || start + size <= to.address
                    || start >= to.address + to.bytes) {
                    Some(Error::GateOverlap)
                } else {
                    None
                }
            },
        }
    }
}

/// Why source `index` cannot be copied.
pub open spec fn source_error(
    source: DeviceBuffer,
    size: int,
    index: int,
    destinations: Seq<DeviceBuffer>,
) -> Option<Error> {
    if source.address == 0 || source.bytes < size {
        Some(Error::GateInput)
    } else if source.address + size > usize::MAX {
        Some(Error::GateInputExtent)
    } else {
        slot_error(source.address as int, size, index, destinations, 3)
    }
}

proof fn lemma_slot_stays(
    start: int,
    size: int,
    index: int,
    destinations: Seq<DeviceBuffer>,
    n: int,
    m: int,
)
    requires
        n <= m,
        slot_error(start, size, index, destinations, n) is Some,
    ensures
        slot_error(start, size, index, destinations, m) == slot_error(
            start,
            size,
            index,
            destinations,
            n,
        ),
    decreases m - n,
{
    if n < m && m > 0 {
        lemma_slot_stays(start, size, index, destinations, n, m - 1);
    }
}

fn check_source(source: DeviceBuffer, size: usize, index: usize, destinations: &[DeviceBuffer; 3]) -> (r:
    Result<(), Error>)
    ensures
        match r {
            Ok(_) => source_error(source, size as int, index as int, destinations@) is None,
            Err(e) => source_error(source, size as int, index as int, destinations@) == Some(e),
        },
{
    if source.address == 0 || source.bytes < size {
        return Err(Error::GateInput);
    }
    let start: usize = source.address;
    let end: usize = match start.checked_add(size) {
        None => {
            return Err(Error::GateInputExtent);
        },
        Some(end) => end,
    };
    let mut slot: usize = 0;
    while slot < 3
        invariant
            slot <= 3,
            start == source.address,
            end == start + size,
            source.address != 0,
            source.bytes >= size,
            slot_error(start as int, size as int, index as int, destinations@, slot as int) is None,
        decreases 3 - slot,
    {
        proof {
            if slot_error(
                start as int,
                size as int,
                index as int,
                destinations@,
                slot + 1,
            ) is Some {
                lemma_slot_stays(
                    start as int,
                    size as int,
                    index as int,
                    destinations@,
                    slot + 1,
                    3,
                );
            }
        }
        let to = destinations[slot];
        let to_end: usize = match to.address.checked_add(to.bytes) {
            None => {
                return Err(Error::GateDestination);
            },
            Some(end) => end,
        };
        if !((slot == index && start == to.address) || end <= to.address || start >= to_end) {
            return Err(Error::GateOverlap);
        }
        slot = slot + 1;
    }
    Ok(())
}

impl EngramGate {
    pub open spec fn inv(&self) -> bool {
        &&& self.layer_index < 2
        &&& 1 <= self.capacity <= 4096
        &&& self.ready_rows matches Some(rows) ==> 1 <= rows <= self.capacity
    }

    pub open spec fn same_storage(&self, before: &Self) -> bool {
        &&& self.layer_index == before.layer_index
        &&& self.residual == before.residual
        &&& self.embeddings == before.embeddings
        &&& self.text_mask == before.text_mask
        &&& self.output == before.output
        &&& self.capacity == before.capacity
    }

    pub fn layer(&self) -> (r: usize)
        requires
            self.inv(),
        ensures
            r == gate_layer(self.layer_index as int),
    {
        if self.layer_index == 0 {
            1
        } else {
            14
        }
    }

    pub fn device_bytes(capacity: usize, scratch: usize) -> (r: Result<usize, Error>)
        ensures
            source_cache::same_count(r, gate_bytes(capacity as int, scratch as int)),
    {
        if capacity < 1 || capacity > 4096 {
            return Err(Error::GateCapacity);
        }
        proof {
            reveal_with_fuel(budget::total, 3);
        }
        let parts: [usize; 2] = [scratch, 4];
        sum(capacity * GATE_ROW_BYTES, parts.as_slice(), Error::GateOverflow)
    }

    /// Checks a gate of `capacity` rows against `budget` bytes.
    pub fn check_setup(capacity: usize, scratch: usize, budget: usize) -> (r: Result<usize, Error>)
        ensures
            match gate_bytes(capacity as int, scratch as int) {
                Err(e) => r == Err::<usize, Error>(e),
                Ok(bytes) => r == if bytes > budget {
                    Err::<usize, Error>(Error::GateBudget)
                } else {
                    Ok::<usize, Error>(bytes as usize)
                },
            },
    {
        match Self::device_bytes(capacity, scratch) {
            Err(e) => Err(e),
            Ok(bytes) => if bytes > budget {
                Err(Error::GateBudget)
            } else {
                Ok(bytes)
            },
        }
    }

    /// The gating of a layer over its buffers, within `budget` bytes. Nothing is
    /// published.
    pub fn new(
        weights: EngramLayerWeights,
        capacity: usize,
        scratch: usize,
        budget: usize,
        residual: DeviceBuffer,
        embeddings: DeviceBuffer,
        text_mask: DeviceBuffer,
        output: DeviceBuffer,
    ) -> (r: Result<Self, Error>)
        requires
            weights.layer_index < 2,
        ensures
            match gate_bytes(capacity as int, scratch as int) {
                Err(e) => r == Err::<Self, Error>(e),
                Ok(bytes) => if bytes > budget {
                    r == Err::<Self, Error>(Error::GateBudget)
                } else {
                    &&& r matches Ok(gate) && {
                        &&& gate.inv()
                        &&& gate == (EngramGate {
                            layer_index: weights.layer_index,
                            residual,
                            embeddings,
                            text_mask,
                            output,
                            capacity,
                            graph: None,
                            ready_rows: None,
                        })
                    }
                },
            },
    {
        match Self::check_setup(capacity, scratch, budget) {
            Err(e) => Err(e),
            Ok(_) => Ok(
                EngramGate {
                    layer_index: weights.layer_index,
                    residual,
                    embeddings,
                    text_mask,
                    output,
                    capacity,
                    graph: None,
                    ready_rows: None,
                },
            ),
        }
    }

    pub fn inputs(&self) -> (r: [DeviceBuffer; 3])
        ensures
            r@ == seq![self.residual, self.embeddings, self.text_mask],
    {
        [self.residual, self.embeddings, self.text_mask]
    }

    /// Why the inputs cannot be staged: all views and all hazards between the
    /// copies are looked at before any copy starts.
    pub open spec fn input_error(&self, residual: DeviceBuffer, gathered: EngramDeviceView) -> Option<
        Error,
    > {
        let rows = gathered.rows as int;
        let to = seq![self.residual, self.embeddings, self.text_mask];
        if gathered.layer_index != self.layer_index {
            Some(Error::GateLayer)
        } else if !(1 <= rows <= self.capacity) {
            Some(Error::GateRows)
        } else if source_error(residual, rows * 40960, 0, to) is Some {
            source_error(residual, rows * 40960, 0, to)
        } else if source_error(gathered.embeddings, rows * 12288, 1, to) is Some {
            source_error(gathered.embeddings, rows * 12288, 1, to)
        } else {
            source_error(gathered.text_mask, rows, 2, to)
        }
    }

    /// The copies of those inputs that are not in place yet.
    pub open spec fn copies_of(&self, residual: DeviceBuffer, gathered: EngramDeviceView) -> Seq<
        DeviceCopy,
    > {
        let rows = gathered.rows as int;
        Self::copy_of(residual, self.residual, rows * 40960) + Self::copy_of(
            gathered.embeddings,
            self.embeddings,
            rows * 12288,
        ) + Self::copy_of(gathered.text_mask, self.text_mask, rows)
    }

    pub open spec fn copy_of(source: DeviceBuffer, to: DeviceBuffer, bytes: int) -> Seq<DeviceCopy> {
        if source.address == to.address {
            Seq::empty()
        } else {
            seq![
                DeviceCopy { source: block::cut(source, bytes), destination: block::cut(to, bytes) },
            ]
        }
    }

    pub fn stage_inputs(&self, residual: DeviceBuffer, gathered: EngramDeviceView) -> (r: Result<
        Vec<DeviceCopy>,
        Error,
    >)
        requires
            self.inv(),
        ensures
            match r {
                Err(e) => self.input_error(residual, gathered) == Some(e),
                Ok(copies) => {
                    &&& self.input_error(residual, gathered) is None
                    &&& copies@ == self.copies_of(residual, gathered)
                },
            },
    {
        if gathered.layer_index != self.layer_index {
            return Err(Error::GateLayer);
        }
        let rows: usize = gathered.rows;
        if rows < 1 || rows > self.capacity {
            return Err(Error::GateRows);
        }
        let to: [DeviceBuffer; 3] = self.inputs();
        match check_source(residual, rows * RESIDUAL_BYTES, 0, &to) {
            Err(e) => {
                return Err(e);
            },
            Ok(_) => {},
        }
        match check_source(gathered.embeddings, rows * EMBEDDING_BYTES, 1, &to) {
            Err(e) => {
                return Err(e);
            },
            Ok(_) => {},
        }
        match check_source(gathered.text_mask, rows, 2, &to) {
            Err(e) => {
                return Err(e);
            },
            Ok(_) => {},
        }
        let mut copies: Vec<DeviceCopy> = Vec::new();
        if residual.address != self.residual.address {
            copies.push(
                DeviceCopy {
                    source: residual.prefix(rows * RESIDUAL_BYTES),
                    destination: self.residual.prefix(rows * RESIDUAL_BYTES),
                },
            );
        }
        if gathered.embeddings.address != self.embeddings.address {
            copies.push(
                DeviceCopy {
                    source: gathered.embeddings.prefix(rows * EMBEDDING_BYTES),
                    destination: self.embeddings.prefix(rows * EMBEDDING_BYTES),
                },
            );
        }
        if gathered.text_mask.address != self.text_mask.address {
            copies.push(
                DeviceCopy {
                    source: gathered.text_mask.prefix(rows),
                    destination: self.text_mask.prefix(rows),
                },
            );
        }
        assert(copies@ =~= self.copies_of(residual, gathered));
        Ok(copies)
    }

    /// Runs gating plainly; `work` is how the device work went.
    pub fn execute(
        &mut self,
        residual: DeviceBuffer,
        gathered: EngramDeviceView,
        work: Result<(), Error>,
    ) -> (r: Result<DeviceBuffer, Error>)
        requires
            old(self).inv(),
        ensures
            final(self).inv(),
            final(self).same_storage(old(self)),
            final(self).graph == old(self).graph,
            match r {
                Err(e) => {
                    &&& final(self).ready_rows is None
                    &&& match old(self).input_error(residual, gathered) {
                        Some(reason) => e == reason,
                        None => work == Err::<(), Error>(e),
                    }
                },
                Ok(output) => {
                    &&& old(self).input_error(residual, gathered) is None
                    &&& work is Ok
                    &&& final(self).ready_rows == Some(gathered.rows)
                    &&& output == block::cut(old(self).output, gathered.rows * RESIDUAL_BYTES)
                },
            },
    {
        self.ready_rows = None;
        match self.stage_inputs(residual, gathered) {
            Err(e) => {
                return Err(e);
            },
            Ok(_) => {},
        }
        match work {
            Err(e) => {
                return Err(e);
            },
            Ok(_) => {},
        }
        self.ready_rows = Some(gathered.rows);
        self.output()
    }

    /// The captured execution has to be made anew for `rows` rows.
    pub open spec fn is_cold(&self, rows: usize) -> bool {
        match self.graph {
            None => true,
            Some(graph) => graph.rows != rows,
        }
    }

    pub fn cold(&self, rows: usize) -> (r: bool)
        ensures
            r == self.is_cold(rows),
    {
        match self.graph {
            None => true,
            Some(graph) => graph.rows != rows,
        }
    }

    /// Runs the warm-up of a capture; there must be no captured execution yet.
    pub fn capture(
        &mut self,
        residual: DeviceBuffer,
        gathered: EngramDeviceView,
        work: Result<(), Error>,
    ) -> (r: Result<(), Error>)
        requires
            old(self).inv(),
        ensures
            final(self).inv(),
            final(self).same_storage(old(self)),
            final(self).graph == old(self).graph,
            match r {
                Err(e) => if old(self).graph is Some {
                    e == Error::GateCaptured && *final(self) == *old(self)
                } else {
                    &&& final(self).ready_rows is None
                    &&& match old(self).input_error(residual, gathered) {
                        Some(reason) => e == reason,
                        None => work == Err::<(), Error>(e),
                    }
                },
                Ok(_) => {
                    &&& old(self).graph is None
                    &&& old(self).input_error(residual, gathered) is None
                    &&& work is Ok
                    &&& final(self).ready_rows == Some(gathered.rows)
                },
            },
    {
        if self.graph.is_some() {
            return Err(Error::GateCaptured);
        }
        match self.execute(residual, gathered, work) {
            Err(e) => Err(e),
            Ok(_) => Ok(()),
        }
    }

    /// Ends a capture of `rows` rows. Returns the graph to destroy, if any.
    pub fn capture_ready(
        &mut self,
        rows: usize,
        launched: Result<(), Error>,
        ended: Result<u64, Error>,
    ) -> (r: (Result<(), Error>, Option<u64>))
        requires
            old(self).inv(),
        ensures
            final(self).inv(),
            final(self).same_storage(old(self)),
            final(self).ready_rows is None,
            match (launched, ended) {
                (Ok(_), Ok(handle)) => {
                    &&& r.0 is Ok
                    &&& r.1 is None
                    &&& final(self).graph == Some(GateGraph { handle, rows })
                },
                (Err(e), Ok(handle)) => {
                    &&& r.0 == Err::<(), Error>(e)
                    &&& r.1 == Some(handle)
                    &&& final(self).graph == old(self).graph
                },
                (Err(e), Err(_)) => {
                    &&& r.0 == Err::<(), Error>(e)
                    &&& r.1 is None
                    &&& final(self).graph == old(self).graph
                },
                (Ok(_), Err(e)) => {
                    &&& r.0 == Err::<(), Error>(e)
                    &&& r.1 is None
                    &&& final(self).graph == old(self).graph
                },
            },
    {
        self.ready_rows = None;
        match captured(launched, ended) {
            CaptureStep::Keep { graph } => {
                self.graph = Some(GateGraph { handle: graph, rows });
                (Ok(()), None)
            },
            CaptureStep::Discard { graph, reason } => (Err(reason), Some(graph)),
            CaptureStep::Fail { reason } => (Err(reason), None),
        }
    }

    /// Why the captured execution cannot be replayed.
    pub open spec fn replay_error(&self, residual: DeviceBuffer, gathered: EngramDeviceView) -> Option<
        Error,
    > {
        match self.graph {
            None => Some(Error::GateGraphMissing),
            Some(graph) => if graph.rows != gathered.rows {
                Some(Error::GateGraphRows)
            } else {
                self.input_error(residual, gathered)
            },
        }
    }

    /// Runs gating by its captured execution; `work` is how the launch went.
    pub fn replay(
        &mut self,
        residual: DeviceBuffer,
        gathered: EngramDeviceView,
        work: Result<(), Error>,
    ) -> (r: Result<DeviceBuffer, Error>)
        requires
            old(self).inv(),
        ensures
            final(self).inv(),
            final(self).same_storage(old(self)),
            final(self).graph == old(self).graph,
            match r {
                Err(e) => {
                    &&& final(self).ready_rows is None
                    &&& match old(self).replay_error(residual, gathered) {
                        Some(reason) => e == reason,
                        None => work == Err::<(), Error>(e),
                    }
                },
                Ok(output) => {
                    &&& old(self).replay_error(residual, gathered) is None
                    &&& work is Ok
                    &&& final(self).ready_rows == Some(gathered.rows)
                    &&& output == block::cut(old(self).output, gathered.rows * RESIDUAL_BYTES)
                },
            },
    {
        self.ready_rows = None;
        match self.graph {
            None => {
                return Err(Error::GateGraphMissing);
            },
            Some(graph) => {
                if graph.rows != gathered.rows {
                    return Err(Error::GateGraphRows);
                }
            },
        }
        self.execute(residual, gathered, work)
    }

    /// Forgets the captured execution, once the stream is drained; returns the
    /// graph to destroy.
    pub fn clear_graph(&mut self, drained: bool) -> (r: Result<Option<u64>, Error>)
        requires
            old(self).inv(),
        ensures
            final(self).inv(),
            final(self).same_storage(old(self)),
            final(self).ready_rows is None,
            if drained {
                &&& final(self).graph is None
                &&& r == Ok::<Option<u64>, Error>(
                    match old(self).graph {
                        Some(graph) => Some(graph.handle),
                        None => None,
                    },
                )
            } else {
                &&& final(self).graph == old(self).graph
                &&& r == Err::<Option<u64>, Error>(Error::StreamBusy)
            },
    {
        self.ready_rows = None;
        if !drained {
            return Err(Error::StreamBusy);
        }
        let handle: Option<u64> = match self.graph {
            Some(graph) => Some(graph.handle),
            None => None,
        };
        self.graph = None;
        Ok(handle)
    }

    pub fn output(&self) -> (r: Result<DeviceBuffer, Error>)
        requires
            self.inv(),
        ensures
            r == match self.ready_rows {
                None => Err::<DeviceBuffer, Error>(Error::GateIncomplete),
                Some(rows) => Ok::<DeviceBuffer, Error>(
                    block::cut(self.output, rows * RESIDUAL_BYTES),
                ),
            },
    {
        match self.ready_rows {
            None => Err(Error::GateIncomplete),
            Some(rows) => Ok(self.output.prefix(rows * RESIDUAL_BYTES)),
        }
    }
}

/// Staged inputs never overwrite each other: a source that is copied into one
/// input does not lie in another gating input.
pub proof fn law_staging_is_free_of_hazards(
    gate: &EngramGate,
    residual: DeviceBuffer,
    gathered: EngramDeviceView,
)
    requires
        gate.inv(),
        gate.input_error(residual, gathered) is None,
    ensures
        residual.address + gathered.rows * 40960 <= gate.embeddings.address || residual.address
            >= gate.embeddings.address + gate.embeddings.bytes,
        residual.address + gathered.rows * 40960 <= gate.text_mask.address || residual.address
            >= gate.text_mask.address + gate.text_mask.bytes,
        gathered.embeddings.address + gathered.rows * 12288 <= gate.residual.address
            || gathered.embeddings.address >= gate.residual.address + gate.residual.bytes,
        gathered.embeddings.address + gathered.rows * 12288 <= gate.text_mask.address
            || gathered.embeddings.address >= gate.text_mask.address + gate.text_mask.bytes,
        gathered.text_mask.address + gathered.rows <= gate.residual.address
            || gathered.text_mask.address >= gate.residual.address + gate.residual.bytes,
        gathered.text_mask.address + gathered.rows <= gate.embeddings.address
            || gathered.text_mask.address >= gate.embeddings.address + gate.embeddings.bytes,
{
    reveal_with_fuel(slot_error, 4);
}

/// The three inputs do not overlap, and source and input of each lie on one device.
pub open spec fn inputs_apart(
    gate: &EngramGate,
    residual: DeviceBuffer,
    gathered: EngramDeviceView,
) -> bool {
    &&& gate.residual.disjoint(gate.embeddings)
    &&& gate.residual.disjoint(gate.text_mask)
    &&& gate.embeddings.disjoint(gate.text_mask)
    &&& residual.device == gate.residual.device
    &&& gathered.embeddings.device == gate.residual.device
    &&& gathered.text_mask.device == gate.residual.device
    &&& gate.embeddings.device == gate.residual.device
    &&& gate.text_mask.device == gate.residual.device
    &&& gathered.rows * 40960 <= gate.residual.bytes
    &&& gathered.rows * 12288 <= gate.embeddings.bytes
    &&& gathered.rows <= gate.text_mask.bytes
}

/// Byte `b` of `to` holds what byte `b` of `from` held.
spec fn took(
    memory: spec_fn(i32, int) -> u8,
    after: spec_fn(i32, int) -> u8,
    from: DeviceBuffer,
    to: DeviceBuffer,
    b: int,
) -> bool {
    after(to.device, to.address + b) == memory(from.device, from.address + b)
}

proof fn lemma_took(
    memory: spec_fn(i32, int) -> u8,
    copies: Seq<DeviceCopy>,
    from: DeviceBuffer,
    to: DeviceBuffer,
    bytes: int,
    b: int,
)
    requires
        0 <= b < bytes <= to.bytes,
        bytes <= from.bytes,
        from.device == to.device,
        forall|k: int|
            0 <= k < copies.len() ==> {
                let copy = #[trigger] copies[k];
                ||| copy.destination == block::cut(to, bytes) && copy.source == block::cut(
                    from,
                    bytes,
                )
                ||| copy.destination.disjoint(to) && copy.destination.disjoint(
                    block::cut(from, bytes),
                )
            },
        from.address == to.address || block::cut(from, bytes).disjoint(to),
        from.address != to.address ==> exists|k: int|
            0 <= k < copies.len() && (#[trigger] copies[k]).destination == block::cut(to, bytes)
                && copies[k].source == block::cut(from, bytes),
    ensures
        took(memory, device_memory::run(memory, copies), from, to, b),
{
    let part = block::cut(from, bytes);
    if from.address == to.address {
        assert(forall|k: int|
            0 <= k < copies.len() ==> device_memory::takes_from(
                #[trigger] copies[k],
                to.device,
                to.address + b,
                (from.device, from.address + b),
            ));
        lemma_in_place(memory, copies, to.device, to.address + b);
    } else {
        let k = choose|k: int|
            0 <= k < copies.len() && (#[trigger] copies[k]).destination == block::cut(to, bytes)
                && copies[k].source == block::cut(from, bytes);
        device_memory::lemma_copied(
            memory,
            copies,
            k,
            to.device,
            to.address + b,
            (from.device, from.address + b),
        );
    }
}

/// A byte that is only ever copied onto itself keeps its value.
proof fn lemma_in_place(
    memory: spec_fn(i32, int) -> u8,
    copies: Seq<DeviceCopy>,
    device: i32,
    address: int,
)
    requires
        forall|k: int|
            0 <= k < copies.len() ==> device_memory::takes_from(
                #[trigger] copies[k],
                device,
                address,
                (device, address),
            ),
    ensures
        device_memory::run(memory, copies)(device, address) == memory(device, address),
    decreases copies.len(),
{
    if copies.len() > 0 {
        let init = copies.drop_last();
        assert forall|k: int| 0 <= k < init.len() implies device_memory::takes_from(
            #[trigger] init[k],
            device,
            address,
            (device, address),
        ) by {
            assert(init[k] == copies[k]);
        }
        assert(device_memory::takes_from(
            copies[copies.len() - 1],
            device,
            address,
            (device, address),
        ));
        lemma_in_place(memory, init, device, address);
    }
}

/// Once staged, the gating inputs hold the rows that gating is for, byte for byte:
/// 40960 bytes of residual, 12288 of embeddings and one of mask for every row, whether
/// or not they were in place before.
pub proof fn law_staged_inputs_hold_their_sources(
    gate: &EngramGate,
    residual: DeviceBuffer,
    gathered: EngramDeviceView,
    memory: spec_fn(i32, int) -> u8,
    b: int,
)
    requires
        gate.inv(),
        gate.input_error(residual, gathered) is None,
        inputs_apart(gate, residual, gathered),
        0 <= b,
    ensures
        ({
            let after = device_memory::run(memory, gate.copies_of(residual, gathered));
            &&& b < gathered.rows * 40960 ==> after(
                gate.residual.device,
                gate.residual.address + b,
            ) == memory(residual.device, residual.address + b)
            &&& b < gathered.rows * 12288 ==> after(
                gate.embeddings.device,
                gate.embeddings.address + b,
            ) == memory(gathered.embeddings.device, gathered.embeddings.address + b)
            &&& b < gathered.rows ==> after(gate.text_mask.device, gate.text_mask.address + b)
                == memory(gathered.text_mask.device, gathered.text_mask.address + b)
        }),
{
    reveal_with_fuel(slot_error, 4);
    let rows = gathered.rows as int;
    let copies = gate.copies_of(residual, gathered);
    let first = EngramGate::copy_of(residual, gate.residual, rows * 40960);
    let second = EngramGate::copy_of(gathered.embeddings, gate.embeddings, rows * 12288);
    let third = EngramGate::copy_of(gathered.text_mask, gate.text_mask, rows);
    assert(copies == first + second + third);
    if first.len() > 0 {
        assert(copies[0] == first[0]);
    }
    if second.len() > 0 {
        assert(copies[first.len() as int] == second[0]);
    }
    if third.len() > 0 {
        assert(copies[(first.len() + second.len()) as int] == third[0]);
    }
    if b < rows * 40960 {
        lemma_took(memory, copies, residual, gate.residual, rows * 40960, b);
    }
    if b < rows * 12288 {
        lemma_took(memory, copies, gathered.embeddings, gate.embeddings, rows * 12288, b);
    }
    if b < rows {
        lemma_took(memory, copies, gathered.text_mask, gate.text_mask, rows, b);
    }
}

/// There is a gate for every layer that takes an engram, and for no other.
pub proof fn law_gates_are_those_of_the_engram_layers(layer: int)
    ensures
        block::takes_engram(layer) <==> gate_layer(0) == layer || gate_layer(1) == layer,
        gate_layer(0) != gate_layer(1),
{
}

} // verus!
