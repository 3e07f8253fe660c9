//! Moves a completed layer's state into the next device's workspace.
use crate::block;
use crate::block::{copy_tokens, needs_engram, BackboneBlockWave, BlockOutput, BlockPhase};
use crate::device::{DeviceBuffer, DeviceCopy};
use crate::error::Error;
use vstd::prelude::*;

verus! {

/// One directed transfer between two devices. Both copies land in the
/// destination block's inputs; there is no buffer in between.
#[derive(Debug, Clone, Copy, PartialEq, Eq, Structural)]
pub struct BlockTransfer {
    pub source: i32,
    pub destination: i32,
}

impl BlockTransfer {
    /// A transfer from `source` to `destination`, once they may read each other.
    pub fn new(source: i32, destination: i32) -> (r: Result<Self, Error>)
        ensures
            r == if source == destination {
                Err::<Self, Error>(Error::TransferDevices)
            } else {
                Ok::<Self, Error>(BlockTransfer { source, destination })
            },
    {
        if source == destination {
            Err(Error::TransferDevices)
        } else {
            Ok(BlockTransfer { source, destination })
        }
    }

    /// The copy runs from the source device and fits.
    pub open spec fn carries(self, source: DeviceBuffer, destination: DeviceBuffer) -> bool {
        source.device == self.source && destination.device == self.destination && source.bytes
            <= destination.bytes
    }

    /// The two copies of one transfer.
    pub fn copy(&self, sources: [DeviceBuffer; 2], destinations: [DeviceBuffer; 2]) -> (r: Result<
        [DeviceCopy; 2],
        Error,
    >)
        ensures
            match r {
                Err(e) => e == Error::TransferExtent && !(self.carries(sources@[0], destinations@[0])
                    && self.carries(sources@[1], destinations@[1])),
                Ok(copies) => {
                    &&& self.carries(sources@[0], destinations@[0])
                    &&& self.carries(sources@[1], destinations@[1])
                    &&& copies@ == seq![
                        DeviceCopy {
                            source: sources@[0],
                            destination: block::cut(destinations@[0], sources@[0].bytes as int),
                        },
                        DeviceCopy {
                            source: sources@[1],
                            destination: block::cut(destinations@[1], sources@[1].bytes as int),
                        },
                    ]
                },
            },
    {
        let fits: bool = sources[0].device == self.source && destinations[0].device
            == self.destination && sources[0].bytes <= destinations[0].bytes && sources[1].device
            == self.source && destinations[1].device == self.destination && sources[1].bytes
            <= destinations[1].bytes;
        if !fits {
            return Err(Error::TransferExtent);
        }
        Ok(
            [
                DeviceCopy {
                    source: sources[0],
                    destination: destinations[0].prefix(sources[0].bytes),
                },
                DeviceCopy {
                    source: sources[1],
                    destination: destinations[1].prefix(sources[1].bytes),
                },
            ],
        )
    }
}

impl BackboneBlockWave {
    /// Why `previous` cannot be imported for the weights of `next`.
    pub open spec fn import_error(
        &self,
        next: usize,
        previous: &BlockOutput,
        transfer: BlockTransfer,
    ) -> Option<Error> {
        if !(previous.carries(self.capacity) && next == previous.layer + 1) {
            Some(Error::ImportedBlock)
        } else if self.residual.device != transfer.destination || self.pre.device
            != transfer.destination {
            Some(Error::TransferDestination)
        } else if previous.residual.device != transfer.source || previous.pre.device
            != transfer.source {
            Some(Error::TransferExtent)
        } else {
            None
        }
    }

    /// The copies that bring the previous layer over.
    pub fn import_copies(&self, next: usize, previous: &BlockOutput, transfer: BlockTransfer) -> (r:
        Result<[DeviceCopy; 2], Error>)
        requires
            self.inv(),
        ensures
            match r {
                Err(e) => self.import_error(next, previous, transfer) == Some(e),
                Ok(copies) => {
                    &&& self.import_error(next, previous, transfer) is None
                    &&& copies@ == self.input_copies(previous.residual, previous.pre)
                },
            },
    {
        if !(previous.can_carry(self.capacity) && next == previous.layer + 1) {
            return Err(Error::ImportedBlock);
        }
        if self.residual.device != transfer.destination || self.pre.device != transfer.destination {
            return Err(Error::TransferDestination);
        }
        transfer.copy([previous.residual, previous.pre], [self.residual, self.pre])
    }

    /// Imports a completed adjacent layer of the other device. `work` is how
    /// binding the weights and both copies went; only then is the input published.
    /// Engram layers stay gated as they are on one device.
    pub fn import_previous(
        &mut self,
        next: usize,
        previous: &BlockOutput,
        transfer: BlockTransfer,
        work: Result<(), Error>,
    ) -> (r: Result<(), Error>)
        requires
            old(self).inv(),
        ensures
            final(self).inv(),
            final(self).same_storage(old(self)),
            match r {
                Err(e) => {
                    &&& final(self).idle_like(old(self))
                    &&& final(self).layer == old(self).layer
                    &&& match old(self).import_error(next, previous, transfer) {
                        Some(reason) => e == reason,
                        None => work == Err::<(), Error>(e),
                    }
                },
                Ok(_) => {
                    &&& old(self).import_error(next, previous, transfer) is None
                    &&& work is Ok
                    &&& final(self).layer == next
                    &&& final(self).holds(previous)
                },
            },
    {
        self.reset();
        match self.import_copies(next, previous, transfer) {
            Err(e) => {
                return Err(e);
            },
            Ok(_) => {},
        }
        match work {
            Err(e) => {
                return Err(e);
            },
            Ok(_) => {},
        }
        self.layer = next;
        self.tokens = copy_tokens(previous.tokens);
        self.phase = BlockPhase::Prepared {
            binding: previous.binding,
            rows: previous.tokens.len(),
            ready: !needs_engram(next),
        };
        Ok(())
    }
}

/// A layer that is handed over between devices starts exactly as one that is
/// taken over on the same device.
pub proof fn law_import_equals_local_start(
    here: &BackboneBlockWave,
    there: &BackboneBlockWave,
    previous: &BlockOutput,
)
    requires
        here.layer == there.layer,
        here.holds(previous),
        there.holds(previous),
    ensures
        here.phase == there.phase,
        here.tokens@ == there.tokens@,
{
}

} // verus!
