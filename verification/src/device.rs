//! Plain descriptions of device memory.
use vstd::prelude::*;

verus! {

/// A contiguous run of bytes on one device.
#[derive(Debug, Clone, Copy, PartialEq, Eq, Structural)]
pub struct DeviceBuffer {
    pub device: i32,
    pub address: usize,
    pub bytes: usize,
}

impl DeviceBuffer {
    /// The run ends inside the address space.
    pub open spec fn wf(self) -> bool {
        self.address + self.bytes <= usize::MAX
    }

    /// `bytes` bytes from `offset` on.
    pub open spec fn slice_of(self, offset: int, bytes: int) -> DeviceBuffer {
        DeviceBuffer {
            device: self.device,
            address: (self.address + offset) as usize,
            bytes: bytes as usize,
        }
    }

    pub fn slice(&self, offset: usize, bytes: usize) -> (r: DeviceBuffer)
        requires
            self.wf(),
            offset + bytes <= self.bytes,
        ensures
            r == self.slice_of(offset as int, bytes as int),
            r.wf(),
    {
        DeviceBuffer { device: self.device, address: self.address + offset, bytes }
    }

    /// The first `bytes` bytes.
    pub fn prefix(&self, bytes: usize) -> (r: DeviceBuffer)
        ensures
            r.device == self.device,
            r.address == self.address,
            r.bytes == bytes,
    {
        DeviceBuffer { device: self.device, address: self.address, bytes }
    }

    /// The two runs have no byte in common.
    pub open spec fn disjoint(self, other: DeviceBuffer) -> bool {
        ||| self.device != other.device
        ||| self.address + self.bytes <= other.address
        ||| other.address + other.bytes <= self.address
    }
}

/// One copy between device buffers of equal length.
#[derive(Debug, Clone, Copy, PartialEq, Eq, Structural)]
pub struct DeviceCopy {
    pub destination: DeviceBuffer,
    pub source: DeviceBuffer,
}

} // verus!
