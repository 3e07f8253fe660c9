//! What copies do to the bytes of the devices.
use crate::device::{DeviceBuffer, DeviceCopy};
use vstd::prelude::*;

verus! {

/// The byte at `address` of `device` lies in `buffer`.
pub open spec fn covers(buffer: DeviceBuffer, device: i32, address: int) -> bool {
    device == buffer.device && buffer.address <= address < buffer.address + buffer.bytes
}

/// The bytes of all devices after one copy.
pub open spec fn copied(memory: spec_fn(i32, int) -> u8, copy: DeviceCopy) -> spec_fn(
    i32,
    int,
) -> u8 {
    |device: i32, address: int|
        if covers(copy.destination, device, address) {
            memory(copy.source.device, copy.source.address + (address - copy.destination.address))
        } else {
            memory(device, address)
        }
}

/// The bytes of all devices after `copies`, one after the other.
pub open spec fn run(memory: spec_fn(i32, int) -> u8, copies: Seq<DeviceCopy>) -> spec_fn(
    i32,
    int,
) -> u8
    decreases copies.len(),
{
    if copies.len() == 0 {
        memory
    } else {
        copied(run(memory, copies.drop_last()), copies.last())
    }
}

/// No copy writes the byte.
pub open spec fn spared(copies: Seq<DeviceCopy>, device: i32, address: int) -> bool {
    forall|k: int|
        0 <= k < copies.len() ==> !covers((#[trigger] copies[k]).destination, device, address)
}

pub proof fn lemma_spared(
    memory: spec_fn(i32, int) -> u8,
    copies: Seq<DeviceCopy>,
    device: i32,
    address: int,
)
    requires
        spared(copies, device, address),
    ensures
        run(memory, copies)(device, address) == memory(device, address),
    decreases copies.len(),
{
    if copies.len() > 0 {
        assert forall|k: int| 0 <= k < copies.drop_last().len() implies !covers(
            (#[trigger] copies.drop_last()[k]).destination,
            device,
            address,
        ) by {
            assert(copies.drop_last()[k] == copies[k]);
        }
        assert(!covers(copies[copies.len() - 1].destination, device, address));
        lemma_spared(memory, copies.drop_last(), device, address);
    }
}

/// A copy that writes the byte takes it from `from`, if it writes it.
pub open spec fn takes_from(
    copy: DeviceCopy,
    device: i32,
    address: int,
    from: (i32, int),
) -> bool {
    covers(copy.destination, device, address) ==> copy.source.device == from.0
        && copy.source.address + (address - copy.destination.address) == from.1
}

/// A byte that some copies write, all of them from one byte that none writes, ends up
/// with what that byte held.
pub proof fn lemma_copied(
    memory: spec_fn(i32, int) -> u8,
    copies: Seq<DeviceCopy>,
    k: int,
    device: i32,
    address: int,
    from: (i32, int),
)
    requires
        0 <= k < copies.len(),
        covers(copies[k].destination, device, address),
        forall|j: int|
            0 <= j < copies.len() ==> takes_from(#[trigger] copies[j], device, address, from),
        spared(copies, from.0, from.1),
    ensures
        run(memory, copies)(device, address) == memory(from.0, from.1),
    decreases copies.len(),
{
    let init = copies.drop_last();
    let last = copies[copies.len() - 1];
    assert(forall|j: int| 0 <= j < init.len() ==> #[trigger] init[j] == copies[j]);
    assert(spared(init, from.0, from.1));
    if covers(last.destination, device, address) {
        assert(takes_from(last, device, address, from));
        lemma_spared(memory, init, from.0, from.1);
    } else {
        assert(k < init.len());
        assert forall|j: int| 0 <= j < init.len() implies takes_from(
            #[trigger] init[j],
            device,
            address,
            from,
        ) by {
            assert(takes_from(copies[j], device, address, from));
        }
        lemma_copied(memory, init, k, device, address, from);
    }
}

} // verus!
