//! What reaches a block's inputs.
use crate::block;
use crate::block::{BackboneBlockWave, BlockOutput, BlockPhase, FfnInput, PreparedBlockInput};
use crate::device::DeviceBuffer;
use crate::device_memory;
use vstd::prelude::*;

verus! {

/// The block's inputs do not overlap, and neither source overlaps one of them.
pub open spec fn inputs_apart(
    wave: &BackboneBlockWave,
    residual: DeviceBuffer,
    pre: DeviceBuffer,
) -> bool {
    &&& wave.residual.disjoint(wave.pre)
    &&& residual.disjoint(wave.residual) && residual.disjoint(wave.pre)
    &&& pre.disjoint(wave.residual) && pre.disjoint(wave.pre)
}

proof fn lemma_byte_arrives(
    wave: &BackboneBlockWave,
    residual: DeviceBuffer,
    pre: DeviceBuffer,
    memory: spec_fn(i32, int) -> u8,
    b: int,
)
    requires
        inputs_apart(wave, residual, pre),
        residual.bytes <= wave.residual.bytes,
        pre.bytes <= wave.pre.bytes,
        0 <= b,
    ensures
        ({
            let after = device_memory::run(memory, wave.input_copies(residual, pre));
            &&& b < residual.bytes ==> after(wave.residual.device, wave.residual.address + b)
                == memory(residual.device, residual.address + b)
            &&& b < pre.bytes ==> after(wave.pre.device, wave.pre.address + b) == memory(
                pre.device,
                pre.address + b,
            )
        }),
{
    let copies = wave.input_copies(residual, pre);
    assert(copies[0].source == residual && copies[1].source == pre);
    if b < residual.bytes {
        device_memory::lemma_copied(
            memory,
            copies,
            0,
            wave.residual.device,
            wave.residual.address + b,
            (residual.device, residual.address + b),
        );
    }
    if b < pre.bytes {
        device_memory::lemma_copied(
            memory,
            copies,
            1,
            wave.pre.device,
            wave.pre.address + b,
            (pre.device, pre.address + b),
        );
    }
}

/// Byte `b` of the rows of `previous` stands in the block's inputs: 40960 bytes of
/// residual and sixteen of mixing input for every token.
pub open spec fn arrived(
    wave: &BackboneBlockWave,
    previous: &BlockOutput,
    memory: spec_fn(i32, int) -> u8,
    after: spec_fn(i32, int) -> u8,
    b: int,
) -> bool {
    &&& b < 40960 * previous.tokens@.len() ==> after(
        wave.residual.device,
        wave.residual.address + b,
    ) == memory(previous.residual.device, previous.residual.address + b)
    &&& b < 16 * previous.tokens@.len() ==> after(wave.pre.device, wave.pre.address + b) == memory(
        previous.pre.device,
        previous.pre.address + b,
    )
}

/// Taking over the layer below, from this device or from another, brings its rows into
/// the block's inputs, byte for byte.
pub proof fn law_taking_over_fills_the_inputs(
    wave: &BackboneBlockWave,
    previous: &BlockOutput,
    memory: spec_fn(i32, int) -> u8,
    b: int,
)
    requires
        wave.inv(),
        previous.carries(wave.capacity),
        inputs_apart(wave, previous.residual, previous.pre),
        0 <= b,
    ensures
        arrived(
            wave,
            previous,
            memory,
            device_memory::run(memory, wave.input_copies(previous.residual, previous.pre)),
            b,
        ),
{
    lemma_byte_arrives(wave, previous.residual, previous.pre, memory, b);
}

/// Copies to the inputs write nothing but the inputs.
pub proof fn law_taking_over_spares_the_rest(
    wave: &BackboneBlockWave,
    previous: &BlockOutput,
    memory: spec_fn(i32, int) -> u8,
    device: i32,
    address: int,
)
    requires
        wave.inv(),
        previous.carries(wave.capacity),
        !device_memory::covers(wave.residual, device, address),
        !device_memory::covers(wave.pre, device, address),
    ensures
        device_memory::run(memory, wave.input_copies(previous.residual, previous.pre))(
            device,
            address,
        ) == memory(device, address),
{
    device_memory::lemma_spared(
        memory,
        wave.input_copies(previous.residual, previous.pre),
        device,
        address,
    );
}

/// What a finished block publishes can be taken over by a block of the next layer, and
/// handing its output to its own inputs leaves there what it publishes.
pub proof fn law_output_becomes_the_next_input(
    wave: &BackboneBlockWave,
    output: BlockOutput,
    memory: spec_fn(i32, int) -> u8,
    b: int,
)
    requires
        wave.inv(),
        wave.is_output(output),
        wave.layer < 39,
        output.binding.layer == wave.layer,
        block::in_context(output.tokens@),
        inputs_apart(wave, output.residual, output.pre),
        0 <= b,
    ensures
        output.carries(wave.capacity),
        output.tokens@ == wave.tokens@,
        output.layer == wave.layer,
        wave.phase matches BlockPhase::Ready { rows, .. } && arrived(
            wave,
            &output,
            memory,
            device_memory::run(memory, wave.next_copies(rows as int)),
            b,
        ),
{
    lemma_byte_arrives(wave, output.residual, output.pre, memory, b);
}

/// A block hands on what it took over: its input has the tokens and the query of the
/// layer below and all of its bytes, and layers with an engram hand on nothing before it
/// is applied.
pub proof fn law_block_hands_on_what_it_took(
    wave: &BackboneBlockWave,
    previous: &BlockOutput,
    input: PreparedBlockInput,
)
    requires
        wave.inv(),
        previous.carries(wave.capacity),
        wave.holds(previous),
        wave.is_input(input),
    ensures
        input.tokens@ == previous.tokens@,
        input.previous == previous.binding,
        input.layer == wave.layer,
        input.residual.address == wave.residual.address && input.residual.device
            == wave.residual.device,
        input.residual.bytes == previous.residual.bytes,
        input.pre.address == wave.pre.address && input.pre.device == wave.pre.device,
        input.pre.bytes == previous.pre.bytes,
        wave.layer != 1 && wave.layer != 14,
{
}

/// The feed-forward half goes to the experts with every token of the block: a router of
/// the block's layer takes it as soon as its values have one row per token.
pub proof fn law_ffn_input_has_every_token(
    wave: &BackboneBlockWave,
    values: DeviceBuffer,
    input: FfnInput,
)
    requires
        wave.inv(),
        wave.is_ffn_input(values, input),
        input.binding.layer == wave.layer,
    ensures
        input.tokens@ == wave.tokens@,
        input.residual.bytes == 40960 * wave.tokens@.len(),
        input.incoming_pre.bytes == 16 * wave.tokens@.len(),
        input.residual.address == wave.ffn_residual.address,
        input.incoming_pre.address == wave.ffn_pre.address,
        input.suits(wave.layer, wave.capacity as u32, values.device) <==> values.bytes == 10240
            * wave.tokens@.len(),
{
}

} // verus!
