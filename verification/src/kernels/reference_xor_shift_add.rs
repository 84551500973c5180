//! Reference xor-shift-add kernel: `(input[i] ^ (input[i] << shift)) + add`
//! over contiguous `u64` buffers, the addition modulo two to the 64th.
use crate::cpu::CpuFeatures;
use crate::bytes::{u32_at, u64_at};
use crate::kernels::abi::{
    check_xor_shift_add, describe, xor_shift_add_word, KernelContext, KernelPlugin, MAX_SHIFT,
    OPERATION_XOR_SHIFT_ADD, STATUS_OK, TYPE_U64,
};
use crate::kernels::abi::{
    descriptor, xor_shift_add_status, xor_shift_add_value, xor_shift_added,
};
use crate::laws::admission::{announced_kernels_are_admitted, announces};
use crate::plugin::descriptor_fault;
use vstd::prelude::*;

verus! {

/// Scalar reference implementation over as many values as both buffers hold.
pub fn xor_shift_add(input: &[u64], output: &mut [u64], shift: u32, add: u64)
    requires
        shift <= MAX_SHIFT,
    ensures
        final(output)@ == xor_shift_added(input@, old(output)@, shift, add),
{
    let mut index: usize = 0;
    let ghost before = output@;
    while index < input.len() && index < output.len()
        invariant
            index <= input@.len(),
            index <= output@.len(),
            output@.len() == before.len(),
            shift <= MAX_SHIFT,
            forall|i: int|
                0 <= i < index ==> output@[i] == xor_shift_add_value(input@[i], shift, add),
            forall|i: int| index <= i < before.len() ==> output@[i] == before[i],
        decreases input@.len() - index,
    {
        output[index] = xor_shift_add_word(input[index], shift, add);
        index += 1;
    }
    assert(output@ =~= xor_shift_added(input@, before, shift, add));
}

/// One call through the ABI: checks the context and the parameters, then
/// computes. A refused call leaves the output alone.
pub fn run(
    context: Option<&KernelContext>,
    params: &[u8],
    input: &[u64],
    output: &mut [u64],
) -> (status: i32)
    requires
        context matches Some(context) ==> context.shows(
            8,
            input@.len(),
            old(output)@.len(),
            params@,
        ),
    ensures
        status == xor_shift_add_status(
            match context {
                Some(context) => Some(*context),
                None => None,
            },
            params@,
        ),
        status == STATUS_OK ==> final(output)@ == xor_shift_added(
            input@,
            old(output)@,
            u32_at(params@, 0),
            u64_at(params@, 8),
        ),
        status != STATUS_OK ==> final(output)@ == old(output)@,
{
    match check_xor_shift_add(context, params) {
        Err(status) => status,
        Ok((shift, add)) => {
            xor_shift_add(input, output, shift, add);
            STATUS_OK
        },
    }
}

/// With a shift of zero the xor cancels and every value becomes `add`.
pub proof fn shift_zero_cancels(value: u64, add: u64)
    ensures
        xor_shift_add_value(value, 0, add) == add,
{
    assert(value ^ (value << 0u32) == 0) by (bit_vector);
}

/// What the kernel announces.
pub fn hologram_kernel_plugin_v3() -> (plugin: KernelPlugin)
    ensures
        plugin == descriptor(TYPE_U64, OPERATION_XOR_SHIFT_ADD, 8, 0),
        announces(plugin, 2, 3, 8, false, false),
        forall|host: CpuFeatures|
            #[trigger] descriptor_fault(plugin, host) is None,
{
    let plugin = describe(TYPE_U64, OPERATION_XOR_SHIFT_ADD, 8, 0);
    proof {
        assert forall|host: CpuFeatures|
            #[trigger] descriptor_fault(plugin, host) is None by {
            announced_kernels_are_admitted(plugin, 2, 3, 8, false, false, host);
        }
    }
    plugin
}

} // verus!
