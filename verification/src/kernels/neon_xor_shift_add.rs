//! Xor-shift-add kernel in blocks of eight values, with a scalar tail.
use crate::cpu::CpuFeatures;
use crate::bytes::{u32_at, u64_at};
use crate::kernels::abi::{
    check_xor_shift_add, describe, xor_shift_add_word, KernelContext, KernelPlugin, CPU_NEON,
    MAX_SHIFT, OPERATION_XOR_SHIFT_ADD, STATUS_OK, TYPE_U64,
};
use crate::kernels::abi::{
    descriptor, xor_shift_add_status, xor_shift_add_value, xor_shift_added,
};
use crate::laws::admission::{announced_kernels_are_admitted, announces};
use crate::plugin::descriptor_fault;
use vstd::prelude::*;

verus! {

/// From `start` to `end`, `after` holds what the kernel makes of `input`;
/// elsewhere it is `before`.
spec fn filled(
    input: Seq<u64>,
    before: Seq<u64>,
    after: Seq<u64>,
    start: int,
    end: int,
    shift: u32,
    add: u64,
) -> bool {
    &&& after.len() == before.len()
    &&& forall|i: int|
        start <= i < end ==> #[trigger] after[i] == xor_shift_add_value(input[i], shift, add)
    &&& forall|i: int|
        0 <= i < before.len() && !(start <= i < end) ==> #[trigger] after[i] == before[i]
}

/// The values from `start` to `end`.
fn fill(input: &[u64], output: &mut [u64], start: usize, end: usize, shift: u32, add: u64)
    requires
        shift <= MAX_SHIFT,
        start <= end <= input@.len(),
        end <= old(output)@.len(),
    ensures
        filled(
            input@,
            old(output)@,
            final(output)@,
            start as int,
            end as int,
            shift,
            add,
        ),
{
    let ghost before = output@;
    let mut index: usize = start;
    while index < end
        invariant
            shift <= MAX_SHIFT,
            start <= index <= end <= input@.len(),
            end <= output@.len(),
            filled(input@, before, output@, start as int, index as int, shift, add),
        decreases end - index,
    {
        output[index] = xor_shift_add_word(input[index], shift, add);
        index += 1;
    }
}

/// Scalar pass over as many values as both buffers hold.
pub fn xor_shift_add_scalar(input: &[u64], output: &mut [u64], shift: u32, add: u64)
    requires
        shift <= MAX_SHIFT,
    ensures
        final(output)@ == xor_shift_added(input@, old(output)@, shift, add),
{
    let end: usize = if input.len() < output.len() {
        input.len()
    } else {
        output.len()
    };
    let ghost before = output@;
    fill(input, output, 0, end, shift, add);
    assert(output@ =~= xor_shift_added(input@, before, shift, add));
}

/// The same values as the scalar pass: whole blocks of eight, two values at a
/// time, then the tail.
pub fn xor_shift_add(input: &[u64], output: &mut [u64], shift: u32, add: u64)
    requires
        shift <= MAX_SHIFT,
    ensures
        final(output)@ == xor_shift_added(input@, old(output)@, shift, add),
{
    let end: usize = if input.len() < output.len() {
        input.len()
    } else {
        output.len()
    };
    let ghost before = output@;
    let vectorized: usize = end / 8 * 8;
    let mut offset: usize = 0;
    while offset < vectorized
        invariant
            shift <= MAX_SHIFT,
            offset <= vectorized <= input@.len(),
            vectorized <= output@.len(),
            vectorized % 8 == 0,
            offset % 8 == 0,
            filled(input@, before, output@, 0, offset as int, shift, add),
        decreases vectorized - offset,
    {
        fill(input, output, offset, offset + 2, shift, add);
        fill(input, output, offset + 2, offset + 4, shift, add);
        fill(input, output, offset + 4, offset + 6, shift, add);
        fill(input, output, offset + 6, offset + 8, shift, add);
        offset += 8;
    }
    fill(input, output, offset, end, shift, add);
    assert(output@ =~= xor_shift_added(input@, before, shift, add));
}

/// One call through the ABI: checks the context and the parameters, then
/// computes. A refused call leaves the output alone.
pub fn run(
    context: Option<&KernelContext>,
    params: &[u8],
    input: &[u64],
    output: &mut [u64],
) -> (status: i32)
    requires
        context matches Some(context) ==> context.shows(
            8,
            input@.len(),
            old(output)@.len(),
            params@,
        ),
    ensures
        status == xor_shift_add_status(
            match context {
                Some(context) => Some(*context),
                None => None,
            },
            params@,
        ),
        status == STATUS_OK ==> final(output)@ == xor_shift_added(
            input@,
            old(output)@,
            u32_at(params@, 0),
            u64_at(params@, 8),
        ),
        status != STATUS_OK ==> final(output)@ == old(output)@,
{
    match check_xor_shift_add(context, params) {
        Err(status) => status,
        Ok((shift, add)) => {
            xor_shift_add(input, output, shift, add);
            STATUS_OK
        },
    }
}

/// What the kernel announces; it requires NEON where it was built for AArch64.
pub fn hologram_kernel_plugin_v3(aarch64: bool) -> (plugin: KernelPlugin)
    ensures
        plugin == descriptor(
            TYPE_U64,
            OPERATION_XOR_SHIFT_ADD,
            8,
            if aarch64 {
                CPU_NEON
            } else {
                0
            },
        ),
        announces(plugin, 2, 3, 8, false, aarch64),
        forall|host: CpuFeatures|
            (#[trigger] descriptor_fault(plugin, host) is None) <==> (aarch64 ==> host.neon),
{
    let required: u64 = if aarch64 {
        CPU_NEON
    } else {
        0
    };
    let plugin = describe(TYPE_U64, OPERATION_XOR_SHIFT_ADD, 8, required);
    proof {
        assert forall|host: CpuFeatures|
            (#[trigger] descriptor_fault(plugin, host) is None) <==> (aarch64 ==> host.neon) by {
            announced_kernels_are_admitted(plugin, 2, 3, 8, false, aarch64, host);
        }
    }
    plugin
}

} // verus!
