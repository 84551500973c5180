//! Reference add-one kernel: `output[i] = input[i] + 1`. The increment is
//! handed in by the caller.
use crate::cpu::CpuFeatures;
use crate::kernels::abi::{
    check_elementwise, describe, KernelContext, KernelPlugin, OPERATION_ELEMENTWISE, STATUS_OK,
    TYPE_F32,
};
use crate::kernels::abi::{descriptor, elementwise_status};
use crate::kernels::elementwise::map_range;
use crate::kernels::elementwise::mapped_range;
use crate::kernels::matmul::clamp_is_total;
use crate::laws::admission::{announced_kernels_are_admitted, announces};
use crate::plugin::descriptor_fault;
use vstd::prelude::*;

verus! {

/// One call through the ABI: checks the context, then computes. A refused call
/// leaves the output alone.
pub fn run<C: Fn(u32) -> u32>(
    context: Option<&KernelContext>,
    input: &[u32],
    output: &mut [u32],
    increment: &C,
) -> (status: i32)
    requires
        clamp_is_total(*increment),
        context matches Some(context) ==> context.shows(
            4,
            input@.len(),
            old(output)@.len(),
            Seq::new(context.params_bytes as nat, |i: int| 0u8),
        ),
    ensures
        status == elementwise_status(
            match context {
                Some(context) => Some(*context),
                None => None,
            },
        ),
        status != STATUS_OK ==> final(output)@ == old(output)@,
        status == STATUS_OK ==> mapped_range(
            *increment,
            input@,
            old(output)@,
            final(output)@,
            0,
            input@.len() as int,
        ),
{
    let status: i32 = check_elementwise(context);
    if status == STATUS_OK {
        map_range(input, output, increment, 0, input.len());
    }
    status
}

/// What the kernel announces.
pub fn hologram_kernel_plugin_v3() -> (plugin: KernelPlugin)
    ensures
        plugin == descriptor(TYPE_F32, OPERATION_ELEMENTWISE, 4, 0),
        announces(plugin, 1, 1, 4, false, false),
        forall|host: CpuFeatures|
            #[trigger] descriptor_fault(plugin, host) is None,
{
    let plugin = describe(TYPE_F32, OPERATION_ELEMENTWISE, 4, 0);
    proof {
        assert forall|host: CpuFeatures|
            #[trigger] descriptor_fault(plugin, host) is None by {
            announced_kernels_are_admitted(plugin, 1, 1, 4, false, false, host);
        }
    }
    plugin
}

} // verus!
