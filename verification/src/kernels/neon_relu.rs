//! ReLU kernel: `output[i] = max(input[i], 0)`, in blocks of sixteen values on
//! AArch64 hosts, with a scalar tail.
use crate::cpu::CpuFeatures;
use crate::kernels::abi::{
    check_elementwise, describe, KernelContext, KernelPlugin, CPU_NEON, OPERATION_ELEMENTWISE,
    STATUS_OK, TYPE_F32,
};
use crate::kernels::abi::{descriptor, elementwise_status};
use crate::kernels::elementwise::{mapped_range, map_range};
use crate::kernels::matmul::clamp_is_total;
use crate::laws::admission::{announced_kernels_are_admitted, announces};
use crate::plugin::descriptor_fault;
use vstd::prelude::*;

verus! {

/// The values that both buffers hold.
pub open spec fn common_length(input: Seq<u32>, output: Seq<u32>) -> int {
    if input.len() < output.len() {
        input.len() as int
    } else {
        output.len() as int
    }
}

/// `clamp` value by value, over as many values as both buffers hold.
pub fn relu_scalar<C: Fn(u32) -> u32>(input: &[u32], output: &mut [u32], clamp: &C)
    requires
        clamp_is_total(*clamp),
    ensures
        mapped_range(
            *clamp,
            input@,
            old(output)@,
            final(output)@,
            0,
            common_length(input@, old(output)@),
        ),
{
    let end: usize = if input.len() < output.len() {
        input.len()
    } else {
        output.len()
    };
    map_range(input, output, clamp, 0, end);
}

/// Whole blocks of sixteen with `vector`, the tail with `clamp`.
pub fn relu_neon<V: Fn(u32) -> u32, C: Fn(u32) -> u32>(
    input: &[u32],
    output: &mut [u32],
    vector: &V,
    clamp: &C,
)
    requires
        clamp_is_total(*vector),
        clamp_is_total(*clamp),
    ensures
        exists|middle: Seq<u32>| #[trigger]
            mapped_range(
                *vector,
                input@,
                old(output)@,
                middle,
                0,
                common_length(input@, old(output)@) / 16 * 16,
            ) && mapped_range(
                *clamp,
                input@,
                middle,
                final(output)@,
                common_length(input@, old(output)@) / 16 * 16,
                common_length(input@, old(output)@),
            ),
{
    let end: usize = if input.len() < output.len() {
        input.len()
    } else {
        output.len()
    };
    let vectorized: usize = end / 16 * 16;
    let ghost before = output@;
    let mut offset: usize = 0;
    while offset < vectorized
        invariant
            clamp_is_total(*vector),
            offset <= vectorized <= input@.len(),
            vectorized <= output@.len(),
            offset % 16 == 0,
            vectorized % 16 == 0,
            mapped_range(*vector, input@, before, output@, 0, offset as int),
        decreases vectorized - offset,
    {
        map_range(input, output, vector, offset, offset + 4);
        map_range(input, output, vector, offset + 4, offset + 8);
        map_range(input, output, vector, offset + 8, offset + 12);
        map_range(input, output, vector, offset + 12, offset + 16);
        offset += 16;
    }
    let ghost middle = output@;
    map_range(input, output, clamp, offset, end);
    proof {
        let common = common_length(input@, before);
        assert(common / 16 * 16 == offset);
        assert(mapped_range(*vector, input@, before, middle, 0, common / 16 * 16));
        assert(mapped_range(*clamp, input@, middle, output@, common / 16 * 16, common));
    }
}

/// `output[i] = max(input[i], 0)` for as many values as both buffers hold:
/// blocked where the host is an AArch64, scalar elsewhere.
pub fn relu<V: Fn(u32) -> u32, C: Fn(u32) -> u32>(
    input: &[u32],
    output: &mut [u32],
    aarch64: bool,
    vector: &V,
    clamp: &C,
)
    requires
        clamp_is_total(*vector),
        clamp_is_total(*clamp),
    ensures
        rectified(
            *vector,
            *clamp,
            aarch64,
            input@,
            old(output)@,
            final(output)@,
        ),
{
    if aarch64 {
        relu_neon(input, output, vector, clamp);
    } else {
        relu_scalar(input, output, clamp);
    }
}

/// `after` is what the kernel makes of `input`, the rest of the output being as
/// before.
pub open spec fn rectified<V: Fn(u32) -> u32, C: Fn(u32) -> u32>(
    vector: V,
    clamp: C,
    aarch64: bool,
    input: Seq<u32>,
    before: Seq<u32>,
    after: Seq<u32>,
) -> bool {
    let common = common_length(input, before);
    if aarch64 {
        exists|middle: Seq<u32>| #[trigger]
            mapped_range(vector, input, before, middle, 0, common / 16 * 16) && mapped_range(
                clamp,
                input,
                middle,
                after,
                common / 16 * 16,
                common,
            )
    } else {
        mapped_range(clamp, input, before, after, 0, common)
    }
}

/// One call through the ABI: checks the context, then computes. A refused call
/// leaves the output alone.
pub fn run<V: Fn(u32) -> u32, C: Fn(u32) -> u32>(
    context: Option<&KernelContext>,
    input: &[u32],
    output: &mut [u32],
    aarch64: bool,
    vector: &V,
    clamp: &C,
) -> (status: i32)
    requires
        clamp_is_total(*vector),
        clamp_is_total(*clamp),
        context matches Some(context) ==> context.shows(
            4,
            input@.len(),
            old(output)@.len(),
            Seq::new(context.params_bytes as nat, |i: int| 0u8),
        ),
    ensures
        status == elementwise_status(
            match context {
                Some(context) => Some(*context),
                None => None,
            },
        ),
        status != STATUS_OK ==> final(output)@ == old(output)@,
        status == STATUS_OK ==> rectified(
            *vector,
            *clamp,
            aarch64,
            input@,
            old(output)@,
            final(output)@,
        ),
{
    let status: i32 = check_elementwise(context);
    if status == STATUS_OK {
        relu(input, output, aarch64, vector, clamp);
    }
    status
}

/// What the kernel announces; it requires NEON where it was built for AArch64.
pub fn hologram_kernel_plugin_v3(aarch64: bool) -> (plugin: KernelPlugin)
    ensures
        plugin == descriptor(
            TYPE_F32,
            OPERATION_ELEMENTWISE,
            4,
            if aarch64 {
                CPU_NEON
            } else {
                0
            },
        ),
        announces(plugin, 1, 1, 4, false, aarch64),
        forall|host: CpuFeatures|
            (#[trigger] descriptor_fault(plugin, host) is None) <==> (aarch64 ==> host.neon),
{
    let required: u64 = if aarch64 {
        CPU_NEON
    } else {
        0
    };
    let plugin = describe(TYPE_F32, OPERATION_ELEMENTWISE, 4, required);
    proof {
        assert forall|host: CpuFeatures|
            (#[trigger] descriptor_fault(plugin, host) is None) <==> (aarch64 ==> host.neon) by {
            announced_kernels_are_admitted(plugin, 1, 1, 4, false, aarch64, host);
        }
    }
    plugin
}

/// The two functions have one outcome on every value, and it is the same.
pub open spec fn clamps_agree<V: Fn(u32) -> u32, C: Fn(u32) -> u32>(vector: V, clamp: C) -> bool {
    &&& forall|value: u32, first: u32, second: u32| #[trigger]
        call_ensures(vector, (value,), first) && #[trigger] call_ensures(clamp, (value,), second)
            ==> first == second
    &&& forall|value: u32, first: u32, second: u32| #[trigger]
        call_ensures(clamp, (value,), first) && #[trigger] call_ensures(clamp, (value,), second)
            ==> first == second
}

/// Where the vector function and the scalar one agree, the kernel leaves what
/// the scalar pass leaves, on every host.
pub proof fn rectified_values_match_the_reference<V: Fn(u32) -> u32, C: Fn(u32) -> u32>(
    vector: V,
    clamp: C,
    aarch64: bool,
    input: Seq<u32>,
    before: Seq<u32>,
    after: Seq<u32>,
    reference: Seq<u32>,
)
    requires
        clamps_agree(vector, clamp),
        rectified(vector, clamp, aarch64, input, before, after),
        mapped_range(clamp, input, before, reference, 0, common_length(input, before)),
    ensures
        after == reference,
{
    let common = common_length(input, before);
    let blocks = common / 16 * 16;
    if aarch64 {
        let middle = choose|middle: Seq<u32>| #[trigger]
            mapped_range(vector, input, before, middle, 0, blocks) && mapped_range(
                clamp,
                input,
                middle,
                after,
                blocks,
                common,
            );
        assert forall|i: int| 0 <= i < before.len() implies after[i] == reference[i] by {
            if i < blocks {
                assert(after[i] == middle[i]);
                assert(call_ensures(vector, (input[i],), middle[i]));
                assert(call_ensures(clamp, (input[i],), reference[i]));
            } else if i < common {
                assert(call_ensures(clamp, (input[i],), after[i]));
                assert(call_ensures(clamp, (input[i],), reference[i]));
            } else {
                assert(after[i] == middle[i]);
                assert(middle[i] == before[i]);
                assert(reference[i] == before[i]);
            }
        }
    } else {
        assert forall|i: int| 0 <= i < before.len() implies after[i] == reference[i] by {
            if i < common {
                assert(call_ensures(clamp, (input[i],), after[i]));
                assert(call_ensures(clamp, (input[i],), reference[i]));
            } else {
                assert(after[i] == before[i]);
                assert(reference[i] == before[i]);
            }
        }
    }
    assert(after =~= reference);
}

} // verus!
