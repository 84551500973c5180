//! Reference matmul kernel: `C[M,N] = A[M,K] x B[K,N]` over row-major
//! contiguous buffers, by a deterministic scalar triple loop.
use crate::cpu::CpuFeatures;
use crate::kernels::abi::{
    check_matmul, describe, KernelContext, KernelPlugin, MatmulParams, OPERATION_MATMUL, STATUS_OK,
    TYPE_F32,
};
use crate::kernels::abi::{descriptor, matmul_params, matmul_status};
use crate::kernels::matmul::{accumulated, cell, same_behind, shaped, step_is_total};
use crate::kernels::matmul::{multiply, split_operands};
use crate::laws::admission::{announced_kernels_are_admitted, announces};
use crate::plugin::descriptor_fault;
use vstd::prelude::*;

verus! {

/// Every entry of the product, one multiply-accumulate step after the other.
pub fn matmul<S: Fn(u32, u32, u32) -> u32>(
    a: &[u32],
    b: &[u32],
    output: &mut [u32],
    m: usize,
    k: usize,
    n: usize,
    separate: &S,
)
    requires
        step_is_total(*separate),
        shaped(a@, b@, old(output)@, m as int, k as int, n as int),
    ensures
        same_behind(old(output)@, final(output)@, m * n),
        forall|r: int, c: int|
            0 <= r < m && 0 <= c < n ==> accumulated(
                *separate,
                a@,
                b@,
                k as int,
                n as int,
                r,
                c,
                k as int,
                #[trigger] final(output)@[cell(r, c, n as int)],
            ),
{
    multiply(separate, a, b, output, m, k, n);
}

/// One call through the ABI: checks the context and the parameters, then
/// computes. The input holds `A` immediately followed by `B`. A refused call
/// leaves the output alone.
pub fn run<S: Fn(u32, u32, u32) -> u32>(
    context: Option<&KernelContext>,
    params: &[u8],
    input: &[u32],
    output: &mut [u32],
    separate: &S,
) -> (status: i32)
    requires
        step_is_total(*separate),
        context matches Some(context) ==> context.shows(
            4,
            input@.len(),
            old(output)@.len(),
            params@,
        ),
    ensures
        status == matmul_status(
            match context {
                Some(context) => Some(*context),
                None => None,
            },
            params@,
            false,
        ),
        final(output)@.len() == old(output)@.len(),
        status != STATUS_OK ==> final(output)@ == old(output)@,
        status == STATUS_OK ==> {
            let MatmulParams { m, k, n, .. } = matmul_params(params@, false);
            let a = input@.take(m * k);
            let b = input@.skip(m * k);
            forall|r: int, c: int|
                0 <= r < m && 0 <= c < n ==> {
                    let value = #[trigger] final(output)@[cell(r, c, n as int)];
                    accumulated(*separate, a, b, k as int, n as int, r, c, k as int, value)
                }
        },
{
    let MatmulParams { m, k, n, .. } = match check_matmul(context, params, false) {
        Err(status) => return status,
        Ok(decoded) => decoded,
    };
    let (a, b) = split_operands(input, m, k, n);
    matmul(a, b, output, m as usize, k as usize, n as usize, separate);
    STATUS_OK
}

/// What the kernel announces.
pub fn hologram_kernel_plugin_v3() -> (plugin: KernelPlugin)
    ensures
        plugin == descriptor(TYPE_F32, OPERATION_MATMUL, 4, 0),
        announces(plugin, 1, 2, 4, false, false),
        forall|host: CpuFeatures|
            #[trigger] descriptor_fault(plugin, host) is None,
{
    let plugin = describe(TYPE_F32, OPERATION_MATMUL, 4, 0);
    proof {
        assert forall|host: CpuFeatures|
            #[trigger] descriptor_fault(plugin, host) is None by {
            announced_kernels_are_admitted(plugin, 1, 2, 4, false, false, host);
        }
    }
    plugin
}

} // verus!
