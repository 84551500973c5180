//! Register-blocked matmul kernel: four rows by eight columns at a time inside
//! column panels, with fused steps in the vector columns.
use crate::cpu::CpuFeatures;
use crate::kernels::abi::{
    check_matmul, describe, KernelContext, KernelPlugin, MatmulParams, CPU_AVX2, CPU_FMA,
    OPERATION_MATMUL, STATUS_OK, TYPE_F32,
};
use crate::kernels::abi::{descriptor, matmul_params, matmul_status};
use crate::kernels::blocked::{mixed_entry, Product};
use crate::kernels::blocked::{stretch_end, COLUMN_PANEL};
use crate::kernels::matmul::{multiply, split_operands};
use crate::kernels::matmul::{accumulated, cell, same_behind, shaped, step_is_total};
use crate::laws::admission::{announced_kernels_are_admitted, announces};
use crate::plugin::descriptor_fault;
use vstd::prelude::*;

verus! {

/// The scalar path.
pub fn matmul_scalar<S: Fn(u32, u32, u32) -> u32>(
    a: &[u32],
    b: &[u32],
    output: &mut [u32],
    m: usize,
    k: usize,
    n: usize,
    separate: &S,
)
    requires
        step_is_total(*separate),
        shaped(a@, b@, old(output)@, m as int, k as int, n as int),
    ensures
        same_behind(old(output)@, final(output)@, m * n),
        forall|r: int, c: int|
            0 <= r < m && 0 <= c < n ==> accumulated(
                *separate,
                a@,
                b@,
                k as int,
                n as int,
                r,
                c,
                k as int,
                #[trigger] final(output)@[cell(r, c, n as int)],
            ),
{
    multiply(separate, a, b, output, m, k, n);
}

/// The product `A x B`: register-blocked where the host has AVX2 and FMA3,
/// scalar elsewhere.
pub fn matmul<F: Fn(u32, u32, u32) -> u32, S: Fn(u32, u32, u32) -> u32>(
    a: &[u32],
    b: &[u32],
    output: &mut [u32],
    m: usize,
    k: usize,
    n: usize,
    features: CpuFeatures,
    fused: &F,
    separate: &S,
)
    requires
        step_is_total(*fused),
        step_is_total(*separate),
        shaped(a@, b@, old(output)@, m as int, k as int, n as int),
    ensures
        same_behind(old(output)@, final(output)@, m * n),
        forall|r: int, c: int|
            0 <= r < m && 0 <= c < n ==> {
                let value = #[trigger] final(output)@[cell(r, c, n as int)];
                if features.avx2 && features.fma {
                    mixed_entry(
                        *fused,
                        *separate,
                        a@,
                        b@,
                        k as int,
                        n as int,
                        r,
                        c,
                        k as int,
                        value,
                    )
                } else {
                    accumulated(*separate, a@, b@, k as int, n as int, r, c, k as int, value)
                }
            },
{
    if features.avx2 && features.fma {
        matmul_avx2_fma(a, b, output, m, k, n, fused, separate);
    } else {
        matmul_scalar(a, b, output, m, k, n, separate);
    }
}

/// Leaves a value as it is.
fn keep(value: u32) -> (same: u32)
    ensures
        same == value,
{
    value
}

/// The register-blocked path: panels of columns, blocks of four rows, eight
/// columns at a time, then the tail columns and the tail rows.
pub fn matmul_avx2_fma<F: Fn(u32, u32, u32) -> u32, S: Fn(u32, u32, u32) -> u32>(
    a: &[u32],
    b: &[u32],
    output: &mut [u32],
    m: usize,
    k: usize,
    n: usize,
    fused: &F,
    separate: &S,
)
    requires
        step_is_total(*fused),
        step_is_total(*separate),
        shaped(a@, b@, old(output)@, m as int, k as int, n as int),
    ensures
        same_behind(old(output)@, final(output)@, m * n),
        forall|r: int, c: int|
            0 <= r < m && 0 <= c < n ==> mixed_entry(
                *fused,
                *separate,
                a@,
                b@,
                k as int,
                n as int,
                r,
                c,
                k as int,
                #[trigger] final(output)@[cell(r, c, n as int)],
            ),
{
    let clamp = keep;
    let product = Product { a, b, m, k, n, fused, separate, clamp: &clamp, activation: 0 };
    let ghost before = output@;
    let mut panel: usize = 0;
    while panel < n
        invariant
            product.well_formed(),
            product.m == m && product.k == k && product.n == n,
            product.activation == 0,
            m * n <= output@.len(),
            panel <= n,
            panel % 64 == 0 || panel == n,
            same_behind(before, output@, m * n),
            product.block_settled(output@, (0, m as int), (0, panel as int), k as int),
        decreases n - panel,
    {
        let panel_end: usize = stretch_end(panel, n, COLUMN_PANEL);
        let mut row: usize = 0;
        while m - row >= 4
            invariant
                product.well_formed(),
                product.m == m && product.k == k && product.n == n,
                m * n <= output@.len(),
                row <= m,
                panel % 64 == 0,
                panel < panel_end <= n,
                panel_end % 8 == 0 || panel_end == n,
                same_behind(before, output@, m * n),
                product.block_settled(output@, (0, m as int), (0, panel as int), k as int),
                product.block_settled(
                    output@,
                    (0, row as int),
                    (panel as int, panel_end as int),
                    k as int,
                ),
            decreases m - row,
        {
            let mut column: usize = panel;
            while panel_end - column >= 8
                invariant
                    product.well_formed(),
                    product.m == m && product.k == k && product.n == n,
                    m * n <= output@.len(),
                    row + 4 <= m,
                    panel <= column <= panel_end <= n,
                    column % 8 == 0,
                    same_behind(before, output@, m * n),
                    product.block_settled(output@, (0, m as int), (0, panel as int), k as int),
                    product.block_settled(
                        output@,
                        (0, row as int),
                        (panel as int, panel_end as int),
                        k as int,
                    ),
                    product.block_settled(
                        output@,
                        (row as int, row + 4),
                        (panel as int, column as int),
                        k as int,
                    ),
                decreases panel_end - column,
            {
                product.block_4x8(output, row, column, 0, k);
                column += 8;
            }
            while column < panel_end
                invariant
                    product.well_formed(),
                    product.m == m && product.k == k && product.n == n,
                    m * n <= output@.len(),
                    row + 4 <= m,
                    panel <= column <= panel_end <= n,
                    column < panel_end ==> n as int / 8 * 8 <= column,
                    same_behind(before, output@, m * n),
                    product.block_settled(output@, (0, m as int), (0, panel as int), k as int),
                    product.block_settled(
                        output@,
                        (0, row as int),
                        (panel as int, panel_end as int),
                        k as int,
                    ),
                    product.block_settled(
                        output@,
                        (row as int, row + 4),
                        (panel as int, column as int),
                        k as int,
                    ),
                decreases panel_end - column,
            {
                product.block_1x1(output, row, column, 0, k);
                product.block_1x1(output, row + 1, column, 0, k);
                product.block_1x1(output, row + 2, column, 0, k);
                product.block_1x1(output, row + 3, column, 0, k);
                column += 1;
            }
            row += 4;
        }
        while row < m
            invariant
                product.well_formed(),
                product.m == m && product.k == k && product.n == n,
                m * n <= output@.len(),
                row <= m,
                panel % 64 == 0,
                panel < panel_end <= n,
                panel_end % 8 == 0 || panel_end == n,
                same_behind(before, output@, m * n),
                product.block_settled(output@, (0, m as int), (0, panel as int), k as int),
                product.block_settled(
                    output@,
                    (0, row as int),
                    (panel as int, panel_end as int),
                    k as int,
                ),
            decreases m - row,
        {
            let mut column: usize = panel;
            while panel_end - column >= 8
                invariant
                    product.well_formed(),
                    product.m == m && product.k == k && product.n == n,
                    m * n <= output@.len(),
                    row < m,
                    panel <= column <= panel_end <= n,
                    column % 8 == 0,
                    same_behind(before, output@, m * n),
                    product.block_settled(output@, (0, m as int), (0, panel as int), k as int),
                    product.block_settled(
                        output@,
                        (0, row as int),
                        (panel as int, panel_end as int),
                        k as int,
                    ),
                    product.block_settled(
                        output@,
                        (row as int, row + 1),
                        (panel as int, column as int),
                        k as int,
                    ),
                decreases panel_end - column,
            {
                product.block_1x8(output, row, column, 0, k);
                column += 8;
            }
            while column < panel_end
                invariant
                    product.well_formed(),
                    product.m == m && product.k == k && product.n == n,
                    m * n <= output@.len(),
                    row < m,
                    panel <= column <= panel_end <= n,
                    column < panel_end ==> n as int / 8 * 8 <= column,
                    same_behind(before, output@, m * n),
                    product.block_settled(output@, (0, m as int), (0, panel as int), k as int),
                    product.block_settled(
                        output@,
                        (0, row as int),
                        (panel as int, panel_end as int),
                        k as int,
                    ),
                    product.block_settled(
                        output@,
                        (row as int, row + 1),
                        (panel as int, column as int),
                        k as int,
                    ),
                decreases panel_end - column,
            {
                product.block_1x1(output, row, column, 0, k);
                column += 1;
            }
            row += 1;
        }
        panel = panel_end;
    }
    proof {
        assert forall|r: int, c: int| 0 <= r < m && 0 <= c < n implies mixed_entry(
            *fused,
            *separate,
            a@,
            b@,
            k as int,
            n as int,
            r,
            c,
            k as int,
            #[trigger] output@[cell(r, c, n as int)],
        ) by {
            assert(product.settled(r, c, k as int, output@[cell(r, c, n as int)]));
        }
    }
}

/// One call through the ABI: checks the context and the parameters, then
/// computes. The input holds `A` immediately followed by `B`. A refused call
/// leaves the output alone.
pub fn run<F: Fn(u32, u32, u32) -> u32, S: Fn(u32, u32, u32) -> u32>(
    context: Option<&KernelContext>,
    params: &[u8],
    input: &[u32],
    output: &mut [u32],
    features: CpuFeatures,
    fused: &F,
    separate: &S,
) -> (status: i32)
    requires
        step_is_total(*fused),
        step_is_total(*separate),
        context matches Some(context) ==> context.shows(
            4,
            input@.len(),
            old(output)@.len(),
            params@,
        ),
    ensures
        status == matmul_status(
            match context {
                Some(context) => Some(*context),
                None => None,
            },
            params@,
            false,
        ),
        final(output)@.len() == old(output)@.len(),
        status != STATUS_OK ==> final(output)@ == old(output)@,
        status == STATUS_OK ==> {
            let MatmulParams { m, k, n, .. } = matmul_params(params@, false);
            let a = input@.take(m * k);
            let b = input@.skip(m * k);
            forall|r: int, c: int|
                0 <= r < m && 0 <= c < n ==> {
                    let value = #[trigger] final(output)@[cell(r, c, n as int)];
                    if features.avx2 && features.fma {
                        mixed_entry(
                            *fused,
                            *separate,
                            a,
                            b,
                            k as int,
                            n as int,
                            r,
                            c,
                            k as int,
                            value,
                        )
                    } else {
                        accumulated(*separate, a, b, k as int, n as int, r, c, k as int, value)
                    }
                }
        },
{
    let MatmulParams { m, k, n, .. } = match check_matmul(context, params, false) {
        Err(status) => return status,
        Ok(decoded) => decoded,
    };
    let (a, b) = split_operands(input, m, k, n);
    matmul(a, b, output, m as usize, k as usize, n as usize, features, fused, separate);
    STATUS_OK
}

/// What the kernel announces; it requires AVX2 and FMA3 where it was built for
/// x86-64.
pub fn hologram_kernel_plugin_v3(x86_64: bool) -> (plugin: KernelPlugin)
    ensures
        plugin == descriptor(
            TYPE_F32,
            OPERATION_MATMUL,
            4,
            if x86_64 {
                (CPU_AVX2 + CPU_FMA) as u64
            } else {
                0
            },
        ),
        announces(plugin, 1, 2, 4, x86_64, false),
        forall|host: CpuFeatures|
            (#[trigger] descriptor_fault(plugin, host) is None) <==> (x86_64 ==> host.avx2
                && host.fma),
{
    let required: u64 = if x86_64 {
        CPU_AVX2 + CPU_FMA
    } else {
        0
    };
    let plugin = describe(TYPE_F32, OPERATION_MATMUL, 4, required);
    proof {
        assert forall|host: CpuFeatures|
            (#[trigger] descriptor_fault(plugin, host) is None) <==> (x86_64 ==> host.avx2
                && host.fma) by {
            announced_kernels_are_admitted(plugin, 1, 2, 4, x86_64, false, host);
        }
    }
    plugin
}

} // verus!
