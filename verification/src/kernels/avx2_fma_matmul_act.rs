//! Fused matmul and activation: the product with the activation applied to
//! every entry before its last store.
//!
//! The inner dimension is processed in blocks and sums rest in the output
//! between them, so the activation is applied only with the last block:
//! applied to a partial sum it would be wrong.
use crate::cpu::CpuFeatures;
use crate::kernels::abi::{
    check_matmul, describe, KernelContext, KernelPlugin, MatmulParams, CPU_AVX2, CPU_FMA,
    OPERATION_MATMUL_ACT, STATUS_OK, TYPE_F32,
};
use crate::kernels::abi::{descriptor, matmul_params, matmul_status};
use crate::kernels::blocked::{
    blocked_entries_match_the_reference, mixed_entry, steps_agree, Product,
};
use crate::kernels::blocked::{stretch_end, COLUMN_PANEL, K_BLOCK};
use crate::kernels::matmul::{
    accumulated, cell, cell_is_inside, clamp_is_total, same_behind, shaped, step_is_total,
};
use crate::kernels::matmul::{multiply, split_operands};
use crate::laws::admission::{announced_kernels_are_admitted, announces};
use crate::plugin::descriptor_fault;
use vstd::prelude::*;

verus! {

/// `value` is an entry of the product with the activation applied: `clamp` for
/// activation 1, nothing otherwise.
pub open spec fn activated<C: Fn(u32) -> u32>(
    clamp: C,
    activation: u32,
    sum: u32,
    value: u32,
) -> bool {
    if activation == 1 {
        call_ensures(clamp, (sum,), value)
    } else {
        value == sum
    }
}

/// The scalar product, without activation.
pub fn matmul_scalar<S: Fn(u32, u32, u32) -> u32>(
    a: &[u32],
    b: &[u32],
    output: &mut [u32],
    m: usize,
    k: usize,
    n: usize,
    separate: &S,
)
    requires
        step_is_total(*separate),
        shaped(a@, b@, old(output)@, m as int, k as int, n as int),
    ensures
        same_behind(old(output)@, final(output)@, m * n),
        forall|r: int, c: int|
            0 <= r < m && 0 <= c < n ==> accumulated(
                *separate,
                a@,
                b@,
                k as int,
                n as int,
                r,
                c,
                k as int,
                #[trigger] final(output)@[cell(r, c, n as int)],
            ),
{
    multiply(separate, a, b, output, m, k, n);
}

/// Four rows of one panel over one block of the inner dimension.
fn four_rows<
    F: Fn(u32, u32, u32) -> u32,
    S: Fn(u32, u32, u32) -> u32,
    C: Fn(u32) -> u32,
>(
    product: &Product<F, S, C>,
    output: &mut [u32],
    row: usize,
    columns: (usize, usize),
    inner: (usize, usize),
)
    requires
        product.well_formed(),
        product.m * product.n <= old(output)@.len(),
        row + 4 <= product.m,
        columns.0 % 8 == 0,
        columns.0 < columns.1 <= product.n,
        columns.1 % 8 == 0 || columns.1 == product.n,
        inner.0 < inner.1 <= product.k,
        product.ready(
            old(output)@,
            (row as int, row + 4),
            (columns.0 as int, columns.1 as int),
            inner.0 as int,
        ),
    ensures
        product.block_settled(
            final(output)@,
            (row as int, row + 4),
            (columns.0 as int, columns.1 as int),
            inner.1 as int,
        ),
        product.only_block(
            old(output)@,
            final(output)@,
            (row as int, row + 4),
            (columns.0 as int, columns.1 as int),
        ),
{
    let (panel, panel_end): (usize, usize) = columns;
    let (k0, k1): (usize, usize) = inner;
    let ghost before = output@;
    let mut column: usize = panel;
    while panel_end - column >= 16
        invariant
            product.well_formed(),
            product.m * product.n <= output@.len(),
            row + 4 <= product.m,
            panel <= column <= panel_end <= product.n,
            k0 < k1 <= product.k,
            column % 8 == 0,
            panel_end % 8 == 0 || panel_end == product.n,
            product.only_block(
                before,
                output@,
                (row as int, row + 4),
                (panel as int, panel_end as int),
            ),
            product.block_settled(
                output@,
                (row as int, row + 4),
                (panel as int, column as int),
                k1 as int,
            ),
            product.ready(
                output@,
                (row as int, row + 4),
                (column as int, panel_end as int),
                k0 as int,
            ),
        decreases panel_end - column,
    {
        product.block_4x16(output, row, column, k0, k1);
        column += 16;
    }
    while panel_end - column >= 8
        invariant
            product.well_formed(),
            product.m * product.n <= output@.len(),
            row + 4 <= product.m,
            panel <= column <= panel_end <= product.n,
            k0 < k1 <= product.k,
            column % 8 == 0,
            panel_end % 8 == 0 || panel_end == product.n,
            product.only_block(
                before,
                output@,
                (row as int, row + 4),
                (panel as int, panel_end as int),
            ),
            product.block_settled(
                output@,
                (row as int, row + 4),
                (panel as int, column as int),
                k1 as int,
            ),
            product.ready(
                output@,
                (row as int, row + 4),
                (column as int, panel_end as int),
                k0 as int,
            ),
        decreases panel_end - column,
    {
        product.block_4x8(output, row, column, k0, k1);
        column += 8;
    }
    while column < panel_end
        invariant
            product.well_formed(),
            product.m * product.n <= output@.len(),
            row + 4 <= product.m,
            panel <= column <= panel_end <= product.n,
            k0 < k1 <= product.k,
            column < panel_end ==> product.n as int / 8 * 8 <= column,
            product.only_block(
                before,
                output@,
                (row as int, row + 4),
                (panel as int, panel_end as int),
            ),
            product.block_settled(
                output@,
                (row as int, row + 4),
                (panel as int, column as int),
                k1 as int,
            ),
            product.ready(
                output@,
                (row as int, row + 4),
                (column as int, panel_end as int),
                k0 as int,
            ),
        decreases panel_end - column,
    {
        product.block_1x1(output, row, column, k0, k1);
        product.block_1x1(output, row + 1, column, k0, k1);
        product.block_1x1(output, row + 2, column, k0, k1);
        product.block_1x1(output, row + 3, column, k0, k1);
        column += 1;
    }
}

/// One row of one panel over one block of the inner dimension.
fn one_row<
    F: Fn(u32, u32, u32) -> u32,
    S: Fn(u32, u32, u32) -> u32,
    C: Fn(u32) -> u32,
>(
    product: &Product<F, S, C>,
    output: &mut [u32],
    row: usize,
    columns: (usize, usize),
    inner: (usize, usize),
)
    requires
        product.well_formed(),
        product.m * product.n <= old(output)@.len(),
        row < product.m,
        columns.0 % 8 == 0,
        columns.0 < columns.1 <= product.n,
        columns.1 % 8 == 0 || columns.1 == product.n,
        inner.0 < inner.1 <= product.k,
        product.ready(
            old(output)@,
            (row as int, row + 1),
            (columns.0 as int, columns.1 as int),
            inner.0 as int,
        ),
    ensures
        product.block_settled(
            final(output)@,
            (row as int, row + 1),
            (columns.0 as int, columns.1 as int),
            inner.1 as int,
        ),
        product.only_block(
            old(output)@,
            final(output)@,
            (row as int, row + 1),
            (columns.0 as int, columns.1 as int),
        ),
{
    let (panel, panel_end): (usize, usize) = columns;
    let (k0, k1): (usize, usize) = inner;
    let ghost before = output@;
    let mut column: usize = panel;
    while panel_end - column >= 8
        invariant
            product.well_formed(),
            product.m * product.n <= output@.len(),
            row < product.m,
            panel <= column <= panel_end <= product.n,
            k0 < k1 <= product.k,
            column % 8 == 0,
            panel_end % 8 == 0 || panel_end == product.n,
            product.only_block(
                before,
                output@,
                (row as int, row + 1),
                (panel as int, panel_end as int),
            ),
            product.block_settled(
                output@,
                (row as int, row + 1),
                (panel as int, column as int),
                k1 as int,
            ),
            product.ready(
                output@,
                (row as int, row + 1),
                (column as int, panel_end as int),
                k0 as int,
            ),
        decreases panel_end - column,
    {
        product.block_1x8(output, row, column, k0, k1);
        column += 8;
    }
    while column < panel_end
        invariant
            product.well_formed(),
            product.m * product.n <= output@.len(),
            row < product.m,
            panel <= column <= panel_end <= product.n,
            k0 < k1 <= product.k,
            column < panel_end ==> product.n as int / 8 * 8 <= column,
            product.only_block(
                before,
                output@,
                (row as int, row + 1),
                (panel as int, panel_end as int),
            ),
            product.block_settled(
                output@,
                (row as int, row + 1),
                (panel as int, column as int),
                k1 as int,
            ),
            product.ready(
                output@,
                (row as int, row + 1),
                (column as int, panel_end as int),
                k0 as int,
            ),
        decreases panel_end - column,
    {
        product.block_1x1(output, row, column, k0, k1);
        column += 1;
    }
}

/// The entries of a product whose sums are empty: zero, with the activation
/// applied, in the first `size` places.
fn store_empty_sums<C: Fn(u32) -> u32>(output: &mut [u32], size: usize, activation: u32, clamp: &C)
    requires
        clamp_is_total(*clamp),
        size <= old(output)@.len(),
    ensures
        same_behind(old(output)@, final(output)@, size as int),
        forall|i: int|
            0 <= i < size ==> activated(*clamp, activation, 0, #[trigger] final(output)@[i]),
{
    let ghost before = output@;
    let mut index: usize = 0;
    while index < size
        invariant
            clamp_is_total(*clamp),
            index <= size <= output@.len(),
            same_behind(before, output@, size as int),
            forall|i: int|
                0 <= i < index ==> activated(*clamp, activation, 0, #[trigger] output@[i]),
        decreases size - index,
    {
        let value: u32 = if activation == 1 {
            clamp(0)
        } else {
            0
        };
        output[index] = value;
        index += 1;
    }
}

/// The register-blocked path: panels of columns, blocks of the inner
/// dimension, blocks of four rows, sixteen and then eight columns at a time,
/// then the tail columns and the tail rows. With an inner dimension of zero
/// every sum is empty and there is no block to compute.
pub fn matmul_avx2_fma_act<
    F: Fn(u32, u32, u32) -> u32,
    S: Fn(u32, u32, u32) -> u32,
    C: Fn(u32) -> u32,
>(
    a: &[u32],
    b: &[u32],
    output: &mut [u32],
    m: usize,
    k: usize,
    n: usize,
    activation: u32,
    fused: &F,
    separate: &S,
    clamp: &C,
)
    requires
        step_is_total(*fused),
        step_is_total(*separate),
        clamp_is_total(*clamp),
        shaped(a@, b@, old(output)@, m as int, k as int, n as int),
    ensures
        same_behind(old(output)@, final(output)@, m * n),
        forall|r: int, c: int|
            0 <= r < m && 0 <= c < n ==> blocked_entry(
                *fused,
                *separate,
                *clamp,
                activation,
                a@,
                b@,
                k as int,
                n as int,
                r,
                c,
                #[trigger] final(output)@[cell(r, c, n as int)],
            ),
{
    if k == 0 {
        assert(output.len() == output@.len());
        store_empty_sums(output, m * n, activation, clamp);
        proof {
            assert forall|r: int, c: int| 0 <= r < m && 0 <= c < n implies blocked_entry(
                *fused,
                *separate,
                *clamp,
                activation,
                a@,
                b@,
                k as int,
                n as int,
                r,
                c,
                #[trigger] output@[cell(r, c, n as int)],
            ) by {
                cell_is_inside(r, c, m as int, n as int);
                assert(activated(*clamp, activation, 0, output@[cell(r, c, n as int)]));
            }
        }
        return ;
    }
    let product = Product { a, b, m, k, n, fused, separate, clamp, activation };
    let ghost before = output@;
    let mut panel: usize = 0;
    while panel < n
        invariant
            product.well_formed(),
            product.m == m && product.k == k && product.n == n,
            k > 0,
            m * n <= output@.len(),
            panel <= n,
            panel % 64 == 0 || panel == n,
            same_behind(before, output@, m * n),
            product.block_settled(output@, (0, m as int), (0, panel as int), k as int),
        decreases n - panel,
    {
        let panel_end: usize = stretch_end(panel, n, COLUMN_PANEL);
        let mut k0: usize = 0;
        while k0 < k
            invariant
                product.well_formed(),
                product.m == m && product.k == k && product.n == n,
                m * n <= output@.len(),
                k0 <= k,
                k0 == k || k0 % 64 == 0,
                panel % 64 == 0,
                panel < panel_end <= n,
                panel_end % 8 == 0 || panel_end == n,
                same_behind(before, output@, m * n),
                product.block_settled(output@, (0, m as int), (0, panel as int), k as int),
                k0 < k ==> product.ready(
                    output@,
                    (0, m as int),
                    (panel as int, panel_end as int),
                    k0 as int,
                ),
                k0 == k ==> product.block_settled(
                    output@,
                    (0, m as int),
                    (panel as int, panel_end as int),
                    k as int,
                ),
            decreases k - k0,
        {
            let k1: usize = stretch_end(k0, k, K_BLOCK);
            let mut row: usize = 0;
            while m - row >= 4
                invariant
                    product.well_formed(),
                    product.m == m && product.k == k && product.n == n,
                    m * n <= output@.len(),
                    row <= m,
                    k0 < k1 <= k,
                    panel % 64 == 0,
                    panel < panel_end <= n,
                    panel_end % 8 == 0 || panel_end == n,
                    same_behind(before, output@, m * n),
                    product.block_settled(output@, (0, m as int), (0, panel as int), k as int),
                    product.block_settled(
                        output@,
                        (0, row as int),
                        (panel as int, panel_end as int),
                        k1 as int,
                    ),
                    product.ready(
                        output@,
                        (row as int, m as int),
                        (panel as int, panel_end as int),
                        k0 as int,
                    ),
                decreases m - row,
            {
                four_rows(&product, output, row, (panel, panel_end), (k0, k1));
                row += 4;
            }
            while row < m
                invariant
                    product.well_formed(),
                    product.m == m && product.k == k && product.n == n,
                    m * n <= output@.len(),
                    row <= m,
                    k0 < k1 <= k,
                    panel % 64 == 0,
                    panel < panel_end <= n,
                    panel_end % 8 == 0 || panel_end == n,
                    same_behind(before, output@, m * n),
                    product.block_settled(output@, (0, m as int), (0, panel as int), k as int),
                    product.block_settled(
                        output@,
                        (0, row as int),
                        (panel as int, panel_end as int),
                        k1 as int,
                    ),
                    product.ready(
                        output@,
                        (row as int, m as int),
                        (panel as int, panel_end as int),
                        k0 as int,
                    ),
                decreases m - row,
            {
                one_row(&product, output, row, (panel, panel_end), (k0, k1));
                row += 1;
            }
            k0 = k1;
        }
        panel = panel_end;
    }
    proof {
        assert forall|r: int, c: int| 0 <= r < m && 0 <= c < n implies blocked_entry(
            *fused,
            *separate,
            *clamp,
            activation,
            a@,
            b@,
            k as int,
            n as int,
            r,
            c,
            #[trigger] output@[cell(r, c, n as int)],
        ) by {
            let value = output@[cell(r, c, n as int)];
            assert(product.settled(r, c, k as int, value));
            if activation == 1 {
                let sum = choose|sum: u32|
                    product.entry(r, c, k as int, sum) && #[trigger] call_ensures(
                        *clamp,
                        (sum,),
                        value,
                    );
                assert(activated(*clamp, activation, sum, value));
            } else {
                assert(activated(*clamp, activation, value, value));
            }
        }
    }
}

/// `clamp` on every value, in place.
fn clamp_all<C: Fn(u32) -> u32>(values: &mut [u32], clamp: &C)
    requires
        clamp_is_total(*clamp),
    ensures
        final(values)@.len() == old(values)@.len(),
        forall|i: int|
            0 <= i < old(values)@.len() ==> call_ensures(
                *clamp,
                (old(values)@[i],),
                #[trigger] final(values)@[i],
            ),
{
    let ghost before = values@;
    let mut index: usize = 0;
    while index < values.len()
        invariant
            clamp_is_total(*clamp),
            index <= values@.len(),
            values@.len() == before.len(),
            forall|i: int|
                0 <= i < index ==> call_ensures(*clamp, (before[i],), #[trigger] values@[i]),
            forall|i: int| index <= i < before.len() ==> values@[i] == before[i],
        decreases values@.len() - index,
    {
        let value: u32 = clamp(values[index]);
        values[index] = value;
        index += 1;
    }
}

/// `act(A x B)`: register-blocked where the host has AVX2 and FMA3, elsewhere
/// the scalar product followed by a pass of the activation over the output.
/// Activation 1 is `clamp`; any other leaves the product as it is.
pub fn matmul_act<
    F: Fn(u32, u32, u32) -> u32,
    S: Fn(u32, u32, u32) -> u32,
    C: Fn(u32) -> u32,
>(
    a: &[u32],
    b: &[u32],
    output: &mut [u32],
    m: usize,
    k: usize,
    n: usize,
    activation: u32,
    features: CpuFeatures,
    fused: &F,
    separate: &S,
    clamp: &C,
)
    requires
        step_is_total(*fused),
        step_is_total(*separate),
        clamp_is_total(*clamp),
        shaped(a@, b@, old(output)@, m as int, k as int, n as int),
    ensures
        final(output)@.len() == old(output)@.len(),
        features.avx2 && features.fma ==> {
            &&& same_behind(old(output)@, final(output)@, m * n)
            &&& forall|r: int, c: int|
                0 <= r < m && 0 <= c < n ==> blocked_entry(
                    *fused,
                    *separate,
                    *clamp,
                    activation,
                    a@,
                    b@,
                    k as int,
                    n as int,
                    r,
                    c,
                    #[trigger] final(output)@[cell(r, c, n as int)],
                )
        },
        !(features.avx2 && features.fma) ==> {
            &&& forall|i: int|
                m * n <= i < old(output)@.len() ==> activated(
                    *clamp,
                    activation,
                    old(output)@[i],
                    #[trigger] final(output)@[i],
                )
            &&& forall|r: int, c: int|
                0 <= r < m && 0 <= c < n ==> scalar_entry(
                    *separate,
                    *clamp,
                    activation,
                    a@,
                    b@,
                    k as int,
                    n as int,
                    r,
                    c,
                    #[trigger] final(output)@[cell(r, c, n as int)],
                )
        },
{
    if features.avx2 && features.fma {
        matmul_avx2_fma_act(a, b, output, m, k, n, activation, fused, separate, clamp);
        return ;
    }
    matmul_scalar(a, b, output, m, k, n, separate);
    let ghost product = output@;
    if activation == 1 {
        clamp_all(output, clamp);
    }
    proof {
        assert forall|r: int, c: int| 0 <= r < m && 0 <= c < n implies scalar_entry(
            *separate,
            *clamp,
            activation,
            a@,
            b@,
            k as int,
            n as int,
            r,
            c,
            #[trigger] output@[cell(r, c, n as int)],
        ) by {
            cell_is_inside(r, c, m as int, n as int);
            let sum = product[cell(r, c, n as int)];
            assert(accumulated(
                *separate,
                a@,
                b@,
                k as int,
                n as int,
                r,
                c,
                k as int,
                sum,
            ));
            assert(activated(*clamp, activation, sum, output@[cell(r, c, n as int)]));
        }
    }
}

/// One call through the ABI: checks the context and the parameters, then
/// computes. The input holds `A` immediately followed by `B`. A refused call
/// leaves the output alone.
pub fn run<
    F: Fn(u32, u32, u32) -> u32,
    S: Fn(u32, u32, u32) -> u32,
    C: Fn(u32) -> u32,
>(
    context: Option<&KernelContext>,
    params: &[u8],
    input: &[u32],
    output: &mut [u32],
    features: CpuFeatures,
    fused: &F,
    separate: &S,
    clamp: &C,
) -> (status: i32)
    requires
        step_is_total(*fused),
        step_is_total(*separate),
        clamp_is_total(*clamp),
        context matches Some(context) ==> context.shows(
            4,
            input@.len(),
            old(output)@.len(),
            params@,
        ),
    ensures
        status == matmul_status(
            match context {
                Some(context) => Some(*context),
                None => None,
            },
            params@,
            true,
        ),
        final(output)@.len() == old(output)@.len(),
        status != STATUS_OK ==> final(output)@ == old(output)@,
        status == STATUS_OK ==> {
            let MatmulParams { m, k, n, activation } = matmul_params(params@, true);
            let a = input@.take(m * k);
            let b = input@.skip(m * k);
            forall|r: int, c: int|
                0 <= r < m && 0 <= c < n ==> {
                    let value = #[trigger] final(output)@[cell(r, c, n as int)];
                    if features.avx2 && features.fma {
                        blocked_entry(
                            *fused,
                            *separate,
                            *clamp,
                            activation,
                            a,
                            b,
                            k as int,
                            n as int,
                            r,
                            c,
                            value,
                        )
                    } else {
                        scalar_entry(
                            *separate,
                            *clamp,
                            activation,
                            a,
                            b,
                            k as int,
                            n as int,
                            r,
                            c,
                            value,
                        )
                    }
                }
        },
{
    let MatmulParams { m, k, n, activation } = match check_matmul(context, params, true) {
        Err(status) => return status,
        Ok(decoded) => decoded,
    };
    let (a, b) = split_operands(input, m, k, n);
    matmul_act(
        a,
        b,
        output,
        m as usize,
        k as usize,
        n as usize,
        activation,
        features,
        fused,
        separate,
        clamp,
    );
    STATUS_OK
}

/// What the kernel announces; it requires AVX2 and FMA3 where it was built for
/// x86-64.
pub fn hologram_kernel_plugin_v3(x86_64: bool) -> (plugin: KernelPlugin)
    ensures
        plugin == descriptor(
            TYPE_F32,
            OPERATION_MATMUL_ACT,
            4,
            if x86_64 {
                (CPU_AVX2 + CPU_FMA) as u64
            } else {
                0
            },
        ),
        announces(plugin, 1, 4, 4, x86_64, false),
        forall|host: CpuFeatures|
            (#[trigger] descriptor_fault(plugin, host) is None) <==> (x86_64 ==> host.avx2
                && host.fma),
{
    let required: u64 = if x86_64 {
        CPU_AVX2 + CPU_FMA
    } else {
        0
    };
    let plugin = describe(TYPE_F32, OPERATION_MATMUL_ACT, 4, required);
    proof {
        assert forall|host: CpuFeatures|
            (#[trigger] descriptor_fault(plugin, host) is None) <==> (x86_64 ==> host.avx2
                && host.fma) by {
            announced_kernels_are_admitted(plugin, 1, 4, 4, x86_64, false, host);
        }
    }
    plugin
}

/// `value` is an entry of the blocked product, the activation included.
pub open spec fn blocked_entry<
    F: Fn(u32, u32, u32) -> u32,
    S: Fn(u32, u32, u32) -> u32,
    C: Fn(u32) -> u32,
>(
    fused: F,
    separate: S,
    clamp: C,
    activation: u32,
    a: Seq<u32>,
    b: Seq<u32>,
    k: int,
    n: int,
    row: int,
    column: int,
    value: u32,
) -> bool {
    exists|sum: u32|
        mixed_entry(fused, separate, a, b, k, n, row, column, k, sum) && #[trigger] activated(
            clamp,
            activation,
            sum,
            value,
        )
}

/// `value` is an entry of the scalar product, the activation included.
pub open spec fn scalar_entry<S: Fn(u32, u32, u32) -> u32, C: Fn(u32) -> u32>(
    separate: S,
    clamp: C,
    activation: u32,
    a: Seq<u32>,
    b: Seq<u32>,
    k: int,
    n: int,
    row: int,
    column: int,
    value: u32,
) -> bool {
    exists|sum: u32|
        accumulated(separate, a, b, k, n, row, column, k, sum) && #[trigger] activated(
            clamp,
            activation,
            sum,
            value,
        )
}

/// `clamp` has one outcome on every value.
pub open spec fn clamp_is_functional<C: Fn(u32) -> u32>(clamp: C) -> bool {
    forall|value: u32, first: u32, second: u32| #[trigger]
        call_ensures(clamp, (value,), first) && #[trigger] call_ensures(clamp, (value,), second)
            ==> first == second
}

/// Where no step of an entry depends on fusing, the fused entry is that of the
/// scalar reference followed by the activation, bit by bit.
pub proof fn fused_entries_match_the_reference<
    F: Fn(u32, u32, u32) -> u32,
    S: Fn(u32, u32, u32) -> u32,
    C: Fn(u32) -> u32,
>(
    fused: F,
    separate: S,
    clamp: C,
    activation: u32,
    a: Seq<u32>,
    b: Seq<u32>,
    k: int,
    n: int,
    row: int,
    column: int,
    value: u32,
    reference: u32,
)
    requires
        0 <= k,
        steps_agree(fused, separate, a, b, k, n, row, column),
        clamp_is_functional(clamp),
        blocked_entry(fused, separate, clamp, activation, a, b, k, n, row, column, value),
        scalar_entry(separate, clamp, activation, a, b, k, n, row, column, reference),
    ensures
        value == reference,
{
    let first = choose|sum: u32|
        mixed_entry(fused, separate, a, b, k, n, row, column, k, sum) && #[trigger] activated(
            clamp,
            activation,
            sum,
            value,
        );
    let second = choose|sum: u32|
        accumulated(separate, a, b, k, n, row, column, k, sum) && #[trigger] activated(
            clamp,
            activation,
            sum,
            reference,
        );
    blocked_entries_match_the_reference(fused, separate, a, b, k, n, row, column, first, second);
}

} // verus!
