//! What the shipped kernels compute, and which calls they answer.
use crate::bytes::{u32_at, u64_at};
use crate::kernels::abi::{
    elementwise_status, matmul_params, matmul_status, xor_shift_add_status, xor_shift_add_value,
    xor_shift_added, KernelContext,
};
use crate::kernels::avx2_fma_matmul_act::{activated, blocked_entry, scalar_entry};
use crate::kernels::blocked::mixed_entry;
use crate::kernels::elementwise::mapped_range;
use crate::kernels::matmul::{accumulated, cell, same_behind, shaped};
use crate::kernels::neon_relu::rectified;
use crate::plugin::{
    encoded_matmul, encoded_matmul_act, encoded_xor_shift_add, matmul_act_params_arrive,
    matmul_params_arrive, xor_shift_add_params_arrive,
};
use vstd::prelude::*;

verus! {

/// These are the partial sums of row `row` of `A`, which has `k` columns, times
/// column `column` of `B`, which has `n`: from zero, one product after the other.
pub open spec fn are_sums<F: Fn(u32, u32, u32) -> u32>(
    step: F,
    a: Seq<u32>,
    b: Seq<u32>,
    k: int,
    n: int,
    row: int,
    column: int,
    count: int,
    sums: Seq<u32>,
) -> bool {
    &&& sums.len() == count + 1
    &&& sums[0] == 0
    &&& forall|i: int|
        0 <= i < count ==> call_ensures(
            step,
            (a[row * k + i], b[i * n + column], sums[i]),
            #[trigger] sums[i + 1],
        )
}

/// `value` is the last of such partial sums.
pub open spec fn is_sum<F: Fn(u32, u32, u32) -> u32>(
    step: F,
    a: Seq<u32>,
    b: Seq<u32>,
    k: int,
    n: int,
    row: int,
    column: int,
    count: int,
    value: u32,
) -> bool {
    exists|sums: Seq<u32>|
        #[trigger] are_sums(step, a, b, k, n, row, column, count, sums) && sums.last() == value
}

/// An entry of a product is the sum over its row and its column, in ascending
/// order of the inner dimension, from zero.
pub proof fn entries_are_sums_of_products<F: Fn(u32, u32, u32) -> u32>(
    step: F,
    a: Seq<u32>,
    b: Seq<u32>,
    k: int,
    n: int,
    row: int,
    column: int,
    count: int,
    value: u32,
)
    requires
        0 <= count,
    ensures
        accumulated(step, a, b, k, n, row, column, count, value) <==> is_sum(
            step,
            a,
            b,
            k,
            n,
            row,
            column,
            count,
            value,
        ),
    decreases count,
{
    if count == 0 {
        if value == 0 {
            assert(are_sums(step, a, b, k, n, row, column, 0, seq![0u32]));
        }
    } else {
        let at = count - 1;
        if accumulated(step, a, b, k, n, row, column, count, value) {
            let partial = choose|partial: u32|
                accumulated(step, a, b, k, n, row, column, count - 1, partial)
                    && #[trigger] call_ensures(
                    step,
                    (a[cell(row, count - 1, k)], b[cell(count - 1, column, n)], partial),
                    value,
                );
            entries_are_sums_of_products(step, a, b, k, n, row, column, at, partial);
            let front = choose|sums: Seq<u32>| #[trigger]
                are_sums(step, a, b, k, n, row, column, at, sums) && sums.last() == partial;
            let sums = front.push(value);
            assert forall|i: int| 0 <= i < count implies call_ensures(
                step,
                (a[row * k + i], b[i * n + column], sums[i]),
                #[trigger] sums[i + 1],
            ) by {
                if i < at {
                    assert(front[i + 1] == sums[i + 1]);
                }
            }
            assert(are_sums(step, a, b, k, n, row, column, count, sums));
        }
        if is_sum(step, a, b, k, n, row, column, count, value) {
            let sums = choose|sums: Seq<u32>| #[trigger]
                are_sums(step, a, b, k, n, row, column, count, sums) && sums.last() == value;
            let front = sums.drop_last();
            assert forall|i: int| 0 <= i < at implies call_ensures(
                step,
                (a[row * k + i], b[i * n + column], front[i]),
                #[trigger] front[i + 1],
            ) by {
                assert(front[i + 1] == sums[i + 1]);
            }
            assert(are_sums(step, a, b, k, n, row, column, at, front));
            entries_are_sums_of_products(step, a, b, k, n, row, column, at, sums[at]);
            assert(sums[at + 1] == value);
            assert(call_ensures(
                step,
                (a[cell(row, at, k)], b[cell(at, column, n)], sums[at]),
                value,
            ));
        }
    }
}

/// A blocked product computes whole groups of eight columns with fused steps and
/// the few columns behind them with separate ones.
pub proof fn blocked_entries_are_sums<F: Fn(u32, u32, u32) -> u32, S: Fn(u32, u32, u32) -> u32>(
    fused: F,
    separate: S,
    a: Seq<u32>,
    b: Seq<u32>,
    k: int,
    n: int,
    row: int,
    column: int,
    value: u32,
)
    requires
        0 <= k,
        0 <= n,
    ensures
        column < n - n % 8 ==> (mixed_entry(fused, separate, a, b, k, n, row, column, k, value)
            <==> is_sum(fused, a, b, k, n, row, column, k, value)),
        column >= n - n % 8 ==> (mixed_entry(fused, separate, a, b, k, n, row, column, k, value)
            <==> is_sum(separate, a, b, k, n, row, column, k, value)),
{
    entries_are_sums_of_products(fused, a, b, k, n, row, column, k, value);
    entries_are_sums_of_products(separate, a, b, k, n, row, column, k, value);
}

/// The activation 1 is applied to the finished sum; every other one leaves the
/// sum as it is.
pub proof fn activations_are_applied_to_sums<
    F: Fn(u32, u32, u32) -> u32,
    S: Fn(u32, u32, u32) -> u32,
    C: Fn(u32) -> u32,
>(
    fused: F,
    separate: S,
    clamp: C,
    activation: u32,
    a: Seq<u32>,
    b: Seq<u32>,
    k: int,
    n: int,
    row: int,
    column: int,
    value: u32,
)
    requires
        0 <= k,
        0 <= n,
    ensures
        activation == 1 && scalar_entry(
            separate,
            clamp,
            activation,
            a,
            b,
            k,
            n,
            row,
            column,
            value,
        ) ==> exists|sum: u32| #[trigger]
            is_sum(separate, a, b, k, n, row, column, k, sum) && call_ensures(
                clamp,
                (sum,),
                value,
            ),
        activation != 1 && scalar_entry(
            separate,
            clamp,
            activation,
            a,
            b,
            k,
            n,
            row,
            column,
            value,
        ) ==> is_sum(separate, a, b, k, n, row, column, k, value),
        activation == 1 && blocked_entry(
            fused,
            separate,
            clamp,
            activation,
            a,
            b,
            k,
            n,
            row,
            column,
            value,
        ) ==> exists|sum: u32|
            (if column < n - n % 8 {
                is_sum(fused, a, b, k, n, row, column, k, sum)
            } else {
                is_sum(separate, a, b, k, n, row, column, k, sum)
            }) && #[trigger] call_ensures(clamp, (sum,), value),
        activation != 1 && blocked_entry(
            fused,
            separate,
            clamp,
            activation,
            a,
            b,
            k,
            n,
            row,
            column,
            value,
        ) ==> if column < n - n % 8 {
            is_sum(fused, a, b, k, n, row, column, k, value)
        } else {
            is_sum(separate, a, b, k, n, row, column, k, value)
        },
{
    if scalar_entry(separate, clamp, activation, a, b, k, n, row, column, value) {
        let sum = choose|sum: u32|
            accumulated(separate, a, b, k, n, row, column, k, sum) && #[trigger] activated(
                clamp,
                activation,
                sum,
                value,
            );
        entries_are_sums_of_products(separate, a, b, k, n, row, column, k, sum);
        assert(is_sum(separate, a, b, k, n, row, column, k, sum));
    }
    if blocked_entry(fused, separate, clamp, activation, a, b, k, n, row, column, value) {
        let sum = choose|sum: u32|
            mixed_entry(fused, separate, a, b, k, n, row, column, k, sum) && #[trigger] activated(
                clamp,
                activation,
                sum,
                value,
            );
        blocked_entries_are_sums(fused, separate, a, b, k, n, row, column, sum);
        assert(activation == 1 ==> call_ensures(clamp, (sum,), value));
        assert(if column < n - n % 8 {
            is_sum(fused, a, b, k, n, row, column, k, sum)
        } else {
            is_sum(separate, a, b, k, n, row, column, k, sum)
        });
    }
}

/// Matrices stand row by row, and the buffers of a product hold them whole.
pub proof fn matrices_stand_row_by_row(
    a: Seq<u32>,
    b: Seq<u32>,
    output: Seq<u32>,
    after: Seq<u32>,
    m: int,
    k: int,
    n: int,
    row: int,
    column: int,
)
    ensures
        cell(row, column, n) == row * n + column,
        m > 0 && k > 0 && n > 0 ==> (shaped(a, b, output, m, k, n) <==> m * k <= a.len() && k * n
            <= b.len() && m * n <= output.len()),
        same_behind(output, after, m * n) && 0 <= m * n <= output.len() ==> after.len()
            == output.len() && after.skip(m * n) == output.skip(m * n),
{
    if same_behind(output, after, m * n) && 0 <= m * n <= output.len() {
        assert(after.skip(m * n) =~= output.skip(m * n));
    }
}

/// Every bit of the mixed word is the value's bit at the same place, flipped
/// where the bit `shift` places below it is set; `add` is added modulo two to
/// the 64th.
pub open spec fn is_xor_shift_add(value: u64, shift: u32, add: u64, result: u64) -> bool {
    exists|mixed: u64|
        #![trigger mixed + add]
        result == (mixed + add) % 0x1_0000_0000_0000_0000 && forall|place: u64|
            place < 64 ==> #[trigger] ((mixed >> place) & 1) == ((value >> place) & 1) ^ (
            if place >= shift {
                (value >> ((place - shift) as u64)) & 1
            } else {
                0
            })
}

/// The xor-shift-add of a word, bit by bit.
pub proof fn words_are_mixed_bit_by_bit(value: u64, shift: u32, add: u64)
    requires
        shift <= 63,
    ensures
        is_xor_shift_add(value, shift, add, xor_shift_add_value(value, shift, add)),
{
    let mixed: u64 = value ^ (value << shift);
    assert forall|place: u64| place < 64 implies #[trigger] ((mixed >> place) & 1) == ((value
        >> place) & 1) ^ (if place >= shift {
        (value >> ((place - shift) as u64)) & 1
    } else {
        0
    }) by {
        if place >= shift {
            let below: u64 = (place - shift) as u64;
            assert((((value ^ (value << shift)) >> place) & 1) == ((value >> place) & 1) ^ ((value
                >> below) & 1)) by (bit_vector)
                requires
                    place < 64,
                    shift <= 63,
                    place >= shift,
                    below + shift == place,
            ;
        } else {
            assert((((value ^ (value << shift)) >> place) & 1) == ((value >> place) & 1) ^ 0)
                by (bit_vector)
                requires
                    place < 64,
                    shift <= 63,
                    place < shift,
            ;
        }
    }
    let sum = mixed + add;
    assert(xor_shift_add_value(value, shift, add) == sum % 0x1_0000_0000_0000_0000);
}

/// Words are mixed one by one, as far as both buffers reach; the rest of the
/// output stays.
pub proof fn words_are_mixed_one_by_one(
    input: Seq<u64>,
    before: Seq<u64>,
    shift: u32,
    add: u64,
    at: int,
)
    requires
        shift <= 63,
        0 <= at < before.len(),
    ensures
        xor_shift_added(input, before, shift, add).len() == before.len(),
        at < input.len() ==> is_xor_shift_add(
            input[at],
            shift,
            add,
            xor_shift_added(input, before, shift, add)[at],
        ),
        at >= input.len() ==> xor_shift_added(input, before, shift, add)[at] == before[at],
{
    if at < input.len() {
        words_are_mixed_bit_by_bit(input[at], shift, add);
    }
}

/// A pass over a stretch changes that stretch alone, value by value.
pub proof fn passes_change_their_stretch<C: Fn(u32) -> u32>(
    function: C,
    input: Seq<u32>,
    before: Seq<u32>,
    after: Seq<u32>,
    start: int,
    end: int,
)
    requires
        0 <= start <= end <= before.len(),
    ensures
        mapped_range(function, input, before, after, start, end) <==> {
            &&& after.len() == before.len()
            &&& after.take(start) == before.take(start)
            &&& after.skip(end) == before.skip(end)
            &&& forall|i: int|
                start <= i < end ==> call_ensures(function, (input[i],), #[trigger] after[i])
        },
{
    if mapped_range(function, input, before, after, start, end) {
        assert(after.take(start) =~= before.take(start));
        assert(after.skip(end) =~= before.skip(end));
    }
    if after.len() == before.len() && after.take(start) == before.take(start) && after.skip(end)
        == before.skip(end) {
        assert forall|i: int| 0 <= i < before.len() && !(start <= i < end) implies #[trigger] after[i]
            == before[i] by {
            if i < start {
                assert(after.take(start)[i] == before.take(start)[i]);
            } else {
                assert(after.skip(end)[i - end] == before.skip(end)[i - end]);
            }
        }
    }
}

/// The rectifier takes every value that both buffers hold to the place of the
/// same number: on AArch64 whole groups of sixteen by the vector function, all
/// others by the scalar one. The rest of the output stays.
pub proof fn values_are_rectified_one_by_one<V: Fn(u32) -> u32, C: Fn(u32) -> u32>(
    vector: V,
    clamp: C,
    aarch64: bool,
    input: Seq<u32>,
    before: Seq<u32>,
    after: Seq<u32>,
    at: int,
)
    requires
        rectified(vector, clamp, aarch64, input, before, after),
        0 <= at < before.len(),
    ensures
        after.len() == before.len(),
        at >= input.len() ==> after[at] == before[at],
        at < input.len() && !aarch64 ==> call_ensures(clamp, (input[at],), after[at]),
        at < input.len() && aarch64 ==> {
            let common = if input.len() < before.len() {
                input.len() as int
            } else {
                before.len() as int
            };
            if at < common - common % 16 {
                call_ensures(vector, (input[at],), after[at])
            } else {
                call_ensures(clamp, (input[at],), after[at])
            }
        },
{
    let common = if input.len() < before.len() {
        input.len() as int
    } else {
        before.len() as int
    };
    if aarch64 {
        let middle = choose|middle: Seq<u32>| #[trigger]
            mapped_range(vector, input, before, middle, 0, common / 16 * 16) && mapped_range(
                clamp,
                input,
                middle,
                after,
                common / 16 * 16,
                common,
            );
        assert(middle.len() == before.len());
        if at < common / 16 * 16 {
            assert(after[at] == middle[at]);
        } else if at >= common {
            assert(after[at] == middle[at]);
            assert(middle[at] == before[at]);
        }
    }
}

/// The parameters of a call, byte by byte as a kernel finds them.
pub proof fn parameters_stand_in_order(m: u32, k: u32, n: u32, activation: u32, add: u64)
    ensures
        encoded_matmul(m, k, n).len() == 12,
        u32_at(encoded_matmul(m, k, n), 0) == m,
        u32_at(encoded_matmul(m, k, n), 4) == k,
        u32_at(encoded_matmul(m, k, n), 8) == n,
        encoded_matmul_act(m, k, n, activation).len() == 16,
        u32_at(encoded_matmul_act(m, k, n, activation), 0) == m,
        u32_at(encoded_matmul_act(m, k, n, activation), 4) == k,
        u32_at(encoded_matmul_act(m, k, n, activation), 8) == n,
        u32_at(encoded_matmul_act(m, k, n, activation), 12) == activation,
        encoded_xor_shift_add(m, add).len() == 16,
        u32_at(encoded_xor_shift_add(m, add), 0) == m,
        u32_at(encoded_xor_shift_add(m, add), 4) == 0,
        u64_at(encoded_xor_shift_add(m, add), 8) == add,
{
    matmul_params_arrive(m, k, n);
    matmul_act_params_arrive(m, k, n, activation);
    xor_shift_add_params_arrive(m, add);
}

/// A kernel reads the rows of `A`, the inner dimension, the columns of `B` and,
/// if it is a fused one, the activation, in this order.
pub proof fn parameters_are_read_in_order(params: Seq<u8>)
    ensures
        matmul_params(params, false).m == u32_at(params, 0),
        matmul_params(params, false).k == u32_at(params, 4),
        matmul_params(params, false).n == u32_at(params, 8),
        matmul_params(params, false).activation == 0,
        matmul_params(params, true).m == u32_at(params, 0),
        matmul_params(params, true).k == u32_at(params, 4),
        matmul_params(params, true).n == u32_at(params, 8),
        matmul_params(params, true).activation == u32_at(params, 12),
{
}

/// Both buffers are there.
pub open spec fn has_buffers(context: KernelContext) -> bool {
    context.input != 0 && context.output != 0
}

/// Both buffers are aligned to `bytes`.
pub open spec fn aligned(context: KernelContext, bytes: int) -> bool {
    context.input as int % bytes == 0 && context.output as int % bytes == 0
}

/// The buffers' lengths can be counted.
pub open spec fn countable(context: KernelContext) -> bool {
    context.input_bytes <= usize::MAX && context.output_bytes <= usize::MAX
}

/// An elementwise kernel answers a call exactly when it has both buffers, of the
/// same length in whole singles, aligned, and no parameters. Every other status
/// is true of the call.
pub proof fn elementwise_calls_are_answered(call: Option<KernelContext>)
    ensures
        elementwise_status(call) == 0 <==> (call matches Some(context) && has_buffers(context)
            && context.params_bytes == 0 && countable(context) && context.input_bytes
            == context.output_bytes && context.input_bytes % 4 == 0 && aligned(context, 4)),
        elementwise_status(call) == 1 <==> call is None,
        elementwise_status(call) == 2 <==> (call matches Some(context) && !has_buffers(context)),
        elementwise_status(call) == 6 <==> (call matches Some(context) && has_buffers(context)
            && context.params_bytes != 0),
        elementwise_status(call) == 3 ==> !countable(call->Some_0),
        elementwise_status(call) == 4 ==> call->Some_0.input_bytes != call->Some_0.output_bytes
            || call->Some_0.input_bytes % 4 != 0,
        elementwise_status(call) == 5 ==> !aligned(call->Some_0, 4),
        0 <= elementwise_status(call) <= 6,
{
}

/// An xor-shift-add kernel answers a call exactly when it has both buffers, of
/// the same length in whole words, aligned, and sixteen bytes of parameters with
/// a shift of at most 63 and nothing in the reserved field. Every other status is
/// true of the call.
pub proof fn xor_shift_add_calls_are_answered(call: Option<KernelContext>, params: Seq<u8>)
    ensures
        xor_shift_add_status(call, params) == 0 <==> (call matches Some(context) && has_buffers(
            context,
        ) && context.params != 0 && context.params_bytes == 16 && u32_at(params, 0) <= 63 && u32_at(
            params,
            4,
        ) == 0 && countable(context) && context.input_bytes == context.output_bytes
            && context.input_bytes % 8 == 0 && aligned(context, 8)),
        xor_shift_add_status(call, params) == 1 <==> call is None,
        xor_shift_add_status(call, params) == 2 <==> (call matches Some(context) && !has_buffers(
            context,
        )),
        xor_shift_add_status(call, params) == 3 ==> !countable(call->Some_0)
            || call->Some_0.params_bytes > usize::MAX,
        xor_shift_add_status(call, params) == 4 ==> call->Some_0.input_bytes
            != call->Some_0.output_bytes || call->Some_0.input_bytes % 8 != 0,
        xor_shift_add_status(call, params) == 5 ==> !aligned(call->Some_0, 8),
        xor_shift_add_status(call, params) == 6 ==> call->Some_0.params == 0
            || call->Some_0.params_bytes != 16 || u32_at(params, 0) > 63 || u32_at(params, 4) != 0,
        0 <= xor_shift_add_status(call, params) <= 6,
{
}

/// The bytes of both operands of a matrix product with these parameters.
pub open spec fn operand_bytes(params: Seq<u8>) -> int {
    4 * (u32_at(params, 0) * u32_at(params, 4) + u32_at(params, 4) * u32_at(params, 8))
}

/// The bytes of the product with these parameters.
pub open spec fn product_bytes(params: Seq<u8>) -> int {
    4 * (u32_at(params, 0) * u32_at(params, 8))
}

/// The parameters of a matrix product are there, and have the length of the
/// plain (twelve bytes) or the fused (sixteen bytes) encoding.
pub open spec fn has_parameters(context: KernelContext, fused: bool) -> bool {
    &&& context.params != 0
    &&& context.params_bytes == (if fused {
        16int
    } else {
        12int
    })
}

/// No dimension is zero.
pub open spec fn has_dimensions(params: Seq<u8>) -> bool {
    u32_at(params, 0) != 0 && u32_at(params, 4) != 0 && u32_at(params, 8) != 0
}

/// A matmul kernel answers a call exactly when it has both buffers, aligned, its
/// parameters with no dimension of zero and an activation of at most one, and
/// the buffers have the lengths of the operands and of the product. Every other
/// status is true of the call.
pub proof fn matmul_calls_are_answered(call: Option<KernelContext>, params: Seq<u8>, fused: bool)
    ensures
        matmul_status(call, params, fused) == 0 <==> (call matches Some(context) && has_buffers(
            context,
        ) && has_parameters(context, fused) && (fused ==> u32_at(params, 12) <= 1)
            && has_dimensions(params) && countable(context) && context.input_bytes
            == operand_bytes(params) && context.output_bytes == product_bytes(params) && aligned(
            context,
            4,
        )),
        matmul_status(call, params, fused) == 1 <==> call is None,
        matmul_status(call, params, fused) == 2 <==> (call matches Some(context) && !has_buffers(
            context,
        )),
        matmul_status(call, params, fused) == 3 ==> !countable(call->Some_0)
            || call->Some_0.params_bytes > usize::MAX || operand_bytes(params) > usize::MAX
            || product_bytes(params) > usize::MAX,
        matmul_status(call, params, fused) == 4 ==> call->Some_0.input_bytes != operand_bytes(
            params,
        ) || call->Some_0.output_bytes > product_bytes(params),
        matmul_status(call, params, fused) == 5 ==> !aligned(call->Some_0, 4),
        matmul_status(call, params, fused) == 6 ==> !has_parameters(call->Some_0, fused) || (fused
            && u32_at(params, 12) > 1),
        matmul_status(call, params, fused) == 7 ==> !has_dimensions(params),
        matmul_status(call, params, fused) == 8 ==> call->Some_0.output_bytes < product_bytes(
            params,
        ),
        0 <= matmul_status(call, params, fused) <= 8,
{
}

/// The slices show the memory of a context where they hold as many values as
/// its buffers and as many bytes as its parameters; a null pointer shows
/// nothing.
pub proof fn contexts_show_their_memory(
    context: KernelContext,
    element: int,
    input: nat,
    output: nat,
    params: Seq<u8>,
)
    requires
        element > 0,
    ensures
        context.shows(element, input, output, params) <==> {
            &&& context.input == 0 || input == context.input_bytes as int / element
            &&& context.output == 0 || output == context.output_bytes as int / element
            &&& context.params == 0 || params.len() == context.params_bytes
        },
{
}

} // verus!
