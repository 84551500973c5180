//! What lowering a plan keeps, and what evaluating one means on its operations.
use crate::bytes::{u16_bytes, u32_bytes};
use crate::executor::{admission_fault, segments_failed};
use crate::fusion::{step_dispatch, step_ran, steps_ran};
use crate::ir::{IrError, IrOp, IrOpModel};
use crate::laws::running::{call_failed, called};
use crate::lowering::{
    certified, lower_error, lowered, lowered_step, lowering, mismatch, plan_output, record_bytes,
    records_of, resolution, steps_failed, steps_stay, LowerFault,
};
use crate::ops::{dispatch_returned, ExecuteError, KernelCall, PluginDispatch};
use crate::plan::{compilation, Step};
use crate::plugin::{first_named, first_named_is_first};
use vstd::prelude::*;

verus! {

/// `index` is the place of the first registered kernel with the name.
pub open spec fn first_registered(
    kernels: Seq<(Seq<char>, u16)>,
    name: Seq<char>,
    index: int,
) -> bool {
    &&& 0 <= index < kernels.len()
    &&& kernels[index].0 == name
    &&& forall|i: int| 0 <= i < index ==> (#[trigger] kernels[i]).0 != name
}

/// The kernel that an operation names, and the operation kind that it needs:
/// 1 is elementwise, 2 the matrix product, 4 the fused matrix product.
pub open spec fn kernel_wanted(op: IrOpModel) -> Option<(Seq<char>, u16)> {
    match op {
        IrOpModel::PluginElementwise { kernel } => Some((kernel, 1)),
        IrOpModel::Matmul { kernel, .. } => Some((kernel, 2)),
        IrOpModel::MatmulAct { kernel, .. } => Some((kernel, 4)),
        _ => None,
    }
}

/// The first kernel of the wanted name is of the wanted kind, and a record can
/// hold its place.
pub open spec fn kernel_serves(kernels: Seq<(Seq<char>, u16)>, op: IrOpModel, index: int) -> bool {
    &&& kernel_wanted(op) is Some
    &&& first_registered(kernels, kernel_wanted(op)->Some_0.0, index)
    &&& kernels[index].1 == kernel_wanted(op)->Some_0.1
    &&& index <= 0xffff
}

/// The values that an operation takes where `length` reach it: a matrix product
/// takes both matrices.
pub open spec fn operation_takes(op: IrOpModel, length: int) -> int {
    match op {
        IrOpModel::Matmul { m, k, n, .. } => m * k + k * n,
        IrOpModel::MatmulAct { m, k, n, .. } => m * k + k * n,
        _ => length,
    }
}

/// The values that an operation leaves where `length` reach it.
pub open spec fn operation_leaves(op: IrOpModel, length: int) -> int {
    match op {
        IrOpModel::Matmul { m, n, .. } => m * n,
        IrOpModel::MatmulAct { m, n, .. } => m * n,
        _ => length,
    }
}

/// The values that reach operation `at` of a plan on `length` values.
pub open spec fn length_reaching(ops: Seq<IrOpModel>, length: int, at: int) -> int
    decreases at,
{
    if at <= 0 {
        length
    } else {
        operation_leaves(ops[at - 1], length_reaching(ops, length, at - 1))
    }
}

/// The lengths of an operation are in order where `length` values reach it.
pub open spec fn lengths_in_order(op: IrOpModel, length: int) -> bool {
    match op {
        IrOpModel::Matmul { m, k, n, .. } => m * k + k * n == length && m * n <= usize::MAX,
        IrOpModel::MatmulAct { m, k, n, .. } => m * k + k * n == length,
        _ => length <= 0xffff_ffff,
    }
}

/// An operation can be lowered where `length` values reach it.
pub open spec fn operation_fits(
    kernels: Seq<(Seq<char>, u16)>,
    op: IrOpModel,
    length: int,
) -> bool {
    &&& lengths_in_order(op, length)
    &&& kernel_wanted(op) is Some ==> exists|index: int| #[trigger] kernel_serves(kernels, op, index)
}

/// A step does what an operation says: the same values in the same places, and
/// the first registered kernel of the operation's name.
pub open spec fn same_operation(
    kernels: Seq<(Seq<char>, u16)>,
    op: IrOpModel,
    step: Step,
) -> bool {
    match op {
        IrOpModel::Copy => step is Copy,
        IrOpModel::AddScalar { value } => step matches Step::AddScalar { value: added } && added
            == value,
        IrOpModel::PluginElementwise { .. } => step matches Step::Elementwise { index }
            && kernel_serves(kernels, op, index as int),
        IrOpModel::Matmul { m, k, n, .. } => step matches Step::Matmul {
            index,
            m: rows,
            k: inner,
            n: columns,
        } && kernel_serves(kernels, op, index as int) && rows == m && inner == k && columns == n,
        IrOpModel::MatmulAct { m, k, n, activation, .. } => step matches Step::MatmulAct {
            index,
            m: rows,
            k: inner,
            n: columns,
            activation: applied,
        } && kernel_serves(kernels, op, index as int) && rows == m && inner == k && columns == n
            && applied == activation,
    }
}

/// A fault is true of the operation at `at`, where `length` values reach it.
pub open spec fn fault_is_true(
    kernels: Seq<(Seq<char>, u16)>,
    op: IrOpModel,
    length: int,
    at: int,
    fault: LowerFault,
) -> bool {
    match fault {
        LowerFault::Chain(place) => place == at && !lengths_in_order(op, length),
        LowerFault::UnknownKernel(name) => {
            &&& kernel_wanted(op) matches Some((wanted, _)) && wanted == name
            &&& forall|index: int|
                index <= 0xffff ==> !#[trigger] first_registered(kernels, name, index)
        },
        LowerFault::KernelKind { kernel, expected, actual } => {
            &&& kernel_wanted(op) == Some((kernel, expected))
            &&& expected != actual
            &&& exists|index: int| #[trigger]
                first_registered(kernels, kernel, index) && kernels[index].1 == actual
        },
    }
}

/// Two kernels cannot both be the first of a name.
proof fn first_is_one(kernels: Seq<(Seq<char>, u16)>, name: Seq<char>, one: int, other: int)
    requires
        first_registered(kernels, name, one),
        first_registered(kernels, name, other),
    ensures
        one == other,
{
    if one < other {
        assert(kernels[one].0 != name);
    }
    if other < one {
        assert(kernels[other].0 != name);
    }
}

/// Resolving a name finds the first kernel that has it, if it is of the kind.
pub proof fn names_resolve_to_the_first(
    kernels: Seq<(Seq<char>, u16)>,
    name: Seq<char>,
    expected: u16,
)
    ensures
        match resolution(kernels, name, expected) {
            Ok(index) => first_registered(kernels, name, index as int) && kernels[index as int].1
                == expected,
            Err(LowerFault::UnknownKernel(unknown)) => unknown == name && forall|index: int|
                index <= 0xffff ==> !#[trigger] first_registered(kernels, name, index),
            Err(LowerFault::KernelKind { kernel, expected: needed, actual }) => kernel == name
                && needed == expected && actual != expected && exists|index: int| #[trigger]
                first_registered(kernels, name, index) && kernels[index].1 == actual,
            Err(_) => false,
        },
        forall|index: int|
            #![trigger first_registered(kernels, name, index)]
            first_registered(kernels, name, index) && kernels[index].1 == expected && index
                <= 0xffff ==> resolution(kernels, name, expected) == Ok::<_, LowerFault>(
                index as u16,
            ),
{
    first_named_is_first(kernels, name);
    match first_named(kernels, name) {
        Some(place) => {
            assert(first_registered(kernels, name, place));
            assert forall|index: int| #[trigger]
                first_registered(kernels, name, index) implies index == place by {
                first_is_one(kernels, name, index, place);
            }
        },
        None => {
            assert forall|index: int| !#[trigger] first_registered(kernels, name, index) by {
                if 0 <= index < kernels.len() {
                    assert(kernels[index].0 != name);
                }
            }
        },
    }
}

/// One operation: it is lowered exactly when it fits, to a step that does the
/// same and leaves as many values, and a fault is true.
pub proof fn operations_are_kept(
    kernels: Seq<(Seq<char>, u16)>,
    op: IrOpModel,
    length: int,
    at: int,
)
    ensures
        match lowered_step(kernels, op, length, at) {
            Ok(step) => {
                &&& operation_fits(kernels, op, length)
                &&& same_operation(kernels, op, step)
                &&& step.produces(length) == operation_leaves(op, length)
            },
            Err(fault) => {
                &&& !operation_fits(kernels, op, length)
                &&& fault_is_true(kernels, op, length, at, fault)
            },
        },
{
    if kernel_wanted(op) is Some {
        let (name, expected) = kernel_wanted(op)->Some_0;
        names_resolve_to_the_first(kernels, name, expected);
        match resolution(kernels, name, expected) {
            Ok(index) => {
                assert(kernel_serves(kernels, op, index as int));
            },
            Err(LowerFault::UnknownKernel(_)) => {
                assert forall|index: int| !#[trigger] kernel_serves(kernels, op, index) by {}
            },
            Err(_) => {
                let found = choose|index: int| #[trigger]
                    first_registered(kernels, name, index) && kernels[index].1 != expected;
                assert forall|index: int| !#[trigger] kernel_serves(kernels, op, index) by {
                    if kernel_serves(kernels, op, index) {
                        first_is_one(kernels, name, index, found);
                    }
                }
            },
        }
        match op {
            IrOpModel::MatmulAct { m, n, .. } => {
                assert(m * n <= 0xffff * 0xffff) by (nonlinear_arith)
                    requires
                        m <= 0xffff,
                        n <= 0xffff,
                ;
            },
            _ => {},
        }
    }
}

/// The front of a plan: what lowering it gives.
proof fn fronts_are_kept(
    kernels: Seq<(Seq<char>, u16)>,
    ops: Seq<IrOpModel>,
    length: int,
    count: int,
)
    requires
        0 <= count <= ops.len(),
    ensures
        match lowered(kernels, ops, length, count) {
            Ok(model) => {
                &&& model.steps.len() == count
                &&& model.length == length_reaching(ops, length, count)
                &&& forall|i: int|
                    0 <= i < count ==> same_operation(kernels, ops[i], #[trigger] model.steps[i])
                &&& forall|i: int|
                    0 <= i < count ==> #[trigger] operation_fits(
                        kernels,
                        ops[i],
                        length_reaching(ops, length, i),
                    )
            },
            Err(fault) => exists|i: int|
                0 <= i < count && #[trigger] lowering_stops(kernels, ops, length, i, fault),
        },
    decreases count,
{
    if count > 0 {
        fronts_are_kept(kernels, ops, length, count - 1);
        match lowered(kernels, ops, length, count - 1) {
            Ok(before) => {
                operations_are_kept(kernels, ops[count - 1], before.length, count - 1);
                match lowered(kernels, ops, length, count) {
                    Ok(model) => {
                        assert forall|i: int| 0 <= i < count implies same_operation(
                            kernels,
                            ops[i],
                            #[trigger] model.steps[i],
                        ) by {
                            if i < count - 1 {
                                assert(model.steps[i] == before.steps[i]);
                            }
                        }
                    },
                    Err(fault) => {
                        assert(lowering_stops(kernels, ops, length, count - 1, fault));
                    },
                }
            },
            Err(fault) => {
                let at = choose|i: int|
                    0 <= i < count - 1 && #[trigger] lowering_stops(kernels, ops, length, i, fault);
                assert(lowering_stops(kernels, ops, length, at, fault));
            },
        }
    }
}

/// Operation `at` is the first that does not fit, and the fault is true of it.
pub open spec fn lowering_stops(
    kernels: Seq<(Seq<char>, u16)>,
    ops: Seq<IrOpModel>,
    length: int,
    at: int,
    fault: LowerFault,
) -> bool {
    &&& forall|i: int|
        0 <= i < at ==> #[trigger] operation_fits(
            kernels,
            ops[i],
            length_reaching(ops, length, i),
        )
    &&& !operation_fits(kernels, ops[at], length_reaching(ops, length, at))
    &&& fault_is_true(kernels, ops[at], length_reaching(ops, length, at), at, fault)
}

/// Lowering keeps every operation: a plan lowers exactly when every operation
/// fits the values that reach it, and then step `i` does what operation `i`
/// says, by the first registered kernel of the name that it gives. Otherwise the
/// fault is true of the first operation that does not fit.
pub proof fn lowering_keeps_every_operation(
    kernels: Seq<(Seq<char>, u16)>,
    ops: Seq<IrOpModel>,
    length: int,
)
    ensures
        lowering(kernels, ops, length) is Ok <==> forall|i: int|
            0 <= i < ops.len() ==> #[trigger] operation_fits(
                kernels,
                ops[i],
                length_reaching(ops, length, i),
            ),
        match lowering(kernels, ops, length) {
            Ok(model) => {
                &&& model.steps.len() == ops.len()
                &&& model.length == length_reaching(ops, length, ops.len() as int)
                &&& forall|i: int|
                    0 <= i < ops.len() ==> same_operation(
                        kernels,
                        ops[i],
                        #[trigger] model.steps[i],
                    )
            },
            Err(fault) => exists|i: int|
                0 <= i < ops.len() && #[trigger] lowering_stops(kernels, ops, length, i, fault),
        },
{
    fronts_are_kept(kernels, ops, length, ops.len() as int);
    if lowering(kernels, ops, length) is Err {
        let fault = lowering(kernels, ops, length)->Err_0;
        let at = choose|i: int|
            0 <= i < ops.len() && #[trigger] lowering_stops(kernels, ops, length, i, fault);
        assert(!operation_fits(kernels, ops[at], length_reaching(ops, length, at)));
    }
}

/// The record of an operation that a kernel at `index` serves, where `length`
/// values reach it.
pub open spec fn operation_record(op: IrOpModel, index: u16, length: u32) -> Seq<u8> {
    match op {
        IrOpModel::Copy => u16_bytes(0) + u16_bytes(0) + u32_bytes(0) + u32_bytes(length)
            + u32_bytes(length),
        IrOpModel::AddScalar { value } => u16_bytes(1) + u16_bytes(0) + u32_bytes(value)
            + u32_bytes(length) + u32_bytes(length),
        IrOpModel::PluginElementwise { .. } => u16_bytes(2) + u16_bytes(index) + u32_bytes(0)
            + u32_bytes(length) + u32_bytes(length),
        IrOpModel::Matmul { m, k, n, .. } => u16_bytes(3) + u16_bytes(index) + u32_bytes(m)
            + u32_bytes(k) + u32_bytes(n),
        IrOpModel::MatmulAct { m, k, n, activation, .. } => u16_bytes(4) + u16_bytes(index)
            + u16_bytes(m) + u16_bytes(k) + u16_bytes(n) + u16_bytes(activation) + u32_bytes(0),
    }
}

/// The record is the operation's, by the kernel that serves it.
pub open spec fn is_record_of(
    kernels: Seq<(Seq<char>, u16)>,
    op: IrOpModel,
    length: int,
    record: Seq<u8>,
) -> bool {
    exists|index: u16|
        (kernel_wanted(op) is Some ==> kernel_serves(kernels, op, index as int)) && record
            == #[trigger] operation_record(op, index, length as u32)
}

/// Record `i` of a lowered plan is the sixteen bytes of operation `i`.
pub proof fn records_hold_every_operation(
    kernels: Seq<(Seq<char>, u16)>,
    ops: Seq<IrOpModel>,
    length: int,
    count: int,
)
    requires
        0 <= count <= ops.len(),
        lowering(kernels, ops, length) is Ok,
    ensures
        ({
            let records = records_of(kernels, ops, length, count);
            &&& records.len() == 16 * count
            &&& forall|i: int|
                0 <= i < count ==> is_record_of(
                    kernels,
                    ops[i],
                    length_reaching(ops, length, i),
                    #[trigger] records.subrange(16 * i, 16 * i + 16),
                )
        }),
    decreases count,
{
    if count > 0 {
        let at = count - 1;
        records_hold_every_operation(kernels, ops, length, at);
        steps_stay(kernels, ops, length, at, ops.len() as int);
        steps_stay(kernels, ops, length, count, ops.len() as int);
        fronts_are_kept(kernels, ops, length, at);
        let before = lowered(kernels, ops, length, at)->Ok_0;
        operations_are_kept(kernels, ops[at], before.length, at);
        let step = lowered_step(kernels, ops[at], before.length, at)->Ok_0;
        let front = records_of(kernels, ops, length, at);
        let tail = record_bytes(step, before.length as u32);
        let records = records_of(kernels, ops, length, count);
        let index: u16 = match step {
            Step::Elementwise { index } => index,
            Step::Matmul { index, .. } => index,
            Step::MatmulAct { index, .. } => index,
            _ => 0,
        };
        assert(tail == operation_record(ops[at], index, before.length as u32));
        assert(tail.len() == 16);
        assert(is_record_of(kernels, ops[at], before.length, tail));
        assert forall|i: int| 0 <= i < count implies is_record_of(
            kernels,
            ops[i],
            length_reaching(ops, length, i),
            #[trigger] records.subrange(16 * i, 16 * i + 16),
        ) by {
            if i < at {
                assert(records.subrange(16 * i, 16 * i + 16) =~= front.subrange(
                    16 * i,
                    16 * i + 16,
                ));
            } else {
                assert(records.subrange(16 * i, 16 * i + 16) =~= tail);
            }
        }
    }
}

/// The way that an operation calls its kernel.
pub open spec fn operation_call(op: IrOpModel) -> KernelCall {
    match op {
        IrOpModel::Matmul { m, k, n, .. } => KernelCall::Matmul { m, k, n },
        IrOpModel::MatmulAct { m, k, n, activation, .. } => KernelCall::MatmulAct {
            m: m as u32,
            k: k as u32,
            n: n as u32,
            activation: activation as u32,
        },
        _ => KernelCall::Elementwise,
    }
}

/// `after` is what evaluating the operation on `before` can give: the same
/// values, every value with the same value added, or what the first kernel of
/// the operation's name leaves when it is called with the operation's own
/// dimensions and activation.
pub open spec fn operation_ran<D: PluginDispatch, A: Fn(u32, u32) -> u32>(
    plugins: D,
    sum: A,
    kernels: Seq<(Seq<char>, u16)>,
    op: IrOpModel,
    before: Seq<u32>,
    after: Seq<u32>,
) -> bool {
    &&& after.len() == operation_leaves(op, before.len() as int)
    &&& match op {
        IrOpModel::Copy => after == before,
        IrOpModel::AddScalar { value } => forall|i: int|
            0 <= i < before.len() ==> call_ensures(sum, (before[i], value), #[trigger] after[i]),
        _ => exists|index: u16| #[trigger]
            kernel_serves(kernels, op, index as int) && called(
                plugins,
                index as usize,
                operation_call(op),
                before,
                after,
            ),
    }
}

/// Evaluating the operation on `before` can fail with `message`: the call that
/// the operation makes of its kernel can.
pub open spec fn operation_failed<D: PluginDispatch>(
    plugins: D,
    kernels: Seq<(Seq<char>, u16)>,
    op: IrOpModel,
    before: Seq<u32>,
    message: String,
) -> bool {
    exists|index: u16, after: Seq<u32>|
        kernel_serves(kernels, op, index as int) && #[trigger] call_failed(
            plugins,
            index as usize,
            operation_call(op),
            before,
            after,
            message,
        )
}

/// `output` is what the first `count` operations, each on what the one before it
/// left, can make of `input`.
pub open spec fn operations_ran<D: PluginDispatch, A: Fn(u32, u32) -> u32>(
    plugins: D,
    sum: A,
    kernels: Seq<(Seq<char>, u16)>,
    ops: Seq<IrOpModel>,
    count: int,
    input: Seq<u32>,
    output: Seq<u32>,
) -> bool
    decreases count,
{
    if count <= 0 {
        output == input
    } else {
        exists|middle: Seq<u32>|
            operations_ran(plugins, sum, kernels, ops, count - 1, input, middle)
                && #[trigger] operation_ran(plugins, sum, kernels, ops[count - 1], middle, output)
    }
}

/// The evaluation of a plan can fail with `message`: some operation can, on what
/// the operations before it left.
pub open spec fn operations_failed<D: PluginDispatch, A: Fn(u32, u32) -> u32>(
    plugins: D,
    sum: A,
    kernels: Seq<(Seq<char>, u16)>,
    ops: Seq<IrOpModel>,
    input: Seq<u32>,
    message: String,
) -> bool {
    exists|done: int, middle: Seq<u32>|
        0 <= done < ops.len() && #[trigger] operations_ran(
            plugins,
            sum,
            kernels,
            ops,
            done,
            input,
            middle,
        ) && operation_failed(plugins, kernels, ops[done], middle, message)
}

/// A step that does what an operation says has the operation's meaning.
pub proof fn steps_mean_their_operation<D: PluginDispatch, A: Fn(u32, u32) -> u32>(
    plugins: D,
    sum: A,
    kernels: Seq<(Seq<char>, u16)>,
    op: IrOpModel,
    step: Step,
    before: Seq<u32>,
    after: Seq<u32>,
    message: String,
)
    requires
        same_operation(kernels, op, step),
    ensures
        step_ran(plugins, sum, step, before, after) <==> operation_ran(
            plugins,
            sum,
            kernels,
            op,
            before,
            after,
        ),
        step_dispatch(step) is Some && dispatch_returned(
            plugins,
            step_dispatch(step)->Some_0.0,
            step_dispatch(step)->Some_0.1,
            before,
            after,
            Some(message),
        ) ==> operation_failed(plugins, kernels, op, before, message),
{
    if kernel_wanted(op) is Some {
        let index: u16 = match step {
            Step::Elementwise { index } => index,
            Step::Matmul { index, .. } => index,
            Step::MatmulAct { index, .. } => index,
            _ => 0,
        };
        assert(step_dispatch(step) == Some((index as usize, operation_call(op))));
        assert(kernel_serves(kernels, op, index as int));
        assert forall|other: u16| #[trigger]
            kernel_serves(kernels, op, other as int) implies other == index by {
            first_is_one(kernels, kernel_wanted(op)->Some_0.0, other as int, index as int);
        }
        if dispatch_returned(
            plugins,
            index as usize,
            operation_call(op),
            before,
            after,
            Some(message),
        ) {
            assert(call_failed(
                plugins,
                index as usize,
                operation_call(op),
                before,
                after,
                message,
            ));
        }
        assert(dispatch_returned(plugins, index as usize, operation_call(op), before, after, None)
            <==> called(plugins, index as usize, operation_call(op), before, after));
        assert(step_ran(plugins, sum, step, before, after) <==> {
            &&& after.len() == operation_leaves(op, before.len() as int)
            &&& dispatch_returned(
                plugins,
                index as usize,
                operation_call(op),
                before,
                after,
                None,
            )
        });
    }
}

/// The front of a plan has the meaning of its operations.
proof fn fronts_mean_their_operations<D: PluginDispatch, A: Fn(u32, u32) -> u32>(
    plugins: D,
    sum: A,
    kernels: Seq<(Seq<char>, u16)>,
    ops: Seq<IrOpModel>,
    steps: Seq<Step>,
    count: int,
    input: Seq<u32>,
    output: Seq<u32>,
)
    requires
        0 <= count <= steps.len() == ops.len(),
        forall|i: int|
            0 <= i < ops.len() ==> same_operation(kernels, ops[i], #[trigger] steps[i]),
    ensures
        steps_ran(plugins, sum, steps.take(count), input, output) <==> operations_ran(
            plugins,
            sum,
            kernels,
            ops,
            count,
            input,
            output,
        ),
    decreases count,
{
    if count > 0 {
        let longer = steps.take(count);
        let front = steps.take(count - 1);
        assert(longer.drop_last() =~= front);
        assert(longer.last() == steps[count - 1]);
        assert(same_operation(kernels, ops[count - 1], steps[count - 1]));
        let text = arbitrary::<String>();
        if steps_ran(plugins, sum, longer, input, output) {
            let middle = choose|middle: Seq<u32>|
                steps_ran(plugins, sum, longer.drop_last(), input, middle) && #[trigger] step_ran(
                    plugins,
                    sum,
                    longer.last(),
                    middle,
                    output,
                );
            fronts_mean_their_operations(
                plugins,
                sum,
                kernels,
                ops,
                steps,
                count - 1,
                input,
                middle,
            );
            steps_mean_their_operation(
                plugins,
                sum,
                kernels,
                ops[count - 1],
                steps[count - 1],
                middle,
                output,
                text,
            );
            assert(operation_ran(plugins, sum, kernels, ops[count - 1], middle, output));
        }
        if operations_ran(plugins, sum, kernels, ops, count, input, output) {
            let middle = choose|middle: Seq<u32>|
                operations_ran(plugins, sum, kernels, ops, count - 1, input, middle)
                    && #[trigger] operation_ran(
                    plugins,
                    sum,
                    kernels,
                    ops[count - 1],
                    middle,
                    output,
                );
            fronts_mean_their_operations(
                plugins,
                sum,
                kernels,
                ops,
                steps,
                count - 1,
                input,
                middle,
            );
            steps_mean_their_operation(
                plugins,
                sum,
                kernels,
                ops[count - 1],
                steps[count - 1],
                middle,
                output,
                text,
            );
            assert(step_ran(plugins, sum, longer.last(), middle, output));
        }
    } else {
        assert(steps.take(0).len() == 0);
    }
}

/// Running the steps of a lowered plan is evaluating its operations one after
/// the other, and where a step fails its operation does.
pub proof fn lowered_plans_mean_their_operations<D: PluginDispatch, A: Fn(u32, u32) -> u32>(
    plugins: D,
    sum: A,
    kernels: Seq<(Seq<char>, u16)>,
    ops: Seq<IrOpModel>,
    input: Seq<u32>,
    output: Seq<u32>,
    message: String,
)
    requires
        lowering(kernels, ops, input.len() as int) is Ok,
    ensures
        ({
            let steps = lowering(kernels, ops, input.len() as int)->Ok_0.steps;
            &&& steps_ran(plugins, sum, steps, input, output) <==> operations_ran(
                plugins,
                sum,
                kernels,
                ops,
                ops.len() as int,
                input,
                output,
            )
            &&& steps_failed(plugins, sum, steps, input, message) ==> operations_failed(
                plugins,
                sum,
                kernels,
                ops,
                input,
                message,
            )
        }),
{
    let steps = lowering(kernels, ops, input.len() as int)->Ok_0.steps;
    lowering_keeps_every_operation(kernels, ops, input.len() as int);
    assert(steps.take(ops.len() as int) =~= steps);
    fronts_mean_their_operations(
        plugins,
        sum,
        kernels,
        ops,
        steps,
        ops.len() as int,
        input,
        output,
    );
    if steps_failed(plugins, sum, steps, input, message) {
        let (done, middle, after) = choose|done: int, middle: Seq<u32>, after: Seq<u32>|
            0 <= done < steps.len() && #[trigger] steps_ran(
                plugins,
                sum,
                steps.take(done),
                input,
                middle,
            ) && step_dispatch(steps[done]) is Some && #[trigger] dispatch_returned(
                plugins,
                step_dispatch(steps[done])->Some_0.0,
                step_dispatch(steps[done])->Some_0.1,
                middle,
                after,
                Some(message),
            );
        fronts_mean_their_operations(plugins, sum, kernels, ops, steps, done, input, middle);
        assert(same_operation(kernels, ops[done], steps[done]));
        steps_mean_their_operation(
            plugins,
            sum,
            kernels,
            ops[done],
            steps[done],
            middle,
            after,
            message,
        );
        assert(operation_failed(plugins, kernels, ops[done], middle, message));
    }
}

/// An operation of a plan stands for its own fields.
pub proof fn operations_stand_for_their_fields(
    kernel: String,
    value: u32,
    m: u32,
    k: u32,
    n: u32,
    rows: u16,
    inner: u16,
    columns: u16,
    activation: u16,
)
    ensures
        IrOp::Copy.model() == IrOpModel::Copy,
        (IrOp::AddScalar { value }).model() == (IrOpModel::AddScalar { value }),
        (IrOp::PluginElementwise { kernel }).model() == (IrOpModel::PluginElementwise {
            kernel: kernel@,
        }),
        (IrOp::Matmul { kernel, m, k, n }).model() == (IrOpModel::Matmul {
            kernel: kernel@,
            m,
            k,
            n,
        }),
        (IrOp::MatmulAct { kernel, m: rows, k: inner, n: columns, activation }).model() == (
        IrOpModel::MatmulAct { kernel: kernel@, m: rows, k: inner, n: columns, activation }),
{
}

/// The error says what the fault is.
pub proof fn lowering_errors_say_the_fault(
    error: IrError,
    name: Seq<char>,
    place: int,
    expected: u16,
    actual: u16,
)
    ensures
        lower_error(error, LowerFault::UnknownKernel(name)) <==> (error matches
            IrError::UnknownKernel(kernel) && kernel@ == name),
        lower_error(error, LowerFault::Chain(place)) <==> (error matches IrError::Chain { index }
            && index == place),
        lower_error(error, (LowerFault::KernelKind { kernel: name, expected, actual })) <==> (
        error matches IrError::KernelKind { kernel, expected: needed, actual: found } && kernel@
            == name && needed == expected && found == actual),
{
}

/// A mismatch is the first place where the two outputs differ, with both values;
/// between outputs of different lengths it is the end of the shorter one, with
/// the quiet not-a-number for both values. Equal outputs have none.
pub proof fn mismatches_are_the_first(
    plan: Seq<u32>,
    reference: Seq<u32>,
    index: int,
    plan_value: u32,
    reference_value: u32,
)
    ensures
        !mismatch(plan, plan, index, plan_value, reference_value),
        mismatch(plan, reference, index, plan_value, reference_value) ==> {
            &&& 0 <= index <= plan.len()
            &&& index <= reference.len()
            &&& plan.len() == reference.len() ==> plan.take(index) == reference.take(index)
                && index < plan.len() && plan[index] == plan_value && reference[index]
                == reference_value && plan_value != reference_value
            &&& plan.len() != reference.len() ==> (index == plan.len() || index
                == reference.len()) && plan_value == 0x7fc0_0000 && reference_value == 0x7fc0_0000
        },
{
    if mismatch(plan, reference, index, plan_value, reference_value) && plan.len()
        == reference.len() {
        assert(plan.take(index) =~= reference.take(index));
    }
}

/// What certification hands out is what evaluating the operations gives, on an
/// input of at most 4096 values; a larger input is refused before anything
/// else.
pub proof fn certified_values_are_evaluated<D: PluginDispatch, A: Fn(u32, u32) -> u32>(
    plugins: D,
    sum: A,
    kernels: Seq<(Seq<char>, u16)>,
    ops: Seq<IrOpModel>,
    input: Seq<u32>,
    scratch: nat,
    result: Result<Vec<u32>, IrError>,
)
    requires
        certified(plugins, sum, kernels, ops, input, scratch, result),
        input.len() <= usize::MAX,
    ensures
        result matches Ok(values) ==> input.len() <= 4096 && operations_ran(
            plugins,
            sum,
            kernels,
            ops,
            ops.len() as int,
            input,
            values@,
        ),
        result matches Err(IrError::Plugin(crate::plugin::PluginError::Dispatch(message))) ==>
            operations_failed(plugins, sum, kernels, ops, input, message),
        input.len() > 4096 <==> (result matches Err(IrError::InputTooLarge { required, capacity })
            && required == input.len() && capacity == 4096),
        input.len() <= 4096 && result is Ok ==> forall|i: int|
            0 <= i < ops.len() ==> #[trigger] operation_fits(
                kernels,
                ops[i],
                length_reaching(ops, input.len() as int, i),
            ),
{
    let length = input.len() as int;
    lowering_keeps_every_operation(kernels, ops, length);
    if lowering(kernels, ops, length) is Ok {
        if result is Ok {
            lowered_plans_mean_their_operations(
                plugins,
                sum,
                kernels,
                ops,
                input,
                result->Ok_0@,
                arbitrary(),
            );
        }
        match result {
            Err(IrError::Plugin(crate::plugin::PluginError::Dispatch(message))) => {
                lowered_plans_mean_their_operations(
                    plugins,
                    sum,
                    kernels,
                    ops,
                    input,
                    input,
                    message,
                );
            },
            _ => {},
        }
    }
}

/// A refused certification tells the truth: a plan that does not lower is
/// refused with that fault, one that does not compile or is not admitted with
/// that error, and what is reported as a mismatch is one between two outcomes of
/// the plan.
pub proof fn refused_certifications_are_true<D: PluginDispatch, A: Fn(u32, u32) -> u32>(
    plugins: D,
    sum: A,
    kernels: Seq<(Seq<char>, u16)>,
    ops: Seq<IrOpModel>,
    input: Seq<u32>,
    scratch: nat,
    result: Result<Vec<u32>, IrError>,
)
    requires
        certified(plugins, sum, kernels, ops, input, scratch, result),
        input.len() <= 4096,
    ensures
        ({
            let length = input.len() as int;
            let records = records_of(kernels, ops, length, ops.len() as int);
            match lowering(kernels, ops, length) {
                Err(fault) => result is Err && lower_error(result->Err_0, fault),
                Ok(_) => match compilation(records, length) {
                    Err(error) => result == Err::<Vec<u32>, _>(IrError::Compile(error)),
                    Ok(model) => match admission_fault(model, input.len(), scratch) {
                        Some(error) => result == Err::<Vec<u32>, _>(IrError::Execute(error)),
                        None => match result {
                            Err(IrError::Certification { index, plan, reference }) => exists|
                                output: Seq<u32>,
                                evaluation: Seq<u32>,
                            |
                                operations_ran(
                                    plugins,
                                    sum,
                                    kernels,
                                    ops,
                                    ops.len() as int,
                                    input,
                                    evaluation,
                                ) && (ops.len() == 0 ==> output.len() == 0) && (ops.len() > 0
                                    ==> operations_ran(
                                    plugins,
                                    sum,
                                    kernels,
                                    ops,
                                    ops.len() as int,
                                    input,
                                    output,
                                )) && #[trigger] mismatch(
                                    output,
                                    evaluation,
                                    index as int,
                                    plan,
                                    reference,
                                ),
                            Err(IrError::Execute(ExecuteError::Plugin(message))) =>
                                segments_failed(plugins, sum, model.segments, input, message),
                            Err(IrError::Plugin(crate::plugin::PluginError::Dispatch(message))) =>
                                operations_failed(plugins, sum, kernels, ops, input, message),
                            Err(_) => false,
                            Ok(_) => true,
                        },
                    },
                },
            }
        }),
{
    let length = input.len() as int;
    lowering_keeps_every_operation(kernels, ops, length);
    if lowering(kernels, ops, length) is Ok {
        let steps = lowering(kernels, ops, length)->Ok_0.steps;
        match result {
            Err(IrError::Certification { index, plan, reference }) => {
                if exists|output: Seq<u32>, evaluation: Seq<u32>|
                    plan_output(plugins, sum, steps, input, output) && steps_ran(
                        plugins,
                        sum,
                        steps,
                        input,
                        evaluation,
                    ) && #[trigger] mismatch(output, evaluation, index as int, plan, reference) {
                    let (output, evaluation) = choose|output: Seq<u32>, evaluation: Seq<u32>|
                        plan_output(plugins, sum, steps, input, output) && steps_ran(
                            plugins,
                            sum,
                            steps,
                            input,
                            evaluation,
                        ) && #[trigger] mismatch(
                            output,
                            evaluation,
                            index as int,
                            plan,
                            reference,
                        );
                    lowered_plans_mean_their_operations(
                        plugins,
                        sum,
                        kernels,
                        ops,
                        input,
                        evaluation,
                        arbitrary(),
                    );
                    lowered_plans_mean_their_operations(
                        plugins,
                        sum,
                        kernels,
                        ops,
                        input,
                        output,
                        arbitrary(),
                    );
                    assert(mismatch(output, evaluation, index as int, plan, reference));
                }
            },
            Err(IrError::Plugin(crate::plugin::PluginError::Dispatch(message))) => {
                lowered_plans_mean_their_operations(
                    plugins,
                    sum,
                    kernels,
                    ops,
                    input,
                    input,
                    message,
                );
            },
            _ => {},
        }
    }
}

} // verus!
