//! Lowering plans to records, evaluating them directly, and certifying that
//! both agree.
use crate::arena::{SessionArena, MAX_VALUES};
use crate::bytes::{fields_of_subrange, u16_round_trip, u32_round_trip};
use crate::bytes::{push_slice, push_u16, push_u32};
use crate::bytes::{u16_bytes, u32_at, u32_bytes};
use crate::executor::execute_compiled_plan;
use crate::executor::{
    admission_fault, dispatch_never_fails, segment_failed, segments_failed, segments_ran,
};
use crate::fusion::{
    dispatch_is_functional, fusion_preserves_meaning, step_dispatch, step_ran,
    steps_are_deterministic, steps_ran, sum_is_functional,
};
use crate::ir::IrOpModel;
use crate::ir::{IrError, IrOp, IrPlan};
use crate::kernels::abi::{OPERATION_ELEMENTWISE, OPERATION_MATMUL, OPERATION_MATMUL_ACT};
use crate::laws::lowering::{
    lowered_plans_mean_their_operations, operations_failed, operations_ran,
};
use crate::ops::{add_scalar_in_place, ExecuteError, PluginDispatch};
use crate::ops::{dispatch_returned, opcode_of, total};
use crate::ops::{
    ADD_SCALAR_OPCODE, COPY_OPCODE, PLUGIN_MATMUL_ACT_OPCODE, PLUGIN_MATMUL_OPCODE, PLUGIN_OPCODE,
};
use crate::plan::{compilation, compiled, extended, link_fault, step_of, steps_of};
use crate::plan::{compile_plan, matmul_lengths, CompiledPlan, Step};
use crate::plugin::{first_named, first_named_is_first};
use crate::plugin::{PluginError, PluginRegistry};
use vstd::prelude::*;

verus! {

/// Why an operation cannot be lowered.
pub enum LowerFault {
    UnknownKernel(Seq<char>),
    Chain(int),
    KernelKind { kernel: Seq<char>, expected: u16, actual: u16 },
}

/// The error that reports a fault.
pub open spec fn lower_error(error: IrError, fault: LowerFault) -> bool {
    match fault {
        LowerFault::UnknownKernel(name) => error matches IrError::UnknownKernel(kernel) && kernel@
            == name,
        LowerFault::Chain(place) => error matches IrError::Chain { index } && index == place,
        LowerFault::KernelKind { kernel: name, expected: needed, actual: found } => error matches
            IrError::KernelKind { kernel, expected, actual } && kernel@ == name && expected
            == needed && actual == found,
    }
}

/// The record index of the kernel with a name, if it has the operation kind
/// that is needed.
pub open spec fn resolution(
    kernels: Seq<(Seq<char>, u16)>,
    name: Seq<char>,
    expected: u16,
) -> Result<u16, LowerFault> {
    match first_named(kernels, name) {
        None => Err(LowerFault::UnknownKernel(name)),
        Some(place) => if kernels[place].1 != expected {
            Err(LowerFault::KernelKind { kernel: name, expected, actual: kernels[place].1 })
        } else if place > u16::MAX {
            Err(LowerFault::UnknownKernel(name))
        } else {
            Ok(place as u16)
        },
    }
}

/// The step that an operation becomes where `length` values reach it.
pub open spec fn lowered_step(
    kernels: Seq<(Seq<char>, u16)>,
    op: IrOpModel,
    length: int,
    place: int,
) -> Result<Step, LowerFault> {
    match op {
        IrOpModel::Copy => if length > u32::MAX {
            Err(LowerFault::Chain(place))
        } else {
            Ok(Step::Copy)
        },
        IrOpModel::AddScalar { value } => if length > u32::MAX {
            Err(LowerFault::Chain(place))
        } else {
            Ok(Step::AddScalar { value })
        },
        IrOpModel::PluginElementwise { kernel } => match resolution(
            kernels,
            kernel,
            OPERATION_ELEMENTWISE,
        ) {
            Err(fault) => Err(fault),
            Ok(index) => if length > u32::MAX {
                Err(LowerFault::Chain(place))
            } else {
                Ok(Step::Elementwise { index })
            },
        },
        IrOpModel::Matmul { kernel, m, k, n } => if m * k + k * n != length {
            Err(LowerFault::Chain(place))
        } else {
            match resolution(kernels, kernel, OPERATION_MATMUL) {
                Err(fault) => Err(fault),
                Ok(index) => if m * n > usize::MAX {
                    Err(LowerFault::Chain(place))
                } else {
                    Ok(Step::Matmul { index, m, k, n })
                },
            }
        },
        IrOpModel::MatmulAct { kernel, m, k, n, activation } => if m * k + k * n != length {
            Err(LowerFault::Chain(place))
        } else {
            match resolution(kernels, kernel, OPERATION_MATMUL_ACT) {
                Err(fault) => Err(fault),
                Ok(index) => Ok(Step::MatmulAct { index, m, k, n, activation }),
            }
        },
    }
}

/// What lowering gives: the steps, and the values that they leave.
pub struct LoweredModel {
    pub steps: Seq<Step>,
    pub length: int,
}

/// What lowering the first `count` operations gives.
pub open spec fn lowered(
    kernels: Seq<(Seq<char>, u16)>,
    ops: Seq<IrOpModel>,
    input_length: int,
    count: int,
) -> Result<LoweredModel, LowerFault>
    decreases count,
{
    if count <= 0 {
        Ok(LoweredModel { steps: Seq::empty(), length: input_length })
    } else {
        match lowered(kernels, ops, input_length, count - 1) {
            Err(fault) => Err(fault),
            Ok(model) => match lowered_step(kernels, ops[count - 1], model.length, count - 1) {
                Err(fault) => Err(fault),
                Ok(step) => Ok(
                    LoweredModel {
                        steps: model.steps.push(step),
                        length: step.produces(model.length),
                    },
                ),
            },
        }
    }
}

/// What lowering a whole plan gives.
pub open spec fn lowering(
    kernels: Seq<(Seq<char>, u16)>,
    ops: Seq<IrOpModel>,
    input_length: int,
) -> Result<LoweredModel, LowerFault> {
    lowered(kernels, ops, input_length, ops.len() as int)
}

/// The sixteen bytes of a record.
pub open spec fn record_bytes(step: Step, length: u32) -> Seq<u8> {
    match step {
        Step::Copy => u16_bytes(COPY_OPCODE) + u16_bytes(0) + u32_bytes(0) + u32_bytes(length)
            + u32_bytes(length),
        Step::AddScalar { value } => u16_bytes(ADD_SCALAR_OPCODE) + u16_bytes(0) + u32_bytes(value)
            + u32_bytes(length) + u32_bytes(length),
        Step::Elementwise { index } => u16_bytes(PLUGIN_OPCODE) + u16_bytes(index) + u32_bytes(0)
            + u32_bytes(length) + u32_bytes(length),
        Step::Matmul { index, m, k, n } => u16_bytes(PLUGIN_MATMUL_OPCODE) + u16_bytes(index)
            + u32_bytes(m) + u32_bytes(k) + u32_bytes(n),
        Step::MatmulAct { index, m, k, n, activation } => u16_bytes(PLUGIN_MATMUL_ACT_OPCODE)
            + u16_bytes(index) + u16_bytes(m) + u16_bytes(k) + u16_bytes(n) + u16_bytes(activation)
            + u32_bytes(0),
    }
}

/// The records of the first `count` operations.
pub open spec fn records_of(
    kernels: Seq<(Seq<char>, u16)>,
    ops: Seq<IrOpModel>,
    input_length: int,
    count: int,
) -> Seq<u8>
    decreases count,
{
    if count <= 0 {
        Seq::empty()
    } else {
        let before = lowered(kernels, ops, input_length, count - 1)->Ok_0;
        let step = lowered_step(kernels, ops[count - 1], before.length, count - 1)->Ok_0;
        records_of(kernels, ops, input_length, count - 1) + record_bytes(
            step,
            before.length as u32,
        )
    }
}

/// Appends a record.
fn push_record(records: &mut Vec<u8>, step: Step, length: u32)
    ensures
        final(records)@ == old(records)@ + record_bytes(step, length),
{
    let mut record: Vec<u8> = Vec::new();
    match step {
        Step::Copy => {
            push_u16(&mut record, COPY_OPCODE);
            push_u16(&mut record, 0);
            push_u32(&mut record, 0);
            push_u32(&mut record, length);
            push_u32(&mut record, length);
        },
        Step::AddScalar { value } => {
            push_u16(&mut record, ADD_SCALAR_OPCODE);
            push_u16(&mut record, 0);
            push_u32(&mut record, value);
            push_u32(&mut record, length);
            push_u32(&mut record, length);
        },
        Step::Elementwise { index } => {
            push_u16(&mut record, PLUGIN_OPCODE);
            push_u16(&mut record, index);
            push_u32(&mut record, 0);
            push_u32(&mut record, length);
            push_u32(&mut record, length);
        },
        Step::Matmul { index, m, k, n } => {
            push_u16(&mut record, PLUGIN_MATMUL_OPCODE);
            push_u16(&mut record, index);
            push_u32(&mut record, m);
            push_u32(&mut record, k);
            push_u32(&mut record, n);
        },
        Step::MatmulAct { index, m, k, n, activation } => {
            push_u16(&mut record, PLUGIN_MATMUL_ACT_OPCODE);
            push_u16(&mut record, index);
            push_u16(&mut record, m);
            push_u16(&mut record, k);
            push_u16(&mut record, n);
            push_u16(&mut record, activation);
            push_u32(&mut record, 0);
        },
    }
    assert(record@ =~= record_bytes(step, length));
    push_slice(records, record.as_slice());
}

/// The record index of the kernel with a name, if it has the operation kind
/// that is needed.
pub fn resolve<P>(registry: &PluginRegistry<P>, kernel: &String, expected: u16) -> (result: Result<
    u16,
    IrError,
>)
    ensures
        match resolution(registry.kernels(), kernel@, expected) {
            Ok(index) => result == Ok::<_, IrError>(index),
            Err(fault) => result is Err && lower_error(result->Err_0, fault),
        },
{
    proof {
        first_named_is_first(registry.kernels(), kernel@);
    }
    let index: usize = match registry.kernel_index(kernel.as_str()) {
        Some(index) => index,
        None => return Err(IrError::UnknownKernel(kernel.clone())),
    };
    let actual: u16 = registry.entries[index].operation;
    if actual != expected {
        return Err(IrError::KernelKind { kernel: kernel.clone(), expected, actual });
    }
    if index > 0xffff {
        return Err(IrError::UnknownKernel(kernel.clone()));
    }
    Ok(index as u16)
}

/// The length of an elementwise record, if it can be written down.
pub fn write_elementwise_lengths(length: usize, op_index: usize) -> (result: Result<u32, IrError>)
    ensures
        length <= u32::MAX ==> result == Ok::<_, IrError>(length as u32),
        length > u32::MAX ==> result is Err && lower_error(
            result->Err_0,
            LowerFault::Chain(op_index as int),
        ),
{
    if length as u64 > 0xffff_ffff {
        return Err(IrError::Chain { index: op_index });
    }
    Ok(length as u32)
}

/// A fault in a front of the operations is the fault of the whole.
proof fn early_fault_stays(
    kernels: Seq<(Seq<char>, u16)>,
    ops: Seq<IrOpModel>,
    input_length: int,
    early: int,
    late: int,
)
    requires
        0 <= early <= late,
        lowered(kernels, ops, input_length, early) is Err,
    ensures
        lowered(kernels, ops, input_length, late) == lowered(kernels, ops, input_length, early),
    decreases late,
{
    if early < late {
        early_fault_stays(kernels, ops, input_length, early, late - 1);
    }
}

/// Lowers one operation: the step, the length that its record carries, and the
/// values that it leaves.
fn lower_op<P>(
    registry: &PluginRegistry<P>,
    op: &IrOp,
    expected: usize,
    op_index: usize,
) -> (result: Result<(Step, u32, usize), IrError>)
    ensures
        match lowered_step(registry.kernels(), op.model(), expected as int, op_index as int) {
            Err(fault) => result is Err && lower_error(result->Err_0, fault),
            Ok(step) => result matches Ok((lowered, length, next)) && lowered == step && next
                == step.produces(expected as int) && (step.produces(expected as int) == expected
                && !(step is Matmul || step is MatmulAct) ==> length == expected),
        },
{
    match op {
        IrOp::Copy => match write_elementwise_lengths(expected, op_index) {
            Ok(length) => Ok((Step::Copy, length, expected)),
            Err(error) => Err(error),
        },
        IrOp::AddScalar { value } => match write_elementwise_lengths(expected, op_index) {
            Ok(length) => Ok((Step::AddScalar { value: *value }, length, expected)),
            Err(error) => Err(error),
        },
        IrOp::PluginElementwise { kernel } => {
            let index: u16 = match resolve(registry, kernel, OPERATION_ELEMENTWISE) {
                Ok(index) => index,
                Err(error) => return Err(error),
            };
            match write_elementwise_lengths(expected, op_index) {
                Ok(length) => Ok((Step::Elementwise { index }, length, expected)),
                Err(error) => Err(error),
            }
        },
        IrOp::Matmul { kernel, m, k, n } => {
            let (consumed, produced): (u128, u64) = matmul_lengths(*m, *k, *n);
            if consumed != expected as u128 {
                return Err(IrError::Chain { index: op_index });
            }
            let index: u16 = match resolve(registry, kernel, OPERATION_MATMUL) {
                Ok(index) => index,
                Err(error) => return Err(error),
            };
            if produced > usize::MAX as u64 {
                return Err(IrError::Chain { index: op_index });
            }
            Ok((Step::Matmul { index, m: *m, k: *k, n: *n }, 0, produced as usize))
        },
        IrOp::MatmulAct { kernel, m, k, n, activation } => {
            let (consumed, produced): (u128, u64) = matmul_lengths(
                *m as u32,
                *k as u32,
                *n as u32,
            );
            if consumed != expected as u128 {
                return Err(IrError::Chain { index: op_index });
            }
            let index: u16 = match resolve(registry, kernel, OPERATION_MATMUL_ACT) {
                Ok(index) => index,
                Err(error) => return Err(error),
            };
            proof {
                small_product(*m, *n);
            }
            Ok(
                (
                    Step::MatmulAct { index, m: *m, k: *k, n: *n, activation: *activation },
                    0,
                    produced as usize,
                ),
            )
        },
    }
}

/// The product of two sixteen-bit dimensions fits any machine word.
proof fn small_product(rows: u16, columns: u16)
    ensures
        0 <= rows * columns <= 0xfffe_0001,
{
    assert(0 <= rows * columns <= 0xfffe_0001) by (nonlinear_arith);
}

/// A matmul record does not carry a length.
proof fn matmul_record_has_no_length(step: Step, one: u32, other: u32)
    requires
        step is Matmul || step is MatmulAct,
    ensures
        record_bytes(step, one) == record_bytes(step, other),
{
}

impl IrPlan {
    /// Lowers the plan to fixed-width operation records: resolves kernel names
    /// to registry indices, checks each kernel's operation kind, and fills in
    /// chain lengths from `input_length` on.
    pub fn lower<P>(&self, registry: &PluginRegistry<P>, input_length: usize) -> (result: Result<
        Vec<u8>,
        IrError,
    >)
        ensures
            match lowering(registry.kernels(), self.model().ops, input_length as int) {
                Err(fault) => result is Err && lower_error(result->Err_0, fault),
                Ok(_) => result matches Ok(records) && records@ == records_of(
                    registry.kernels(),
                    self.model().ops,
                    input_length as int,
                    self.model().ops.len() as int,
                ),
            },
    {
        let ops: &[IrOp] = self.ops();
        let ghost model = self.model().ops;
        let ghost kernels = registry.kernels();
        let mut records: Vec<u8> = Vec::new();
        let mut expected: usize = input_length;
        let mut index: usize = 0;
        while index < ops.len()
            invariant
                index <= ops@.len(),
                ops@.len() == model.len(),
                model == self.model().ops,
                kernels == registry.kernels(),
                forall|i: int| 0 <= i < ops@.len() ==> (#[trigger] ops@[i]).model() == model[i],
                lowered(kernels, model, input_length as int, index as int) is Ok,
                lowered(kernels, model, input_length as int, index as int)->Ok_0.length == expected,
                records@ == records_of(kernels, model, input_length as int, index as int),
            decreases ops@.len() - index,
        {
            assert(ops@[index as int].model() == model[index as int]);
            match lower_op(registry, &ops[index], expected, index) {
                Err(error) => {
                    proof {
                        early_fault_stays(
                            kernels,
                            model,
                            input_length as int,
                            index + 1,
                            model.len() as int,
                        );
                    }
                    return Err(error);
                },
                Ok((step, length, next)) => {
                    push_record(&mut records, step, length);
                    proof {
                        if step is Matmul || step is MatmulAct {
                            matmul_record_has_no_length(step, length, expected as u32);
                        }
                        assert(records@ == records_of(
                            kernels,
                            model,
                            input_length as int,
                            index + 1,
                        ));
                    }
                    expected = next;
                },
            }
            index += 1;
        }
        Ok(records)
    }
}

/// The fields of a record are those of its step.
proof fn record_decodes(step: Step, length: u32)
    ensures
        record_bytes(step, length).len() == 16,
        step_of(record_bytes(step, length), 0) == step,
        opcode_of(record_bytes(step, length), 0) <= PLUGIN_MATMUL_ACT_OPCODE,
        step is Copy || step is AddScalar || step is Elementwise <==> opcode_of(
            record_bytes(step, length),
            0,
        ) <= PLUGIN_OPCODE,
        step is Copy || step is AddScalar || step is Elementwise ==> u32_at(
            record_bytes(step, length),
            8,
        ) == length && u32_at(record_bytes(step, length), 12) == length,
        step is MatmulAct <==> opcode_of(record_bytes(step, length), 0)
            == PLUGIN_MATMUL_ACT_OPCODE,
        step is MatmulAct ==> u32_at(record_bytes(step, length), 12) == 0,
{
    let record = record_bytes(step, length);
    match step {
        Step::Copy => {
            assert(record.subrange(0, 2) =~= u16_bytes(COPY_OPCODE));
            u16_round_trip(record, 0, COPY_OPCODE);
        },
        Step::AddScalar { value } => {
            assert(record.subrange(0, 2) =~= u16_bytes(ADD_SCALAR_OPCODE));
            assert(record.subrange(4, 8) =~= u32_bytes(value));
            u16_round_trip(record, 0, ADD_SCALAR_OPCODE);
            u32_round_trip(record, 4, value);
        },
        Step::Elementwise { index } => {
            assert(record.subrange(0, 2) =~= u16_bytes(PLUGIN_OPCODE));
            assert(record.subrange(2, 4) =~= u16_bytes(index));
            u16_round_trip(record, 0, PLUGIN_OPCODE);
            u16_round_trip(record, 2, index);
        },
        Step::Matmul { index, m, k, n } => {
            assert(record.subrange(0, 2) =~= u16_bytes(PLUGIN_MATMUL_OPCODE));
            assert(record.subrange(2, 4) =~= u16_bytes(index));
            assert(record.subrange(4, 8) =~= u32_bytes(m));
            assert(record.subrange(8, 12) =~= u32_bytes(k));
            assert(record.subrange(12, 16) =~= u32_bytes(n));
            u16_round_trip(record, 0, PLUGIN_MATMUL_OPCODE);
            u16_round_trip(record, 2, index);
            u32_round_trip(record, 4, m);
            u32_round_trip(record, 8, k);
            u32_round_trip(record, 12, n);
        },
        Step::MatmulAct { index, m, k, n, activation } => {
            assert(record.subrange(0, 2) =~= u16_bytes(PLUGIN_MATMUL_ACT_OPCODE));
            assert(record.subrange(2, 4) =~= u16_bytes(index));
            assert(record.subrange(4, 6) =~= u16_bytes(m));
            assert(record.subrange(6, 8) =~= u16_bytes(k));
            assert(record.subrange(8, 10) =~= u16_bytes(n));
            assert(record.subrange(10, 12) =~= u16_bytes(activation));
            assert(record.subrange(12, 16) =~= u32_bytes(0));
            u16_round_trip(record, 0, PLUGIN_MATMUL_ACT_OPCODE);
            u16_round_trip(record, 2, index);
            u16_round_trip(record, 4, m);
            u16_round_trip(record, 6, k);
            u16_round_trip(record, 8, n);
            u16_round_trip(record, 10, activation);
            u32_round_trip(record, 12, 0);
        },
    }
    if step is Copy || step is AddScalar || step is Elementwise {
        assert(record.subrange(8, 12) =~= u32_bytes(length));
        assert(record.subrange(12, 16) =~= u32_bytes(length));
        u32_round_trip(record, 8, length);
        u32_round_trip(record, 12, length);
    }
}

/// A record inside a stream decodes as it does alone.
proof fn record_in_stream(records: Seq<u8>, place: int)
    requires
        0 <= place,
        16 * place + 16 <= records.len(),
    ensures
        ({
            let record = records.subrange(16 * place, 16 * place + 16);
            &&& step_of(records, place) == step_of(record, 0)
            &&& opcode_of(records, place) == opcode_of(record, 0)
            &&& u32_at(records, 16 * place + 8) == u32_at(record, 8)
            &&& u32_at(records, 16 * place + 12) == u32_at(record, 12)
        }),
{
    let start = 16 * place;
    let end = start + 16;
    fields_of_subrange(records, start, end, 0);
    fields_of_subrange(records, start, end, 2);
    fields_of_subrange(records, start, end, 4);
    fields_of_subrange(records, start, end, 6);
    fields_of_subrange(records, start, end, 8);
    fields_of_subrange(records, start, end, 10);
    fields_of_subrange(records, start, end, 12);
}

/// Later records do not change the decoding of earlier ones.
proof fn earlier_record_stays(front: Seq<u8>, tail: Seq<u8>, place: int)
    requires
        0 <= place,
        16 * place + 16 <= front.len(),
    ensures
        step_of(front + tail, place) == step_of(front, place),
        opcode_of(front + tail, place) == opcode_of(front, place),
        u32_at(front + tail, 16 * place + 8) == u32_at(front, 16 * place + 8),
        u32_at(front + tail, 16 * place + 12) == u32_at(front, 16 * place + 12),
{
    let whole = front + tail;
    assert(whole.subrange(16 * place, 16 * place + 16) =~= front.subrange(
        16 * place,
        16 * place + 16,
    ));
    record_in_stream(whole, place);
    record_in_stream(front, place);
}

/// Lowered records decode to the steps that they were lowered from, and every
/// record accepts the values that reach it.
proof fn records_decode(
    kernels: Seq<(Seq<char>, u16)>,
    ops: Seq<IrOpModel>,
    input_length: int,
    count: int,
)
    requires
        0 <= count,
        0 <= input_length <= usize::MAX,
        lowered(kernels, ops, input_length, count) is Ok,
    ensures
        ({
            let records = records_of(kernels, ops, input_length, count);
            let model = lowered(kernels, ops, input_length, count)->Ok_0;
            &&& records.len() == 16 * count
            &&& model.steps.len() == count
            &&& 0 <= model.length <= usize::MAX
            &&& forall|i: int|
                0 <= i < count ==> #[trigger] step_of(records, i) == model.steps[i] && link_fault(
                    records,
                    i,
                    lowered(kernels, ops, input_length, i)->Ok_0.length,
                ) is None && lowered(kernels, ops, input_length, i) is Ok
        }),
    decreases count,
{
    if count > 0 {
        records_decode(kernels, ops, input_length, count - 1);
        let front = records_of(kernels, ops, input_length, count - 1);
        let before = lowered(kernels, ops, input_length, count - 1)->Ok_0;
        let step = lowered_step(kernels, ops[count - 1], before.length, count - 1)->Ok_0;
        let tail = record_bytes(step, before.length as u32);
        let records = records_of(kernels, ops, input_length, count);
        let model = lowered(kernels, ops, input_length, count)->Ok_0;
        record_decodes(step, before.length as u32);
        match step {
            Step::Matmul { m, k, n, .. } => {
                assert(0 <= m * n) by (nonlinear_arith)
                    requires
                        0 <= m,
                        0 <= n,
                ;
            },
            Step::MatmulAct { m, k, n, .. } => {
                small_product(m, n);
            },
            _ => {},
        }
        assert forall|i: int| 0 <= i < count implies #[trigger] step_of(records, i)
            == model.steps[i] && link_fault(
            records,
            i,
            lowered(kernels, ops, input_length, i)->Ok_0.length,
        ) is None && lowered(kernels, ops, input_length, i) is Ok by {
            if i < count - 1 {
                earlier_record_stays(front, tail, i);
                assert(step_of(front, i) == before.steps[i]);
            } else {
                assert(records.subrange(16 * i, 16 * i + 16) =~= tail);
                record_in_stream(records, i);
            }
        }
    }
}

/// Records that link compile to the lengths that lowering computed, unless the
/// plan has too many segments.
proof fn linked_records_compile(
    kernels: Seq<(Seq<char>, u16)>,
    ops: Seq<IrOpModel>,
    input_length: int,
    records: Seq<u8>,
    count: int,
)
    requires
        0 <= count <= ops.len(),
        0 <= input_length <= usize::MAX,
        lowering(kernels, ops, input_length) is Ok,
        records == records_of(kernels, ops, input_length, ops.len() as int),
    ensures
        match compiled(records, input_length, count) {
            Ok(model) => lowered(kernels, ops, input_length, count) is Ok && model.output_length
                == lowered(kernels, ops, input_length, count)->Ok_0.length,
            Err(error) => error == ExecuteError::PlanSegments,
        },
    decreases count,
{
    if count > 0 {
        linked_records_compile(kernels, ops, input_length, records, count - 1);
        records_decode(kernels, ops, input_length, ops.len() as int);
        let all = lowering(kernels, ops, input_length)->Ok_0;
        assert(step_of(records, count - 1) == all.steps[count - 1]);
        steps_stay(kernels, ops, input_length, count, ops.len() as int);
        steps_stay(kernels, ops, input_length, count - 1, count);
        let part = lowered(kernels, ops, input_length, count)->Ok_0;
        let prior = lowered(kernels, ops, input_length, count - 1)->Ok_0;
        assert(part.steps[count - 1] == all.steps[count - 1]);
        assert(part.length == part.steps[count - 1].produces(prior.length));
        if compiled(records, input_length, count - 1) is Ok {
            let before = compiled(records, input_length, count - 1)->Ok_0;
            assert(compiled(records, input_length, count) == extended(
                records,
                before,
                count - 1,
            ));
        }
    }
}

/// The steps of a front of the operations are a front of the steps.
pub proof fn steps_stay(
    kernels: Seq<(Seq<char>, u16)>,
    ops: Seq<IrOpModel>,
    input_length: int,
    early: int,
    late: int,
)
    requires
        0 <= early <= late,
        lowered(kernels, ops, input_length, late) is Ok,
    ensures
        lowered(kernels, ops, input_length, early) is Ok,
        lowered(kernels, ops, input_length, early)->Ok_0.steps.len() == early,
        lowered(kernels, ops, input_length, late)->Ok_0.steps.len() == late,
        forall|i: int|
            0 <= i < early ==> #[trigger] lowered(
                kernels,
                ops,
                input_length,
                early,
            )->Ok_0.steps[i] == lowered(kernels, ops, input_length, late)->Ok_0.steps[i],
    decreases late,
{
    if early < late {
        steps_stay(kernels, ops, input_length, early, late - 1);
        steps_stay(kernels, ops, input_length, late - 1, late - 1);
    } else if late > 0 {
        steps_stay(kernels, ops, input_length, late - 1, late - 1);
    }
}

/// What lowering emits, the compiler accepts: the records of a lowered plan
/// decode to its steps and link, so that compiling them succeeds or finds too
/// many segments.
pub proof fn lowered_plans_compile(
    kernels: Seq<(Seq<char>, u16)>,
    ops: Seq<IrOpModel>,
    input_length: int,
)
    requires
        0 <= input_length <= usize::MAX,
        lowering(kernels, ops, input_length) is Ok,
    ensures
        ({
            let records = records_of(kernels, ops, input_length, ops.len() as int);
            &&& steps_of(records) == lowering(kernels, ops, input_length)->Ok_0.steps
            &&& match compilation(records, input_length) {
                Ok(model) => model.output_length == lowering(
                    kernels,
                    ops,
                    input_length,
                )->Ok_0.length,
                Err(error) => error == ExecuteError::PlanSegments,
            }
        }),
{
    let count = ops.len() as int;
    let records = records_of(kernels, ops, input_length, count);
    records_decode(kernels, ops, input_length, count);
    linked_records_compile(kernels, ops, input_length, records, count);
    assert(steps_of(records) =~= lowering(kernels, ops, input_length)->Ok_0.steps);
}

/// Running the steps one after the other stopped at a dispatch that failed with
/// `message`.
pub open spec fn steps_failed<D: PluginDispatch, A: Fn(u32, u32) -> u32>(
    plugins: D,
    sum: A,
    steps: Seq<Step>,
    input: Seq<u32>,
    message: String,
) -> bool {
    exists|done: int, middle: Seq<u32>, after: Seq<u32>|
        0 <= done < steps.len() && #[trigger] steps_ran(
            plugins,
            sum,
            steps.take(done),
            input,
            middle,
        ) && step_dispatch(steps[done]) is Some && #[trigger] dispatch_returned(
            plugins,
            step_dispatch(steps[done])->Some_0.0,
            step_dispatch(steps[done])->Some_0.1,
            middle,
            after,
            Some(message),
        )
}

/// The bits of the quiet not-a-number that stands for a missing value.
pub const MISSING_VALUE: u32 = 0x7fc0_0000;

/// What the comparison of a plan's output with the direct evaluation reports:
/// the first element that differs, or the shorter length.
pub open spec fn mismatch(
    plan: Seq<u32>,
    reference: Seq<u32>,
    index: int,
    plan_value: u32,
    reference_value: u32,
) -> bool {
    if plan.len() != reference.len() {
        &&& index == (if plan.len() < reference.len() {
            plan.len()
        } else {
            reference.len()
        })
        &&& plan_value == MISSING_VALUE
        &&& reference_value == MISSING_VALUE
    } else {
        &&& 0 <= index < plan.len()
        &&& plan_value == plan[index]
        &&& reference_value == reference[index]
        &&& plan_value != reference_value
        &&& forall|i: int| 0 <= i < index ==> plan[i] == reference[i]
    }
}

/// Compares a plan's output bitwise with the direct evaluation.
pub fn compare_outputs(plan: &[u32], reference: &[u32]) -> (result: Result<(), IrError>)
    ensures
        match result {
            Ok(_) => plan@ == reference@,
            Err(IrError::Certification { index, plan: value, reference: other }) => mismatch(
                plan@,
                reference@,
                index as int,
                value,
                other,
            ),
            Err(_) => false,
        },
{
    if plan.len() != reference.len() {
        let index: usize = if plan.len() < reference.len() {
            plan.len()
        } else {
            reference.len()
        };
        return Err(
            IrError::Certification { index, plan: MISSING_VALUE, reference: MISSING_VALUE },
        );
    }
    let mut index: usize = 0;
    while index < plan.len()
        invariant
            index <= plan@.len(),
            plan@.len() == reference@.len(),
            forall|i: int| 0 <= i < index ==> plan@[i] == reference@[i],
        decreases plan@.len() - index,
    {
        if plan[index] != reference[index] {
            return Err(
                IrError::Certification { index, plan: plan[index], reference: reference[index] },
            );
        }
        index += 1;
    }
    assert(plan@ =~= reference@);
    Ok(())
}

/// The dispatch of a kernel operation goes to the kernel that its step names.
proof fn resolution_names_first(kernels: Seq<(Seq<char>, u16)>, name: Seq<char>, expected: u16)
    requires
        resolution(kernels, name, expected) is Ok,
    ensures
        first_named(kernels, name) == Some(resolution(kernels, name, expected)->Ok_0 as int),
        kernels[resolution(kernels, name, expected)->Ok_0 as int].1 == expected,
        0 <= resolution(kernels, name, expected)->Ok_0 < kernels.len(),
{
    first_named_is_first(kernels, name);
}

impl IrPlan {
    /// Evaluates one operation directly.
    fn evaluate_op<P, D: PluginDispatch, A: Fn(u32, u32) -> u32>(
        op: &IrOp,
        current: Vec<u32>,
        registry: &PluginRegistry<P>,
        plugins: &D,
        sum: &A,
        op_index: usize,
    ) -> (result: Result<Vec<u32>, PluginError>)
        requires
            total(*sum),
            lowered_step(
                registry.kernels(),
                op.model(),
                current@.len() as int,
                op_index as int,
            ) is Ok,
        ensures
            ({
                let step = lowered_step(
                    registry.kernels(),
                    op.model(),
                    current@.len() as int,
                    op_index as int,
                )->Ok_0;
                match result {
                    Ok(output) => step_ran(*plugins, *sum, step, current@, output@),
                    Err(PluginError::Dispatch(message)) => step_dispatch(step) is Some && exists|
                        after: Seq<u32>,
                    | #[trigger]
                        dispatch_returned(
                            *plugins,
                            step_dispatch(step)->Some_0.0,
                            step_dispatch(step)->Some_0.1,
                            current@,
                            after,
                            Some(message),
                        ),
                    Err(_) => false,
                }
            }),
    {
        let length: usize = current.len();
        let ghost step = lowered_step(
            registry.kernels(),
            op.model(),
            current@.len() as int,
            op_index as int,
        )->Ok_0;
        match op {
            IrOp::Copy => Ok(current),
            IrOp::AddScalar { value } => {
                let mut values: Vec<u32> = current;
                add_scalar_in_place(sum, values.as_mut_slice(), *value);
                Ok(values)
            },
            IrOp::PluginElementwise { kernel } => {
                proof {
                    resolution_names_first(registry.kernels(), kernel@, OPERATION_ELEMENTWISE);
                }
                let mut output: Vec<u32> = vec![0;length];
                match registry.run_f32(
                    kernel.as_str(),
                    current.as_slice(),
                    output.as_mut_slice(),
                    plugins,
                ) {
                    Ok(()) => Ok(output),
                    Err(error) => {
                        assert(dispatch_returned(
                            *plugins,
                            step_dispatch(step)->Some_0.0,
                            step_dispatch(step)->Some_0.1,
                            current@,
                            output@,
                            Some(error->Dispatch_0),
                        ));
                        Err(error)
                    },
                }
            },
            IrOp::Matmul { kernel, m, k, n } => {
                let (_consumed, produced): (u128, u64) = matmul_lengths(*m, *k, *n);
                proof {
                    resolution_names_first(registry.kernels(), kernel@, OPERATION_MATMUL);
                }
                let mut output: Vec<u32> = vec![0;produced as usize];
                match registry.run_matmul(
                    kernel.as_str(),
                    current.as_slice(),
                    output.as_mut_slice(),
                    *m,
                    *k,
                    *n,
                    plugins,
                ) {
                    Ok(()) => Ok(output),
                    Err(error) => {
                        assert(dispatch_returned(
                            *plugins,
                            step_dispatch(step)->Some_0.0,
                            step_dispatch(step)->Some_0.1,
                            current@,
                            output@,
                            Some(error->Dispatch_0),
                        ));
                        Err(error)
                    },
                }
            },
            IrOp::MatmulAct { kernel, m, k, n, activation } => {
                let (_consumed, produced): (u128, u64) = matmul_lengths(
                    *m as u32,
                    *k as u32,
                    *n as u32,
                );
                proof {
                    small_product(*m, *n);
                    resolution_names_first(registry.kernels(), kernel@, OPERATION_MATMUL_ACT);
                }
                let mut output: Vec<u32> = vec![0;produced as usize];
                match registry.run_matmul_act(
                    kernel.as_str(),
                    current.as_slice(),
                    output.as_mut_slice(),
                    *m as u32,
                    *k as u32,
                    *n as u32,
                    *activation as u32,
                    plugins,
                ) {
                    Ok(()) => Ok(output),
                    Err(error) => {
                        assert(dispatch_returned(
                            *plugins,
                            step_dispatch(step)->Some_0.0,
                            step_dispatch(step)->Some_0.1,
                            current@,
                            output@,
                            Some(error->Dispatch_0),
                        ));
                        Err(error)
                    },
                }
            },
        }
    }

    /// Executes the plan directly, operation by operation, with typed registry
    /// dispatch and independent of the plan machinery. This is the
    /// certification oracle.
    pub fn evaluate<P, D: PluginDispatch, A: Fn(u32, u32) -> u32>(
        &self,
        input: &[u32],
        registry: &PluginRegistry<P>,
        plugins: &D,
        sum: &A,
    ) -> (result: Result<Vec<u32>, IrError>)
        requires
            total(*sum),
            lowering(registry.kernels(), self.model().ops, input@.len() as int) is Ok,
        ensures
            ({
                let steps = lowering(
                    registry.kernels(),
                    self.model().ops,
                    input@.len() as int,
                )->Ok_0.steps;
                match result {
                    Ok(output) => steps_ran(*plugins, *sum, steps, input@, output@),
                    Err(IrError::Plugin(PluginError::Dispatch(message))) => steps_failed(
                        *plugins,
                        *sum,
                        steps,
                        input@,
                        message,
                    ),
                    Err(_) => false,
                }
            }),
            match result {
                Ok(output) => operations_ran(
                    *plugins,
                    *sum,
                    registry.kernels(),
                    self.model().ops,
                    self.model().ops.len() as int,
                    input@,
                    output@,
                ),
                Err(IrError::Plugin(PluginError::Dispatch(message))) => operations_failed(
                    *plugins,
                    *sum,
                    registry.kernels(),
                    self.model().ops,
                    input@,
                    message,
                ),
                Err(_) => false,
            },
    {
        let ops: &[IrOp] = self.ops();
        let ghost model = self.model().ops;
        let ghost kernels = registry.kernels();
        let ghost length = input@.len() as int;
        let ghost steps = lowering(kernels, model, length)->Ok_0.steps;
        let mut current: Vec<u32> = Vec::new();
        current.extend_from_slice(input);
        assert(current@ =~= input@);
        let mut index: usize = 0;
        proof {
            steps_stay(kernels, model, length, 0, model.len() as int);
            assert(steps.take(0).len() == 0);
        }
        while index < ops.len()
            invariant
                total(*sum),
                index <= ops@.len(),
                ops@.len() == model.len(),
                model == self.model().ops,
                kernels == registry.kernels(),
                length == input@.len(),
                forall|i: int| 0 <= i < ops@.len() ==> (#[trigger] ops@[i]).model() == model[i],
                lowering(kernels, model, length) is Ok,
                steps == lowering(kernels, model, length)->Ok_0.steps,
                lowered(kernels, model, length, index as int) is Ok,
                lowered(kernels, model, length, index as int)->Ok_0.length == current@.len(),
                steps_ran(*plugins, *sum, steps.take(index as int), input@, current@),
            decreases ops@.len() - index,
        {
            let ghost before = current@;
            proof {
                assert(ops@[index as int].model() == model[index as int]);
                steps_stay(kernels, model, length, index + 1, model.len() as int);
                steps_stay(kernels, model, length, index as int, index + 1);
                let part = lowered(kernels, model, length, index + 1)->Ok_0;
                assert(part.steps[index as int] == steps[index as int]);
                let longer = steps.take(index + 1);
                assert(longer.drop_last() =~= steps.take(index as int));
                assert(longer.last() == steps[index as int]);
            }
            match IrPlan::evaluate_op(&ops[index], current, registry, plugins, sum, index) {
                Ok(output) => {
                    current = output;
                },
                Err(error) => {
                    assert(steps_ran(
                        *plugins,
                        *sum,
                        steps.take(index as int),
                        input@,
                        before,
                    ));
                    proof {
                        lowered_plans_mean_their_operations(
                            *plugins,
                            *sum,
                            kernels,
                            model,
                            input@,
                            before,
                            error->Dispatch_0,
                        );
                    }
                    return Err(IrError::Plugin(error));
                },
            }
            assert(step_ran(
                *plugins,
                *sum,
                steps.take(index + 1).last(),
                before,
                current@,
            ));
            index += 1;
        }
        proof {
            steps_stay(kernels, model, length, model.len() as int, model.len() as int);
            assert(steps.take(index as int) =~= steps);
            lowered_plans_mean_their_operations(
                *plugins,
                *sum,
                kernels,
                model,
                input@,
                current@,
                arbitrary(),
            );
        }
        Ok(current)
    }

    /// Behavioral certification: lowers the plan, compiles and executes it
    /// through the runtime, and compares every output value bitwise against the
    /// direct evaluation. With deterministic arithmetic and kernels there is
    /// nothing to find, so a mismatch means that one of them is not
    /// deterministic.
    pub fn certify<P, D: PluginDispatch, A: Fn(u32, u32) -> u32>(
        &self,
        input: &[u32],
        registry: &PluginRegistry<P>,
        scratch: &mut [u32],
        plugins: &D,
        sum: &A,
    ) -> (result: Result<Vec<u32>, IrError>)
        requires
            total(*sum),
        ensures
            certified(
                *plugins,
                *sum,
                registry.kernels(),
                self.model().ops,
                input@,
                old(scratch)@.len(),
                result,
            ),
            sum_is_functional(*sum) && dispatch_is_functional(*plugins) && self.model().ops.len()
                > 0 ==> !(result is Err && result->Err_0 is Certification),
    {
        if input.len() > MAX_VALUES {
            return Err(IrError::InputTooLarge { required: input.len(), capacity: MAX_VALUES });
        }
        let ghost kernels = registry.kernels();
        let ghost ops = self.model().ops;
        let ghost length = input@.len() as int;
        let records: Vec<u8> = match self.lower(registry, input.len()) {
            Ok(records) => records,
            Err(error) => return Err(error),
        };
        proof {
            lowered_plans_compile(kernels, ops, length);
        }
        let plan: CompiledPlan = match compile_plan(records.as_slice(), input.len()) {
            Ok(plan) => plan,
            Err(error) => return Err(IrError::Compile(error)),
        };
        let mut arena = SessionArena::new();
        match arena.load_input(input) {
            Ok(()) => {},
            Err(_) => {
                return Err(
                    IrError::InputTooLarge { required: input.len(), capacity: MAX_VALUES },
                );
            },
        }
        match execute_compiled_plan(&mut arena, &plan, scratch, plugins, sum) {
            Ok(()) => {},
            Err(error) => return Err(IrError::Execute(error)),
        }
        let ghost steps = lowering(kernels, ops, length)->Ok_0.steps;
        proof {
            steps_stay(kernels, ops, length, 0, ops.len() as int);
            records_decode(kernels, ops, length, ops.len() as int);
            fusion_preserves_meaning(
                *plugins,
                *sum,
                records@,
                length,
                input@,
                arena.output_values(),
            );
            crate::executor::segments_follow_records(
                records@,
                length,
                records@.len() as int / 16,
            );
        }
        let reference: Vec<u32> = match self.evaluate(input, registry, plugins, sum) {
            Ok(reference) => reference,
            Err(error) => return Err(error),
        };
        let output: &[u32] = arena.output();
        assert(plan_output(*plugins, *sum, steps, input@, output@));
        match compare_outputs(output, reference.as_slice()) {
            Ok(()) => {},
            Err(error) => {
                proof {
                    if sum_is_functional(*sum) && dispatch_is_functional(*plugins) && ops.len()
                        > 0 {
                        steps_are_deterministic(
                            *plugins,
                            *sum,
                            steps,
                            input@,
                            output@,
                            reference@,
                        );
                        assert(false);
                    }
                }
                return Err(error);
            },
        }
        Ok(reference)
    }
}

/// What a plan of these steps leaves in the output: what the steps make of the
/// input, or nothing where there are none.
pub open spec fn plan_output<D: PluginDispatch, A: Fn(u32, u32) -> u32>(
    plugins: D,
    sum: A,
    steps: Seq<Step>,
    input: Seq<u32>,
    output: Seq<u32>,
) -> bool {
    if steps.len() == 0 {
        output.len() == 0
    } else {
        steps_ran(plugins, sum, steps, input, output)
    }
}

/// What certification comes to.
pub open spec fn certified<D: PluginDispatch, A: Fn(u32, u32) -> u32>(
    plugins: D,
    sum: A,
    kernels: Seq<(Seq<char>, u16)>,
    ops: Seq<IrOpModel>,
    input: Seq<u32>,
    scratch: nat,
    result: Result<Vec<u32>, IrError>,
) -> bool {
    if input.len() > MAX_VALUES {
        result == Err::<Vec<u32>, _>(
            IrError::InputTooLarge { required: input.len() as usize, capacity: MAX_VALUES },
        )
    } else {
        match lowering(kernels, ops, input.len() as int) {
            Err(fault) => result is Err && lower_error(result->Err_0, fault),
            Ok(lowered) => match compilation(
                records_of(kernels, ops, input.len() as int, ops.len() as int),
                input.len() as int,
            ) {
                Err(error) => result is Err && result->Err_0 == IrError::Compile(error),
                Ok(model) => match admission_fault(model, input.len(), scratch) {
                    Some(error) => result is Err && result->Err_0 == IrError::Execute(error),
                    None => match result {
                        Ok(values) => steps_ran(plugins, sum, lowered.steps, input, values@)
                            && plan_output(plugins, sum, lowered.steps, input, values@),
                        Err(IrError::Execute(ExecuteError::Plugin(message))) => segments_failed(
                            plugins,
                            sum,
                            model.segments,
                            input,
                            message,
                        ),
                        Err(IrError::Plugin(PluginError::Dispatch(message))) => steps_failed(
                            plugins,
                            sum,
                            lowered.steps,
                            input,
                            message,
                        ),
                        Err(IrError::Certification { index, plan, reference }) => exists|
                            output: Seq<u32>,
                            evaluation: Seq<u32>,
                        |
                            plan_output(plugins, sum, lowered.steps, input, output) && steps_ran(
                                plugins,
                                sum,
                                lowered.steps,
                                input,
                                evaluation,
                            ) && #[trigger] mismatch(
                                output,
                                evaluation,
                                index as int,
                                plan,
                                reference,
                            ),
                        Err(_) => false,
                    },
                },
            },
        }
    }
}

/// Certifying a plan with operations that lowers, compiles and is admitted,
/// with arithmetic and kernels that are deterministic and do not fail, succeeds
/// with the one value of its direct evaluation.
pub proof fn deterministic_plans_certify<D: PluginDispatch, A: Fn(u32, u32) -> u32>(
    plugins: D,
    sum: A,
    kernels: Seq<(Seq<char>, u16)>,
    ops: Seq<IrOpModel>,
    input: Seq<u32>,
    scratch: nat,
    result: Result<Vec<u32>, IrError>,
)
    requires
        ops.len() > 0,
        input.len() <= MAX_VALUES,
        lowering(kernels, ops, input.len() as int) is Ok,
        ({
            let records = records_of(kernels, ops, input.len() as int, ops.len() as int);
            let plan = compilation(records, input.len() as int);
            plan is Ok && admission_fault(plan->Ok_0, input.len(), scratch) is None
        }),
        sum_is_functional(sum),
        dispatch_is_functional(plugins),
        dispatch_never_fails(plugins),
        certified(plugins, sum, kernels, ops, input, scratch, result),
    ensures
        ({
            let steps = lowering(kernels, ops, input.len() as int)->Ok_0.steps;
            &&& result is Ok
            &&& steps_ran(plugins, sum, steps, input, result->Ok_0@)
            &&& forall|output: Seq<u32>| #[trigger]
                steps_ran(plugins, sum, steps, input, output) ==> output == result->Ok_0@
        }),
{
    let length = input.len() as int;
    let steps = lowering(kernels, ops, length)->Ok_0.steps;
    let segments = compilation(
        records_of(kernels, ops, length, ops.len() as int),
        length,
    )->Ok_0.segments;
    steps_stay(kernels, ops, length, 0, ops.len() as int);
    match result {
        Ok(values) => {
            assert forall|output: Seq<u32>| #[trigger]
                steps_ran(plugins, sum, steps, input, output) implies output == values@ by {
                steps_are_deterministic(plugins, sum, steps, input, output, values@);
            }
        },
        Err(IrError::Execute(ExecuteError::Plugin(message))) => {
            let (done, middle, left) = choose|done: int, middle: Seq<u32>, left: Seq<u32>|
                0 <= done < segments.len() && #[trigger] segments_ran(
                    plugins,
                    sum,
                    segments.take(done),
                    input,
                    middle,
                ) && #[trigger] segment_failed(plugins, segments[done], middle, left, message);
            assert(segment_failed(plugins, segments[done], middle, left, message));
        },
        Err(IrError::Certification { index, plan, reference }) => {
            let (output, evaluation) = choose|output: Seq<u32>, evaluation: Seq<u32>|
                plan_output(plugins, sum, steps, input, output) && steps_ran(
                    plugins,
                    sum,
                    steps,
                    input,
                    evaluation,
                ) && #[trigger] mismatch(output, evaluation, index as int, plan, reference);
            steps_are_deterministic(plugins, sum, steps, input, output, evaluation);
        },
        _ => {},
    }
}

} // verus!
