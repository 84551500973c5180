//! Bounded CPU-native operation executor over fixed-width records.
//!
//! Arithmetic on values is handed in by the caller as `sum`, the addition of
//! two singles given and taken as bit patterns. Contracts speak of it through
//! what `sum` may return, so they hold whatever its rounding is.
use crate::arena::{copy_values, ArenaError, SessionArena, MAX_VALUES};
use crate::bytes::{fields_of_subrange, u16_at, u32_at};
use crate::bytes::{get_u16, get_u32};
use vstd::prelude::*;

verus! {

pub const OPERATION_SECTION: u32 = 1;

pub const OPERATION_BYTES: usize = 16;

pub const COPY_OPCODE: u16 = 0;

pub const ADD_SCALAR_OPCODE: u16 = 1;

pub const PLUGIN_OPCODE: u16 = 2;

pub const PLUGIN_MATMUL_OPCODE: u16 = 3;

pub const PLUGIN_MATMUL_ACT_OPCODE: u16 = 4;

#[derive(Clone, Copy, Debug, PartialEq, Eq, Structural)]
pub enum Operation {
    AddScalar { value: u32 },
    Copy,
}

#[derive(Debug, PartialEq, Eq)]
pub enum ExecuteError {
    /// The session arena is too small.
    Arena(ArenaError),
    /// The record section does not hold whole records.
    RecordAlignment(usize),
    /// A record is truncated.
    RecordTruncated(usize),
    /// A record has an opcode that is not supported.
    UnknownOpcode(usize, u16),
    /// A record has incompatible lengths.
    RecordLength(usize),
    /// A record breaks the input/output length chain.
    RecordChain(usize),
    /// The plan has more segments than a compiled plan can hold.
    PlanSegments,
    /// The session input does not have the length that the plan expects.
    PlanLength { expected: usize, actual: usize },
    /// The plan's identity could not be computed.
    Identity(String),
    /// A plugin refused a dispatch.
    Plugin(String),
}

/// What a plugin kernel is asked to compute, besides its input.
#[derive(Clone, Copy, Debug, PartialEq, Eq, Structural)]
pub enum KernelCall {
    Elementwise,
    Matmul { m: u32, k: u32, n: u32 },
    MatmulAct { m: u32, k: u32, n: u32, activation: u32 },
}

/// The failure that a dispatch reports, if it failed.
pub open spec fn failure(result: Result<(), String>) -> Option<String> {
    match result {
        Ok(_) => None,
        Err(message) => Some(message),
    }
}

/// Dispatch of plugin kernels by their index in an admitted kernel table.
/// `dispatched` relates a call to its outcomes: what the output held before
/// and holds after it, and the failure that the call reported, if any. A type
/// that does not say which outcomes it has may have any.
pub trait PluginDispatch {
    open spec fn dispatched(
        &self,
        index: usize,
        call: KernelCall,
        input: Seq<u32>,
        before: Seq<u32>,
        after: Seq<u32>,
        failure: Option<String>,
    ) -> bool {
        true
    }

    fn run_index(&self, index: usize, input: &[u32], output: &mut [u32]) -> (result: Result<
        (),
        String,
    >)
        ensures
            final(output)@.len() == old(output)@.len(),
            self.dispatched(
                index,
                KernelCall::Elementwise,
                input@,
                old(output)@,
                final(output)@,
                failure(result),
            ),
    ;

    fn run_matmul_index(
        &self,
        index: usize,
        m: u32,
        k: u32,
        n: u32,
        input: &[u32],
        output: &mut [u32],
    ) -> (result: Result<(), String>)
        ensures
            final(output)@.len() == old(output)@.len(),
            self.dispatched(
                index,
                (KernelCall::Matmul { m, k, n }),
                input@,
                old(output)@,
                final(output)@,
                failure(result),
            ),
    ;

    fn run_matmul_act_index(
        &self,
        index: usize,
        m: u32,
        k: u32,
        n: u32,
        activation: u32,
        input: &[u32],
        output: &mut [u32],
    ) -> (result: Result<(), String>)
        ensures
            final(output)@.len() == old(output)@.len(),
            self.dispatched(
                index,
                (KernelCall::MatmulAct { m, k, n, activation }),
                input@,
                old(output)@,
                final(output)@,
                failure(result),
            ),
    ;
}

/// `sum` can be called on every pair of values.
pub open spec fn total<A: Fn(u32, u32) -> u32>(sum: A) -> bool {
    forall|x: u32, y: u32| call_requires(sum, (x, y))
}

/// Every value of `after` is a sum of the value at the same place in `before`
/// and `operand`.
pub open spec fn summed<A: Fn(u32, u32) -> u32>(
    sum: A,
    before: Seq<u32>,
    operand: u32,
    after: Seq<u32>,
) -> bool {
    &&& after.len() == before.len()
    &&& forall|i: int|
        0 <= i < before.len() ==> call_ensures(sum, (before[i], operand), #[trigger] after[i])
}

/// `after` is what `operation` makes of `before`.
pub open spec fn applied<A: Fn(u32, u32) -> u32>(
    sum: A,
    operation: Operation,
    before: Seq<u32>,
    after: Seq<u32>,
) -> bool {
    match operation {
        Operation::Copy => after == before,
        Operation::AddScalar { value } => summed(sum, before, value, after),
    }
}

/// `output[i] = input[i] + operand`.
pub fn copy_add<A: Fn(u32, u32) -> u32>(
    sum: &A,
    input: &[u32],
    output: &mut [u32],
    operand: u32,
)
    requires
        total(*sum),
        old(output)@.len() == input@.len(),
    ensures
        summed(*sum, input@, operand, final(output)@),
{
    let mut index: usize = 0;
    while index < input.len()
        invariant
            total(*sum),
            index <= input@.len(),
            output@.len() == input@.len(),
            forall|i: int|
                0 <= i < index ==> call_ensures(*sum, (input@[i], operand), #[trigger] output@[i]),
        decreases input@.len() - index,
    {
        let value: u32 = sum(input[index], operand);
        output[index] = value;
        index += 1;
    }
}

/// `values[i] += operand`.
pub fn add_scalar_in_place<A: Fn(u32, u32) -> u32>(sum: &A, values: &mut [u32], operand: u32)
    requires
        total(*sum),
    ensures
        summed(*sum, old(values)@, operand, final(values)@),
{
    let mut index: usize = 0;
    let ghost before = values@;
    while index < values.len()
        invariant
            total(*sum),
            index <= values@.len(),
            values@.len() == before.len(),
            forall|i: int|
                0 <= i < index ==> call_ensures(*sum, (before[i], operand), #[trigger] values@[i]),
            forall|i: int| index <= i < before.len() ==> values@[i] == before[i],
        decreases values@.len() - index,
    {
        let value: u32 = sum(values[index], operand);
        values[index] = value;
        index += 1;
    }
}

/// Applies one operation to the session input, through scratch storage of the
/// executor's own.
pub fn execute<A: Fn(u32, u32) -> u32>(
    arena: &mut SessionArena,
    operation: Operation,
    sum: &A,
) -> (result: Result<(), ExecuteError>)
    requires
        total(*sum),
        old(arena).well_formed(),
    ensures
        final(arena).well_formed(),
        final(arena).input_values() == old(arena).input_values(),
        result == Ok::<_, ExecuteError>(()),
        applied(*sum, operation, old(arena).input_values(), final(arena).output_values()),
{
    let mut scratch: [u32; MAX_VALUES] = [0;MAX_VALUES];
    proof {
        arena.within_capacity();
    }
    execute_with_scratch(arena, operation, &mut scratch, sum)
}

/// Applies one operation to the session input, through the caller's scratch.
pub fn execute_with_scratch<A: Fn(u32, u32) -> u32>(
    arena: &mut SessionArena,
    operation: Operation,
    scratch: &mut [u32],
    sum: &A,
) -> (result: Result<(), ExecuteError>)
    requires
        total(*sum),
        old(arena).well_formed(),
    ensures
        final(arena).well_formed(),
        final(arena).input_values() == old(arena).input_values(),
        final(scratch)@.len() == old(scratch)@.len(),
        match scratch_fault(old(scratch)@.len(), old(arena).input_values().len()) {
            Some(error) => {
                &&& result == Err::<(), _>(error)
                &&& *final(arena) == *old(arena)
                &&& final(scratch)@ == old(scratch)@
            },
            None => {
                &&& result == Ok::<_, ExecuteError>(())
                &&& applied(
                    *sum,
                    operation,
                    old(arena).input_values(),
                    final(arena).output_values(),
                )
                &&& final(scratch)@ == old(arena).input_values() + old(scratch)@.skip(
                    old(arena).input_values().len() as int,
                )
            },
        },
{
    let length: usize = arena.input().len();
    if scratch.len() < length {
        return Err(
            ExecuteError::Arena(
                ArenaError::InputTooLarge { required: length, capacity: scratch.len() },
            ),
        );
    }
    copy_values(arena.input(), scratch);
    let ghost input = arena.input_values();
    let output = match arena.output_mut(length) {
        Ok(output) => output,
        Err(error) => return Err(ExecuteError::Arena(error)),
    };
    let values: &[u32] = &scratch[0..length];
    assert(values@ =~= input);
    match operation {
        Operation::AddScalar { value } => copy_add(sum, values, output, value),
        Operation::Copy => {
            copy_values(values, output);
            assert(output@ =~= input);
        },
    }
    Ok(())
}

/// The error of an execution whose scratch is shorter than its input.
pub open spec fn scratch_fault(scratch: nat, input: nat) -> Option<ExecuteError> {
    if scratch < input {
        Some(
            ExecuteError::Arena(
                ArenaError::InputTooLarge {
                    required: input as usize,
                    capacity: scratch as usize,
                },
            ),
        )
    } else {
        None
    }
}

/// The opcode of record `index`.
pub open spec fn opcode_of(records: Seq<u8>, index: int) -> u16 {
    u16_at(records, 16 * index)
}

/// The kernel index of a plugin record.
pub open spec fn plugin_of(records: Seq<u8>, index: int) -> u16 {
    u16_at(records, 16 * index + 2)
}

/// The operand of an add-scalar record.
pub open spec fn operand_of(records: Seq<u8>, index: int) -> u32 {
    u32_at(records, 16 * index + 4)
}

/// Both lengths of an elementwise record are `length`.
pub open spec fn lengths_match(records: Seq<u8>, index: int, length: nat) -> bool {
    u32_at(records, 16 * index + 8) == length && u32_at(records, 16 * index + 12) == length
}

/// The operation of a built-in record.
pub open spec fn operation_of(records: Seq<u8>, index: int) -> Operation {
    if opcode_of(records, index) == ADD_SCALAR_OPCODE {
        Operation::AddScalar { value: operand_of(records, index) }
    } else {
        Operation::Copy
    }
}

/// What stops the plain executor at record `index`, if anything.
pub open spec fn record_fault(
    records: Seq<u8>,
    index: int,
    length: nat,
    scratch: nat,
) -> Option<ExecuteError> {
    if !lengths_match(records, index, length) {
        Some(ExecuteError::RecordLength(index as usize))
    } else if opcode_of(records, index) > ADD_SCALAR_OPCODE {
        Some(ExecuteError::UnknownOpcode(index as usize, opcode_of(records, index)))
    } else {
        scratch_fault(scratch, length)
    }
}

/// The plain executor has run the first `done` records: none of them was
/// faulty, and the output is what the last of them makes of the session input.
pub open spec fn records_ran<A: Fn(u32, u32) -> u32>(
    sum: A,
    records: Seq<u8>,
    scratch: nat,
    before: SessionArena,
    after: SessionArena,
    done: int,
) -> bool {
    let input = before.input_values();
    &&& 0 <= done <= records.len() / 16
    &&& forall|i: int|
        0 <= i < done ==> #[trigger] record_fault(records, i, input.len(), scratch) is None
    &&& done == 0 ==> after == before
    &&& done > 0 ==> applied(
        sum,
        operation_of(records, done - 1),
        input,
        after.output_values(),
    )
}

/// Runs built-in records one by one, each on the session input.
pub fn execute_records<A: Fn(u32, u32) -> u32>(
    arena: &mut SessionArena,
    records: &[u8],
    sum: &A,
) -> (result: Result<(), ExecuteError>)
    requires
        total(*sum),
        old(arena).well_formed(),
    ensures
        final(arena).well_formed(),
        final(arena).input_values() == old(arena).input_values(),
        records@.len() % 16 != 0 ==> {
            &&& result == Err::<(), _>(ExecuteError::RecordAlignment(OPERATION_BYTES))
            &&& *final(arena) == *old(arena)
        },
        records@.len() % 16 == 0 ==> exists|done: int| #[trigger]
            records_ran(*sum, records@, MAX_VALUES as nat, *old(arena), *final(arena), done)
                && match result {
                Ok(_) => done == records@.len() / 16,
                Err(error) => done < records@.len() / 16 && record_fault(
                    records@,
                    done,
                    old(arena).input_values().len(),
                    MAX_VALUES as nat,
                ) == Some(error),
            },
{
    let mut scratch: [u32; MAX_VALUES] = [0;MAX_VALUES];
    execute_records_with_scratch(arena, records, &mut scratch, sum)
}

/// Runs built-in records one by one, each on the session input, through the
/// caller's scratch.
pub fn execute_records_with_scratch<A: Fn(u32, u32) -> u32>(
    arena: &mut SessionArena,
    records: &[u8],
    scratch: &mut [u32],
    sum: &A,
) -> (result: Result<(), ExecuteError>)
    requires
        total(*sum),
        old(arena).well_formed(),
    ensures
        final(arena).well_formed(),
        final(arena).input_values() == old(arena).input_values(),
        final(scratch)@.len() == old(scratch)@.len(),
        records@.len() % 16 != 0 ==> {
            &&& result == Err::<(), _>(ExecuteError::RecordAlignment(OPERATION_BYTES))
            &&& *final(arena) == *old(arena)
        },
        records@.len() % 16 == 0 ==> exists|done: int| #[trigger]
            records_ran(*sum, records@, old(scratch)@.len(), *old(arena), *final(arena), done)
                && match result {
                Ok(_) => done == records@.len() / 16,
                Err(error) => done < records@.len() / 16 && record_fault(
                    records@,
                    done,
                    old(arena).input_values().len(),
                    old(scratch)@.len(),
                ) == Some(error),
            },
{
    if records.len() % OPERATION_BYTES != 0 {
        return Err(ExecuteError::RecordAlignment(OPERATION_BYTES));
    }
    let count: usize = records.len() / OPERATION_BYTES;
    let length: usize = arena.input().len();
    let ghost before = *arena;
    let ghost capacity = scratch@.len();
    let mut index: usize = 0;
    while index < count
        invariant
            total(*sum),
            arena.well_formed(),
            arena.input_values() == before.input_values(),
            before == *old(arena),
            length == before.input_values().len(),
            records@.len() == 16 * count,
            scratch@.len() == capacity,
            capacity == old(scratch)@.len(),
            records_ran(*sum, records@, capacity, before, *arena, index as int),
        decreases count - index,
    {
        assert(records.len() == records@.len());
        let at: usize = 16 * index;
        let opcode: u16 = get_u16(records, at);
        let value: u32 = get_u32(records, at + 4);
        let input_length: u32 = get_u32(records, at + 8);
        let output_length: u32 = get_u32(records, at + 12);
        if input_length != output_length || input_length as usize != length {
            return Err(ExecuteError::RecordLength(index));
        }
        let operation = if opcode == COPY_OPCODE {
            Operation::Copy
        } else if opcode == ADD_SCALAR_OPCODE {
            Operation::AddScalar { value }
        } else {
            return Err(ExecuteError::UnknownOpcode(index, opcode));
        };
        match execute_with_scratch(arena, operation, scratch, sum) {
            Ok(()) => {},
            Err(error) => {
                assert(record_fault(records@, index as int, length as nat, capacity) == Some(
                    error,
                ));
                return Err(error);
            },
        }
        assert(record_fault(records@, index as int, length as nat, capacity) is None);
        index += 1;
    }
    Ok(())
}

/// `after` is what record `index` makes of `input`: a built-in operation, or
/// a dispatch to a plugin that succeeded on an output as long as the input.
pub open spec fn record_applied<D: PluginDispatch, A: Fn(u32, u32) -> u32>(
    plugins: D,
    sum: A,
    records: Seq<u8>,
    index: int,
    input: Seq<u32>,
    after: Seq<u32>,
) -> bool {
    if opcode_of(records, index) == PLUGIN_OPCODE {
        after.len() == input.len() && dispatch_returned(
            plugins,
            plugin_of(records, index) as usize,
            KernelCall::Elementwise,
            input,
            after,
            None,
        )
    } else {
        applied(sum, operation_of(records, index), input, after)
    }
}

/// A dispatch of `call` to kernel `index` on `input` left `after` in its
/// output, whatever the output held before, and reported `failure`.
pub open spec fn dispatch_returned<D: PluginDispatch>(
    plugins: D,
    index: usize,
    call: KernelCall,
    input: Seq<u32>,
    after: Seq<u32>,
    failure: Option<String>,
) -> bool {
    exists|before: Seq<u32>|
        before.len() == after.len() && #[trigger] plugins.dispatched(
            index,
            call,
            input,
            before,
            after,
            failure,
        )
}

/// What stops the executor with plugins at record `index` before any dispatch,
/// if anything.
pub open spec fn plugin_record_fault(
    records: Seq<u8>,
    index: int,
    length: nat,
    scratch: nat,
) -> Option<ExecuteError> {
    if !lengths_match(records, index, length) {
        Some(ExecuteError::RecordLength(index as usize))
    } else if opcode_of(records, index) == PLUGIN_OPCODE {
        None
    } else if opcode_of(records, index) > ADD_SCALAR_OPCODE {
        Some(ExecuteError::UnknownOpcode(index as usize, opcode_of(records, index)))
    } else {
        scratch_fault(scratch, length)
    }
}

/// The executor with plugins has run the first `done` records: none of them
/// was faulty, and the output is what the last of them makes of the session
/// input.
pub open spec fn plugin_records_ran<D: PluginDispatch, A: Fn(u32, u32) -> u32>(
    plugins: D,
    sum: A,
    records: Seq<u8>,
    scratch: nat,
    before: SessionArena,
    output: Seq<u32>,
    done: int,
) -> bool {
    let input = before.input_values();
    &&& 0 <= done <= records.len() / 16
    &&& forall|i: int|
        0 <= i < done ==> #[trigger] plugin_record_fault(records, i, input.len(), scratch) is None
    &&& done == 0 ==> output == before.output_values()
    &&& done > 0 ==> record_applied(plugins, sum, records, done - 1, input, output)
}

/// Runs records one by one, each on the session input. Plugin records read the
/// session input directly.
pub fn execute_records_with_plugins<D: PluginDispatch, A: Fn(u32, u32) -> u32>(
    arena: &mut SessionArena,
    records: &[u8],
    scratch: &mut [u32],
    plugins: &D,
    sum: &A,
) -> (result: Result<(), ExecuteError>)
    requires
        total(*sum),
        old(arena).well_formed(),
    ensures
        final(arena).well_formed(),
        final(arena).input_values() == old(arena).input_values(),
        final(scratch)@.len() == old(scratch)@.len(),
        records@.len() % 16 != 0 ==> {
            &&& result == Err::<(), _>(ExecuteError::RecordAlignment(OPERATION_BYTES))
            &&& *final(arena) == *old(arena)
        },
        records@.len() % 16 == 0 ==> match result {
            Ok(_) => plugin_records_ran(
                *plugins,
                *sum,
                records@,
                old(scratch)@.len(),
                *old(arena),
                final(arena).output_values(),
                records@.len() as int / 16,
            ),
            Err(ExecuteError::Plugin(message)) => exists|done: int, output: Seq<u32>| #[trigger]
                plugin_records_ran(
                    *plugins,
                    *sum,
                    records@,
                    old(scratch)@.len(),
                    *old(arena),
                    output,
                    done,
                ) && done < records@.len() / 16 && lengths_match(
                    records@,
                    done,
                    old(arena).input_values().len(),
                ) && opcode_of(records@, done) == PLUGIN_OPCODE
                    && final(arena).output_values().len() == old(arena).input_values().len()
                    && dispatch_returned(
                    *plugins,
                    plugin_of(records@, done) as usize,
                    KernelCall::Elementwise,
                    old(arena).input_values(),
                    final(arena).output_values(),
                    Some(message),
                ),
            Err(error) => exists|done: int| #[trigger]
                plugin_records_ran(
                    *plugins,
                    *sum,
                    records@,
                    old(scratch)@.len(),
                    *old(arena),
                    final(arena).output_values(),
                    done,
                ) && done < records@.len() / 16 && plugin_record_fault(
                    records@,
                    done,
                    old(arena).input_values().len(),
                    old(scratch)@.len(),
                ) == Some(error),
        },
{
    if records.len() % OPERATION_BYTES != 0 {
        return Err(ExecuteError::RecordAlignment(OPERATION_BYTES));
    }
    let count: usize = records.len() / OPERATION_BYTES;
    let length: usize = arena.input().len();
    let ghost before = *arena;
    let ghost capacity = scratch@.len();
    let ghost input = arena.input_values();
    proof {
        arena.within_capacity();
    }
    let mut index: usize = 0;
    while index < count
        invariant
            total(*sum),
            arena.well_formed(),
            arena.input_values() == input,
            before == *old(arena),
            input == before.input_values(),
            length == input.len(),
            length <= MAX_VALUES,
            records@.len() == 16 * count,
            scratch@.len() == capacity,
            capacity == old(scratch)@.len(),
            plugin_records_ran(
                *plugins,
                *sum,
                records@,
                capacity,
                before,
                arena.output_values(),
                index as int,
            ),
        decreases count - index,
    {
        assert(records.len() == records@.len());
        let at: usize = 16 * index;
        let opcode: u16 = get_u16(records, at);
        let input_length: u32 = get_u32(records, at + 8);
        let output_length: u32 = get_u32(records, at + 12);
        if input_length != output_length || input_length as usize != length {
            assert(plugin_record_fault(records@, index as int, input.len(), capacity) is Some);
            return Err(ExecuteError::RecordLength(index));
        }
        let ghost reached = arena.output_values();
        if opcode != PLUGIN_OPCODE {
            let record: &[u8] = &records[at..at + 16];
            let ghost earlier = *arena;
            proof {
                fields_of_subrange(records@, at as int, at + 16, 0);
                fields_of_subrange(records@, at as int, at + 16, 4);
                fields_of_subrange(records@, at as int, at + 16, 8);
                fields_of_subrange(records@, at as int, at + 16, 12);
            }
            match execute_records_with_scratch(arena, record, scratch, sum) {
                Ok(()) => {},
                Err(error) => {
                    proof {
                        assert(records_ran(*sum, record@, capacity, earlier, *arena, 0));
                        assert(record_fault(record@, 0, input.len(), capacity) == Some(error));
                        assert(arena.output_values() == reached);
                    }
                    // The record was handed on by itself; the error names its
                    // place in the stream.
                    let error = match error {
                        ExecuteError::UnknownOpcode(_, opcode) => ExecuteError::UnknownOpcode(
                            index,
                            opcode,
                        ),
                        error => error,
                    };
                    assert(plugin_record_fault(records@, index as int, input.len(), capacity)
                        == Some(error));
                    return Err(error);
                },
            }
            proof {
                assert(records_ran(*sum, record@, capacity, earlier, *arena, 1));
                assert(record_fault(record@, 0, input.len(), capacity) is None);
                assert(operation_of(record@, 0) == operation_of(records@, index as int));
            }
        } else {
            let kernel: u16 = get_u16(records, at + 2);
            let (values, output) = match arena.input_and_output_mut(length) {
                Ok(pair) => pair,
                Err(error) => return Err(ExecuteError::Arena(error)),
            };
            match plugins.run_index(kernel as usize, values, output) {
                Ok(()) => {
                    assert(dispatch_returned(
                        *plugins,
                        plugin_of(records@, index as int) as usize,
                        KernelCall::Elementwise,
                        input,
                        arena.output_values(),
                        None,
                    ));
                },
                Err(message) => {
                    assert(dispatch_returned(
                        *plugins,
                        plugin_of(records@, index as int) as usize,
                        KernelCall::Elementwise,
                        input,
                        arena.output_values(),
                        Some(message),
                    ));
                    return Err(ExecuteError::Plugin(message));
                },
            }
        }
        assert(plugin_record_fault(records@, index as int, input.len(), capacity) is None);
        index += 1;
    }
    Ok(())
}

} // verus!
