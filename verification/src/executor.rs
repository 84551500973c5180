//! Execution of compiled plans.
//!
//! Segments run one after the other. Buffers ping-pong between the arena's
//! output and the caller's scratch, so nothing is allocated and the session
//! input stays as it is.
use crate::arena::{copy_values, ArenaError, SessionArena, MAX_VALUES};
use crate::fusion::{fusion_preserves_meaning, steps_ran};
use crate::ops::{add_scalar_in_place, copy_add, ExecuteError, KernelCall, PluginDispatch};
use crate::ops::{dispatch_returned, total};
use crate::plan::{compile_plan, CompiledPlan, PlanSegment, MAX_PLAN_SEGMENTS};
use crate::plan::{compilation, compiled, length_at, steps_of, PlanModel, SegmentModel};
use vstd::prelude::*;

verus! {

/// Elements processed per strip; the strip stays cache-resident while every
/// fused operation is applied to it.
pub const FUSED_STRIP: usize = 256;

/// `after` comes from `before` by adding the operands one after the other.
pub open spec fn chained<A: Fn(u32, u32) -> u32>(
    sum: A,
    operands: Seq<u32>,
    before: u32,
    after: u32,
) -> bool
    decreases operands.len(),
{
    if operands.len() == 0 {
        after == before
    } else {
        exists|middle: u32|
            chained(sum, operands.drop_last(), before, middle) && #[trigger] call_ensures(
                sum,
                (middle, operands.last()),
                after,
            )
    }
}

/// Every value of `after` comes from the value at the same place in `before` by
/// adding the operands one after the other.
pub open spec fn run_applied<A: Fn(u32, u32) -> u32>(
    sum: A,
    operands: Seq<u32>,
    before: Seq<u32>,
    after: Seq<u32>,
) -> bool {
    &&& after.len() == before.len()
    &&& forall|i: int|
        0 <= i < before.len() ==> chained(sum, operands, before[i], #[trigger] after[i])
}

/// The dispatch that a segment makes, if it makes one: the kernel and the call.
pub open spec fn dispatch_of(segment: SegmentModel) -> Option<(usize, KernelCall)> {
    match segment {
        SegmentModel::Builtin { .. } => None,
        SegmentModel::Plugin { index } => Some((index as usize, KernelCall::Elementwise)),
        SegmentModel::Matmul { index, m, k, n } => Some(
            (index as usize, KernelCall::Matmul { m, k, n }),
        ),
        SegmentModel::MatmulAct { index, m, k, n, activation } => Some(
            (
                index as usize,
                KernelCall::MatmulAct {
                    m: m as u32,
                    k: k as u32,
                    n: n as u32,
                    activation: activation as u32,
                },
            ),
        ),
    }
}

/// `after` is what a segment makes of `before`.
pub open spec fn segment_ran<D: PluginDispatch, A: Fn(u32, u32) -> u32>(
    plugins: D,
    sum: A,
    segment: SegmentModel,
    before: Seq<u32>,
    after: Seq<u32>,
) -> bool {
    &&& after.len() == segment.produces(before.len() as int)
    &&& match segment {
        SegmentModel::Builtin { operands } => run_applied(sum, operands, before, after),
        _ => dispatch_returned(
            plugins,
            dispatch_of(segment)->Some_0.0,
            dispatch_of(segment)->Some_0.1,
            before,
            after,
            None,
        ),
    }
}

/// A segment's dispatch on `before` failed with `message` and left `after`.
pub open spec fn segment_failed<D: PluginDispatch>(
    plugins: D,
    segment: SegmentModel,
    before: Seq<u32>,
    after: Seq<u32>,
    message: String,
) -> bool {
    &&& after.len() == segment.produces(before.len() as int)
    &&& dispatch_of(segment) is Some
    &&& dispatch_returned(
        plugins,
        dispatch_of(segment)->Some_0.0,
        dispatch_of(segment)->Some_0.1,
        before,
        after,
        Some(message),
    )
}

/// `output` is what the segments make of `input`, each consuming what the one
/// before it left.
pub open spec fn segments_ran<D: PluginDispatch, A: Fn(u32, u32) -> u32>(
    plugins: D,
    sum: A,
    segments: Seq<SegmentModel>,
    input: Seq<u32>,
    output: Seq<u32>,
) -> bool
    decreases segments.len(),
{
    if segments.len() == 0 {
        output == input
    } else {
        exists|middle: Seq<u32>|
            segments_ran(plugins, sum, segments.drop_last(), input, middle) && #[trigger] segment_ran(
                plugins,
                sum,
                segments.last(),
                middle,
                output,
            )
    }
}

/// Running the segments on `input` stopped at a dispatch that failed with
/// `message`.
pub open spec fn segments_failed<D: PluginDispatch, A: Fn(u32, u32) -> u32>(
    plugins: D,
    sum: A,
    segments: Seq<SegmentModel>,
    input: Seq<u32>,
    message: String,
) -> bool {
    exists|done: int, middle: Seq<u32>, after: Seq<u32>|
        0 <= done < segments.len() && #[trigger] segments_ran(
            plugins,
            sum,
            segments.take(done),
            input,
            middle,
        ) && #[trigger] segment_failed(plugins, segments[done], middle, after, message)
}

/// Running the segments on `input` stopped at a dispatch that failed with
/// `message`, and this is where its values are. The segments write to the
/// output and to scratch by turns, beginning with the output: what the failed
/// dispatch left is in the output where an even number of segments came before
/// it; otherwise it is in front of scratch, and the output still holds what
/// the segment before it left.
pub open spec fn segments_stopped<D: PluginDispatch, A: Fn(u32, u32) -> u32>(
    plugins: D,
    sum: A,
    segments: Seq<SegmentModel>,
    input: Seq<u32>,
    message: String,
    output: Seq<u32>,
    scratch: Seq<u32>,
) -> bool {
    exists|done: int, middle: Seq<u32>, after: Seq<u32>|
        0 <= done < segments.len() && #[trigger] segments_ran(
            plugins,
            sum,
            segments.take(done),
            input,
            middle,
        ) && #[trigger] segment_failed(plugins, segments[done], middle, after, message) && (if done
            % 2 == 0 {
            output == after
        } else {
            &&& output == middle
            &&& after.len() <= scratch.len()
            &&& scratch.take(after.len() as int) == after
        })
}

/// No dispatch fails.
pub open spec fn dispatch_never_fails<D: PluginDispatch>(plugins: D) -> bool {
    forall|
        index: usize,
        call: KernelCall,
        input: Seq<u32>,
        after: Seq<u32>,
        message: String,
    | !#[trigger] dispatch_returned(plugins, index, call, input, after, Some(message))
}

/// What becomes of executing a plan of this model, with `scratch` afterwards: a
/// refusal leaves the arena as it was; otherwise the output is what the segments make of the session
/// input, or a dispatch failed on the way.
pub open spec fn plan_executed<D: PluginDispatch, A: Fn(u32, u32) -> u32>(
    plugins: D,
    sum: A,
    model: PlanModel,
    before: SessionArena,
    after: SessionArena,
    scratch: Seq<u32>,
    result: Result<(), ExecuteError>,
) -> bool {
    let input = before.input_values();
    &&& after.input_values() == input
    &&& match admission_fault(model, input.len(), scratch.len()) {
        Some(error) => {
            &&& result == Err::<(), _>(error)
            &&& after == before
        },
        None => match result {
            Ok(_) => if model.segments.len() == 0 {
                after == before
            } else {
                segments_ran(plugins, sum, model.segments, input, after.output_values())
            },
            Err(error) => error matches ExecuteError::Plugin(message) && segments_stopped(
                plugins,
                sum,
                model.segments,
                input,
                message,
                after.output_values(),
                scratch,
            ),
        },
    }
}

/// What keeps a plan from being run on an input of `length` values with
/// `scratch` values of scratch, if anything.
pub open spec fn admission_fault(model: PlanModel, length: nat, scratch: nat) -> Option<
    ExecuteError,
> {
    if length != model.input_length {
        Some(
            ExecuteError::PlanLength {
                expected: model.input_length as usize,
                actual: length as usize,
            },
        )
    } else if length > scratch {
        Some(
            ExecuteError::Arena(
                ArenaError::InputTooLarge {
                    required: length as usize,
                    capacity: scratch as usize,
                },
            ),
        )
    } else if model.peak_length > MAX_VALUES {
        Some(
            ExecuteError::Arena(
                ArenaError::OutputTooLarge {
                    required: model.peak_length as usize,
                    capacity: MAX_VALUES,
                },
            ),
        )
    } else if model.peak_length > scratch {
        Some(
            ExecuteError::Arena(
                ArenaError::InputTooLarge {
                    required: model.peak_length as usize,
                    capacity: scratch as usize,
                },
            ),
        )
    } else {
        None
    }
}

/// Strip-mined fused pass: the first addition fuses into the copy of the
/// input, the rest apply in place, strip by strip.
pub fn run_builtin_segment<A: Fn(u32, u32) -> u32>(
    sum: &A,
    operands: &[u32],
    input: &[u32],
    output: &mut [u32],
)
    requires
        total(*sum),
        old(output)@.len() == input@.len(),
    ensures
        run_applied(*sum, operands@, input@, final(output)@),
{
    if operands.len() == 0 {
        copy_values(input, output);
        assert(output@ =~= input@);
        return ;
    }
    let mut start: usize = 0;
    while start < input.len()
        invariant
            total(*sum),
            operands@.len() > 0,
            output@.len() == input@.len(),
            start <= input@.len(),
            forall|i: int|
                0 <= i < start ==> chained(*sum, operands@, input@[i], #[trigger] output@[i]),
        decreases input@.len() - start,
    {
        let end: usize = if input.len() - start > FUSED_STRIP {
            start + FUSED_STRIP
        } else {
            input.len()
        };
        let ghost held = output@;
        let (_front, rest) = output.split_at_mut(start);
        let (strip, _back) = rest.split_at_mut(end - start);
        run_strip(sum, operands, &input[start..end], strip);
        proof {
            assert forall|i: int| 0 <= i < end implies chained(
                *sum,
                operands@,
                input@[i],
                #[trigger] output@[i],
            ) by {
                if i >= start {
                    assert(input@.subrange(start as int, end as int)[i - start] == input@[i]);
                    assert(chained(
                        *sum,
                        operands@,
                        input@.subrange(start as int, end as int)[i - start],
                        output@.subrange(start as int, end as int)[i - start],
                    ));
                } else {
                    assert(output@[i] == held[i]);
                }
            }
        }
        start = end;
    }
}

/// One strip of a fused pass.
fn run_strip<A: Fn(u32, u32) -> u32>(
    sum: &A,
    operands: &[u32],
    input: &[u32],
    output: &mut [u32],
)
    requires
        total(*sum),
        operands@.len() > 0,
        old(output)@.len() == input@.len(),
    ensures
        run_applied(*sum, operands@, input@, final(output)@),
{
    copy_add(sum, input, output, operands[0]);
    let mut done: usize = 1;
    proof {
        let first = operands@.take(1);
        assert forall|i: int| 0 <= i < input@.len() implies chained(
            *sum,
            first,
            input@[i],
            #[trigger] output@[i],
        ) by {
            assert(first.drop_last() =~= Seq::<u32>::empty());
            assert(chained(*sum, first.drop_last(), input@[i], input@[i]));
            assert(call_ensures(*sum, (input@[i], first.last()), output@[i]));
        }
    }
    while done < operands.len()
        invariant
            total(*sum),
            1 <= done <= operands@.len(),
            run_applied(*sum, operands@.take(done as int), input@, output@),
        decreases operands@.len() - done,
    {
        let ghost middle = output@;
        add_scalar_in_place(sum, output, operands[done]);
        done += 1;
        proof {
            let longer = operands@.take(done as int);
            assert(longer.drop_last() =~= operands@.take(done - 1));
            assert forall|i: int| 0 <= i < input@.len() implies chained(
                *sum,
                longer,
                input@[i],
                #[trigger] output@[i],
            ) by {
                assert(chained(*sum, longer.drop_last(), input@[i], middle[i]));
                assert(call_ensures(*sum, (middle[i], longer.last()), output@[i]));
            }
        }
    }
    assert(operands@.take(done as int) =~= operands@);
}

/// Runs one segment from `input` into `output`.
pub fn run_segment<D: PluginDispatch, A: Fn(u32, u32) -> u32>(
    plugins: &D,
    sum: &A,
    segment: &PlanSegment,
    input: &[u32],
    output: &mut [u32],
) -> (result: Result<(), String>)
    requires
        total(*sum),
        segment.well_formed(),
        old(output)@.len() == segment.model().produces(input@.len() as int),
    ensures
        final(output)@.len() == old(output)@.len(),
        match result {
            Ok(_) => segment_ran(*plugins, *sum, segment.model(), input@, final(output)@),
            Err(message) => segment_failed(
                *plugins,
                segment.model(),
                input@,
                final(output)@,
                message,
            ),
        },
{
    let ghost held = output@;
    let result: Result<(), String> = match segment {
        PlanSegment::Builtin { operands, count } => {
            let run: &[u32] = &operands[0..*count];
            assert(run@ =~= segment.model()->operands);
            run_builtin_segment(sum, run, input, output);
            return Ok(());
        },
        PlanSegment::Plugin { index } => plugins.run_index(*index as usize, input, output),
        PlanSegment::Matmul { index, m, k, n } => plugins.run_matmul_index(
            *index as usize,
            *m,
            *k,
            *n,
            input,
            output,
        ),
        PlanSegment::MatmulAct { index, m, k, n, activation } => plugins.run_matmul_act_index(
            *index as usize,
            *m as u32,
            *k as u32,
            *n as u32,
            *activation as u32,
            input,
            output,
        ),
    };
    proof {
        let (index, call) = dispatch_of(segment.model())->Some_0;
        assert(plugins.dispatched(
            index,
            call,
            input@,
            held,
            output@,
            crate::ops::failure(result),
        ));
        if result is Err {
            assert(dispatch_returned(
                *plugins,
                index,
                call,
                input@,
                output@,
                Some(result->Err_0),
            ));
        }
    }
    result
}

/// Where the current values of a running plan are.
enum ChainSource {
    ArenaInput,
    ArenaOutput,
    Scratch,
}

/// The values that a segment leaves.
fn produced(segment: &PlanSegment, length: usize) -> (next: usize)
    requires
        segment.model().produces(length as int) <= usize::MAX,
    ensures
        next == segment.model().produces(length as int),
{
    match *segment {
        PlanSegment::Matmul { m, n, .. } => {
            proof {
                assert(0 <= m * n <= 0xffff_fffe_0000_0001) by (nonlinear_arith);
            }
            (m as u64 * n as u64) as usize
        },
        PlanSegment::MatmulAct { m, n, .. } => {
            proof {
                assert(0 <= m * n <= 0xffff_fffe_0000_0001) by (nonlinear_arith);
            }
            (m as u64 * n as u64) as usize
        },
        _ => length,
    }
}

/// Executes a compiled plan. No record is parsed or validated here, and nothing
/// is allocated.
pub fn execute_compiled_plan<D: PluginDispatch, A: Fn(u32, u32) -> u32>(
    arena: &mut SessionArena,
    plan: &CompiledPlan,
    scratch: &mut [u32],
    plugins: &D,
    sum: &A,
) -> (result: Result<(), ExecuteError>)
    requires
        total(*sum),
        old(arena).well_formed(),
        plan.well_formed(),
    ensures
        final(arena).well_formed(),
        final(scratch)@.len() == old(scratch)@.len(),
        plan_executed(
            *plugins,
            *sum,
            plan.model(),
            *old(arena),
            *final(arena),
            final(scratch)@,
            result,
        ),
{
    let length: usize = arena.input().len();
    if length != plan.input_length() {
        return Err(
            ExecuteError::PlanLength { expected: plan.input_length(), actual: length },
        );
    }
    if length > scratch.len() {
        return Err(
            ExecuteError::Arena(
                ArenaError::InputTooLarge { required: length, capacity: scratch.len() },
            ),
        );
    }
    let peak: usize = plan.peak_length();
    if peak > MAX_VALUES {
        return Err(
            ExecuteError::Arena(
                ArenaError::OutputTooLarge { required: peak, capacity: MAX_VALUES },
            ),
        );
    }
    if peak > scratch.len() {
        return Err(
            ExecuteError::Arena(
                ArenaError::InputTooLarge { required: peak, capacity: scratch.len() },
            ),
        );
    }
    let segments: &[PlanSegment] = plan.segments();
    let ghost model = plan.model();
    let ghost input = arena.input_values();
    let ghost capacity = scratch@.len();
    proof {
        plan.lengths_follow();
        assert(model.segments.take(0).len() == 0);
        assert(length_at(model.segments, model.input_length, 0) <= model.peak_length);
    }
    let mut source = ChainSource::ArenaInput;
    let mut current: usize = length;
    let mut index: usize = 0;
    while index < segments.len()
        invariant
            total(*sum),
            arena.well_formed(),
            arena.input_values() == input,
            index == 0 ==> *arena == *old(arena),
            source is ArenaInput <==> index == 0,
            source is ArenaOutput <==> index % 2 == 1,
            input == old(arena).input_values(),
            input.len() == length,
            model == plan.model(),
            model.input_length == length,
            model.lengths_hold(),
            model.peak_length == peak,
            peak <= MAX_VALUES,
            peak <= capacity,
            scratch@.len() == capacity,
            capacity == old(scratch)@.len(),
            segments@.len() == model.segments.len(),
            forall|i: int|
                0 <= i < segments@.len() ==> (#[trigger] segments@[i]).well_formed()
                    && segments@[i].model() == model.segments[i],
            index <= segments@.len(),
            current == length_at(model.segments, length as int, index as int),
            current <= peak,
            segments_ran(
                *plugins,
                *sum,
                model.segments.take(index as int),
                input,
                match source {
                    ChainSource::ArenaInput => input,
                    ChainSource::ArenaOutput => arena.output_values(),
                    ChainSource::Scratch => scratch@.take(current as int),
                },
            ),
            current == (match source {
                ChainSource::ArenaInput => input,
                ChainSource::ArenaOutput => arena.output_values(),
                ChainSource::Scratch => scratch@.take(current as int),
            }).len(),
            admission_fault(model, input.len(), capacity) is None,
        decreases segments@.len() - index,
    {
        let ghost held = match source {
            ChainSource::ArenaInput => input,
            ChainSource::ArenaOutput => arena.output_values(),
            ChainSource::Scratch => scratch@.take(current as int),
        };
        let segment: &PlanSegment = &segments[index];
        proof {
            assert(length_at(model.segments, length as int, index + 1) <= model.peak_length);
            assert(segment.model() == model.segments[index as int]);
        }
        let next: usize = produced(segment, current);
        let outcome: Result<(), String> = match source {
            ChainSource::ArenaInput => {
                let (values, output) = match arena.input_and_output_mut(next) {
                    Ok(pair) => pair,
                    Err(error) => return Err(ExecuteError::Arena(error)),
                };
                source = ChainSource::ArenaOutput;
                run_segment(plugins, sum, segment, values, output)
            },
            ChainSource::ArenaOutput => {
                let (target, _rest) = scratch.split_at_mut(next);
                source = ChainSource::Scratch;
                let outcome = run_segment(plugins, sum, segment, arena.output(), target);
                let ghost left = target@;
                assert(scratch@.take(next as int) =~= left);
                outcome
            },
            ChainSource::Scratch => {
                let output = match arena.output_mut(next) {
                    Ok(output) => output,
                    Err(error) => return Err(ExecuteError::Arena(error)),
                };
                source = ChainSource::ArenaOutput;
                let values: &[u32] = &scratch[0..current];
                assert(values@ =~= held);
                run_segment(plugins, sum, segment, values, output)
            },
        };
        match outcome {
            Ok(()) => {},
            Err(message) => {
                proof {
                    let left = match source {
                        ChainSource::Scratch => scratch@.take(next as int),
                        _ => arena.output_values(),
                    };
                    assert(segments_ran(
                        *plugins,
                        *sum,
                        model.segments.take(index as int),
                        input,
                        held,
                    ));
                    assert(segment_failed(
                        *plugins,
                        model.segments[index as int],
                        held,
                        left,
                        message,
                    ));
                }
                return Err(ExecuteError::Plugin(message));
            },
        }
        proof {
            let after = match source {
                ChainSource::ArenaInput => input,
                ChainSource::ArenaOutput => arena.output_values(),
                ChainSource::Scratch => scratch@.take(next as int),
            };
            let longer = model.segments.take(index + 1);
            assert(longer.drop_last() =~= model.segments.take(index as int));
            assert(segment_ran(*plugins, *sum, longer.last(), held, after));
        }
        current = next;
        index += 1;
    }
    assert(model.segments.take(index as int) =~= model.segments);
    if let ChainSource::Scratch = source {
        let ghost done = scratch@.take(current as int);
        let output = match arena.output_mut(current) {
            Ok(output) => output,
            Err(error) => return Err(ExecuteError::Arena(error)),
        };
        copy_values(&scratch[0..current], output);
        assert(arena.output_values() =~= done);
    }
    Ok(())
}

/// Executes records as a chain: each record consumes what the one before it
/// left, the first the session input. Callers that run the same records more
/// than once compile them once.
pub fn execute_chain_with_plugins<D: PluginDispatch, A: Fn(u32, u32) -> u32>(
    arena: &mut SessionArena,
    records: &[u8],
    scratch: &mut [u32],
    plugins: &D,
    sum: &A,
) -> (result: Result<(), ExecuteError>)
    requires
        total(*sum),
        old(arena).well_formed(),
    ensures
        final(arena).well_formed(),
        final(arena).input_values() == old(arena).input_values(),
        final(scratch)@.len() == old(scratch)@.len(),
        match compilation(records@, old(arena).input_values().len() as int) {
            Err(error) => {
                &&& result is Err && result->Err_0 == error
                &&& *final(arena) == *old(arena)
            },
            Ok(model) => match admission_fault(
                model,
                old(arena).input_values().len(),
                old(scratch)@.len(),
            ) {
                Some(error) => {
                    &&& result == Err::<(), _>(error)
                    &&& *final(arena) == *old(arena)
                },
                None => match result {
                    Ok(_) => if records@.len() == 0 {
                        *final(arena) == *old(arena)
                    } else {
                        steps_ran(
                            *plugins,
                            *sum,
                            steps_of(records@),
                            old(arena).input_values(),
                            final(arena).output_values(),
                        )
                    },
                    Err(error) => error matches ExecuteError::Plugin(message) && segments_stopped(
                        *plugins,
                        *sum,
                        model.segments,
                        old(arena).input_values(),
                        message,
                        final(arena).output_values(),
                        final(scratch)@,
                    ),
                },
            },
        },
{
    let length: usize = arena.input().len();
    let plan: CompiledPlan = match compile_plan(records, length) {
        Ok(plan) => plan,
        Err(error) => return Err(error),
    };
    let ghost input = arena.input_values();
    let result = execute_compiled_plan(arena, &plan, scratch, plugins, sum);
    proof {
        segments_follow_records(records@, length as int, records@.len() as int / 16);
        fusion_preserves_meaning(
            *plugins,
            *sum,
            records@,
            length as int,
            input,
            arena.output_values(),
        );
    }
    result
}

/// The bytes that one segment read and wrote.
#[derive(Clone, Copy, Debug, PartialEq, Eq, Structural)]
pub struct TraceEntry {
    pub bytes_read: u64,
    pub bytes_written: u64,
}

/// Byte accounting of one execution, one entry per segment.
pub struct ExecutionTrace {
    entries: [TraceEntry; MAX_PLAN_SEGMENTS],
    count: usize,
}

/// The entry of segment `index`: four bytes per value on the way in and out.
pub open spec fn entry_of(model: PlanModel, index: int) -> TraceEntry {
    TraceEntry {
        bytes_read: (4 * length_at(model.segments, model.input_length, index)) as u64,
        bytes_written: (4 * length_at(model.segments, model.input_length, index + 1)) as u64,
    }
}

/// The entries of a plan that ran to its end.
pub open spec fn trace_of(model: PlanModel) -> Seq<TraceEntry> {
    Seq::new(model.segments.len(), |i: int| entry_of(model, i))
}

/// The bytes read over all entries.
pub open spec fn total_read(entries: Seq<TraceEntry>) -> int
    decreases entries.len(),
{
    if entries.len() == 0 {
        0
    } else {
        total_read(entries.drop_last()) + entries.last().bytes_read
    }
}

/// The bytes written over all entries.
pub open spec fn total_written(entries: Seq<TraceEntry>) -> int
    decreases entries.len(),
{
    if entries.len() == 0 {
        0
    } else {
        total_written(entries.drop_last()) + entries.last().bytes_written
    }
}

impl ExecutionTrace {
    /// No entry accounts for more than a full arena.
    pub closed spec fn well_formed(&self) -> bool {
        &&& self.count <= MAX_PLAN_SEGMENTS
        &&& forall|i: int|
            0 <= i < self.count ==> (#[trigger] self.entries@[i]).bytes_read <= 4 * MAX_VALUES
                && self.entries@[i].bytes_written <= 4 * MAX_VALUES
    }

    /// The entries, in order.
    pub closed spec fn recorded(&self) -> Seq<TraceEntry> {
        self.entries@.take(self.count as int)
    }

    /// A trace without entries.
    pub fn new() -> (trace: Self)
        ensures
            trace.well_formed(),
            trace.recorded() == Seq::<TraceEntry>::empty(),
    {
        let trace = ExecutionTrace {
            entries: [TraceEntry { bytes_read: 0, bytes_written: 0 };MAX_PLAN_SEGMENTS],
            count: 0,
        };
        assert(trace.recorded() =~= Seq::<TraceEntry>::empty());
        trace
    }

    /// The entries, in order.
    pub fn entries(&self) -> (entries: &[TraceEntry])
        requires
            self.well_formed(),
        ensures
            entries@ == self.recorded(),
    {
        &self.entries[0..self.count]
    }

    /// The bytes read over all entries.
    pub fn bytes_read(&self) -> (bytes: u64)
        requires
            self.well_formed(),
        ensures
            bytes == total_read(self.recorded()),
    {
        let mut bytes: u64 = 0;
        let mut index: usize = 0;
        while index < self.count
            invariant
                self.well_formed(),
                index <= self.count <= MAX_PLAN_SEGMENTS,
                bytes == total_read(self.recorded().take(index as int)),
                bytes <= index * 16384,
            decreases self.count - index,
        {
            proof {
                let longer = self.recorded().take(index + 1);
                assert(longer.drop_last() =~= self.recorded().take(index as int));
                assert(longer.last() == self.entries@[index as int]);
            }
            bytes = bytes + self.entries[index].bytes_read;
            index += 1;
        }
        assert(self.recorded().take(index as int) =~= self.recorded());
        bytes
    }

    /// The bytes written over all entries.
    pub fn bytes_written(&self) -> (bytes: u64)
        requires
            self.well_formed(),
        ensures
            bytes == total_written(self.recorded()),
    {
        let mut bytes: u64 = 0;
        let mut index: usize = 0;
        while index < self.count
            invariant
                self.well_formed(),
                index <= self.count <= MAX_PLAN_SEGMENTS,
                bytes == total_written(self.recorded().take(index as int)),
                bytes <= index * 16384,
            decreases self.count - index,
        {
            proof {
                let longer = self.recorded().take(index + 1);
                assert(longer.drop_last() =~= self.recorded().take(index as int));
                assert(longer.last() == self.entries@[index as int]);
            }
            bytes = bytes + self.entries[index].bytes_written;
            index += 1;
        }
        assert(self.recorded().take(index as int) =~= self.recorded());
        bytes
    }

    /// Appends an entry.
    fn record(&mut self, read: usize, written: usize)
        requires
            old(self).well_formed(),
            old(self).recorded().len() < MAX_PLAN_SEGMENTS,
            read <= MAX_VALUES,
            written <= MAX_VALUES,
        ensures
            final(self).well_formed(),
            final(self).recorded() == old(self).recorded().push(
                (TraceEntry {
                    bytes_read: (4 * read) as u64,
                    bytes_written: (4 * written) as u64,
                }),
            ),
    {
        let entry = TraceEntry { bytes_read: 4 * read as u64, bytes_written: 4 * written as u64 };
        self.entries[self.count] = entry;
        self.count += 1;
        assert(self.recorded() =~= old(self).recorded().push(entry));
    }
}

/// Executes a compiled plan and accounts for the bytes that its segments moved.
/// An execution that fails leaves no entries.
pub fn execute_compiled_plan_traced<D: PluginDispatch, A: Fn(u32, u32) -> u32>(
    arena: &mut SessionArena,
    plan: &CompiledPlan,
    scratch: &mut [u32],
    plugins: &D,
    sum: &A,
    trace: &mut ExecutionTrace,
) -> (result: Result<(), ExecuteError>)
    requires
        total(*sum),
        old(arena).well_formed(),
        plan.well_formed(),
    ensures
        final(arena).well_formed(),
        final(scratch)@.len() == old(scratch)@.len(),
        final(trace).well_formed(),
        final(trace).recorded() == (if result is Ok {
            trace_of(plan.model())
        } else {
            Seq::empty()
        }),
        plan_executed(
            *plugins,
            *sum,
            plan.model(),
            *old(arena),
            *final(arena),
            final(scratch)@,
            result,
        ),
{
    *trace = ExecutionTrace::new();
    match execute_compiled_plan(arena, plan, scratch, plugins, sum) {
        Ok(()) => {},
        Err(error) => return Err(error),
    }
    let segments: &[PlanSegment] = plan.segments();
    let ghost model = plan.model();
    proof {
        plan.lengths_follow();
        assert(length_at(model.segments, model.input_length, 0) <= model.peak_length);
    }
    let mut current: usize = plan.input_length();
    let mut index: usize = 0;
    assert(trace.recorded() =~= trace_of(model).take(0));
    while index < segments.len()
        invariant
            trace.well_formed(),
            model == plan.model(),
            model.lengths_hold(),
            model.peak_length <= MAX_VALUES,
            segments@.len() == model.segments.len(),
            segments@.len() <= MAX_PLAN_SEGMENTS,
            forall|i: int|
                0 <= i < segments@.len() ==> (#[trigger] segments@[i]).model()
                    == model.segments[i],
            index <= segments@.len(),
            current == length_at(model.segments, model.input_length, index as int),
            current <= MAX_VALUES,
            trace.recorded() == trace_of(model).take(index as int),
        decreases segments@.len() - index,
    {
        proof {
            assert(length_at(model.segments, model.input_length, index + 1) <= model.peak_length);
            assert(segments@[index as int].model() == model.segments[index as int]);
        }
        let next: usize = produced(&segments[index], current);
        trace.record(current, next);
        current = next;
        index += 1;
        assert(trace.recorded() =~= trace_of(model).take(index as int));
    }
    assert(trace_of(model).take(index as int) =~= trace_of(model));
    Ok(())
}

/// A compiled plan has segments exactly when it has records.
pub proof fn segments_follow_records(records: Seq<u8>, input_length: int, count: int)
    requires
        compiled(records, input_length, count) is Ok,
    ensures
        compiled(records, input_length, count)->Ok_0.segments.len() == 0 <==> count <= 0,
    decreases count,
{
    if count > 0 {
        segments_follow_records(records, input_length, count - 1);
    }
}

} // verus!
