//! What running records, steps and segments means, with every call written out.
use crate::arena::SessionArena;
use crate::bytes::{u16_at, u32_at};
use crate::executor::{
    admission_fault, chained, plan_executed, segment_failed, segment_ran, segments_failed,
    segments_ran, segments_stopped, trace_of,
};
use crate::fusion::{step_ran, steps_ran};
use crate::ops::{
    applied, dispatch_returned, plugin_record_fault, plugin_records_ran, record_applied,
    record_fault, records_ran, scratch_fault, ExecuteError, KernelCall, Operation, PluginDispatch,
};
use crate::plan::{
    compilation, compiled, extended, fused, length_at, link_fault, step_of, PlanModel,
    PlanSegment, SegmentModel, Step,
};
use vstd::prelude::*;

verus! {

/// Kernel `index`, called this way on `before`, can leave `after` and succeed.
pub open spec fn called<D: PluginDispatch>(
    plugins: D,
    index: usize,
    call: KernelCall,
    before: Seq<u32>,
    after: Seq<u32>,
) -> bool {
    exists|held: Seq<u32>|
        held.len() == after.len() && #[trigger] plugins.dispatched(
            index,
            call,
            before,
            held,
            after,
            None,
        )
}

/// Kernel `index`, called this way on `before`, can leave `after` and fail with
/// `message`.
pub open spec fn call_failed<D: PluginDispatch>(
    plugins: D,
    index: usize,
    call: KernelCall,
    before: Seq<u32>,
    after: Seq<u32>,
    message: String,
) -> bool {
    exists|held: Seq<u32>|
        held.len() == after.len() && #[trigger] plugins.dispatched(
            index,
            call,
            before,
            held,
            after,
            Some(message),
        )
}

/// A dispatch that returned is a call that was made.
pub proof fn dispatches_are_calls<D: PluginDispatch>(
    plugins: D,
    index: usize,
    call: KernelCall,
    before: Seq<u32>,
    after: Seq<u32>,
    message: String,
)
    ensures
        dispatch_returned(plugins, index, call, before, after, None) <==> called(
            plugins,
            index,
            call,
            before,
            after,
        ),
        dispatch_returned(plugins, index, call, before, after, Some(message)) <==> call_failed(
            plugins,
            index,
            call,
            before,
            after,
            message,
        ),
{
}

/// Running one step: a copy leaves what was there, an addition adds its value
/// to every value, and a dispatch calls its kernel with its own arguments.
pub proof fn steps_do_what_they_say<D: PluginDispatch, A: Fn(u32, u32) -> u32>(
    plugins: D,
    sum: A,
    index: u16,
    value: u32,
    m: u32,
    k: u32,
    n: u32,
    rows: u16,
    inner: u16,
    columns: u16,
    activation: u16,
    before: Seq<u32>,
    after: Seq<u32>,
)
    ensures
        step_ran(plugins, sum, Step::Copy, before, after) <==> after == before,
        step_ran(plugins, sum, Step::AddScalar { value }, before, after) <==> {
            &&& after.len() == before.len()
            &&& forall|i: int|
                0 <= i < before.len() ==> call_ensures(sum, (before[i], value), #[trigger] after[i])
        },
        step_ran(plugins, sum, Step::Elementwise { index }, before, after) <==> after.len()
            == before.len() && called(
            plugins,
            index as usize,
            KernelCall::Elementwise,
            before,
            after,
        ),
        step_ran(plugins, sum, Step::Matmul { index, m, k, n }, before, after) <==> after.len() == m
            * n && called(
            plugins,
            index as usize,
            KernelCall::Matmul { m, k, n },
            before,
            after,
        ),
        step_ran(
            plugins,
            sum,
            Step::MatmulAct { index, m: rows, k: inner, n: columns, activation },
            before,
            after,
        ) <==> after.len() == rows * columns && called(
            plugins,
            index as usize,
            KernelCall::MatmulAct {
                m: rows as u32,
                k: inner as u32,
                n: columns as u32,
                activation: activation as u32,
            },
            before,
            after,
        ),
{
    if step_ran(plugins, sum, Step::Copy, before, after) || after == before {
        assert(after == before);
    }
}

/// Steps run one after the other: none changes nothing, one does what it does,
/// and of two lists the second starts from what the first left.
pub proof fn steps_run_in_order<D: PluginDispatch, A: Fn(u32, u32) -> u32>(
    plugins: D,
    sum: A,
    first: Seq<Step>,
    second: Seq<Step>,
    step: Step,
    input: Seq<u32>,
    output: Seq<u32>,
)
    ensures
        steps_ran(plugins, sum, Seq::empty(), input, output) <==> output == input,
        steps_ran(plugins, sum, seq![step], input, output) <==> step_ran(
            plugins,
            sum,
            step,
            input,
            output,
        ),
        steps_ran(plugins, sum, first + second, input, output) <==> exists|middle: Seq<u32>|
            steps_ran(plugins, sum, first, input, middle) && #[trigger] steps_ran(
                plugins,
                sum,
                second,
                middle,
                output,
            ),
{
    let single = seq![step];
    assert(single.drop_last() =~= Seq::empty());
    assert(single.last() == step);
    if steps_ran(plugins, sum, single, input, output) {
        let middle = choose|middle: Seq<u32>|
            steps_ran(plugins, sum, single.drop_last(), input, middle) && #[trigger] step_ran(
                plugins,
                sum,
                single.last(),
                middle,
                output,
            );
        assert(middle == input);
    }
    if step_ran(plugins, sum, step, input, output) {
        assert(steps_ran(plugins, sum, single.drop_last(), input, input));
        assert(step_ran(plugins, sum, single.last(), input, output));
    }
    lists_run_in_order(plugins, sum, first, second, input, output);
}

/// Of two lists of steps the second starts from what the first left.
proof fn lists_run_in_order<D: PluginDispatch, A: Fn(u32, u32) -> u32>(
    plugins: D,
    sum: A,
    first: Seq<Step>,
    second: Seq<Step>,
    input: Seq<u32>,
    output: Seq<u32>,
)
    ensures
        steps_ran(plugins, sum, first + second, input, output) <==> exists|middle: Seq<u32>|
            steps_ran(plugins, sum, first, input, middle) && #[trigger] steps_ran(
                plugins,
                sum,
                second,
                middle,
                output,
            ),
    decreases second.len(),
{
    let all = first + second;
    if second.len() == 0 {
        assert(all =~= first);
        if steps_ran(plugins, sum, all, input, output) {
            assert(steps_ran(plugins, sum, second, output, output));
        }
    } else {
        let front = second.drop_last();
        let step = second.last();
        assert(all.drop_last() =~= first + front);
        assert(all.last() == step);
        if steps_ran(plugins, sum, all, input, output) {
            let reached = choose|reached: Seq<u32>|
                steps_ran(plugins, sum, all.drop_last(), input, reached) && #[trigger] step_ran(
                    plugins,
                    sum,
                    all.last(),
                    reached,
                    output,
                );
            lists_run_in_order(plugins, sum, first, front, input, reached);
            let middle = choose|middle: Seq<u32>|
                steps_ran(plugins, sum, first, input, middle) && #[trigger] steps_ran(
                    plugins,
                    sum,
                    front,
                    middle,
                    reached,
                );
            assert(step_ran(plugins, sum, second.last(), reached, output));
            assert(steps_ran(plugins, sum, second, middle, output));
        }
        if exists|middle: Seq<u32>|
            steps_ran(plugins, sum, first, input, middle) && #[trigger] steps_ran(
                plugins,
                sum,
                second,
                middle,
                output,
            ) {
            let middle = choose|middle: Seq<u32>|
                steps_ran(plugins, sum, first, input, middle) && #[trigger] steps_ran(
                    plugins,
                    sum,
                    second,
                    middle,
                    output,
                );
            let reached = choose|reached: Seq<u32>|
                steps_ran(plugins, sum, front, middle, reached) && #[trigger] step_ran(
                    plugins,
                    sum,
                    second.last(),
                    reached,
                    output,
                );
            assert(steps_ran(plugins, sum, front, middle, reached));
            lists_run_in_order(plugins, sum, first, front, input, reached);
            assert(step_ran(plugins, sum, all.last(), reached, output));
        }
    }
}

/// Adding the operands one after the other can lead from `before` to `after`:
/// these are the values on the way.
pub open spec fn adds_up<A: Fn(u32, u32) -> u32>(
    sum: A,
    operands: Seq<u32>,
    before: u32,
    after: u32,
    way: Seq<u32>,
) -> bool {
    &&& way.len() == operands.len() + 1
    &&& way[0] == before
    &&& way[operands.len() as int] == after
    &&& forall|j: int|
        0 <= j < operands.len() ==> call_ensures(sum, (way[j], operands[j]), #[trigger] way[j + 1])
}

/// Adding the operands one after the other can lead from `before` to `after`.
pub open spec fn can_add_up<A: Fn(u32, u32) -> u32>(
    sum: A,
    operands: Seq<u32>,
    before: u32,
    after: u32,
) -> bool {
    exists|way: Seq<u32>| #[trigger] adds_up(sum, operands, before, after, way)
}

/// A chain of additions has values on its way.
proof fn chains_have_a_way<A: Fn(u32, u32) -> u32>(
    sum: A,
    operands: Seq<u32>,
    before: u32,
    after: u32,
)
    ensures
        chained(sum, operands, before, after) <==> can_add_up(sum, operands, before, after),
    decreases operands.len(),
{
    if operands.len() == 0 {
        if chained(sum, operands, before, after) {
            assert(adds_up(sum, operands, before, after, seq![before]));
        }
        if exists|way: Seq<u32>| #[trigger] adds_up(sum, operands, before, after, way) {
            let way = choose|way: Seq<u32>| #[trigger] adds_up(sum, operands, before, after, way);
            assert(way[0] == before && way[operands.len() as int] == after);
        }
    } else {
        let front = operands.drop_last();
        if chained(sum, operands, before, after) {
            let middle = choose|middle: u32|
                chained(sum, front, before, middle) && #[trigger] call_ensures(
                    sum,
                    (middle, operands.last()),
                    after,
                );
            chains_have_a_way(sum, front, before, middle);
            let way = choose|way: Seq<u32>| #[trigger] adds_up(sum, front, before, middle, way);
            let longer = way.push(after);
            assert forall|j: int| 0 <= j < operands.len() implies call_ensures(
                sum,
                (longer[j], operands[j]),
                #[trigger] longer[j + 1],
            ) by {
                if j < front.len() {
                    assert(call_ensures(sum, (way[j], front[j]), way[j + 1]));
                }
            }
            assert(adds_up(sum, operands, before, after, longer));
        }
        if exists|way: Seq<u32>| #[trigger] adds_up(sum, operands, before, after, way) {
            let way = choose|way: Seq<u32>| #[trigger] adds_up(sum, operands, before, after, way);
            let shorter = way.drop_last();
            let last = operands.len() - 1;
            let middle = way[last];
            assert(call_ensures(sum, (way[last], operands[last]), way[last + 1]));
            assert forall|j: int| 0 <= j < front.len() implies call_ensures(
                sum,
                (shorter[j], front[j]),
                #[trigger] shorter[j + 1],
            ) by {
                assert(call_ensures(sum, (way[j], operands[j]), way[j + 1]));
            }
            assert(adds_up(sum, front, before, middle, shorter));
            chains_have_a_way(sum, front, before, middle);
            assert(chained(sum, front, before, middle));
            assert(call_ensures(sum, (middle, operands.last()), after));
        }
    }
}

/// Running one segment: a built-in run adds its operands to every value in
/// their order, and a dispatch calls its kernel with its own arguments.
pub proof fn segments_do_what_they_say<D: PluginDispatch, A: Fn(u32, u32) -> u32>(
    plugins: D,
    sum: A,
    operands: Seq<u32>,
    index: u16,
    m: u32,
    k: u32,
    n: u32,
    rows: u16,
    inner: u16,
    columns: u16,
    activation: u16,
    before: Seq<u32>,
    after: Seq<u32>,
)
    ensures
        segment_ran(plugins, sum, SegmentModel::Builtin { operands }, before, after) <==> {
            &&& after.len() == before.len()
            &&& forall|i: int|
                0 <= i < before.len() ==> can_add_up(
                    sum,
                    operands,
                    before[i],
                    #[trigger] after[i],
                )
        },
        segment_ran(plugins, sum, SegmentModel::Plugin { index }, before, after) <==> after.len()
            == before.len() && called(
            plugins,
            index as usize,
            KernelCall::Elementwise,
            before,
            after,
        ),
        segment_ran(plugins, sum, SegmentModel::Matmul { index, m, k, n }, before, after)
            <==> after.len() == m * n && called(
            plugins,
            index as usize,
            KernelCall::Matmul { m, k, n },
            before,
            after,
        ),
        segment_ran(
            plugins,
            sum,
            SegmentModel::MatmulAct { index, m: rows, k: inner, n: columns, activation },
            before,
            after,
        ) <==> after.len() == rows * columns && called(
            plugins,
            index as usize,
            KernelCall::MatmulAct {
                m: rows as u32,
                k: inner as u32,
                n: columns as u32,
                activation: activation as u32,
            },
            before,
            after,
        ),
{
    assert forall|i: int| 0 <= i < before.len() implies (chained(
        sum,
        operands,
        before[i],
        #[trigger] after[i],
    ) <==> can_add_up(sum, operands, before[i], after[i])) by {
        chains_have_a_way(sum, operands, before[i], after[i]);
    }
}

/// Segments run one after the other.
pub proof fn segments_run_in_order<D: PluginDispatch, A: Fn(u32, u32) -> u32>(
    plugins: D,
    sum: A,
    segments: Seq<SegmentModel>,
    segment: SegmentModel,
    input: Seq<u32>,
    output: Seq<u32>,
)
    ensures
        segments_ran(plugins, sum, Seq::empty(), input, output) <==> output == input,
        segments_ran(plugins, sum, segments.push(segment), input, output) <==> exists|
            middle: Seq<u32>,
        |
            segments_ran(plugins, sum, segments, input, middle) && #[trigger] segment_ran(
                plugins,
                sum,
                segment,
                middle,
                output,
            ),
{
    let longer = segments.push(segment);
    assert(longer.drop_last() =~= segments);
    assert(longer.last() == segment);
    if segments_ran(plugins, sum, longer, input, output) {
        let middle = choose|middle: Seq<u32>|
            segments_ran(plugins, sum, longer.drop_last(), input, middle)
                && #[trigger] segment_ran(plugins, sum, longer.last(), middle, output);
        assert(segment_ran(plugins, sum, segment, middle, output));
    }
    if exists|middle: Seq<u32>|
        segments_ran(plugins, sum, segments, input, middle) && #[trigger] segment_ran(
            plugins,
            sum,
            segment,
            middle,
            output,
        ) {
        let middle = choose|middle: Seq<u32>|
            segments_ran(plugins, sum, segments, input, middle) && #[trigger] segment_ran(
                plugins,
                sum,
                segment,
                middle,
                output,
            );
        assert(segment_ran(plugins, sum, longer.last(), middle, output));
    }
}

/// Only a dispatch fails, and what it left is what its own call left.
pub proof fn failed_segments_made_their_call<D: PluginDispatch>(
    plugins: D,
    operands: Seq<u32>,
    index: u16,
    m: u32,
    k: u32,
    n: u32,
    rows: u16,
    inner: u16,
    columns: u16,
    activation: u16,
    before: Seq<u32>,
    after: Seq<u32>,
    message: String,
)
    ensures
        !segment_failed(plugins, SegmentModel::Builtin { operands }, before, after, message),
        segment_failed(plugins, SegmentModel::Plugin { index }, before, after, message)
            <==> after.len() == before.len() && call_failed(
            plugins,
            index as usize,
            KernelCall::Elementwise,
            before,
            after,
            message,
        ),
        segment_failed(plugins, SegmentModel::Matmul { index, m, k, n }, before, after, message)
            <==> after.len() == m * n && call_failed(
            plugins,
            index as usize,
            KernelCall::Matmul { m, k, n },
            before,
            after,
            message,
        ),
        segment_failed(
            plugins,
            SegmentModel::MatmulAct { index, m: rows, k: inner, n: columns, activation },
            before,
            after,
            message,
        ) <==> after.len() == rows * columns && call_failed(
            plugins,
            index as usize,
            KernelCall::MatmulAct {
                m: rows as u32,
                k: inner as u32,
                n: columns as u32,
                activation: activation as u32,
            },
            before,
            after,
            message,
        ),
{
}

/// A record asks for what stands in its bytes.
pub proof fn records_ask_for_their_step(records: Seq<u8>, at: int)
    ensures
        ({
            let start = 16 * at;
            let opcode = u16_at(records, start);
            let index = u16_at(records, start + 2);
            &&& opcode == 0 ==> step_of(records, at) == Step::Copy
            &&& opcode == 1 ==> step_of(records, at) == (Step::AddScalar {
                value: u32_at(records, start + 4),
            })
            &&& opcode == 2 ==> step_of(records, at) == (Step::Elementwise { index })
            &&& opcode == 3 ==> step_of(records, at) == (Step::Matmul {
                index,
                m: u32_at(records, start + 4),
                k: u32_at(records, start + 8),
                n: u32_at(records, start + 12),
            })
            &&& opcode == 4 ==> step_of(records, at) == (Step::MatmulAct {
                index,
                m: u16_at(records, start + 4),
                k: u16_at(records, start + 6),
                n: u16_at(records, start + 8),
                activation: u16_at(records, start + 10),
            })
        }),
{
}

/// The values that record `at` takes where `length` reach it.
pub open spec fn values_taken(records: Seq<u8>, at: int, length: int) -> int {
    let start = 16 * at;
    if u16_at(records, start) == 3 {
        u32_at(records, start + 4) * u32_at(records, start + 8) + u32_at(records, start + 8)
            * u32_at(records, start + 12)
    } else if u16_at(records, start) == 4 {
        u16_at(records, start + 4) * u16_at(records, start + 6) + u16_at(records, start + 6)
            * u16_at(records, start + 8)
    } else {
        length
    }
}

/// The values that record `at` leaves where `length` reach it.
pub open spec fn values_left(records: Seq<u8>, at: int, length: int) -> int {
    let start = 16 * at;
    if u16_at(records, start) == 3 {
        u32_at(records, start + 4) * u32_at(records, start + 12)
    } else if u16_at(records, start) == 4 {
        u16_at(records, start + 4) * u16_at(records, start + 8)
    } else {
        length
    }
}

/// The values that reach record `at` of a stream that starts with `length`.
pub open spec fn values_reaching(records: Seq<u8>, length: int, at: int) -> int
    decreases at,
{
    if at <= 0 {
        length
    } else {
        values_left(records, at - 1, values_reaching(records, length, at - 1))
    }
}

/// Record `at` is one of the five, says the right lengths, and takes as many
/// values as reach it.
pub open spec fn record_fits(records: Seq<u8>, at: int, length: int) -> bool {
    let start = 16 * at;
    &&& u16_at(records, start) <= 4
    &&& u16_at(records, start) <= 2 ==> u32_at(records, start + 8) == length && u32_at(
        records,
        start + 12,
    ) == length
    &&& u16_at(records, start) == 4 ==> u32_at(records, start + 12) == 0
    &&& values_taken(records, at, length) == length
    &&& values_left(records, at, length) <= usize::MAX
}

/// A record is faultless exactly when it fits.
proof fn fitting_records_are_faultless(records: Seq<u8>, at: int, length: int)
    ensures
        link_fault(records, at, length) is None <==> record_fits(records, at, length),
        u16_at(records, 16 * at) <= 4 ==> step_of(records, at).produces(length) == values_left(
            records,
            at,
            length,
        ),
{
    records_ask_for_their_step(records, at);
}

/// What compiling the first records found out.
proof fn compiled_records_fit(records: Seq<u8>, length: int, count: int)
    requires
        0 <= count,
    ensures
        match compiled(records, length, count) {
            Ok(model) => {
                &&& forall|i: int|
                    0 <= i < count ==> #[trigger] record_fits(
                        records,
                        i,
                        values_reaching(records, length, i),
                    )
                &&& model.input_length == length
                &&& model.output_length == values_reaching(records, length, count)
                &&& model.segments.len() <= 16
                &&& model.segments.len() <= count
                &&& forall|i: int|
                    0 <= i <= count ==> #[trigger] values_reaching(records, length, i)
                        <= model.peak_length
                &&& exists|i: int|
                    0 <= i <= count && #[trigger] values_reaching(records, length, i)
                        == model.peak_length
            },
            Err(error) => exists|i: int|
                0 <= i < count && #[trigger] compilation_stops(records, length, i, error),
        },
    decreases count,
{
    if count > 0 {
        compiled_records_fit(records, length, count - 1);
        let at = count - 1;
        match compiled(records, length, at) {
            Ok(before) => {
                fitting_records_are_faultless(records, at, before.output_length);
                assert(compiled(records, length, count) == extended(records, before, at));
                match extended(records, before, at) {
                    Ok(model) => {
                        assert(values_reaching(records, length, count) == values_left(
                            records,
                            at,
                            before.output_length,
                        ));
                        let peak = choose|i: int|
                            0 <= i <= at && #[trigger] values_reaching(records, length, i)
                                == before.peak_length;
                        if values_reaching(records, length, count) <= before.peak_length {
                            assert(values_reaching(records, length, peak) == model.peak_length);
                        }
                    },
                    Err(error) => {
                        assert(compilation_stops(records, length, at, error));
                    },
                }
            },
            Err(error) => {
                let at = choose|i: int|
                    0 <= i < count - 1 && #[trigger] compilation_stops(records, length, i, error);
                assert(compilation_stops(records, length, at, error));
            },
        }
    } else {
        assert(values_reaching(records, length, 0) == length);
    }
}

/// A front of a record stream has no more segments than records.
pub proof fn compiled_fronts_are_short(records: Seq<u8>, length: int, count: int)
    requires
        0 <= count,
    ensures
        compiled(records, length, count) matches Ok(model) ==> model.segments.len() <= count
            && model.segments.len() <= 16,
{
    compiled_records_fit(records, length, count);
}

/// Compiling stops at record `at`, the first that does not fit, and the error
/// is true of it; or the record needs a seventeenth segment.
pub open spec fn compilation_stops(
    records: Seq<u8>,
    length: int,
    at: int,
    error: ExecuteError,
) -> bool {
    let start = 16 * at;
    let reaching = values_reaching(records, length, at);
    &&& forall|i: int|
        0 <= i < at ==> #[trigger] record_fits(records, i, values_reaching(records, length, i))
    &&& match error {
        ExecuteError::UnknownOpcode(index, opcode) => {
            &&& index == at as usize
            &&& opcode == u16_at(records, start)
            &&& opcode > 4
        },
        ExecuteError::RecordLength(index) => {
            &&& index == at as usize
            &&& (u16_at(records, start) <= 2 && u32_at(records, start + 8) != u32_at(
                records,
                start + 12,
            )) || (u16_at(records, start) == 4 && u32_at(records, start + 12) != 0) || (u16_at(
                records,
                start,
            ) <= 4 && values_left(records, at, reaching) > usize::MAX)
        },
        ExecuteError::RecordChain(index) => {
            &&& index == at as usize
            &&& (u16_at(records, start) <= 2 && u32_at(records, start + 8) != reaching) || (u16_at(
                records,
                start,
            ) <= 4 && values_taken(records, at, reaching) != reaching)
        },
        ExecuteError::PlanSegments => {
            &&& record_fits(records, at, reaching)
            &&& compiled(records, length, at) is Ok
            &&& compiled(records, length, at)->Ok_0.segments.len() == 16
        },
        _ => false,
    }
}

/// Which record streams compile: they must be whole records, every record must
/// fit, and no more than sixteen segments may be needed, which sixteen records
/// never exceed. The plan then starts and ends with the values that the
/// records say, and its peak is the largest number on the way. An error is true
/// of the first record that does not fit.
pub proof fn fitting_records_compile(records: Seq<u8>, length: int)
    ensures
        records.len() % 16 != 0 <==> compilation(records, length) == Err::<PlanModel, _>(
            ExecuteError::RecordAlignment(16),
        ),
        match compilation(records, length) {
            Ok(model) => {
                &&& forall|i: int|
                    0 <= i < records.len() / 16 ==> #[trigger] record_fits(
                        records,
                        i,
                        values_reaching(records, length, i),
                    )
                &&& model.input_length == length
                &&& model.output_length == values_reaching(
                    records,
                    length,
                    records.len() as int / 16,
                )
                &&& model.segments.len() <= 16
                &&& forall|i: int|
                    0 <= i <= records.len() / 16 ==> #[trigger] values_reaching(records, length, i)
                        <= model.peak_length
                &&& exists|i: int|
                    0 <= i <= records.len() / 16 && #[trigger] values_reaching(records, length, i)
                        == model.peak_length
            },
            Err(error) => records.len() % 16 == 0 ==> exists|i: int|
                0 <= i < records.len() / 16 && #[trigger] compilation_stops(
                    records,
                    length,
                    i,
                    error,
                ),
        },
        records.len() % 16 == 0 && records.len() <= 256 && (forall|i: int|
            0 <= i < records.len() / 16 ==> #[trigger] record_fits(
                records,
                i,
                values_reaching(records, length, i),
            )) ==> compilation(records, length) is Ok,
{
    let count = records.len() as int / 16;
    compiled_records_fit(records, length, count);
    if records.len() % 16 == 0 && records.len() <= 256 && (forall|i: int|
        0 <= i < count ==> #[trigger] record_fits(records, i, values_reaching(records, length, i)))
        && compilation(records, length) is Err {
        let error = compilation(records, length)->Err_0;
        let at = choose|i: int|
            0 <= i < count && #[trigger] compilation_stops(records, length, i, error);
        assert(record_fits(records, at, values_reaching(records, length, at)));
        compiled_records_fit(records, length, at);
    }
}

/// Neighbouring built-in records share a segment, up to sixty-four additions;
/// every dispatch has its own.
pub proof fn runs_share_a_segment(segments: Seq<SegmentModel>, step: Step)
    ensures
        ({
            let open = segments.len() > 0 && segments.last() is Builtin
                && segments.last()->operands.len() < 64;
            let builtin = step is Copy || step is AddScalar;
            fused(segments, step).len() == (if builtin && open {
                segments.len()
            } else {
                segments.len() + 1
            })
        }),
{
}

/// A plan is refused on an input exactly when the input has not the plan's
/// length, or the most values that are ever there exceed the arena or scratch;
/// the refusal says which.
pub proof fn plans_are_admitted_by_length(model: PlanModel, length: nat, scratch: nat)
    requires
        model.input_length <= model.peak_length <= usize::MAX,
        length <= usize::MAX,
        scratch <= usize::MAX,
        0 <= model.input_length,
    ensures
        admission_fault(model, length, scratch) is None <==> length == model.input_length
            && model.peak_length <= 4096 && model.peak_length <= scratch,
        match admission_fault(model, length, scratch) {
            None => true,
            Some(ExecuteError::PlanLength { expected, actual }) => {
                &&& expected == model.input_length
                &&& actual == length
                &&& expected != actual
            },
            Some(
                ExecuteError::Arena(
                    crate::arena::ArenaError::InputTooLarge { required, capacity },
                ),
            ) => {
                &&& capacity == scratch
                &&& required > capacity
                &&& required == length || required == model.peak_length
            },
            Some(
                ExecuteError::Arena(
                    crate::arena::ArenaError::OutputTooLarge { required, capacity },
                ),
            ) => {
                &&& capacity == 4096
                &&& required == model.peak_length
                &&& required > capacity
            },
            Some(_) => false,
        },
{
}

/// A trace has one entry per segment, with four bytes for every value that the
/// segment read and for every one that it wrote.
pub proof fn traces_count_four_bytes_per_value(model: PlanModel, index: int)
    requires
        model.lengths_hold(),
        model.peak_length <= 4096,
        0 <= index < model.segments.len(),
    ensures
        trace_of(model).len() == model.segments.len(),
        trace_of(model)[index].bytes_read == 4 * length_at(
            model.segments,
            model.input_length,
            index,
        ),
        trace_of(model)[index].bytes_written == 4 * length_at(
            model.segments,
            model.input_length,
            index + 1,
        ),
        length_at(model.segments, model.input_length, 0) == model.input_length,
        length_at(model.segments, model.input_length, index + 1) == (match model.segments[index] {
            SegmentModel::Matmul { m, n, .. } => m * n,
            SegmentModel::MatmulAct { m, n, .. } => m * n,
            _ => length_at(model.segments, model.input_length, index),
        }),
{
    assert(0 <= length_at(model.segments, model.input_length, index) <= model.peak_length);
    assert(0 <= length_at(model.segments, model.input_length, index + 1) <= model.peak_length);
}

/// The plain executor takes a record exactly when both its lengths are the
/// input's, it is a copy or an addition, and scratch can hold the input.
pub proof fn plain_records_are_taken(records: Seq<u8>, at: int, length: nat, scratch: nat)
    requires
        length <= usize::MAX,
        scratch <= usize::MAX,
    ensures
        record_fault(records, at, length, scratch) is None <==> {
            &&& u32_at(records, 16 * at + 8) == length
            &&& u32_at(records, 16 * at + 12) == length
            &&& u16_at(records, 16 * at) <= 1
            &&& length <= scratch
        },
        plugin_record_fault(records, at, length, scratch) is None <==> {
            &&& u32_at(records, 16 * at + 8) == length
            &&& u32_at(records, 16 * at + 12) == length
            &&& u16_at(records, 16 * at) == 2 || (u16_at(records, 16 * at) <= 1 && length
                <= scratch)
        },
        record_fault(records, at, length, scratch) matches Some(error) ==> record_refusal_is_true(
            records,
            at,
            length,
            scratch,
            1,
            error,
        ),
        plugin_record_fault(records, at, length, scratch) matches Some(error)
            ==> record_refusal_is_true(records, at, length, scratch, 2, error),
{
}

/// The refusal of a record is true of it, where opcodes up to `highest` are
/// understood.
pub open spec fn record_refusal_is_true(
    records: Seq<u8>,
    at: int,
    length: nat,
    scratch: nat,
    highest: int,
    error: ExecuteError,
) -> bool {
    match error {
        ExecuteError::RecordLength(index) => {
            &&& index == at as usize
            &&& u32_at(records, 16 * at + 8) != length || u32_at(records, 16 * at + 12) != length
        },
        ExecuteError::UnknownOpcode(index, opcode) => {
            &&& index == at as usize
            &&& opcode == u16_at(records, 16 * at)
            &&& opcode > highest
        },
        ExecuteError::Arena(crate::arena::ArenaError::InputTooLarge { required, capacity }) => {
            &&& required == length
            &&& capacity == scratch
            &&& required > capacity
        },
        _ => false,
    }
}

/// After records that were run one by one on the session input, the output is
/// what the last of them makes of that input, and of nothing else.
pub proof fn last_record_decides<D: PluginDispatch, A: Fn(u32, u32) -> u32>(
    plugins: D,
    sum: A,
    records: Seq<u8>,
    scratch: nat,
    before: SessionArena,
    after: SessionArena,
    done: int,
)
    requires
        done > 0,
    ensures
        ({
            let at = done - 1;
            let input = before.input_values();
            let output = after.output_values();
            let opcode = u16_at(records, 16 * at);
            &&& records_ran(sum, records, scratch, before, after, done) && opcode == 0 ==> output
                == input
            &&& records_ran(sum, records, scratch, before, after, done) && opcode == 1 ==> {
                &&& output.len() == input.len()
                &&& forall|i: int|
                    0 <= i < input.len() ==> call_ensures(
                        sum,
                        (input[i], u32_at(records, 16 * at + 4)),
                        #[trigger] output[i],
                    )
            }
            &&& record_applied(plugins, sum, records, at, input, output) && opcode == 0 ==> output
                == input
            &&& record_applied(plugins, sum, records, at, input, output) && opcode == 1 ==> {
                &&& output.len() == input.len()
                &&& forall|i: int|
                    0 <= i < input.len() ==> call_ensures(
                        sum,
                        (input[i], u32_at(records, 16 * at + 4)),
                        #[trigger] output[i],
                    )
            }
            &&& opcode == 2 ==> (record_applied(plugins, sum, records, at, input, output)
                <==> output.len() == input.len() && called(
                plugins,
                u16_at(records, 16 * at + 2) as usize,
                KernelCall::Elementwise,
                input,
                output,
            ))
        }),
{
}

/// Applying a single operation: a copy leaves the values, an addition adds its
/// value to every one of them.
pub proof fn operations_do_what_they_say<A: Fn(u32, u32) -> u32>(
    sum: A,
    value: u32,
    before: Seq<u32>,
    after: Seq<u32>,
)
    ensures
        applied(sum, Operation::Copy, before, after) <==> after == before,
        applied(sum, Operation::AddScalar { value }, before, after) <==> {
            &&& after.len() == before.len()
            &&& forall|i: int|
                0 <= i < before.len() ==> call_ensures(sum, (before[i], value), #[trigger] after[i])
        },
{
}

/// Scratch is refused exactly when it is shorter than the input, with both
/// lengths.
pub proof fn short_scratch_is_refused(scratch: usize, input: usize)
    ensures
        scratch_fault(scratch as nat, input as nat) == (if scratch < input {
            Some(
                ExecuteError::Arena(
                    crate::arena::ArenaError::InputTooLarge { required: input, capacity: scratch },
                ),
            )
        } else {
            None
        }),
{
}

/// Records that were run one by one with plugins: none was faulty, and the
/// output is what the last of them makes of the session input.
pub proof fn plugin_records_run_on_the_input<D: PluginDispatch, A: Fn(u32, u32) -> u32>(
    plugins: D,
    sum: A,
    records: Seq<u8>,
    scratch: nat,
    before: SessionArena,
    output: Seq<u32>,
    done: int,
)
    requires
        plugin_records_ran(plugins, sum, records, scratch, before, output, done),
        before.input_values().len() <= usize::MAX,
        scratch <= usize::MAX,
    ensures
        0 <= done <= records.len() / 16,
        forall|i: int|
            0 <= i < done ==> #[trigger] u16_at(records, 16 * i) <= 2 && u32_at(
                records,
                16 * i + 8,
            ) == before.input_values().len() && u32_at(records, 16 * i + 12)
                == before.input_values().len(),
        done == 0 ==> output == before.output_values(),
        done > 0 && u16_at(records, 16 * (done - 1)) == 0 ==> output == before.input_values(),
        done > 0 && u16_at(records, 16 * (done - 1)) == 1 ==> {
            &&& output.len() == before.input_values().len()
            &&& forall|i: int|
                0 <= i < output.len() ==> call_ensures(
                    sum,
                    (before.input_values()[i], u32_at(records, 16 * (done - 1) + 4)),
                    #[trigger] output[i],
                )
        },
        done > 0 && u16_at(records, 16 * (done - 1)) == 2 ==> output.len()
            == before.input_values().len() && called(
            plugins,
            u16_at(records, 16 * (done - 1) + 2) as usize,
            KernelCall::Elementwise,
            before.input_values(),
            output,
        ),
{
    assert forall|i: int| 0 <= i < done implies #[trigger] u16_at(records, 16 * i) <= 2 && u32_at(
        records,
        16 * i + 8,
    ) == before.input_values().len() && u32_at(records, 16 * i + 12)
        == before.input_values().len() by {
        assert(plugin_record_fault(records, i, before.input_values().len(), scratch) is None);
        plain_records_are_taken(records, i, before.input_values().len(), scratch);
    }
}

/// The plain executor's records, likewise.
pub proof fn plain_records_run_on_the_input<A: Fn(u32, u32) -> u32>(
    sum: A,
    records: Seq<u8>,
    scratch: nat,
    before: SessionArena,
    after: SessionArena,
    done: int,
)
    requires
        records_ran(sum, records, scratch, before, after, done),
        before.input_values().len() <= usize::MAX,
        scratch <= usize::MAX,
    ensures
        0 <= done <= records.len() / 16,
        forall|i: int|
            0 <= i < done ==> #[trigger] u16_at(records, 16 * i) <= 1 && u32_at(
                records,
                16 * i + 8,
            ) == before.input_values().len() && u32_at(records, 16 * i + 12)
                == before.input_values().len(),
        done > 0 ==> before.input_values().len() <= scratch,
        done == 0 ==> after == before,
{
    assert forall|i: int| 0 <= i < done implies #[trigger] u16_at(records, 16 * i) <= 1 && u32_at(
        records,
        16 * i + 8,
    ) == before.input_values().len() && u32_at(records, 16 * i + 12)
        == before.input_values().len() by {
        assert(record_fault(records, i, before.input_values().len(), scratch) is None);
        plain_records_are_taken(records, i, before.input_values().len(), scratch);
    }
    if done > 0 {
        assert(record_fault(records, 0, before.input_values().len(), scratch) is None);
        plain_records_are_taken(records, 0, before.input_values().len(), scratch);
    }
}

/// Executing a plan: it keeps the input; one that is not admitted changes
/// nothing; an admitted one leaves what its segments make of the input, or
/// stops at a dispatch that failed. A plan without segments changes nothing.
pub proof fn plans_run_or_change_nothing<D: PluginDispatch, A: Fn(u32, u32) -> u32>(
    plugins: D,
    sum: A,
    model: PlanModel,
    before: SessionArena,
    after: SessionArena,
    scratch: Seq<u32>,
    result: Result<(), ExecuteError>,
)
    requires
        plan_executed(plugins, sum, model, before, after, scratch, result),
        model.input_length <= model.peak_length <= usize::MAX,
        before.input_values().len() <= usize::MAX,
        scratch.len() <= usize::MAX,
        0 <= model.input_length,
    ensures
        after.input_values() == before.input_values(),
        ({
            let admitted = before.input_values().len() == model.input_length && model.peak_length
                <= 4096 && model.peak_length <= scratch.len();
            &&& !admitted ==> result is Err && after == before
            &&& admitted && result is Ok && model.segments.len() > 0 ==> segments_ran(
                plugins,
                sum,
                model.segments,
                before.input_values(),
                after.output_values(),
            )
            &&& admitted && result is Ok && model.segments.len() == 0 ==> after == before
            &&& admitted && result is Err ==> (result->Err_0 matches ExecuteError::Plugin(message)
                && segments_failed(
                plugins,
                sum,
                model.segments,
                before.input_values(),
                message,
            ))
        }),
{
    plans_are_admitted_by_length(model, before.input_values().len(), scratch.len());
    if admission_fault(model, before.input_values().len(), scratch.len()) is None && result is Err {
        let message = result->Err_0->Plugin_0;
        stops_are_failures(
            plugins,
            sum,
            model.segments,
            before.input_values(),
            message,
            after.output_values(),
            scratch,
        );
    }
}

/// Where a plan stopped, some segment failed on what the segments before it
/// left. Its values are in the output where an even number of segments came
/// before it, and otherwise in front of scratch, with the output holding what
/// the segment before it left.
pub proof fn stops_are_failures<D: PluginDispatch, A: Fn(u32, u32) -> u32>(
    plugins: D,
    sum: A,
    segments: Seq<SegmentModel>,
    input: Seq<u32>,
    message: String,
    output: Seq<u32>,
    scratch: Seq<u32>,
)
    requires
        segments_stopped(plugins, sum, segments, input, message, output, scratch),
    ensures
        segments_failed(plugins, sum, segments, input, message),
        exists|done: int, middle: Seq<u32>|
            0 <= done < segments.len() && #[trigger] segments_ran(
                plugins,
                sum,
                segments.take(done),
                input,
                middle,
            ) && (done % 2 == 0 ==> segment_failed(
                plugins,
                segments[done],
                middle,
                output,
                message,
            )) && (done % 2 == 1 ==> output == middle && exists|count: int|
                0 <= count <= scratch.len() && segment_failed(
                    plugins,
                    segments[done],
                    middle,
                    #[trigger] scratch.take(count),
                    message,
                )),
{
    let (done, middle, after) = choose|done: int, middle: Seq<u32>, after: Seq<u32>|
        0 <= done < segments.len() && #[trigger] segments_ran(
            plugins,
            sum,
            segments.take(done),
            input,
            middle,
        ) && #[trigger] segment_failed(plugins, segments[done], middle, after, message) && (if done
            % 2 == 0 {
            output == after
        } else {
            &&& output == middle
            &&& after.len() <= scratch.len()
            &&& scratch.take(after.len() as int) == after
        });
    assert(segments_ran(plugins, sum, segments.take(done), input, middle));
    assert(segment_failed(plugins, segments[done], middle, after, message));
    if done % 2 != 0 {
        assert(scratch.take(after.len() as int) == after);
    }
}

/// The segments that failed: one of them, on what those before it left, made its
/// own call, which failed.
pub proof fn failed_plans_made_a_call<D: PluginDispatch, A: Fn(u32, u32) -> u32>(
    plugins: D,
    sum: A,
    segments: Seq<SegmentModel>,
    input: Seq<u32>,
    message: String,
)
    requires
        segments_failed(plugins, sum, segments, input, message),
    ensures
        exists|done: int, middle: Seq<u32>, after: Seq<u32>|
            0 <= done < segments.len() && segments[done] !is Builtin && #[trigger] segments_ran(
                plugins,
                sum,
                segments.take(done),
                input,
                middle,
            ) && #[trigger] segment_failed(plugins, segments[done], middle, after, message),
{
}

/// A segment of a plan stands for its own fields.
pub proof fn segments_stand_for_their_fields(
    operands: [u32; 64],
    count: usize,
    index: u16,
    m: u32,
    k: u32,
    n: u32,
    rows: u16,
    inner: u16,
    columns: u16,
    activation: u16,
)
    requires
        count <= 64,
    ensures
        (PlanSegment::Builtin { operands, count }).model() == (SegmentModel::Builtin {
            operands: operands@.take(count as int),
        }),
        (PlanSegment::Plugin { index }).model() == (SegmentModel::Plugin { index }),
        (PlanSegment::Matmul { index, m, k, n }).model() == (SegmentModel::Matmul {
            index,
            m,
            k,
            n,
        }),
        (PlanSegment::MatmulAct { index, m: rows, k: inner, n: columns, activation }).model() == (
        SegmentModel::MatmulAct { index, m: rows, k: inner, n: columns, activation }),
{
}

/// The segment that a dispatch adds to a plan has the dispatch's own numbers; a
/// copy adds no operand, and an addition adds its value behind the others.
pub proof fn steps_become_segments(
    segments: Seq<SegmentModel>,
    value: u32,
    index: u16,
    m: u32,
    k: u32,
    n: u32,
    rows: u16,
    inner: u16,
    columns: u16,
    activation: u16,
)
    ensures
        fused(segments, Step::Elementwise { index }) == segments.push(
            SegmentModel::Plugin { index },
        ),
        fused(segments, Step::Matmul { index, m, k, n }) == segments.push(
            SegmentModel::Matmul { index, m, k, n },
        ),
        fused(
            segments,
            Step::MatmulAct { index, m: rows, k: inner, n: columns, activation },
        ) == segments.push(
            SegmentModel::MatmulAct { index, m: rows, k: inner, n: columns, activation },
        ),
        ({
            let open = segments.len() > 0 && segments.last() is Builtin
                && segments.last()->operands.len() < 64;
            &&& open ==> fused(segments, Step::Copy) == segments
            &&& !open ==> fused(segments, Step::Copy) == segments.push(
                SegmentModel::Builtin { operands: Seq::empty() },
            )
            &&& open ==> fused(segments, Step::AddScalar { value }) == segments.drop_last().push(
                SegmentModel::Builtin { operands: segments.last()->operands.push(value) },
            )
            &&& !open ==> fused(segments, Step::AddScalar { value }) == segments.push(
                SegmentModel::Builtin { operands: seq![value] },
            )
        }),
{
    let open = segments.len() > 0 && segments.last() is Builtin && segments.last()->operands.len()
        < 64;
    if !open {
        let base = segments.push(SegmentModel::Builtin { operands: Seq::empty() });
        assert(base.drop_last() =~= segments);
        assert(Seq::<u32>::empty().push(value) =~= seq![value]);
    }
}

} // verus!
