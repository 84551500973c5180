//! What fusing records into segments means: nothing but running the records
//! one after the other.
use crate::arena::SessionArena;
use crate::executor::{
    admission_fault, chained, dispatch_never_fails, dispatch_of, plan_executed, run_applied,
    segment_failed, segment_ran, segments_follow_records, segments_ran,
};
use crate::ops::{dispatch_returned, summed, ExecuteError, KernelCall, PluginDispatch};
use crate::plan::{
    compilation, compiled, extended, fused, opened, run_is_open, step_of, steps_of, SegmentModel,
    Step,
};
use vstd::prelude::*;

verus! {

/// The dispatch that a step makes, if it makes one: the kernel and the call.
pub open spec fn step_dispatch(step: Step) -> Option<(usize, KernelCall)> {
    match step {
        Step::Copy => None,
        Step::AddScalar { .. } => None,
        Step::Elementwise { index } => Some((index as usize, KernelCall::Elementwise)),
        Step::Matmul { index, m, k, n } => Some((index as usize, KernelCall::Matmul { m, k, n })),
        Step::MatmulAct { index, m, k, n, activation } => Some(
            (
                index as usize,
                KernelCall::MatmulAct {
                    m: m as u32,
                    k: k as u32,
                    n: n as u32,
                    activation: activation as u32,
                },
            ),
        ),
    }
}

/// `after` is what a single step makes of `before`.
pub open spec fn step_ran<D: PluginDispatch, A: Fn(u32, u32) -> u32>(
    plugins: D,
    sum: A,
    step: Step,
    before: Seq<u32>,
    after: Seq<u32>,
) -> bool {
    &&& after.len() == step.produces(before.len() as int)
    &&& match step {
        Step::Copy => after == before,
        Step::AddScalar { value } => summed(sum, before, value, after),
        _ => dispatch_returned(
            plugins,
            step_dispatch(step)->Some_0.0,
            step_dispatch(step)->Some_0.1,
            before,
            after,
            None,
        ),
    }
}

/// `output` is what the steps make of `input`, each consuming what the one
/// before it left.
pub open spec fn steps_ran<D: PluginDispatch, A: Fn(u32, u32) -> u32>(
    plugins: D,
    sum: A,
    steps: Seq<Step>,
    input: Seq<u32>,
    output: Seq<u32>,
) -> bool
    decreases steps.len(),
{
    if steps.len() == 0 {
        output == input
    } else {
        exists|middle: Seq<u32>|
            steps_ran(plugins, sum, steps.drop_last(), input, middle) && #[trigger] step_ran(
                plugins,
                sum,
                steps.last(),
                middle,
                output,
            )
    }
}

/// A run with one more addition is the run followed by the addition.
proof fn run_splits<A: Fn(u32, u32) -> u32>(
    sum: A,
    operands: Seq<u32>,
    value: u32,
    before: Seq<u32>,
    after: Seq<u32>,
)
    ensures
        run_applied(sum, operands.push(value), before, after) <==> exists|middle: Seq<u32>|
            run_applied(sum, operands, before, middle) && #[trigger] summed(
                sum,
                middle,
                value,
                after,
            ),
{
    let longer = operands.push(value);
    assert(longer.drop_last() =~= operands);
    assert(longer.last() == value);
    if run_applied(sum, longer, before, after) {
        let middle = Seq::new(
            before.len(),
            |i: int|
                choose|w: u32|
                    chained(sum, operands, before[i], w) && #[trigger] call_ensures(
                        sum,
                        (w, value),
                        after[i],
                    ),
        );
        assert forall|i: int| 0 <= i < before.len() implies chained(
            sum,
            operands,
            before[i],
            #[trigger] middle[i],
        ) && call_ensures(sum, (middle[i], value), after[i]) by {
            assert(chained(sum, longer, before[i], after[i]));
            let w = choose|w: u32|
                chained(sum, longer.drop_last(), before[i], w) && #[trigger] call_ensures(
                    sum,
                    (w, longer.last()),
                    after[i],
                );
            assert(chained(sum, operands, before[i], w));
            assert(call_ensures(sum, (w, value), after[i]));
        }
        assert(run_applied(sum, operands, before, middle));
        assert forall|i: int| 0 <= i < middle.len() implies call_ensures(
            sum,
            (middle[i], value),
            #[trigger] after[i],
        ) by {
            assert(chained(sum, operands, before[i], middle[i]));
        }
        assert(summed(sum, middle, value, after));
    }
    if exists|middle: Seq<u32>|
        run_applied(sum, operands, before, middle) && #[trigger] summed(
            sum,
            middle,
            value,
            after,
        ) {
        let middle = choose|middle: Seq<u32>|
            run_applied(sum, operands, before, middle) && #[trigger] summed(
                sum,
                middle,
                value,
                after,
            );
        assert forall|i: int| 0 <= i < before.len() implies chained(
            sum,
            longer,
            before[i],
            #[trigger] after[i],
        ) by {
            assert(chained(sum, longer.drop_last(), before[i], middle[i]));
            assert(call_ensures(sum, (middle[i], longer.last()), after[i]));
        }
    }
}

/// Appending a segment runs it after the others.
proof fn pushed_segment_runs_last<D: PluginDispatch, A: Fn(u32, u32) -> u32>(
    plugins: D,
    sum: A,
    segments: Seq<SegmentModel>,
    segment: SegmentModel,
    input: Seq<u32>,
    output: Seq<u32>,
)
    ensures
        segments_ran(plugins, sum, segments.push(segment), input, output) <==> exists|
            middle: Seq<u32>,
        |
            segments_ran(plugins, sum, segments, input, middle) && #[trigger] segment_ran(
                plugins,
                sum,
                segment,
                middle,
                output,
            ),
{
    let longer = segments.push(segment);
    assert(longer.drop_last() =~= segments);
    assert(longer.last() == segment);
    if segments_ran(plugins, sum, longer, input, output) {
        let middle = choose|middle: Seq<u32>|
            segments_ran(plugins, sum, longer.drop_last(), input, middle)
                && #[trigger] segment_ran(plugins, sum, longer.last(), middle, output);
        assert(segment_ran(plugins, sum, segment, middle, output));
    }
    if exists|middle: Seq<u32>|
        segments_ran(plugins, sum, segments, input, middle) && #[trigger] segment_ran(
            plugins,
            sum,
            segment,
            middle,
            output,
        ) {
        let middle = choose|middle: Seq<u32>|
            segments_ran(plugins, sum, segments, input, middle) && #[trigger] segment_ran(
                plugins,
                sum,
                segment,
                middle,
                output,
            );
        assert(segment_ran(plugins, sum, longer.last(), middle, output));
    }
}

/// Opening a run changes nothing.
proof fn opened_means_the_same<D: PluginDispatch, A: Fn(u32, u32) -> u32>(
    plugins: D,
    sum: A,
    segments: Seq<SegmentModel>,
    input: Seq<u32>,
    output: Seq<u32>,
)
    ensures
        segments_ran(plugins, sum, opened(segments), input, output) <==> segments_ran(
            plugins,
            sum,
            segments,
            input,
            output,
        ),
{
    if !run_is_open(segments) {
        let empty = SegmentModel::Builtin { operands: Seq::empty() };
        pushed_segment_runs_last(plugins, sum, segments, empty, input, output);
        assert forall|middle: Seq<u32>| #[trigger]
            segment_ran(plugins, sum, empty, middle, output) implies middle == output by {
            assert(run_applied(sum, Seq::<u32>::empty(), middle, output));
            assert forall|i: int| 0 <= i < middle.len() implies middle[i] == output[i] by {
                assert(chained(sum, Seq::<u32>::empty(), middle[i], output[i]));
            }
            assert(middle =~= output);
        }
        assert(segment_ran(plugins, sum, empty, output, output));
    }
}

/// One more step means running it after the segments before it.
proof fn fused_means_one_step_more<D: PluginDispatch, A: Fn(u32, u32) -> u32>(
    plugins: D,
    sum: A,
    segments: Seq<SegmentModel>,
    step: Step,
    input: Seq<u32>,
    output: Seq<u32>,
)
    ensures
        segments_ran(plugins, sum, fused(segments, step), input, output) <==> exists|
            middle: Seq<u32>,
        |
            segments_ran(plugins, sum, segments, input, middle) && #[trigger] step_ran(
                plugins,
                sum,
                step,
                middle,
                output,
            ),
{
    let after = fused(segments, step);
    match step {
        Step::Copy => {
            opened_means_the_same(plugins, sum, segments, input, output);
            if segments_ran(plugins, sum, segments, input, output) {
                assert(step_ran(plugins, sum, step, output, output));
            }
        },
        Step::AddScalar { value } => {
            let base = opened(segments);
            let operands = base.last()->operands;
            let front = base.drop_last();
            let short = SegmentModel::Builtin { operands };
            let long = SegmentModel::Builtin { operands: operands.push(value) };
            assert(base =~= front.push(short));
            pushed_segment_runs_last(plugins, sum, front, long, input, output);
            if segments_ran(plugins, sum, after, input, output) {
                let start = choose|start: Seq<u32>|
                    segments_ran(plugins, sum, front, input, start) && #[trigger] segment_ran(
                        plugins,
                        sum,
                        long,
                        start,
                        output,
                    );
                run_splits(sum, operands, value, start, output);
                let middle = choose|middle: Seq<u32>|
                    run_applied(sum, operands, start, middle) && #[trigger] summed(
                        sum,
                        middle,
                        value,
                        output,
                    );
                assert(segment_ran(plugins, sum, short, start, middle));
                pushed_segment_runs_last(plugins, sum, front, short, input, middle);
                opened_means_the_same(plugins, sum, segments, input, middle);
                assert(step_ran(plugins, sum, step, middle, output));
            }
            if exists|middle: Seq<u32>|
                segments_ran(plugins, sum, segments, input, middle) && #[trigger] step_ran(
                    plugins,
                    sum,
                    step,
                    middle,
                    output,
                ) {
                let middle = choose|middle: Seq<u32>|
                    segments_ran(plugins, sum, segments, input, middle) && #[trigger] step_ran(
                        plugins,
                        sum,
                        step,
                        middle,
                        output,
                    );
                opened_means_the_same(plugins, sum, segments, input, middle);
                pushed_segment_runs_last(plugins, sum, front, short, input, middle);
                let start = choose|start: Seq<u32>|
                    segments_ran(plugins, sum, front, input, start) && #[trigger] segment_ran(
                        plugins,
                        sum,
                        short,
                        start,
                        middle,
                    );
                assert(run_applied(sum, operands, start, middle));
                assert(summed(sum, middle, value, output));
                run_splits(sum, operands, value, start, output);
                assert(segment_ran(plugins, sum, long, start, output));
            }
        },
        _ => {
            let segment = after.last();
            assert(after =~= segments.push(segment));
            pushed_segment_runs_last(plugins, sum, segments, segment, input, output);
            assert forall|middle: Seq<u32>|
                #![trigger segment_ran(plugins, sum, segment, middle, output)]
                #![trigger step_ran(plugins, sum, step, middle, output)]
                segment_ran(plugins, sum, segment, middle, output) <==> step_ran(
                    plugins,
                    sum,
                    step,
                    middle,
                    output,
                ) by {
                assert(dispatch_of(segment) == step_dispatch(step));
            }
        },
    }
}

/// The first `count` records mean the same fused as one by one.
proof fn compiled_means_the_steps<D: PluginDispatch, A: Fn(u32, u32) -> u32>(
    plugins: D,
    sum: A,
    records: Seq<u8>,
    input_length: int,
    count: int,
    input: Seq<u32>,
    output: Seq<u32>,
)
    requires
        0 <= count <= records.len() / 16,
        compiled(records, input_length, count) is Ok,
    ensures
        segments_ran(
            plugins,
            sum,
            compiled(records, input_length, count)->Ok_0.segments,
            input,
            output,
        ) <==> steps_ran(plugins, sum, steps_of(records).take(count), input, output),
    decreases count,
{
    let steps = steps_of(records).take(count);
    if count > 0 {
        let before = compiled(records, input_length, count - 1)->Ok_0;
        let step = step_of(records, count - 1);
        assert(compiled(records, input_length, count) == extended(records, before, count - 1));
        assert(steps.drop_last() =~= steps_of(records).take(count - 1));
        assert(steps.last() == step);
        fused_means_one_step_more(plugins, sum, before.segments, step, input, output);
        if segments_ran(plugins, sum, fused(before.segments, step), input, output) {
            let middle = choose|middle: Seq<u32>|
                segments_ran(plugins, sum, before.segments, input, middle) && #[trigger] step_ran(
                    plugins,
                    sum,
                    step,
                    middle,
                    output,
                );
            compiled_means_the_steps(plugins, sum, records, input_length, count - 1, input, middle);
            assert(step_ran(plugins, sum, steps.last(), middle, output));
        }
        if steps_ran(plugins, sum, steps, input, output) {
            let middle = choose|middle: Seq<u32>|
                steps_ran(plugins, sum, steps.drop_last(), input, middle) && #[trigger] step_ran(
                    plugins,
                    sum,
                    steps.last(),
                    middle,
                    output,
                );
            compiled_means_the_steps(plugins, sum, records, input_length, count - 1, input, middle);
            assert(step_ran(plugins, sum, step, middle, output));
        }
    }
}

/// Fusion changes nothing: a compiled plan can turn `input` into `output`
/// exactly when its records, run one after the other, can.
pub proof fn fusion_preserves_meaning<D: PluginDispatch, A: Fn(u32, u32) -> u32>(
    plugins: D,
    sum: A,
    records: Seq<u8>,
    input_length: int,
    input: Seq<u32>,
    output: Seq<u32>,
)
    requires
        compilation(records, input_length) is Ok,
    ensures
        segments_ran(
            plugins,
            sum,
            compilation(records, input_length)->Ok_0.segments,
            input,
            output,
        ) <==> steps_ran(plugins, sum, steps_of(records), input, output),
{
    let count = records.len() as int / 16;
    assert(steps_of(records).take(count) =~= steps_of(records));
    compiled_means_the_steps(plugins, sum, records, input_length, count, input, output);
}

/// `sum` gives one result for each pair of values.
pub open spec fn sum_is_functional<A: Fn(u32, u32) -> u32>(sum: A) -> bool {
    forall|x: u32, y: u32, first: u32, second: u32|
        #![trigger call_ensures(sum, (x, y), first), call_ensures(sum, (x, y), second)]
        call_ensures(sum, (x, y), first) && call_ensures(sum, (x, y), second) ==> first == second
}

/// A kernel that succeeds leaves one output for each call and input.
pub open spec fn dispatch_is_functional<D: PluginDispatch>(plugins: D) -> bool {
    forall|
        index: usize,
        call: KernelCall,
        input: Seq<u32>,
        first: Seq<u32>,
        second: Seq<u32>,
    |
        #[trigger] dispatch_returned(plugins, index, call, input, first, None)
            && #[trigger] dispatch_returned(plugins, index, call, input, second, None)
            && first.len() == second.len() ==> first == second
}

/// With deterministic arithmetic and kernels, running records one after the
/// other has at most one outcome.
pub proof fn steps_are_deterministic<D: PluginDispatch, A: Fn(u32, u32) -> u32>(
    plugins: D,
    sum: A,
    steps: Seq<Step>,
    input: Seq<u32>,
    first: Seq<u32>,
    second: Seq<u32>,
)
    requires
        sum_is_functional(sum),
        dispatch_is_functional(plugins),
        steps_ran(plugins, sum, steps, input, first),
        steps_ran(plugins, sum, steps, input, second),
    ensures
        first == second,
    decreases steps.len(),
{
    if steps.len() > 0 {
        let step = steps.last();
        let one = choose|middle: Seq<u32>|
            steps_ran(plugins, sum, steps.drop_last(), input, middle) && #[trigger] step_ran(
                plugins,
                sum,
                step,
                middle,
                first,
            );
        let two = choose|middle: Seq<u32>|
            steps_ran(plugins, sum, steps.drop_last(), input, middle) && #[trigger] step_ran(
                plugins,
                sum,
                step,
                middle,
                second,
            );
        steps_are_deterministic(plugins, sum, steps.drop_last(), input, one, two);
        match step {
            Step::AddScalar { value } => {
                assert forall|i: int| 0 <= i < first.len() implies first[i] == second[i] by {
                    assert(call_ensures(sum, (one[i], value), first[i]));
                    assert(call_ensures(sum, (one[i], value), second[i]));
                }
                assert(first =~= second);
            },
            _ => {},
        }
    }
}

/// A plan that is admitted runs its records: where no dispatch fails it
/// succeeds, the output is what the records make of the session input one
/// after the other, and the input stays. With deterministic arithmetic and
/// kernels there is no other output.
pub proof fn admitted_plans_run_their_records<D: PluginDispatch, A: Fn(u32, u32) -> u32>(
    plugins: D,
    sum: A,
    records: Seq<u8>,
    before: SessionArena,
    after: SessionArena,
    scratch: Seq<u32>,
    result: Result<(), ExecuteError>,
)
    requires
        records.len() > 0,
        compilation(records, before.input_values().len() as int) is Ok,
        admission_fault(
            compilation(records, before.input_values().len() as int)->Ok_0,
            before.input_values().len(),
            scratch.len(),
        ) is None,
        dispatch_never_fails(plugins),
        plan_executed(
            plugins,
            sum,
            compilation(records, before.input_values().len() as int)->Ok_0,
            before,
            after,
            scratch,
            result,
        ),
    ensures
        result is Ok,
        after.input_values() == before.input_values(),
        steps_ran(
            plugins,
            sum,
            steps_of(records),
            before.input_values(),
            after.output_values(),
        ),
        sum_is_functional(sum) && dispatch_is_functional(plugins) ==> forall|output: Seq<u32>|
            #[trigger] steps_ran(plugins, sum, steps_of(records), before.input_values(), output)
                ==> output == after.output_values(),
{
    let input = before.input_values();
    let length = input.len() as int;
    let model = compilation(records, length)->Ok_0;
    if result is Err {
        let message = result->Err_0->Plugin_0;
        let (done, middle, left) = choose|done: int, middle: Seq<u32>, left: Seq<u32>|
            0 <= done < model.segments.len() && #[trigger] segments_ran(
                plugins,
                sum,
                model.segments.take(done),
                input,
                middle,
            ) && #[trigger] segment_failed(plugins, model.segments[done], middle, left, message);
        assert(segment_failed(plugins, model.segments[done], middle, left, message));
    }
    segments_follow_records(records, length, records.len() as int / 16);
    fusion_preserves_meaning(plugins, sum, records, length, input, after.output_values());
    if sum_is_functional(sum) && dispatch_is_functional(plugins) {
        assert forall|output: Seq<u32>| #[trigger]
            steps_ran(plugins, sum, steps_of(records), input, output) implies output
            == after.output_values() by {
            steps_are_deterministic(
                plugins,
                sum,
                steps_of(records),
                input,
                output,
                after.output_values(),
            );
        }
    }
}

} // verus!
