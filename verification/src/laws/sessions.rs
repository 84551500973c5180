//! What goes into a session, what comes out, and what is kept and shown of it.
use crate::allocation::{allocations_on, counter_of, AllocationCounter, AllocationEvent};
use crate::arena::SessionArena;
use crate::artifact::{
    header_of, lookup_finds, lookup_finds_none, payload, Artifact, ArtifactError, ArtifactHeader,
};
use crate::bytes::{u16_at, u32_at, u64_at};
use crate::cache::{holds, joined};
use crate::config::{effective, effective_text, recorded, Config, ConfigError, FileConfig};
use crate::digest::{canonical_json, identity_text, json_address, sha256_digest};
use crate::executor::{
    admission_fault, segments_failed, total_read, total_written, trace_of, ExecutionTrace,
    TraceEntry,
};
use crate::fusion::steps_ran;
use crate::identity::{operands_text, plan_document, plan_text, segment_text, segments_text};
use crate::ir::{IrModel, IrOpModel};
use crate::laws::artifacts::{
    artifacts_are_the_bytes_in_order, declared_sections, entry_kind, in_order,
    sections_are_found_by_kind,
};
use crate::laws::lowering::{
    is_record_of, length_reaching, lowered_plans_mean_their_operations,
    lowering_keeps_every_operation, lowering_stops, operation_fits, operations_ran,
    records_hold_every_operation,
};
use crate::laws::running::{
    compilation_stops, compiled_fronts_are_short, fitting_records_compile,
    plans_are_admitted_by_length, record_fits, stops_are_failures, values_reaching,
};
use crate::lowering::{lower_error, lowered_plans_compile, lowering, records_of, LowerFault};
use crate::ops::{ExecuteError, PluginDispatch, OPERATION_SECTION};
use crate::plan::{compilation, steps_of, PlanModel, SegmentModel};
use crate::publish::{
    artifact_image, created_artifacts_read_back, fixture_operations, fixture_provenance,
    report_text, shown_provenance,
};
use crate::session::{
    artifacts_carry_their_plan, input_fault, input_values, plan_created, provenance_text,
    records_executed, CreatePlanError, InputError, RunError,
};
use crate::text::{decimal, hexadecimal};
use vstd::prelude::*;
use vstd::utf8::encode_utf8;

verus! {

/// An input file holds one single in every four bytes, the lowest byte first,
/// and is taken exactly when it is made of whole singles, 4096 at most.
pub proof fn input_files_are_singles(bytes: Seq<u8>)
    ensures
        input_values(bytes).len() == bytes.len() / 4,
        forall|i: int|
            0 <= i < bytes.len() / 4 ==> #[trigger] input_values(bytes)[i] == bytes[4 * i] + 0x100
                * bytes[4 * i + 1] + 0x1_0000 * bytes[4 * i + 2] + 0x100_0000 * bytes[4 * i + 3],
        input_fault(bytes.len()) is None <==> bytes.len() % 4 == 0 && bytes.len() <= 16_384,
        input_fault(bytes.len()) == Some(InputError::Length) <==> bytes.len() % 4 != 0,
        input_fault(bytes.len()) == Some(InputError::Capacity) <==> bytes.len() % 4 == 0
            && bytes.len() > 16_384,
{
    assert forall|i: int| 0 <= i < bytes.len() / 4 implies #[trigger] input_values(bytes)[i]
        == bytes[4 * i] + 0x100 * bytes[4 * i + 1] + 0x1_0000 * bytes[4 * i + 2] + 0x100_0000
        * bytes[4 * i + 3] by {
        reveal(u32_at);
        assert(input_values(bytes)[i] == u32_at(bytes, 4 * i));
    }
}

/// A created artifact has a header of 32 bytes, two table entries of 32 bytes
/// each, then the operations (kind 1) and right behind them the provenance
/// (kind 2), both aligned to four.
pub proof fn created_artifacts_are_laid_out(operations: Seq<u8>, provenance: Seq<u8>)
    requires
        96 + operations.len() + provenance.len() <= u64::MAX,
        operations.len() % 16 == 0,
    ensures
        ({
            let image = artifact_image(operations, provenance);
            &&& in_order(image)
            &&& image.len() == 96 + operations.len() + provenance.len()
            &&& u16_at(image, 8) == 1
            &&& u16_at(image, 10) == 0
            &&& u32_at(image, 12) == 2
            &&& u64_at(image, 16) == 32
            &&& u64_at(image, 24) == image.len()
            &&& u32_at(image, 32) == 1
            &&& u32_at(image, 36) == 0
            &&& u64_at(image, 40) == 96
            &&& u64_at(image, 48) == operations.len()
            &&& u64_at(image, 56) == 4
            &&& u32_at(image, 64) == 2
            &&& u32_at(image, 68) == 0
            &&& u64_at(image, 72) == 96 + operations.len()
            &&& u64_at(image, 80) == provenance.len()
            &&& u64_at(image, 88) == 4
            &&& image.subrange(96, 96 + operations.len() as int) == operations
            &&& image.skip(96 + operations.len() as int) == provenance
        }),
{
    let image = artifact_image(operations, provenance);
    created_artifacts_read_back(operations, provenance);
    artifacts_are_the_bytes_in_order(image);
    crate::publish::image_reads_back(operations, provenance);
    crate::laws::artifacts::headers_tell_their_fields(image);
    let header = header_of(image);
    let first = crate::artifact::section_record(image, header, 0);
    let second = crate::artifact::section_record(image, header, 1);
    assert(first.kind == u32_at(image, 32));
    assert(second.kind == u32_at(image, 64));
    assert(image.subrange(96, 96 + operations.len() as int) =~= operations);
    assert(image.skip(96 + operations.len() as int) =~= provenance);
}

/// The provenance of a plan names its source and its address.
pub proof fn provenance_names_source_and_plan(source: Seq<char>, plan: Seq<char>)
    ensures
        provenance_text(source, plan)
            == "{\"compiler\":\"native-machine\",\"source\":\""@ + source + "\",\"plan\":\""@ + plan
            + "\"}"@,
{
}

/// The artifact that a plan becomes: every operation fits, record `i` behind the
/// 96 bytes of header and table is that of operation `i`, and the provenance
/// follows.
pub proof fn created_plans_hold_their_operations(
    name: Seq<char>,
    kernels: Seq<(Seq<char>, u16)>,
    model: IrModel,
    result: Result<Vec<u8>, CreatePlanError>,
)
    requires
        plan_created(name, kernels, model, result),
        model.input_length matches Some(length) ==> 0 <= length <= usize::MAX,
    ensures
        model.input_length is None <==> result == Err::<Vec<u8>, _>(CreatePlanError::InputLength),
        result matches Ok(bytes) ==> {
            let length = model.input_length->Some_0;
            let end = 96 + 16 * model.ops.len();
            &&& forall|i: int|
                0 <= i < model.ops.len() ==> #[trigger] operation_fits(
                    kernels,
                    model.ops[i],
                    length_reaching(model.ops, length, i),
                )
            &&& in_order(bytes@)
            &&& bytes@.len() >= end
            &&& forall|i: int|
                0 <= i < model.ops.len() ==> is_record_of(
                    kernels,
                    model.ops[i],
                    length_reaching(model.ops, length, i),
                    #[trigger] bytes@.subrange(96 + 16 * i, 112 + 16 * i),
                )
            &&& exists|address: Seq<char>|
                bytes@.skip(end as int) == #[trigger] encode_utf8(provenance_text(name, address))
        },
{
    match result {
        Ok(bytes) => {
            let length = model.input_length->Some_0;
            let count = model.ops.len() as int;
            lowering_keeps_every_operation(kernels, model.ops, length);
            records_hold_every_operation(kernels, model.ops, length, count);
            let records = records_of(kernels, model.ops, length, count);
            let plan = compilation(records, length)->Ok_0;
            let label = json_address(plan_document(plan.segments))->Ok_0;
            let provenance = encode_utf8(provenance_text(name, label));
            created_artifacts_are_laid_out(records, provenance);
            assert forall|i: int| 0 <= i < count implies is_record_of(
                kernels,
                model.ops[i],
                length_reaching(model.ops, length, i),
                #[trigger] bytes@.subrange(96 + 16 * i, 112 + 16 * i),
            ) by {
                assert(bytes@.subrange(96 + 16 * i, 112 + 16 * i) =~= bytes@.subrange(
                    96,
                    96 + records.len() as int,
                ).subrange(16 * i, 16 * i + 16));
                assert(records.subrange(16 * i, 16 * i + 16) == bytes@.subrange(
                    96 + 16 * i,
                    112 + 16 * i,
                ));
            }
        },
        _ => {},
    }
}

/// Running the operation section of a created artifact is evaluating the plan's
/// operations one after the other.
pub proof fn created_plans_run_their_operations<D: PluginDispatch, A: Fn(u32, u32) -> u32>(
    plugins: D,
    sum: A,
    kernels: Seq<(Seq<char>, u16)>,
    ops: Seq<IrOpModel>,
    provenance: Seq<u8>,
    index: int,
    input: Seq<u32>,
    output: Seq<u32>,
)
    requires
        input.len() <= usize::MAX,
        lowering(kernels, ops, input.len() as int) is Ok,
        96 + records_of(kernels, ops, input.len() as int, ops.len() as int).len() + provenance.len()
            <= u64::MAX,
    ensures
        ({
            let image = artifact_image(
                records_of(kernels, ops, input.len() as int, ops.len() as int),
                provenance,
            );
            lookup_finds(image, header_of(image), OPERATION_SECTION, index) ==> (steps_ran(
                plugins,
                sum,
                steps_of(payload(image, header_of(image), index)),
                input,
                output,
            ) <==> operations_ran(plugins, sum, kernels, ops, ops.len() as int, input, output))
        }),
{
    artifacts_carry_their_plan(kernels, ops, input.len() as int, provenance, index);
    lowered_plans_mean_their_operations(
        plugins,
        sum,
        kernels,
        ops,
        input,
        output,
        arbitrary(),
    );
}

/// The records of a lowered plan that compiles take and leave the values that
/// its operations do.
pub proof fn lowered_records_fit(
    kernels: Seq<(Seq<char>, u16)>,
    ops: Seq<IrOpModel>,
    length: int,
)
    requires
        0 <= length <= usize::MAX,
        lowering(kernels, ops, length) is Ok,
        compilation(records_of(kernels, ops, length, ops.len() as int), length) is Ok,
    ensures
        ({
            let records = records_of(kernels, ops, length, ops.len() as int);
            &&& forall|i: int|
                0 <= i < records.len() / 16 ==> #[trigger] record_fits(
                    records,
                    i,
                    values_reaching(records, length, i),
                )
            &&& values_reaching(records, length, records.len() as int / 16) == length_reaching(
                ops,
                length,
                ops.len() as int,
            )
        }),
{
    let records = records_of(kernels, ops, length, ops.len() as int);
    fitting_records_compile(records, length);
    lowered_plans_compile(kernels, ops, length);
    lowering_keeps_every_operation(kernels, ops, length);
}

/// Later sources win: the root is the command line's, else the environment's,
/// else the file's, else the home directory's; there must be one of the
/// command line, the environment and the home directory. The limits are the
/// file's, else four GiB and 128 MiB.
pub proof fn later_sources_win<P>(
    root_override: Option<P>,
    environment: Option<P>,
    home: Option<P>,
    file: Option<FileConfig<P>>,
)
    ensures
        match effective(root_override, environment, home, file) {
            Ok(config) => {
                &&& root_override is Some || environment is Some || home is Some
                &&& root_override is Some ==> config.root == root_override->Some_0
                &&& root_override is None && environment is Some ==> config.root
                    == environment->Some_0
                &&& root_override is None && environment is None && file is Some
                    && file->Some_0.root is Some ==> config.root == file->Some_0.root->Some_0
                &&& root_override is None && environment is None && (file is None
                    || file->Some_0.root is None) ==> config.root == home->Some_0
                &&& file is Some ==> config.max_artifact_bytes == file->Some_0.max_artifact_bytes
                    && config.max_plugin_bytes == file->Some_0.max_plugin_bytes
                &&& file is None ==> config.max_artifact_bytes == 4_294_967_296
                    && config.max_plugin_bytes == 134_217_728
            },
            Err(error) => error == ConfigError::HomeUnavailable && root_override is None
                && environment is None && home is None,
        },
{
}

/// The file that records a configuration holds its root and its limits, and the
/// text that shows it names them.
pub proof fn configurations_are_recorded_and_shown<P>(
    config: Config<P>,
    root: Seq<char>,
    artifact: u64,
    plugin: u64,
)
    ensures
        recorded(config).root == Some(config.root),
        recorded(config).max_artifact_bytes == config.max_artifact_bytes,
        recorded(config).max_plugin_bytes == config.max_plugin_bytes,
        effective_text(root, artifact, plugin) == "root = "@ + root + "\nmax_artifact_bytes = "@
            + decimal(artifact as nat) + "\nmax_plugin_bytes = "@ + decimal(plugin as nat),
{
}

/// A plan that is offered to a cache is held afterwards, behind everything that
/// was held; under an address that is taken nothing changes.
pub proof fn offered_plans_are_held(
    plans: Seq<(Seq<char>, PlanModel)>,
    address: Seq<char>,
    plan: PlanModel,
)
    ensures
        ({
            let after = joined(plans, address, plan);
            let taken = exists|i: int| 0 <= i < plans.len() && (#[trigger] plans[i]).0 == address;
            &&& holds(plans, address) == taken
            &&& taken ==> after == plans
            &&& !taken ==> after.len() == plans.len() + 1 && after.drop_last() == plans
                && after.last().0 == address && after.last().1 == plan
        }),
{
    let after = joined(plans, address, plan);
    if !holds(plans, address) {
        assert(after.drop_last() =~= plans);
    }
}

/// A measurement that ended keeps its count, whatever is allocated or freed
/// afterwards.
pub proof fn ended_measurements_keep_their_count(
    before: Seq<(int, AllocationEvent)>,
    since: Seq<(int, AllocationEvent)>,
    thread: int,
)
    requires
        forall|i: int|
            0 <= i < since.len() && (#[trigger] since[i]).0 == thread ==> since[i].1 !is Begun,
    ensures
        counter_of(before + seq![(thread, AllocationEvent::Ended)] + since, thread) == (
        AllocationCounter { tracking: false, allocations: counter_of(before, thread).allocations }),
    decreases since.len(),
{
    let ended = before + seq![(thread, AllocationEvent::Ended)];
    let all = ended + since;
    if since.len() == 0 {
        assert(all =~= ended);
        assert(ended.drop_last() =~= before);
        assert(ended.last() == (thread, AllocationEvent::Ended));
    } else {
        let front = since.drop_last();
        assert(all.drop_last() =~= ended + front);
        assert(all.last() == since[since.len() - 1]);
        assert forall|i: int|
            0 <= i < front.len() && (#[trigger] front[i]).0 == thread implies front[i].1
            !is Begun by {
            assert(front[i] == since[i]);
        }
        ended_measurements_keep_their_count(before, front, thread);
    }
}

/// The pieces, with a comma between every two of them.
pub open spec fn with_commas(pieces: Seq<Seq<char>>) -> Seq<char>
    decreases pieces.len(),
{
    if pieces.len() == 0 {
        Seq::empty()
    } else {
        with_commas(pieces.drop_last()) + (if pieces.len() == 1 {
            Seq::empty()
        } else {
            seq![',']
        }) + pieces.last()
    }
}

/// Operands are listed as decimal numbers with commas between them.
pub proof fn operands_are_listed(operands: Seq<u32>)
    ensures
        operands_text(operands) == with_commas(
            operands.map_values(|operand: u32| decimal(operand as nat)),
        ),
    decreases operands.len(),
{
    let numbers = operands.map_values(|operand: u32| decimal(operand as nat));
    reveal_strlit(",");
    assert(","@ =~= seq![',']);
    if operands.len() == 0 {
        assert(operands_text(operands) =~= with_commas(numbers));
    } else {
        let front = operands.drop_last();
        operands_are_listed(front);
        assert(numbers.drop_last() =~= front.map_values(|operand: u32| decimal(operand as nat)));
        assert(numbers.last() == decimal(operands.last() as nat));
        if operands.len() == 1 {
            assert(front.len() == 0);
            assert(operands_text(operands) =~= with_commas(numbers));
        }
    }
}

/// Segments are listed with commas between them.
pub proof fn segments_are_listed(segments: Seq<SegmentModel>)
    ensures
        segments_text(segments) == with_commas(
            segments.map_values(|segment: SegmentModel| segment_text(segment)),
        ),
        plan_text(segments)
            == "{\"format\":\"native-machine-plan\",\"version\":1,\"segments\":["@ + with_commas(
            segments.map_values(|segment: SegmentModel| segment_text(segment)),
        ) + "]}"@,
        plan_document(segments) == encode_utf8(plan_text(segments)),
    decreases segments.len(),
{
    let entries = segments.map_values(|segment: SegmentModel| segment_text(segment));
    reveal_strlit(",");
    assert(","@ =~= seq![',']);
    if segments.len() == 0 {
        assert(segments_text(segments) =~= with_commas(entries));
    } else {
        let front = segments.drop_last();
        segments_are_listed(front);
        assert(entries.drop_last() =~= front.map_values(
            |segment: SegmentModel| segment_text(segment),
        ));
        assert(entries.last() == segment_text(segments.last()));
        if segments.len() == 1 {
            assert(front.len() == 0);
            assert(segments_text(segments) =~= with_commas(entries));
        }
    }
}

/// The entry of a segment names its kind and its own numbers.
pub proof fn segments_are_named(
    operands: Seq<u32>,
    index: u16,
    m: u32,
    k: u32,
    n: u32,
    rows: u16,
    inner: u16,
    columns: u16,
    activation: u16,
)
    ensures
        segment_text(SegmentModel::Builtin { operands }) == "{\"kind\":\"builtin\",\"operands\":["@
            + (operands_text(operands) + "]}"@),
        segment_text(SegmentModel::Plugin { index }) == "{\"kind\":\"plugin\",\"index\":"@ + (
        decimal(index as nat) + "}"@),
        segment_text(SegmentModel::Matmul { index, m, k, n })
            == "{\"kind\":\"matmul\",\"index\":"@ + (decimal(index as nat) + (",\"m\":"@ + (decimal(
            m as nat,
        ) + (",\"k\":"@ + (decimal(k as nat) + (",\"n\":"@ + (decimal(n as nat) + "}"@))))))),
        segment_text(
            SegmentModel::MatmulAct { index, m: rows, k: inner, n: columns, activation },
        ) == "{\"kind\":\"matmul_act\",\"index\":"@ + (decimal(index as nat) + (",\"m\":"@ + (
        decimal(rows as nat) + (",\"k\":"@ + (decimal(inner as nat) + (",\"n\":"@ + (decimal(
            columns as nat,
        ) + (",\"activation\":"@ + (decimal(activation as nat) + "}"@))))))))),
{
}

/// An identity is the digest in hexadecimal behind the name of the hash; the
/// address of a document is that of its canonical form, and bytes without one
/// have no address.
pub proof fn identities_are_digests(digest: Seq<u8>, bytes: Seq<u8>)
    ensures
        identity_text(digest) == "sha256:"@ + hexadecimal(digest),
        canonical_json(bytes) matches Some(canonical) ==> json_address(bytes) == Ok::<
            _,
            Seq<char>,
        >("sha256:"@ + hexadecimal(sha256_digest(canonical))),
        canonical_json(bytes) is None ==> json_address(bytes) == Err::<Seq<char>, _>(
            "InvalidJson"@,
        ),
{
}

/// An inspection names the artifact, its identity, its provenance, and the
/// header's numbers.
pub proof fn reports_name_their_artifact(
    path: Seq<char>,
    identity: Seq<char>,
    provenance: Seq<char>,
    header: ArtifactHeader,
)
    ensures
        report_text(path, identity, provenance, header) == "artifact: "@ + path + "\nidentity: "@
            + identity + "\nprovenance: "@ + provenance + "\nversion: "@ + decimal(
            header.version as nat,
        ) + "\nsections: "@ + decimal(header.section_count as nat) + "\nbytes: "@ + decimal(
            header.artifact_bytes as nat,
        ),
{
}

/// The fixture is one copy of four values, with its provenance.
pub proof fn the_fixture_is_one_copy()
    ensures
        fixture_operations() == seq![
            0u8,
            0,
            0,
            0,
            0,
            0,
            0x80,
            0x3f,
            4,
            0,
            0,
            0,
            4,
            0,
            0,
            0,
        ],
        fixture_provenance() == encode_utf8(
            "{\"compiler\":\"native-machine\",\"layout\":\"bootstrap\",\"profile\":\"scalar\"}"@,
        ),
{
    assert(fixture_operations() =~= seq![0u8, 0, 0, 0, 0, 0, 0x80, 0x3f, 4, 0, 0, 0, 4, 0, 0, 0]);
}

/// The totals of a trace add up its entries.
pub proof fn totals_add_up(entries: Seq<TraceEntry>, entry: TraceEntry)
    ensures
        total_read(Seq::empty()) == 0,
        total_written(Seq::empty()) == 0,
        total_read(entries.push(entry)) == total_read(entries) + entry.bytes_read,
        total_written(entries.push(entry)) == total_written(entries) + entry.bytes_written,
{
    assert(entries.push(entry).drop_last() =~= entries);
}

/// Running records on an input keeps the input. Where they do not compile, or
/// the plan is not admitted, the run is refused and the output stays; where the
/// run succeeds, every record fits, the output is what the records make of the
/// input one after the other, and the trace is that of the plan.
pub proof fn runs_are_their_records<D: PluginDispatch, A: Fn(u32, u32) -> u32>(
    plugins: D,
    sum: A,
    records: Seq<u8>,
    input: Seq<u32>,
    scratch: Seq<u32>,
    output: Seq<u32>,
    arena: SessionArena,
    entries: Seq<TraceEntry>,
    trace: ExecutionTrace,
    result: Result<(), RunError>,
)
    requires
        records_executed(
            plugins,
            sum,
            records,
            input,
            scratch,
            output,
            arena,
            entries,
            trace,
            result,
        ),
        input.len() <= usize::MAX,
        scratch.len() <= usize::MAX,
    ensures
        arena.input_values() == input,
        result is Ok ==> {
            &&& forall|i: int|
                0 <= i < records.len() / 16 ==> #[trigger] record_fits(
                    records,
                    i,
                    values_reaching(records, input.len() as int, i),
                )
            &&& forall|i: int|
                0 <= i <= records.len() / 16 ==> #[trigger] values_reaching(
                    records,
                    input.len() as int,
                    i,
                ) <= 4096 && values_reaching(records, input.len() as int, i) <= scratch.len()
            &&& records.len() > 0 ==> steps_ran(
                plugins,
                sum,
                steps_of(records),
                input,
                arena.output_values(),
            )
            &&& records.len() == 0 ==> arena.output_values() == output
        },
        records.len() % 16 != 0 ==> result is Err && arena.output_values() == output,
        compilation(records, input.len() as int) matches Err(error) ==> result == Err::<(), _>(
            RunError::Execute(error),
        ) && arena.output_values() == output && trace.recorded() == entries,
        (exists|i: int|
            0 <= i <= records.len() / 16 && (#[trigger] values_reaching(
                records,
                input.len() as int,
                i,
            ) > 4096 || values_reaching(records, input.len() as int, i) > scratch.len()))
            && compilation(records, input.len() as int) is Ok ==> result is Err
            && arena.output_values() == output && trace.recorded().len() == 0,
{
    let length = input.len() as int;
    fitting_records_compile(records, length);
    match compilation(records, length) {
        Ok(model) => {
            assert(values_reaching(records, length, 0) == length);
            let peak = choose|i: int|
                0 <= i <= records.len() / 16 && #[trigger] values_reaching(records, length, i)
                    == model.peak_length;
            assert(values_reaching(records, length, peak) == model.peak_length);
            if admission_fault(model, input.len(), scratch.len()) is None {
                assert(model.peak_length <= 4096 && model.peak_length <= scratch.len());
            }
        },
        Err(_) => {},
    }
}

/// An artifact shows the address of its provenance section (kind 2), or "none"
/// where it has no such section.
pub proof fn shown_provenance_is_that_of_the_section(artifact: Artifact, shown: Seq<char>)
    requires
        in_order(artifact.content()),
        artifact.header == header_of(artifact.content()),
    ensures
        shown_provenance(artifact, shown) ==> {
            ||| shown == "none"@ && forall|i: int|
                0 <= i < declared_sections(artifact.content()) ==> #[trigger] entry_kind(
                    artifact.content(),
                    i,
                ) != 2
            ||| exists|i: int|
                0 <= i < declared_sections(artifact.content()) && #[trigger] entry_kind(
                    artifact.content(),
                    i,
                ) == 2 && json_address(payload(artifact.content(), artifact.header, i)) == Ok::<
                    _,
                    Seq<char>,
                >(shown)
        },
{
    sections_are_found_by_kind(artifact.content(), 2);
    if shown_provenance(artifact, shown) && !lookup_finds_none(
        artifact.content(),
        artifact.header,
        2,
    ) {
        let at = choose|i: int| #[trigger]
            lookup_finds(artifact.content(), artifact.header, 2, i) && json_address(
                payload(artifact.content(), artifact.header, i),
            ) == Ok::<_, Seq<char>>(shown);
        assert(entry_kind(artifact.content(), at) == 2);
    }
}

/// What an event does to the counter of its thread: a measurement begins from
/// zero, an allocation counts one while a measurement runs and up to the largest
/// count, freeing counts nothing, and a measurement that ends keeps its count.
pub proof fn events_move_the_counter(counter: AllocationCounter)
    ensures
        counter.after(AllocationEvent::Begun).tracking,
        counter.after(AllocationEvent::Begun).allocations == 0,
        counter.after(AllocationEvent::Freed) == counter,
        counter.after(AllocationEvent::Allocated).tracking == counter.tracking,
        counter.tracking && counter.allocations < usize::MAX ==> counter.after(
            AllocationEvent::Allocated,
        ).allocations == counter.allocations + 1,
        !counter.tracking || counter.allocations == usize::MAX ==> counter.after(
            AllocationEvent::Allocated,
        ) == counter,
        !counter.after(AllocationEvent::Ended).tracking,
        counter.after(AllocationEvent::Ended).allocations == counter.allocations,
{
}

/// The allocations of a thread are those of the events that are allocations on
/// it.
pub proof fn allocations_are_counted_per_thread(
    events: Seq<(int, AllocationEvent)>,
    thread: int,
)
    ensures
        allocations_on(events, thread) == events.filter(
            |event: (int, AllocationEvent)| event.0 == thread && event.1 is Allocated,
        ).len(),
    decreases events.len(),
{
    reveal(Seq::filter);
    if events.len() > 0 {
        allocations_are_counted_per_thread(events.drop_last(), thread);
        assert((events.last() == (thread, AllocationEvent::Allocated)) == (events.last().0 == thread
            && events.last().1 is Allocated));
    }
}

/// Whether a plan becomes an artifact, and why not: the length must be declared,
/// every operation must fit, the records must compile, the plan must have an
/// address, and the artifact must be small enough to hold. Nothing else keeps a
/// plan from its artifact.
pub proof fn plans_become_artifacts(
    name: Seq<char>,
    kernels: Seq<(Seq<char>, u16)>,
    model: IrModel,
    result: Result<Vec<u8>, CreatePlanError>,
)
    requires
        plan_created(name, kernels, model, result),
        model.input_length matches Some(length) ==> 0 <= length <= usize::MAX,
    ensures
        match result {
            Ok(_) => model.input_length is Some,
            Err(CreatePlanError::InputLength) => model.input_length is None,
            Err(CreatePlanError::Lower(error)) => {
                &&& model.input_length is Some
                &&& exists|i: int, fault: LowerFault|
                    0 <= i < model.ops.len() && lower_error(error, fault)
                        && #[trigger] lowering_stops(
                        kernels,
                        model.ops,
                        model.input_length->Some_0,
                        i,
                        fault,
                    )
            },
            Err(CreatePlanError::Compile(error)) => {
                &&& model.input_length is Some
                &&& error == ExecuteError::PlanSegments
                &&& model.ops.len() > 16
            },
            Err(CreatePlanError::Identity(error)) => {
                &&& model.input_length is Some
                &&& error matches ExecuteError::Identity(text) && exists|plan: PlanModel|
                    compilation(
                        records_of(
                            kernels,
                            model.ops,
                            model.input_length->Some_0,
                            model.ops.len() as int,
                        ),
                        model.input_length->Some_0,
                    ) == Ok::<_, ExecuteError>(plan) && canonical_json(
                        encode_utf8(#[trigger] plan_text(plan.segments)),
                    ) is None && text@ == "InvalidJson"@
            },
            Err(CreatePlanError::Artifact(error)) => {
                &&& model.input_length is Some
                &&& error == ArtifactError::Overflow
                &&& exists|address: Seq<char>|
                    96 + 16 * model.ops.len() + (#[trigger] encode_utf8(
                        provenance_text(name, address),
                    )).len() > usize::MAX
            },
            Err(CreatePlanError::Parse(_)) => false,
        },
{
    if model.input_length is Some {
        let length = model.input_length->Some_0;
        let count = model.ops.len() as int;
        lowering_keeps_every_operation(kernels, model.ops, length);
        match lowering(kernels, model.ops, length) {
            Err(fault) => {
                let at = choose|i: int|
                    0 <= i < model.ops.len() && #[trigger] lowering_stops(
                        kernels,
                        model.ops,
                        length,
                        i,
                        fault,
                    );
                assert(lowering_stops(kernels, model.ops, length, at, fault));
            },
            Ok(_) => {
                let records = records_of(kernels, model.ops, length, count);
                records_hold_every_operation(kernels, model.ops, length, count);
                lowered_plans_compile(kernels, model.ops, length);
                fitting_records_compile(records, length);
                match compilation(records, length) {
                    Err(error) => {
                        let at = choose|i: int|
                            0 <= i < records.len() / 16 && #[trigger] compilation_stops(
                                records,
                                length,
                                i,
                                error,
                            );
                        compiled_fronts_are_short(records, length, at);
                    },
                    Ok(plan) => {
                        assert(plan_document(plan.segments) == encode_utf8(
                            plan_text(plan.segments),
                        ));
                        if json_address(plan_document(plan.segments)) is Ok {
                            let label = json_address(plan_document(plan.segments))->Ok_0;
                            assert(encode_utf8(provenance_text(name, label)).len() >= 0);
                        }
                    },
                }
            },
        }
    }
}

/// A run that is not refused fails only where a kernel does: if the records
/// compile and the plan is admitted, an error is the message of a call that a
/// segment made on what the segments before it left.
pub proof fn admitted_runs_fail_with_their_kernels<D: PluginDispatch, A: Fn(u32, u32) -> u32>(
    plugins: D,
    sum: A,
    records: Seq<u8>,
    input: Seq<u32>,
    scratch: Seq<u32>,
    output: Seq<u32>,
    arena: SessionArena,
    entries: Seq<TraceEntry>,
    trace: ExecutionTrace,
    result: Result<(), RunError>,
)
    requires
        records_executed(
            plugins,
            sum,
            records,
            input,
            scratch,
            output,
            arena,
            entries,
            trace,
            result,
        ),
        input.len() <= usize::MAX,
        scratch.len() <= usize::MAX,
        compilation(records, input.len() as int) is Ok,
        forall|i: int|
            0 <= i <= records.len() / 16 ==> #[trigger] values_reaching(
                records,
                input.len() as int,
                i,
            ) <= 4096 && values_reaching(records, input.len() as int, i) <= scratch.len(),
    ensures
        result matches Err(error) ==> {
            &&& error matches RunError::Execute(ExecuteError::Plugin(message)) && segments_failed(
                plugins,
                sum,
                compilation(records, input.len() as int)->Ok_0.segments,
                input,
                message,
            )
            &&& trace.recorded().len() == 0
        },
        result is Ok ==> trace.recorded() == trace_of(
            compilation(records, input.len() as int)->Ok_0,
        ),
{
    let length = input.len() as int;
    let model = compilation(records, length)->Ok_0;
    fitting_records_compile(records, length);
    assert(values_reaching(records, length, 0) == length);
    let peak = choose|i: int|
        0 <= i <= records.len() / 16 && #[trigger] values_reaching(records, length, i)
            == model.peak_length;
    assert(values_reaching(records, length, peak) == model.peak_length);
    plans_are_admitted_by_length(model, input.len(), scratch.len());
    match result {
        Err(RunError::Execute(ExecuteError::Plugin(message))) => {
            stops_are_failures(
                plugins,
                sum,
                model.segments,
                input,
                message,
                arena.output_values(),
                scratch,
            );
        },
        _ => {},
    }
}

} // verus!
