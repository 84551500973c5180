//! Whole sessions: a plan source to an artifact, and an artifact and an input
//! to an output.
use crate::arena::{SessionArena, MAX_VALUES};
use crate::artifact::{
    header_of, lookup_finds, lookup_finds_none, payload, section_kinds_are_unique, shows_record,
    valid,
};
use crate::artifact::{Artifact, ArtifactError};
use crate::bytes::get_u32;
use crate::bytes::u32_at;
use crate::digest::json_address;
use crate::executor::{admission_fault, segments_follow_records, segments_stopped, trace_of};
use crate::executor::{execute_compiled_plan_traced, ExecutionTrace, TraceEntry};
use crate::fusion::{fusion_preserves_meaning, steps_ran};
use crate::identity::plan_document;
use crate::ir::{lines_read, reader_is_total, reading_stops, IrModel, IrOpModel};
use crate::ir::{IrError, IrPlan};
use crate::lowering::{lower_error, lowered_plans_compile, lowering, records_of};
use crate::ops::total;
use crate::ops::{ExecuteError, PluginDispatch, OPERATION_SECTION};
use crate::plan::{compilation, steps_of};
use crate::plan::{compile_plan, CompiledPlan};
use crate::plugin::PluginRegistry;
use crate::publish::create_artifact;
use crate::publish::{artifact_image, created_artifacts_read_back};
use crate::source::lines_of;
use vstd::prelude::*;
use vstd::string::StringExecFns;
use vstd::utf8::encode_utf8;

verus! {

/// Why an input file cannot be used.
#[derive(Debug, PartialEq, Eq, Structural)]
pub enum InputError {
    /// The length is no multiple of four bytes.
    Length,
    /// The values exceed the fixed session arena.
    Capacity,
}

/// The singles that a file of little-endian values holds.
pub open spec fn input_values(bytes: Seq<u8>) -> Seq<u32> {
    Seq::new(bytes.len() / 4, |i: int| u32_at(bytes, 4 * i))
}

/// What is wrong with an input file, if anything.
pub open spec fn input_fault(length: nat) -> Option<InputError> {
    if length % 4 != 0 {
        Some(InputError::Length)
    } else if length / 4 > MAX_VALUES {
        Some(InputError::Capacity)
    } else {
        None
    }
}

/// Reads a file of little-endian singles, bounded by the session arena.
pub fn decode_input(bytes: &[u8]) -> (result: Result<Vec<u32>, InputError>)
    ensures
        match input_fault(bytes@.len()) {
            Some(error) => result == Err::<Vec<u32>, _>(error),
            None => result matches Ok(values) && values@ == input_values(bytes@),
        },
{
    if bytes.len() % 4 != 0 {
        return Err(InputError::Length);
    }
    let count: usize = bytes.len() / 4;
    if count > MAX_VALUES {
        return Err(InputError::Capacity);
    }
    let mut values: Vec<u32> = Vec::new();
    let mut index: usize = 0;
    while index < count
        invariant
            index <= count <= MAX_VALUES,
            bytes@.len() == 4 * count,
            values@ == input_values(bytes@).take(index as int),
        decreases count - index,
    {
        values.push(get_u32(bytes, 4 * index));
        index += 1;
        assert(values@ =~= input_values(bytes@).take(index as int));
    }
    assert(input_values(bytes@).take(index as int) =~= input_values(bytes@));
    Ok(values)
}

/// The provenance of a compiled plan.
pub open spec fn provenance_text(source: Seq<char>, plan: Seq<char>) -> Seq<char> {
    "{\"compiler\":\"native-machine\",\"source\":\""@ + source + "\",\"plan\":\""@ + plan + "\"}"@
}

/// The provenance of a compiled plan.
pub fn plan_provenance(source: &str, plan: &str) -> (text: String)
    ensures
        text@ == provenance_text(source@, plan@),
{
    let mut text = String::from_str("{\"compiler\":\"native-machine\",\"source\":\"");
    text.append(source);
    text.append("\",\"plan\":\"");
    text.append(plan);
    text.append("\"}");
    text
}

/// Why a plan source does not become an artifact.
#[derive(Debug, PartialEq, Eq)]
pub enum CreatePlanError {
    /// The source cannot be read.
    Parse(IrError),
    /// The source does not declare its input length.
    InputLength,
    /// The plan cannot be lowered.
    Lower(IrError),
    /// The records do not compile.
    Compile(ExecuteError),
    /// The plan has no identity.
    Identity(ExecuteError),
    /// The artifact cannot be built.
    Artifact(ArtifactError),
}

/// What becomes of a plan that was read.
pub open spec fn plan_created(
    name: Seq<char>,
    kernels: Seq<(Seq<char>, u16)>,
    model: IrModel,
    result: Result<Vec<u8>, CreatePlanError>,
) -> bool {
    match model.input_length {
        None => result == Err::<Vec<u8>, _>(CreatePlanError::InputLength),
        Some(length) => match lowering(kernels, model.ops, length) {
            Err(fault) => result matches Err(CreatePlanError::Lower(error)) && lower_error(
                error,
                fault,
            ),
            Ok(_) => {
                let records = records_of(kernels, model.ops, length, model.ops.len() as int);
                match compilation(records, length) {
                    Err(error) => result is Err && result->Err_0 == CreatePlanError::Compile(error),
                    Ok(plan) => match json_address(plan_document(plan.segments)) {
                        Err(failure) => result matches Err(
                            CreatePlanError::Identity(ExecuteError::Identity(text)),
                        ) && text@ == failure,
                        Ok(label) => {
                            let provenance = encode_utf8(provenance_text(name, label));
                            if 96 + records.len() + provenance.len() > usize::MAX {
                                result == Err::<Vec<u8>, _>(
                                    CreatePlanError::Artifact(ArtifactError::Overflow),
                                )
                            } else {
                                result matches Ok(bytes) && bytes@ == artifact_image(
                                    records,
                                    provenance,
                                )
                            }
                        },
                    },
                }
            },
        },
    }
}

/// Compiles a plan source into an artifact. The records are compiled once here
/// so that malformed plans never reach an artifact.
pub fn create_plan<P, N: Fn(String) -> Option<u32>>(
    name: &str,
    source: &str,
    registry: &PluginRegistry<P>,
    single: &N,
) -> (result: Result<Vec<u8>, CreatePlanError>)
    requires
        reader_is_total(*single),
    ensures
        (result matches Err(CreatePlanError::Parse(IrError::Parse { line, message }))
            && reading_stops(*single, lines_of(source@), line - 1, message@)) || exists|
            model: IrModel,
        | #[trigger]
            lines_read(*single, lines_of(source@), model) && plan_created(
                name@,
                registry.kernels(),
                model,
                result,
            ),
{
    let plan: IrPlan = match IrPlan::parse(source, single) {
        Ok(plan) => plan,
        Err(error) => return Err(CreatePlanError::Parse(error)),
    };
    let result = create_parsed_plan(name, &plan, registry);
    assert(lines_read(*single, lines_of(source@), plan.model()));
    result
}

/// Compiles a plan into an artifact.
pub fn create_parsed_plan<P>(
    name: &str,
    ir: &IrPlan,
    registry: &PluginRegistry<P>,
) -> (result: Result<Vec<u8>, CreatePlanError>)
    ensures
        plan_created(name@, registry.kernels(), ir.model(), result),
{
    let length: usize = match ir.input_length() {
        Some(length) => length,
        None => return Err(CreatePlanError::InputLength),
    };
    let records: Vec<u8> = match ir.lower(registry, length) {
        Ok(records) => records,
        Err(error) => return Err(CreatePlanError::Lower(error)),
    };
    let plan: CompiledPlan = match compile_plan(records.as_slice(), length) {
        Ok(plan) => plan,
        Err(error) => return Err(CreatePlanError::Compile(error)),
    };
    let label: String = match plan.identity() {
        Ok(label) => label,
        Err(error) => return Err(CreatePlanError::Identity(error)),
    };
    publish_plan(name, label.as_str(), records.as_slice())
}

/// Builds the artifact of a compiled plan with this identity.
pub fn publish_plan(name: &str, label: &str, records: &[u8]) -> (result: Result<
    Vec<u8>,
    CreatePlanError,
>)
    ensures
        ({
            let provenance = encode_utf8(provenance_text(name@, label@));
            if 96 + records@.len() + provenance.len() > usize::MAX {
                result == Err::<Vec<u8>, _>(CreatePlanError::Artifact(ArtifactError::Overflow))
            } else if records@.len() % 16 != 0 {
                result == Err::<Vec<u8>, _>(
                    CreatePlanError::Artifact(
                        ArtifactError::OperationAlignment { index: 0, bytes: 16 },
                    ),
                )
            } else {
                result matches Ok(bytes) && bytes@ == artifact_image(records@, provenance)
            }
        }),
{
    let text = plan_provenance(name, label);
    let provenance: &[u8] = text.as_str().as_bytes();
    let room: usize = usize::MAX - 96;
    if records.len() > room || provenance.len() > room - records.len() {
        return Err(CreatePlanError::Artifact(ArtifactError::Overflow));
    }
    match create_artifact(records, provenance) {
        Ok(bytes) => Ok(bytes),
        Err(error) => Err(CreatePlanError::Artifact(error)),
    }
}

/// Why an artifact does not run on an input.
#[derive(Debug, PartialEq, Eq)]
pub enum RunError {
    /// The section table cannot be read.
    Artifact(ArtifactError),
    /// The artifact has no operation section.
    OperationSection,
    /// The input file cannot be used.
    Input(InputError),
    /// The records do not compile, or the plan does not run.
    Execute(ExecuteError),
}

/// What becomes of running records on an input, with `scratch` afterwards. A
/// refusal leaves the output as it was; the trace has entries after a success only.
pub open spec fn records_executed<D: PluginDispatch, A: Fn(u32, u32) -> u32>(
    plugins: D,
    sum: A,
    records: Seq<u8>,
    input: Seq<u32>,
    scratch: Seq<u32>,
    output: Seq<u32>,
    arena: SessionArena,
    recorded: Seq<TraceEntry>,
    trace: ExecutionTrace,
    result: Result<(), RunError>,
) -> bool {
    &&& arena.input_values() == input
    &&& match compilation(records, input.len() as int) {
        Err(error) => {
            &&& result is Err && result->Err_0 == RunError::Execute(error)
            &&& arena.output_values() == output
            &&& trace.recorded() == recorded
        },
        Ok(model) => {
            &&& trace.recorded() == (if result is Ok {
                trace_of(model)
            } else {
                Seq::empty()
            })
            &&& match admission_fault(model, input.len(), scratch.len()) {
                Some(error) => {
                    &&& result is Err && result->Err_0 == RunError::Execute(error)
                    &&& arena.output_values() == output
                },
                None => match result {
                    Ok(_) => if records.len() == 0 {
                        arena.output_values() == output
                    } else {
                        steps_ran(plugins, sum, steps_of(records), input, arena.output_values())
                    },
                    Err(RunError::Execute(ExecuteError::Plugin(message))) => segments_stopped(
                        plugins,
                        sum,
                        model.segments,
                        input,
                        message,
                        arena.output_values(),
                        scratch,
                    ),
                    Err(_) => false,
                },
            }
        },
    }
}

/// Runs the operation section of an artifact on the values of an input file.
/// The section is compiled once and its records chain.
pub fn run_artifact<D: PluginDispatch, A: Fn(u32, u32) -> u32>(
    artifact: &Artifact,
    input: &[u8],
    arena: &mut SessionArena,
    scratch: &mut [u32],
    plugins: &D,
    sum: &A,
    trace: &mut ExecutionTrace,
) -> (result: Result<(), RunError>)
    requires
        total(*sum),
        artifact.well_formed(),
        old(arena).well_formed(),
        old(trace).well_formed(),
    ensures
        final(arena).well_formed(),
        final(trace).well_formed(),
        final(scratch)@.len() == old(scratch)@.len(),
        ({
            let content = artifact.content();
            let header = artifact.header;
            if lookup_finds_none(content, header, OPERATION_SECTION) {
                &&& result == Err::<(), _>(RunError::OperationSection)
                &&& *final(arena) == *old(arena)
                &&& *final(trace) == *old(trace)
            } else {
                match input_fault(input@.len()) {
                    Some(error) => {
                        &&& result == Err::<(), _>(RunError::Input(error))
                        &&& *final(arena) == *old(arena)
                        &&& *final(trace) == *old(trace)
                    },
                    None => exists|i: int| #[trigger]
                        lookup_finds(content, header, OPERATION_SECTION, i) && records_executed(
                            *plugins,
                            *sum,
                            payload(content, header, i),
                            input_values(input@),
                            final(scratch)@,
                            old(arena).output_values(),
                            *final(arena),
                            old(trace).recorded(),
                            *final(trace),
                            result,
                        ),
                }
            }
        }),
{
    let section = match artifact.section(OPERATION_SECTION) {
        Ok(Some(section)) => section,
        Ok(None) => return Err(RunError::OperationSection),
        Err(error) => return Err(RunError::Artifact(error)),
    };
    let ghost place = choose|i: int| #[trigger]
        lookup_finds(artifact.content(), artifact.header, OPERATION_SECTION, i)
            && shows_record(section, artifact.content(), artifact.header, i);
    assert(lookup_finds(artifact.content(), artifact.header, OPERATION_SECTION, place));
    let values: Vec<u32> = match decode_input(input) {
        Ok(values) => values,
        Err(error) => return Err(RunError::Input(error)),
    };
    match arena.load_input(values.as_slice()) {
        Ok(()) => {},
        Err(_) => return Err(RunError::Input(InputError::Capacity)),
    }
    let plan: CompiledPlan = match compile_plan(section.bytes, values.len()) {
        Ok(plan) => plan,
        Err(error) => return Err(RunError::Execute(error)),
    };
    let ghost records = section.bytes@;
    match execute_compiled_plan_traced(arena, &plan, scratch, plugins, sum, trace) {
        Ok(()) => {
            proof {
                fusion_preserves_meaning(
                    *plugins,
                    *sum,
                    records,
                    values@.len() as int,
                    values@,
                    arena.output_values(),
                );
                segments_follow_records(
                    records,
                    values@.len() as int,
                    records.len() as int / 16,
                );
            }
            Ok(())
        },
        Err(error) => Err(RunError::Execute(error)),
    }
}

/// What a run finds in a created artifact is the plan that the source stated:
/// the artifact is valid, every lookup of its operations finds the records of
/// the lowered plan, and these decode to the plan's steps.
pub proof fn artifacts_carry_their_plan(
    kernels: Seq<(Seq<char>, u16)>,
    ops: Seq<IrOpModel>,
    input_length: int,
    provenance: Seq<u8>,
    index: int,
)
    requires
        0 <= input_length <= usize::MAX,
        lowering(kernels, ops, input_length) is Ok,
        96 + records_of(kernels, ops, input_length, ops.len() as int).len() + provenance.len()
            <= u64::MAX,
    ensures
        ({
            let image = artifact_image(
                records_of(kernels, ops, input_length, ops.len() as int),
                provenance,
            );
            let header = header_of(image);
            &&& valid(image)
            &&& lookup_finds(image, header, OPERATION_SECTION, 0)
            &&& lookup_finds(image, header, OPERATION_SECTION, index) ==> steps_of(
                payload(image, header, index),
            ) == lowering(kernels, ops, input_length)->Ok_0.steps
        }),
{
    let records = records_of(kernels, ops, input_length, ops.len() as int);
    let image = artifact_image(records, provenance);
    lowered_plans_compile(kernels, ops, input_length);
    created_artifacts_read_back(records, provenance);
    if lookup_finds(image, header_of(image), OPERATION_SECTION, index) {
        section_kinds_are_unique(image, 0, index);
    }
}

} // verus!
