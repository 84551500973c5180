//! Dispatch of plan records to admitted kernels.
//!
//! The program calls into kernels; what stands between a record and such a
//! call is here. A record that names no admitted kernel, a kernel of another
//! operation kind or buffers of other lengths is answered without a call.
use crate::fusion::dispatch_is_functional;
use crate::kernels::abi::{OPERATION_ELEMENTWISE, OPERATION_MATMUL, OPERATION_MATMUL_ACT};
use crate::ops::{dispatch_returned, failure};
use crate::ops::{KernelCall, PluginDispatch};
use crate::plugin::kind_fault;
use crate::plugin::{judge_rounds, KernelHandle, PluginError, PluginRegistry};
use crate::text::{decimal, hexadecimal_number, signed_decimal};
use crate::text::{push_decimal, push_hexadecimal, push_signed};
use vstd::prelude::*;
use vstd::string::StringExecFns;

verus! {

/// The text that reports an error.
pub open spec fn error_text(error: PluginError) -> Seq<char> {
    match error {
        PluginError::TooLarge => "plugin exceeds configured size limit"@,
        PluginError::NullDescriptor => "plugin returned a null descriptor"@,
        PluginError::Abi(version) => "unsupported plugin ABI "@ + decimal(version as nat),
        PluginError::NullName => "plugin name is null"@,
        PluginError::NameEncoding => "plugin name is not valid UTF-8"@,
        PluginError::BufferType => "plugin descriptor declares unsupported buffer types"@,
        PluginError::Operation(operation) => "plugin descriptor declares unsupported operation "@
            + decimal(operation as nat),
        PluginError::Alignment(alignment) => "plugin descriptor declares invalid alignment "@
            + decimal(alignment as nat),
        PluginError::CpuFeatures(features) => "plugin requires unsupported CPU features: 0x"@
            + hexadecimal_number(features as nat),
        PluginError::ScratchBytes(bytes) => "plugin declares unsupported scratch memory: "@
            + decimal(bytes as nat) + " bytes"@,
        PluginError::KernelStatus(status) => "plugin kernel failed with status "@ + signed_decimal(
            status as int,
        ),
        PluginError::LengthOverflow => "plugin length does not fit the ABI"@,
        PluginError::BufferLength => "plugin input and output lengths differ"@,
        PluginError::KernelKind { expected, actual } => "plugin kernel has operation kind "@
            + decimal(actual as nat) + ", the dispatch needs "@ + decimal(expected as nat),
        PluginError::ManifestMissing(path) => "plugin manifest is missing for "@ + path@,
        PluginError::HashMismatch(path) => "plugin hash does not match its manifest: "@ + path@,
        PluginError::NotFound(name) => "admitted plugin is not registered: "@ + name@,
        PluginError::Dispatch(message) => message@,
    }
}

impl PluginError {
    /// The text that reports the error.
    pub fn message(&self) -> (text: String)
        ensures
            text@ == error_text(*self),
    {
        match self {
            PluginError::TooLarge => String::from_str("plugin exceeds configured size limit"),
            PluginError::NullDescriptor => String::from_str("plugin returned a null descriptor"),
            PluginError::Abi(version) => {
                let mut text = String::from_str("unsupported plugin ABI ");
                push_decimal(&mut text, *version as u64);
                text
            },
            PluginError::NullName => String::from_str("plugin name is null"),
            PluginError::NameEncoding => String::from_str("plugin name is not valid UTF-8"),
            PluginError::BufferType => String::from_str(
                "plugin descriptor declares unsupported buffer types",
            ),
            PluginError::Operation(operation) => {
                let mut text = String::from_str(
                    "plugin descriptor declares unsupported operation ",
                );
                push_decimal(&mut text, *operation as u64);
                text
            },
            PluginError::Alignment(alignment) => {
                let mut text = String::from_str("plugin descriptor declares invalid alignment ");
                push_decimal(&mut text, *alignment as u64);
                text
            },
            PluginError::CpuFeatures(features) => {
                let mut text = String::from_str("plugin requires unsupported CPU features: 0x");
                push_hexadecimal(&mut text, *features);
                text
            },
            PluginError::ScratchBytes(bytes) => {
                let mut text = String::from_str("plugin declares unsupported scratch memory: ");
                push_decimal(&mut text, *bytes);
                text.append(" bytes");
                text
            },
            PluginError::KernelStatus(status) => {
                let mut text = String::from_str("plugin kernel failed with status ");
                push_signed(&mut text, *status);
                text
            },
            PluginError::LengthOverflow => String::from_str("plugin length does not fit the ABI"),
            PluginError::BufferLength => String::from_str(
                "plugin input and output lengths differ",
            ),
            PluginError::KernelKind { expected, actual } => {
                let mut text = String::from_str("plugin kernel has operation kind ");
                push_decimal(&mut text, *actual as u64);
                text.append(", the dispatch needs ");
                push_decimal(&mut text, *expected as u64);
                text
            },
            PluginError::ManifestMissing(path) => {
                let mut text = String::from_str("plugin manifest is missing for ");
                text.append(path.as_str());
                text
            },
            PluginError::HashMismatch(path) => {
                let mut text = String::from_str("plugin hash does not match its manifest: ");
                text.append(path.as_str());
                text
            },
            PluginError::NotFound(name) => {
                let mut text = String::from_str("admitted plugin is not registered: ");
                text.append(name.as_str());
                text
            },
            PluginError::Dispatch(message) => String::from_str(message.as_str()),
        }
    }
}

/// The operation kind that a call needs.
pub open spec fn needed_kind(call: KernelCall) -> u16 {
    match call {
        KernelCall::Elementwise => OPERATION_ELEMENTWISE,
        KernelCall::Matmul { .. } => OPERATION_MATMUL,
        KernelCall::MatmulAct { .. } => OPERATION_MATMUL_ACT,
    }
}

/// The buffers have the lengths that a call takes.
pub open spec fn lengths_fit(call: KernelCall, input: nat, output: nat) -> bool {
    match call {
        KernelCall::Elementwise => input == output,
        KernelCall::Matmul { m, k, n } => input == m * k + k * n && output == m * n,
        KernelCall::MatmulAct { m, k, n, .. } => input == m * k + k * n && output == m * n,
    }
}

/// The failure reports the error of the result, and only an error.
pub open spec fn reports(result: Result<(), PluginError>, failure: Option<String>) -> bool {
    match (result, failure) {
        (Ok(_), None) => true,
        (Err(error), Some(text)) => text@ == error_text(error),
        _ => false,
    }
}

/// The admitted kernels together with the program's way to call them.
pub struct AdmittedKernels<'a, P, D: PluginDispatch> {
    pub registry: &'a PluginRegistry<P>,
    pub kernels: &'a D,
}

impl<'a, P, D: PluginDispatch> PluginDispatch for AdmittedKernels<'a, P, D> {
    open spec fn dispatched(
        &self,
        index: usize,
        call: KernelCall,
        input: Seq<u32>,
        before: Seq<u32>,
        after: Seq<u32>,
        failure: Option<String>,
    ) -> bool {
        exists|result: Result<(), PluginError>| #[trigger]
            reports(result, failure) && self.registry.dispatch_outcome(
                index as int,
                needed_kind(call),
                lengths_fit(call, input.len(), before.len()),
                *self.kernels,
                call,
                input,
                before,
                after,
                result,
            )
    }

    fn run_index(&self, index: usize, input: &[u32], output: &mut [u32]) -> (result: Result<
        (),
        String,
    >) {
        let outcome = self.registry.run_index(index, input, output, self.kernels);
        let result = told(&outcome);
        assert(reports(outcome, failure(result)));
        result
    }

    fn run_matmul_index(
        &self,
        index: usize,
        m: u32,
        k: u32,
        n: u32,
        input: &[u32],
        output: &mut [u32],
    ) -> (result: Result<(), String>) {
        let handle = KernelHandle { index };
        let outcome = self.registry.run_matmul_resolved(
            handle,
            input,
            output,
            m,
            k,
            n,
            self.kernels,
        );
        let result = told(&outcome);
        assert(reports(outcome, failure(result)));
        result
    }

    fn run_matmul_act_index(
        &self,
        index: usize,
        m: u32,
        k: u32,
        n: u32,
        activation: u32,
        input: &[u32],
        output: &mut [u32],
    ) -> (result: Result<(), String>) {
        let handle = KernelHandle { index };
        let outcome = self.registry.run_matmul_act_resolved(
            handle,
            input,
            output,
            m,
            k,
            n,
            activation,
            self.kernels,
        );
        let result = told(&outcome);
        assert(reports(outcome, failure(result)));
        result
    }
}

/// The result with its error told in text.
fn told(outcome: &Result<(), PluginError>) -> (result: Result<(), String>)
    ensures
        reports(*outcome, failure(result)),
{
    match outcome {
        Ok(_) => Ok(()),
        Err(error) => Err(error.message()),
    }
}

/// A record never reaches a kernel that is not admitted or has another
/// operation kind: it is answered with a failure and the output stays.
pub proof fn only_admitted_kernels_run<'a, P, D: PluginDispatch>(
    admitted: AdmittedKernels<'a, P, D>,
    index: usize,
    call: KernelCall,
    input: Seq<u32>,
    before: Seq<u32>,
    after: Seq<u32>,
    failure: Option<String>,
)
    requires
        admitted.dispatched(index, call, input, before, after, failure),
        kind_fault(admitted.registry.kernels(), index as int, needed_kind(call)) is Some,
    ensures
        failure is Some,
        after == before,
{
}

/// Checking a dispatch adds no freedom: where the program's kernels leave one
/// output for each call and input, so do the admitted ones.
pub proof fn admission_keeps_determinism<'a, P, D: PluginDispatch>(
    admitted: AdmittedKernels<'a, P, D>,
)
    requires
        dispatch_is_functional(*admitted.kernels),
    ensures
        dispatch_is_functional(admitted),
{
    assert forall|
        index: usize,
        call: KernelCall,
        input: Seq<u32>,
        first: Seq<u32>,
        second: Seq<u32>,
    |
        #[trigger] dispatch_returned(admitted, index, call, input, first, None)
            && #[trigger] dispatch_returned(admitted, index, call, input, second, None)
            && first.len() == second.len() implies first == second by {
        admitted_success(admitted, index, call, input, first);
        admitted_success(admitted, index, call, input, second);
    }
}

/// A dispatch that succeeds is one that the kernel itself answered.
proof fn admitted_success<'a, P, D: PluginDispatch>(
    admitted: AdmittedKernels<'a, P, D>,
    index: usize,
    call: KernelCall,
    input: Seq<u32>,
    after: Seq<u32>,
)
    requires
        dispatch_returned(admitted, index, call, input, after, None),
    ensures
        dispatch_returned(*admitted.kernels, index, call, input, after, None),
{
    let before = choose|before: Seq<u32>|
        before.len() == after.len() && #[trigger] admitted.dispatched(
            index,
            call,
            input,
            before,
            after,
            None,
        );
    assert(admitted.dispatched(index, call, input, before, after, None));
}

/// What a self-test calls a kernel of an operation kind with, if the kind takes
/// singles.
pub open spec fn probe_call(operation: u16) -> Option<KernelCall> {
    if operation == OPERATION_ELEMENTWISE {
        Some(KernelCall::Elementwise)
    } else if operation == OPERATION_MATMUL {
        Some(KernelCall::Matmul { m: 2, k: 2, n: 2 })
    } else if operation == OPERATION_MATMUL_ACT {
        Some(KernelCall::MatmulAct { m: 2, k: 2, n: 2, activation: 1 })
    } else {
        None
    }
}

/// The singles 1 to 4, which a self-test hands to elementwise kernels.
pub const PROBE_VECTOR: [u32; 4] = [0x3f80_0000, 0x4000_0000, 0x4040_0000, 0x4080_0000];

/// The singles 1 to 8, which a self-test hands to matmul kernels.
pub const PROBE_MATRICES: [u32; 8] = [
    0x3f80_0000,
    0x4000_0000,
    0x4040_0000,
    0x4080_0000,
    0x40a0_0000,
    0x40c0_0000,
    0x40e0_0000,
    0x4100_0000,
];

/// The input that a self-test hands to a call.
pub open spec fn probe_input(call: KernelCall) -> Seq<u32> {
    match call {
        KernelCall::Elementwise => PROBE_VECTOR@,
        _ => PROBE_MATRICES@,
    }
}

/// One call of a self-test; `output` takes what the kernel leaves.
fn probe_once<D: PluginDispatch>(
    kernels: &D,
    index: usize,
    call: KernelCall,
    output: &mut [u32],
) -> (result: Result<(), PluginError>)
    ensures
        final(output)@.len() == old(output)@.len(),
        match result {
            Ok(_) => dispatch_returned(
                *kernels,
                index,
                call,
                probe_input(call),
                final(output)@,
                None,
            ),
            Err(error) => error matches PluginError::Dispatch(message) && dispatch_returned(
                *kernels,
                index,
                call,
                probe_input(call),
                final(output)@,
                Some(message),
            ),
        },
{
    let vector: [u32; 4] = PROBE_VECTOR;
    let matrices: [u32; 8] = PROBE_MATRICES;
    let outcome = match call {
        KernelCall::Elementwise => kernels.run_index(index, &vector, output),
        KernelCall::Matmul { m, k, n } => kernels.run_matmul_index(
            index,
            m,
            k,
            n,
            &matrices,
            output,
        ),
        KernelCall::MatmulAct { m, k, n, activation } => kernels.run_matmul_act_index(
            index,
            m,
            k,
            n,
            activation,
            &matrices,
            output,
        ),
    };
    match outcome {
        Ok(_) => {
            assert(dispatch_returned(*kernels, index, call, probe_input(call), output@, None));
            Ok(())
        },
        Err(message) => {
            assert(dispatch_returned(
                *kernels,
                index,
                call,
                probe_input(call),
                output@,
                Some(message),
            ));
            Err(PluginError::Dispatch(message))
        },
    }
}

/// The bounded self-test of a kernel that takes singles: called `rounds` times
/// on one input, it must succeed and leave the same values, bit by bit. These
/// values are handed out. A refusal rests on what the kernel did: a failed
/// call, or two successful ones that left different values.
pub fn probe_determinism<D: PluginDispatch>(
    kernels: &D,
    index: usize,
    operation: u16,
    rounds: usize,
) -> (result: Result<Vec<u32>, PluginError>)
    requires
        rounds > 0,
    ensures
        match probe_call(operation) {
            None => result == Err::<Vec<u32>, _>(PluginError::Operation(operation)),
            Some(call) => match result {
                Ok(values) => values@.len() == 4 && dispatch_returned(
                    *kernels,
                    index,
                    call,
                    probe_input(call),
                    values@,
                    None,
                ),
                Err(PluginError::Dispatch(message)) => exists|after: Seq<u32>|
                    #[trigger] dispatch_returned(
                        *kernels,
                        index,
                        call,
                        probe_input(call),
                        after,
                        Some(message),
                    ),
                Err(PluginError::KernelStatus(status)) => {
                    &&& status == -1
                    &&& !dispatch_is_functional(*kernels)
                },
                Err(_) => false,
            },
        },
{
    let call: KernelCall = if operation == OPERATION_ELEMENTWISE {
        KernelCall::Elementwise
    } else if operation == OPERATION_MATMUL {
        KernelCall::Matmul { m: 2, k: 2, n: 2 }
    } else if operation == OPERATION_MATMUL_ACT {
        KernelCall::MatmulAct { m: 2, k: 2, n: 2, activation: 1 }
    } else {
        return Err(PluginError::Operation(operation));
    };
    let mut outcomes: Vec<Vec<u32>> = Vec::new();
    let mut round: usize = 0;
    while round < rounds
        invariant
            round <= rounds,
            probe_call(operation) == Some(call),
            outcomes@.len() == round,
            forall|i: int|
                0 <= i < round ==> (#[trigger] outcomes@[i])@.len() == 4 && dispatch_returned(
                    *kernels,
                    index,
                    call,
                    probe_input(call),
                    outcomes@[i]@,
                    None,
                ),
        decreases rounds - round,
    {
        let mut output: [u32; 4] = [0;4];
        match probe_once(kernels, index, call, &mut output) {
            Ok(_) => {},
            Err(error) => return Err(error),
        }
        outcomes.push(collected(&output));
        round += 1;
    }
    match judge_rounds(outcomes.as_slice()) {
        Ok(_) => {},
        Err(error) => {
            proof {
                let odd = choose|i: int|
                    0 <= i < outcomes@.len() && (#[trigger] outcomes@[i])@ != outcomes@[0]@;
                assert(outcomes@[odd]@ != outcomes@[0]@);
                assert(outcomes@[odd]@.len() == outcomes@[0]@.len());
            }
            return Err(error);
        },
    }
    Ok(collected(outcomes[0].as_slice()))
}

/// The values, in a vector of their own.
fn collected(values: &[u32]) -> (result: Vec<u32>)
    ensures
        result@ == values@,
{
    let mut result: Vec<u32> = Vec::new();
    let mut index: usize = 0;
    while index < values.len()
        invariant
            index <= values@.len(),
            result@ == values@.take(index as int),
        decreases values@.len() - index,
    {
        result.push(values[index]);
        index += 1;
        assert(result@ =~= values@.take(index as int));
    }
    assert(values@.take(index as int) =~= values@);
    result
}

} // verus!
