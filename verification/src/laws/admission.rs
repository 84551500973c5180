//! Which kernels are admitted, in which order they are listed, and what reaches
//! them.
use crate::cpu::{supported_bit_by_bit, CpuFeatures};
use crate::dispatch::{
    error_text, lengths_fit, needed_kind, probe_call, probe_input, reports, AdmittedKernels,
    PROBE_MATRICES, PROBE_VECTOR,
};
use crate::kernels::abi::{
    descriptor, KernelPlugin, ABI_VERSION, OPERATION_ELEMENTWISE, OPERATION_MATMUL,
    OPERATION_MATMUL_ACT, OPERATION_XOR_SHIFT_ADD,
};
use crate::laws::lowering::first_registered;
use crate::laws::running::{call_failed, called};
use crate::ops::{dispatch_returned, failure, KernelCall, PluginDispatch};
use crate::plugin::{
    buffer_type, descriptor_fault, describes, first_named, first_named_is_first, installed,
    name_not_after, not_after, rounds_agree, PluginError, PluginManifest,
    PluginRegistry, MANIFEST_FORMAT,
};
use crate::text::{decimal, hexadecimal, hexadecimal_number, signed_decimal};
use vstd::arithmetic::power2::is_pow2;
use vstd::prelude::*;
use vstd::utf8::encode_utf8;

verus! {

/// The operation kind is one that is supported, and the buffers are of the type
/// that it takes: singles (1) for elementwise kernels (1), matrix products (2)
/// and fused ones (4), and 64-bit words (2) for the xor-shift-add (3).
pub open spec fn supported_kind(operation: u16, input_type: u16, output_type: u16) -> bool {
    ||| (operation == 1 || operation == 2 || operation == 4) && input_type == 1 && output_type == 1
    ||| operation == 3 && input_type == 2 && output_type == 2
}

/// The host has every feature that the mask asks for: bit 0 is AVX2, bit 1 NEON
/// and bit 2 FMA3, and there is no other.
pub open spec fn host_has(host: CpuFeatures, features: u64) -> bool {
    &&& features & 1 != 0 ==> host.avx2
    &&& features & 2 != 0 ==> host.neon
    &&& features & 4 != 0 ==> host.fma
    &&& features < 8
}

/// Every supported kind of kernel is admitted, and nothing else: a descriptor is
/// without fault exactly when it is of ABI 3, of a supported kind, aligned to a
/// power of two, without scratch, and asks for no feature that the host lacks.
/// A fault is true of the descriptor.
pub proof fn supported_kernels_are_admitted(plugin: KernelPlugin, host: CpuFeatures)
    ensures
        descriptor_fault(plugin, host) is None <==> {
            &&& plugin.abi_version == 3
            &&& supported_kind(plugin.operation, plugin.input_type, plugin.output_type)
            &&& is_pow2(plugin.required_alignment as int)
            &&& plugin.scratch_bytes == 0
            &&& host_has(host, plugin.cpu_features)
        },
        match descriptor_fault(plugin, host) {
            None => true,
            Some(PluginError::Abi(version)) => version == plugin.abi_version && version != 3,
            Some(PluginError::Operation(operation)) => operation == plugin.operation && (operation
                < 1 || operation > 4),
            Some(PluginError::BufferType) => 1 <= plugin.operation <= 4 && !supported_kind(
                plugin.operation,
                plugin.input_type,
                plugin.output_type,
            ),
            Some(PluginError::Alignment(alignment)) => alignment == plugin.required_alignment
                && !is_pow2(alignment as int),
            Some(PluginError::ScratchBytes(bytes)) => bytes == plugin.scratch_bytes && bytes != 0,
            Some(PluginError::CpuFeatures(features)) => features == plugin.cpu_features
                && !host_has(host, features),
            Some(_) => false,
        },
{
    supported_bit_by_bit(host, plugin.cpu_features);
}

/// A buffer type belongs to an operation kind exactly when a kernel of that kind
/// over that type is supported.
pub proof fn kinds_have_their_buffer_type(operation: u16, element: u16)
    ensures
        buffer_type(operation) == Some(element) <==> supported_kind(operation, element, element),
        buffer_type(operation) is Some <==> 1 <= operation <= 4,
{
}

/// What a shipped kernel announces: ABI 3, no flags, no scratch, one type of
/// buffer, and the features that it was built for.
pub open spec fn announces(
    plugin: KernelPlugin,
    element: u16,
    operation: u16,
    alignment: u32,
    avx2_and_fma: bool,
    neon: bool,
) -> bool {
    &&& plugin.abi_version == 3
    &&& plugin.input_type == element
    &&& plugin.output_type == element
    &&& plugin.operation == operation
    &&& plugin.flags == 0
    &&& plugin.required_alignment == alignment
    &&& plugin.scratch_bytes == 0
    &&& plugin.cpu_features == (if avx2_and_fma {
        5u64
    } else {
        0u64
    }) + (if neon {
        2u64
    } else {
        0u64
    })
}

/// A kernel that announces a supported kind, and four or eight bytes of
/// alignment, is admitted on every host with the features that it was built for,
/// and on no other.
pub proof fn announced_kernels_are_admitted(
    plugin: KernelPlugin,
    element: u16,
    operation: u16,
    alignment: u32,
    avx2_and_fma: bool,
    neon: bool,
    host: CpuFeatures,
)
    requires
        announces(plugin, element, operation, alignment, avx2_and_fma, neon),
        supported_kind(operation, element, element),
        alignment == 4 || alignment == 8,
    ensures
        descriptor_fault(plugin, host) is None <==> (avx2_and_fma ==> host.avx2 && host.fma) && (
        neon ==> host.neon),
{
    supported_kernels_are_admitted(plugin, host);
    reveal_with_fuel(is_pow2, 5);
    assert(is_pow2(4) && is_pow2(8));
    assert(0u64 & 1 == 0 && 0u64 & 2 == 0 && 0u64 & 4 == 0 && 5u64 & 1 != 0 && 5u64 & 2 == 0 && 5u64
        & 4 != 0 && 2u64 & 1 == 0 && 2u64 & 2 != 0 && 2u64 & 4 == 0 && 7u64 & 1 != 0 && 7u64 & 2
        != 0 && 7u64 & 4 != 0) by (bit_vector);
}

/// A descriptor announces what it was made of.
pub proof fn descriptors_announce_their_fields(
    element: u16,
    operation: u16,
    alignment: u32,
    avx2_and_fma: bool,
    neon: bool,
)
    ensures
        announces(
            descriptor(
                element,
                operation,
                alignment,
                if avx2_and_fma && neon {
                    7
                } else if avx2_and_fma {
                    5
                } else if neon {
                    2
                } else {
                    0
                },
            ),
            element,
            operation,
            alignment,
            avx2_and_fma,
            neon,
        ),
{
}

/// The numbers of the ABI: its version, its operation kinds, and the version of
/// the manifest format.
pub proof fn numbers_of_the_abi()
    ensures
        ABI_VERSION == 3,
        OPERATION_ELEMENTWISE == 1,
        OPERATION_MATMUL == 2,
        OPERATION_XOR_SHIFT_ADD == 3,
        OPERATION_MATMUL_ACT == 4,
        MANIFEST_FORMAT == 1,
{
}

/// A manifest describes the plugin with this digest and length, and no other:
/// it holds the digest in hexadecimal, the length, and ABI 3.
pub proof fn manifests_describe_their_plugin(
    manifest: PluginManifest,
    digest: Seq<u8>,
    length: nat,
)
    ensures
        describes(manifest, digest, length) <==> manifest.artifact_sha256@ == hexadecimal(digest)
            && manifest.file_bytes == length && manifest.abi_version == 3,
{
}

/// The order of names is the lexicographic one of their bytes: a prefix comes
/// first, and otherwise the first byte that differs decides.
pub proof fn names_are_ordered_by_bytes(first: Seq<u8>, second: Seq<u8>)
    ensures
        not_after(first, second) <==> {
            ||| first.len() <= second.len() && first == second.take(first.len() as int)
            ||| exists|i: int|
                0 <= i < first.len() && i < second.len() && #[trigger] first.take(i) == second.take(
                    i,
                ) && first[i] < second[i]
        },
    decreases first.len(),
{
    if first.len() == 0 {
        assert(first =~= second.take(0));
    } else if second.len() > 0 {
        if first[0] == second[0] {
            let one = first.skip(1);
            let other = second.skip(1);
            names_are_ordered_by_bytes(one, other);
            if not_after(one, other) {
                if one.len() <= other.len() && one == other.take(one.len() as int) {
                    assert forall|i: int| 0 <= i < first.len() implies first[i] == second[i] by {
                        if i > 0 {
                            assert(one[i - 1] == other.take(one.len() as int)[i - 1]);
                        }
                    }
                    assert(first =~= second.take(first.len() as int));
                } else {
                    let at = choose|i: int|
                        0 <= i < one.len() && i < other.len() && #[trigger] one.take(i)
                            == other.take(i) && one[i] < other[i];
                    assert forall|i: int| 0 <= i < at + 1 implies first[i] == second[i] by {
                        if i > 0 {
                            assert(one.take(at)[i - 1] == other.take(at)[i - 1]);
                        }
                    }
                    assert(first.take(at + 1) =~= second.take(at + 1));
                    assert(first[at + 1] < second[at + 1]);
                }
            }
            if first.len() <= second.len() && first == second.take(first.len() as int) {
                assert forall|i: int| 0 <= i < one.len() implies one[i] == other[i] by {
                    assert(first[i + 1] == second.take(first.len() as int)[i + 1]);
                }
                assert(one =~= other.take(one.len() as int));
            }
            if exists|i: int|
                0 <= i < first.len() && i < second.len() && #[trigger] first.take(i)
                    == second.take(i) && first[i] < second[i] {
                let at = choose|i: int|
                    0 <= i < first.len() && i < second.len() && #[trigger] first.take(i)
                        == second.take(i) && first[i] < second[i];
                assert forall|i: int| 0 <= i < at - 1 implies one[i] == other[i] by {
                    assert(first.take(at)[i + 1] == second.take(at)[i + 1]);
                }
                assert(one.take(at - 1) =~= other.take(at - 1));
                assert(one[at - 1] < other[at - 1]);
            }
        } else {
            if first.len() <= second.len() && first == second.take(first.len() as int) {
                assert(first[0] == second.take(first.len() as int)[0]);
            }
            assert(first.take(0) =~= second.take(0));
            if exists|i: int|
                0 <= i < first.len() && i < second.len() && #[trigger] first.take(i)
                    == second.take(i) && first[i] < second[i] {
                let at = choose|i: int|
                    0 <= i < first.len() && i < second.len() && #[trigger] first.take(i)
                        == second.take(i) && first[i] < second[i];
                if at > 0 {
                    assert(first.take(at)[0] == second.take(at)[0]);
                }
            }
        }
    } else {
        assert(first != second.take(0));
    }
}

/// Names are ordered as their UTF-8 bytes are.
pub proof fn names_are_ordered_as_utf8(first: Seq<char>, second: Seq<char>)
    ensures
        name_not_after(first, second) <==> not_after(encode_utf8(first), encode_utf8(second)),
{
}

/// A sorted registry lists every name before those that come after it.
pub proof fn sorted_registries_list_names_in_order<P>(registry: PluginRegistry<P>)
    ensures
        registry.sorted() <==> forall|i: int, j: int|
            #![trigger registry.entries@[i], registry.entries@[j]]
            0 <= i <= j < registry.entries@.len() ==> not_after(
                encode_utf8(registry.entries@[i].name@),
                encode_utf8(registry.entries@[j].name@),
            ),
        registry.kernels().len() == registry.entries@.len(),
        forall|i: int|
            0 <= i < registry.entries@.len() ==> #[trigger] registry.kernels()[i] == (
                registry.entries@[i].name@,
                registry.entries@[i].operation,
            ),
{
}

/// A name is looked up as the first entry that has it, and is found exactly when
/// some entry has it.
pub proof fn names_are_found_first(kernels: Seq<(Seq<char>, u16)>, name: Seq<char>, index: int)
    ensures
        first_named(kernels, name) == Some(index) <==> first_registered(kernels, name, index),
        first_named(kernels, name) is None <==> forall|i: int|
            0 <= i < kernels.len() ==> (#[trigger] kernels[i]).0 != name,
{
    first_named_is_first(kernels, name);
    if first_registered(kernels, name, index) {
        assert(kernels[index].0 == name);
        let found = first_named(kernels, name)->Some_0;
        if found < index {
            assert(kernels[found].0 != name);
        }
        if index < found {
            assert(kernels[index].0 != name);
        }
    }
}

/// Of the candidates those that are registered are listed, in their order and as
/// often as they stand there.
pub proof fn installed_are_the_registered(
    kernels: Seq<(Seq<char>, u16)>,
    candidates: Seq<String>,
)
    ensures
        installed(kernels, candidates) == candidates.map_values(|name: String| name@).filter(
            |name: Seq<char>|
                exists|i: int| 0 <= i < kernels.len() && (#[trigger] kernels[i]).0 == name,
        ),
    decreases candidates.len(),
{
    reveal(Seq::filter);
    let registered = |name: Seq<char>|
        exists|i: int| 0 <= i < kernels.len() && (#[trigger] kernels[i]).0 == name;
    let names = candidates.map_values(|name: String| name@);
    if candidates.len() > 0 {
        let front = candidates.drop_last();
        installed_are_the_registered(kernels, front);
        assert(names.drop_last() =~= front.map_values(|name: String| name@));
        assert(names.last() == candidates.last()@);
        names_are_found_first(kernels, names.last(), 0);
        assert(registered(names.last()) == first_named(kernels, names.last()) is Some);
    } else {
        assert(names =~= Seq::empty());
    }
}

/// A dispatch from the registry succeeds exactly when there is a kernel at the
/// index, it is of the kind, the lengths fit, and the kernel answers the call. A
/// refusal before the call leaves the output alone and is true.
pub proof fn dispatches_reach_their_kernel<P, D: PluginDispatch>(
    registry: PluginRegistry<P>,
    index: usize,
    expected: u16,
    fit: bool,
    plugins: D,
    call: KernelCall,
    input: Seq<u32>,
    before: Seq<u32>,
    after: Seq<u32>,
    error: PluginError,
)
    ensures
        ({
            let kernels = registry.kernels();
            let admitted = index < kernels.len() && kernels[index as int].1 == expected && fit;
            &&& registry.dispatch_outcome(
                index as int,
                expected,
                fit,
                plugins,
                call,
                input,
                before,
                after,
                Ok(()),
            ) <==> admitted && called(plugins, index, call, input, after)
            &&& registry.dispatch_outcome(
                index as int,
                expected,
                fit,
                plugins,
                call,
                input,
                before,
                after,
                Err(error),
            ) <==> if admitted {
                error matches PluginError::Dispatch(message) && call_failed(
                    plugins,
                    index,
                    call,
                    input,
                    after,
                    message,
                )
            } else {
                after == before && match error {
                    PluginError::NotFound(text) => index >= kernels.len() && text@ == decimal(
                        index as nat,
                    ),
                    PluginError::KernelKind { expected: needed, actual } => index < kernels.len()
                        && needed == expected && actual == kernels[index as int].1 && actual
                        != expected,
                    PluginError::BufferLength => index < kernels.len()
                        && kernels[index as int].1 == expected && !fit,
                    _ => false,
                }
            }
        }),
{
    match error {
        PluginError::Dispatch(message) => {
            assert(dispatch_returned(plugins, index, call, input, after, Some(message))
                <==> call_failed(plugins, index, call, input, after, message));
        },
        _ => {},
    }
    assert(dispatch_returned(plugins, index, call, input, after, None) <==> called(
        plugins,
        index,
        call,
        input,
        after,
    ));
}

/// A call reaches an admitted kernel exactly when there is one at the index, it
/// is of the call's kind (1 for elementwise, 2 for a matrix product, 4 for a
/// fused one), and the buffers have the call's lengths; it is then answered by
/// that kernel, called the same way.
pub proof fn admitted_calls_are_passed_on<'a, P, D: PluginDispatch>(
    admitted: AdmittedKernels<'a, P, D>,
    index: usize,
    call: KernelCall,
    input: Seq<u32>,
    before: Seq<u32>,
    after: Seq<u32>,
)
    requires
        before.len() == after.len(),
    ensures
        admitted.dispatched(index, call, input, before, after, None) <==> {
            let kernels = admitted.registry.kernels();
            &&& index < kernels.len()
            &&& match call {
                KernelCall::Elementwise => kernels[index as int].1 == 1 && input.len()
                    == after.len(),
                KernelCall::Matmul { m, k, n } => kernels[index as int].1 == 2 && input.len() == m
                    * k + k * n && after.len() == m * n,
                KernelCall::MatmulAct { m, k, n, .. } => kernels[index as int].1 == 4
                    && input.len() == m * k + k * n && after.len() == m * n,
            }
            &&& called(*admitted.kernels, index, call, input, after)
        },
{
    let fit = lengths_fit(call, input.len(), before.len());
    dispatches_reach_their_kernel(
        *admitted.registry,
        index,
        needed_kind(call),
        fit,
        *admitted.kernels,
        call,
        input,
        before,
        after,
        PluginError::BufferLength,
    );
    let nothing = Ok::<(), PluginError>(());
    assert(reports(nothing, None));
    if admitted.dispatched(index, call, input, before, after, None) {
        let result = choose|result: Result<(), PluginError>| #[trigger]
            reports(result, None) && admitted.registry.dispatch_outcome(
                index as int,
                needed_kind(call),
                fit,
                *admitted.kernels,
                call,
                input,
                before,
                after,
                result,
            );
        assert(result is Ok);
    }
}

/// A failure reports its error's text, and a success reports nothing.
pub proof fn reports_tell_the_error(error: PluginError, text: String)
    ensures
        reports(Ok(()), None),
        !reports(Ok(()), Some(text)),
        !reports(Err(error), None),
        reports(Err(error), Some(text)) <==> text@ == error_text(error),
        failure(Ok(())) is None,
        failure(Err(text)) == Some(text),
{
}

/// What each error is told as.
pub proof fn errors_are_told(
    number: u16,
    other: u16,
    word: u32,
    long: u64,
    status: i32,
    text: String,
)
    ensures
        error_text(PluginError::TooLarge) == "plugin exceeds configured size limit"@,
        error_text(PluginError::NullDescriptor) == "plugin returned a null descriptor"@,
        error_text(PluginError::Abi(word)) == "unsupported plugin ABI "@ + decimal(word as nat),
        error_text(PluginError::NullName) == "plugin name is null"@,
        error_text(PluginError::NameEncoding) == "plugin name is not valid UTF-8"@,
        error_text(PluginError::BufferType)
            == "plugin descriptor declares unsupported buffer types"@,
        error_text(PluginError::Operation(number))
            == "plugin descriptor declares unsupported operation "@ + decimal(number as nat),
        error_text(PluginError::Alignment(word))
            == "plugin descriptor declares invalid alignment "@ + decimal(word as nat),
        error_text(PluginError::CpuFeatures(long))
            == "plugin requires unsupported CPU features: 0x"@ + hexadecimal_number(long as nat),
        error_text(PluginError::ScratchBytes(long))
            == "plugin declares unsupported scratch memory: "@ + decimal(long as nat) + " bytes"@,
        error_text(PluginError::KernelStatus(status)) == "plugin kernel failed with status "@
            + signed_decimal(status as int),
        error_text(PluginError::LengthOverflow) == "plugin length does not fit the ABI"@,
        error_text(PluginError::BufferLength) == "plugin input and output lengths differ"@,
        error_text(PluginError::KernelKind { expected: number, actual: other })
            == "plugin kernel has operation kind "@ + decimal(other as nat)
            + ", the dispatch needs "@ + decimal(number as nat),
        error_text(PluginError::ManifestMissing(text)) == "plugin manifest is missing for "@
            + text@,
        error_text(PluginError::HashMismatch(text)) == "plugin hash does not match its manifest: "@
            + text@,
        error_text(PluginError::NotFound(text)) == "admitted plugin is not registered: "@ + text@,
        error_text(PluginError::Dispatch(text)) == text@,
{
}

/// A self-test calls a kernel over singles by its kind, with two by two matrices
/// where it multiplies: on the numbers one to four, or one to eight as bits of
/// singles. Other kinds have no such test.
pub proof fn self_tests_call_by_kind(operation: u16)
    ensures
        operation == 1 ==> probe_call(operation) == Some(KernelCall::Elementwise),
        operation == 2 ==> probe_call(operation) == Some(KernelCall::Matmul { m: 2, k: 2, n: 2 }),
        operation == 4 ==> probe_call(operation) == Some(
            KernelCall::MatmulAct { m: 2, k: 2, n: 2, activation: 1 },
        ),
        probe_call(operation) is Some <==> operation == 1 || operation == 2 || operation == 4,
        probe_call(operation) matches Some(call) ==> {
            &&& probe_input(call).len() == (if operation == 1 {
                4int
            } else {
                8int
            })
            &&& probe_input(call)[0] == 0x3f80_0000
            &&& probe_input(call)[1] == 0x4000_0000
            &&& probe_input(call)[2] == 0x4040_0000
            &&& probe_input(call)[3] == 0x4080_0000
            &&& operation != 1 ==> {
                &&& probe_input(call)[4] == 0x40a0_0000
                &&& probe_input(call)[5] == 0x40c0_0000
                &&& probe_input(call)[6] == 0x40e0_0000
                &&& probe_input(call)[7] == 0x4100_0000
            }
            &&& lengths_fit(call, probe_input(call).len(), 4)
        },
{
    let vector = PROBE_VECTOR@;
    let matrices = PROBE_MATRICES@;
    assert(vector.len() == 4);
    assert(matrices.len() == 8);
    assert(vector[0] == 0x3f80_0000 && vector[1] == 0x4000_0000);
    assert(matrices[0] == 0x3f80_0000 && matrices[1] == 0x4000_0000);
    assert forall|m: u32, k: u32, n: u32| m == 2 && k == 2 && n == 2 implies #[trigger] (m * k) == 4
        && #[trigger] (k * n) == 4 && m * n == 4 by {
        assert(m * k == 4 && k * n == 4 && m * n == 4) by (nonlinear_arith)
            requires
                m == 2,
                k == 2,
                n == 2,
        ;
    }
    match probe_call(operation) {
        Some(KernelCall::Matmul { m, k, n }) => {
            assert(m * k == 4 && k * n == 4 && m * n == 4);
        },
        Some(KernelCall::MatmulAct { m, k, n, .. }) => {
            assert(m * k == 4 && k * n == 4 && m * n == 4);
        },
        _ => {},
    }
}

/// Rounds agree exactly when every two of them left the same values.
pub proof fn rounds_agree_pairwise(outcomes: Seq<Vec<u32>>)
    ensures
        rounds_agree(outcomes) <==> forall|i: int, j: int|
            #![trigger outcomes[i], outcomes[j]]
            0 <= i < outcomes.len() && 0 <= j < outcomes.len() ==> outcomes[i]@ == outcomes[j]@,
{
    if rounds_agree(outcomes) {
        assert forall|i: int, j: int|
            #![trigger outcomes[i], outcomes[j]]
            0 <= i < outcomes.len() && 0 <= j < outcomes.len() implies outcomes[i]@
            == outcomes[j]@ by {
            assert(outcomes[i]@ == outcomes[0]@);
            assert(outcomes[j]@ == outcomes[0]@);
        }
    }
}

/// A call that fails on its way to an admitted kernel fails for a reason: where
/// there is no kernel of the kind at the index, or the lengths differ, the
/// output stays; otherwise the kernel itself failed, and its own words are told.
pub proof fn admitted_failures_are_told<'a, P, D: PluginDispatch>(
    admitted: AdmittedKernels<'a, P, D>,
    index: usize,
    call: KernelCall,
    input: Seq<u32>,
    before: Seq<u32>,
    after: Seq<u32>,
    text: String,
)
    requires
        admitted.dispatched(index, call, input, before, after, Some(text)),
    ensures
        ({
            let kernels = admitted.registry.kernels();
            if index >= kernels.len() {
                after == before && text@ == "admitted plugin is not registered: "@ + decimal(
                    index as nat,
                )
            } else if kernels[index as int].1 != needed_kind(call) {
                after == before && text@ == "plugin kernel has operation kind "@ + decimal(
                    kernels[index as int].1 as nat,
                ) + ", the dispatch needs "@ + decimal(needed_kind(call) as nat)
            } else if !lengths_fit(call, input.len(), before.len()) {
                after == before && text@ == "plugin input and output lengths differ"@
            } else {
                exists|message: String| #[trigger]
                    call_failed(*admitted.kernels, index, call, input, after, message) && text@
                        == message@
            }
        }),
{
    let fit = lengths_fit(call, input.len(), before.len());
    let result = choose|result: Result<(), PluginError>| #[trigger]
        reports(result, Some(text)) && admitted.registry.dispatch_outcome(
            index as int,
            needed_kind(call),
            fit,
            *admitted.kernels,
            call,
            input,
            before,
            after,
            result,
        );
    let error = result->Err_0;
    assert(result == Err::<(), PluginError>(error));
    dispatches_reach_their_kernel(
        *admitted.registry,
        index,
        needed_kind(call),
        fit,
        *admitted.kernels,
        call,
        input,
        before,
        after,
        error,
    );
}

/// The kind that a call needs, and the lengths that it takes: as many values out
/// as in for an elementwise call, both matrices in and the product out for the
/// others.
pub proof fn calls_need_their_kind(
    m: u32,
    k: u32,
    n: u32,
    activation: u32,
    input: nat,
    output: nat,
)
    ensures
        needed_kind(KernelCall::Elementwise) == 1,
        needed_kind(KernelCall::Matmul { m, k, n }) == 2,
        needed_kind(KernelCall::MatmulAct { m, k, n, activation }) == 4,
        lengths_fit(KernelCall::Elementwise, input, output) <==> input == output,
        lengths_fit(KernelCall::Matmul { m, k, n }, input, output) <==> input == m * k + k * n
            && output == m * n,
        lengths_fit(KernelCall::MatmulAct { m, k, n, activation }, input, output) <==> input == m
            * k + k * n && output == m * n,
{
}

} // verus!
