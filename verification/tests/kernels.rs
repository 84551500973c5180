use native_machine::cpu::CpuFeatures;
use native_machine::kernels::abi::{
    KernelContext, KernelPlugin, ABI_VERSION, CPU_AVX2, CPU_FMA, CPU_NEON, MAX_SHIFT,
    OPERATION_ELEMENTWISE, OPERATION_MATMUL, OPERATION_MATMUL_ACT, OPERATION_XOR_SHIFT_ADD,
    STATUS_INVALID_DIMENSIONS, STATUS_INVALID_PARAMS, STATUS_LENGTH_MISMATCH,
    STATUS_LENGTH_OVERFLOW, STATUS_MISALIGNED, STATUS_NULL_BUFFER, STATUS_NULL_CONTEXT, STATUS_OK,
    STATUS_OUTPUT_TOO_SMALL, TYPE_F32, TYPE_U64,
};
use native_machine::kernels::avx2_fma_matmul;
use native_machine::kernels::avx2_fma_matmul_act;
use native_machine::kernels::neon_relu;
use native_machine::kernels::neon_xor_shift_add;
use native_machine::kernels::reference_add_one;
use native_machine::kernels::reference_matmul;
use native_machine::kernels::reference_xor_shift_add;

const MATMUL_PARAMS: usize = 12;
const MATMUL_ACT_PARAMS: usize = 16;
const XOR_PARAMS: usize = 16;
const VECTOR_HOST: CpuFeatures = CpuFeatures { avx2: true, neon: false, fma: true };
const SCALAR_HOST: CpuFeatures = CpuFeatures { avx2: true, neon: false, fma: false };

fn separate(left: u32, right: u32, sum: u32) -> u32 {
    (f32::from_bits(sum) + f32::from_bits(left) * f32::from_bits(right)).to_bits()
}

fn fused(left: u32, right: u32, sum: u32) -> u32 {
    f32::from_bits(left)
        .mul_add(f32::from_bits(right), f32::from_bits(sum))
        .to_bits()
}

fn clamp(value: u32) -> u32 {
    f32::from_bits(value).max(0.0).to_bits()
}

fn increment(value: u32) -> u32 {
    (f32::from_bits(value) + 1.0).to_bits()
}

fn bits(values: &[f32]) -> Vec<u32> {
    values.iter().map(|value| value.to_bits()).collect()
}

fn floats(values: &[u32]) -> Vec<f32> {
    values.iter().map(|value| f32::from_bits(*value)).collect()
}

/// A context over buffers at aligned places.
fn context(input_bytes: u64, output_bytes: u64, params_bytes: u64) -> KernelContext {
    KernelContext {
        input: 64,
        input_bytes,
        output: 128,
        output_bytes,
        params: 256,
        params_bytes,
    }
}

#[test]
fn matches_reference_bitwise_across_shift_range() {
    let input: Vec<u64> = (0..1031_u64)
        .map(|index| index.wrapping_mul(0x9E37_79B9_7F4A_7C15))
        .collect();
    for shift in [0, 1, 31, 32, 62, MAX_SHIFT] {
        for add in [0, 1, u64::MAX] {
            let mut expected = vec![0_u64; input.len()];
            let mut actual = vec![0_u64; input.len()];
            reference_xor_shift_add::xor_shift_add(&input, &mut expected, shift, add);
            neon_xor_shift_add::xor_shift_add(&input, &mut actual, shift, add);
            assert_eq!(expected, actual, "shift {shift}, add {add}");
            let mut scalar = vec![0_u64; input.len()];
            neon_xor_shift_add::xor_shift_add_scalar(&input, &mut scalar, shift, add);
            assert_eq!(expected, scalar, "shift {shift}, add {add}");
        }
    }
}

#[test]
fn xor_shift_add_matches_scalar_oracle() {
    let input = [0_u64, 1, 42, u64::MAX];
    let mut output = [0_u64; 4];
    reference_xor_shift_add::xor_shift_add(&input, &mut output, 13, 7);
    for (source, destination) in input.iter().zip(output) {
        assert_eq!((source ^ (source << 13)).wrapping_add(7), destination);
    }
}

#[test]
fn shift_zero_cancels_the_xor() {
    let input = [7_u64, u64::MAX];
    let mut output = [0_u64; 2];
    reference_xor_shift_add::xor_shift_add(&input, &mut output, 0, 5);
    assert_eq!(output, [5, 5]);
}

#[test]
fn addition_wraps_modulo_2_to_the_64() {
    let input = [u64::MAX];
    let mut output = [0_u64; 1];
    reference_xor_shift_add::xor_shift_add(&input, &mut output, 0, 1);
    assert_eq!(output, [1]);
    reference_xor_shift_add::xor_shift_add(&input, &mut output, 63, u64::MAX);
    assert_eq!(
        output[0],
        (u64::MAX ^ (u64::MAX << 63)).wrapping_add(u64::MAX)
    );
}

#[test]
fn shorter_buffers_bound_the_pass() {
    let input = [1_u64, 2, 3];
    let mut output = [9_u64; 2];
    reference_xor_shift_add::xor_shift_add(&input, &mut output, 1, 0);
    assert_eq!(output, [3, 6]);
    let mut output = [9_u64; 5];
    neon_xor_shift_add::xor_shift_add(&input, &mut output, 1, 0);
    assert_eq!(output, [3, 6, 5, 9, 9]);
}

fn xor_params(shift: u32, reserved: u32, add: u64) -> [u8; XOR_PARAMS] {
    let mut params = [0_u8; XOR_PARAMS];
    params[0..4].copy_from_slice(&shift.to_le_bytes());
    params[4..8].copy_from_slice(&reserved.to_le_bytes());
    params[8..16].copy_from_slice(&add.to_le_bytes());
    params
}

fn run_buffers(input: &[u64], output: &mut [u64], params: &[u8; XOR_PARAMS]) -> i32 {
    let context = context(
        std::mem::size_of_val(input) as u64,
        std::mem::size_of_val(output) as u64,
        XOR_PARAMS as u64,
    );
    reference_xor_shift_add::run(Some(&context), params, input, output)
}

#[test]
fn entry_point_reports_abi_v3() {
    let descriptor = reference_matmul::hologram_kernel_plugin_v3();
    assert_eq!(descriptor.abi_version, ABI_VERSION);
    assert_eq!(descriptor.operation, OPERATION_MATMUL);
    assert_eq!(descriptor.input_type, TYPE_F32);
    assert_eq!(descriptor.output_type, TYPE_F32);
}

#[test]
fn lib_entry_point_reports_abi_v3() {
    let descriptor = reference_xor_shift_add::hologram_kernel_plugin_v3();
    assert_eq!(descriptor.abi_version, ABI_VERSION);
    assert_eq!(descriptor.operation, OPERATION_XOR_SHIFT_ADD);
    assert_eq!(descriptor.input_type, TYPE_U64);
    assert_eq!(descriptor.output_type, TYPE_U64);
}

#[test]
fn vector_kernels_declare_their_features() {
    let expect = |plugin: KernelPlugin, operation: u16, element: u16, alignment: u32, features: u64| {
        assert_eq!(plugin.abi_version, 3);
        assert_eq!(plugin.operation, operation);
        assert_eq!((plugin.input_type, plugin.output_type), (element, element));
        assert_eq!(plugin.required_alignment, alignment);
        assert_eq!((plugin.flags, plugin.scratch_bytes), (0, 0));
        assert_eq!(plugin.cpu_features, features);
    };
    let both = CPU_AVX2 | CPU_FMA;
    expect(avx2_fma_matmul::hologram_kernel_plugin_v3(true), OPERATION_MATMUL, TYPE_F32, 4, both);
    expect(avx2_fma_matmul::hologram_kernel_plugin_v3(false), OPERATION_MATMUL, TYPE_F32, 4, 0);
    expect(
        avx2_fma_matmul_act::hologram_kernel_plugin_v3(true),
        OPERATION_MATMUL_ACT,
        TYPE_F32,
        4,
        both,
    );
    expect(neon_relu::hologram_kernel_plugin_v3(true), OPERATION_ELEMENTWISE, TYPE_F32, 4, CPU_NEON);
    expect(neon_relu::hologram_kernel_plugin_v3(false), OPERATION_ELEMENTWISE, TYPE_F32, 4, 0);
    expect(
        neon_xor_shift_add::hologram_kernel_plugin_v3(true),
        OPERATION_XOR_SHIFT_ADD,
        TYPE_U64,
        8,
        CPU_NEON,
    );
    expect(reference_add_one::hologram_kernel_plugin_v3(), OPERATION_ELEMENTWISE, TYPE_F32, 4, 0);
}

#[test]
fn run_rejects_null_context() {
    let mut output = [0_u32; 4];
    assert_eq!(
        reference_matmul::run(None, &[], &[], &mut output, &separate),
        STATUS_NULL_CONTEXT
    );
}

#[test]
fn lib_run_rejects_null_context() {
    let mut output = [0_u64; 1];
    assert_eq!(
        reference_xor_shift_add::run(None, &[], &[], &mut output),
        STATUS_NULL_CONTEXT
    );
}

fn matmul_params(m: u32, k: u32, n: u32) -> [u8; MATMUL_PARAMS] {
    let mut params = [0_u8; MATMUL_PARAMS];
    params[0..4].copy_from_slice(&m.to_le_bytes());
    params[4..8].copy_from_slice(&k.to_le_bytes());
    params[8..12].copy_from_slice(&n.to_le_bytes());
    params
}

fn run_matmul(ab: &[f32], output: &mut [f32], params: &[u8; MATMUL_PARAMS]) -> i32 {
    let context = context(
        std::mem::size_of_val(ab) as u64,
        std::mem::size_of_val(output) as u64,
        MATMUL_PARAMS as u64,
    );
    let mut values = bits(output);
    let status = reference_matmul::run(Some(&context), params, &bits(ab), &mut values, &separate);
    output.copy_from_slice(&floats(&values));
    status
}

#[test]
fn run_rejects_null_buffers() {
    let mut output = [0_u32; 4];
    let params = matmul_params(2, 2, 2);
    let mut context = context(32, 16, MATMUL_PARAMS as u64);
    context.input = 0;
    assert_eq!(
        reference_matmul::run(Some(&context), &params, &[], &mut output, &separate),
        STATUS_NULL_BUFFER
    );
}

#[test]
fn lib_run_rejects_null_buffers() {
    let mut output = [0_u64; 1];
    let params = xor_params(1, 0, 0);
    let mut context = context(8, 8, XOR_PARAMS as u64);
    context.input = 0;
    assert_eq!(
        reference_xor_shift_add::run(Some(&context), &params, &[], &mut output),
        STATUS_NULL_BUFFER
    );
}

#[test]
fn run_rejects_missing_params() {
    let ab = bits(&[1.0_f32; 8]);
    let mut output = [0_u32; 4];
    let mut context = context(32, 16, 0);
    context.params = 0;
    assert_eq!(
        reference_matmul::run(Some(&context), &[], &ab, &mut output, &separate),
        STATUS_INVALID_PARAMS
    );
}

#[test]
fn lib_run_rejects_missing_params() {
    let input = [1_u64];
    let mut output = [0_u64; 1];
    let mut context = context(8, 8, 0);
    context.params = 0;
    assert_eq!(
        reference_xor_shift_add::run(Some(&context), &[], &input, &mut output),
        STATUS_INVALID_PARAMS
    );
}

#[test]
fn run_rejects_shift_above_63() {
    let input = [1_u64];
    let mut output = [0_u64; 1];
    assert_eq!(
        run_buffers(&input, &mut output, &xor_params(64, 0, 0)),
        STATUS_INVALID_PARAMS
    );
}

#[test]
fn run_accepts_shift_63() {
    let input = [3_u64];
    let mut output = [0_u64; 1];
    assert_eq!(
        run_buffers(&input, &mut output, &xor_params(MAX_SHIFT, 0, 0)),
        STATUS_OK
    );
    assert_eq!(output[0], 3 ^ (3 << 63));
}

#[test]
fn run_rejects_nonzero_reserved_field() {
    let input = [1_u64];
    let mut output = [0_u64; 1];
    assert_eq!(
        run_buffers(&input, &mut output, &xor_params(1, 1, 0)),
        STATUS_INVALID_PARAMS
    );
}

#[test]
fn run_rejects_length_mismatch() {
    let input = [1_u64, 2];
    let mut output = [0_u64; 1];
    assert_eq!(
        run_buffers(&input, &mut output, &xor_params(1, 0, 0)),
        STATUS_LENGTH_MISMATCH
    );
}

#[test]
fn run_computes_through_the_abi() {
    let input = [1_u64, 2, 3];
    let mut output = [0_u64; 3];
    assert_eq!(
        run_buffers(&input, &mut output, &xor_params(4, 0, 10)),
        STATUS_OK
    );
    for (source, destination) in input.iter().zip(output) {
        assert_eq!((source ^ (source << 4)).wrapping_add(10), destination);
    }
}

#[test]
fn lib_run_computes_through_the_abi() {
    let input = bits(&[-1.0_f32, 2.0, -3.0, 4.0, -5.0]);
    let mut output = bits(&[1.0_f32; 5]);
    let context = context(20, 20, 0);
    assert_eq!(
        neon_relu::run(Some(&context), &input, &mut output, false, &clamp, &clamp),
        STATUS_OK
    );
    assert_eq!(floats(&output), [0.0, 2.0, 0.0, 4.0, 0.0]);
}

#[test]
fn neon_xor_shift_add_computes_through_the_abi() {
    let input = [1_u64, 2, 3];
    let mut output = [0_u64; 3];
    let context = context(24, 24, XOR_PARAMS as u64);
    assert_eq!(
        neon_xor_shift_add::run(Some(&context), &xor_params(4, 0, 10), &input, &mut output),
        STATUS_OK
    );
    for (source, destination) in input.iter().zip(output) {
        assert_eq!((source ^ (source << 4)).wrapping_add(10), destination);
    }
}

#[test]
fn misaligned_buffers_are_refused() {
    let input = [1_u64];
    let mut output = [7_u64];
    let mut context = context(8, 8, XOR_PARAMS as u64);
    context.output = 132;
    assert_eq!(
        reference_xor_shift_add::run(Some(&context), &xor_params(1, 0, 0), &input, &mut output),
        STATUS_MISALIGNED
    );
    assert_eq!(output, [7]);
}

#[test]
fn add_one_computes_through_the_abi() {
    let input = bits(&[1.0_f32, 2.0, 3.0, 4.0]);
    let mut output = [0_u32; 4];
    let shape = context(16, 16, 0);
    assert_eq!(
        reference_add_one::run(Some(&shape), &input, &mut output, &increment),
        STATUS_OK
    );
    assert_eq!(floats(&output), [2.0, 3.0, 4.0, 5.0]);
    let with_params = context(16, 16, 4);
    assert_eq!(
        reference_add_one::run(Some(&with_params), &input, &mut output, &increment),
        STATUS_INVALID_PARAMS
    );
    let uneven = context(16, 12, 0);
    assert_eq!(
        reference_add_one::run(Some(&uneven), &input, &mut output[..3], &increment),
        STATUS_LENGTH_MISMATCH
    );
}

#[test]
fn matches_reference() {
    let mut input = vec![0.0_f32; 1031];
    for (index, value) in input.iter_mut().enumerate() {
        *value = (index as f32 - 500.0) * 0.25;
    }
    input[0] = f32::NAN;
    input[1] = f32::INFINITY;
    input[2] = f32::NEG_INFINITY;
    let input = bits(&input);
    for aarch64 in [false, true] {
        let mut expected = vec![0_u32; input.len()];
        let mut actual = vec![0_u32; input.len()];
        neon_relu::relu_scalar(&input, &mut expected, &clamp);
        neon_relu::relu(&input, &mut actual, aarch64, &clamp, &clamp);
        for (expected, actual) in floats(&expected).iter().zip(floats(&actual)) {
            // -0.0 and +0.0 are both valid ReLU outputs for a zero input.
            assert!(
                expected.to_bits() == actual.to_bits() || (*expected == 0.0 && actual == 0.0),
                "expected {expected}, got {actual}"
            );
        }
        assert_eq!(f32::from_bits(actual[0]), 0.0);
        assert_eq!(f32::from_bits(actual[1]), f32::INFINITY);
        assert_eq!(f32::from_bits(actual[600]), 25.0);
    }
}

#[test]
fn whole_blocks_take_the_vector_function() {
    let input = vec![5_u32; 20];
    let mut output = vec![0_u32; 20];
    let vector = |_value: u32| 1_u32;
    let scalar = |_value: u32| 2_u32;
    neon_relu::relu(&input, &mut output, true, &vector, &scalar);
    assert_eq!(&output[..16], &[1_u32; 16]);
    assert_eq!(&output[16..], &[2_u32; 4]);
    neon_relu::relu(&input, &mut output, false, &vector, &scalar);
    assert_eq!(output, vec![2_u32; 20]);
}

#[test]
fn matmul_matches_scalar_oracle() {
    let a = [1.0_f32, 2.0, 3.0, 4.0, 5.0, 6.0];
    let b = [7.0_f32, 8.0, 9.0, 10.0, 11.0, 12.0];
    let mut output = [0_u32; 4];
    reference_matmul::matmul(&bits(&a), &bits(&b), &mut output, 2, 3, 2, &separate);
    let output = floats(&output);
    for row in 0..2 {
        for column in 0..2 {
            let mut sum = 0.0_f32;
            for inner in 0..3 {
                sum += a[row * 3 + inner] * b[inner * 2 + column];
            }
            assert_eq!(sum, output[row * 2 + column]);
        }
    }
    assert_eq!(output, [58.0, 64.0, 139.0, 154.0]);
}

#[test]
fn run_rejects_zero_dimensions() {
    let ab = [1.0_f32; 8];
    let mut output = [0.0_f32; 4];
    assert_eq!(
        run_matmul(&ab, &mut output, &matmul_params(0, 2, 2)),
        STATUS_INVALID_DIMENSIONS
    );
}

#[test]
fn run_rejects_input_length_mismatch() {
    let ab = [1.0_f32; 8];
    let mut output = [0.0_f32; 6];
    assert_eq!(
        run_matmul(&ab, &mut output, &matmul_params(3, 2, 2)),
        STATUS_LENGTH_MISMATCH
    );
}

#[test]
fn run_rejects_undersized_output() {
    let ab = [1.0_f32; 8];
    let mut output = [0.0_f32; 3];
    assert_eq!(
        run_matmul(&ab, &mut output, &matmul_params(2, 2, 2)),
        STATUS_OUTPUT_TOO_SMALL
    );
}

#[test]
fn run_rejects_dimensions_that_overflow() {
    let ab = [1.0_f32; 8];
    let mut output = [3.0_f32; 4];
    assert_eq!(
        run_matmul(&ab, &mut output, &matmul_params(u32::MAX, u32::MAX, 2)),
        STATUS_LENGTH_OVERFLOW
    );
    assert_eq!(output, [3.0; 4]);
}

#[test]
fn run_computes_2x2_through_the_abi() {
    let ab = [1.0_f32, 2.0, 3.0, 4.0, 5.0, 6.0, 7.0, 8.0];
    let mut output = [0.0_f32; 4];
    assert_eq!(run_matmul(&ab, &mut output, &matmul_params(2, 2, 2)), STATUS_OK);
    assert_eq!(output, [19.0, 22.0, 43.0, 50.0]);
}

#[test]
fn lib_run_computes_2x2_through_the_abi() {
    let ab = bits(&[1.0_f32, 2.0, 3.0, 4.0, 5.0, 6.0, 7.0, 8.0]);
    for features in [VECTOR_HOST, SCALAR_HOST] {
        let mut output = [0_u32; 4];
        let context = context(32, 16, MATMUL_PARAMS as u64);
        let status = avx2_fma_matmul::run(
            Some(&context),
            &matmul_params(2, 2, 2),
            &ab,
            &mut output,
            features,
            &fused,
            &separate,
        );
        assert_eq!(status, STATUS_OK);
        assert_eq!(floats(&output), [19.0, 22.0, 43.0, 50.0]);
    }
}

fn exact_inputs(m: usize, k: usize, n: usize) -> (Vec<u32>, Vec<u32>) {
    let a: Vec<f32> = (0..m * k)
        .map(|index| (index % 9) as f32 * 0.25 - 1.0)
        .collect();
    let b: Vec<f32> = (0..k * n)
        .map(|index| (index % 5) as f32 * 0.5 - 1.0)
        .collect();
    (bits(&a), bits(&b))
}

#[test]
fn matches_reference_bitwise_on_exact_values() {
    // Products and partial sums are exactly representable, so fusing a step
    // changes nothing. Sizes exercise blocks of four rows, tail columns, tail
    // rows and several panels.
    for (m, k, n) in [(6, 7, 10), (5, 17, 130), (9, 3, 66)] {
        let (a, b) = exact_inputs(m, k, n);
        let mut expected = vec![0_u32; m * n];
        let mut actual = vec![0_u32; m * n];
        reference_matmul::matmul(&a, &b, &mut expected, m, k, n, &separate);
        avx2_fma_matmul::matmul(&a, &b, &mut actual, m, k, n, VECTOR_HOST, &fused, &separate);
        assert_eq!(expected, actual);
        let mut scalar = vec![0_u32; m * n];
        avx2_fma_matmul::matmul(&a, &b, &mut scalar, m, k, n, SCALAR_HOST, &fused, &separate);
        assert_eq!(expected, scalar);
    }
}

#[test]
fn matches_reference_within_ulp_tolerance() {
    let (m, k, n) = (13, 11, 9);
    let a: Vec<f32> = (0..m * k).map(|index| (index as f32 * 0.1).sin()).collect();
    let b: Vec<f32> = (0..k * n).map(|index| (index as f32 * 0.2).cos()).collect();
    let (a, b) = (bits(&a), bits(&b));
    let mut expected = vec![0_u32; m * n];
    let mut actual = vec![0_u32; m * n];
    reference_matmul::matmul(&a, &b, &mut expected, m, k, n, &separate);
    avx2_fma_matmul::matmul(&a, &b, &mut actual, m, k, n, VECTOR_HOST, &fused, &separate);
    for (expected, actual) in floats(&expected).iter().zip(floats(&actual)) {
        let tolerance = 1e-5_f32 * expected.abs().max(1.0);
        assert!(
            (expected - actual).abs() <= tolerance,
            "expected {expected}, got {actual}"
        );
    }
}

#[test]
fn vector_columns_take_fused_steps() {
    let one_third = (1.0_f32 / 3.0).to_bits();
    let step_fused = |_left: u32, _right: u32, sum: u32| sum + 1;
    let step_separate = |_left: u32, _right: u32, sum: u32| sum + 100;
    let (m, k, n) = (5, 70, 9);
    let a = vec![one_third; m * k];
    let b = vec![one_third; k * n];
    let mut output = vec![0_u32; m * n];
    avx2_fma_matmul::matmul_avx2_fma(&a, &b, &mut output, m, k, n, &step_fused, &step_separate);
    for row in 0..m {
        assert_eq!(&output[row * n..row * n + 8], &[70_u32; 8]);
        assert_eq!(output[row * n + 8], 7000);
    }
}

const SIZES: [(usize, usize, usize); 3] = [(6, 7, 10), (5, 17, 130), (4, 257, 16)];

#[test]
fn identity_activation_matches_reference_bitwise() {
    for (m, k, n) in SIZES {
        let (a, b) = exact_inputs(m, k, n);
        let mut expected = vec![0_u32; m * n];
        let mut actual = vec![0_u32; m * n];
        reference_matmul::matmul(&a, &b, &mut expected, m, k, n, &separate);
        avx2_fma_matmul_act::matmul_act(
            &a,
            &b,
            &mut actual,
            m,
            k,
            n,
            0,
            VECTOR_HOST,
            &fused,
            &separate,
            &clamp,
        );
        assert_eq!(expected, actual);
    }
}

#[test]
fn relu_activation_matches_reference() {
    for (m, k, n) in SIZES {
        let (a, b) = exact_inputs(m, k, n);
        let mut expected = vec![0_u32; m * n];
        reference_matmul::matmul(&a, &b, &mut expected, m, k, n, &separate);
        let mut expected = floats(&expected);
        for value in expected.iter_mut() {
            *value = value.max(0.0);
        }
        for features in [VECTOR_HOST, SCALAR_HOST] {
            let mut actual = vec![0_u32; m * n];
            avx2_fma_matmul_act::matmul_act(
                &a,
                &b,
                &mut actual,
                m,
                k,
                n,
                1,
                features,
                &fused,
                &separate,
                &clamp,
            );
            // Results are exact with these inputs, so compare with equality.
            assert_eq!(expected, floats(&actual));
        }
    }
}

fn act_params(m: u32, k: u32, n: u32, activation: u32) -> [u8; MATMUL_ACT_PARAMS] {
    let mut params = [0_u8; MATMUL_ACT_PARAMS];
    params[0..4].copy_from_slice(&m.to_le_bytes());
    params[4..8].copy_from_slice(&k.to_le_bytes());
    params[8..12].copy_from_slice(&n.to_le_bytes());
    params[12..16].copy_from_slice(&activation.to_le_bytes());
    params
}

fn run_act(ab: &[f32], output: &mut [u32], params: &[u8; MATMUL_ACT_PARAMS]) -> i32 {
    let context = context(32, 16, MATMUL_ACT_PARAMS as u64);
    avx2_fma_matmul_act::run(
        Some(&context),
        params,
        &bits(ab),
        output,
        VECTOR_HOST,
        &fused,
        &separate,
        &clamp,
    )
}

#[test]
fn run_rejects_invalid_activation() {
    let ab = [1.0_f32, 2.0, 3.0, 4.0, 5.0, 6.0, 7.0, 8.0];
    let mut output = [0_u32; 4];
    assert_eq!(
        run_act(&ab, &mut output, &act_params(2, 2, 2, 2)),
        STATUS_INVALID_PARAMS
    );
}

#[test]
fn run_computes_fused_2x2_through_the_abi() {
    let ab = [1.0_f32, 2.0, 3.0, 4.0, -5.0, 6.0, 7.0, -8.0];
    let mut output = [0_u32; 4];
    assert_eq!(run_act(&ab, &mut output, &act_params(2, 2, 2, 1)), STATUS_OK);
    // matmul gives [1*-5+2*7, 1*6+2*-8, 3*-5+4*7, 3*6+4*-8]
    //             = [9, -10, 13, -14]; ReLU then clamps to [9, 0, 13, 0].
    assert_eq!(floats(&output), [9.0, 0.0, 13.0, 0.0]);
}

#[test]
fn the_activation_waits_for_the_last_block() {
    // The partial sum after 64 steps is negative; only the whole sum counts.
    let mut a = vec![-1.0_f32; 65];
    a[64] = 100.0;
    let b = vec![1.0_f32; 65];
    for features in [VECTOR_HOST, SCALAR_HOST] {
        let mut output = [0_u32; 1];
        avx2_fma_matmul_act::matmul_act(
            &bits(&a),
            &bits(&b),
            &mut output,
            1,
            65,
            1,
            1,
            features,
            &fused,
            &separate,
            &clamp,
        );
        assert_eq!(floats(&output), [36.0]);
    }
}

#[test]
fn an_inner_dimension_of_zero_gives_empty_sums() {
    // An activation that changes zero shows that it was applied.
    let lift = |value: u32| (f32::from_bits(value) + 5.0).to_bits();
    for features in [VECTOR_HOST, SCALAR_HOST] {
        for (activation, expected) in [(0, 0.0_f32), (1, 5.0)] {
            let mut output = bits(&[7.0]);
            avx2_fma_matmul_act::matmul_act(
                &[],
                &[],
                &mut output,
                1,
                0,
                1,
                activation,
                features,
                &fused,
                &separate,
                &lift,
            );
            assert_eq!(floats(&output), [expected]);
        }
    }
    let mut output = bits(&[7.0; 7]);
    avx2_fma_matmul_act::matmul_avx2_fma_act(
        &[],
        &[],
        &mut output,
        2,
        0,
        3,
        1,
        &fused,
        &separate,
        &clamp,
    );
    assert_eq!(floats(&output), [0.0, 0.0, 0.0, 0.0, 0.0, 0.0, 7.0]);
    let mut output = bits(&[7.0]);
    avx2_fma_matmul::matmul_avx2_fma(&[], &[], &mut output, 1, 0, 1, &fused, &separate);
    assert_eq!(floats(&output), [0.0]);
}
