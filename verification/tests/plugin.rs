use native_machine::cpu::{features, CpuFeatures};
use native_machine::dispatch::{probe_determinism, AdmittedKernels};
use native_machine::kernels::abi::{
    describe, ABI_VERSION, CPU_AVX2, CPU_FMA, CPU_NEON, OPERATION_XOR_SHIFT_ADD, TYPE_F32, TYPE_U64,
};
use native_machine::plugin::{
    build_manifest, check_descriptor, check_determinism, check_size, installed_kernels,
    is_manifest, judge_rounds, manifest_of_digest, manifest_path, status_result, verify_manifest, verify_name,
    DescriptorName, KernelHandle, PluginError,
};
use native_machine::kernels::abi::{
    OPERATION_ELEMENTWISE, OPERATION_MATMUL, OPERATION_MATMUL_ACT,
};
use native_machine::kernels::reference_matmul::matmul;
use native_machine::ops::PluginDispatch;
use native_machine::plugin::{PluginRegistry, RegistryEntry};

fn sum(left: u32, right: u32) -> u32 {
    (f32::from_bits(left) + f32::from_bits(right)).to_bits()
}

fn bits(values: &[f32]) -> Vec<u32> {
    values.iter().map(|value| value.to_bits()).collect()
}

fn floats(values: &[u32]) -> Vec<f32> {
    values.iter().map(|value| f32::from_bits(*value)).collect()
}

/// Three kernels: add one, matmul, and matmul with activation.
struct TestKernels;

impl PluginDispatch for TestKernels {
    fn run_index(&self, _index: usize, input: &[u32], output: &mut [u32]) -> Result<(), String> {
        for (source, destination) in input.iter().zip(output.iter_mut()) {
            *destination = sum(*source, 1.0_f32.to_bits());
        }
        Ok(())
    }

    fn run_matmul_index(
        &self,
        _index: usize,
        m: u32,
        k: u32,
        n: u32,
        input: &[u32],
        output: &mut [u32],
    ) -> Result<(), String> {
        let step = |left: u32, right: u32, total: u32| {
            (f32::from_bits(total) + f32::from_bits(left) * f32::from_bits(right)).to_bits()
        };
        let (a, b) = input.split_at((m * k) as usize);
        matmul(a, b, output, m as usize, k as usize, n as usize, &step);
        Ok(())
    }

    fn run_matmul_act_index(
        &self,
        index: usize,
        m: u32,
        k: u32,
        n: u32,
        activation: u32,
        input: &[u32],
        output: &mut [u32],
    ) -> Result<(), String> {
        self.run_matmul_index(index, m, k, n, input, output)?;
        if activation == 1 {
            for value in output.iter_mut() {
                *value = f32::from_bits(*value).max(0.0).to_bits();
            }
        }
        Ok(())
    }
}

fn entry(name: &str, operation: u16) -> RegistryEntry<()> {
    RegistryEntry { name: name.to_string(), operation, payload: () }
}

fn test_registry() -> PluginRegistry<()> {
    let mut registry = PluginRegistry::new();
    registry.enlist(entry("test-matmul-act", OPERATION_MATMUL_ACT));
    registry.enlist(entry("test-elementwise", OPERATION_ELEMENTWISE));
    registry.enlist(entry("test-matmul", OPERATION_MATMUL));
    registry
}

const HOST: CpuFeatures = CpuFeatures { avx2: true, neon: false, fma: false };

fn named(text: &str) -> DescriptorName {
    DescriptorName::Text(text.to_string())
}

#[test]
fn empty_registry_rejects_unknown_kernel() {
    let registry: PluginRegistry<()> = PluginRegistry::new();
    let mut output = [0_u32; 1];
    let error = registry
        .run_into("missing", &bits(&[1.0]), &mut output, &TestKernels)
        .expect_err("missing kernel must fail");
    assert!(matches!(error, PluginError::NotFound(name) if name == "missing"));
}

#[test]
fn kernels_are_listed_by_name() {
    let registry = test_registry();
    let names: Vec<&str> = registry.entries.iter().map(|entry| entry.name.as_str()).collect();
    assert_eq!(names, ["test-elementwise", "test-matmul", "test-matmul-act"]);
    assert_eq!(registry.kernel_index("test-matmul"), Some(1));
    assert_eq!(registry.kernel_index("test"), None);
    assert_eq!(registry.kernel_operation("test-matmul-act"), Some(OPERATION_MATMUL_ACT));
    assert_eq!(registry.kernel_operation("none"), None);
    assert!(registry.get("test-elementwise").is_some());
    assert!(registry.get("none").is_none());
    let mut twins: PluginRegistry<u32> = PluginRegistry::new();
    for payload in [1, 2, 3] {
        twins.enlist(RegistryEntry { name: "same".to_string(), operation: 1, payload });
    }
    let payloads: Vec<u32> = twins.entries.iter().map(|entry| entry.payload).collect();
    assert_eq!(payloads, [1, 2, 3]);
    assert_eq!(twins.kernel_index("same"), Some(0));
}

#[test]
fn handles_dispatch_like_names() {
    let registry = test_registry();
    let handle = registry.resolve("test-elementwise").expect("kernel resolves");
    let input = bits(&[1.0, 2.0]);
    let mut first = [0_u32; 2];
    let mut second = [0_u32; 2];
    registry.run_f32_resolved(handle, &input, &mut first, &TestKernels).expect("dispatches");
    registry.run_f32("test-elementwise", &input, &mut second, &TestKernels).expect("dispatches");
    assert_eq!(first, second);
    assert_eq!(floats(&first), [2.0, 3.0]);
    assert_eq!(
        registry.resolve("none"),
        Err(PluginError::NotFound("none".to_string()))
    );
}

#[test]
fn matmul_dispatch_covers_both_operands() {
    let registry = test_registry();
    let ab = bits(&[1.0, 2.0, 3.0, 4.0, -5.0, 6.0, 7.0, -8.0]);
    let mut output = [0_u32; 4];
    registry.run_matmul("test-matmul", &ab, &mut output, 2, 2, 2, &TestKernels).expect("runs");
    assert_eq!(floats(&output), [9.0, -10.0, 13.0, -14.0]);
    registry
        .run_matmul_act("test-matmul-act", &ab, &mut output, 2, 2, 2, 1, &TestKernels)
        .expect("runs");
    assert_eq!(floats(&output), [9.0, 0.0, 13.0, 0.0]);
    let mut short = [7_u32; 3];
    assert_eq!(
        registry.run_matmul("test-matmul", &ab, &mut short, 2, 2, 2, &TestKernels),
        Err(PluginError::BufferLength)
    );
    assert_eq!(
        registry.run_matmul_act("test-matmul-act", &ab, &mut short, 2, 2, 2, 1, &TestKernels),
        Err(PluginError::BufferLength)
    );
    assert_eq!(short, [7, 7, 7]);
}

#[test]
fn dispatch_checks_the_kind() {
    let registry = test_registry();
    let mut output = [5_u32; 1];
    let wrong = PluginError::KernelKind { expected: OPERATION_ELEMENTWISE, actual: OPERATION_MATMUL };
    assert_eq!(registry.run_f32("test-matmul", &[1], &mut output, &TestKernels), Err(wrong));
    assert_eq!(
        registry.run_index(3, &[1], &mut output, &TestKernels),
        Err(PluginError::NotFound("3".to_string()))
    );
    assert_eq!(
        registry.run_index(0, &[1, 2], &mut output, &TestKernels),
        Err(PluginError::BufferLength)
    );
    assert_eq!(output, [5]);
}

#[test]
fn dispatch_encodes_parameters() {
    let mut registry = test_registry();
    registry.enlist(entry("words", OPERATION_XOR_SHIFT_ADD));
    let words = registry.resolve("words").expect("kernel resolves");
    let params = registry.check_u64(words, 3, 3, 13, 7).expect("dispatch is fine");
    assert_eq!(params, [13, 0, 0, 0, 0, 0, 0, 0, 7, 0, 0, 0, 0, 0, 0, 0]);
    assert_eq!(registry.check_u64(words, 3, 2, 13, 7), Err(PluginError::BufferLength));
    let matmul = registry.resolve("test-matmul").expect("kernel resolves");
    let params = registry.check_matmul(matmul, 10, 4, 2, 3, 2).err();
    assert_eq!(params, Some(PluginError::BufferLength));
    let params = registry.check_matmul(matmul, 12, 4, 2, 3, 2).expect("dispatch is fine");
    assert_eq!(params, [2, 0, 0, 0, 3, 0, 0, 0, 2, 0, 0, 0]);
    let act = registry.resolve("test-matmul-act").expect("kernel resolves");
    let params = registry.check_matmul_act(act, 12, 4, 2, 3, 2, 1).expect("dispatch is fine");
    assert_eq!(params, [2, 0, 0, 0, 3, 0, 0, 0, 2, 0, 0, 0, 1, 0, 0, 0]);
    assert!(matches!(
        registry.check_f32(words, 1, 1),
        Err(PluginError::KernelKind { .. })
    ));
}

#[test]
fn descriptors_are_checked_in_order() {
    let good = describe(TYPE_F32, OPERATION_ELEMENTWISE, 4, CPU_AVX2);
    assert_eq!(check_descriptor(Some(&good), named("k"), HOST), Ok("k".to_string()));
    assert_eq!(check_descriptor(None, named("k"), HOST), Err(PluginError::NullDescriptor));
    let mut plugin = good;
    plugin.abi_version = 2;
    assert_eq!(check_descriptor(Some(&plugin), named("k"), HOST), Err(PluginError::Abi(2)));
    let mut plugin = good;
    plugin.operation = 9;
    assert_eq!(check_descriptor(Some(&plugin), named("k"), HOST), Err(PluginError::Operation(9)));
    let mut plugin = good;
    plugin.output_type = TYPE_U64;
    assert_eq!(check_descriptor(Some(&plugin), named("k"), HOST), Err(PluginError::BufferType));
    let mut plugin = good;
    plugin.required_alignment = 6;
    assert_eq!(check_descriptor(Some(&plugin), named("k"), HOST), Err(PluginError::Alignment(6)));
    let mut plugin = good;
    plugin.scratch_bytes = 1;
    assert_eq!(
        check_descriptor(Some(&plugin), named("k"), HOST),
        Err(PluginError::ScratchBytes(1))
    );
    let mut plugin = good;
    plugin.cpu_features = CPU_AVX2 | CPU_FMA;
    assert_eq!(
        check_descriptor(Some(&plugin), named("k"), HOST),
        Err(PluginError::CpuFeatures(5))
    );
    assert_eq!(
        check_descriptor(Some(&good), DescriptorName::Null, HOST),
        Err(PluginError::NullName)
    );
    assert_eq!(
        check_descriptor(Some(&good), DescriptorName::NotUtf8, HOST),
        Err(PluginError::NameEncoding)
    );
}

#[test]
fn detection_is_stable() {
    for case in 0..32_u32 {
        let bit = |place: u32| case >> place & 1 == 1;
        let detect = || features(bit(0), bit(1), bit(2), bit(3), bit(4));
        assert_eq!(detect(), detect());
        assert_eq!(detect().avx2, bit(0) && bit(2));
        assert_eq!(detect().neon, bit(1) && bit(3));
        assert_eq!(detect().fma, bit(0) && bit(4));
    }
}

#[test]
fn hosts_support_what_they_have() {
    let all = CpuFeatures { avx2: true, neon: true, fma: true };
    assert_eq!(all.mask(), 7);
    assert!(all.supports(CPU_AVX2 | CPU_NEON | CPU_FMA));
    assert!(!all.supports(8));
    assert!(HOST.supports(0));
    assert!(HOST.supports(CPU_AVX2));
    assert!(!HOST.supports(CPU_NEON));
}

#[test]
fn manifests_admit_only_their_plugin() {
    let manifest = build_manifest("abc".to_string(), b"abc");
    assert_eq!(
        manifest.artifact_sha256,
        "ba7816bf8f01cfea414140de5dae2223b00361a396177a9cb410ff61f20015ad"
    );
    assert_eq!((manifest.format, manifest.abi_version, manifest.file_bytes), (1, ABI_VERSION, 3));
    assert!(manifest.cpu_features.is_empty());
    assert_eq!(verify_manifest(&manifest, b"abc", "p".to_string()), Ok(()));
    let mismatch = Err(PluginError::HashMismatch("p".to_string()));
    assert_eq!(verify_manifest(&manifest, b"abd", "p".to_string()), mismatch);
    assert_eq!(verify_name(&manifest, &"abc".to_string(), "p".to_string()), Ok(()));
    assert_eq!(verify_name(&manifest, &"abd".to_string(), "p".to_string()), mismatch);
    let mut older = manifest_of_digest("abc".to_string(), &[1, 171], 3);
    assert_eq!(older.artifact_sha256, "01ab");
    older.abi_version = 2;
    assert_eq!(verify_manifest(&older, b"abc", "p".to_string()), mismatch);
}

#[test]
fn manifest_files_have_their_suffix() {
    assert_eq!(manifest_path("lib/k.so"), "lib/k.so.manifest.toml");
    assert!(is_manifest("lib/k.so.manifest.toml"));
    assert!(is_manifest(".manifest.toml"));
    assert!(!is_manifest("manifest.toml"));
    assert!(!is_manifest("lib/k.so"));
}

#[test]
fn plugin_sizes_are_limited() {
    assert_eq!(check_size(5, 5), Ok(()));
    assert_eq!(check_size(6, 5), Err(PluginError::TooLarge));
}

#[test]
fn statuses_and_probes_are_judged() {
    assert_eq!(status_result(0), Ok(()));
    assert_eq!(status_result(7), Err(PluginError::KernelStatus(7)));
    assert_eq!(check_determinism(&[1, 2], &[1, 2]), Ok(()));
    assert_eq!(check_determinism(&[1, 2], &[1, 3]), Err(PluginError::KernelStatus(-1)));
    assert_eq!(check_determinism(&[1], &[1, 3]), Err(PluginError::KernelStatus(-1)));
}

/// A kernel that never gives the same answer twice.
struct Restless {
    calls: std::cell::Cell<u32>,
}

impl PluginDispatch for Restless {
    fn run_index(&self, _index: usize, _input: &[u32], output: &mut [u32]) -> Result<(), String> {
        self.calls.set(self.calls.get() + 1);
        output[0] = self.calls.get();
        Ok(())
    }

    fn run_matmul_index(
        &self,
        _index: usize,
        _m: u32,
        _k: u32,
        _n: u32,
        _input: &[u32],
        _output: &mut [u32],
    ) -> Result<(), String> {
        Err("no matmul".to_string())
    }

    fn run_matmul_act_index(
        &self,
        _index: usize,
        _m: u32,
        _k: u32,
        _n: u32,
        _activation: u32,
        _input: &[u32],
        _output: &mut [u32],
    ) -> Result<(), String> {
        Err("no activation".to_string())
    }
}

#[test]
fn probes_repeat_one_input() {
    let values = probe_determinism(&TestKernels, 0, OPERATION_ELEMENTWISE, 1000).expect("passes");
    assert_eq!(floats(&values), [2.0, 3.0, 4.0, 5.0]);
    let values = probe_determinism(&TestKernels, 1, OPERATION_MATMUL, 3).expect("passes");
    assert_eq!(floats(&values), [19.0, 22.0, 43.0, 50.0]);
    let values = probe_determinism(&TestKernels, 2, OPERATION_MATMUL_ACT, 3).expect("passes");
    assert_eq!(floats(&values), [19.0, 22.0, 43.0, 50.0]);
    assert_eq!(
        probe_determinism(&TestKernels, 0, OPERATION_XOR_SHIFT_ADD, 3),
        Err(PluginError::Operation(3))
    );
    let restless = Restless { calls: std::cell::Cell::new(0) };
    assert!(probe_determinism(&restless, 0, OPERATION_ELEMENTWISE, 1).is_ok());
    assert_eq!(
        probe_determinism(&restless, 0, OPERATION_ELEMENTWISE, 2),
        Err(PluginError::KernelStatus(-1))
    );
    assert_eq!(
        probe_determinism(&restless, 0, OPERATION_MATMUL, 2),
        Err(PluginError::Dispatch("no matmul".to_string()))
    );
}

#[test]
fn only_admitted_kernels_are_reached() {
    let registry = test_registry();
    let admitted = AdmittedKernels { registry: &registry, kernels: &TestKernels };
    let input = bits(&[1.0, 2.0]);
    let mut output = [0_u32; 2];
    assert_eq!(admitted.run_index(0, &input, &mut output), Ok(()));
    assert_eq!(floats(&output), [2.0, 3.0]);
    assert_eq!(
        admitted.run_index(9, &input, &mut output),
        Err("admitted plugin is not registered: 9".to_string())
    );
    assert_eq!(
        admitted.run_index(1, &input, &mut output),
        Err("plugin kernel has operation kind 2, the dispatch needs 1".to_string())
    );
    assert_eq!(
        admitted.run_matmul_index(1, 2, 2, 2, &input, &mut output),
        Err("plugin input and output lengths differ".to_string())
    );
    assert_eq!(
        admitted.run_matmul_act_index(9, 1, 1, 1, 0, &input, &mut output[..1]),
        Err("admitted plugin is not registered: 9".to_string())
    );
    assert_eq!(floats(&output), [2.0, 3.0]);
    let mut one = [0_u32; 1];
    assert_eq!(admitted.run_matmul_index(1, 1, 1, 1, &input, &mut one), Ok(()));
    assert_eq!(floats(&one), [2.0]);
}

#[test]
fn errors_are_told_in_full() {
    let told = |error: PluginError| error.message();
    assert_eq!(told(PluginError::TooLarge), "plugin exceeds configured size limit");
    assert_eq!(told(PluginError::NullDescriptor), "plugin returned a null descriptor");
    assert_eq!(told(PluginError::Abi(2)), "unsupported plugin ABI 2");
    assert_eq!(told(PluginError::NullName), "plugin name is null");
    assert_eq!(told(PluginError::NameEncoding), "plugin name is not valid UTF-8");
    assert_eq!(
        told(PluginError::BufferType),
        "plugin descriptor declares unsupported buffer types"
    );
    assert_eq!(
        told(PluginError::CpuFeatures(0x1f)),
        "plugin requires unsupported CPU features: 0x1f"
    );
    assert_eq!(
        told(PluginError::ScratchBytes(12)),
        "plugin declares unsupported scratch memory: 12 bytes"
    );
    assert_eq!(told(PluginError::KernelStatus(-1)), "plugin kernel failed with status -1");
    assert_eq!(
        told(PluginError::KernelStatus(i32::MIN)),
        "plugin kernel failed with status -2147483648"
    );
    assert_eq!(told(PluginError::LengthOverflow), "plugin length does not fit the ABI");
    assert_eq!(
        told(PluginError::ManifestMissing("p".to_string())),
        "plugin manifest is missing for p"
    );
    assert_eq!(
        told(PluginError::HashMismatch("p".to_string())),
        "plugin hash does not match its manifest: p"
    );
}

#[test]
fn installed_kernels_keep_their_order() {
    let registry = test_registry();
    let candidates: Vec<String> = ["none", "test-matmul", "test-elementwise"]
        .iter()
        .map(|name| name.to_string())
        .collect();
    assert_eq!(installed_kernels(&registry, &candidates), ["test-matmul", "test-elementwise"]);
    let handle = KernelHandle { index: 1 };
    assert_eq!(registry.resolve("test-matmul"), Ok(handle));
}

#[test]
fn rounds_are_judged_by_the_first() {
    assert_eq!(judge_rounds(&[]), Ok(()));
    assert_eq!(judge_rounds(&[vec![1, 2]]), Ok(()));
    assert_eq!(judge_rounds(&[vec![1, 2], vec![1, 2], vec![1, 2]]), Ok(()));
    assert_eq!(
        judge_rounds(&[vec![1, 2], vec![1, 2], vec![1, 3]]),
        Err(PluginError::KernelStatus(-1))
    );
    assert_eq!(judge_rounds(&[vec![1], vec![]]), Err(PluginError::KernelStatus(-1)));
}
