use native_machine::allocation::{track, AllocationCounter};
use native_machine::arena::{SessionArena, MAX_VALUES};
use native_machine::artifact::{Artifact, ArtifactError};
use native_machine::benchmark::measurement_ends;
use native_machine::cache::{PlanCache, PlanCacheError};
use native_machine::config::{default_root, show_effective, Config, ConfigError, FileConfig};
use native_machine::executor::ExecutionTrace;
use native_machine::ir::IrError;
use native_machine::ops::{ExecuteError, OPERATION_SECTION};
use native_machine::publish::{create_artifact, create_fixture};
use native_machine::session::{
    create_plan, decode_input, plan_provenance, publish_plan, run_artifact, CreatePlanError,
    InputError, RunError,
};
use native_machine::kernels::abi::{
    OPERATION_ELEMENTWISE, OPERATION_MATMUL, OPERATION_MATMUL_ACT,
};
use native_machine::kernels::reference_matmul::matmul;
use native_machine::ops::PluginDispatch;
use native_machine::plugin::{PluginRegistry, RegistryEntry};

fn sum(left: u32, right: u32) -> u32 {
    (f32::from_bits(left) + f32::from_bits(right)).to_bits()
}

fn bits(values: &[f32]) -> Vec<u32> {
    values.iter().map(|value| value.to_bits()).collect()
}

fn floats(values: &[u32]) -> Vec<f32> {
    values.iter().map(|value| f32::from_bits(*value)).collect()
}

/// Three kernels: add one, matmul, and matmul with activation.
struct TestKernels;

impl PluginDispatch for TestKernels {
    fn run_index(&self, _index: usize, input: &[u32], output: &mut [u32]) -> Result<(), String> {
        for (source, destination) in input.iter().zip(output.iter_mut()) {
            *destination = sum(*source, 1.0_f32.to_bits());
        }
        Ok(())
    }

    fn run_matmul_index(
        &self,
        _index: usize,
        m: u32,
        k: u32,
        n: u32,
        input: &[u32],
        output: &mut [u32],
    ) -> Result<(), String> {
        let step = |left: u32, right: u32, total: u32| {
            (f32::from_bits(total) + f32::from_bits(left) * f32::from_bits(right)).to_bits()
        };
        let (a, b) = input.split_at((m * k) as usize);
        matmul(a, b, output, m as usize, k as usize, n as usize, &step);
        Ok(())
    }

    fn run_matmul_act_index(
        &self,
        index: usize,
        m: u32,
        k: u32,
        n: u32,
        activation: u32,
        input: &[u32],
        output: &mut [u32],
    ) -> Result<(), String> {
        self.run_matmul_index(index, m, k, n, input, output)?;
        if activation == 1 {
            for value in output.iter_mut() {
                *value = f32::from_bits(*value).max(0.0).to_bits();
            }
        }
        Ok(())
    }
}

fn entry(name: &str, operation: u16) -> RegistryEntry<()> {
    RegistryEntry { name: name.to_string(), operation, payload: () }
}

fn test_registry() -> PluginRegistry<()> {
    let mut registry = PluginRegistry::new();
    registry.enlist(entry("test-matmul-act", OPERATION_MATMUL_ACT));
    registry.enlist(entry("test-elementwise", OPERATION_ELEMENTWISE));
    registry.enlist(entry("test-matmul", OPERATION_MATMUL));
    registry
}

fn single(text: String) -> Option<u32> {
    text.parse::<f32>().ok().map(|value| value.to_bits())
}

fn file_of(values: &[f32]) -> Vec<u8> {
    values.iter().flat_map(|value| value.to_le_bytes()).collect()
}

struct Outcome {
    result: Result<(), RunError>,
    output: Vec<f32>,
    segments: usize,
}

fn run(bytes: &[u8], input: &[u8]) -> Outcome {
    let artifact = match Artifact::parse(bytes) {
        Ok(artifact) => artifact,
        Err(_) => panic!("the artifact is valid"),
    };
    let mut arena = SessionArena::new();
    let mut scratch = [0_u32; MAX_VALUES];
    let mut trace = ExecutionTrace::new();
    let result =
        run_artifact(&artifact, input, &mut arena, &mut scratch, &TestKernels, &sum, &mut trace);
    Outcome { result, output: floats(arena.output()), segments: trace.entries().len() }
}

#[test]
fn input_files_hold_little_endian_singles() {
    assert_eq!(decode_input(&file_of(&[1.0, -2.5])), Ok(bits(&[1.0, -2.5])));
    assert_eq!(decode_input(&[]), Ok(vec![]));
    assert_eq!(decode_input(&[0; 5]), Err(InputError::Length));
    assert_eq!(decode_input(&[0; 4 * MAX_VALUES]).map(|values| values.len()), Ok(MAX_VALUES));
    assert_eq!(decode_input(&[0; 4 * MAX_VALUES + 4]), Err(InputError::Capacity));
}

#[test]
fn plan_sources_become_artifacts_that_run() {
    let source = "input 8\nmatmul_act test-matmul-act 2 2 2 1\nelementwise test-elementwise\n";
    let bytes = create_plan("p.plan", source, &test_registry(), &single).expect("plan compiles");
    let artifact = Artifact::parse(&bytes).expect("artifact is valid");
    let section = artifact.section(OPERATION_SECTION).expect("lookup").expect("exists");
    assert_eq!(section.bytes.len(), 32);
    assert!(artifact.provenance_identity().expect("provenance parses").is_some());
    let text = String::from_utf8(bytes[128..].to_vec()).expect("provenance is text");
    assert!(text.starts_with(
        "{\"compiler\":\"native-machine\",\"source\":\"p.plan\",\"plan\":\"sha256:"
    ));
    let outcome = run(&bytes, &file_of(&[1.0, 2.0, 3.0, 4.0, -5.0, 6.0, 7.0, -8.0]));
    assert_eq!(outcome.result, Ok(()));
    assert_eq!(outcome.output, [10.0, 1.0, 14.0, 1.0]);
    assert_eq!(outcome.segments, 2);
}

#[test]
fn every_refused_source_says_why() {
    let registry = test_registry();
    let refused = |source: &str| create_plan("p", source, &registry, &single).err();
    assert!(matches!(
        refused("nonsense"),
        Some(CreatePlanError::Parse(IrError::Parse { line: 1, .. }))
    ));
    assert_eq!(refused("copy"), Some(CreatePlanError::InputLength));
    assert_eq!(
        refused("input 2\nelementwise none"),
        Some(CreatePlanError::Lower(IrError::UnknownKernel("none".to_string())))
    );
    let long = format!("input 2\n{}", "elementwise test-elementwise\n".repeat(17));
    assert_eq!(refused(&long), Some(CreatePlanError::Compile(ExecuteError::PlanSegments)));
    assert_eq!(
        publish_plan("p", "l", &[0; 15]),
        Err(CreatePlanError::Artifact(ArtifactError::OperationAlignment { index: 0, bytes: 16 }))
    );
    assert_eq!(
        plan_provenance("s", "l"),
        "{\"compiler\":\"native-machine\",\"source\":\"s\",\"plan\":\"l\"}"
    );
}

#[test]
fn fixtures_copy_their_input() {
    let bytes = create_fixture().expect("fixture is valid");
    let outcome = run(&bytes, &file_of(&[1.0, 2.0, 3.0, 4.0]));
    assert_eq!(outcome.result, Ok(()));
    assert_eq!(outcome.output, [1.0, 2.0, 3.0, 4.0]);
    assert_eq!(outcome.segments, 1);
}

#[test]
fn every_refused_run_says_why() {
    let bytes = create_fixture().expect("fixture is valid");
    assert_eq!(run(&bytes, &[1]).result, Err(RunError::Input(InputError::Length)));
    let long = vec![0_u8; 4 * MAX_VALUES + 4];
    assert_eq!(run(&bytes, &long).result, Err(RunError::Input(InputError::Capacity)));
    let other = run(&bytes, &file_of(&[1.0]));
    assert_eq!(other.result, Err(RunError::Execute(ExecuteError::RecordChain(0))));
    assert_eq!(other.output.len(), 0);
    assert_eq!(other.segments, 0);
    let mut none = create_artifact(&[], b"{}").expect("artifact is built");
    none[12] = 0;
    assert_eq!(run(&none, &[]).result, Err(RunError::OperationSection));
}

#[test]
fn caches_keep_distinct_plans_once() {
    let records = |value: f32| {
        let mut record = [0_u8; 16];
        record[0] = 1;
        record[4..8].copy_from_slice(&value.to_le_bytes());
        record[8] = 2;
        record[12] = 2;
        record
    };
    let mut cache = PlanCache::new(2);
    let first = cache.get_or_compile(&records(1.0), 2).expect("plan is cached");
    let again = cache.get_or_compile(&records(1.0), 2).expect("plan is cached");
    assert_eq!(first, again);
    assert_eq!(cache.len(), 1);
    let second = cache.get_or_compile(&records(2.0), 2).expect("plan is cached");
    assert_ne!(first, second);
    assert_eq!(
        cache.get_or_compile(&records(3.0), 2),
        Err(PlanCacheError::Full { capacity: 2 })
    );
    assert_eq!(cache.len(), 2);
    assert_eq!(cache.get_or_compile(&records(1.0), 2), Ok(first.clone()));
    assert_eq!(
        cache.get_or_compile(&records(1.0), 3),
        Err(PlanCacheError::Plan(ExecuteError::RecordChain(0)))
    );
    let plan = cache.get(&first).expect("plan is held");
    assert_eq!(plan.identity(), Ok(first));
    assert!(cache.get("sha256:other").is_none());
}

#[test]
fn later_sources_of_the_root_win() {
    let file = |root: Option<&'static str>| FileConfig {
        root,
        max_artifact_bytes: 10,
        max_plugin_bytes: 20,
    };
    let load = |cli, environment, home, file| Config::load(cli, environment, home, file);
    let root = |config: Result<Config<&'static str>, ConfigError>| config.map(|value| value.root);
    assert_eq!(
        root(load(Some("cli"), Some("env"), Some("home"), Some(file(Some("file"))))),
        Ok("cli")
    );
    assert_eq!(
        root(load(None, Some("env"), Some("home"), Some(file(Some("file"))))),
        Ok("env")
    );
    assert_eq!(root(load(None, None, Some("home"), Some(file(Some("file"))))), Ok("file"));
    assert_eq!(root(load(None, None, Some("home"), Some(file(None)))), Ok("home"));
    assert_eq!(root(load(None, None, None, None)), Err(ConfigError::HomeUnavailable));
    let config: Config<&str> = match Config::load(None, None, Some("home"), None) {
        Ok(config) => config,
        Err(_) => panic!("the home directory is there"),
    };
    assert_eq!(config.max_artifact_bytes, 4 * 1024 * 1024 * 1024);
    assert_eq!(config.max_plugin_bytes, 128 * 1024 * 1024);
    assert_eq!(default_root(None, None, Some("home")), Ok("home"));
    assert_eq!(default_root::<&str>(None, None, None), Err(ConfigError::HomeUnavailable));
}

#[test]
fn initialisation_keeps_an_existing_file() {
    let config = Config { root: "r", max_artifact_bytes: 1, max_plugin_bytes: 2 };
    assert_eq!(config.clone().init(false, true), None);
    let written = config.clone().init(false, false).expect("a file is written");
    assert_eq!(
        written,
        FileConfig { root: Some("r"), max_artifact_bytes: 1, max_plugin_bytes: 2 }
    );
    assert_eq!(config.clone().init(true, true), Some(written.clone()));
    assert_eq!(Config::load(None, None, Some("home"), Some(written)), Ok(config));
    assert_eq!(
        show_effective("r", 1, 2),
        "root = r\nmax_artifact_bytes = 1\nmax_plugin_bytes = 2"
    );
}

#[test]
fn allocations_count_only_while_tracked() {
    let mut counter = AllocationCounter::idle();
    counter.record();
    let first = track(&mut counter);
    assert_eq!(first.count(&counter), 0);
    counter.record();
    counter.record();
    assert_eq!(first.count(&counter), 2);
    assert_eq!(first.count(&counter), 2);
    let second = track(&mut counter);
    assert_eq!((first.count(&counter), second.count(&counter)), (0, 0));
    counter.record();
    assert_eq!((first.count(&counter), second.count(&counter)), (1, 1));
    second.stop(&mut counter);
    counter.record();
    assert_eq!(second.count(&counter), 1);
}

#[test]
fn measurements_end_after_the_budget() {
    assert!(measurement_ends(16, 200));
    assert!(measurement_ends(32, 1000));
    assert!(!measurement_ends(16, 199));
    assert!(!measurement_ends(17, 200));
}

#[test]
fn caches_keep_the_first_plan_under_an_address() {
    let records = |length: u8| {
        let mut record = [0_u8; 16];
        record[8] = length;
        record[12] = length;
        record
    };
    let mut cache = PlanCache::new(2);
    let first = cache.get_or_compile(&records(2), 2).expect("plan is cached");
    let second = cache.get_or_compile(&records(3), 3).expect("plan is cached");
    assert_eq!(first, second);
    assert_eq!(cache.len(), 1);
    assert_eq!(cache.get(&second).expect("plan is held").input_length(), 2);
}

#[test]
fn partial_records_are_not_published() {
    assert_eq!(
        publish_plan("plan", "sha256:label", &[0; 17]),
        Err(CreatePlanError::Artifact(ArtifactError::OperationAlignment { index: 0, bytes: 16 }))
    );
}
