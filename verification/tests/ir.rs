use native_machine::arena::MAX_VALUES;
use native_machine::ir::{parse_f32, parse_u16, parse_u32, IrError, IrOp, IrPlan};
use native_machine::lowering::{compare_outputs, MISSING_VALUE};
use native_machine::ops::{ExecuteError, OPERATION_BYTES};
use native_machine::source::{characters, lines, strip_comment, trim, words};
use native_machine::kernels::abi::{
    OPERATION_ELEMENTWISE, OPERATION_MATMUL, OPERATION_MATMUL_ACT,
};
use native_machine::kernels::reference_matmul::matmul;
use native_machine::ops::PluginDispatch;
use native_machine::plugin::{PluginRegistry, RegistryEntry};

fn sum(left: u32, right: u32) -> u32 {
    (f32::from_bits(left) + f32::from_bits(right)).to_bits()
}

fn bits(values: &[f32]) -> Vec<u32> {
    values.iter().map(|value| value.to_bits()).collect()
}

fn floats(values: &[u32]) -> Vec<f32> {
    values.iter().map(|value| f32::from_bits(*value)).collect()
}

/// Three kernels: add one, matmul, and matmul with activation.
struct TestKernels;

impl PluginDispatch for TestKernels {
    fn run_index(&self, _index: usize, input: &[u32], output: &mut [u32]) -> Result<(), String> {
        for (source, destination) in input.iter().zip(output.iter_mut()) {
            *destination = sum(*source, 1.0_f32.to_bits());
        }
        Ok(())
    }

    fn run_matmul_index(
        &self,
        _index: usize,
        m: u32,
        k: u32,
        n: u32,
        input: &[u32],
        output: &mut [u32],
    ) -> Result<(), String> {
        let step = |left: u32, right: u32, total: u32| {
            (f32::from_bits(total) + f32::from_bits(left) * f32::from_bits(right)).to_bits()
        };
        let (a, b) = input.split_at((m * k) as usize);
        matmul(a, b, output, m as usize, k as usize, n as usize, &step);
        Ok(())
    }

    fn run_matmul_act_index(
        &self,
        index: usize,
        m: u32,
        k: u32,
        n: u32,
        activation: u32,
        input: &[u32],
        output: &mut [u32],
    ) -> Result<(), String> {
        self.run_matmul_index(index, m, k, n, input, output)?;
        if activation == 1 {
            for value in output.iter_mut() {
                *value = f32::from_bits(*value).max(0.0).to_bits();
            }
        }
        Ok(())
    }
}

fn entry(name: &str, operation: u16) -> RegistryEntry<()> {
    RegistryEntry { name: name.to_string(), operation, payload: () }
}

fn test_registry() -> PluginRegistry<()> {
    let mut registry = PluginRegistry::new();
    registry.enlist(entry("test-matmul-act", OPERATION_MATMUL_ACT));
    registry.enlist(entry("test-elementwise", OPERATION_ELEMENTWISE));
    registry.enlist(entry("test-matmul", OPERATION_MATMUL));
    registry
}

fn single(text: String) -> Option<u32> {
    text.parse::<f32>().ok().map(|value| value.to_bits())
}

fn parsed(source: &str) -> IrPlan {
    IrPlan::parse(source, &single).expect("source parses")
}

#[test]
fn lowers_add_scalar_and_validates_kernel_kinds() {
    let registry = test_registry();
    let mut plan = IrPlan::new();
    plan.push(IrOp::AddScalar { value: 1.0_f32.to_bits() });
    plan.push(IrOp::PluginElementwise {
        kernel: "test-elementwise".to_owned(),
    });
    let records = plan.lower(&registry, 0).expect("lowering succeeds");
    assert_eq!(records.len(), 2 * OPERATION_BYTES);
    let mut wrong_kind = IrPlan::new();
    wrong_kind.push(IrOp::PluginElementwise {
        kernel: "test-matmul".to_owned(),
    });
    assert!(matches!(
        wrong_kind.lower(&registry, 0),
        Err(IrError::KernelKind { .. })
    ));
    let mut missing = IrPlan::new();
    missing.push(IrOp::PluginElementwise {
        kernel: "missing".to_owned(),
    });
    assert!(matches!(
        missing.lower(&registry, 0),
        Err(IrError::UnknownKernel(_))
    ));
}

#[test]
fn records_have_fixed_places() {
    let plan = parsed(
        "copy\nadd_scalar 1\nelementwise test-elementwise\nmatmul test-matmul 2 2 2\n\
         matmul_act test-matmul-act 1 2 1 1\n",
    );
    let records = plan.lower(&test_registry(), 8).expect("lowering succeeds");
    assert_eq!(
        records,
        [
            [0, 0, 0, 0, 0, 0, 0, 0, 8, 0, 0, 0, 8, 0, 0, 0],
            [1, 0, 0, 0, 0, 0, 128, 63, 8, 0, 0, 0, 8, 0, 0, 0],
            [2, 0, 0, 0, 0, 0, 0, 0, 8, 0, 0, 0, 8, 0, 0, 0],
            [3, 0, 1, 0, 2, 0, 0, 0, 2, 0, 0, 0, 2, 0, 0, 0],
            [4, 0, 2, 0, 1, 0, 2, 0, 1, 0, 1, 0, 0, 0, 0, 0],
        ]
        .concat()
    );
    let broken = parsed("copy\nmatmul test-matmul 2 2 3\n");
    assert_eq!(broken.lower(&test_registry(), 8), Err(IrError::Chain { index: 1 }));
    let huge = parsed("matmul test-matmul 4294967295 4294967295 4294967295\n");
    assert_eq!(huge.lower(&test_registry(), 8), Err(IrError::Chain { index: 0 }));
}

#[test]
fn certifies_copy_and_exposes_ops() {
    let registry = test_registry();
    let mut plan = IrPlan::new();
    plan.push(IrOp::Copy);
    plan.push(IrOp::AddScalar { value: 1.0_f32.to_bits() });
    assert_eq!(plan.ops().len(), 2);
    assert_eq!(plan.ops()[0], IrOp::Copy);
    let input = bits(&[4.0_f32, -1.0, 0.25]);
    let mut scratch = [0_u32; MAX_VALUES];
    let output = plan
        .certify(&input, &registry, &mut scratch, &TestKernels, &sum)
        .expect("plan certifies");
    assert_eq!(floats(&output), [5.0, 0.0, 1.25]);
}

#[test]
fn parses_plan_source() {
    let source =
        "# a fused plan\ninput 8\n\nmatmul_act avx2-fma-matmul-act 2 2 2 1\nadd_scalar 0.5\n";
    let plan = parsed(source);
    assert_eq!(plan.input_length(), Some(8));
    assert_eq!(plan.ops().len(), 2);
    assert_eq!(
        plan.ops()[0],
        IrOp::MatmulAct {
            kernel: "avx2-fma-matmul-act".to_owned(),
            m: 2,
            k: 2,
            n: 2,
            activation: 1,
        }
    );
}

#[test]
fn parse_reports_line_numbers() {
    assert!(matches!(
        IrPlan::parse("input 4\nbogus op\n", &single),
        Err(IrError::Parse { line: 2, .. })
    ));
    assert!(matches!(
        IrPlan::parse("input 4\ninput 8\n", &single),
        Err(IrError::Parse { line: 2, .. })
    ));
    assert!(matches!(
        IrPlan::parse("add_scalar elephant\n", &single),
        Err(IrError::Parse { line: 1, .. })
    ));
}

fn message(source: &str) -> (usize, String) {
    match IrPlan::parse(source, &single) {
        Err(IrError::Parse { line, message }) => (line, message),
        _ => panic!("the source must be refused"),
    }
}

#[test]
fn parse_messages_quote_the_source() {
    assert_eq!(message("copy\n  bogus  op # x\n"), (2, "unrecognized operation: bogus  op".to_string()));
    assert_eq!(message("input 1\r\ninput 2"), (2, "duplicate input directive".to_string()));
    assert_eq!(message("input -1"), (1, "invalid dimension: -1".to_string()));
    assert_eq!(message("matmul k 1 4294967296 1"), (1, "invalid dimension: 4294967296".to_string()));
    assert_eq!(message("matmul_act k 1 1 65536 0"), (1, "invalid dimension: 65536".to_string()));
    assert_eq!(message("add_scalar x"), (1, "invalid number: x".to_string()));
    assert_eq!(message("copy copy"), (1, "unrecognized operation: copy copy".to_string()));
    assert_eq!(message("COPY"), (1, "unrecognized operation: COPY".to_string()));
}

#[test]
fn numbers_follow_the_integer_grammar() {
    let token = |text: &str| characters(text);
    assert_eq!(parse_u32(&token("+7"), 1), Ok(7));
    assert_eq!(parse_u32(&token("0007"), 1), Ok(7));
    assert_eq!(parse_u32(&token("4294967295"), 1), Ok(u32::MAX));
    assert!(parse_u32(&token(""), 1).is_err());
    assert!(parse_u32(&token("+"), 1).is_err());
    assert!(parse_u32(&token("1_0"), 1).is_err());
    assert_eq!(parse_u16(&token("65535"), 1), Ok(u16::MAX));
    assert!(parse_u16(&token("65536"), 3).is_err());
    assert_eq!(parse_f32(&token("1.5"), 1, &single), Ok(1.5_f32.to_bits()));
    assert_eq!(
        parse_f32(&token("1.5.5"), 3, &single),
        Err(IrError::Parse { line: 3, message: "invalid number: 1.5.5".to_string() })
    );
}

#[test]
fn sources_split_as_text_does() {
    for text in ["", "a", "a\n", "a\r\nb", "a\rb\n\n c\u{2003}d ", "x # y # z", "\u{85}q\u{a0}"] {
        let source = characters(text);
        let expected: Vec<Vec<char>> = text.split('\n').map(|line| line.chars().collect()).collect();
        assert_eq!(lines(&source), expected, "{text:?}");
        let expected: Vec<Vec<char>> =
            text.split_whitespace().map(|word| word.chars().collect()).collect();
        assert_eq!(words(&source), expected, "{text:?}");
        let expected: Vec<char> = text.trim().chars().collect();
        assert_eq!(trim(&source), expected, "{text:?}");
        let expected: Vec<char> = text.split('#').next().unwrap_or("").chars().collect();
        assert_eq!(strip_comment(&source), expected, "{text:?}");
    }
}

#[test]
fn certifies_parsed_source_end_to_end() {
    let registry = test_registry();
    let plan = parsed("input 8\nmatmul_act test-matmul-act 2 2 2 1\nelementwise test-elementwise\n");
    let input = bits(&[1.0_f32, 2.0, 3.0, 4.0, -5.0, 6.0, 7.0, -8.0]);
    let mut scratch = [0_u32; MAX_VALUES];
    let output = plan
        .certify(&input, &registry, &mut scratch, &TestKernels, &sum)
        .expect("plan certifies");
    assert_eq!(floats(&output), vec![10.0, 1.0, 14.0, 1.0]);
}

struct TestRng(u64);

impl TestRng {
    fn next(&mut self) -> u64 {
        let mut x = self.0;
        x ^= x << 13;
        x ^= x >> 7;
        x ^= x << 17;
        self.0 = x;
        x
    }
}

#[test]
fn parse_never_panics_on_random_source() {
    let mut rng = TestRng(0x2545_F491_4F6C_DD1D);
    let alphabet: Vec<char> = "abcdefghilmnprstuw_0123456789.- \t\n#".chars().collect();
    for _ in 0..5_000 {
        let length = (rng.next() % 80) as usize;
        let source: String = (0..length)
            .map(|_| alphabet[(rng.next() as usize) % alphabet.len()])
            .collect();
        let first = IrPlan::parse(&source, &single);
        let second = IrPlan::parse(&source, &single);
        match (&first, &second) {
            (Ok(first), Ok(second)) => {
                assert_eq!(first.ops(), second.ops());
                assert_eq!(first.input_length(), second.input_length());
            }
            (Err(first), Err(second)) => {
                assert_eq!(format!("{first:?}"), format!("{second:?}"));
            }
            _ => panic!("parse is nondeterministic on {source:?}"),
        }
    }
}

#[test]
fn certifies_fused_matmul_chain() {
    let registry = test_registry();
    let mut plan = IrPlan::new();
    plan.push(IrOp::MatmulAct {
        kernel: "test-matmul-act".to_owned(),
        m: 2,
        k: 2,
        n: 2,
        activation: 1,
    });
    plan.push(IrOp::AddScalar { value: 0.5_f32.to_bits() });
    let input = bits(&[1.0_f32, 2.0, 3.0, 4.0, -5.0, 6.0, 7.0, -8.0]);
    let mut scratch = [0_u32; MAX_VALUES];
    let output = plan
        .certify(&input, &registry, &mut scratch, &TestKernels, &sum)
        .expect("plan certifies");
    assert_eq!(floats(&output), vec![9.5, 0.5, 13.5, 0.5]);
}

#[test]
fn certifies_elementwise_chain_with_plugin() {
    let registry = test_registry();
    let mut plan = IrPlan::new();
    plan.push(IrOp::AddScalar { value: 1.0_f32.to_bits() });
    plan.push(IrOp::PluginElementwise {
        kernel: "test-elementwise".to_owned(),
    });
    plan.push(IrOp::AddScalar { value: (-2.0_f32).to_bits() });
    let input = bits(&[1.0_f32, -2.0, 3.5, 0.0]);
    let mut scratch = [0_u32; MAX_VALUES];
    let output = plan
        .certify(&input, &registry, &mut scratch, &TestKernels, &sum)
        .expect("plan certifies");
    assert_eq!(floats(&output), vec![1.0, -2.0, 3.5, 0.0]);
}

#[test]
fn certifies_matmul_then_relu_chain() {
    let registry = test_registry();
    let mut plan = IrPlan::new();
    plan.push(IrOp::Matmul {
        kernel: "test-matmul".to_owned(),
        m: 2,
        k: 3,
        n: 2,
    });
    plan.push(IrOp::PluginElementwise {
        kernel: "test-elementwise".to_owned(),
    });
    let input: Vec<f32> = (1..=12).map(|value| value as f32).collect();
    let mut scratch = [0_u32; MAX_VALUES];
    let output = plan
        .certify(&bits(&input), &registry, &mut scratch, &TestKernels, &sum)
        .expect("plan certifies");
    assert_eq!(floats(&output), vec![59.0, 65.0, 140.0, 155.0]);
}

#[test]
fn certification_reports_what_fails() {
    let registry = test_registry();
    let mut scratch = [0_u32; MAX_VALUES];
    let plan = parsed("copy");
    let long = vec![0_u32; MAX_VALUES + 1];
    assert_eq!(
        plan.certify(&long, &registry, &mut scratch, &TestKernels, &sum),
        Err(IrError::InputTooLarge { required: MAX_VALUES + 1, capacity: MAX_VALUES })
    );
    let segments = "elementwise test-elementwise\n".repeat(17);
    assert_eq!(
        parsed(&segments).certify(&[0], &registry, &mut scratch, &TestKernels, &sum),
        Err(IrError::Compile(ExecuteError::PlanSegments))
    );
    let mut short = [0_u32; 1];
    assert!(matches!(
        plan.certify(&[0, 0], &registry, &mut short, &TestKernels, &sum),
        Err(IrError::Execute(ExecuteError::Arena(_)))
    ));
    assert_eq!(compare_outputs(&[1, 2], &[1, 2]), Ok(()));
    assert_eq!(
        compare_outputs(&[1, 2], &[1, 3]),
        Err(IrError::Certification { index: 1, plan: 2, reference: 3 })
    );
    assert_eq!(
        compare_outputs(&[1], &[1, 3]),
        Err(IrError::Certification { index: 1, plan: MISSING_VALUE, reference: MISSING_VALUE })
    );
}

#[test]
fn layout_does_not_change_the_plan() {
    let plain = parsed("input 4\nadd_scalar 0.5\nelementwise relu\ncopy");
    for source in [
        "input 4\n\n \t\nadd_scalar 0.5\n# add_scalar 9\nelementwise relu\ncopy",
        "input 4 # values\nadd_scalar 0.5#half\nelementwise relu # #\ncopy #",
        "  input\t 4\r\n\tadd_scalar   0.5 \r\nelementwise \t relu\r\n copy\r\n",
        "\n# plan\ninput 4\nadd_scalar 0.5\nelementwise relu\ncopy\n\n# end",
    ] {
        let plan = parsed(source);
        assert_eq!(plan.ops(), plain.ops());
        assert_eq!(plan.input_length(), plain.input_length());
    }
    // A gap between two words is needed.
    assert!(IrPlan::parse("input4", &single).is_err());
}
