use native_machine::arena::{copy_values, ArenaError, SessionArena, MAX_VALUES};
use native_machine::executor::{
    execute_chain_with_plugins, execute_compiled_plan, execute_compiled_plan_traced,
    run_builtin_segment, ExecutionTrace,
};
use native_machine::identity::plan_identity_of_outcome;
use native_machine::ops::{
    add_scalar_in_place, copy_add, execute, execute_records, execute_records_with_plugins,
    execute_records_with_scratch, execute_with_scratch, ExecuteError, Operation, PluginDispatch,
    OPERATION_BYTES, PLUGIN_MATMUL_ACT_OPCODE, PLUGIN_MATMUL_OPCODE, PLUGIN_OPCODE,
};
use native_machine::plan::{compile_plan, PlanSegment, MAX_PLAN_SEGMENTS};

fn sum(left: u32, right: u32) -> u32 {
    (f32::from_bits(left) + f32::from_bits(right)).to_bits()
}

fn bits(values: &[f32]) -> Vec<u32> {
    values.iter().map(|value| value.to_bits()).collect()
}

fn floats(values: &[u32]) -> Vec<f32> {
    values.iter().map(|value| f32::from_bits(*value)).collect()
}

fn loaded(values: &[f32]) -> SessionArena {
    let mut arena = SessionArena::new();
    arena.load_input(&bits(values)).expect("input fits");
    arena
}

#[test]
fn rejects_input_that_does_not_fit() {
    let mut arena = SessionArena::new();
    let values = [0_u32; MAX_VALUES + 1];
    assert!(matches!(
        arena.load_input(&values),
        Err(ArenaError::InputTooLarge { .. })
    ));
}

#[test]
fn the_arena_hands_out_both_buffers() {
    let mut arena = SessionArena::default();
    arena.load_input(&[1, 2, 3]).expect("input fits");
    assert_eq!(arena.input(), &[1, 2, 3]);
    assert_eq!(arena.output().len(), 0);
    arena.output_mut(2).expect("output fits").copy_from_slice(&[8, 9]);
    assert_eq!(arena.output(), &[8, 9]);
    let (input, output) = arena.input_and_output_mut(3).expect("output fits");
    assert_eq!(input, &[1, 2, 3]);
    assert_eq!(output, &[8, 9, 0]);
    assert_eq!(
        arena.output_mut(MAX_VALUES + 1).err(),
        Some(ArenaError::OutputTooLarge { required: MAX_VALUES + 1, capacity: MAX_VALUES })
    );
    assert_eq!(arena.output(), &[8, 9, 0]);
    let mut target = [7_u32, 7, 7];
    copy_values(&[1, 2], &mut target);
    assert_eq!(target, [1, 2, 7]);
}

#[test]
fn scalar_operation_is_deterministic() {
    let mut arena = loaded(&[1.0, 2.0, 3.0]);
    execute(&mut arena, Operation::AddScalar { value: 1.0_f32.to_bits() }, &sum)
        .expect("operation succeeds");
    assert_eq!(floats(arena.output()), &[2.0, 3.0, 4.0]);
}

#[test]
fn copy_operation_preserves_values() {
    let mut arena = loaded(&[4.0, 5.0]);
    execute(&mut arena, Operation::Copy, &sum).expect("operation succeeds");
    assert_eq!(floats(arena.output()), &[4.0, 5.0]);
}

#[test]
fn short_scratch_is_refused() {
    let mut arena = loaded(&[1.0, 2.0]);
    let mut scratch = [0_u32; 1];
    assert_eq!(
        execute_with_scratch(&mut arena, Operation::Copy, &mut scratch, &sum),
        Err(ExecuteError::Arena(ArenaError::InputTooLarge { required: 2, capacity: 1 }))
    );
    assert_eq!(arena.output().len(), 0);
}

#[test]
fn additions_run_over_every_value() {
    let one = 1.0_f32.to_bits();
    let mut output = [0_u32; 3];
    copy_add(&sum, &bits(&[1.0, 2.0, 3.0]), &mut output, one);
    assert_eq!(floats(&output), &[2.0, 3.0, 4.0]);
    add_scalar_in_place(&sum, &mut output, one);
    assert_eq!(floats(&output), &[3.0, 4.0, 5.0]);
    let mut long = vec![0_u32; 600];
    run_builtin_segment(&sum, &[one, one, one], &vec![one; 600], &mut long);
    assert_eq!(floats(&long), vec![4.0; 600]);
    run_builtin_segment(&sum, &[], &[5, 6], &mut long[..2]);
    assert_eq!(&long[..2], &[5, 6]);
}

#[test]
fn executes_fixed_width_record() {
    let mut arena = loaded(&[1.0, 2.0]);
    let mut record = [0_u8; OPERATION_BYTES];
    record[0..2].copy_from_slice(&1_u16.to_le_bytes());
    record[4..8].copy_from_slice(&1.0_f32.to_le_bytes());
    record[8..12].copy_from_slice(&2_u32.to_le_bytes());
    record[12..16].copy_from_slice(&2_u32.to_le_bytes());
    execute_records(&mut arena, &record, &sum).expect("record executes");
    assert_eq!(floats(arena.output()), &[2.0, 3.0]);
}

#[test]
fn rejects_unknown_opcode() {
    let mut arena = loaded(&[1.0]);
    let mut record = [0_u8; OPERATION_BYTES];
    record[0..2].copy_from_slice(&99_u16.to_le_bytes());
    record[8..12].copy_from_slice(&1_u32.to_le_bytes());
    record[12..16].copy_from_slice(&1_u32.to_le_bytes());
    assert!(matches!(
        execute_records(&mut arena, &record, &sum),
        Err(ExecuteError::UnknownOpcode(0, 99))
    ));
}

struct TestPlugin;

impl PluginDispatch for TestPlugin {
    fn run_index(&self, index: usize, input: &[u32], output: &mut [u32]) -> Result<(), String> {
        if index != 0 {
            return Err("unexpected plugin".to_string());
        }
        for (source, destination) in input.iter().zip(output.iter_mut()) {
            *destination = sum(*source, 2.0_f32.to_bits());
        }
        Ok(())
    }

    fn run_matmul_index(
        &self,
        _index: usize,
        m: u32,
        k: u32,
        n: u32,
        input: &[u32],
        output: &mut [u32],
    ) -> Result<(), String> {
        let (m, k, n) = (m as usize, k as usize, n as usize);
        let values = floats(input);
        for row in 0..m {
            for column in 0..n {
                let mut total = 0.0_f32;
                for inner in 0..k {
                    total += values[row * k + inner] * values[m * k + inner * n + column];
                }
                output[row * n + column] = total.to_bits();
            }
        }
        Ok(())
    }

    fn run_matmul_act_index(
        &self,
        index: usize,
        m: u32,
        k: u32,
        n: u32,
        activation: u32,
        input: &[u32],
        output: &mut [u32],
    ) -> Result<(), String> {
        self.run_matmul_index(index, m, k, n, input, output)?;
        if activation == 1 {
            for value in output.iter_mut() {
                *value = f32::from_bits(*value).max(0.0).to_bits();
            }
        }
        Ok(())
    }
}

fn chain_records(values: &[(u16, f32)], length: u32) -> Vec<u8> {
    let mut records = Vec::new();
    for (opcode, value) in values {
        let mut record = [0_u8; OPERATION_BYTES];
        record[0..2].copy_from_slice(&opcode.to_le_bytes());
        record[4..8].copy_from_slice(&value.to_le_bytes());
        record[8..12].copy_from_slice(&length.to_le_bytes());
        record[12..16].copy_from_slice(&length.to_le_bytes());
        records.extend_from_slice(&record);
    }
    records
}

fn matmul_record(m: u32, k: u32, n: u32) -> [u8; OPERATION_BYTES] {
    let mut record = [0_u8; OPERATION_BYTES];
    record[0..2].copy_from_slice(&PLUGIN_MATMUL_OPCODE.to_le_bytes());
    record[4..8].copy_from_slice(&m.to_le_bytes());
    record[8..12].copy_from_slice(&k.to_le_bytes());
    record[12..16].copy_from_slice(&n.to_le_bytes());
    record
}

fn matmul_act_record(m: u16, k: u16, n: u16, activation: u16) -> [u8; OPERATION_BYTES] {
    let mut record = [0_u8; OPERATION_BYTES];
    record[0..2].copy_from_slice(&PLUGIN_MATMUL_ACT_OPCODE.to_le_bytes());
    record[4..6].copy_from_slice(&m.to_le_bytes());
    record[6..8].copy_from_slice(&k.to_le_bytes());
    record[8..10].copy_from_slice(&n.to_le_bytes());
    record[10..12].copy_from_slice(&activation.to_le_bytes());
    record
}

#[test]
fn chained_builtin_records_match_sequential_passes() {
    let mut arena = loaded(&[1.0, 2.0, 3.0]);
    let records = chain_records(&[(1, 1.0), (1, 2.0), (1, 3.0)], 3);
    let mut scratch = [0_u32; MAX_VALUES];
    execute_chain_with_plugins(&mut arena, &records, &mut scratch, &TestPlugin, &sum)
        .expect("chain executes");
    assert_eq!(floats(arena.output()), &[7.0, 8.0, 9.0]);
    for (index, value) in [1.0_f32, 2.0, 3.0].iter().enumerate() {
        let sequential = ((value + 1.0) + 2.0) + 3.0;
        assert_eq!(arena.output()[index], sequential.to_bits());
    }
}

#[test]
fn chain_dispatches_plugin_between_builtin_runs() {
    let mut arena = loaded(&[1.0, 2.0]);
    let records = chain_records(&[(1, 1.0), (PLUGIN_OPCODE, 0.0), (1, 1.0)], 2);
    let mut scratch = [0_u32; MAX_VALUES];
    execute_chain_with_plugins(&mut arena, &records, &mut scratch, &TestPlugin, &sum)
        .expect("chain executes");
    assert_eq!(floats(arena.output()), &[5.0, 6.0]);
}

#[test]
fn chain_result_lands_in_output_for_even_segment_counts() {
    let mut arena = loaded(&[1.0, 2.0]);
    let records = chain_records(&[(PLUGIN_OPCODE, 0.0), (1, 1.0)], 2);
    let mut scratch = [0_u32; MAX_VALUES];
    execute_chain_with_plugins(&mut arena, &records, &mut scratch, &TestPlugin, &sum)
        .expect("chain executes");
    assert_eq!(floats(arena.output()), &[4.0, 5.0]);
}

#[test]
fn chain_rejects_length_break() {
    let mut arena = loaded(&[1.0, 2.0]);
    let mut records = chain_records(&[(1, 1.0)], 2);
    let mut record = [0_u8; OPERATION_BYTES];
    record[0..2].copy_from_slice(&1_u16.to_le_bytes());
    record[8..12].copy_from_slice(&4_u32.to_le_bytes());
    record[12..16].copy_from_slice(&4_u32.to_le_bytes());
    records.extend_from_slice(&record);
    let mut scratch = [0_u32; MAX_VALUES];
    assert!(matches!(
        execute_chain_with_plugins(&mut arena, &records, &mut scratch, &TestPlugin, &sum),
        Err(ExecuteError::RecordChain(1))
    ));
    assert_eq!(arena.output().len(), 0);
}

#[test]
fn chain_rejects_unknown_opcode() {
    let mut arena = loaded(&[1.0, 2.0]);
    let records = chain_records(&[(99, 0.0)], 2);
    let mut scratch = [0_u32; MAX_VALUES];
    assert!(matches!(
        execute_chain_with_plugins(&mut arena, &records, &mut scratch, &TestPlugin, &sum),
        Err(ExecuteError::UnknownOpcode(0, 99))
    ));
}

#[test]
fn compiled_plan_matches_chained_executor_bitwise() {
    let input = [1.0_f32, -2.0, 3.5];
    let records = chain_records(&[(1, 1.0), (PLUGIN_OPCODE, 0.0), (1, 0.5), (1, 0.25)], 3);
    let mut chained_arena = loaded(&input);
    let mut chained_scratch = [0_u32; MAX_VALUES];
    execute_chain_with_plugins(
        &mut chained_arena,
        &records,
        &mut chained_scratch,
        &TestPlugin,
        &sum,
    )
    .expect("chain executes");
    let mut compiled_arena = loaded(&input);
    let plan = match compile_plan(&records, input.len()) {
        Ok(plan) => plan,
        Err(_) => panic!("plan compiles"),
    };
    let mut compiled_scratch = [0_u32; MAX_VALUES];
    execute_compiled_plan(
        &mut compiled_arena,
        &plan,
        &mut compiled_scratch,
        &TestPlugin,
        &sum,
    )
    .expect("plan executes");
    assert_eq!(chained_arena.output().len(), compiled_arena.output().len());
    for (chained, compiled) in chained_arena.output().iter().zip(compiled_arena.output()) {
        assert_eq!(chained, compiled);
    }
    assert_eq!(floats(compiled_arena.output()), &[4.75, 1.75, 7.25]);
}

#[test]
fn long_fused_run_splits_segments_and_stays_correct() {
    let mut arena = loaded(&[1.0, 2.0]);
    let records = chain_records(&vec![(1, 0.5); 70], 2);
    let plan = match compile_plan(&records, 2) {
        Ok(plan) => plan,
        Err(_) => panic!("plan compiles"),
    };
    assert!(plan.segments().len() > 1);
    let mut scratch = [0_u32; MAX_VALUES];
    execute_compiled_plan(&mut arena, &plan, &mut scratch, &TestPlugin, &sum)
        .expect("plan executes");
    assert_eq!(floats(arena.output()), &[36.0, 37.0]);
}

#[test]
fn compiled_plan_rejects_length_mismatch() {
    let mut arena = loaded(&[1.0, 2.0]);
    let records = chain_records(&[(1, 1.0)], 3);
    let plan = match compile_plan(&records, 3) {
        Ok(plan) => plan,
        Err(_) => panic!("plan compiles"),
    };
    let mut scratch = [0_u32; MAX_VALUES];
    assert!(matches!(
        execute_compiled_plan(&mut arena, &plan, &mut scratch, &TestPlugin, &sum),
        Err(ExecuteError::PlanLength {
            expected: 3,
            actual: 2
        })
    ));
}

fn identity(records: &[u8], length: usize) -> String {
    match compile_plan(records, length) {
        Ok(plan) => plan.identity().expect("identity computes"),
        Err(_) => panic!("plan compiles"),
    }
}

#[test]
fn plan_identity_is_stable_and_content_addressed() {
    let records = chain_records(&[(1, 1.0), (PLUGIN_OPCODE, 0.0)], 2);
    let first = identity(&records, 2);
    let second = identity(&records, 2);
    assert_eq!(first, second);
    let different = identity(&chain_records(&[(1, 2.0), (PLUGIN_OPCODE, 0.0)], 2), 2);
    assert_ne!(first, different);
    assert!(first.starts_with("sha256:"));
    assert_eq!(
        plan_identity_of_outcome(Err("InvalidJson".to_string())),
        Err(ExecuteError::Identity("InvalidJson".to_string()))
    );
}

#[test]
fn plan_documents_list_every_segment() {
    let mut records = chain_records(&[(1, 1.0), (0, 0.0), (1, 2.0), (PLUGIN_OPCODE, 0.0)], 8);
    records.extend_from_slice(&matmul_record(2, 2, 2));
    let plan = match compile_plan(&records, 8) {
        Ok(plan) => plan,
        Err(_) => panic!("plan compiles"),
    };
    assert_eq!(
        plan.document(),
        "{\"format\":\"native-machine-plan\",\"version\":1,\"segments\":[\
         {\"kind\":\"builtin\",\"operands\":[1065353216,1073741824]},\
         {\"kind\":\"plugin\",\"index\":0},\
         {\"kind\":\"matmul\",\"index\":0,\"m\":2,\"k\":2,\"n\":2}]}"
    );
    let plan = match compile_plan(&matmul_act_record(2, 2, 2, 1), 8) {
        Ok(plan) => plan,
        Err(_) => panic!("plan compiles"),
    };
    assert_eq!(
        plan.document(),
        "{\"format\":\"native-machine-plan\",\"version\":1,\"segments\":[\
         {\"kind\":\"matmul_act\",\"index\":0,\"m\":2,\"k\":2,\"n\":2,\"activation\":1}]}"
    );
    assert_eq!((plan.input_length(), plan.output_length(), plan.peak_length()), (8, 4, 8));
}

#[test]
fn copies_fuse_into_runs() {
    let plan = match compile_plan(&chain_records(&[(0, 0.0), (1, 1.0), (0, 0.0)], 2), 2) {
        Ok(plan) => plan,
        Err(_) => panic!("plan compiles"),
    };
    assert_eq!(plan.segments().len(), 1);
    match plan.segments()[0] {
        PlanSegment::Builtin { operands, count } => {
            assert_eq!(&operands[..count], &[1.0_f32.to_bits()]);
        }
        _ => panic!("a built-in run"),
    }
}

fn refusal(records: &[u8], length: usize) -> ExecuteError {
    match compile_plan(records, length) {
        Ok(_) => panic!("the plan must be refused"),
        Err(error) => error,
    }
}

#[test]
fn compilation_reports_every_fault() {
    assert_eq!(refusal(&[0_u8; 15], 2), ExecuteError::RecordAlignment(16));
    let mut uneven = chain_records(&[(0, 0.0), (0, 0.0)], 2);
    uneven[28] = 3;
    assert_eq!(refusal(&uneven, 2), ExecuteError::RecordLength(1));
    let plugins = chain_records(&vec![(PLUGIN_OPCODE, 0.0); MAX_PLAN_SEGMENTS], 2);
    assert!(compile_plan(&plugins, 2).is_ok());
    let plugins = chain_records(&vec![(PLUGIN_OPCODE, 0.0); MAX_PLAN_SEGMENTS + 1], 2);
    assert_eq!(refusal(&plugins, 2), ExecuteError::PlanSegments);
    assert_eq!(refusal(&matmul_record(2, 2, 2), 7), ExecuteError::RecordChain(0));
    let mut reserved = matmul_act_record(2, 2, 2, 1);
    reserved[12] = 1;
    assert_eq!(refusal(&reserved, 8), ExecuteError::RecordLength(0));
}

#[test]
fn matmul_records_chain() {
    let mut records = Vec::new();
    records.extend_from_slice(&matmul_act_record(2, 2, 2, 1));
    records.extend_from_slice(&chain_records(&[(1, 0.5)], 4));
    let mut arena = loaded(&[1.0, 2.0, 3.0, 4.0, -5.0, 6.0, 7.0, -8.0]);
    let mut scratch = [0_u32; MAX_VALUES];
    execute_chain_with_plugins(&mut arena, &records, &mut scratch, &TestPlugin, &sum)
        .expect("chain executes");
    assert_eq!(floats(arena.output()), &[9.5, 0.5, 13.5, 0.5]);
    let mut arena = loaded(&[1.0, 2.0, 3.0, 4.0, 5.0, 6.0, 7.0, 8.0]);
    execute_chain_with_plugins(&mut arena, &matmul_record(2, 2, 2), &mut scratch, &TestPlugin, &sum)
        .expect("chain executes");
    assert_eq!(floats(arena.output()), &[19.0, 22.0, 43.0, 50.0]);
}

#[test]
fn outgrown_buffers_are_refused() {
    let plan = match compile_plan(&matmul_record(100, 1, 100), 200) {
        Ok(plan) => plan,
        Err(_) => panic!("plan compiles"),
    };
    let mut arena = loaded(&vec![1.0; 200]);
    let mut scratch = [0_u32; MAX_VALUES];
    assert_eq!(
        execute_compiled_plan(&mut arena, &plan, &mut scratch, &TestPlugin, &sum),
        Err(ExecuteError::Arena(ArenaError::OutputTooLarge {
            required: 10_000,
            capacity: MAX_VALUES
        }))
    );
    let mut short = [0_u32; 100];
    assert_eq!(
        execute_compiled_plan(&mut arena, &plan, &mut short, &TestPlugin, &sum),
        Err(ExecuteError::Arena(ArenaError::InputTooLarge { required: 200, capacity: 100 }))
    );
}

#[test]
fn a_refused_dispatch_stops_the_plan() {
    let mut records = chain_records(&[(PLUGIN_OPCODE, 0.0)], 2);
    records[2] = 1;
    let mut arena = loaded(&[1.0, 2.0]);
    let mut scratch = [0_u32; MAX_VALUES];
    assert_eq!(
        execute_chain_with_plugins(&mut arena, &records, &mut scratch, &TestPlugin, &sum),
        Err(ExecuteError::Plugin("unexpected plugin".to_string()))
    );
    assert_eq!(
        execute_records_with_plugins(&mut arena, &records, &mut scratch, &TestPlugin, &sum),
        Err(ExecuteError::Plugin("unexpected plugin".to_string()))
    );
}

#[test]
fn traces_account_for_every_byte() {
    let mut records = chain_records(&[(1, 0.0)], 8);
    records.extend_from_slice(&matmul_act_record(2, 2, 2, 0));
    let plan = match compile_plan(&records, 8) {
        Ok(plan) => plan,
        Err(_) => panic!("plan compiles"),
    };
    let mut arena = loaded(&[1.0, 2.0, 3.0, 4.0, 5.0, 6.0, 7.0, 8.0]);
    let mut scratch = [0_u32; MAX_VALUES];
    let mut trace = ExecutionTrace::new();
    execute_compiled_plan_traced(&mut arena, &plan, &mut scratch, &TestPlugin, &sum, &mut trace)
        .expect("plan executes");
    assert_eq!(floats(arena.output()), &[19.0, 22.0, 43.0, 50.0]);
    assert_eq!(trace.entries().len(), 2);
    assert_eq!((trace.entries()[0].bytes_read, trace.entries()[0].bytes_written), (32, 32));
    assert_eq!((trace.entries()[1].bytes_read, trace.entries()[1].bytes_written), (32, 16));
    assert_eq!((trace.bytes_read(), trace.bytes_written()), (64, 48));
}

#[test]
fn plugin_record_uses_registry_dispatch() {
    let mut arena = loaded(&[1.0, 2.0]);
    let mut record = [0_u8; OPERATION_BYTES];
    record[0..2].copy_from_slice(&PLUGIN_OPCODE.to_le_bytes());
    record[8..12].copy_from_slice(&2_u32.to_le_bytes());
    record[12..16].copy_from_slice(&2_u32.to_le_bytes());
    let mut scratch = [0_u32; MAX_VALUES];
    execute_records_with_plugins(&mut arena, &record, &mut scratch, &TestPlugin, &sum)
        .expect("plugin executes");
    assert_eq!(floats(arena.output()), &[3.0, 4.0]);
}

#[test]
fn unchained_records_read_the_session_input() {
    let mut arena = loaded(&[1.0, 2.0]);
    let records = chain_records(&[(1, 1.0), (1, 10.0)], 2);
    let mut scratch = [0_u32; MAX_VALUES];
    execute_records_with_scratch(&mut arena, &records, &mut scratch, &sum)
        .expect("records execute");
    assert_eq!(floats(arena.output()), &[11.0, 12.0]);
    assert_eq!(
        execute_records_with_scratch(&mut arena, &records[..17], &mut scratch, &sum),
        Err(ExecuteError::RecordAlignment(16))
    );
    let other = chain_records(&[(1, 1.0)], 3);
    assert_eq!(
        execute_records_with_scratch(&mut arena, &other, &mut scratch, &sum),
        Err(ExecuteError::RecordLength(0))
    );
    assert_eq!(
        execute_records_with_plugins(&mut arena, &other, &mut scratch, &TestPlugin, &sum),
        Err(ExecuteError::RecordLength(0))
    );
}

#[test]
fn an_unknown_opcode_is_reported_with_its_record() {
    let records = chain_records(&[(0, 0.0), (99, 0.0)], 1);
    let mut scratch = [0_u32; 1];
    let mut arena = loaded(&[1.0]);
    assert_eq!(
        execute_records_with_plugins(&mut arena, &records, &mut scratch, &TestPlugin, &sum),
        Err(ExecuteError::UnknownOpcode(1, 99))
    );
    assert_eq!(floats(arena.output()), &[1.0]);
    assert_eq!(
        execute_records_with_scratch(&mut arena, &records, &mut scratch, &sum),
        Err(ExecuteError::UnknownOpcode(1, 99))
    );
}

/// Kernel zero copies; any other writes nines and fails.
struct FailingPlugin;

impl PluginDispatch for FailingPlugin {
    fn run_index(&self, index: usize, input: &[u32], output: &mut [u32]) -> Result<(), String> {
        if index == 0 {
            output.copy_from_slice(input);
            return Ok(());
        }
        output.fill(9);
        Err("broken".to_string())
    }

    fn run_matmul_index(
        &self,
        _index: usize,
        _m: u32,
        _k: u32,
        _n: u32,
        _input: &[u32],
        _output: &mut [u32],
    ) -> Result<(), String> {
        Err("no matmul".to_string())
    }

    fn run_matmul_act_index(
        &self,
        _index: usize,
        _m: u32,
        _k: u32,
        _n: u32,
        _activation: u32,
        _input: &[u32],
        _output: &mut [u32],
    ) -> Result<(), String> {
        Err("no matmul".to_string())
    }
}

#[test]
fn a_failed_dispatch_leaves_its_values_where_it_wrote() {
    let fail = |opcodes: &[(u16, f32)]| {
        let mut records = chain_records(opcodes, 2);
        let last = records.len() - OPERATION_BYTES;
        records[last + 2] = 1;
        let mut arena = loaded(&[1.0, 2.0]);
        let mut scratch = [7_u32; 3];
        assert_eq!(
            execute_chain_with_plugins(&mut arena, &records, &mut scratch, &FailingPlugin, &sum),
            Err(ExecuteError::Plugin("broken".to_string()))
        );
        assert_eq!(floats(arena.input()), &[1.0, 2.0]);
        (arena.output().to_vec(), scratch)
    };
    assert_eq!(fail(&[(PLUGIN_OPCODE, 0.0)]), (vec![9, 9], [7, 7, 7]));
    assert_eq!(
        fail(&[(1, 1.0), (PLUGIN_OPCODE, 0.0)]),
        (bits(&[2.0, 3.0]), [9, 9, 7])
    );
    assert_eq!(
        fail(&[(1, 1.0), (PLUGIN_OPCODE, 0.0), (PLUGIN_OPCODE, 0.0)]).0,
        vec![9, 9]
    );
}
