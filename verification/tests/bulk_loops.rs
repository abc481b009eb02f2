//! Counting loops: in bulk and step by step they leave the same machine.

use std::rc::Rc;

use erabasic_vm::fault::{StepError, VmFaultCode};
use erabasic_vm::memory::{BytecodeStorage, CellData, CellMap, VariableCell};
use erabasic_vm::program::{
    BulkArrayOperation, BulkLoopPlan, BytecodeFunction, BytecodeFunctionKind, BytecodeGlobal,
    CallCompatibility, ExcessArgumentPolicy, Instruction, IntegerArithmeticPolicy, LoopOperand,
    Opcode, ProgramGeneration, RuntimeVariable,
};
use erabasic_vm::state::{
    ExecutionPolicy, Fiber, FiberState, Frame, InstructionPosition, LoadedGeneration, Memory,
    StepOutcome, Vm, VmConfig,
};
use erabasic_vm::value::{
    ArrayLeaseId, BytecodeType, FiberId, FrameId, GenerationId, PlaceDescriptor, SymbolKey, VmValue,
};

const ENTRY: SymbolKey = SymbolKey(100);
const LOCAL: SymbolKey = SymbolKey(1);
const TCVAR: SymbolKey = SymbolKey(2);
const DA: SymbolKey = SymbolKey(3);
const DB: SymbolKey = SymbolKey(4);
const EXP: SymbolKey = SymbolKey(5);
const FLAG: SymbolKey = SymbolKey(6);
const RESULT: SymbolKey = SymbolKey(7);
const COUNT: SymbolKey = SymbolKey(8);
const GENERATION: GenerationId = GenerationId(1);

fn config() -> VmConfig {
    VmConfig {
        maximum_operand_stack: 1024,
        maximum_call_depth: 64,
        maximum_backward_branches_without_progress: 10_000,
    }
}

fn variable(
    key: SymbolKey,
    name: &str,
    storage: BytecodeStorage,
    dimensions: &[u64],
) -> BytecodeGlobal {
    BytecodeGlobal {
        key,
        name: name.to_string(),
        owner: if storage == BytecodeStorage::FunctionLocal {
            Some(ENTRY)
        } else {
            None
        },
        value_type: BytecodeType::Integer,
        storage,
        dimensions: dimensions.to_vec(),
        mutable: true,
    }
}

/// Sizes of the arrays that the loops run over.
#[derive(Clone, Copy)]
struct Shape {
    tcvar: u64,
    exp: u64,
    row: u64,
}

const SMALL: Shape = Shape {
    tcvar: 16,
    exp: 100,
    row: 8,
};

fn globals(shape: Shape) -> Vec<BytecodeGlobal> {
    vec![
        variable(LOCAL, "LOCAL", BytecodeStorage::FunctionLocal, &[2]),
        variable(TCVAR, "TCVAR", BytecodeStorage::Character, &[shape.tcvar]),
        variable(DA, "DA", BytecodeStorage::Project, &[2, shape.row]),
        variable(DB, "DB", BytecodeStorage::Project, &[2, shape.row]),
        variable(EXP, "EXP", BytecodeStorage::Character, &[shape.exp]),
        variable(FLAG, "FLAG", BytecodeStorage::Project, &[10]),
        variable(RESULT, "RESULT", BytecodeStorage::Project, &[1]),
    ]
}

fn cell(dimensions: &[u64]) -> VariableCell {
    let length = dimensions.iter().product::<u64>() as usize;
    VariableCell {
        dimensions: dimensions.to_vec(),
        data: CellData::Integers(vec![0; length]),
    }
}

fn cells(shape: Shape, storage: BytecodeStorage) -> CellMap {
    let mut map = CellMap::new();
    for global in globals(shape) {
        if global.storage == storage {
            map.push(global.key, cell(&global.dimensions));
        }
    }
    map
}

/// Code under construction.
struct Code {
    out: Vec<Instruction>,
}

impl Code {
    fn op(&mut self, opcode: Opcode, payload: &[u8]) -> usize {
        self.out.push(Instruction {
            opcode,
            payload: payload.to_vec(),
            user_call: None,
            bit_call: None,
        });
        self.out.len() - 1
    }

    fn push(&mut self, value: i64) {
        self.op(Opcode::PushInteger, &value.to_le_bytes());
    }

    fn access(&mut self, opcode: Opcode, key: SymbolKey, indices: u16) {
        let mut payload = key.0.to_le_bytes().to_vec();
        payload.extend(indices.to_le_bytes());
        payload.push(0);
        self.op(opcode, &payload);
    }

    fn local(&mut self, index: i64) {
        if index == 0 {
            self.access(Opcode::LoadVariable, LOCAL, 0);
        } else {
            self.push(index);
            self.access(Opcode::LoadVariable, LOCAL, 1);
        }
    }

    fn jump(&mut self, opcode: Opcode, target: usize) -> usize {
        self.op(opcode, &(target as u32).to_le_bytes())
    }

    fn land(&mut self, at: usize) {
        let target = self.out.len() as u32;
        self.out[at].payload = target.to_le_bytes().to_vec();
    }
}

/// What stands in the loop.
#[derive(Clone, Copy)]
enum Body {
    /// `target:prefix:counter = value`
    Fill {
        target: SymbolKey,
        prefix: SymbolKey,
        value: i64,
    },
    /// `target:LOCAL:(offset + counter) = source:LOCAL:counter`
    Copy {
        target: SymbolKey,
        source: SymbolKey,
        offset: i64,
    },
}

/// A counting loop with what stands before it.
#[derive(Clone)]
struct Loop {
    before: Vec<(SymbolKey, Vec<i64>, i64)>,
    prefix: Option<i64>,
    counter: i64,
    start: i64,
    end: i64,
    step: i64,
    body: Body,
}

/// The code of a loop and the plan that folds it.
fn compile(spec: &Loop) -> (Vec<Instruction>, BulkLoopPlan) {
    let mut code = Code { out: Vec::new() };
    for (key, indices, value) in &spec.before {
        for index in indices {
            code.push(*index);
        }
        code.push(*value);
        code.access(Opcode::StoreVariable, *key, indices.len() as u16);
    }
    if let Some(value) = spec.prefix {
        code.push(value);
        code.access(Opcode::StoreVariable, LOCAL, 0);
    }
    if spec.counter == 0 {
        code.access(Opcode::MakePlace, LOCAL, 0);
    } else {
        code.push(spec.counter);
        code.access(Opcode::MakePlace, LOCAL, 1);
    }
    code.push(spec.start);
    code.push(spec.end);
    code.push(spec.step);
    let instruction = code.op(Opcode::ForStart, &[]);
    let enter = code.jump(Opcode::JumpIfFalse, 0);
    let first = code.out.len();
    let (target, prefix, operation, stack_peak) = match spec.body {
        Body::Fill {
            target,
            prefix,
            value,
        } => {
            code.access(Opcode::LoadVariable, prefix, 0);
            code.local(spec.counter);
            code.push(value);
            code.access(Opcode::StoreVariable, target, 2);
            (target, prefix, BulkArrayOperation::Fill(value), 3)
        }
        Body::Copy {
            target,
            source,
            offset,
        } => {
            code.access(Opcode::LoadVariable, LOCAL, 0);
            code.push(offset);
            code.local(spec.counter);
            code.op(Opcode::Binary, &[3]);
            code.access(Opcode::LoadVariable, LOCAL, 0);
            code.local(spec.counter);
            code.access(Opcode::LoadVariable, source, 2);
            code.access(Opcode::StoreVariable, target, 2);
            (target, LOCAL, BulkArrayOperation::Copy { source, offset }, 4)
        }
    };
    let body = code.out.len() - first;
    code.op(Opcode::ForNext, &[]);
    let leave = code.jump(Opcode::JumpIfFalse, 0);
    code.jump(Opcode::Jump, first);
    code.land(enter);
    code.land(leave);
    code.op(Opcode::Nop, &[]);
    let after_loop = code.out.len();
    code.push(1);
    code.access(Opcode::LoadVariable, LOCAL, 1);
    code.access(Opcode::StoreVariable, RESULT, 0);
    code.access(Opcode::LoadVariable, RESULT, 0);
    code.op(Opcode::Return, &[1]);
    let plan = BulkLoopPlan {
        function: ENTRY,
        instruction,
        counter: LOCAL,
        counter_indices: if spec.counter == 0 {
            Vec::new()
        } else {
            vec![spec.counter as u64]
        },
        prefix: LoopOperand {
            variable: prefix,
            indices: Vec::new(),
        },
        target,
        operation,
        iteration_instructions: body as u64 + 3,
        stack_peak,
        after_loop,
    };
    (code.out, plan)
}

fn program(spec: &Loop, shape: Shape, bulk: bool) -> ProgramGeneration {
    let (code, plan) = compile(spec);
    ProgramGeneration {
        globals: globals(shape),
        functions: vec![BytecodeFunction {
            key: ENTRY,
            name: "SYSTEM_TITLE".to_string(),
            kind: BytecodeFunctionKind::Normal,
            parameters: Vec::new(),
            result: Some(BytecodeType::Integer),
            code,
            labels: Vec::new(),
            imports: Vec::new(),
        }],
        event_groups: Vec::new(),
        host_imports: Vec::new(),
        native_imports: Vec::new(),
        call_compatibility: CallCompatibility {
            allow_event_as_normal: false,
            excess_arguments: ExcessArgumentPolicy::Reject,
            system_no_target: false,
            compatible_rand: false,
            allow_full_width_space: false,
            debug_semicolon: false,
            ignore_triple_symbols: false,
        },
        integer_policy: IntegerArithmeticPolicy::ReferenceWrappingV1,
        existvar_expression_probe: false,
        snake_data_apis: false,
        checked_runtime_forms: false,
        call_text: false,
        map_extensions: false,
        snake_input: false,
        staged_authorizations: Vec::new(),
        native_authorizations: Vec::new(),
        host_authorizations: Vec::new(),
        builtins: Vec::new(),
        map_operations: Vec::new(),
        user_resolutions: Vec::new(),
        runtime_variables: Vec::new(),
        named_indices: Vec::new(),
        foldable_services: Vec::new(),
        internal_columns: Vec::new(),
        structured_jumps: Vec::new(),
        literal_group_matches: Vec::new(),
        bulk_loops: if bulk { vec![plan] } else { Vec::new() },
        indexed_reads: Vec::new(),
        source_map: Vec::new(),
        characters: Vec::new(),
        default_character: 0,
        stain_default: Vec::new(),
        void_character: CellMap::new(),
    }
}

fn machine(spec: &Loop, shape: Shape, config: VmConfig, bulk: bool) -> (Vm, Fiber) {
    let mut character = cells(shape, BytecodeStorage::Character);
    for entry in &mut character.entries {
        if entry.key == TCVAR {
            if let CellData::Integers(values) = &mut entry.cell.data {
                for value in values.iter_mut().take(8) {
                    *value = 9;
                }
            }
        }
    }
    let vm = Vm {
        config,
        generations: vec![LoadedGeneration {
            id: GENERATION,
            program: Rc::new(program(spec, shape, bulk)),
        }],
        current_generation: GENERATION,
        memory: Memory {
            shared: cells(shape, BytecodeStorage::Project),
            statics: CellMap::new(),
            characters: vec![character],
            array_leases: Vec::new(),
        },
        fibers: Vec::new(),
        next_frame: 2,
        next_request: 1,
        pending_compatibility_warnings: Vec::new(),
        compatibility_warning_sites: Vec::new(),
        path_memo_owner: None,
        active_function_memos: Vec::new(),
    };
    let fiber = Fiber {
        id: FiberId(1),
        frames: vec![Frame {
            id: FrameId(1),
            generation: GENERATION,
            function: ENTRY,
            instruction: 0,
            stack: Vec::new(),
            locals: cells(shape, BytecodeStorage::FunctionLocal),
            arguments: Vec::new(),
            for_loops: Vec::new(),
            select_values: Vec::new(),
            user_calls: Vec::new(),
            existvar_checks: Vec::new(),
            bit_calls: Vec::new(),
            returns_value: true,
            event_context: false,
            event_dispatch: None,
            runtime_form: None,
        }],
        state: FiberState::Runnable,
        backward_branches_without_progress: 0,
    };
    (vm, fiber)
}

fn policy(allow: bool, remaining: u64) -> ExecutionPolicy {
    ExecutionPolicy {
        allow_function_memo: allow,
        allow_immediate_host: false,
        remaining_quantum: u32::try_from(remaining).unwrap(),
        remaining_instructions: remaining,
    }
}

fn key_of(payload: &[u8]) -> Option<SymbolKey> {
    let bytes: [u8; 16] = payload.get(..16)?.try_into().ok()?;
    Some(SymbolKey(u128::from_le_bytes(bytes)))
}

/// Executes the next instruction.
fn step(vm: &mut Vm, fiber: &mut Fiber, policy: ExecutionPolicy) -> Result<StepOutcome, StepError> {
    let program = vm.program(GENERATION).unwrap();
    let instruction = fiber.top().instruction;
    let encoded = &program.function(ENTRY).unwrap().code[instruction];
    let position = InstructionPosition {
        generation: GENERATION,
        function: ENTRY,
        instruction,
        variable: match encoded.opcode {
            Opcode::LoadVariable | Opcode::StoreVariable | Opcode::MakePlace => {
                key_of(&encoded.payload).and_then(|key| program.global(key))
            }
            _ => None,
        },
        opcode: encoded.opcode,
        payload: &encoded.payload,
    };
    vm.execute_instruction(fiber, &position, policy)
        .map(|outcome| outcome.expect("operation of the machine itself"))
}

/// How a run ended.
#[derive(Debug, PartialEq, Eq)]
enum End {
    Returned(Option<VmValue>),
    Faulted(StepError),
}

/// Runs to the end in slices; gives the number of instructions and how the run ended.
fn finish(vm: &mut Vm, fiber: &mut Fiber, maximum: u64) -> (u64, End) {
    let mut total = 0;
    for _ in 0..10_000 {
        let mut used = 0;
        while used < maximum {
            let outcome = step(vm, fiber, policy(true, maximum - used));
            used += 1;
            match outcome {
                Ok(StepOutcome::Continue) => {}
                Ok(StepOutcome::BulkProgress(additional)) => used += additional,
                Ok(StepOutcome::Returned(value)) => return (total + used, End::Returned(value)),
                Ok(other) => panic!("{other:?}"),
                Err(error) => return (total + used, End::Faulted(error)),
            }
            if fiber.backward_branches_without_progress
                > vm.config.maximum_backward_branches_without_progress
            {
                let error = StepError::new(VmFaultCode::ResourceLimit, "no progress");
                return (total + used, End::Faulted(error));
            }
        }
        total += used;
    }
    panic!("bounded fixture did not finish");
}

fn read(vm: &Vm, fiber: &Fiber, key: SymbolKey, indices: &[u64], character: Option<u64>) -> i64 {
    let mut place = PlaceDescriptor::of_variable(key);
    place.indices = indices.to_vec();
    place.character = character;
    match vm.read_place(fiber, &place).unwrap() {
        VmValue::Integer(n) => n,
        other => panic!("{other:?}"),
    }
}

fn write(
    vm: &mut Vm,
    fiber: &mut Fiber,
    key: SymbolKey,
    indices: &[u64],
    character: Option<u64>,
    value: i64,
) {
    let mut place = PlaceDescriptor::of_variable(key);
    place.indices = indices.to_vec();
    place.character = character;
    vm.write_place(fiber, &place, VmValue::Integer(value))
        .unwrap();
}

fn fill(target: SymbolKey, prefix: SymbolKey, value: i64) -> Body {
    Body::Fill {
        target,
        prefix,
        value,
    }
}

fn counting(start: i64, end: i64, step: i64, counter: i64, body: Body) -> Loop {
    Loop {
        before: Vec::new(),
        prefix: None,
        counter,
        start,
        end,
        step,
        body,
    }
}

fn copy_loop(prefix: i64, start: i64, end: i64, step: i64, offset: i64) -> Loop {
    Loop {
        before: vec![
            (EXP, vec![0, 0], 3),
            (EXP, vec![0, 1], 5),
            (EXP, vec![0, 2], 0),
            (EXP, vec![0, 3], 8),
        ],
        prefix: Some(prefix),
        counter: 1,
        start,
        end,
        step,
        body: Body::Copy {
            target: TCVAR,
            source: EXP,
            offset,
        },
    }
}

fn copy_body(prefix: i64, start: i64, end: i64, step: i64, offset: i64) -> String {
    format!(
        "EXP:0:0 = 3\nEXP:0:1 = 5\nEXP:0:2 = 0\nEXP:0:3 = 8\n\
         LOCAL = {prefix}\nFOR LOCAL:1, {start}, {end}, {step}\n\
         TCVAR:LOCAL:({offset} + LOCAL:1) = EXP:LOCAL:(LOCAL:1)\nNEXT"
    )
}

/// Runs up to the loop and takes its first instruction; gives the instructions used.
fn dispatch_first_loop(
    vm: &mut Vm,
    fiber: &mut Fiber,
    after_loop: usize,
    bulk: bool,
    allow_bulk: bool,
    backward: u64,
) -> u64 {
    let mut used = 0;
    loop {
        let program = vm.program(GENERATION).unwrap();
        let code = &program.function(ENTRY).unwrap().code;
        if code[fiber.top().instruction].opcode == Opcode::ForStart {
            break;
        }
        assert!(used < 100, "fixture did not reach ForStart");
        assert_eq!(
            step(vm, fiber, policy(allow_bulk, 1)).unwrap(),
            StepOutcome::Continue
        );
        used += 1;
    }
    let stack = &fiber.top().stack;
    let counter = match &stack[stack.len() - 4] {
        VmValue::IntegerPlace(place) => place.clone(),
        _ => panic!("counter operand"),
    };
    let end = stack[stack.len() - 2].clone();
    let outcome = step(vm, fiber, policy(allow_bulk, 100_000)).unwrap();
    if bulk {
        let StepOutcome::BulkProgress(additional) = outcome else {
            panic!("real dispatch did not take bulk path")
        };
        used += 1 + additional;
        assert_eq!(fiber.top().instruction, after_loop);
        assert_eq!(vm.read_place(fiber, &counter).unwrap(), end);
        assert_eq!(fiber.backward_branches_without_progress, backward);
    } else {
        assert_eq!(outcome, StepOutcome::Continue);
        used += 1;
    }
    used
}

#[test]
fn bulk_fill_real_dispatch_covers_character_and_project_storage() {
    for (body, spec) in [
        (
            "FOR LOCAL:1, 0, 4\nTCVAR:LOCAL:(LOCAL:1) = 0\nNEXT",
            counting(0, 4, 1, 1, fill(TCVAR, LOCAL, 0)),
        ),
        (
            "FOR LOCAL:1, 0, 4\nDA:LOCAL:(LOCAL:1) = 0\nNEXT",
            counting(0, 4, 1, 1, fill(DA, LOCAL, 0)),
        ),
        (
            "FOR LOCAL, 0, 4\nDA:FLAG:LOCAL = 0\nNEXT",
            counting(0, 4, 1, 0, fill(DA, FLAG, 0)),
        ),
        (
            "FOR LOCAL, 0, 4\nDA:FLAG:LOCAL = 7\nNEXT",
            counting(0, 4, 1, 0, fill(DA, FLAG, 7)),
        ),
    ] {
        let after_loop = compile(&spec).1.after_loop;
        let (mut optimized, mut fiber) = machine(&spec, SMALL, config(), true);
        let (mut scalar, mut scalar_fiber) = machine(&spec, SMALL, config(), true);
        write(&mut optimized, &mut fiber, DA, &[0, 4], None, 9);
        write(&mut scalar, &mut scalar_fiber, DA, &[0, 4], None, 9);
        let dispatched =
            dispatch_first_loop(&mut optimized, &mut fiber, after_loop, true, true, 3);
        let scalar_dispatched =
            dispatch_first_loop(&mut scalar, &mut scalar_fiber, after_loop, false, false, 0);
        let actual = finish(&mut optimized, &mut fiber, 100_000);
        let expected = finish(&mut scalar, &mut scalar_fiber, 100_000);
        assert_eq!(actual.0 + dispatched, expected.0 + scalar_dispatched, "{body}");
        assert_eq!(actual.1, expected.1, "{body}");
        assert_eq!(optimized, scalar, "{body}");
        assert_eq!(fiber, scalar_fiber, "{body}");
        assert_eq!(read(&optimized, &fiber, DA, &[0, 4], None), 9);
    }
}

#[test]
fn bulk_fill_character_indexed_counter_matches_scalar_slices_and_snapshot() {
    for (start, end, step) in [(1, 7, 1), (0, 1, 1), (0, 0, 1), (7, 1, -1), (-1, 3, 1)] {
        let body = format!("FOR LOCAL:1, {start}, {end}, {step}\nTCVAR:LOCAL:(LOCAL:1) = 0\nNEXT");
        let spec = counting(start, end, step, 1, fill(TCVAR, LOCAL, 0));
        for maximum in [1, 16, 100_000] {
            let (mut bulk, mut bulk_fiber) = machine(&spec, SMALL, config(), true);
            let (mut scalar, mut scalar_fiber) = machine(&spec, SMALL, config(), false);
            let bulk_result = finish(&mut bulk, &mut bulk_fiber, maximum);
            let scalar_result = finish(&mut scalar, &mut scalar_fiber, maximum);
            assert_eq!(bulk_result, scalar_result, "{body}");
            assert_eq!(bulk.memory, scalar.memory, "{body}");
            assert_eq!(bulk_fiber, scalar_fiber, "{body}");
            if start == 1 && end == 7 && step == 1 {
                for index in 0..8 {
                    assert_eq!(
                        read(&bulk, &bulk_fiber, TCVAR, &[index], Some(0)),
                        if (1..7).contains(&index) { 0 } else { 9 }
                    );
                }
            }
        }
    }
}

#[test]
fn bulk_fill_fallback_preserves_character_fault_and_backward_budget() {
    let length = SMALL.tcvar as i64;
    let absent_character = 1;
    for (prefix, start, end, backward) in [
        (absent_character, 0, 7, 10_000),
        (-1, 0, 7, 10_000),
        (0, length - 1, length + 1, 10_000),
        (0, 0, 7, 2),
    ] {
        let body = format!(
            "LOCAL = {prefix}\nFOR LOCAL:1, {start}, {end}\nTCVAR:LOCAL:(LOCAL:1) = 0\nNEXT"
        );
        let spec = Loop {
            prefix: Some(prefix),
            ..counting(start, end, 1, 1, fill(TCVAR, LOCAL, 0))
        };
        let config = VmConfig {
            maximum_backward_branches_without_progress: backward,
            ..config()
        };
        let (mut bulk, mut bulk_fiber) = machine(&spec, SMALL, config, true);
        let (mut scalar, mut scalar_fiber) = machine(&spec, SMALL, config, false);
        let actual = finish(&mut bulk, &mut bulk_fiber, 100_000);
        assert!(matches!(actual.1, End::Faulted(_)), "{body}");
        assert_eq!(
            actual,
            finish(&mut scalar, &mut scalar_fiber, 100_000),
            "{body}"
        );
        assert_eq!(bulk.memory, scalar.memory, "{body}");
        assert_eq!(bulk_fiber, scalar_fiber, "{body}");
    }
}

#[test]
fn bulk_fill_direct_path_obeys_debug_stack_and_slice_barriers() {
    // FOR LOCAL:1, 0, 4\nTCVAR:LOCAL:(LOCAL:1) = 0\nNEXT
    let spec = counting(0, 4, 1, 1, fill(TCVAR, LOCAL, 0));
    let (mut vm, mut fiber) = machine(&spec, SMALL, config(), true);
    let (untouched, before) = machine(&spec, SMALL, config(), true);
    let program = vm.program(GENERATION).unwrap();
    let plan = &program.bulk_loops[0];
    assert_eq!(plan.iteration_instructions, 8);
    let mut counter = PlaceDescriptor::of_variable(LOCAL);
    counter.indices = vec![1];
    counter.fiber = Some(fiber.id);
    counter.frame = Some(fiber.top().id);
    let position = InstructionPosition {
        generation: GENERATION,
        function: ENTRY,
        instruction: plan.instruction,
        variable: None,
        opcode: Opcode::ForStart,
        payload: &[],
    };
    let allowed = policy(true, 34);
    for blocked in [
        policy(false, 34),
        ExecutionPolicy {
            remaining_quantum: 33,
            ..allowed
        },
        ExecutionPolicy {
            remaining_instructions: 33,
            ..allowed
        },
    ] {
        assert_eq!(
            vm.try_bulk_fill_loop(&mut fiber, &position, &counter, 0, 4, 1, blocked)
                .unwrap(),
            None
        );
        assert_eq!(fiber, before);
        assert_eq!(vm, untouched);
        assert_eq!(read(&vm, &fiber, TCVAR, &[0], Some(0)), 9);
    }
    vm.config.maximum_operand_stack = 2;
    assert_eq!(
        vm.try_bulk_fill_loop(&mut fiber, &position, &counter, 0, 4, 1, allowed)
            .unwrap(),
        None
    );
    assert_eq!(fiber, before);
    vm.config.maximum_operand_stack = 3;
    assert_eq!(
        vm.try_bulk_fill_loop(&mut fiber, &position, &counter, 0, 4, 1, allowed)
            .unwrap(),
        Some(33)
    );
    assert_eq!(fiber.top().instruction, plan.after_loop);
    assert_eq!(read(&vm, &fiber, TCVAR, &[0], Some(0)), 0);
    assert_eq!(read(&vm, &fiber, TCVAR, &[4], Some(0)), 9);
    assert_eq!(fiber.backward_branches_without_progress, 3);
}

#[test]
fn bulk_copy_real_dispatch_matches_scalar_cells_and_logical_instructions() {
    let spec = copy_loop(0, 0, 4, 1, 4);
    let after_loop = compile(&spec).1.after_loop;
    let (mut bulk, mut fiber) = machine(&spec, SMALL, config(), true);
    let (mut scalar, mut scalar_fiber) = machine(&spec, SMALL, config(), true);
    let bulk_used = dispatch_first_loop(&mut bulk, &mut fiber, after_loop, true, true, 3);
    let scalar_used =
        dispatch_first_loop(&mut scalar, &mut scalar_fiber, after_loop, false, false, 0);
    let bulk_result = finish(&mut bulk, &mut fiber, 100_000);
    let scalar_result = finish(&mut scalar, &mut scalar_fiber, 100_000);
    assert_eq!(bulk_used + bulk_result.0, scalar_used + scalar_result.0);
    assert_eq!(bulk_result.1, scalar_result.1);
    assert_eq!(bulk, scalar);
    assert_eq!(fiber, scalar_fiber);
    for (index, expected) in [9, 9, 9, 9, 3, 5, 0, 8].into_iter().enumerate() {
        assert_eq!(
            read(&bulk, &fiber, TCVAR, &[index as u64], Some(0)),
            expected
        );
    }
}

#[test]
fn bulk_copy_matches_scalar_slices_bounds_steps_and_overflow() {
    for (prefix, start, end, step, offset) in [
        (0, 0, 4, 1, 4),
        (0, 0, 0, 1, 4),
        (0, 3, -1, -1, 4),
        (0, 0, 4, 2, 4),
        (0, -1, 3, 1, 4),
        (0, 0, 4, 1, 14),
        (0, 0, 4, 1, -1),
        (0, 0, 4, 1, i64::MAX),
        (1, 0, 4, 1, 4),
    ] {
        for maximum in [1, 16, 100_000] {
            let body = copy_body(prefix, start, end, step, offset);
            let spec = copy_loop(prefix, start, end, step, offset);
            let (mut bulk, mut fiber) = machine(&spec, SMALL, config(), true);
            let (mut scalar, mut scalar_fiber) = machine(&spec, SMALL, config(), false);
            assert_eq!(
                finish(&mut bulk, &mut fiber, maximum),
                finish(&mut scalar, &mut scalar_fiber, maximum),
                "{body}, budget={maximum}"
            );
            assert_eq!(bulk.memory, scalar.memory, "{body}, budget={maximum}");
            assert_eq!(fiber, scalar_fiber, "{body}, budget={maximum}");
        }
    }
}

#[test]
fn bulk_copy_obeys_bounded_buffer_and_sparse_storage() {
    let shape = Shape {
        tcvar: 512,
        exp: 512,
        ..SMALL
    };
    for end in [256, 257] {
        let spec = copy_loop(0, 0, end, 1, 4);
        let after_loop = compile(&spec).1.after_loop;
        let (mut bulk, mut fiber) = machine(&spec, shape, config(), true);
        let (mut scalar, mut scalar_fiber) = machine(&spec, shape, config(), true);
        let actual_prefix = dispatch_first_loop(
            &mut bulk,
            &mut fiber,
            after_loop,
            end == 256,
            true,
            u64::try_from(end - 1).unwrap(),
        );
        let expected_prefix =
            dispatch_first_loop(&mut scalar, &mut scalar_fiber, after_loop, false, false, 0);
        let actual = finish(&mut bulk, &mut fiber, 100_000);
        let expected = finish(&mut scalar, &mut scalar_fiber, 100_000);
        assert!(matches!(actual.1, End::Returned(_)));
        assert_eq!(actual_prefix + actual.0, expected_prefix + expected.0);
        assert_eq!(actual.1, expected.1);
        assert_eq!(bulk, scalar);
        assert_eq!(fiber, scalar_fiber);
        for (index, expected) in [(4, 3), (5, 5), (6, 0), (7, 8), (end + 3, 0)] {
            let index = u64::try_from(index).unwrap();
            assert_eq!(read(&bulk, &fiber, TCVAR, &[index], Some(0)), expected);
        }
    }
}

fn row_cell(key: SymbolKey, row: u64, column: u64) -> (Vec<u64>, Option<u64>) {
    if key == TCVAR {
        (vec![column], Some(row))
    } else {
        (vec![row, column], None)
    }
}

#[test]
fn bulk_copy_supports_project_rows_in_both_directions() {
    let shape = Shape { row: 16, ..SMALL };
    for (from, to) in [(DA, TCVAR), (TCVAR, DA), (DA, DB)] {
        let spec = Loop {
            prefix: Some(1),
            ..counting(
                0,
                4,
                1,
                1,
                Body::Copy {
                    target: to,
                    source: from,
                    offset: 4,
                },
            )
        };
        let after_loop = compile(&spec).1.after_loop;
        let make = || {
            let (mut vm, mut fiber) = machine(&spec, shape, config(), true);
            vm.memory
                .characters
                .push(cells(shape, BytecodeStorage::Character));
            for (row, column, value) in [(0, 4, 77), (1, 3, 91), (1, 8, 92), (1, 6, 99)] {
                let (indices, character) = row_cell(to, row, column);
                write(&mut vm, &mut fiber, to, &indices, character, value);
            }
            for (column, value) in [3, 5, 0, 8].into_iter().enumerate() {
                let (indices, character) = row_cell(from, 1, column as u64);
                write(&mut vm, &mut fiber, from, &indices, character, value);
            }
            (vm, fiber)
        };
        let (mut bulk, mut fiber) = make();
        let (mut scalar, mut scalar_fiber) = make();
        let actual_prefix = dispatch_first_loop(&mut bulk, &mut fiber, after_loop, true, true, 3);
        let expected_prefix =
            dispatch_first_loop(&mut scalar, &mut scalar_fiber, after_loop, false, false, 0);
        let actual = finish(&mut bulk, &mut fiber, 100_000);
        let expected = finish(&mut scalar, &mut scalar_fiber, 100_000);
        assert_eq!(actual_prefix + actual.0, expected_prefix + expected.0);
        assert_eq!(actual.1, expected.1);
        assert_eq!(bulk, scalar);
        for (row, column, value) in [
            (0, 4, 77),
            (1, 3, 91),
            (1, 4, 3),
            (1, 5, 5),
            (1, 6, 0),
            (1, 7, 8),
            (1, 8, 92),
        ] {
            let (indices, character) = row_cell(to, row, column);
            assert_eq!(read(&bulk, &fiber, to, &indices, character), value);
        }
    }
}

#[test]
fn bulk_copy_source_overrun_preserves_partial_writes_counter_and_fault() {
    let shape = Shape {
        tcvar: 512,
        exp: 100,
        ..SMALL
    };
    let spec = counting(
        98,
        102,
        1,
        1,
        Body::Copy {
            target: TCVAR,
            source: EXP,
            offset: 4,
        },
    );
    let after_loop = compile(&spec).1.after_loop;
    let make = || {
        let (mut vm, mut fiber) = machine(&spec, shape, config(), true);
        write(&mut vm, &mut fiber, EXP, &[99], Some(0), 42);
        for index in 102..106 {
            write(&mut vm, &mut fiber, TCVAR, &[index], Some(0), 9);
        }
        (vm, fiber)
    };
    let (mut bulk, mut fiber) = make();
    let (mut scalar, mut scalar_fiber) = make();
    let actual_prefix = dispatch_first_loop(&mut bulk, &mut fiber, after_loop, false, true, 0);
    let expected_prefix =
        dispatch_first_loop(&mut scalar, &mut scalar_fiber, after_loop, false, false, 0);
    let actual = finish(&mut bulk, &mut fiber, 100_000);
    let expected = finish(&mut scalar, &mut scalar_fiber, 100_000);
    assert_eq!(actual_prefix + actual.0, expected_prefix + expected.0);
    assert_eq!(actual.1, expected.1);
    assert_eq!(bulk, scalar);
    assert_eq!(fiber, scalar_fiber);
    match actual.1 {
        End::Faulted(error) => assert_eq!(error.code, VmFaultCode::Bounds),
        other => panic!("{other:?}"),
    }
    let mut counter = PlaceDescriptor::of_variable(LOCAL);
    counter.indices = vec![1];
    counter.frame = Some(fiber.top().id);
    assert_eq!(
        bulk.read_place(&fiber, &counter).unwrap(),
        VmValue::Integer(100)
    );
    for (index, value) in [(102, 0), (103, 42), (104, 9), (105, 9)] {
        assert_eq!(read(&bulk, &fiber, TCVAR, &[index], Some(0)), value);
    }
}

#[test]
fn bulk_copy_direct_path_retains_debug_stack_budget_and_trace_barriers() {
    let spec = copy_loop(0, 0, 4, 1, 4);
    let (mut vm, mut fiber) = machine(&spec, SMALL, config(), true);
    let (untouched, before) = machine(&spec, SMALL, config(), true);
    let program = vm.program(GENERATION).unwrap();
    let plan = &program.bulk_loops[0];
    let logical = 4 * plan.iteration_instructions + 2;
    let peak = plan.stack_peak;
    let mut counter = PlaceDescriptor::of_variable(LOCAL);
    counter.indices = vec![1];
    counter.fiber = Some(fiber.id);
    counter.frame = Some(fiber.top().id);
    let position = InstructionPosition {
        generation: GENERATION,
        function: ENTRY,
        instruction: plan.instruction,
        variable: None,
        opcode: Opcode::ForStart,
        payload: &[],
    };
    let allowed = policy(true, logical);
    let mut leased_counter = counter.clone();
    leased_counter.backing = Some(ArrayLeaseId(1));
    assert_eq!(
        vm.try_bulk_fill_loop(&mut fiber, &position, &leased_counter, 0, 4, 1, allowed)
            .unwrap(),
        None
    );
    assert_eq!(vm, untouched);
    assert_eq!(fiber, before);
    for key in [EXP, TCVAR] {
        let at = vm.memory.characters[0].find(key).unwrap();
        vm.memory.characters[0].entries[at].cell.dimensions.push(1);
        assert_eq!(
            vm.try_bulk_fill_loop(&mut fiber, &position, &counter, 0, 4, 1, allowed)
                .unwrap(),
            None
        );
        assert_eq!(fiber, before);
        vm.memory.characters[0].entries[at].cell.dimensions.pop();
        assert_eq!(vm, untouched);
    }
    for blocked in [
        policy(false, logical),
        ExecutionPolicy {
            remaining_quantum: u32::try_from(logical - 1).unwrap(),
            ..allowed
        },
        ExecutionPolicy {
            remaining_instructions: logical - 1,
            ..allowed
        },
    ] {
        assert_eq!(
            vm.try_bulk_fill_loop(&mut fiber, &position, &counter, 0, 4, 1, blocked)
                .unwrap(),
            None
        );
        assert_eq!(fiber, before);
    }
    vm.config.maximum_operand_stack = peak - 1;
    assert_eq!(
        vm.try_bulk_fill_loop(&mut fiber, &position, &counter, 0, 4, 1, allowed)
            .unwrap(),
        None
    );
    vm.config.maximum_operand_stack = peak;
    vm.path_memo_owner = Some(fiber.id);
    assert_eq!(
        vm.try_bulk_fill_loop(&mut fiber, &position, &counter, 0, 4, 1, allowed)
            .unwrap(),
        None
    );
    vm.invalidate_path_memo(fiber.id);
    vm.config.maximum_backward_branches_without_progress = 2;
    assert_eq!(
        vm.try_bulk_fill_loop(&mut fiber, &position, &counter, 0, 4, 1, allowed)
            .unwrap(),
        None
    );
    assert_eq!(fiber, before);
    assert_eq!(read(&vm, &fiber, TCVAR, &[4], Some(0)), 9);
    vm.config.maximum_backward_branches_without_progress = 10_000;
    assert_eq!(
        vm.try_bulk_fill_loop(&mut fiber, &position, &counter, 0, 4, 1, allowed)
            .unwrap(),
        Some(logical - 1)
    );
    assert_eq!(read(&vm, &fiber, TCVAR, &[4], Some(0)), 0);
}

#[test]
fn a_plan_is_found_at_its_own_instruction_alone() {
    let spec = counting(0, 4, 1, 1, fill(TCVAR, LOCAL, 0));
    let (vm, _) = machine(&spec, SMALL, config(), true);
    let program = vm.program(GENERATION).unwrap();
    let at = program.bulk_loops[0].instruction;
    assert!(program.bulk_fill_loop_plan(ENTRY, at).is_some());
    assert!(program.bulk_fill_loop_plan(ENTRY, at + 1).is_none());
    assert!(program.bulk_fill_loop_plan(SymbolKey(101), at).is_none());
}

/// The program with one of its variables turned into a reference.
fn guarded(spec: &Loop, counter: SymbolKey, reference: Option<SymbolKey>) -> ProgramGeneration {
    let mut program = program(spec, SMALL, true);
    program
        .globals
        .push(variable(COUNT, "COUNT", BytecodeStorage::Project, &[1]));
    program.bulk_loops[0].counter = counter;
    program.runtime_variables = program
        .globals
        .iter()
        .map(|global| RuntimeVariable {
            key: global.key,
            reference: Some(global.key) == reference,
            can_restructure: false,
            is_const: false,
        })
        .collect();
    program
}

#[test]
fn bulk_fill_reference_metadata_disables_planning() {
    let spec = counting(0, 4, 1, 1, fill(TCVAR, LOCAL, 0));
    let plain = guarded(&spec, LOCAL, None);
    let at = plain.bulk_loops[0].instruction;
    let plan = plain.bulk_fill_loop_plan(ENTRY, at).unwrap();
    assert_eq!(plan.target, TCVAR);
    for key in [plan.counter, TCVAR] {
        assert!(
            guarded(&spec, LOCAL, Some(key))
                .bulk_fill_loop_plan(ENTRY, at)
                .is_none()
        );
    }
    assert!(
        guarded(&spec, LOCAL, Some(FLAG))
            .bulk_fill_loop_plan(ENTRY, at)
            .is_some()
    );
}

#[test]
fn bulk_copy_reference_metadata_disables_each_plan_dependency() {
    let spec = copy_loop(0, 0, 4, 1, 4);
    let plain = guarded(&spec, COUNT, None);
    let at = plain.bulk_loops[0].instruction;
    let plan = plain.bulk_fill_loop_plan(ENTRY, at).unwrap();
    let source = match &plan.operation {
        BulkArrayOperation::Copy { source, .. } => *source,
        BulkArrayOperation::Fill(_) => panic!("copy plan"),
    };
    assert_ne!(plan.prefix.variable, plan.counter);
    for key in [source, plan.target, plan.prefix.variable, plan.counter] {
        assert!(
            guarded(&spec, COUNT, Some(key))
                .bulk_fill_loop_plan(ENTRY, at)
                .is_none()
        );
    }
}

/// A program whose function holds one counting loop around this body, with the loops found in it.
fn found(counter: Option<i64>, body: &dyn Fn(&mut Code)) -> ProgramGeneration {
    let mut code = Code { out: Vec::new() };
    if let Some(index) = counter {
        code.push(index);
    }
    code.access(Opcode::MakePlace, LOCAL, u16::from(counter.is_some()));
    code.push(0);
    code.push(4);
    code.push(1);
    code.op(Opcode::ForStart, &[]);
    let enter = code.jump(Opcode::JumpIfFalse, 0);
    let first = code.out.len();
    body(&mut code);
    code.op(Opcode::ForNext, &[]);
    let leave = code.jump(Opcode::JumpIfFalse, 0);
    code.jump(Opcode::Jump, first);
    code.land(enter);
    code.land(leave);
    code.op(Opcode::Nop, &[]);
    code.op(Opcode::Return, &[0]);
    let spec = counting(0, 4, 1, 1, fill(TCVAR, LOCAL, 0));
    let mut program = program(&spec, SMALL, false);
    program.functions[0].code = code.out;
    program.bulk_loops = program.find_bulk_loops();
    program
}

fn any_plan(program: &ProgramGeneration) -> bool {
    (0..program.functions[0].code.len())
        .any(|instruction| program.bulk_fill_loop_plan(ENTRY, instruction).is_some())
}

/// Loads `LOCAL` or one of its cells.
fn load_local(code: &mut Code, index: Option<i64>) {
    if let Some(index) = index {
        code.push(index);
    }
    code.access(Opcode::LoadVariable, LOCAL, u16::from(index.is_some()));
}

#[test]
fn bulk_fill_plan_recognizes_disjoint_local_cells_and_rejects_mutated_prefix() {
    for (prefix, counter, fill, expected) in [
        (None, Some(1), Some(0), true),
        (Some(0), Some(1), Some(0), true),
        (None, Some(0), Some(0), false),
        (Some(1), Some(1), Some(0), false),
        (None, Some(1), Some(1), false),
        (None, Some(1), None, false),
    ] {
        let program = found(counter, &|code| {
            load_local(code, prefix);
            load_local(code, counter);
            match fill {
                Some(value) => code.push(value),
                None => load_local(code, None),
            }
            code.access(Opcode::StoreVariable, TCVAR, 2);
        });
        assert_eq!(any_plan(&program), expected, "{prefix:?} {counter:?} {fill:?}");
    }
}

/// The column of the target: `4 + LOCAL:1` behind the row.
fn shifted_column(code: &mut Code) {
    load_local(code, None);
    code.push(4);
    load_local(code, Some(1));
    code.op(Opcode::Binary, &[3]);
}

#[test]
fn bulk_copy_planner_rejects_aliases_changed_rows_and_side_effects() {
    let copy = |source: SymbolKey| {
        move |code: &mut Code| {
            shifted_column(code);
            load_local(code, None);
            load_local(code, Some(1));
            code.access(Opcode::LoadVariable, source, 2);
            code.access(Opcode::StoreVariable, TCVAR, 2);
        }
    };
    assert!(any_plan(&found(Some(1), &copy(EXP))));
    assert!(!any_plan(&found(Some(1), &copy(TCVAR))));
    let other_row = found(Some(1), &|code| {
        shifted_column(code);
        code.push(1);
        load_local(code, Some(1));
        code.access(Opcode::LoadVariable, EXP, 2);
        code.access(Opcode::StoreVariable, TCVAR, 2);
    });
    assert!(!any_plan(&other_row));
    let side_effect = found(Some(1), &|code| {
        copy(EXP)(code);
        code.push(1);
        let mut payload = RESULT.0.to_le_bytes().to_vec();
        payload.extend([0, 0, 1]);
        code.op(Opcode::StoreVariable, &payload);
    });
    assert!(!any_plan(&side_effect));
    let added = found(Some(1), &|code| {
        shifted_column(code);
        load_local(code, None);
        load_local(code, Some(1));
        code.access(Opcode::LoadVariable, EXP, 2);
        let mut payload = TCVAR.0.to_le_bytes().to_vec();
        payload.extend([2, 0, 1]);
        code.op(Opcode::StoreVariable, &payload);
    });
    assert!(!any_plan(&added));
}

#[test]
fn the_plan_of_a_loop_is_found_in_its_code() {
    for spec in [
        counting(0, 4, 1, 1, fill(TCVAR, LOCAL, 0)),
        counting(0, 4, 1, 1, fill(DA, LOCAL, 0)),
        counting(0, 4, 1, 0, fill(DA, FLAG, 7)),
        copy_loop(0, 0, 4, 1, 4),
    ] {
        let program = program(&spec, SMALL, true);
        assert_eq!(program.find_bulk_loops(), program.bulk_loops);
        let at = program.bulk_loops[0].instruction;
        assert_eq!(program.bulk_loop_at(ENTRY, at).as_ref(), program.bulk_loops.first());
        assert_eq!(program.bulk_loop_at(ENTRY, at + 1), None);
        assert_eq!(program.bulk_loop_at(SymbolKey(101), at), None);
    }
}
