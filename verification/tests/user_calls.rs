//! Calls of user functions: resolving, capturing arguments, calling.

use std::rc::Rc;

use erabasic_vm::calls::{CallMemo, CallStep, FunctionLookup, NativeFacts, PathLookup};
use erabasic_vm::fault::{FaultCategory, ScriptFaultKind, StepError, VmFaultCode};
use erabasic_vm::frames::make_frame;
use erabasic_vm::memory::{BytecodeStorage, CellData, CellMap, VariableCell};
use erabasic_vm::program::{
    BytecodeFunction, BytecodeFunctionKind, BytecodeGlobal, CallCompatibility, ExcessArgumentPolicy,
    FunctionImport, ImportKind, Instruction, IntegerArithmeticPolicy, Opcode, ProgramGeneration, UserArgumentSpec, UserCallMode,
    UserCallSpec,
};
use erabasic_vm::state::{
    ExecutionPolicy, Fiber, FiberState, Frame, InstructionPosition, LoadedGeneration, Memory,
    ResolvedUserCall, StepOutcome, UserArgumentBinding, Vm, VmConfig,
};
use erabasic_vm::user_calls::{
    checked_user_target, decode_user_consumer, user_origin, FoundTarget, UserStep,
};
use erabasic_vm::value::{
    BytecodeType, FiberId, FrameId, GenerationId, PlaceDescriptor, SymbolKey, VmValue,
};

const ENTRY: SymbolKey = SymbolKey(100);
const TARGET: SymbolKey = SymbolKey(101);
const RESULT: SymbolKey = SymbolKey(1);
const ARG: SymbolKey = SymbolKey(2);
const ARGS: SymbolKey = SymbolKey(3);
const RESULTS: SymbolKey = SymbolKey(4);
const FLAG: SymbolKey = SymbolKey(5);
const NEXT_VALUE: SymbolKey = SymbolKey(102);
const GENERATION: GenerationId = GenerationId(1);

fn plain(opcode: Opcode, payload: Vec<u8>) -> Instruction {
    Instruction {
        opcode,
        payload,
        user_call: None,
        bit_call: None,
    }
}

fn integer(value: i64) -> Instruction {
    plain(Opcode::PushInteger, value.to_le_bytes().to_vec())
}

fn text(value: &str) -> Instruction {
    let mut payload = (value.len() as u32).to_le_bytes().to_vec();
    payload.extend(value.as_bytes());
    plain(Opcode::PushString, payload)
}

fn access(opcode: Opcode, key: SymbolKey, indices: u16) -> Instruction {
    let mut payload = key.0.to_le_bytes().to_vec();
    payload.extend(indices.to_le_bytes());
    payload.push(0);
    plain(opcode, payload)
}

fn jump(target: u32) -> Instruction {
    plain(Opcode::Jump, target.to_le_bytes().to_vec())
}

fn spec(arguments: usize, missing_target: u32) -> UserCallSpec {
    UserCallSpec {
        mode: UserCallMode::Call,
        allow_missing: true,
        missing_target,
        arguments: vec![UserArgumentSpec::Value(BytecodeType::Integer); arguments],
    }
}

fn resolve(spec: UserCallSpec) -> Instruction {
    Instruction {
        opcode: Opcode::ResolveUserCall,
        payload: Vec::new(),
        user_call: Some(Rc::new(spec)),
        bit_call: None,
    }
}

fn guard(resolve: u32, slot: u16, target: u32) -> Instruction {
    let mut payload = resolve.to_le_bytes().to_vec();
    payload.extend(slot.to_le_bytes());
    payload.extend(target.to_le_bytes());
    plain(Opcode::GuardUserArgument, payload)
}

fn capture(resolve: u32, slot: u16) -> Instruction {
    let mut payload = resolve.to_le_bytes().to_vec();
    payload.extend(slot.to_le_bytes());
    payload.push(0);
    plain(Opcode::CaptureUserArgument, payload)
}

fn invoke(resolve: u32) -> Instruction {
    plain(Opcode::InvokeUserCall, resolve.to_le_bytes().to_vec())
}

/// `TRYCALLFORM TARGET(1, 2)`, `TRYCALLFORM ABSENT(3)`, `RETURN RESULT`
fn entry_code() -> Vec<Instruction> {
    vec![
        text("TARGET"),
        resolve(spec(2, 10)),
        guard(1, 0, 8),
        integer(1),
        capture(1, 0),
        guard(1, 1, 8),
        integer(2),
        capture(1, 1),
        invoke(1),
        jump(11),
        plain(Opcode::Pop, Vec::new()),
        text("ABSENT"),
        resolve(spec(1, 18)),
        guard(12, 0, 16),
        integer(3),
        capture(12, 0),
        invoke(12),
        jump(19),
        plain(Opcode::Pop, Vec::new()),
        access(Opcode::LoadVariable, RESULT, 0),
        plain(Opcode::Return, vec![1]),
    ]
}

/// `RESULT = ARG + ARG:1`, `RETURN RESULT`
fn target_code() -> Vec<Instruction> {
    vec![
        access(Opcode::LoadVariable, ARG, 0),
        integer(1),
        access(Opcode::LoadVariable, ARG, 1),
        plain(Opcode::Binary, vec![3]),
        access(Opcode::StoreVariable, RESULT, 0),
        access(Opcode::LoadVariable, RESULT, 0),
        plain(Opcode::Return, vec![1]),
    ]
}

fn function(key: SymbolKey, name: &str, code: Vec<Instruction>) -> BytecodeFunction {
    BytecodeFunction {
        key,
        name: name.to_string(),
        kind: BytecodeFunctionKind::Normal,
        parameters: Vec::new(),
        result: None,
        code,
        labels: Vec::new(),
        imports: Vec::new(),
    }
}

fn variable(
    key: SymbolKey,
    name: &str,
    owner: Option<SymbolKey>,
    storage: BytecodeStorage,
    dimensions: &[u64],
) -> BytecodeGlobal {
    BytecodeGlobal {
        key,
        name: name.to_string(),
        owner,
        value_type: BytecodeType::Integer,
        storage,
        dimensions: dimensions.to_vec(),
        mutable: true,
    }
}

fn program() -> ProgramGeneration {
    let globals = vec![
        variable(RESULT, "RESULT", None, BytecodeStorage::Project, &[1]),
        variable(
            ARG,
            "ARG",
            Some(TARGET),
            BytecodeStorage::FunctionLocal,
            &[2],
        ),
    ];
    let functions = vec![
        function(ENTRY, "SYSTEM_TITLE", entry_code()),
        function(TARGET, "TARGET", target_code()),
    ];
    ProgramGeneration {
        globals,
        functions,
        event_groups: Vec::new(),
        host_imports: Vec::new(),
        native_imports: Vec::new(),
        call_compatibility: CallCompatibility {
            allow_event_as_normal: false,
            excess_arguments: ExcessArgumentPolicy::Reject,
            system_no_target: false,
            compatible_rand: false,
            allow_full_width_space: false,
            debug_semicolon: false,
            ignore_triple_symbols: false,
        },
        integer_policy: IntegerArithmeticPolicy::ReferenceWrappingV1,
        existvar_expression_probe: false,
        snake_data_apis: false,
        checked_runtime_forms: false,
        call_text: false,
        map_extensions: false,
        snake_input: false,
        staged_authorizations: Vec::new(),
        native_authorizations: Vec::new(),
        host_authorizations: Vec::new(),
        builtins: Vec::new(),
        map_operations: Vec::new(),
        user_resolutions: Vec::new(),
        runtime_variables: Vec::new(),
        named_indices: Vec::new(),
        foldable_services: Vec::new(),
        internal_columns: Vec::new(),
        structured_jumps: Vec::new(),
        literal_group_matches: Vec::new(),
        bulk_loops: Vec::new(),
        indexed_reads: Vec::new(),
        source_map: Vec::new(),
        characters: Vec::new(),
        default_character: 0,
        stain_default: Vec::new(),
        void_character: CellMap::new(),
    }
}

fn fixture() -> (Vm, Fiber) {
    let mut shared = CellMap::new();
    shared.push(
        RESULT,
        VariableCell {
            dimensions: vec![1],
            data: CellData::Integers(vec![0]),
        },
    );
    let vm = Vm {
        config: VmConfig {
            maximum_operand_stack: 1024,
            maximum_call_depth: 64,
            maximum_backward_branches_without_progress: 10_000,
        },
        generations: vec![LoadedGeneration {
            id: GENERATION,
            program: Rc::new(program()),
        }],
        current_generation: GENERATION,
        memory: Memory {
            shared,
            statics: CellMap::new(),
            characters: Vec::new(),
            array_leases: Vec::new(),
        },
        fibers: Vec::new(),
        next_frame: 2,
        next_request: 1,
        pending_compatibility_warnings: Vec::new(),
        compatibility_warning_sites: Vec::new(),
        path_memo_owner: None,
        active_function_memos: Vec::new(),
    };
    let program = vm.program(GENERATION).unwrap();
    let entry = program.function(ENTRY).unwrap();
    let frame = make_frame(
        FrameId(1),
        GENERATION,
        &program,
        entry,
        Vec::new(),
        false,
        false,
    );
    let fiber = Fiber {
        id: FiberId(1),
        frames: vec![frame],
        state: FiberState::Runnable,
        backward_branches_without_progress: 0,
    };
    (vm, fiber)
}

fn key_of(payload: &[u8]) -> Option<SymbolKey> {
    let bytes: [u8; 16] = payload.get(..16)?.try_into().ok()?;
    Some(SymbolKey(u128::from_le_bytes(bytes)))
}

/// The target of a call, as the names of the program give it.
fn find(program: &ProgramGeneration, name: &str, spec: &UserCallSpec) -> Option<FoundTarget> {
    let function = program.function_by_name(name)?;
    let bindings = spec
        .arguments
        .iter()
        .map(|argument| match argument {
            UserArgumentSpec::Omitted => UserArgumentBinding::Default(Some(Rc::new(
                VmValue::String("fallback".to_string()),
            ))),
            _ => UserArgumentBinding::Value(BytecodeType::Integer),
        })
        .collect();
    Some(FoundTarget {
        call: Rc::new(ResolvedUserCall {
            generation: GENERATION,
            function: function.key,
            mode: spec.mode,
            bindings,
        }),
        observable: true,
    })
}

/// Executes one instruction; gives the value that the whole run returns.
fn step(vm: &mut Vm, fiber: &mut Fiber) -> Result<Option<VmValue>, StepError> {
    let program = vm.program(GENERATION).unwrap();
    let running = fiber.top().function;
    let instruction = fiber.top().instruction;
    let encoded = &program.function(running).unwrap().code[instruction];
    let position = InstructionPosition {
        generation: GENERATION,
        function: running,
        instruction,
        variable: match encoded.opcode {
            Opcode::LoadVariable | Opcode::StoreVariable | Opcode::MakePlace => {
                key_of(&encoded.payload).and_then(|key| program.global(key))
            }
            _ => None,
        },
        opcode: encoded.opcode,
        payload: &encoded.payload,
    };
    let policy = ExecutionPolicy {
        allow_function_memo: false,
        allow_immediate_host: false,
        remaining_quantum: 1,
        remaining_instructions: 1,
    };
    match vm.execute_instruction(fiber, &position, policy)? {
        Some(StepOutcome::Continue) => return Ok(None),
        Some(StepOutcome::Returned(value)) => {
            let callee = fiber.frames.pop().unwrap();
            if fiber.frames.is_empty() {
                return Ok(value);
            }
            if callee.returns_value {
                fiber.top_mut().stack.push(value.unwrap());
            }
            return Ok(None);
        }
        Some(other) => panic!("{other:?}"),
        None => {}
    }
    match vm.dispatch_methods(fiber, &position, encoded.opcode)? {
        UserStep::Other => {
            let memo = CallMemo {
                selector: None,
                function: FunctionLookup::NoKey,
                path: PathLookup::NoHead,
            };
            let facts = NativeFacts {
                registered: false,
                path_safe: true,
                name_safe: true,
            };
            let called =
                vm.dispatch_calls(fiber, &position, encoded.opcode, policy, &memo, facts)?;
            assert!(matches!(called, CallStep::Done(StepOutcome::Continue)));
        }
        UserStep::Done => {}
        UserStep::Resolve { name, spec } => {
            let found = find(&program, &name, &spec);
            vm.finish_user_resolve(fiber, &position, &program, &name, &spec, Ok(found))?;
        }
        UserStep::Capture { actual, .. } => vm.finish_user_capture(fiber, Ok(actual))?,
        UserStep::Invoke { pending, .. } => {
            let bindings = &pending.call.bindings;
            let arguments: Vec<VmValue> = pending
                .captured
                .into_iter()
                .zip(bindings)
                .filter_map(|(captured, binding)| match binding {
                    UserArgumentBinding::Default(value) => value.as_deref().cloned(),
                    _ => captured,
                })
                .collect();
            let id = vm.allocate_frame_id();
            let target = program.function(pending.call.function).unwrap();
            let mut frame = make_frame(
                id,
                GENERATION,
                &program,
                target,
                arguments.clone(),
                false,
                false,
            );
            let mut index = 0;
            for value in arguments {
                if matches!(value, VmValue::Integer(_)) {
                    let at = frame.locals.find(ARG).unwrap();
                    frame.locals.entries[at].cell.set(index, value).unwrap();
                    index += 1;
                } else {
                    let at = frame.locals.find(ARGS).unwrap();
                    frame.locals.entries[at].cell.set(0, value).unwrap();
                }
            }
            fiber.frames.push(frame);
        }
    }
    vm.check_operand_stack(fiber)?;
    Ok(None)
}

/// What a run leaves: its instructions, its value, the machine and the length of each slice.
#[derive(Debug, PartialEq)]
struct ExecutionObservation {
    instructions: u64,
    value: VmValue,
    vm: Vm,
    slices: Vec<u64>,
}

fn finish(mut vm: Vm, mut fiber: Fiber, maximum: u64) -> ExecutionObservation {
    let mut instructions = 0;
    let mut slices = Vec::new();
    for _ in 0..1_000 {
        let mut used = 0;
        while used < maximum {
            used += 1;
            if let Some(value) = step(&mut vm, &mut fiber).unwrap() {
                instructions += used;
                slices.push(used);
                return ExecutionObservation {
                    instructions,
                    value,
                    vm,
                    slices,
                };
            }
        }
        instructions += used;
        slices.push(used);
    }
    panic!("bounded dynamic-call fixture did not finish");
}

fn guard_index(program: &ProgramGeneration) -> usize {
    program
        .function(ENTRY)
        .unwrap()
        .code
        .iter()
        .position(|instruction| instruction.opcode == Opcode::GuardUserArgument)
        .unwrap()
}

fn invalid(message: &str) -> StepError {
    StepError::new(VmFaultCode::InvalidInstruction, message)
}

fn at<'a>(instruction: usize, opcode: Opcode, payload: &'a [u8]) -> InstructionPosition<'a> {
    InstructionPosition {
        generation: GENERATION,
        function: ENTRY,
        instruction,
        variable: None,
        opcode,
        payload,
    }
}

/// A machine that stands at its first guard.
fn at_guard() -> (Vm, Fiber) {
    let (mut vm, mut fiber) = fixture();
    let instruction = guard_index(&vm.program(GENERATION).unwrap());
    for _ in 0..100 {
        if fiber.top().instruction == instruction {
            return (vm, fiber);
        }
        step(&mut vm, &mut fiber).unwrap();
    }
    panic!("fixture did not reach a real argument consumer");
}

#[test]
fn decoded_user_call_bad_origins_keep_errors_with_and_without_cache() {
    for kind in [
        "out_of_bounds",
        "non_resolve",
        "not_earlier",
        "invalid_payload",
    ] {
        let mut program = program();
        let instruction = guard_index(&program);
        let mut payload = program.functions[0].code[instruction].payload.clone();
        let resolve = u32::from_le_bytes(payload[..4].try_into().unwrap()) as usize;
        let mut expected = invalid("user consumer has no earlier resolve origin");
        let mut standing = instruction;
        match kind {
            "out_of_bounds" => payload[..4].copy_from_slice(&u32::MAX.to_le_bytes()),
            "non_resolve" => payload[..4].copy_from_slice(&0_u32.to_le_bytes()),
            "not_earlier" => standing = resolve,
            "invalid_payload" => {
                program.functions[0].code[resolve].user_call = None;
                expected = invalid("user-call operands are malformed");
            }
            _ => unreachable!(),
        }
        let position = at(standing, Opcode::GuardUserArgument, &payload);
        assert_eq!(user_origin(&position, &program).unwrap_err(), expected, "{kind}");
    }
}

#[test]
fn decoded_user_call_consumer_rejects_tokens_after_prior_operand_checks() {
    let (vm, fiber) = at_guard();
    let program = vm.program(GENERATION).unwrap();
    let caller = fiber.top();
    let instruction = caller.instruction;
    let original_payload = program.functions[0].code[instruction].payload.clone();
    let position = at(instruction, Opcode::GuardUserArgument, &original_payload);
    assert!(decode_user_consumer(caller, &position, Opcode::GuardUserArgument, &program).is_ok());
    let (_, mut other) = at_guard();
    let wrong: &mut Frame = other.frames.last_mut().unwrap();
    for token in [
        VmValue::String("wrong target".to_string()),
        VmValue::Integer(0),
    ] {
        *wrong.stack.last_mut().unwrap() = token;
        assert_eq!(
            decode_user_consumer(wrong, &position, Opcode::GuardUserArgument, &program)
                .err()
                .unwrap(),
            invalid("user token, generation, origin or slot progress differs")
        );
    }
    for (kind, expected) in [
        ("length", "invalid user consumer operands"),
        ("origin", "user consumer has no earlier resolve origin"),
        ("slot", "user argument slot is out of bounds"),
    ] {
        let mut payload = original_payload.clone();
        match kind {
            "length" => {
                payload.pop();
            }
            "origin" => payload[..4].copy_from_slice(&u32::MAX.to_le_bytes()),
            "slot" => payload[4..6].copy_from_slice(&u16::MAX.to_le_bytes()),
            _ => unreachable!(),
        }
        let invalid_position = at(instruction, Opcode::GuardUserArgument, &payload);
        assert_eq!(
            decode_user_consumer(wrong, &invalid_position, Opcode::GuardUserArgument, &program)
                .err()
                .unwrap(),
            invalid(expected)
        );
    }
}

#[test]
fn decoded_user_call_origin_borrows_and_falls_back_without_weakening_checks() {
    let program = program();
    let instruction = guard_index(&program);
    let payload = program.functions[0].code[instruction].payload.clone();
    let position = at(instruction, Opcode::GuardUserArgument, &payload);
    let (resolve, shared) = user_origin(&position, &program).unwrap();
    let (again, same) = user_origin(&position, &program).unwrap();
    assert_eq!(resolve, 1);
    assert_eq!(again, resolve);
    assert!(Rc::ptr_eq(&shared, &same));
    assert_eq!(*shared, spec(2, 10));
}

#[test]
fn decoded_user_call_cache_preserves_complete_state_events_and_slice_accounting() {
    for maximum in [1, 16, 100_000] {
        let (cached, cached_fiber) = fixture();
        let (mut uncached, uncached_fiber) = fixture();
        // An equal program that was built anew; a program holds the operands of its calls as data.
        for generation in &mut uncached.generations {
            generation.program = Rc::new(program());
        }
        let actual = finish(cached, cached_fiber, maximum);
        assert_eq!(actual.value, VmValue::Integer(3));
        assert_eq!(actual.slices.iter().sum::<u64>(), actual.instructions);
        assert_eq!(actual, finish(uncached, uncached_fiber, maximum));
    }
}

#[test]
fn a_missing_target_goes_on_behind_the_call() {
    let (mut vm, mut fiber) = fixture();
    fiber.frames.last_mut().unwrap().instruction = 11;
    step(&mut vm, &mut fiber).unwrap();
    step(&mut vm, &mut fiber).unwrap();
    assert_eq!(fiber.top().instruction, 18);
    assert_eq!(fiber.top().stack, [VmValue::String(String::new())]);
    assert!(fiber.top().user_calls.is_empty());
}

#[test]
fn a_missing_target_faults_where_it_is_demanded() {
    let (mut vm, mut fiber) = fixture();
    let strict = UserCallSpec {
        allow_missing: false,
        ..spec(1, 18)
    };
    let program = vm.program(GENERATION).unwrap();
    let position = at(12, Opcode::ResolveUserCall, &[]);
    let error = vm
        .finish_user_resolve(&mut fiber, &position, &program, "ABSENT", &strict, Ok(None))
        .unwrap_err();
    assert_eq!(error.category, FaultCategory::Script(ScriptFaultKind::Resolve));
    assert_eq!(error.code, VmFaultCode::MissingSymbol);
    assert_eq!(error.message, "dynamic user target ABSENT is missing");
}

#[test]
fn a_call_over_the_operand_limit_is_refused() {
    let (mut vm, mut fiber) = fixture();
    vm.config.maximum_operand_stack = 3;
    step(&mut vm, &mut fiber).unwrap();
    let error = step(&mut vm, &mut fiber).unwrap_err();
    assert_eq!(error.category, FaultCategory::ResourceLimit);
    assert_eq!(error.message, "maximum user-call state exceeded");
    assert!(fiber.top().user_calls.is_empty());
}

#[test]
fn a_branch_stays_inside_its_function() {
    let program = program();
    assert!(checked_user_target(&program, ENTRY, 20).is_ok());
    assert_eq!(
        checked_user_target(&program, ENTRY, 21).unwrap_err(),
        invalid("user-call branch leaves its function")
    );
    assert_eq!(
        checked_user_target(&program, SymbolKey(9), 0).unwrap_err(),
        invalid("user-call branch leaves its function")
    );
}

#[test]
fn arguments_arrive_in_their_order() {
    let (mut vm, mut fiber) = fixture();
    for _ in 0..9 {
        step(&mut vm, &mut fiber).unwrap();
    }
    assert_eq!(fiber.frames.len(), 2);
    assert_eq!(
        fiber.top().arguments,
        [VmValue::Integer(1), VmValue::Integer(2)]
    );
    let mut place = PlaceDescriptor::of_variable(ARG);
    place.indices = vec![1];
    place.frame = Some(fiber.top().id);
    assert_eq!(
        vm.read_place(&fiber, &place).unwrap(),
        VmValue::Integer(2)
    );
}

/// `TRYCALLFORM TARGET(1, , NEXT_VALUE())` with its functions: the omitted argument takes its
/// default, and the last one is the value of another call.
fn nested_fixture() -> (Vm, Fiber) {
    let (mut vm, mut fiber) = fixture();
    let mut program = program();
    let with_default = UserCallSpec {
        arguments: vec![
            UserArgumentSpec::Value(BytecodeType::Integer),
            UserArgumentSpec::Omitted,
            UserArgumentSpec::Value(BytecodeType::Integer),
        ],
        ..spec(0, 11)
    };
    let mut advance = 1u32.to_le_bytes().to_vec();
    advance.extend(1u16.to_le_bytes());
    advance.push(0);
    let mut call = 0u32.to_le_bytes().to_vec();
    call.extend(0u16.to_le_bytes());
    program.functions = vec![
        BytecodeFunction {
            imports: vec![FunctionImport {
                kind: ImportKind::Function,
                key: NEXT_VALUE,
            }],
            ..function(
                ENTRY,
                "SYSTEM_TITLE",
                vec![
                    text("TARGET"),
                    resolve(with_default),
                    guard(1, 0, 9),
                    integer(1),
                    capture(1, 0),
                    plain(Opcode::AdvanceUserArgument, advance),
                    guard(1, 2, 9),
                    plain(Opcode::Call, call),
                    capture(1, 2),
                    invoke(1),
                    jump(12),
                    plain(Opcode::Pop, Vec::new()),
                    access(Opcode::LoadVariable, RESULT, 0),
                    plain(Opcode::Return, vec![1]),
                ],
            )
        },
        BytecodeFunction {
            kind: BytecodeFunctionKind::Method,
            result: Some(BytecodeType::Integer),
            ..function(
                NEXT_VALUE,
                "NEXT_VALUE",
                vec![
                    access(Opcode::LoadVariable, FLAG, 0),
                    integer(1),
                    plain(Opcode::Binary, vec![3]),
                    access(Opcode::StoreVariable, FLAG, 0),
                    integer(2),
                    plain(Opcode::Return, vec![1]),
                ],
            )
        },
        function(
            TARGET,
            "TARGET",
            vec![
                access(Opcode::LoadVariable, ARG, 0),
                integer(10),
                plain(Opcode::Binary, vec![0]),
                integer(1),
                access(Opcode::LoadVariable, ARG, 1),
                plain(Opcode::Binary, vec![3]),
                access(Opcode::StoreVariable, RESULT, 0),
                access(Opcode::LoadVariable, ARGS, 0),
                access(Opcode::StoreVariable, RESULTS, 0),
                access(Opcode::LoadVariable, RESULT, 0),
                plain(Opcode::Return, vec![1]),
            ],
        ),
    ];
    program.globals.push(BytecodeGlobal {
        value_type: BytecodeType::String,
        ..variable(ARGS, "ARGS", Some(TARGET), BytecodeStorage::FunctionLocal, &[1])
    });
    program.globals.push(BytecodeGlobal {
        value_type: BytecodeType::String,
        ..variable(RESULTS, "RESULTS", None, BytecodeStorage::Project, &[1])
    });
    program
        .globals
        .push(variable(FLAG, "FLAG", None, BytecodeStorage::Project, &[1]));
    vm.memory.shared.push(
        RESULTS,
        VariableCell {
            dimensions: vec![1],
            data: CellData::Strings(vec![String::new()]),
        },
    );
    vm.memory.shared.push(
        FLAG,
        VariableCell {
            dimensions: vec![1],
            data: CellData::Integers(vec![0]),
        },
    );
    vm.generations[0].program = Rc::new(program);
    let program = vm.program(GENERATION).unwrap();
    fiber.frames = vec![make_frame(
        FrameId(1),
        GENERATION,
        &program,
        program.function(ENTRY).unwrap(),
        Vec::new(),
        false,
        false,
    )];
    (vm, fiber)
}

#[test]
fn dynamic_user_call_borrowed_bindings_keep_nested_capture_and_defaults() {
    let (vm, fiber) = nested_fixture();
    let whole = finish(vm, fiber, 100_000);
    for maximum in [1, 16, 100_000] {
        let (vm, fiber) = nested_fixture();
        let run = finish(vm, fiber, maximum);
        assert_eq!(run.instructions, whole.instructions);
        assert_eq!(run.value, VmValue::Integer(12));
        assert_eq!(run.vm, whole.vm);
        for (key, value) in [
            (RESULT, VmValue::Integer(12)),
            (RESULTS, VmValue::String("fallback".to_string())),
            (FLAG, VmValue::Integer(1)),
        ] {
            let (_, fiber) = nested_fixture();
            let place = PlaceDescriptor::of_variable(key);
            assert_eq!(run.vm.read_place(&fiber, &place).unwrap(), value);
        }
    }
}
