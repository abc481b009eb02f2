//! Calls of functions, machine services and the host.

use std::rc::Rc;

use erabasic_vm::calls::{
    CallMemo, CallStep, FunctionLookup, HostReply, NativeEnd, NativeFacts, PathLookup,
};
use erabasic_vm::fault::{FaultCategory, StepError, VmFaultCode};
use erabasic_vm::memory::{BytecodeStorage, CellData, CellMap, VariableCell};
use erabasic_vm::program::{
    BytecodeFunction, BytecodeFunctionKind, BytecodeGlobal, BytecodeParameter, CallCompatibility,
    ExcessArgumentPolicy, FunctionImport, HostImport, ImportKind, IntegerArithmeticPolicy,
    LiteralGroupMatchPlan, NativeImport, Opcode, ProgramGeneration, RuntimeImport, SourceLocation,
    SourceMapEntry,
};
use erabasic_vm::services::NativeReady;
use erabasic_vm::state::{
    ExecutionPolicy, Fiber, FiberState, Frame, HostWaitStability, InstructionPosition,
    LoadedGeneration, Memory, StepOutcome, Vm, VmConfig,
};
use erabasic_vm::value::{BytecodeType, FiberId, FrameId, GenerationId, SymbolKey, VmValue};

const ENTRY: SymbolKey = SymbolKey(100);
const TARGET: SymbolKey = SymbolKey(101);
const EVENT: SymbolKey = SymbolKey(102);
const ARG: SymbolKey = SymbolKey(1);
const NATIVE: SymbolKey = SymbolKey(200);
const HOST: SymbolKey = SymbolKey(300);
const GENERATION: GenerationId = GenerationId(1);

fn global() -> BytecodeGlobal {
    BytecodeGlobal {
        key: ARG,
        name: "ARG".to_string(),
        owner: Some(TARGET),
        value_type: BytecodeType::Integer,
        storage: BytecodeStorage::FunctionStatic,
        dimensions: vec![1],
        mutable: true,
    }
}

fn function(key: SymbolKey, name: &str, kind: BytecodeFunctionKind) -> BytecodeFunction {
    BytecodeFunction {
        key,
        name: name.to_string(),
        kind,
        parameters: Vec::new(),
        result: None,
        code: Vec::new(),
        labels: Vec::new(),
        imports: Vec::new(),
    }
}

fn import(key: SymbolKey, name: &str) -> Rc<RuntimeImport> {
    Rc::new(RuntimeImport {
        key,
        namespace: "test".to_string(),
        name: name.to_string(),
        parameters: vec![BytecodeType::Integer],
        result: Some(BytecodeType::Integer),
    })
}

fn program() -> ProgramGeneration {
    let imports = [
        (TARGET, ImportKind::Function),
        (NATIVE, ImportKind::Native),
        (HOST, ImportKind::Host),
        (EVENT, ImportKind::Function),
    ];
    let mut entry = function(ENTRY, "SYSTEM_TITLE", BytecodeFunctionKind::Normal);
    entry.imports = imports
        .into_iter()
        .map(|(key, kind)| FunctionImport { key, kind })
        .collect();
    let mut target = function(TARGET, "TARGET", BytecodeFunctionKind::Normal);
    target.parameters = vec![BytecodeParameter {
        variable: ARG,
        value_type: BytecodeType::Integer,
        by_reference: false,
        default: None,
    }];
    let functions = vec![
        entry,
        target,
        function(EVENT, "EVENTFIRST", BytecodeFunctionKind::Event),
    ];
    let host_imports = vec![HostImport {
        import: import(HOST, "ASK"),
        may_suspend: true,
        stable_wait: false,
    }];
    let native_imports = vec![NativeImport {
        import: import(NATIVE, "ABS"),
        normalized_name: "abs".to_string(),
    }];
    let literal_group_matches = vec![LiteralGroupMatchPlan {
        function: ENTRY,
        instruction: 3,
        candidates: vec!["玄".to_string(), "関".to_string()],
        after_call: 9,
    }];
    ProgramGeneration {
        globals: vec![global()],
        functions,
        event_groups: Vec::new(),
        host_imports,
        native_imports,
        call_compatibility: CallCompatibility {
            allow_event_as_normal: false,
            excess_arguments: ExcessArgumentPolicy::Reject,
            system_no_target: false,
            compatible_rand: false,
            allow_full_width_space: false,
            debug_semicolon: false,
            ignore_triple_symbols: false,
        },
        integer_policy: IntegerArithmeticPolicy::ReferenceWrappingV1,
        existvar_expression_probe: false,
        snake_data_apis: false,
        checked_runtime_forms: false,
        call_text: false,
        map_extensions: false,
        snake_input: false,
        staged_authorizations: Vec::new(),
        native_authorizations: Vec::new(),
        host_authorizations: Vec::new(),
        builtins: Vec::new(),
        map_operations: Vec::new(),
        user_resolutions: Vec::new(),
        runtime_variables: Vec::new(),
        named_indices: Vec::new(),
        foldable_services: Vec::new(),
        internal_columns: Vec::new(),
        structured_jumps: Vec::new(),
        literal_group_matches,
        bulk_loops: Vec::new(),
        indexed_reads: Vec::new(),
        source_map: vec![SourceMapEntry {
            function: ENTRY,
            instruction: 0,
            location: SourceLocation { file: 2, line: 7 },
        }],
        characters: Vec::new(),
        default_character: 0,
        stain_default: Vec::new(),
        void_character: CellMap::new(),
    }
}

fn machine() -> (Vm, Fiber) {
    let mut statics = CellMap::new();
    statics.push(
        ARG,
        VariableCell {
            dimensions: vec![1],
            data: CellData::Integers(vec![0]),
        },
    );
    let vm = Vm {
        config: VmConfig {
            maximum_operand_stack: 64,
            maximum_call_depth: 2,
            maximum_backward_branches_without_progress: 10_000,
        },
        generations: vec![LoadedGeneration {
            id: GENERATION,
            program: Rc::new(program()),
        }],
        current_generation: GENERATION,
        memory: Memory {
            shared: CellMap::new(),
            statics,
            characters: Vec::new(),
            array_leases: Vec::new(),
        },
        fibers: Vec::new(),
        next_frame: 2,
        next_request: 40,
        pending_compatibility_warnings: Vec::new(),
        compatibility_warning_sites: Vec::new(),
        path_memo_owner: None,
        active_function_memos: Vec::new(),
    };
    let fiber = Fiber {
        id: FiberId(1),
        frames: vec![Frame {
            id: FrameId(1),
            generation: GENERATION,
            function: ENTRY,
            instruction: 0,
            stack: vec![VmValue::Integer(9), VmValue::Integer(-5)],
            locals: CellMap::new(),
            arguments: Vec::new(),
            for_loops: Vec::new(),
            select_values: Vec::new(),
            user_calls: Vec::new(),
            existvar_checks: Vec::new(),
            bit_calls: Vec::new(),
            returns_value: false,
            event_context: false,
            event_dispatch: None,
            runtime_form: None,
        }],
        state: FiberState::Runnable,
        backward_branches_without_progress: 0,
    };
    (vm, fiber)
}

fn policy() -> ExecutionPolicy {
    ExecutionPolicy {
        allow_function_memo: true,
        allow_immediate_host: false,
        remaining_quantum: 100,
        remaining_instructions: 100,
    }
}

fn payload(index: u32, count: u16) -> Vec<u8> {
    let mut payload = index.to_le_bytes().to_vec();
    payload.extend(count.to_le_bytes());
    payload
}

fn position(opcode: Opcode, payload: &[u8]) -> InstructionPosition<'_> {
    InstructionPosition {
        generation: GENERATION,
        function: ENTRY,
        instruction: 0,
        variable: None,
        opcode,
        payload,
    }
}

fn call(
    vm: &mut Vm,
    fiber: &mut Fiber,
    opcode: Opcode,
    payload: &[u8],
) -> Result<CallStep, StepError> {
    vm.dispatch_calls(
        fiber,
        &position(opcode, payload),
        opcode,
        policy(),
        &CallMemo {
            selector: None,
            function: FunctionLookup::NoKey,
            path: PathLookup::NoHead,
        },
        NativeFacts {
            registered: true,
            path_safe: true,
            name_safe: true,
        },
    )
}

#[test]
fn a_function_gets_a_frame_and_its_arguments() {
    let (mut vm, mut fiber) = machine();
    let step = call(&mut vm, &mut fiber, Opcode::Call, &payload(0, 1)).unwrap();
    assert!(matches!(step, CallStep::Done(StepOutcome::Continue)));
    assert_eq!(fiber.frames.len(), 2);
    assert_eq!(fiber.frames[0].stack, [VmValue::Integer(9)]);
    assert_eq!(fiber.top().id, FrameId(2));
    assert_eq!(fiber.top().function, TARGET);
    assert_eq!(fiber.top().arguments, [VmValue::Integer(-5)]);
    assert_eq!(vm.next_frame, 3);
    assert_eq!(
        vm.memory.statics.get(ARG).unwrap().data,
        CellData::Integers(vec![-5])
    );
}

#[test]
fn calls_are_bounded_in_depth() {
    let (mut vm, mut fiber) = machine();
    vm.config.maximum_call_depth = 1;
    let error = call(&mut vm, &mut fiber, Opcode::Call, &payload(0, 1))
        .err()
        .unwrap();
    assert_eq!(error.category, FaultCategory::ResourceLimit);
    assert_eq!(fiber.frames.len(), 1);
}

#[test]
fn imports_and_operations_must_agree() {
    let (mut vm, mut fiber) = machine();
    let error = call(&mut vm, &mut fiber, Opcode::CallHost, &payload(0, 1))
        .err()
        .unwrap();
    assert_eq!(error.message, "call opcode and import kind differ");
    let error = call(&mut vm, &mut fiber, Opcode::Call, &payload(7, 1))
        .err()
        .unwrap();
    assert_eq!(error.message, "call import is missing");
    let error = call(&mut vm, &mut fiber, Opcode::Call, &payload(3, 0))
        .err()
        .unwrap();
    assert_eq!(
        error.message,
        "event function EVENTFIRST cannot be called as an ordinary function"
    );
    let error = call(&mut vm, &mut fiber, Opcode::Call, &payload(0, 7))
        .err()
        .unwrap();
    assert_eq!(error.code, VmFaultCode::StackUnderflow);
}

#[test]
fn a_machine_service_answers_with_a_value() {
    let (mut vm, mut fiber) = machine();
    let CallStep::Native(work) =
        call(&mut vm, &mut fiber, Opcode::CallNative, &payload(1, 1)).unwrap()
    else {
        panic!("service call")
    };
    assert_eq!(work.key, NATIVE);
    assert_eq!(work.arguments, [VmValue::Integer(-5)]);
    let end = vm
        .finish_native_call(
            &mut fiber,
            work.import.result,
            NativeReady::value(VmValue::Integer(5)),
            false,
        )
        .unwrap();
    assert!(matches!(end, NativeEnd::Done));
    assert_eq!(
        fiber.top().stack,
        [VmValue::Integer(9), VmValue::Integer(5)]
    );
}

#[test]
fn a_reply_of_the_wrong_type_is_rolled_back() {
    let (mut vm, mut fiber) = machine();
    let wrong = || NativeReady::value(VmValue::String("5".to_string()));
    let result = Some(BytecodeType::Integer);
    assert!(vm
        .finish_native_call(&mut fiber, result, wrong(), false)
        .is_err());
    let end = vm
        .finish_native_call(&mut fiber, result, wrong(), true)
        .unwrap();
    assert!(matches!(end, NativeEnd::RollBack(_)));
    assert_eq!(fiber.top().stack.len(), 2);
}

#[test]
fn a_host_call_waits_for_its_reply() {
    let (mut vm, mut fiber) = machine();
    let code = payload(2, 1);
    let CallStep::Host(work) = call(&mut vm, &mut fiber, Opcode::CallHost, &code).unwrap() else {
        panic!("host call")
    };
    assert!(!work.immediate);
    let mut host_calls: u32 = 0;
    let request = vm.request_host_call(
        &fiber,
        &position(Opcode::CallHost, &code),
        work,
        &mut host_calls,
    );
    assert_eq!((request.id, vm.next_request, host_calls), (40, 41, 1));
    assert_eq!(request.origin.command, "ASK");
    assert_eq!(
        request.origin.source,
        Some(SourceLocation { file: 2, line: 7 })
    );
    let outcome = vm
        .finish_host_call(
            &mut fiber,
            request,
            HostReply::Pending {
                stability: HostWaitStability::Transient,
                rebind_payload: vec![1, 2],
            },
        )
        .unwrap();
    assert_eq!(outcome, StepOutcome::Blocked);
    let FiberState::WaitingHost(wait) = &fiber.state else {
        panic!("waiting")
    };
    assert_eq!(wait.request, 40);
    assert_eq!(wait.rebind_payload, [1, 2]);
}

#[test]
fn a_wait_above_the_capability_of_a_service_is_refused() {
    let (mut vm, mut fiber) = machine();
    let code = payload(2, 1);
    let CallStep::Host(work) = call(&mut vm, &mut fiber, Opcode::CallHost, &code).unwrap() else {
        panic!("host call")
    };
    let mut host_calls: u32 = 0;
    let request = vm.request_host_call(
        &fiber,
        &position(Opcode::CallHost, &code),
        work,
        &mut host_calls,
    );
    let error = vm
        .finish_host_call(
            &mut fiber,
            request,
            HostReply::Pending {
                stability: HostWaitStability::StableInput,
                rebind_payload: Vec::new(),
            },
        )
        .unwrap_err();
    assert_eq!(
        error.message,
        "host import reported a wait above its snapshot capability"
    );
    assert_eq!(fiber.state, FiberState::Runnable);
}

#[test]
fn a_fault_tells_where_it_happened() {
    let (vm, fiber) = machine();
    let code = payload(1, 1);
    let at = position(Opcode::CallNative, &code);
    let origin = vm.execution_origin(&at, &vm.command_for_position(&at));
    assert_eq!(origin.function_name, "SYSTEM_TITLE");
    assert_eq!(origin.instruction, 0);
    assert_eq!(
        origin.source,
        Some(SourceLocation { file: 2, line: 7 })
    );
    assert_eq!(fiber.top().function, ENTRY);
}

#[test]
fn a_group_of_literals_is_matched_in_one_step() {
    for (text, expected) in [("関", 1), ("外", 0)] {
        let (vm, mut fiber) = machine();
        fiber.frames[0].stack = vec![VmValue::String(text.to_string())];
        let mut at = position(Opcode::PushString, &[]);
        at.instruction = 3;
        let skipped = vm.try_literal_group_match(&mut fiber, &at, policy());
        assert!(skipped.is_some(), "{text}");
        assert_eq!(fiber.top().instruction, 9);
        assert_eq!(fiber.top().stack, [VmValue::Integer(expected)]);
    }
}

#[test]
fn a_static_parameter_that_does_not_take_its_argument_ends_the_call() {
    let (mut vm, mut fiber) = machine();
    vm.memory.statics = CellMap::new();
    vm.memory.statics.push(
        ARG,
        VariableCell {
            dimensions: vec![1],
            data: CellData::Strings(vec![String::new()]),
        },
    );
    let error = call(&mut vm, &mut fiber, Opcode::Call, &payload(0, 1))
        .err()
        .unwrap();
    assert_eq!(error.message, "variable value type differs");
    assert_eq!(fiber.frames.len(), 1);
    assert_eq!(
        vm.memory.statics.get(ARG).unwrap().data,
        CellData::Strings(vec![String::new()])
    );
}
