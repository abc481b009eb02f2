//! One instruction at a time: counting, operand limits and failures.

use std::rc::Rc;

use erabasic_vm::fault::{FaultCategory, StepError, VmFaultCode};
use erabasic_vm::memory::CellMap;
use erabasic_vm::program::{
    BytecodeFunction, BytecodeFunctionKind, CallCompatibility, ExcessArgumentPolicy,
    IntegerArithmeticPolicy, Opcode, ProgramGeneration, StructuredScopeKind, StructuredTransition,
};
use erabasic_vm::state::{
    ExecutionPolicy, ExistVarCheckpoint, Fiber, FiberState, Frame, InstructionPosition,
    LoadedGeneration, Memory, StepOutcome, Vm, VmConfig, VmDiagnosticNotification,
    STRUCTURED_GOTO_DIAGNOSTIC_CODE, STRUCTURED_GOTO_DIAGNOSTIC_MESSAGE,
};
use erabasic_vm::value::{FiberId, FrameId, GenerationId, SymbolKey, VmValue};

const ENTRY: SymbolKey = SymbolKey(100);
const GENERATION: GenerationId = GenerationId(1);

fn program(structured_jumps: Vec<StructuredTransition>) -> ProgramGeneration {
    ProgramGeneration {
        globals: Vec::new(),
        functions: vec![BytecodeFunction {
            key: ENTRY,
            name: "SYSTEM_TITLE".to_string(),
            kind: BytecodeFunctionKind::Normal,
            parameters: Vec::new(),
            result: None,
            code: Vec::new(),
            labels: Vec::new(),
            imports: Vec::new(),
        }],
        event_groups: Vec::new(),
        host_imports: Vec::new(),
        native_imports: Vec::new(),
        call_compatibility: CallCompatibility {
            allow_event_as_normal: false,
            excess_arguments: ExcessArgumentPolicy::Reject,
            system_no_target: false,
            compatible_rand: false,
            allow_full_width_space: false,
            debug_semicolon: false,
            ignore_triple_symbols: false,
        },
        integer_policy: IntegerArithmeticPolicy::ReferenceWrappingV1,
        existvar_expression_probe: false,
        snake_data_apis: false,
        checked_runtime_forms: false,
        call_text: false,
        map_extensions: false,
        snake_input: false,
        staged_authorizations: Vec::new(),
        native_authorizations: Vec::new(),
        host_authorizations: Vec::new(),
        builtins: Vec::new(),
        map_operations: Vec::new(),
        user_resolutions: Vec::new(),
        runtime_variables: Vec::new(),
        named_indices: Vec::new(),
        foldable_services: Vec::new(),
        internal_columns: Vec::new(),
        structured_jumps,
        literal_group_matches: Vec::new(),
        bulk_loops: Vec::new(),
        indexed_reads: Vec::new(),
        source_map: Vec::new(),
        characters: Vec::new(),
        default_character: 0,
        stain_default: Vec::new(),
        void_character: CellMap::new(),
    }
}

/// A machine that is about to run a function.
fn fixture(structured_jumps: Vec<StructuredTransition>) -> (Vm, Fiber) {
    let vm = Vm {
        config: VmConfig {
            maximum_operand_stack: 1024,
            maximum_call_depth: 64,
            maximum_backward_branches_without_progress: 10_000,
        },
        generations: vec![LoadedGeneration {
            id: GENERATION,
            program: Rc::new(program(structured_jumps)),
        }],
        current_generation: GENERATION,
        memory: Memory {
            shared: CellMap::new(),
            statics: CellMap::new(),
            characters: Vec::new(),
            array_leases: Vec::new(),
        },
        fibers: Vec::new(),
        next_frame: 2,
        next_request: 1,
        pending_compatibility_warnings: Vec::new(),
        compatibility_warning_sites: Vec::new(),
        path_memo_owner: None,
        active_function_memos: Vec::new(),
    };
    let fiber = Fiber {
        id: FiberId(1),
        frames: vec![Frame {
            id: FrameId(1),
            generation: GENERATION,
            function: ENTRY,
            instruction: 0,
            stack: Vec::new(),
            locals: CellMap::new(),
            arguments: Vec::new(),
            for_loops: Vec::new(),
            select_values: Vec::new(),
            user_calls: Vec::new(),
            existvar_checks: Vec::new(),
            bit_calls: Vec::new(),
            returns_value: false,
            event_context: false,
            event_dispatch: None,
            runtime_form: None,
        }],
        state: FiberState::Runnable,
        backward_branches_without_progress: 0,
    };
    (vm, fiber)
}

fn execute(
    vm: &mut Vm,
    fiber: &mut Fiber,
    opcode: Opcode,
    payload: &[u8],
) -> Result<Option<StepOutcome>, StepError> {
    let position = InstructionPosition {
        generation: fiber.top().generation,
        function: fiber.top().function,
        instruction: fiber.top().instruction,
        variable: None,
        opcode,
        payload,
    };
    vm.execute_instruction(
        fiber,
        &position,
        ExecutionPolicy {
            allow_function_memo: false,
            allow_immediate_host: false,
            remaining_quantum: 1,
            remaining_instructions: 1,
        },
    )
}

#[test]
fn compact_dispatch_preserves_stack_limit_and_failed_instruction_state() {
    let (mut vm, mut fiber) = fixture(Vec::new());
    vm.config.maximum_operand_stack = 1;
    let value = 7_i64.to_le_bytes();
    assert!(matches!(
        execute(&mut vm, &mut fiber, Opcode::PushInteger, &value),
        Ok(Some(StepOutcome::Continue))
    ));
    let error = execute(&mut vm, &mut fiber, Opcode::PushInteger, &value)
        .err()
        .unwrap();
    assert_eq!(error.category, FaultCategory::ResourceLimit);
    assert_eq!(error.code, VmFaultCode::ResourceLimit);
    assert_eq!(error.message, "maximum operand stack exceeded");
    let frame = fiber.frames.last().unwrap();
    assert_eq!(frame.instruction, 2);
    assert_eq!(frame.stack, [VmValue::Integer(7), VmValue::Integer(7)]);
}

#[test]
fn compact_dispatch_counts_implicit_context_slots() {
    let (mut vm, mut fiber) = fixture(Vec::new());
    vm.config.maximum_operand_stack = 1;
    fiber
        .frames
        .last_mut()
        .unwrap()
        .existvar_checks
        .push(ExistVarCheckpoint {
            begin: 0,
            failure: 0,
            stack_index: 0,
            user_calls: 0,
            caught: false,
        });
    assert!(matches!(
        execute(&mut vm, &mut fiber, Opcode::Nop, &[]),
        Ok(Some(StepOutcome::Continue))
    ));
    let error = execute(
        &mut vm,
        &mut fiber,
        Opcode::PushInteger,
        &7_i64.to_le_bytes(),
    )
    .err()
    .unwrap();
    assert_eq!(error.category, FaultCategory::ResourceLimit);
    assert_eq!(fiber.frames.last().unwrap().stack.len(), 1);
    assert_eq!(fiber.frames.last().unwrap().existvar_checks.len(), 1);
}

#[test]
fn compact_dispatch_unboxes_payload_and_operand_failures_without_reclassification() {
    let (mut vm, mut fiber) = fixture(Vec::new());
    for (opcode, code) in [
        (Opcode::PushInteger, VmFaultCode::InvalidInstruction),
        (Opcode::Pop, VmFaultCode::StackUnderflow),
    ] {
        let error = execute(&mut vm, &mut fiber, opcode, &[]).err().unwrap();
        assert_eq!(error.category, FaultCategory::InternalInvariant);
        assert_eq!(error.code, code);
        assert!(!error.message.is_empty());
        assert!(fiber.frames.last().unwrap().stack.is_empty());
    }
    assert_eq!(fiber.frames.last().unwrap().instruction, 2);
}

#[test]
fn compact_dispatch_structured_jump_checks_stack_before_publishing_diagnostic() {
    for over_limit in [false, true] {
        // GOTO INNER, where INNER stands inside a SELECTCASE
        let (mut vm, mut fiber) = fixture(vec![StructuredTransition {
            function: ENTRY,
            from: 0,
            to: 5,
            retain_loops: 0,
            retain_selects: 0,
            entered: vec![StructuredScopeKind::Select],
        }]);
        if over_limit {
            vm.config.maximum_operand_stack = 0;
            fiber
                .frames
                .last_mut()
                .unwrap()
                .stack
                .push(VmValue::Integer(1));
        }
        let result = execute(&mut vm, &mut fiber, Opcode::Jump, &5_u32.to_le_bytes());
        if over_limit {
            assert_eq!(
                result.err().unwrap().category,
                FaultCategory::ResourceLimit
            );
        } else {
            assert_eq!(
                result.unwrap(),
                Some(StepOutcome::Diagnostic {
                    code: STRUCTURED_GOTO_DIAGNOSTIC_CODE,
                    message: STRUCTURED_GOTO_DIAGNOSTIC_MESSAGE,
                    notification: VmDiagnosticNotification::LogOnly,
                })
            );
        }
        assert_eq!(fiber.frames.last().unwrap().select_values.len(), 1);
    }
}

#[test]
fn operations_of_other_families_are_only_counted() {
    let (mut vm, mut fiber) = fixture(Vec::new());
    for opcode in [Opcode::Call, Opcode::CallHost, Opcode::ResolveUserCall] {
        assert_eq!(execute(&mut vm, &mut fiber, opcode, &[]).unwrap(), None);
    }
    assert_eq!(fiber.top().instruction, 3);
    assert!(fiber.top().stack.is_empty());
}

#[test]
fn a_trap_reports_its_message() {
    let (mut vm, mut fiber) = fixture(Vec::new());
    let error = execute(&mut vm, &mut fiber, Opcode::Trap, "停止".as_bytes())
        .err()
        .unwrap();
    assert_eq!(error.code, VmFaultCode::Trap);
    assert_eq!(error.message, "停止");
    let lossy = execute(&mut vm, &mut fiber, Opcode::Trap, &[65, 0xff, 66])
        .err()
        .unwrap();
    assert_eq!(lossy.message, "A\u{fffd}B");
}

#[test]
fn strings_are_pushed_and_joined() {
    let (mut vm, mut fiber) = fixture(Vec::new());
    for text in ["玄", "関"] {
        let mut payload = (text.len() as u32).to_le_bytes().to_vec();
        payload.extend(text.as_bytes());
        execute(&mut vm, &mut fiber, Opcode::PushString, &payload).unwrap();
    }
    execute(&mut vm, &mut fiber, Opcode::Concat, &2_u16.to_le_bytes()).unwrap();
    assert_eq!(fiber.top().stack, [VmValue::String("玄関".to_string())]);
    let mut broken = 1_u32.to_le_bytes().to_vec();
    broken.push(0xff);
    let error = execute(&mut vm, &mut fiber, Opcode::PushString, &broken)
        .err()
        .unwrap();
    assert_eq!(error.message, "string is not UTF-8");
}

#[test]
fn a_value_is_returned_from_the_stack() {
    let (mut vm, mut fiber) = fixture(Vec::new());
    execute(
        &mut vm,
        &mut fiber,
        Opcode::PushInteger,
        &(-3_i64).to_le_bytes(),
    )
    .unwrap();
    assert_eq!(
        execute(&mut vm, &mut fiber, Opcode::Return, &[1]).unwrap(),
        Some(StepOutcome::Returned(Some(VmValue::Integer(-3))))
    );
    assert_eq!(
        execute(&mut vm, &mut fiber, Opcode::Return, &[]).unwrap(),
        Some(StepOutcome::Returned(None))
    );
}
