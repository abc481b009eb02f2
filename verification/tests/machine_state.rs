//! Variables, characters, sorting, random state and diagnostics.

use std::rc::Rc;

use erabasic_vm::array_ops::execute_array_copy;
use erabasic_vm::character_ops::{execute_character_mutation, pickup_characters};
use erabasic_vm::character_query::execute_character_query;
use erabasic_vm::diagnostics::VmEvent;
use erabasic_vm::existvar::{finish_existvar_catch, select_existvar_catch, variable_name_flags};
use erabasic_vm::extended_ops::{
    execute_regex_match, regex_captures, EngineMatches, RegexCaptures,
};
use erabasic_vm::fault::{map_vm_error, ScriptFaultKind, StepError, VmError, VmFaultCode};
use erabasic_vm::memory::{BytecodeStorage, CellData, CellMap, VariableCell};
use erabasic_vm::named::{read_named_integer, write_named_integer};
use erabasic_vm::program::{
    BytecodeFunction, BytecodeFunctionKind, BytecodeGlobal, CallCompatibility, ExcessArgumentPolicy,
    IntegerArithmeticPolicy, Opcode, ProgramGeneration,
};
use erabasic_vm::random_state::execute_random_place_transaction;
use erabasic_vm::sorting::{
    execute_array_multi_sort, execute_array_multi_sort_ex, reversed, stable_order,
};
use erabasic_vm::state::{
    CompatibilityWarning, ExecutionPolicy, ExistVarCheckpoint, Fiber, FiberState, Frame, InstructionPosition,
    IntegerArithmeticWarning, LoadedGeneration, Memory, Vm, VmConfig,
};
use erabasic_vm::value::{
    BytecodeType, FiberId, FrameId, GenerationId, PlaceDescriptor, SymbolKey, VmValue,
};

const ENTRY: SymbolKey = SymbolKey(100);
const FLAG: SymbolKey = SymbolKey(1);
const NAMES: SymbolKey = SymbolKey(2);
const NO: SymbolKey = SymbolKey(3);
const CHARANUM: SymbolKey = SymbolKey(4);
const TARGET: SymbolKey = SymbolKey(5);
const MASTER: SymbolKey = SymbolKey(6);
const ASSI: SymbolKey = SymbolKey(7);
const RANDDATA: SymbolKey = SymbolKey(8);
const RESULT: SymbolKey = SymbolKey(9);
const RESULTS: SymbolKey = SymbolKey(10);
const GRID: SymbolKey = SymbolKey(11);
const GENERATION: GenerationId = GenerationId(1);

fn variable(
    key: SymbolKey,
    name: &str,
    value_type: BytecodeType,
    storage: BytecodeStorage,
    dimensions: &[u64],
) -> BytecodeGlobal {
    BytecodeGlobal {
        key,
        name: name.to_string(),
        owner: None,
        value_type,
        storage,
        dimensions: dimensions.to_vec(),
        mutable: true,
    }
}

fn globals() -> Vec<BytecodeGlobal> {
    let project = BytecodeStorage::Project;
    let integer = BytecodeType::Integer;
    vec![
        variable(FLAG, "FLAG", integer, project, &[5]),
        variable(NAMES, "NAMES", BytecodeType::String, project, &[5]),
        variable(NO, "NO", integer, BytecodeStorage::Character, &[1]),
        variable(CHARANUM, "CHARANUM", integer, project, &[1]),
        variable(TARGET, "TARGET", integer, project, &[1]),
        variable(MASTER, "MASTER", integer, project, &[1]),
        variable(ASSI, "ASSI", integer, project, &[1]),
        variable(RANDDATA, "RANDDATA", integer, project, &[625]),
        variable(RESULT, "RESULT", integer, project, &[5]),
        variable(RESULTS, "RESULTS", BytecodeType::String, project, &[5]),
        variable(GRID, "GRID", integer, project, &[2, 2]),
    ]
}

fn cell(global: &BytecodeGlobal) -> VariableCell {
    let length = global.dimensions.iter().product::<u64>() as usize;
    VariableCell {
        dimensions: global.dimensions.clone(),
        data: if global.value_type == BytecodeType::String {
            CellData::Strings(vec![String::new(); length])
        } else {
            CellData::Integers(vec![0; length])
        },
    }
}

fn character(number: i64) -> CellMap {
    let mut map = CellMap::new();
    map.push(
        NO,
        VariableCell {
            dimensions: vec![1],
            data: CellData::Integers(vec![number]),
        },
    );
    map
}

fn program() -> ProgramGeneration {
    ProgramGeneration {
        globals: globals(),
        functions: vec![BytecodeFunction {
            key: ENTRY,
            name: "SYSTEM_TITLE".to_string(),
            kind: BytecodeFunctionKind::Normal,
            parameters: Vec::new(),
            result: None,
            code: Vec::new(),
            labels: Vec::new(),
            imports: Vec::new(),
        }],
        event_groups: Vec::new(),
        host_imports: Vec::new(),
        native_imports: Vec::new(),
        call_compatibility: CallCompatibility {
            allow_event_as_normal: false,
            excess_arguments: ExcessArgumentPolicy::Reject,
            system_no_target: false,
            compatible_rand: false,
            allow_full_width_space: false,
            debug_semicolon: false,
            ignore_triple_symbols: false,
        },
        integer_policy: IntegerArithmeticPolicy::ReferenceWrappingV1,
        existvar_expression_probe: false,
        snake_data_apis: false,
        checked_runtime_forms: false,
        call_text: false,
        map_extensions: false,
        snake_input: false,
        staged_authorizations: Vec::new(),
        native_authorizations: Vec::new(),
        host_authorizations: Vec::new(),
        builtins: Vec::new(),
        map_operations: Vec::new(),
        user_resolutions: Vec::new(),
        runtime_variables: Vec::new(),
        named_indices: Vec::new(),
        foldable_services: Vec::new(),
        internal_columns: Vec::new(),
        structured_jumps: Vec::new(),
        literal_group_matches: Vec::new(),
        bulk_loops: Vec::new(),
        indexed_reads: Vec::new(),
        source_map: Vec::new(),
        characters: Vec::new(),
        default_character: 0,
        stain_default: Vec::new(),
        void_character: character(0),
    }
}

fn machine() -> (Vm, Fiber) {
    let mut shared = CellMap::new();
    for global in globals() {
        if global.storage == BytecodeStorage::Project {
            shared.push(global.key, cell(&global));
        }
    }
    let vm = Vm {
        config: VmConfig {
            maximum_operand_stack: 1024,
            maximum_call_depth: 64,
            maximum_backward_branches_without_progress: 10_000,
        },
        generations: vec![LoadedGeneration {
            id: GENERATION,
            program: Rc::new(program()),
        }],
        current_generation: GENERATION,
        memory: Memory {
            shared,
            statics: CellMap::new(),
            characters: vec![character(30), character(10), character(20)],
            array_leases: Vec::new(),
        },
        fibers: Vec::new(),
        next_frame: 2,
        next_request: 1,
        pending_compatibility_warnings: Vec::new(),
        compatibility_warning_sites: Vec::new(),
        path_memo_owner: None,
        active_function_memos: Vec::new(),
    };
    let fiber = Fiber {
        id: FiberId(1),
        frames: vec![Frame {
            id: FrameId(1),
            generation: GENERATION,
            function: ENTRY,
            instruction: 0,
            stack: Vec::new(),
            locals: CellMap::new(),
            arguments: Vec::new(),
            for_loops: Vec::new(),
            select_values: Vec::new(),
            user_calls: Vec::new(),
            existvar_checks: Vec::new(),
            bit_calls: Vec::new(),
            returns_value: false,
            event_context: false,
            event_dispatch: None,
            runtime_form: None,
        }],
        state: FiberState::Runnable,
        backward_branches_without_progress: 0,
    };
    (vm, fiber)
}

fn at(key: SymbolKey, indices: &[u64]) -> PlaceDescriptor {
    let mut place = PlaceDescriptor::of_variable(key);
    place.indices = indices.to_vec();
    place
}

fn integer_place(key: SymbolKey) -> VmValue {
    VmValue::IntegerPlace(Box::new(PlaceDescriptor::of_variable(key)))
}

fn text_place(key: SymbolKey) -> VmValue {
    VmValue::StringPlace(Box::new(PlaceDescriptor::of_variable(key)))
}

fn set_integers(vm: &mut Vm, key: SymbolKey, values: &[i64]) {
    let slot = vm.memory.shared.find(key).unwrap();
    vm.memory.shared.entries[slot].cell.data = CellData::Integers(values.to_vec());
}

fn set_texts(vm: &mut Vm, key: SymbolKey, values: &[&str]) {
    let slot = vm.memory.shared.find(key).unwrap();
    vm.memory.shared.entries[slot].cell.data =
        CellData::Strings(values.iter().map(|v| v.to_string()).collect());
}

fn data(vm: &Vm, key: SymbolKey) -> &CellData {
    &vm.memory.shared.get(key).unwrap().data
}

fn numbers(vm: &Vm) -> Vec<i64> {
    vm.memory
        .characters
        .iter()
        .map(|map| match &map.get(NO).unwrap().data {
            CellData::Integers(values) => values[0],
            CellData::Strings(_) => panic!("integers"),
        })
        .collect()
}

fn strings(values: &[&str]) -> CellData {
    CellData::Strings(values.iter().map(|v| v.to_string()).collect())
}

#[test]
fn a_written_place_reads_back_and_others_stay() {
    let (mut vm, mut fiber) = machine();
    vm.write_place(&mut fiber, &at(FLAG, &[3]), VmValue::Integer(7))
        .unwrap();
    assert_eq!(
        vm.read_place(&fiber, &at(FLAG, &[3])).unwrap(),
        VmValue::Integer(7)
    );
    assert_eq!(
        vm.read_place(&fiber, &at(FLAG, &[2])).unwrap(),
        VmValue::Integer(0)
    );
    vm.write_place(&mut fiber, &at(GRID, &[1, 0]), VmValue::Integer(5))
        .unwrap();
    assert_eq!(*data(&vm, GRID), CellData::Integers(vec![0, 0, 5, 0]));
}

#[test]
fn a_place_outside_its_array_is_out_of_bounds() {
    let (vm, fiber) = machine();
    let error = vm.read_place(&fiber, &at(FLAG, &[5])).unwrap_err();
    assert!(matches!(error, VmError::Bounds(_)));
    let step = map_vm_error(error);
    assert_eq!(step.code, VmFaultCode::Bounds);
    assert!(step.is_script());
}

#[test]
fn named_integers_read_back() {
    let (mut vm, _) = machine();
    let program = vm.program(GENERATION).unwrap();
    write_named_integer(&program, &mut vm.memory, "master", 4).unwrap();
    assert_eq!(read_named_integer(&program, &vm.memory, "MASTER"), Some(4));
    assert_eq!(read_named_integer(&program, &vm.memory, "ABSENT"), None);
}

#[test]
fn equal_keys_keep_their_order() {
    let keys: Vec<VmValue> = [3, 1, 3, 2, 1]
        .into_iter()
        .map(VmValue::Integer)
        .collect();
    let order = stable_order(&keys, 5);
    assert_eq!(order, [1, 4, 3, 0, 2]);
    assert_eq!(reversed(&order), [2, 0, 3, 4, 1]);
}

#[test]
fn arrays_are_sorted_together_up_to_the_first_empty_key() {
    let (mut vm, mut fiber) = machine();
    set_integers(&mut vm, FLAG, &[30, 10, 20, 0, 5]);
    set_texts(&mut vm, NAMES, &["c", "a", "b", "x", "y"]);
    let arguments = vec![integer_place(FLAG), text_place(NAMES)];
    assert_eq!(
        execute_array_multi_sort(&mut vm, &mut fiber, &arguments).unwrap(),
        VmValue::Integer(1)
    );
    assert_eq!(*data(&vm, FLAG), CellData::Integers(vec![10, 20, 30, 0, 5]));
    assert_eq!(*data(&vm, NAMES), strings(&["a", "b", "c", "x", "y"]));
}

#[test]
fn a_sort_without_arrays_is_refused() {
    let (mut vm, mut fiber) = machine();
    assert_eq!(
        execute_array_multi_sort(&mut vm, &mut fiber, &Vec::new()).unwrap_err(),
        VmError::invalid_arguments("ARRAYMSORT requires at least one array")
    );
    assert_eq!(
        execute_array_multi_sort_ex(&mut vm, &mut fiber, &Vec::new()).unwrap_err(),
        VmError::invalid_arguments("ARRAYMSORTEX requires a key and variable-name array")
    );
}

#[test]
fn an_array_is_copied_over_another() {
    let (mut vm, mut fiber) = machine();
    set_integers(&mut vm, FLAG, &[1, 2, 3, 4, 5]);
    let arguments = vec![
        VmValue::String("FLAG".to_string()),
        VmValue::String("RESULT".to_string()),
    ];
    execute_array_copy(&mut vm, &mut fiber, &arguments).unwrap();
    assert_eq!(*data(&vm, RESULT), CellData::Integers(vec![1, 2, 3, 4, 5]));
}

#[test]
fn an_array_that_does_not_exist_is_named_in_quotes() {
    let (mut vm, mut fiber) = machine();
    let arguments = vec![
        VmValue::String("AB\"C".to_string()),
        VmValue::String("RESULT".to_string()),
    ];
    assert_eq!(
        execute_array_copy(&mut vm, &mut fiber, &arguments).unwrap_err(),
        VmError::invalid_arguments("ARRAYCOPY source variable \"AB\\\"C\" does not exist")
    );
}

#[test]
fn characters_are_counted_and_found() {
    let (vm, fiber) = machine();
    assert_eq!(
        execute_character_query(&vm, &fiber, "charanum", &Vec::new()).unwrap(),
        VmValue::Integer(3)
    );
    for (number, expected) in [(30, 0), (20, 2), (99, -1)] {
        assert_eq!(
            execute_character_query(&vm, &fiber, "getchara", &vec![VmValue::Integer(number)])
                .unwrap(),
            VmValue::Integer(expected)
        );
    }
}

#[test]
fn swapping_twice_restores_the_characters() {
    let (mut vm, _) = machine();
    let arguments = vec![VmValue::Integer(0), VmValue::Integer(2)];
    execute_character_mutation(&mut vm, "swapchara", &arguments).unwrap();
    assert_eq!(numbers(&vm), [20, 10, 30]);
    execute_character_mutation(&mut vm, "swapchara", &arguments).unwrap();
    assert_eq!(numbers(&vm), [30, 10, 20]);
}

#[test]
fn characters_are_removed_added_and_counted() {
    let (mut vm, _) = machine();
    execute_character_mutation(&mut vm, "delchara", &vec![VmValue::Integer(1)]).unwrap();
    assert_eq!(numbers(&vm), [30, 20]);
    assert_eq!(*data(&vm, CHARANUM), CellData::Integers(vec![2]));
    execute_character_mutation(&mut vm, "addvoidchara", &Vec::new()).unwrap();
    assert_eq!(numbers(&vm), [30, 20, 0]);
    execute_character_mutation(&mut vm, "delallchara", &Vec::new()).unwrap();
    assert!(vm.memory.characters.is_empty());
    assert_eq!(*data(&vm, CHARANUM), CellData::Integers(vec![0]));
}

#[test]
fn a_failed_mutation_changes_nothing() {
    let (mut vm, _) = machine();
    let (before, _) = machine();
    for (operation, arguments) in [
        ("swapchara", vec![VmValue::Integer(0), VmValue::Integer(9)]),
        ("delchara", vec![VmValue::Integer(-1)]),
        ("copychara", vec![VmValue::Integer(0)]),
        ("pickupchara", vec![VmValue::Integer(7)]),
    ] {
        assert!(execute_character_mutation(&mut vm, operation, &arguments).is_err());
        assert_eq!(vm, before, "{operation}");
    }
}

#[test]
fn characters_are_sorted_by_a_variable() {
    let (mut vm, _) = machine();
    set_integers(&mut vm, MASTER, &[-1]);
    let key = vec![integer_place(NO), VmValue::String("FORWARD".to_string())];
    execute_character_mutation(&mut vm, "sortchara", &key).unwrap();
    assert_eq!(numbers(&vm), [10, 20, 30]);
    let back = vec![integer_place(NO), VmValue::String("BACK".to_string())];
    execute_character_mutation(&mut vm, "sortchara", &back).unwrap();
    assert_eq!(numbers(&vm), [30, 20, 10]);
}

#[test]
fn characters_are_picked_up_in_the_given_order() {
    let (mut vm, _) = machine();
    let arguments = vec![
        VmValue::Integer(2),
        VmValue::Integer(0),
        VmValue::Integer(2),
    ];
    execute_character_mutation(&mut vm, "pickupchara", &arguments).unwrap();
    assert_eq!(numbers(&vm), [20, 30]);
    assert_eq!(*data(&vm, CHARANUM), CellData::Integers(vec![2]));
}

#[test]
fn random_state_comes_back_from_memory() {
    let (mut vm, _) = machine();
    let program = vm.program(GENERATION).unwrap();
    let words: Vec<i64> = (0..625).map(|n| n * 3).collect();
    assert_eq!(
        execute_random_place_transaction(&mut vm.memory, &program, false, Ok(words.clone())),
        Ok(None)
    );
    assert_eq!(
        execute_random_place_transaction(&mut vm.memory, &program, true, Ok(Vec::new())),
        Ok(Some(words))
    );
    assert_eq!(
        execute_random_place_transaction(&mut vm.memory, &program, false, Ok(vec![1])),
        Err("RANDDATA storage changed during DUMPRAND".to_string())
    );
}

#[test]
fn a_warning_waits_once_and_is_reported_once_per_site() {
    let (mut vm, fiber) = machine();
    let overflow = CompatibilityWarning::Arithmetic(IntegerArithmeticWarning::Overflow);
    vm.queue_compatibility_warning(overflow);
    vm.queue_compatibility_warning(overflow);
    assert_eq!(vm.pending_compatibility_warnings, [overflow]);
    let position = InstructionPosition {
        generation: GENERATION,
        function: ENTRY,
        instruction: 4,
        variable: None,
        opcode: Opcode::Binary,
        payload: &[],
    };
    let mut events: Vec<VmEvent> = Vec::new();
    vm.drain_compatibility_diagnostics(fiber.id, &position, &mut events);
    assert_eq!(events.len(), 1);
    let VmEvent::Diagnostic {
        code,
        message,
        origin,
        ..
    } = &events[0];
    assert_eq!(*code, "compat.arithmetic.overflow");
    assert_eq!(
        *message,
        "integer arithmetic overflowed; snake saturation policy applied"
    );
    assert_eq!(origin.instruction, 4);
    assert_eq!(origin.function_name, "SYSTEM_TITLE");
    assert!(vm.pending_compatibility_warnings.is_empty());
    vm.queue_compatibility_warning(overflow);
    vm.drain_compatibility_diagnostics(fiber.id, &position, &mut events);
    assert_eq!(events.len(), 1);
}

#[test]
fn warnings_have_their_descriptions() {
    let divide = CompatibilityWarning::Arithmetic(IntegerArithmeticWarning::DivideByZero);
    assert_eq!(
        divide.descriptor(),
        (
            1,
            "compat.arithmetic.divide_by_zero",
            "integer division or remainder by zero returned zero under snake policy"
        )
    );
    assert_eq!(CompatibilityWarning::ExcessUserArguments.descriptor().0, 2);
}

#[test]
fn names_of_variables_have_flags() {
    let (vm, _) = machine();
    for (name, flags) in [("FLAG", 1), ("names", 2), ("GRID", 9), ("ABSENT", 0)] {
        assert_eq!(
            variable_name_flags(&vm, GENERATION, ENTRY, name).unwrap(),
            flags,
            "{name}"
        );
    }
    assert_eq!(
        variable_name_flags(&vm, GenerationId(9), ENTRY, "FLAG")
            .unwrap_err()
            .message,
        "EXISTVAR generation missing"
    );
}

#[test]
fn only_failures_of_scripts_are_caught_and_only_once() {
    let (_, mut fiber) = machine();
    let frame = fiber.frames.last_mut().unwrap();
    frame.stack.push(VmValue::Integer(3));
    frame.existvar_checks.push(ExistVarCheckpoint {
        begin: 3,
        failure: 9,
        stack_index: 0,
        user_calls: 0,
        caught: false,
    });
    let internal = StepError::new(VmFaultCode::InvalidInstruction, "broken");
    assert!(select_existvar_catch(fiber.top(), &internal).is_none());
    let script = StepError::script(ScriptFaultKind::Bounds, VmFaultCode::Bounds, "outside");
    let target = select_existvar_catch(fiber.top(), &script).unwrap();
    finish_existvar_catch(&mut fiber, target).unwrap();
    assert_eq!(fiber.top().instruction, 9);
    assert!(select_existvar_catch(fiber.top(), &script).is_none());
    assert_eq!(
        finish_existvar_catch(&mut fiber, target)
            .unwrap_err()
            .message,
        "probe catch target is stale"
    );
}

#[test]
fn open_groups_of_a_pattern_are_empty() {
    let engine = EngineMatches {
        groups: 2,
        matches: vec![vec![Some("ab".to_string()), None]],
    };
    let found = regex_captures(Ok(None), Ok(engine)).unwrap();
    assert_eq!(found.captures_len, 2);
    assert_eq!(found.matches, [["ab".to_string(), String::new()]]);
    assert_eq!(
        regex_captures(Err("bad pattern".to_string()), Err(String::new()))
            .err()
            .unwrap(),
        VmError::invalid_arguments("bad pattern")
    );
}

#[test]
fn matches_of_a_pattern_are_written_to_the_results() {
    let (mut vm, mut fiber) = machine();
    let arguments = vec![
        VmValue::String("abcb".to_string()),
        VmValue::String("b".to_string()),
        VmValue::Integer(1),
    ];
    let found = RegexCaptures {
        captures_len: 1,
        matches: vec![vec!["b".to_string()], vec!["b".to_string()]],
    };
    assert_eq!(
        execute_regex_match(&mut vm, &mut fiber, &arguments, Ok(found)).unwrap(),
        VmValue::Integer(2)
    );
    assert_eq!(*data(&vm, RESULTS), strings(&["b", "b", "", "", ""]));
}

#[test]
fn an_array_without_rows_cannot_be_sorted_by_name() {
    let (mut vm, mut fiber) = machine();
    let empty = variable(
        SymbolKey(90),
        "EMPTY",
        BytecodeType::Integer,
        BytecodeStorage::Project,
        &[0, 2],
    );
    vm.memory.shared.push(empty.key, cell(&empty));
    let mut changed = program();
    changed.globals.push(empty);
    vm.generations[0].program = Rc::new(changed);
    set_integers(&mut vm, FLAG, &[0, 0, 0, 0, 0]);
    set_texts(&mut vm, NAMES, &["EMPTY", "", "", "", ""]);
    let arguments = vec![integer_place(FLAG), text_place(NAMES)];
    assert_eq!(
        execute_array_multi_sort_ex(&mut vm, &mut fiber, &arguments).unwrap_err(),
        VmError::InvalidState("ARRAYMSORTEX array has an invalid first dimension".to_string())
    );
}

fn position(opcode: Opcode, payload: &[u8]) -> InstructionPosition<'_> {
    InstructionPosition {
        generation: GENERATION,
        function: ENTRY,
        instruction: 0,
        variable: None,
        opcode,
        payload,
    }
}

#[test]
fn a_number_without_operation_is_called_by_its_number() {
    let (mut vm, mut fiber) = machine();
    let unknown = position(Opcode::Unknown(60_001), &[]);
    assert_eq!(vm.command_for_position(&unknown), "opcode:60001");
    assert_eq!(vm.command_for_position(&position(Opcode::Nop, &[])), "Nop");
    let policy = ExecutionPolicy {
        allow_function_memo: false,
        allow_immediate_host: false,
        remaining_quantum: 1,
        remaining_instructions: 1,
    };
    let executed = vm.execute_instruction(&mut fiber, &unknown, policy);
    assert_eq!(executed.unwrap(), None);
}

#[test]
fn a_probe_without_a_frame_has_no_owner() {
    let (mut vm, mut fiber) = machine();
    fiber.frames.clear();
    for (payload, message) in [
        (vec![0, 0, 0], "instruction operand is truncated"),
        (vec![0, 0, 0, 0], "probe phase missing"),
        (vec![0, 0, 0, 0, 0], "probe owner missing"),
    ] {
        let at = position(Opcode::FinishExistVarProbe, &payload);
        let error = vm
            .finish_existvar_probe(&mut fiber, &at, Ok(()))
            .unwrap_err();
        assert_eq!(error.message, message);
        let error = vm
            .dispatch_existvar(&mut fiber, &at, Opcode::FinishExistVarProbe, Ok(()))
            .unwrap_err();
        assert_eq!(error.message, message);
    }
    let at = position(Opcode::BeginExistVarProbe, &[]);
    let error = vm
        .dispatch_existvar(&mut fiber, &at, Opcode::BeginExistVarProbe, Ok(()))
        .unwrap_err();
    assert_eq!(
        error.message,
        "EXISTVAR mode is unavailable in this identity"
    );
}

#[test]
fn a_selection_keeps_what_was_done_before_it_failed() {
    let (mut vm, _) = machine();
    let program = program();
    vm.memory.shared.entries.retain(|entry| entry.key != ASSI);
    write_named_integer(&program, &mut vm.memory, "TARGET", 2).unwrap();
    let chosen = vec![VmValue::Integer(2)];
    assert_eq!(
        pickup_characters(&program, &mut vm.memory, &chosen).unwrap_err(),
        VmError::InvalidState("ASSI storage is unavailable".to_string())
    );
    assert_eq!(numbers(&vm), [20]);
    assert_eq!(
        read_named_integer(&program, &vm.memory, "TARGET"),
        Some(0)
    );
}
