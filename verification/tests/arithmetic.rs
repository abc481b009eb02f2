//! Operators under both arithmetic profiles.

use std::rc::Rc;

use erabasic_vm::fault::VmFaultCode;
use erabasic_vm::memory::CellMap;
use erabasic_vm::operand;
use erabasic_vm::program::{
    CallCompatibility, ExcessArgumentPolicy, IntegerArithmeticPolicy, ProgramGeneration,
};
use erabasic_vm::state::{
    CompatibilityWarning, IntegerArithmeticWarning, LoadedGeneration, Memory, Vm, VmConfig,
};
use erabasic_vm::value::{GenerationId, PlaceDescriptor, SymbolKey, VmValue};

const GENERATION: GenerationId = GenerationId(1);

fn program(integer_policy: IntegerArithmeticPolicy) -> ProgramGeneration {
    ProgramGeneration {
        globals: Vec::new(),
        functions: Vec::new(),
        event_groups: Vec::new(),
        host_imports: Vec::new(),
        native_imports: Vec::new(),
        call_compatibility: CallCompatibility {
            allow_event_as_normal: false,
            excess_arguments: ExcessArgumentPolicy::Reject,
            system_no_target: false,
            compatible_rand: false,
            allow_full_width_space: false,
            debug_semicolon: false,
            ignore_triple_symbols: false,
        },
        integer_policy,
        existvar_expression_probe: false,
        snake_data_apis: false,
        checked_runtime_forms: false,
        call_text: false,
        map_extensions: false,
        snake_input: false,
        staged_authorizations: Vec::new(),
        native_authorizations: Vec::new(),
        host_authorizations: Vec::new(),
        builtins: Vec::new(),
        map_operations: Vec::new(),
        user_resolutions: Vec::new(),
        runtime_variables: Vec::new(),
        named_indices: Vec::new(),
        foldable_services: Vec::new(),
        internal_columns: Vec::new(),
        structured_jumps: Vec::new(),
        literal_group_matches: Vec::new(),
        bulk_loops: Vec::new(),
        indexed_reads: Vec::new(),
        source_map: Vec::new(),
        characters: Vec::new(),
        default_character: 0,
        stain_default: Vec::new(),
        void_character: CellMap::new(),
    }
}

fn machine(integer_policy: IntegerArithmeticPolicy) -> Vm {
    Vm {
        config: VmConfig {
            maximum_operand_stack: 1024,
            maximum_call_depth: 64,
            maximum_backward_branches_without_progress: 10_000,
        },
        generations: vec![LoadedGeneration {
            id: GENERATION,
            program: Rc::new(program(integer_policy)),
        }],
        current_generation: GENERATION,
        memory: Memory {
            shared: CellMap::new(),
            statics: CellMap::new(),
            characters: Vec::new(),
            array_leases: Vec::new(),
        },
        fibers: Vec::new(),
        next_frame: 2,
        next_request: 1,
        pending_compatibility_warnings: Vec::new(),
        compatibility_warning_sites: Vec::new(),
        path_memo_owner: None,
        active_function_memos: Vec::new(),
    }
}

const PROFILES: [IntegerArithmeticPolicy; 2] = [
    IntegerArithmeticPolicy::ReferenceWrappingV1,
    IntegerArithmeticPolicy::SnakeSaturatingV1,
];

fn nowhere() -> Box<PlaceDescriptor> {
    Box::new(PlaceDescriptor::of_variable(SymbolKey(0)))
}

#[test]
fn non_arithmetic_dispatch_preserves_profile_independent_values_and_errors() {
    for profile in PROFILES {
        let mut vm = machine(profile);
        let generation = vm.current_generation;
        let values = [
            VmValue::Integer(i64::MIN),
            VmValue::Integer(0),
            VmValue::Integer(63),
            VmValue::String(String::new()),
            VmValue::String("玄関🙂".into()),
            VmValue::IntegerPlace(nowhere()),
            VmValue::StringPlace(nowhere()),
        ];
        for operation in [0, 2, 3, 8, 255] {
            for value in &values {
                assert_eq!(
                    vm.unary_value(generation, operation, value.clone()),
                    operand::unary_value(operation, value.clone()),
                );
            }
        }
        for operation in (5..=21).chain([255]) {
            for left in &values {
                for right in &values {
                    assert_eq!(
                        vm.binary_value(generation, operation, left.clone(), right.clone()),
                        operand::binary_value(operation, left.clone(), right.clone()),
                    );
                }
            }
        }
        assert!(vm.pending_compatibility_warnings.is_empty());
    }
}

fn integer(value: i64) -> VmValue {
    VmValue::Integer(value)
}

#[test]
fn results_that_fit_are_the_same_under_both_profiles() {
    for profile in PROFILES {
        let mut vm = machine(profile);
        for (operation, left, right, expected) in [
            (0, 6, 7, 42),
            (1, 17, 5, 3),
            (1, -17, 5, -3),
            (2, 17, 5, 2),
            (2, -17, 5, -2),
            (3, 40, 2, 42),
            (4, 40, 2, 38),
        ] {
            assert_eq!(
                vm.binary_value(GENERATION, operation, integer(left), integer(right))
                    .unwrap(),
                integer(expected)
            );
        }
        assert!(vm.pending_compatibility_warnings.is_empty());
    }
}

#[test]
fn results_beyond_the_range_wrap_or_saturate() {
    let mut wrapping = machine(IntegerArithmeticPolicy::ReferenceWrappingV1);
    assert_eq!(
        wrapping
            .binary_value(GENERATION, 3, integer(i64::MAX), integer(1))
            .unwrap(),
        integer(i64::MIN)
    );
    assert!(wrapping.pending_compatibility_warnings.is_empty());
    let mut saturating = machine(IntegerArithmeticPolicy::SnakeSaturatingV1);
    assert_eq!(
        saturating
            .binary_value(GENERATION, 3, integer(i64::MAX), integer(1))
            .unwrap(),
        integer(i64::MAX)
    );
    assert_eq!(
        saturating.pending_compatibility_warnings,
        [CompatibilityWarning::Arithmetic(
            IntegerArithmeticWarning::Overflow
        )]
    );
}

#[test]
fn division_by_zero_faults_or_warns() {
    let mut wrapping = machine(IntegerArithmeticPolicy::ReferenceWrappingV1);
    let error = wrapping
        .binary_value(GENERATION, 1, integer(5), integer(0))
        .unwrap_err();
    assert_eq!(error.code, VmFaultCode::DivideByZero);
    let mut saturating = machine(IntegerArithmeticPolicy::SnakeSaturatingV1);
    assert!(saturating
        .binary_value(GENERATION, 1, integer(5), integer(0))
        .is_ok());
    assert_eq!(
        saturating.pending_compatibility_warnings,
        [CompatibilityWarning::Arithmetic(
            IntegerArithmeticWarning::DivideByZero
        )]
    );
}

#[test]
fn texts_are_joined_compared_and_repeated() {
    let text = |value: &str| VmValue::String(value.to_string());
    assert_eq!(
        operand::binary_value(3, text("玄"), text("関")).unwrap(),
        text("玄関")
    );
    assert_eq!(
        operand::binary_value(0, text("ab"), integer(3)).unwrap(),
        text("ababab")
    );
    assert_eq!(
        operand::binary_value(7, text("a"), text("b")).unwrap(),
        integer(1)
    );
    assert_eq!(
        operand::binary_value(0, text("a"), integer(10_000))
            .unwrap_err()
            .message,
        "string repetition count is out of range"
    );
}
