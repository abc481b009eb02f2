//! Evaluation of formatted texts from beginning to end.

use std::rc::Rc;

use erabasic_vm::ast::{
    Alignment, BinaryOp, Expr, ExprKind, FormPart, FormattedString, PostfixOp, Span, UnaryOp,
};
use erabasic_vm::bit_calls::live_bit_leases;
use erabasic_vm::fault::{FaultCategory, ScriptFaultKind, StepError, VmError, VmFaultCode};
use erabasic_vm::form_binding::NativeProviders;
use erabasic_vm::form_call_text::{CallTextArgument, ParsedCallText};
use erabasic_vm::form_checkpoints::{finish_runtime_form_catch, select_runtime_form_catch};
use erabasic_vm::form_frontend::{preflight_nesting, requires_runtime_form_context, ParsedForm};
use erabasic_vm::form_methods::MethodAdvance;
use erabasic_vm::form_replies::{FormAnswer, FormReply};
use erabasic_vm::form_run::{
    begin_runtime_call_text, begin_runtime_form, begin_runtime_form_check, resume_runtime_form,
};
use erabasic_vm::form_services::ArgumentAsk;
use erabasic_vm::form_steps::{FormRequest, RuntimeFormStep};
use erabasic_vm::forms::{FormBitCall, RuntimeCallSite, RuntimeFormTask, RuntimeUserCall};
use erabasic_vm::frames::make_frame;
use erabasic_vm::memory::{BytecodeStorage, CellAddress, CellData, CellMap, VariableCell};
use erabasic_vm::program::{
    BitCallSpec, BitOperation, BoundRuntimeNative, BytecodeFunction, BytecodeFunctionKind, BytecodeGlobal, BytecodeParameter,
    CallCompatibility, CallTextSpec, ExcessArgumentPolicy, IntegerArithmeticPolicy, NativeBinding, ProgramGeneration,
    RuntimeBuiltin, RuntimeExpressionShape, RuntimeImport, RuntimeNativeAuthorization,
    RuntimeVariable, UserArgumentSpec, UserCallMode, UserResolution, UserResolutionOutcome,
};
use erabasic_vm::services::NativeReady;
use erabasic_vm::state::{
    ArrayLease, ArrayLeaseOrigin, ArrayLeaseOwner, Fiber, FiberState, Frame, LoadedGeneration,
    Memory, ResolvedUserCall, UserArgumentBinding, Vm, VmConfig,
};
use erabasic_vm::value::{
    ArrayLeaseId, BytecodeType, FiberId, FrameId, GenerationId, PlaceDescriptor, SymbolKey, VmValue,
};

const ENTRY: SymbolKey = SymbolKey(100);
const ECHO: SymbolKey = SymbolKey(101);
const STORE: SymbolKey = SymbolKey(102);
const ABS: SymbolKey = SymbolKey(50);
const FLAG: SymbolKey = SymbolKey(1);
const NAMES: SymbolKey = SymbolKey(2);
const GENERATION: GenerationId = GenerationId(1);

fn number() -> Vec<Option<RuntimeExpressionShape>> {
    vec![Some(RuntimeExpressionShape {
        value_type: BytecodeType::Integer,
        variable: false,
        mutable: false,
    })]
}

fn function(key: SymbolKey, name: &str, kind: BytecodeFunctionKind) -> BytecodeFunction {
    BytecodeFunction {
        key,
        name: name.to_string(),
        kind,
        parameters: Vec::new(),
        result: if kind == BytecodeFunctionKind::Method {
            Some(BytecodeType::Integer)
        } else {
            None
        },
        code: Vec::new(),
        labels: Vec::new(),
        imports: Vec::new(),
    }
}

fn parameter() -> BytecodeParameter {
    BytecodeParameter {
        variable: FLAG,
        value_type: BytecodeType::Integer,
        by_reference: false,
        default: None,
    }
}

fn variable(key: SymbolKey, name: &str, value_type: BytecodeType) -> BytecodeGlobal {
    BytecodeGlobal {
        key,
        name: name.to_string(),
        owner: None,
        value_type,
        storage: BytecodeStorage::Project,
        dimensions: vec![3],
        mutable: true,
    }
}

fn globals() -> Vec<BytecodeGlobal> {
    vec![
        variable(FLAG, "FLAG", BytecodeType::Integer),
        variable(NAMES, "NAMES", BytecodeType::String),
    ]
}

/// A program with the service `ABS` and the method `ECHO`.
fn program() -> ProgramGeneration {
    let functions = vec![
        function(ENTRY, "SYSTEM_TITLE", BytecodeFunctionKind::Normal),
        BytecodeFunction {
            parameters: vec![parameter()],
            ..function(ECHO, "ECHO", BytecodeFunctionKind::Method)
        },
        BytecodeFunction {
            parameters: vec![parameter()],
            ..function(STORE, "STORE", BytecodeFunctionKind::Normal)
        },
    ];
    let runtime_variables = [FLAG, NAMES]
        .into_iter()
        .map(|key| RuntimeVariable {
            key,
            reference: false,
            can_restructure: false,
            is_const: false,
        })
        .collect();
    let builtins = vec![RuntimeBuiltin {
        name: "ABS".to_string(),
        accepted: vec![number()],
        result: BytecodeType::Integer,
    }];
    let import = Rc::new(RuntimeImport {
        key: ABS,
        namespace: "native".to_string(),
        name: "ABS".to_string(),
        parameters: vec![BytecodeType::Integer],
        result: Some(BytecodeType::Integer),
    });
    let native_authorizations = vec![RuntimeNativeAuthorization {
        key: ABS,
        name: "ABS".to_string(),
        canonical: true,
        bindings: vec![NativeBinding {
            shapes: number(),
            bound: Rc::new(BoundRuntimeNative {
                service_key: ABS,
                import,
                omitted_arguments: Vec::new(),
            }),
        }],
    }];
    let mode = UserCallMode::Value(BytecodeType::Integer);
    let user_resolutions = vec![UserResolution {
        name: "ECHO".to_string(),
        mode,
        arguments: vec![UserArgumentSpec::Value(BytecodeType::Integer)],
        outcome: UserResolutionOutcome::Found(Rc::new(ResolvedUserCall {
            generation: GenerationId(1),
            function: ECHO,
            mode,
            bindings: vec![UserArgumentBinding::Value(BytecodeType::Integer)],
        })),
    }];
    let mut user_resolutions = user_resolutions;
    user_resolutions.push(UserResolution {
        name: "STORE".to_string(),
        mode: UserCallMode::Call,
        arguments: vec![UserArgumentSpec::Value(BytecodeType::Integer)],
        outcome: UserResolutionOutcome::Found(Rc::new(ResolvedUserCall {
            generation: GENERATION,
            function: STORE,
            mode: UserCallMode::Call,
            bindings: vec![UserArgumentBinding::Value(BytecodeType::Integer)],
        })),
    });
    ProgramGeneration {
        globals: globals(),
        functions,
        event_groups: Vec::new(),
        host_imports: Vec::new(),
        native_imports: Vec::new(),
        call_compatibility: CallCompatibility {
            allow_event_as_normal: false,
            excess_arguments: ExcessArgumentPolicy::Reject,
            system_no_target: false,
            compatible_rand: false,
            allow_full_width_space: false,
            debug_semicolon: false,
            ignore_triple_symbols: false,
        },
        integer_policy: IntegerArithmeticPolicy::ReferenceWrappingV1,
        existvar_expression_probe: false,
        snake_data_apis: false,
        checked_runtime_forms: true,
        call_text: true,
        map_extensions: false,
        snake_input: false,
        staged_authorizations: Vec::new(),
        native_authorizations,
        host_authorizations: Vec::new(),
        builtins,
        map_operations: Vec::new(),
        user_resolutions,
        runtime_variables,
        named_indices: Vec::new(),
        foldable_services: Vec::new(),
        internal_columns: Vec::new(),
        structured_jumps: Vec::new(),
        literal_group_matches: Vec::new(),
        bulk_loops: Vec::new(),
        indexed_reads: Vec::new(),
        source_map: Vec::new(),
        characters: Vec::new(),
        default_character: 0,
        stain_default: Vec::new(),
        void_character: CellMap::new(),
    }
}

fn machine() -> (Vm, Fiber) {
    let mut shared = CellMap::new();
    shared.push(
        FLAG,
        VariableCell {
            dimensions: vec![3],
            data: CellData::Integers(vec![4, 5, 6]),
        },
    );
    shared.push(
        NAMES,
        VariableCell {
            dimensions: vec![3],
            data: CellData::Strings(vec![
                "玄".to_string(),
                "関".to_string(),
                String::new(),
            ]),
        },
    );
    let vm = Vm {
        config: VmConfig {
            maximum_operand_stack: 64,
            maximum_call_depth: 64,
            maximum_backward_branches_without_progress: 10_000,
        },
        generations: vec![LoadedGeneration {
            id: GENERATION,
            program: Rc::new(program()),
        }],
        current_generation: GENERATION,
        memory: Memory {
            shared,
            statics: CellMap::new(),
            characters: Vec::new(),
            array_leases: Vec::new(),
        },
        fibers: Vec::new(),
        next_frame: 2,
        next_request: 1,
        pending_compatibility_warnings: Vec::new(),
        compatibility_warning_sites: Vec::new(),
        path_memo_owner: None,
        active_function_memos: Vec::new(),
    };
    let fiber = Fiber {
        id: FiberId(1),
        frames: vec![Frame {
            id: FrameId(1),
            generation: GENERATION,
            function: ENTRY,
            instruction: 0,
            stack: Vec::new(),
            locals: CellMap::new(),
            arguments: Vec::new(),
            for_loops: Vec::new(),
            select_values: Vec::new(),
            user_calls: Vec::new(),
            existvar_checks: Vec::new(),
            bit_calls: Vec::new(),
            returns_value: false,
            event_context: false,
            event_dispatch: None,
            runtime_form: None,
        }],
        state: FiberState::Runnable,
        backward_branches_without_progress: 0,
    };
    (vm, fiber)
}

/// Builds expressions with a span of their own.
struct Source {
    next: usize,
}

impl Source {
    fn new() -> Source {
        Source { next: 1 }
    }

    fn node(&mut self, kind: ExprKind) -> Rc<Expr> {
        let span = Span {
            start: self.next,
            end: self.next + 1,
        };
        self.next += 1;
        Rc::new(Expr { kind, span })
    }

    fn integer(&mut self, value: i64) -> Rc<Expr> {
        self.node(ExprKind::Integer(value))
    }

    fn text(&mut self, value: &str) -> Rc<Expr> {
        self.node(ExprKind::String(value.to_string()))
    }

    fn binary(&mut self, op: BinaryOp, left: Rc<Expr>, right: Rc<Expr>) -> Rc<Expr> {
        self.node(ExprKind::Binary { op, left, right })
    }

    fn element(&mut self, name: &str, index: i64) -> Rc<Expr> {
        let index = self.integer(index);
        self.node(ExprKind::Variable {
            name: name.to_string(),
            indices: vec![index],
        })
    }

    fn call(&mut self, name: &str, argument: Rc<Expr>) -> Rc<Expr> {
        self.node(ExprKind::Call {
            name: name.to_string(),
            args: Rc::new(vec![Some(argument)]),
        })
    }
}

fn text_part(value: &str) -> Rc<FormPart> {
    Rc::new(FormPart::Text(value.to_string()))
}

fn value_part(string: bool, expression: Rc<Expr>) -> Rc<FormPart> {
    Rc::new(FormPart::Interpolation {
        string,
        expression,
        width: None,
        alignment: None,
    })
}

fn form(parts: Vec<Rc<FormPart>>) -> Rc<FormattedString> {
    Rc::new(FormattedString {
        parts,
        span: Span {
            start: 0,
            end: 1_000,
        },
    })
}

fn providers() -> NativeProviders {
    NativeProviders {
        registered: vec![ABS],
        machine: Vec::new(),
    }
}

fn begin(vm: &Vm, fiber: &mut Fiber, form: Rc<FormattedString>) -> Result<(), StepError> {
    begin_runtime_form(
        vm,
        fiber,
        &providers(),
        GENERATION,
        ENTRY,
        0,
        "source",
        ParsedForm {
            has_errors: false,
            diagnostics: Vec::new(),
            value: Some(form),
        },
    )
}

/// Steps an evaluation to its value.
fn run(vm: &mut Vm, fiber: &mut Fiber) -> Result<VmValue, StepError> {
    run_with(vm, fiber, ParsedCallText::Blank).map(|value| value.expect("value"))
}

/// Hands an answer to the evaluation that the first frame owns.
fn answer(vm: &mut Vm, fiber: &mut Fiber, reply: FormReply) -> Result<FormAnswer, StepError> {
    let mut evaluation = fiber.frames[0].runtime_form.take().unwrap();
    let answer = evaluation.answer(vm, fiber, &providers(), reply);
    fiber.frames[0].runtime_form = Some(evaluation);
    answer
}

fn answer_pending(vm: &mut Vm, fiber: &mut Fiber, reply: FormReply) -> Result<(), StepError> {
    match answer(vm, fiber, reply)? {
        FormAnswer::Step(RuntimeFormStep::Pending) => Ok(()),
        _ => panic!("more to do expected"),
    }
}

/// Enters the callee, and lets it return: a method hands its argument back, another function stores
/// it.
fn call_and_return(
    vm: &mut Vm,
    fiber: &mut Fiber,
    user_call: RuntimeUserCall,
    depth: usize,
) -> Result<(), StepError> {
    let argument = user_call.captured[0].clone().unwrap();
    let id = vm.allocate_frame_id();
    let program = vm.program(GENERATION).unwrap();
    let callee = make_frame(
        id,
        GENERATION,
        &program,
        program.function(user_call.call.function).unwrap(),
        vec![argument],
        true,
        false,
    );
    fiber.frames.push(callee);
    answer_pending(
        vm,
        fiber,
        FormReply::Entered {
            user_call,
            depth,
            entered: Ok(()),
        },
    )?;
    let evaluation = fiber.frames[0].runtime_form.as_ref().unwrap();
    assert_eq!(evaluation.expected_child(), Some(id));
    let callee = fiber.frames.pop().unwrap();
    let argument = callee.arguments[0].clone();
    if callee.function == ECHO {
        fiber.frames[0].stack.push(argument);
    } else {
        let place = PlaceDescriptor::of_variable(FLAG);
        vm.write_place(fiber, &place, argument).unwrap();
    }
    Ok(())
}

/// Steps an evaluation to its end; the absolute value is the only service, and call texts are parsed
/// to what is given.
fn run_with(
    vm: &mut Vm,
    fiber: &mut Fiber,
    parsed: ParsedCallText,
) -> Result<Option<VmValue>, StepError> {
    let mut nodes = Vec::new();
    drive(vm, fiber, parsed, &mut nodes)
}

/// Steps an evaluation to its end; notes before each step how many nodes may still be typed.
fn drive(
    vm: &mut Vm,
    fiber: &mut Fiber,
    parsed: ParsedCallText,
    nodes: &mut Vec<usize>,
) -> Result<Option<VmValue>, StepError> {
    let mut parsed = Some(parsed);
    let mut host_calls: u32 = 0;
    for _ in 0..1_000 {
        let evaluation = fiber.frames[0].runtime_form.as_ref().unwrap();
        nodes.push(evaluation.remaining_nodes);
        let reply = match resume_runtime_form(vm, fiber, &providers(), &mut host_calls)? {
            RuntimeFormStep::Pending => continue,
            RuntimeFormStep::Complete(value) => return Ok(Some(value)),
            RuntimeFormStep::CompleteCall => return Ok(None),
            RuntimeFormStep::Request(FormRequest::ParseCallText { call, .. }) => {
                FormReply::CallTextParsed {
                    spec: call,
                    parsed: parsed.take().unwrap(),
                    kind: Ok(()),
                }
            }
            RuntimeFormStep::Request(FormRequest::Native {
                service,
                operands,
                depth,
            }) => {
                assert_eq!(service.service_key, ABS);
                let VmValue::Integer(operand) = operands[0] else {
                    panic!("integer operand")
                };
                FormReply::Served {
                    expected: service.import.result,
                    depth,
                    ready: NativeReady::value(VmValue::Integer(operand.abs())),
                    rollback: Ok(()),
                }
            }
            RuntimeFormStep::Request(FormRequest::Pad(ask)) => {
                let missing = usize::try_from(ask.width)
                    .unwrap()
                    .saturating_sub(ask.text.chars().count());
                let blanks = " ".repeat(missing);
                FormReply::Padded(Ok(if ask.left {
                    format!("{}{blanks}", ask.text)
                } else {
                    format!("{blanks}{}", ask.text)
                }))
            }
            RuntimeFormStep::Request(FormRequest::Mutate { place, mode }) => {
                let VmValue::Integer(before) = vm.read_place(fiber, &place).unwrap() else {
                    panic!("integer variable")
                };
                // Increments have even modes; the old value is the result of a postfix operation.
                let after = if mode % 2 == 0 { before + 1 } else { before - 1 };
                vm.write_place(fiber, &place, VmValue::Integer(after))
                    .unwrap();
                FormReply::Mutated(Ok(VmValue::Integer(if mode < 2 { after } else { before })))
            }
            RuntimeFormStep::Request(FormRequest::Method(user_call)) => {
                let reply = FormReply::Method {
                    user_call,
                    references: vec![false],
                };
                match answer(vm, fiber, reply)? {
                    FormAnswer::Step(RuntimeFormStep::Pending) => {}
                    FormAnswer::Method(MethodAdvance::Enter {
                        call,
                        owner_stack_depth,
                    }) => call_and_return(vm, fiber, call, owner_stack_depth)?,
                    _ => panic!("unexpected advance"),
                }
                continue;
            }
            RuntimeFormStep::Request(FormRequest::CaptureArgument(user_call)) => {
                let mut evaluation = fiber.frames[0].runtime_form.take().unwrap();
                let asked = evaluation.begin_argument_capture(vm, &user_call, &vec![false])?;
                fiber.frames[0].runtime_form = Some(evaluation);
                match asked {
                    ArgumentAsk::Value(value) => FormReply::ArgumentCaptured {
                        user_call,
                        argument: Ok(value),
                    },
                    ArgumentAsk::Selected { .. } => panic!("no selection"),
                }
            }
            RuntimeFormStep::Request(FormRequest::UserWait) => FormReply::Returned {
                references: vec![false],
            },
            _ => panic!("unexpected request"),
        };
        answer_pending(vm, fiber, reply)?;
    }
    panic!("evaluation did not end");
}

fn evaluate(parts: Vec<Rc<FormPart>>) -> Result<String, StepError> {
    let (mut vm, mut fiber) = machine();
    begin(&vm, &mut fiber, form(parts))?;
    let value = run(&mut vm, &mut fiber)?;
    assert!(fiber.frames[0].runtime_form.is_none());
    match value {
        VmValue::String(text) => Ok(text),
        other => panic!("{other:?}"),
    }
}

#[test]
fn texts_and_values_are_joined_in_order() {
    let mut s = Source::new();
    let (two, three) = (s.integer(2), s.integer(3));
    let product = s.binary(BinaryOp::Multiply, two, three);
    let one = s.integer(1);
    let sum = s.binary(BinaryOp::Plus, one, product);
    assert_eq!(
        evaluate(vec![text_part("a"), value_part(false, sum), text_part("b")]).unwrap(),
        "a7b"
    );
}

#[test]
fn an_empty_form_is_an_empty_text() {
    assert_eq!(evaluate(Vec::new()).unwrap(), "");
}

#[test]
fn variables_are_read_where_they_stand() {
    let mut s = Source::new();
    let flag = s.element("FLAG", 2);
    let name = s.element("names", 1);
    assert_eq!(
        evaluate(vec![value_part(false, flag), value_part(true, name)]).unwrap(),
        "6関"
    );
}

#[test]
fn an_index_outside_its_variable_fails_and_keeps_the_evaluation() {
    let mut s = Source::new();
    let outside = s.element("FLAG", 3);
    let (mut vm, mut fiber) = machine();
    begin(
        &vm,
        &mut fiber,
        form(vec![text_part("a"), value_part(false, outside)]),
    )
    .unwrap();
    let error = run(&mut vm, &mut fiber).unwrap_err();
    assert_eq!(error.code, VmFaultCode::Bounds);
    let kept = fiber.frames[0].runtime_form.as_ref().unwrap();
    assert!(kept.valid_for_frame(GENERATION, ENTRY, FrameId(1), 64));
    assert!(!kept.valid_for_frame(GENERATION, ECHO, FrameId(1), 64));
}

#[test]
fn services_are_asked_and_their_values_go_on() {
    let mut s = Source::new();
    let five = s.integer(5);
    let minus = s.node(ExprKind::Unary {
        op: UnaryOp::Minus,
        operand: five,
    });
    let absolute = s.call("ABS", minus);
    let one = s.integer(1);
    let sum = s.binary(BinaryOp::Plus, absolute, one);
    assert_eq!(evaluate(vec![value_part(false, sum)]).unwrap(), "6");
}

#[test]
fn only_the_chosen_branch_is_evaluated() {
    let mut s = Source::new();
    let zero = s.integer(0);
    let outside = s.element("FLAG", 9);
    let inside = s.element("FLAG", 0);
    let choice = s.node(ExprKind::Ternary {
        condition: zero,
        then_expr: outside,
        else_expr: inside,
    });
    assert_eq!(evaluate(vec![value_part(false, choice)]).unwrap(), "4");
    let condition = s.integer(1);
    let part = Rc::new(FormPart::Conditional {
        condition,
        then_value: form(vec![text_part("yes")]),
        else_value: Some(form(vec![text_part("no")])),
    });
    assert_eq!(evaluate(vec![part]).unwrap(), "yes");
}

#[test]
fn logic_stops_at_a_known_result() {
    let mut s = Source::new();
    for (op, left, expected) in [
        (BinaryOp::LogicalAnd, 0, "0"),
        (BinaryOp::LogicalOr, 1, "1"),
        (BinaryOp::Nand, 0, "1"),
        (BinaryOp::Nor, 1, "0"),
    ] {
        let left = s.integer(left);
        let outside = s.element("FLAG", 9);
        let whole = s.binary(op, left, outside);
        assert_eq!(
            evaluate(vec![value_part(false, whole)]).unwrap(),
            expected,
            "{op:?}"
        );
    }
}

#[test]
fn a_value_is_padded_to_its_width() {
    let mut s = Source::new();
    for (alignment, expected) in [(Alignment::Left, "7  |"), (Alignment::Right, "  7|")] {
        let part = Rc::new(FormPart::Interpolation {
            string: false,
            expression: s.integer(7),
            width: Some(s.integer(3)),
            alignment: Some(alignment),
        });
        assert_eq!(evaluate(vec![part, text_part("|")]).unwrap(), expected);
    }
}

#[test]
fn division_by_zero_is_a_failure_of_the_script() {
    let mut s = Source::new();
    let (one, zero) = (s.integer(1), s.integer(0));
    let quotient = s.binary(BinaryOp::Divide, one, zero);
    let error = evaluate(vec![value_part(false, quotient)]).unwrap_err();
    assert_eq!(error.code, VmFaultCode::DivideByZero);
    assert!(error.is_script());
}

#[test]
fn a_text_where_an_integer_is_due_is_refused_before_the_evaluation() {
    let mut s = Source::new();
    let text = s.text("x");
    let (vm, mut fiber) = machine();
    let error = begin(&vm, &mut fiber, form(vec![value_part(false, text)])).unwrap_err();
    assert_eq!(
        error.category,
        FaultCategory::Script(ScriptFaultKind::Argument)
    );
    assert!(fiber.frames[0].runtime_form.is_none());
}

#[test]
fn errors_of_the_parser_are_reported() {
    let (vm, mut fiber) = machine();
    let error = begin_runtime_form(
        &vm,
        &mut fiber,
        &providers(),
        GENERATION,
        ENTRY,
        0,
        "{",
        ParsedForm {
            has_errors: true,
            diagnostics: vec!["open brace".to_string()],
            value: None,
        },
    )
    .unwrap_err();
    assert_eq!(error.category, FaultCategory::Script(ScriptFaultKind::Parse));
    assert!(error.message.starts_with("STRFORM expansion failed: "));
    assert!(error.message.contains("open brace"));
}

#[test]
fn a_frame_owns_one_evaluation() {
    let (vm, mut fiber) = machine();
    begin(&vm, &mut fiber, form(Vec::new())).unwrap();
    let error = begin(&vm, &mut fiber, form(Vec::new())).unwrap_err();
    assert_eq!(error.message, "STRFORM caller already owns a continuation");
}

#[test]
fn a_checked_form_catches_the_failure_of_its_source() {
    let (mut vm, mut fiber) = machine();
    begin_runtime_form_check(&vm, &mut fiber, GENERATION, ENTRY, 0, "{1/0}".to_string()).unwrap();
    let mut s = Source::new();
    let (one, zero) = (s.integer(1), s.integer(0));
    let quotient = s.binary(BinaryOp::Divide, one, zero);
    let mut host_calls: u32 = 0;
    for _ in 0..100 {
        match resume_runtime_form(&mut vm, &mut fiber, &providers(), &mut host_calls) {
            Ok(RuntimeFormStep::Pending) => {}
            Ok(RuntimeFormStep::Request(FormRequest::ParseForm(source))) => {
                assert_eq!(source, "{1/0}");
                let parsed = ParsedForm {
                    has_errors: false,
                    diagnostics: Vec::new(),
                    value: Some(form(vec![value_part(false, quotient.clone())])),
                };
                answer_pending(&mut vm, &mut fiber, FormReply::FormParsed(parsed)).unwrap();
            }
            Ok(RuntimeFormStep::Complete(value)) => {
                assert_eq!(value, VmValue::Integer(0));
                return;
            }
            Ok(_) => panic!("unexpected request"),
            Err(error) => {
                let target =
                    select_runtime_form_catch(fiber.id, fiber.top(), &error).expect("boundary");
                finish_runtime_form_catch(&mut fiber, target).unwrap();
            }
        }
    }
    panic!("check did not end");
}

#[test]
fn nesting_is_bounded_before_the_parser() {
    assert!(preflight_nesting("{(1)}").is_ok());
    let deep = "(".repeat(10_000);
    assert_eq!(
        preflight_nesting(&deep).unwrap_err().category,
        FaultCategory::ResourceLimit
    );
}

#[test]
fn plain_texts_need_no_evaluation() {
    assert!(!requires_runtime_form_context("plain 玄関"));
    assert!(requires_runtime_form_context("{FLAG}"));
    assert!(requires_runtime_form_context("%NAMES%"));
}

#[test]
fn methods_of_the_program_are_called_and_their_values_go_on() {
    let mut s = Source::new();
    let five = s.integer(5);
    let inner = s.call("ECHO", five);
    let one = s.integer(1);
    let sum = s.binary(BinaryOp::Plus, inner, one);
    let outer = s.call("echo", sum);
    assert_eq!(
        evaluate(vec![text_part("<"), value_part(false, outer), text_part(">")]).unwrap(),
        "<6>"
    );
}

#[test]
fn increments_change_their_variable() {
    let mut s = Source::new();
    let flag = s.element("FLAG", 0);
    let increment = s.node(ExprKind::Unary {
        op: UnaryOp::PreIncrement,
        operand: flag,
    });
    let flag = s.element("FLAG", 0);
    let decrement = s.node(ExprKind::Postfix {
        op: PostfixOp::Decrement,
        operand: flag,
    });
    let flag = s.element("FLAG", 0);
    assert_eq!(
        evaluate(vec![
            value_part(false, increment),
            value_part(false, decrement),
            value_part(false, flag),
        ])
        .unwrap(),
        "554"
    );
}

fn call_text(allow_missing: bool) -> CallTextSpec {
    CallTextSpec {
        jump: false,
        allow_missing,
        has_catch: false,
        catch_target: 0,
    }
}

#[test]
fn a_call_text_reduces_its_arguments_and_calls() {
    let (mut vm, mut fiber) = machine();
    begin_runtime_call_text(
        &vm,
        &mut fiber,
        GENERATION,
        ENTRY,
        0,
        "STORE(1 + FLAG:1)".to_string(),
        call_text(false),
    )
    .unwrap();
    let mut s = Source::new();
    let one = s.integer(1);
    let flag = s.element("FLAG", 1);
    let sum = s.binary(BinaryOp::Plus, one, flag);
    let parsed = ParsedCallText::Call {
        target: "STORE".to_string(),
        arguments: vec![CallTextArgument::Expression(sum)],
    };
    assert_eq!(run_with(&mut vm, &mut fiber, parsed).unwrap(), None);
    assert!(fiber.frames[0].runtime_form.is_none());
    assert_eq!(
        vm.memory.shared.get(FLAG).unwrap().data,
        CellData::Integers(vec![6, 5, 6])
    );
}

#[test]
fn a_blank_call_text_calls_nothing() {
    let (mut vm, mut fiber) = machine();
    begin_runtime_call_text(
        &vm,
        &mut fiber,
        GENERATION,
        ENTRY,
        0,
        " ".to_string(),
        call_text(false),
    )
    .unwrap();
    assert_eq!(
        run_with(&mut vm, &mut fiber, ParsedCallText::Blank).unwrap(),
        None
    );
    assert_eq!(fiber.frames.len(), 1);
}

#[test]
fn errors_in_a_call_text_are_forgiven_where_a_target_may_be_missing() {
    for allowed in [false, true] {
        let (mut vm, mut fiber) = machine();
        begin_runtime_call_text(
            &vm,
            &mut fiber,
            GENERATION,
            ENTRY,
            0,
            "STORE(".to_string(),
            call_text(allowed),
        )
        .unwrap();
        let parsed = ParsedCallText::Failed {
            in_arguments: true,
            diagnostics: vec!["open bracket".to_string()],
        };
        let end = run_with(&mut vm, &mut fiber, parsed);
        if allowed {
            assert_eq!(end.unwrap(), None);
        } else {
            assert_eq!(
                end.unwrap_err().category,
                FaultCategory::Script(ScriptFaultKind::Parse)
            );
        }
    }
}

fn run_nested_calls() {
    for pattern in [0, 1, 2] {
        let mut s = Source::new();
        let expression = (0..24).fold(s.integer(1), |inner, index| {
            let name = if pattern == 0 || pattern == 2 && index % 2 == 0 {
                "ABS"
            } else {
                "ECHO"
            };
            s.call(name, inner)
        });
        let (mut vm, mut fiber) = machine();
        vm.config.maximum_operand_stack = 1_024;
        begin(&vm, &mut fiber, form(vec![value_part(false, expression)])).unwrap();
        let mut nodes = Vec::new();
        let value = drive(&mut vm, &mut fiber, ParsedCallText::Blank, &mut nodes).unwrap();
        assert_eq!(value, Some(VmValue::String("1".to_string())));
        // Form + interpolation + 24 calls + one literal. No call or return retypes its actual tree.
        assert!(
            nodes.iter().all(|remaining| 1_024 - remaining == 27),
            "pattern {pattern}"
        );
    }
}

#[test]
fn typing_runtime_nested_native_and_user_calls_consume_one_root_type_analysis() {
    run_nested_calls();
}

#[test]
fn tests_runtime_nested_native_and_user_calls_consume_one_root_type_analysis() {
    run_nested_calls();
}

#[test]
fn an_answer_beyond_the_limits_of_the_machine_is_refused() {
    let (mut vm, mut fiber) = machine();
    begin(&vm, &mut fiber, form(vec![text_part("a")])).unwrap();
    for n in 0..64 {
        answer_pending(&mut vm, &mut fiber, FormReply::ExistsMethod(n)).unwrap();
    }
    let error = answer(&mut vm, &mut fiber, FormReply::ExistsMethod(64))
        .err()
        .unwrap();
    assert_eq!(error.category, FaultCategory::ResourceLimit);
    assert_eq!(error.message, "STRFORM continuation exceeds VM limits");
    // The host is waited for without a look at the limits, and a failure is handed on.
    assert!(matches!(
        answer(&mut vm, &mut fiber, FormReply::HostCalled(Ok(true))),
        Ok(FormAnswer::Step(RuntimeFormStep::Blocked))
    ));
    let refused = StepError::new(VmFaultCode::Host, "refused");
    let error = answer(&mut vm, &mut fiber, FormReply::HostCalled(Err(refused)))
        .err()
        .unwrap();
    assert_eq!(error.message, "refused");
}

fn stored_bit_call(lease: u64) -> RuntimeFormTask {
    RuntimeFormTask::BitFinish(FormBitCall {
        slot: 1,
        spec: BitCallSpec {
            operation: BitOperation::GetBit,
            input: FLAG,
            tail_count: 1,
            present: 1,
        },
        site: RuntimeCallSite {
            plan: 1,
            span: Span { start: 1, end: 2 },
        },
        source: Vec::new(),
        lease: ArrayLeaseId(lease),
        value_depth: 0,
        work: None,
    })
}

fn leased(id: u64) -> ArrayLease {
    ArrayLease {
        id: ArrayLeaseId(id),
        input: FLAG,
        length: 3,
        address: CellAddress {
            storage: BytecodeStorage::Project,
            key: FLAG,
            character: None,
            frame: None,
        },
        owner: ArrayLeaseOwner {
            fiber: FiberId(1),
            frame: FrameId(1),
            generation: GENERATION,
            function: ENTRY,
            origin: ArrayLeaseOrigin::RuntimeForm {
                instruction: 0,
                slot: 1,
            },
        },
    }
}

/// The leases that the stored BIT calls of a suspended evaluation hold stay, whichever fiber owns
/// it; those that nothing holds are given back.
#[test]
fn leases_of_suspended_evaluations_are_kept() {
    let (mut vm, mut fiber) = machine();
    begin(&vm, &mut fiber, form(vec![text_part("a")])).unwrap();
    let (_, mut other) = machine();
    begin(&vm, &mut other, form(vec![text_part("b")])).unwrap();
    let suspended = fiber.frames[0].runtime_form.as_mut().unwrap();
    suspended.work.push(stored_bit_call(7));
    let parked = other.frames[0].runtime_form.as_mut().unwrap();
    parked.work.push(stored_bit_call(8));
    other.id = FiberId(2);
    vm.fibers.push(other);
    vm.memory.array_leases = vec![leased(6), leased(7), leased(8), leased(9)];
    assert_eq!(
        live_bit_leases(&vm.fibers, Some(&fiber), &vec![ArrayLeaseId(9)]),
        [ArrayLeaseId(9), ArrayLeaseId(8), ArrayLeaseId(7)]
    );
    vm.fibers.push(fiber);
    vm.prune_bit_leases(&vec![ArrayLeaseId(9)]);
    assert_eq!(vm.memory.array_leases, [leased(7), leased(8), leased(9)]);
    vm.prune_bit_leases(&Vec::new());
    assert_eq!(vm.memory.array_leases, [leased(7), leased(8)]);
    let owners: Vec<_> = vm
        .validate_bit_leases(&Vec::new())
        .unwrap()
        .iter()
        .map(|hold| (hold.lease, hold.owner.fiber))
        .collect();
    assert_eq!(
        owners,
        [
            (ArrayLeaseId(8), FiberId(2)),
            (ArrayLeaseId(7), FiberId(1))
        ]
    );
    let twice = vm.fibers[1].frames[0].runtime_form.as_mut().unwrap();
    twice.work.push(stored_bit_call(8));
    assert_eq!(
        vm.validate_bit_leases(&Vec::new()).err(),
        Some(VmError::Snapshot(
            "BIT form lease is owned twice".to_string()
        ))
    );
}
