//! Types of run-time expressions: each node of a source is visited once.

use std::rc::Rc;

use erabasic_vm::ast::{Alignment, BinaryOp, Expr, ExprKind, FormPart, FormattedString, Span};
use erabasic_vm::fault::FaultCategory;
use erabasic_vm::form_binding::NativeProviders;
use erabasic_vm::form_graph::GraphBuilder;
use erabasic_vm::form_typing::{
    binary_result_type, require_type, triple_variables, unsupported_triple, TypeAnalysis,
};
use erabasic_vm::memory::CellMap;
use erabasic_vm::program::{
    BoundRuntimeNative, BytecodeFunction, BytecodeFunctionKind, CallCompatibility,
    ExcessArgumentPolicy, IntegerArithmeticPolicy, NativeBinding, ProgramGeneration,
    RuntimeBuiltin, RuntimeExpressionShape, RuntimeImport, RuntimeNativeAuthorization,
    UserArgumentSpec, UserCallMode, UserResolution, UserResolutionOutcome,
};
use erabasic_vm::state::{ResolvedUserCall, UserArgumentBinding};
use erabasic_vm::terms::{ReferenceTermCall, ReferenceTermKind};
use erabasic_vm::value::{BytecodeType, GenerationId, SymbolKey};

const ENTRY: SymbolKey = SymbolKey(100);
const ECHO: SymbolKey = SymbolKey(101);
const ABS: SymbolKey = SymbolKey(50);

fn number() -> Vec<Option<RuntimeExpressionShape>> {
    vec![Some(RuntimeExpressionShape {
        value_type: BytecodeType::Integer,
        variable: false,
        mutable: false,
    })]
}

fn function(key: SymbolKey, name: &str, kind: BytecodeFunctionKind) -> BytecodeFunction {
    BytecodeFunction {
        key,
        name: name.to_string(),
        kind,
        parameters: Vec::new(),
        result: if kind == BytecodeFunctionKind::Method {
            Some(BytecodeType::Integer)
        } else {
            None
        },
        code: Vec::new(),
        labels: Vec::new(),
        imports: Vec::new(),
    }
}

/// A program with the service `ABS` and the method `ECHO`.
fn program() -> ProgramGeneration {
    let functions = vec![
        function(ENTRY, "SYSTEM_TITLE", BytecodeFunctionKind::Normal),
        function(ECHO, "ECHO", BytecodeFunctionKind::Method),
    ];
    let builtins = vec![RuntimeBuiltin {
        name: "ABS".to_string(),
        accepted: vec![number()],
        result: BytecodeType::Integer,
    }];
    let import = Rc::new(RuntimeImport {
        key: ABS,
        namespace: "native".to_string(),
        name: "ABS".to_string(),
        parameters: vec![BytecodeType::Integer],
        result: Some(BytecodeType::Integer),
    });
    let native_authorizations = vec![RuntimeNativeAuthorization {
        key: ABS,
        name: "ABS".to_string(),
        canonical: true,
        bindings: vec![NativeBinding {
            shapes: number(),
            bound: Rc::new(BoundRuntimeNative {
                service_key: ABS,
                import,
                omitted_arguments: Vec::new(),
            }),
        }],
    }];
    let mode = UserCallMode::Value(BytecodeType::Integer);
    let user_resolutions = vec![UserResolution {
        name: "ECHO".to_string(),
        mode,
        arguments: vec![UserArgumentSpec::Value(BytecodeType::Integer)],
        outcome: UserResolutionOutcome::Found(Rc::new(ResolvedUserCall {
            generation: GenerationId(1),
            function: ECHO,
            mode,
            bindings: vec![UserArgumentBinding::Value(BytecodeType::Integer)],
        })),
    }];
    ProgramGeneration {
        globals: Vec::new(),
        functions,
        event_groups: Vec::new(),
        host_imports: Vec::new(),
        native_imports: Vec::new(),
        call_compatibility: CallCompatibility {
            allow_event_as_normal: false,
            excess_arguments: ExcessArgumentPolicy::Reject,
            system_no_target: false,
            compatible_rand: false,
            allow_full_width_space: false,
            debug_semicolon: false,
            ignore_triple_symbols: false,
        },
        integer_policy: IntegerArithmeticPolicy::ReferenceWrappingV1,
        existvar_expression_probe: false,
        snake_data_apis: false,
        checked_runtime_forms: false,
        call_text: false,
        map_extensions: false,
        snake_input: false,
        staged_authorizations: Vec::new(),
        native_authorizations,
        host_authorizations: Vec::new(),
        builtins,
        map_operations: Vec::new(),
        user_resolutions,
        runtime_variables: Vec::new(),
        named_indices: Vec::new(),
        foldable_services: Vec::new(),
        internal_columns: Vec::new(),
        structured_jumps: Vec::new(),
        literal_group_matches: Vec::new(),
        bulk_loops: Vec::new(),
        indexed_reads: Vec::new(),
        source_map: Vec::new(),
        characters: Vec::new(),
        default_character: 0,
        stain_default: Vec::new(),
        void_character: CellMap::new(),
    }
}

fn span(start: usize, end: usize) -> Span {
    Span { start, end }
}

/// Calls of these names around the literal one.
fn nested(names: &[&str]) -> Rc<Expr> {
    let mut expression = Rc::new(Expr {
        kind: ExprKind::Integer(1),
        span: span(1_000, 1_001),
    });
    for (depth, name) in names.iter().enumerate() {
        expression = Rc::new(Expr {
            kind: ExprKind::Call {
                name: name.to_string(),
                args: Rc::new(vec![Some(expression)]),
            },
            span: span(999 - depth, 1_002 + depth),
        });
    }
    expression
}

fn patterns() -> Vec<Vec<&'static str>> {
    vec![
        vec!["ABS"; 24],
        vec!["ECHO"; 24],
        (0..24)
            .map(|i| if i % 2 == 0 { "ABS" } else { "ECHO" })
            .collect(),
    ]
}

fn providers() -> NativeProviders {
    NativeProviders {
        registered: vec![ABS],
        machine: Vec::new(),
    }
}

fn visit_nested_types() {
    let program = program();
    let function = program.function_by_name("SYSTEM_TITLE").unwrap().key;
    let natives = providers();
    for names in patterns() {
        let source = names
            .iter()
            .rev()
            .fold("1".to_owned(), |inner, name| format!("{name}({inner})"));
        let expression = nested(&names);
        for probe in [false, true] {
            let mut analysis = TypeAnalysis::new(&program, function, probe, 25, Some(&natives));
            assert_eq!(
                analysis.expression(&expression, 0).unwrap(),
                BytecodeType::Integer
            );
            assert_eq!(analysis.nodes(), 25, "{probe}: {source}");
            let mut bounded = TypeAnalysis::new(&program, function, probe, 24, Some(&natives));
            assert_eq!(
                bounded.expression(&expression, 0).unwrap_err().category,
                FaultCategory::ResourceLimit
            );
            assert_eq!(bounded.nodes(), 24);
        }
    }
}

#[test]
fn typing_nested_types_visit_each_node_once_in_normal_and_probe_modes() {
    visit_nested_types();
}

#[test]
fn tests_nested_types_visit_each_node_once_in_normal_and_probe_modes() {
    visit_nested_types();
}

/// The text whose only part is the value of an expression.
fn interpolated(expression: Rc<Expr>) -> Rc<FormattedString> {
    Rc::new(FormattedString {
        parts: vec![Rc::new(FormPart::Interpolation {
            string: false,
            expression,
            width: None,
            alignment: None,
        })],
        span: span(0, 2_000),
    })
}

#[test]
fn a_form_of_nested_calls_is_typed_in_one_pass() {
    let program = program();
    let natives = providers();
    for (pattern, names) in patterns().into_iter().enumerate() {
        let form = interpolated(nested(&names));
        let mut analysis = TypeAnalysis::new(&program, ENTRY, false, 1_024, Some(&natives));
        analysis.form(&form, 0).unwrap();
        // Form + interpolation + 24 calls + one literal.
        assert_eq!(analysis.nodes(), 27, "pattern {pattern}");
    }
}

#[test]
fn a_missing_callable_and_a_wrong_argument_are_refused() {
    let program = program();
    let natives = providers();
    let mut analysis = TypeAnalysis::new(&program, ENTRY, false, 64, Some(&natives));
    let error = analysis.expression(&nested(&["ABSENT"]), 0).unwrap_err();
    assert_eq!(error.message, "runtime callable ABSENT is missing");
    let text = Rc::new(Expr {
        kind: ExprKind::Call {
            name: "ABS".to_string(),
            args: Rc::new(vec![Some(Rc::new(Expr {
                kind: ExprKind::String("玄関".to_string()),
                span: span(4, 8),
            }))]),
        },
        span: span(0, 9),
    });
    let error = analysis.expression(&text, 0).unwrap_err();
    assert_eq!(
        error.message,
        "runtime callable ABS has incompatible source arguments"
    );
}

#[test]
fn a_service_without_provider_is_refused() {
    let program = program();
    let nobody = NativeProviders {
        registered: Vec::new(),
        machine: Vec::new(),
    };
    let mut analysis = TypeAnalysis::new(&program, ENTRY, false, 64, Some(&nobody));
    let error = analysis.expression(&nested(&["ABS"]), 0).unwrap_err();
    assert_eq!(error.category, FaultCategory::HostContract);
    assert_eq!(error.message, "runtime native provider ABS is missing");
}

#[test]
fn types_of_operators() {
    let (integer, string) = (BytecodeType::Integer, BytecodeType::String);
    assert_eq!(
        binary_result_type(BinaryOp::Plus, integer, integer).unwrap(),
        integer
    );
    assert_eq!(
        binary_result_type(BinaryOp::Plus, string, string).unwrap(),
        string
    );
    assert_eq!(
        binary_result_type(BinaryOp::Less, string, string).unwrap(),
        integer
    );
    assert!(binary_result_type(BinaryOp::Minus, string, string).is_err());
    assert!(require_type(Some(integer), integer).is_ok());
    assert!(require_type(Some(string), integer).is_err());
    assert!(require_type(None, integer).is_err());
}

#[test]
fn a_width_is_an_integer() {
    let program = program();
    let literal = |kind: ExprKind| {
        Rc::new(Expr {
            kind,
            span: span(0, 1),
        })
    };
    for (width, accepted) in [
        (ExprKind::Integer(4), true),
        (ExprKind::String("4".to_string()), false),
    ] {
        let form = Rc::new(FormattedString {
            parts: vec![Rc::new(FormPart::Interpolation {
                string: false,
                expression: literal(ExprKind::Integer(1)),
                width: Some(literal(width)),
                alignment: Some(Alignment::Left),
            })],
            span: span(0, 8),
        });
        let mut analysis = TypeAnalysis::new(&program, ENTRY, false, 64, None);
        assert_eq!(analysis.form(&form, 0).is_ok(), accepted);
    }
}

#[test]
fn an_unknown_triple_symbol_is_quoted() {
    assert!(triple_variables('x').is_none());
    assert_eq!(
        unsupported_triple('\t').message,
        "STRFORM triple symbol '\\t' is unsupported"
    );
}

#[test]
fn a_graph_has_children_before_their_users() {
    let program = program();
    let text = Rc::new(Expr {
        kind: ExprKind::String("玄関".to_string()),
        span: span(8, 12),
    });
    let call = Rc::new(Expr {
        kind: ExprKind::Call {
            name: "strform".to_string(),
            args: Rc::new(vec![Some(text)]),
        },
        span: span(0, 13),
    });
    let types = vec![
        (span(8, 12), BytecodeType::String),
        (span(0, 13), BytecodeType::String),
    ];
    let mut builder = GraphBuilder::new(&program, ENTRY, &types);
    let graph = builder.build(&vec![Some(call), None]).unwrap();
    assert_eq!(graph.roots, [Some(1), None]);
    assert_eq!(graph.nodes.len(), 2);
    assert!(graph.validate_structure());
    let ReferenceTermKind::Call { target, arguments } = &graph.nodes[1].kind else {
        panic!("call")
    };
    assert_eq!(arguments[0].node, Some(0));
    let ReferenceTermCall::Intrinsic { name } = target else {
        panic!("intrinsic")
    };
    assert_eq!(name, "STRFORM");
}
