//! How an expression and a part of a formatted text are taken apart into steps.

use vstd::prelude::*;
use std::rc::Rc;
use crate::ast::{
    self, Expr, ExprKind, FormPart, PartTree, PostfixOp, Span, Tree, TreeKind, UnaryOp,
};
use crate::existvar::invalid;
use crate::fault::{Failure, ScriptFaultKind, StepError, VmFaultCode};
use crate::form_binding;
use crate::form_effects;
use crate::form_hosts;
use crate::form_methods;
use crate::form_queries;
use crate::form_resources;
use crate::form_staged;
use crate::form_support;
use crate::form_typing;
use crate::forms::{
    self, BoundCall, BoundService, Form, MatchSpecModel, RuntimeBoundCall, RuntimeCallSite,
    RuntimeFormContinuation, RuntimeFormTask, Task,
};
use crate::program::{BoundRuntimeNative, MatchCallSpec, ProgramGeneration};
use crate::state::{Fiber, FiberModel, Vm, VmModel};
use crate::text;
use crate::value::{self, Val, VmValue};

verus! {

/// A service call is scheduled; its operands are evaluated first.
pub open spec fn native_scheduled(
    vm: VmModel,
    form: Form,
    bound: BoundService,
    arguments: Seq<Option<Tree>>,
    site: RuntimeCallSite,
) -> (Form, Result<(), Failure>) {
    match vm.program(form.generation) {
        None => (
            form,
            Err(
                Failure::of(
                    VmFaultCode::MissingSymbol,
                    "runtime Native generation is missing"@,
                ),
            ),
        ),
        Some(program) => form_support::operands_pushed(
            form.with_task(Task::FinishNative(site, bound, arguments)),
            program,
            arguments,
            bound.import.parameters,
            form_support::paired(arguments.len(), bound.import.parameters.len()),
        ),
    }
}

/// A MATCH call whose array is to be captured.
pub struct MatchAsk {
    pub spec: Rc<MatchCallSpec>,
    pub site: RuntimeCallSite,
    pub arguments: Vec<Option<Rc<Expr>>>,
}

/// Mathematical content of a [`MatchAsk`].
#[verifier::ext_equal]
pub struct AskedMatch {
    pub spec: MatchSpecModel,
    pub site: RuntimeCallSite,
    pub arguments: Seq<Option<Tree>>,
}

impl View for MatchAsk {
    type V = AskedMatch;

    open spec fn view(&self) -> AskedMatch {
        AskedMatch {
            spec: self.spec@,
            site: self.site,
            arguments: ast::argument_trees(self.arguments@),
        }
    }
}

pub open spec fn nothing(r: Result<(), Failure>) -> Result<Option<AskedMatch>, Failure> {
    match r {
        Ok(_) => Ok(None),
        Err(e) => Err(e),
    }
}

/// A service call works on maps.
pub open spec fn is_map(vm: VmModel, form: Form, name: Seq<char>) -> bool {
    match vm.program(form.generation) {
        None => false,
        Some(program) => program.map_extensions && form_binding::map_kind(program, name) is Some,
    }
}

/// A call that the plan of its source has bound is scheduled.
pub open spec fn planned_scheduled(
    vm: VmModel,
    form: Form,
    span: Span,
    arguments: Seq<Option<Tree>>,
) -> (Form, Result<Option<AskedMatch>, Failure>) {
    match form.current_plan {
        None => (form, Err(Failure::invalid("runtime expression lacks its source plan"@))),
        Some(plan) => {
            let site = RuntimeCallSite { plan, span };
            match form.bound(site) {
                None => (
                    form,
                    Err(Failure::invalid("runtime call lost its analyzed binding"@)),
                ),
                Some(BoundCall::Native(bound)) => {
                    let (after, r) = if is_map(vm, form, bound.import.name) {
                        form_effects::map_scheduled(vm, form, bound, arguments, site)
                    } else {
                        native_scheduled(vm, form, bound, arguments, site)
                    };
                    (after, nothing(r))
                },
                Some(BoundCall::Host(bound)) => {
                    let (after, r) = form_hosts::host_scheduled(vm, form, bound, arguments, site);
                    (after, nothing(r))
                },
                Some(BoundCall::Bit(spec)) => {
                    let (after, r) = form_staged::bit_scheduled(vm, form, spec, site, arguments);
                    (after, nothing(r))
                },
                Some(BoundCall::Match(spec)) => (
                    form,
                    match form_staged::match_opened(vm, form, spec, site, arguments) {
                        Err(e) => Err(e),
                        Ok(_) => Ok(Some(AskedMatch { spec, site, arguments })),
                    },
                ),
            }
        },
    }
}

pub open spec fn match_result(r: Result<Option<MatchAsk>, StepError>) -> Result<
    Option<AskedMatch>,
    Failure,
> {
    match r {
        Ok(Some(m)) => Ok(Some(m@)),
        Ok(None) => Ok(None),
        Err(e) => Err(e@),
    }
}

/// A service call belongs to the call that its plan has bound.
pub open spec fn native_planned(
    form: Form,
    program: ProgramGeneration,
    site: RuntimeCallSite,
    bound: BoundService,
    source: Seq<Option<Tree>>,
) -> bool {
    form.bound(site) == Some(BoundCall::Native(bound)) && form.has_arguments(program, site, source)
}

fn whole(arguments: &Vec<Option<Rc<Expr>>>) -> (r: Vec<Option<Rc<Expr>>>)
    ensures
        ast::argument_trees(r@) == ast::argument_trees(arguments@),
{
    let copy = ast::copy_arguments(arguments, 0);
    assert(ast::argument_trees(arguments@).skip(0) =~= ast::argument_trees(arguments@));
    copy
}

impl RuntimeFormContinuation {
    /// Schedules a service call; its operands are evaluated first.
    pub fn schedule_native_arguments(
        &mut self,
        vm: &Vm,
        bound: &Rc<BoundRuntimeNative>,
        arguments: &Vec<Option<Rc<Expr>>>,
        site: RuntimeCallSite,
    ) -> (r: Result<(), StepError>)
        ensures
            (final(self)@, form_resources::unit_result(r)) == native_scheduled(
                vm@,
                old(self)@,
                bound@,
                ast::argument_trees(arguments@),
                site,
            ),
    {
        proof {
            ast::lemma_argument_trees(arguments@);
        }
        let program = match vm.program(self.generation) {
            None => {
                return Err(
                    StepError::new(
                        VmFaultCode::MissingSymbol,
                        "runtime Native generation is missing",
                    ),
                );
            },
            Some(p) => p,
        };
        let source = whole(arguments);
        self.push_task(RuntimeFormTask::FinishNative { site, bound: bound.clone(), source });
        let count: usize = if arguments.len() < bound.import.parameters.len() {
            arguments.len()
        } else {
            bound.import.parameters.len()
        };
        self.schedule_bound_source_arguments(
            &program,
            arguments,
            &bound.import.parameters,
            count,
        )
    }

    /// Schedules a call that the plan of its source has bound. Gives a MATCH call whose array is to
    /// be captured.
    pub fn schedule_planned_call(
        &mut self,
        vm: &Vm,
        span: Span,
        arguments: &Vec<Option<Rc<Expr>>>,
    ) -> (r: Result<Option<MatchAsk>, StepError>)
        ensures
            (final(self)@, match_result(r)) == planned_scheduled(
                vm@,
                old(self)@,
                span,
                ast::argument_trees(arguments@),
            ),
    {
        let site = match self.current_call_site(span) {
            Err(e) => {
                return Err(e);
            },
            Ok(s) => s,
        };
        let bound = match self.lookup_bound_call(site) {
            None => {
                return Err(invalid("runtime call lost its analyzed binding"));
            },
            Some(b) => b.clone(),
        };
        let scheduled = match bound {
            RuntimeBoundCall::Native(bound) => {
                let map = match vm.program(self.generation) {
                    None => false,
                    Some(p) => p.map_extensions && form_binding::find_map(
                        &p,
                        bound.import.name.as_str(),
                    ).is_some(),
                };
                if map {
                    self.schedule_map(vm, &bound, whole(arguments), site)
                } else {
                    self.schedule_native_arguments(vm, &bound, arguments, site)
                }
            },
            RuntimeBoundCall::Host(bound) => self.schedule_host_arguments(
                vm,
                &bound,
                arguments,
                site,
            ),
            RuntimeBoundCall::Bit(spec) => self.schedule_bit(vm, spec, whole(arguments), site),
            RuntimeBoundCall::Match(spec) => {
                return match self.schedule_match(vm, &spec, arguments, site) {
                    Err(e) => Err(e),
                    Ok(_) => Ok(Some(MatchAsk { spec, site, arguments: whole(arguments) })),
                };
            },
        };
        match scheduled {
            Err(e) => Err(e),
            Ok(_) => Ok(None),
        }
    }

    /// Tells whether a service call belongs to the call that its plan has bound.
    pub fn valid_native_task(
        &self,
        program: &ProgramGeneration,
        site: RuntimeCallSite,
        bound: &BoundRuntimeNative,
        source: &Vec<Option<Rc<Expr>>>,
    ) -> (r: bool)
        ensures
            r == native_planned(self@, *program, site, bound@, ast::argument_trees(source@)),
    {
        let same = match self.lookup_bound_call(site) {
            Some(RuntimeBoundCall::Native(b)) => forms::same_native(b, bound),
            _ => false,
        };
        same && self.validate_call_arguments(program, site, source)
    }
}

/// The number that a mutation before its operand goes by.
pub open spec fn prefix_mode(op: UnaryOp) -> Option<u8> {
    match op {
        UnaryOp::PreIncrement => Some(0),
        UnaryOp::PreDecrement => Some(1),
        _ => None,
    }
}

/// The number that a mutation behind its operand goes by.
pub open spec fn postfix_mode(op: PostfixOp) -> u8 {
    match op {
        PostfixOp::Increment => 2,
        PostfixOp::Decrement => 3,
    }
}

pub open spec fn is_user_function(vm: VmModel, form: Form, name: Seq<char>) -> bool {
    match vm.program(form.generation) {
        None => false,
        Some(program) => program.spec_function_by_name(name) is Some,
    }
}

/// EXISTMETH may be used.
pub open spec fn exists_allowed(vm: VmModel, form: Form, name: Seq<char>) -> Result<(), Failure> {
    if !text::same_ignoring_case(name, "EXISTMETH"@) {
        Ok(())
    } else {
        match vm.program(form.generation) {
            None => Err(Failure::of(VmFaultCode::MissingSymbol, "EXISTMETH generation missing"@)),
            Some(program) => match form_binding::authorized(program, name) {
                Err(e) => Err(e),
                Ok(_) => Ok(()),
            },
        }
    }
}

/// A call that is no user call is scheduled.
pub open spec fn service_scheduled(
    vm: VmModel,
    form: Form,
    name: Seq<char>,
    arguments: Seq<Option<Tree>>,
    span: Span,
) -> (Form, Result<Option<AskedMatch>, Failure>) {
    match form_methods::method_scheduled(form, name, arguments) {
        (after, Err(e)) => (after, Err(e)),
        (after, Ok(true)) => (after, Ok(None)),
        (after, Ok(false)) => if !text::same_ignoring_case(name, "STRFORM"@)
            && !text::same_ignoring_case(name, "STRFORMCHECK"@) {
            planned_scheduled(vm, after, span, arguments)
        } else {
            (
                form_support::with_tasks(
                    after.with_task(Task::FinishCall(name, arguments.len() as usize)),
                    form_support::argument_tasks(arguments),
                ),
                Ok(None),
            )
        },
    }
}

/// A call is scheduled.
pub open spec fn call_scheduled(
    vm: VmModel,
    form: Form,
    name: Seq<char>,
    arguments: Seq<Option<Tree>>,
    span: Span,
) -> (Form, Result<Option<AskedMatch>, Failure>) {
    if is_user_function(vm, form, name) {
        let (after, r) = form_methods::direct_scheduled(vm, form, name, arguments);
        (after, nothing(r))
    } else {
        match form_queries::input_scheduled(vm, form, name, arguments) {
            (after, Err(e)) => (after, Err(e)),
            (after, Ok(true)) => (after, Ok(None)),
            (after, Ok(false)) => if text::same_ignoring_case(name, "EXISTVAR"@) {
                let (last, r) = form_queries::existvar_scheduled(after, arguments);
                (last, nothing(r))
            } else {
                match exists_allowed(vm, after, name) {
                    Err(e) => (after, Err(e)),
                    Ok(_) => service_scheduled(vm, after, name, arguments, span),
                }
            },
        }
    }
}

/// An expression is taken apart into steps.
pub open spec fn expression_scheduled(vm: VmModel, form: Form, t: Tree) -> (
    Form,
    Result<Option<AskedMatch>, Failure>,
) {
    match t.kind {
        TreeKind::Integer(n) => (form.with_value(Val::Integer(n)), Ok(None)),
        TreeKind::Text(s) => (form.with_value(Val::Text(s)), Ok(None)),
        TreeKind::Identifier(name) => (form.with_task(Task::ReadVariable(name, 0)), Ok(None)),
        TreeKind::Variable(name, indices) => (
            form_support::with_tasks(
                form.with_task(Task::ReadVariable(name, indices.len() as usize)),
                form_support::index_tasks(indices),
            ),
            Ok(None),
        ),
        TreeKind::Group(inner) => (form.with_task(Task::Evaluate(*inner)), Ok(None)),
        TreeKind::Unary(op, operand) => match prefix_mode(op) {
            Some(mode) => {
                let (after, r) = form_queries::mutation_scheduled(vm, form, *operand, mode);
                (after, nothing(r))
            },
            None => (
                form.with_task(Task::ApplyUnary(op)).with_task(Task::Evaluate(*operand)),
                Ok(None),
            ),
        },
        TreeKind::Postfix(op, operand) => {
            let (after, r) = form_queries::mutation_scheduled(
                vm,
                form,
                *operand,
                postfix_mode(op),
            );
            (after, nothing(r))
        },
        TreeKind::Binary(op, left, right) => (
            form.with_task(Task::EvaluateBinaryRight(op, *right)).with_task(
                Task::Evaluate(*left),
            ),
            Ok(None),
        ),
        TreeKind::Ternary(c, a, b) => (
            form.with_task(Task::ChooseTernary(*a, *b)).with_task(Task::Evaluate(*c)),
            Ok(None),
        ),
        TreeKind::Call(name, arguments) => call_scheduled(vm, form, name, arguments, t.span),
        TreeKind::Formatted(f) => (form.with_task(Task::StartForm(f)), Ok(None)),
        TreeKind::Error => (
            form,
            Err(
                form_binding::unsupported_failure("STRFORM contains an invalid expression"@),
            ),
        ),
    }
}

/// The text that a triple symbol stands for.
pub open spec fn triple_text(vm: VmModel, fiber: FiberModel, form: Form, symbol: char) -> Result<
    Seq<char>,
    Failure,
> {
    match form_typing::triple_names(symbol) {
        None => Err(
            Failure::of(
                VmFaultCode::Native,
                "STRFORM triple symbol "@ + text::quoted(symbol) + " is unsupported"@,
            ),
        ),
        Some((value, index)) => match form_support::variable_read(
            vm,
            fiber,
            form,
            index,
            Seq::empty(),
        ) {
            Err(e) => Err(e),
            Ok(Val::Integer(n)) => if n < 0 {
                Err(
                    Failure::script(
                        ScriptFaultKind::Bounds,
                        VmFaultCode::Bounds,
                        "STRFORM triple index is negative"@,
                    ),
                )
            } else {
                match form_support::variable_read(vm, fiber, form, value, seq![n as u64]) {
                    Err(e) => Err(e),
                    Ok(Val::Text(s)) => Ok(s),
                    Ok(_) => Err(
                        Failure::of(
                            VmFaultCode::TypeMismatch,
                            "STRFORM triple value is not a string"@,
                        ),
                    ),
                }
            },
            Ok(_) => Err(
                Failure::of(
                    VmFaultCode::TypeMismatch,
                    "STRFORM triple index is not an integer"@,
                ),
            ),
        },
    }
}

/// A part of a formatted text is appended, or taken apart into steps.
pub open spec fn part_rendered(vm: VmModel, fiber: FiberModel, form: Form, p: PartTree) -> (
    Form,
    Result<(), Failure>,
) {
    match p {
        PartTree::Text(s) => form_resources::appended(form, s),
        PartTree::Interpolation(string, e, width, alignment) => {
            let last = form.with_task(
                Task::FinishInterpolation(string, width is Some, alignment),
            );
            let sized = match width {
                Some(w) => last.with_task(Task::Evaluate(*w)),
                None => last,
            };
            (sized.with_task(Task::Evaluate(*e)), Ok(()))
        },
        PartTree::Conditional(c, a, b) => (
            form.with_task(Task::ChooseConditional(a, b)).with_task(Task::Evaluate(*c)),
            Ok(()),
        ),
        PartTree::Triple(symbol) => match triple_text(vm, fiber, form, symbol) {
            Err(e) => (form, Err(e)),
            Ok(s) => form_resources::appended(form, s),
        },
    }
}

fn quiet(r: Result<(), StepError>) -> (q: Result<Option<MatchAsk>, StepError>)
    ensures
        match_result(q) == nothing(form_resources::unit_result(r)),
{
    match r {
        Ok(_) => Ok(None),
        Err(e) => Err(e),
    }
}

impl RuntimeFormContinuation {
    fn check_exists(&self, vm: &Vm, name: &str) -> (r: Result<(), StepError>)
        ensures
            form_resources::unit_result(r) == exists_allowed(vm@, self@, name@),
    {
        if !text::eq_ignore_ascii_case(name, "EXISTMETH") {
            return Ok(());
        }
        let program = match vm.program(self.generation) {
            None => {
                return Err(
                    StepError::new(VmFaultCode::MissingSymbol, "EXISTMETH generation missing"),
                );
            },
            Some(p) => p,
        };
        let r = match form_binding::authorization(&program, name) {
            Err(e) => Err(e),
            Ok(_) => Ok(()),
        };
        r
    }

    fn schedule_service(
        &mut self,
        vm: &Vm,
        name: &String,
        arguments: &Vec<Option<Rc<Expr>>>,
        span: Span,
    ) -> (r: Result<Option<MatchAsk>, StepError>)
        ensures
            (final(self)@, match_result(r)) == service_scheduled(
                vm@,
                old(self)@,
                name@,
                ast::argument_trees(arguments@),
                span,
            ),
    {
        match self.schedule_method(name.as_str(), arguments) {
            Err(e) => {
                return Err(e);
            },
            Ok(true) => {
                return Ok(None);
            },
            Ok(false) => {},
        }
        if !text::eq_ignore_ascii_case(name.as_str(), "STRFORM") && !text::eq_ignore_ascii_case(
            name.as_str(),
            "STRFORMCHECK",
        ) {
            return self.schedule_planned_call(vm, span, arguments);
        }
        proof {
            ast::lemma_argument_trees(arguments@);
        }
        self.push_task(
            RuntimeFormTask::FinishCall { name: name.clone(), arguments: arguments.len() },
        );
        self.push_arguments(arguments);
        Ok(None)
    }

    fn schedule_call(
        &mut self,
        vm: &Vm,
        name: &String,
        arguments: &Vec<Option<Rc<Expr>>>,
        span: Span,
    ) -> (r: Result<Option<MatchAsk>, StepError>)
        ensures
            (final(self)@, match_result(r)) == call_scheduled(
                vm@,
                old(self)@,
                name@,
                ast::argument_trees(arguments@),
                span,
            ),
    {
        let user_defined = match vm.program(self.generation) {
            None => false,
            Some(p) => p.function_by_name(name.as_str()).is_some(),
        };
        if user_defined {
            return quiet(self.schedule_direct_user_call(vm, name.as_str(), arguments));
        }
        match self.schedule_input_host(vm, name.as_str(), arguments) {
            Err(e) => {
                return Err(e);
            },
            Ok(true) => {
                return Ok(None);
            },
            Ok(false) => {},
        }
        if text::eq_ignore_ascii_case(name.as_str(), "EXISTVAR") {
            return quiet(self.schedule_existvar(arguments));
        }
        match self.check_exists(vm, name.as_str()) {
            Err(e) => {
                return Err(e);
            },
            Ok(_) => {},
        }
        self.schedule_service(vm, name, arguments, span)
    }

    /// Takes an expression apart into steps. Gives a MATCH call whose array is to be captured.
    pub fn evaluate_expression(&mut self, vm: &Vm, expression: &Rc<Expr>) -> (r: Result<
        Option<MatchAsk>,
        StepError,
    >)
        ensures
            (final(self)@, match_result(r)) == expression_scheduled(
                vm@,
                old(self)@,
                expression@,
            ),
    {
        match &expression.kind {
            ExprKind::Integer(n) => {
                self.push_value(VmValue::Integer(*n));
            },
            ExprKind::String(s) => {
                self.push_value(VmValue::text(s.as_str()));
            },
            ExprKind::Identifier(name) => {
                self.push_task(RuntimeFormTask::ReadVariable { name: name.clone(), indices: 0 });
            },
            ExprKind::Variable { name, indices } => {
                proof {
                    ast::lemma_trees(indices@);
                }
                self.push_task(
                    RuntimeFormTask::ReadVariable { name: name.clone(), indices: indices.len() },
                );
                self.push_indices(indices);
            },
            ExprKind::Group(inner) => {
                self.push_task(RuntimeFormTask::Evaluate(inner.clone()));
            },
            ExprKind::Unary { op, operand } => {
                match op {
                    UnaryOp::PreIncrement => {
                        return quiet(self.schedule_integer_mutation(vm, operand, 0));
                    },
                    UnaryOp::PreDecrement => {
                        return quiet(self.schedule_integer_mutation(vm, operand, 1));
                    },
                    _ => {
                        self.push_task(RuntimeFormTask::ApplyUnary(*op));
                        self.push_task(RuntimeFormTask::Evaluate(operand.clone()));
                    },
                }
            },
            ExprKind::Postfix { op, operand } => {
                let mode: u8 = match op {
                    PostfixOp::Increment => 2,
                    PostfixOp::Decrement => 3,
                };
                return quiet(self.schedule_integer_mutation(vm, operand, mode));
            },
            ExprKind::Binary { op, left, right } => {
                self.push_task(
                    RuntimeFormTask::EvaluateBinaryRight { op: *op, right: right.clone() },
                );
                self.push_task(RuntimeFormTask::Evaluate(left.clone()));
            },
            ExprKind::Ternary { condition, then_expr, else_expr } => {
                self.push_task(
                    RuntimeFormTask::ChooseTernary {
                        then_expr: then_expr.clone(),
                        else_expr: else_expr.clone(),
                    },
                );
                self.push_task(RuntimeFormTask::Evaluate(condition.clone()));
            },
            ExprKind::Call { name, args } => {
                return self.schedule_call(vm, name, args, expression.span);
            },
            ExprKind::Formatted(f) => {
                self.push_task(RuntimeFormTask::StartForm(f.clone()));
            },
            ExprKind::Error => {
                return Err(form_binding::unsupported("STRFORM contains an invalid expression"));
            },
        }
        Ok(None)
    }

    fn read_triple(&self, vm: &Vm, fiber: &Fiber, symbol: char) -> (r: Result<String, StepError>)
        ensures
            crate::fault::outcome(r) == triple_text(vm@, fiber@, self@, symbol),
    {
        let (value, index) = match form_typing::triple_variables(symbol) {
            None => {
                let quoted = text::quote_char(symbol);
                let message = text::join3(
                    "STRFORM triple symbol ",
                    quoted.as_str(),
                    " is unsupported",
                );
                return Err(StepError::new(VmFaultCode::Native, message.as_str()));
            },
            Some(p) => p,
        };
        let none: Vec<u64> = Vec::new();
        assert(none@ =~= Seq::<u64>::empty());
        let at: u64 = match self.read_variable(vm, fiber, index, none) {
            Err(e) => {
                return Err(e);
            },
            Ok(VmValue::Integer(n)) => {
                if n < 0 {
                    return Err(
                        StepError::script(
                            ScriptFaultKind::Bounds,
                            VmFaultCode::Bounds,
                            "STRFORM triple index is negative",
                        ),
                    );
                }
                n as u64
            },
            Ok(_) => {
                return Err(
                    StepError::new(
                        VmFaultCode::TypeMismatch,
                        "STRFORM triple index is not an integer",
                    ),
                );
            },
        };
        let mut one: Vec<u64> = Vec::new();
        one.push(at);
        assert(one@ =~= seq![at]);
        match self.read_variable(vm, fiber, value, one) {
            Err(e) => Err(e),
            Ok(VmValue::String(s)) => Ok(s),
            Ok(_) => Err(
                StepError::new(VmFaultCode::TypeMismatch, "STRFORM triple value is not a string"),
            ),
        }
    }

    /// Appends a part of a formatted text, or takes it apart into steps.
    pub fn render_part(&mut self, vm: &Vm, fiber: &Fiber, part: &Rc<FormPart>) -> (r: Result<
        (),
        StepError,
    >)
        ensures
            (final(self)@, form_resources::unit_result(r)) == part_rendered(
                vm@,
                fiber@,
                old(self)@,
                part@,
            ),
    {
        match &**part {
            FormPart::Text(s) => {
                return self.append_output(s.as_str());
            },
            FormPart::Interpolation { string, expression, width, alignment } => {
                self.push_task(
                    RuntimeFormTask::FinishInterpolation {
                        string: *string,
                        width: width.is_some(),
                        alignment: *alignment,
                    },
                );
                match width {
                    Some(w) => {
                        self.push_task(RuntimeFormTask::Evaluate(w.clone()));
                    },
                    None => {},
                }
                self.push_task(RuntimeFormTask::Evaluate(expression.clone()));
            },
            FormPart::Conditional { condition, then_value, else_value } => {
                let other = match else_value {
                    Some(f) => Some(f.clone()),
                    None => None,
                };
                self.push_task(
                    RuntimeFormTask::ChooseConditional {
                        then_value: then_value.clone(),
                        else_value: other,
                    },
                );
                self.push_task(RuntimeFormTask::Evaluate(condition.clone()));
            },
            FormPart::Triple(symbol) => {
                return match self.read_triple(vm, fiber, *symbol) {
                    Err(e) => Err(e),
                    Ok(s) => self.append_output(s.as_str()),
                };
            },
        }
        Ok(())
    }
}

} // verus!
