//! Nested formatted texts, service calls and interpolations of an evaluation.

use vstd::prelude::*;
use crate::ast::Alignment;
use crate::bit_calls;
use crate::existvar::invalid;
use crate::fault::{self, Failure, ScriptFaultKind, StepError, VmFaultCode};
use crate::form_binding::{self, NativeProviders};
use crate::form_call_text;
use crate::form_checkpoints;
use crate::form_effects;
use crate::form_frontend::{self, Parsed, ParsedForm};
use crate::form_hosts;
use crate::form_methods;
use crate::form_plans;
use crate::form_resources;
use crate::form_support;
use crate::form_typing;
use crate::forms::{
    BoundService, Form, FormatCheckpointKind, RuntimeFormContinuation, RuntimeFormTask,
    RuntimeUserCall, Task, UserCall, MAX_RUNTIME_FORM_NESTING,
};
use crate::extended_ops;
use crate::program::{BoundRuntimeNative, UserArgumentSpec};
use crate::services::{self, NativeReady};
use crate::state::{self, Fiber, FiberModel, UserArgumentBinding, Vm, VmModel};
use crate::text;
use crate::value::{self, BytecodeType, FiberId, Place, SymbolKey, Val, VmValue};

verus! {

/// A source of a nested formatted text is taken; it is parsed next.
pub open spec fn source_begun(form: Form, source: Seq<char>) -> (Form, Result<(), Failure>) {
    if form_resources::size(source) > form.remaining_bytes {
        (
            form,
            Err(
                form_resources::resource_failure("nested form sources exceed the parser limit"@),
            ),
        )
    } else {
        (
            Form {
                remaining_bytes: (form.remaining_bytes - form_resources::size(source)) as usize,
                ..form
            },
            form_frontend::source_checked(source),
        )
    }
}

/// A nested formatted text that was parsed is scheduled; the plan of the text around it comes back
/// afterwards.
pub open spec fn source_ended(
    vm: VmModel,
    providers: NativeProviders,
    form: Form,
    parsed: Parsed,
) -> (Form, Result<(), Failure>) {
    match form_frontend::form_accepted(
        vm,
        providers,
        form.generation,
        form.function,
        parsed,
        form.remaining_nodes,
    ) {
        Err(e) => (form, Err(e)),
        Ok((f, plan)) => {
            let paid = Form {
                remaining_nodes: form_call_text::lowered(form.remaining_nodes, plan.nodes),
                ..form
            };
            match form_plans::installed(paid, plan) {
                (after, Err(e)) => (after, Err(e)),
                (after, Ok(_)) => (
                    Form {
                        reference_bindings: false,
                        ..after.with_task(Task::RestoreCallPlan(form.current_plan)).with_task(
                            Task::RestoreReferenceBindings(form.reference_bindings),
                        )
                    }.with_task(Task::StartForm(f)),
                    Ok(()),
                ),
            }
        },
    }
}

/// A checked formatted text begins: a boundary is opened, and the source is parsed inside it.
pub open spec fn check_begun(vm: VmModel, fiber: FiberModel, form: Form, source: Seq<char>) -> (
    Form,
    Result<(), Failure>,
) {
    match vm.program(form.generation) {
        None => (form, Err(Failure::invalid("STRFORMCHECK generation is missing"@))),
        Some(program) => if !program.checked_runtime_forms {
            (
                form,
                Err(
                    bit_calls::forbidden(
                        "STRFORMCHECK is unavailable in this compatibility identity"@,
                    ),
                ),
            )
        } else if form.checkpoints.len() >= MAX_RUNTIME_FORM_NESTING {
            (
                form,
                Err(form_resources::resource_failure("STRFORMCHECK checkpoint nesting limit"@)),
            )
        } else if form.awaiting is Some {
            (
                form,
                Err(
                    Failure::invalid(
                        "STRFORMCHECK cannot begin during a suspended user call"@,
                    ),
                ),
            )
        } else {
            match form_checkpoints::opened(
                form,
                fiber,
                FormatCheckpointKind::CheckedForm,
                "STRFORMCHECK checkpoint identity exhausted"@,
            ) {
                (open, Err(e)) => (open, Err(e)),
                (open, Ok(_)) => source_begun(open, source),
            }
        },
    }
}

pub open spec fn is_form_call(name: Seq<char>) -> bool {
    text::same_ignoring_case(name, "STRFORM"@) || text::same_ignoring_case(name, "STRFORMCHECK"@)
}

/// A call of STRFORM or STRFORMCHECK has its argument; the source is parsed next.
pub open spec fn form_called(
    vm: VmModel,
    fiber: FiberModel,
    providers: NativeProviders,
    form: Form,
    name: Seq<char>,
    arguments: Seq<Val>,
) -> (Form, Result<Seq<char>, Failure>) {
    match vm.program(form.generation) {
        None => (form, Err(form_frontend::generation_missing())),
        Some(program) => if program.spec_function_by_name(name) is Some {
            (
                form,
                Err(Failure::invalid("user call bypassed lazy runtime-form resolver"@)),
            )
        } else if !is_form_call(name) {
            (
                form,
                Err(Failure::invalid("Native call bypassed source authorization binding"@)),
            )
        } else {
            match form_binding::authorized(program, name) {
                Err(e) => (form, Err(e)),
                Ok(family) => match form_binding::provider_checked(providers, family) {
                    Err(e) => (form, Err(e)),
                    Ok(_) => if arguments.len() != 1 || !(arguments[0] is Text) {
                        (
                            form,
                            Err(
                                Failure::of(
                                    VmFaultCode::TypeMismatch,
                                    "formatted-string function expects one string argument"@,
                                ),
                            ),
                        )
                    } else {
                        let source = arguments[0]->Text_0;
                        let (after, r) = if text::same_ignoring_case(name, "STRFORMCHECK"@) {
                            check_begun(vm, fiber, form, source)
                        } else {
                            source_begun(form, source)
                        };
                        (
                            after,
                            match r {
                                Err(e) => Err(e),
                                Ok(_) => Ok(source),
                            },
                        )
                    },
                },
            }
        },
    }
}

impl RuntimeFormContinuation {
    /// Takes the source of a nested formatted text; it is parsed next.
    pub fn schedule_form_source(&mut self, source: &str) -> (r: Result<(), StepError>)
        ensures
            (final(self)@, form_resources::unit_result(r)) == source_begun(old(self)@, source@),
    {
        let bytes: usize = form_resources::byte_count(source);
        if bytes > self.remaining_source_bytes {
            return Err(
                form_resources::resource_limit("nested form sources exceed the parser limit"),
            );
        }
        self.remaining_source_bytes = self.remaining_source_bytes - bytes;
        form_frontend::preflight_source(source)
    }

    /// Schedules a nested formatted text that was parsed.
    pub fn finish_form_source(&mut self, vm: &Vm, natives: &NativeProviders, parsed: ParsedForm) -> (r:
        Result<(), StepError>)
        requires
            vm@.program(old(self)@.generation) matches Some(p) ==> form_typing::results_scalar(p),
        ensures
            (final(self)@, form_resources::unit_result(r)) == source_ended(
                vm@,
                *natives,
                old(self)@,
                parsed@,
            ),
    {
        let (formatted, plan) = match form_frontend::parse_runtime_form(
            vm,
            natives,
            self.generation,
            self.function,
            parsed,
            self.remaining_nodes,
        ) {
            Err(e) => {
                return Err(e);
            },
            Ok(p) => p,
        };
        let nodes: usize = plan.nodes;
        self.remaining_nodes = if self.remaining_nodes >= nodes {
            self.remaining_nodes - nodes
        } else {
            0
        };
        let previous = self.current_call_plan;
        match self.install_call_plan(plan) {
            Err(e) => {
                return Err(e);
            },
            Ok(_) => {},
        }
        let bindings = self.reference_bindings;
        self.push_task(RuntimeFormTask::RestoreCallPlan(previous));
        self.push_task(RuntimeFormTask::RestoreReferenceBindings(bindings));
        self.reference_bindings = false;
        self.push_task(RuntimeFormTask::StartForm(formatted));
        Ok(())
    }

    /// Begins a checked formatted text; its source is parsed next.
    pub fn begin_checked_form(&mut self, vm: &Vm, fiber: &Fiber, source: &str) -> (r: Result<
        (),
        StepError,
    >)
        ensures
            (final(self)@, form_resources::unit_result(r)) == check_begun(
                vm@,
                fiber@,
                old(self)@,
                source@,
            ),
    {
        let allowed = match vm.program(self.generation) {
            None => {
                return Err(invalid("STRFORMCHECK generation is missing"));
            },
            Some(p) => p.checked_runtime_forms,
        };
        if !allowed {
            return Err(
                form_binding::permission_denied(
                    "STRFORMCHECK is unavailable in this compatibility identity",
                ),
            );
        }
        if self.checkpoints.len() >= MAX_RUNTIME_FORM_NESTING {
            return Err(form_resources::resource_limit("STRFORMCHECK checkpoint nesting limit"));
        }
        if self.awaiting_user_call.is_some() {
            return Err(invalid("STRFORMCHECK cannot begin during a suspended user call"));
        }
        match self.open_checkpoint(
            fiber,
            FormatCheckpointKind::CheckedForm,
            "STRFORMCHECK checkpoint identity exhausted",
        ) {
            Err(e) => Err(e),
            Ok(_) => self.schedule_form_source(source),
        }
    }

    /// Takes the argument of STRFORM or STRFORMCHECK; the source is parsed next.
    pub fn finish_call(
        &mut self,
        vm: &Vm,
        fiber: &Fiber,
        natives: &NativeProviders,
        name: &str,
        arguments: Vec<VmValue>,
    ) -> (r: Result<String, StepError>)
        ensures
            (final(self)@, fault::outcome(r)) == form_called(
                vm@,
                fiber@,
                *natives,
                old(self)@,
                name@,
                value::vals(arguments@),
            ),
    {
        let program = match vm.program(self.generation) {
            None => {
                return Err(
                    StepError::new(VmFaultCode::MissingSymbol, "STRFORM generation is missing"),
                );
            },
            Some(p) => p,
        };
        if program.function_by_name(name).is_some() {
            return Err(invalid("user call bypassed lazy runtime-form resolver"));
        }
        let check = text::eq_ignore_ascii_case(name, "STRFORMCHECK");
        if !check && !text::eq_ignore_ascii_case(name, "STRFORM") {
            return Err(invalid("Native call bypassed source authorization binding"));
        }
        let family = match form_binding::authorization(&program, name) {
            Err(e) => {
                return Err(e);
            },
            Ok(f) => f,
        };
        match form_binding::require_provider(natives, family) {
            Err(e) => {
                return Err(e);
            },
            Ok(_) => {},
        }
        let wrong = "formatted-string function expects one string argument";
        if arguments.len() != 1 {
            return Err(StepError::new(VmFaultCode::TypeMismatch, wrong));
        }
        assert(value::vals(arguments@)[0] == arguments@[0]@);
        let source = match &arguments[0] {
            VmValue::String(s) => s.clone(),
            _ => {
                return Err(StepError::new(VmFaultCode::TypeMismatch, wrong));
            },
        };
        let begun = if check {
            self.begin_checked_form(vm, fiber, source.as_str())
        } else {
            self.schedule_form_source(source.as_str())
        };
        match begun {
            Err(e) => Err(e),
            Ok(_) => Ok(source),
        }
    }
}

/// A service call has its operands: the depth of the owner's stack before the service answers.
pub open spec fn native_begun(
    vm: VmModel,
    fiber: FiberModel,
    providers: NativeProviders,
    form: Form,
    bound: BoundService,
    arguments: Seq<Val>,
) -> Result<nat, Failure> {
    match vm.program(form.generation) {
        None => Err(Failure::of(VmFaultCode::MissingSymbol, "Native generation missing"@)),
        Some(program) => match form_binding::authorized(program, bound.import.name) {
            Err(e) => Err(e),
            Ok(family) => if !form_binding::makes(family, bound) || !form_hosts::typed_as(
                arguments,
                bound.import.parameters,
            ) {
                Err(Failure::invalid("Native operands differ from bound source signature"@))
            } else {
                match form_binding::provider_checked(providers, family) {
                    Err(e) => Err(e),
                    Ok(_) => if bound.import.name == "replace"@ && bound.omitted.contains(3) {
                        Err(
                            Failure::script(
                                ScriptFaultKind::Operation,
                                VmFaultCode::Native,
                                "REPLACE omitted mode is read by the reference method"@,
                            ),
                        )
                    } else {
                        match form_support::owner_at(fiber, form.frame) {
                            Err(e) => Err(e),
                            Ok(i) => Ok(fiber.frames[i].stack.len()),
                        }
                    },
                }
            },
        },
    }
}

/// What taking the reply of a service came to.
pub enum NativeFinish {
    Done,
    /// The reply was refused; the state of the service is to be put back.
    Undo(StepError),
}

pub open spec fn finish_result(r: Result<NativeFinish, StepError>) -> Result<
    Option<Failure>,
    Failure,
> {
    match r {
        Ok(NativeFinish::Done) => Ok(None),
        Ok(NativeFinish::Undo(e)) => Ok(Some(e@)),
        Err(e) => Err(e@),
    }
}

/// The reply of a service is taken: its writes are made, and its value is put on the value stack.
pub open spec fn native_ended(
    vm: VmModel,
    fiber: FiberModel,
    form: Form,
    expected: Option<BytecodeType>,
    depth: nat,
    value: Option<Val>,
    writes: Seq<(Place, Val)>,
) -> (VmModel, FiberModel, Form, Result<Option<Failure>, Failure>) {
    let step = services::taken(vm, fiber, expected, value, writes, VmFaultCode::Native);
    match step.2 {
        Err(e) => (step.0, step.1, form, Ok(Some(e))),
        Ok(_) => {
            let (last, after, r) = form_effects::owner_result(
                step.1,
                form,
                depth,
                "STRFORM native did not return exactly one value"@,
            );
            (
                step.0,
                last,
                after,
                match r {
                    Err(e) => Err(e),
                    Ok(_) => Ok(None),
                },
            )
        },
    }
}

/// The failure after a refused reply, once the state of the service was put back, or was not.
pub open spec fn native_undone(failure: Failure, rollback: Result<(), Seq<char>>) -> Failure {
    match rollback {
        Ok(_) => failure,
        Err(m) => Failure {
            category: fault::FaultCategory::HostContract,
            code: VmFaultCode::Native,
            message: "runtime-form Native rollback failed: "@ + m,
        },
    }
}

/// The failure after a refused reply, once the state of the service was put back, or was not.
pub fn undo_native(error: StepError, rollback: Result<(), String>) -> (r: StepError)
    ensures
        r@ == native_undone(error@, services::text_result(rollback)),
{
    match rollback {
        Ok(_) => error,
        Err(m) => {
            let message = text::join2("runtime-form Native rollback failed: ", m.as_str());
            StepError::classified(
                fault::FaultCategory::HostContract,
                VmFaultCode::Native,
                message.as_str(),
            )
        },
    }
}

fn omits(omitted: &Vec<u16>, slot: u16) -> (r: bool)
    ensures
        r == omitted@.contains(slot),
{
    let mut i: usize = 0;
    while i < omitted.len()
        invariant
            i <= omitted.len(),
            forall|j: int| 0 <= j < i ==> omitted@[j] != slot,
        decreases omitted.len() - i,
    {
        if omitted[i] == slot {
            assert(omitted@[i as int] == slot);
            return true;
        }
        i = i + 1;
    }
    false
}

pub open spec fn depth_result(r: Result<usize, StepError>) -> Result<nat, Failure> {
    match r {
        Ok(n) => Ok(n as nat),
        Err(e) => Err(e@),
    }
}

impl RuntimeFormContinuation {
    /// Checks the operands of a service call; the service is called next.
    pub fn begin_native(
        &self,
        vm: &Vm,
        fiber: &Fiber,
        natives: &NativeProviders,
        bound: &BoundRuntimeNative,
        arguments: &Vec<VmValue>,
    ) -> (r: Result<usize, StepError>)
        ensures
            depth_result(r) == native_begun(
                vm@,
                fiber@,
                *natives,
                self@,
                bound@,
                value::vals(arguments@),
            ),
    {
        let program = match vm.program(self.generation) {
            None => {
                return Err(
                    StepError::new(VmFaultCode::MissingSymbol, "Native generation missing"),
                );
            },
            Some(p) => p,
        };
        let family = match form_binding::authorization(&program, bound.import.name.as_str()) {
            Err(e) => {
                return Err(e);
            },
            Ok(f) => f,
        };
        if !form_binding::family_makes(family, bound) || !form_hosts::has_types(
            arguments,
            &bound.import.parameters,
        ) {
            return Err(invalid("Native operands differ from bound source signature"));
        }
        match form_binding::require_provider(natives, family) {
            Err(e) => {
                return Err(e);
            },
            Ok(_) => {},
        }
        if text::same_text(bound.import.name.as_str(), "replace") && omits(
            &bound.omitted_arguments,
            3,
        ) {
            return Err(
                StepError::script(
                    ScriptFaultKind::Operation,
                    VmFaultCode::Native,
                    "REPLACE omitted mode is read by the reference method",
                ),
            );
        }
        match form_support::owner_frame(fiber, self.frame) {
            Err(e) => Err(e),
            Ok(owner) => {
                assert(owner@.stack.len() == owner.stack@.len());
                Ok(owner.stack.len())
            },
        }
    }

    /// Takes the reply of a service.
    pub fn finish_native(
        &mut self,
        vm: &mut Vm,
        fiber: &mut Fiber,
        expected: Option<BytecodeType>,
        depth: usize,
        ready: NativeReady,
    ) -> (r: Result<NativeFinish, StepError>)
        requires
            old(fiber)@.frames.len() > 0,
        ensures
            (final(vm)@, final(fiber)@, final(self)@, finish_result(r)) == native_ended(
                old(vm)@,
                old(fiber)@,
                old(self)@,
                expected,
                depth as nat,
                state::optional_val(ready.value),
                extended_ops::writes_of(ready.writes@),
            ),
    {
        match vm.take_reply(fiber, expected, ready, VmFaultCode::Native) {
            Err(e) => {
                return Ok(NativeFinish::Undo(e));
            },
            Ok(_) => {},
        }
        match self.take_owner_result(
            fiber,
            depth,
            "STRFORM native did not return exactly one value",
        ) {
            Err(e) => Err(e),
            Ok(_) => Ok(NativeFinish::Done),
        }
    }
}

/// A text that is to be brought to a width.
pub struct PadAsk {
    pub text: String,
    pub width: i64,
    pub left: bool,
}

/// Mathematical content of a [`PadAsk`].
pub struct AskedPad {
    pub text: Seq<char>,
    pub width: i64,
    pub left: bool,
}

impl View for PadAsk {
    type V = AskedPad;

    open spec fn view(&self) -> AskedPad {
        AskedPad { text: self.text@, width: self.width, left: self.left }
    }
}

pub open spec fn pad_result(r: Result<Option<PadAsk>, StepError>) -> Result<
    Option<AskedPad>,
    Failure,
> {
    match r {
        Ok(Some(p)) => Ok(Some(p@)),
        Ok(None) => Ok(None),
        Err(e) => Err(e@),
    }
}

/// The text of an interpolated value.
pub open spec fn value_text(string: bool, v: Val) -> Result<Seq<char>, Failure> {
    match v {
        Val::Text(s) if string => Ok(s),
        Val::Integer(n) if !string => Ok(text::decimal(n as int)),
        _ => if string {
            Err(
                form_binding::argument_failure("STRFORM string interpolation expects a string"@),
            )
        } else {
            Err(
                form_binding::argument_failure(
                    "STRFORM integer interpolation expects an integer"@,
                ),
            )
        },
    }
}

/// An interpolated value is appended, or is to be brought to a width first.
pub open spec fn interpolated(form: Form, string: bool, width: bool, alignment: Option<Alignment>) -> (
    Form,
    Result<Option<AskedPad>, Failure>,
) {
    let (sized, w) = if width {
        match form_support::popped_integer(form, "STRFORM width expects an integer"@) {
            (after, Ok(n)) => (after, Ok(Some(n))),
            (after, Err(e)) => (after, Err(e)),
        }
    } else {
        (form, Ok(None))
    };
    match w {
        Err(e) => (sized, Err(e)),
        Ok(w) => match form_support::popped(sized, "STRFORM interpolation value is missing"@) {
            (after, Err(e)) => (after, Err(e)),
            (after, Ok(v)) => match value_text(string, v) {
                Err(e) => (after, Err(e)),
                Ok(s) => match w {
                    Some(n) => (
                        after,
                        Ok(
                            Some(
                                AskedPad {
                                    text: s,
                                    width: n,
                                    left: alignment == Some(Alignment::Left),
                                },
                            ),
                        ),
                    ),
                    None => {
                        let (last, r) = form_resources::appended(after, s);
                        (
                            last,
                            match r {
                                Err(e) => Err(e),
                                Ok(_) => Ok(None),
                            },
                        )
                    },
                },
            },
        },
    }
}

/// The name of EXISTMETH is taken; whether there is such a method is asked next.
pub open spec fn exists_begun(vm: VmModel, form: Form) -> (Form, Result<Seq<char>, Failure>) {
    match form_support::popped(form, "EXISTMETH name is missing"@) {
        (after, Err(e)) => (after, Err(e)),
        (after, Ok(Val::Text(name))) => match vm.program(form.generation) {
            None => (after, Err(form_frontend::generation_missing())),
            Some(_) => (after, Ok(name)),
        },
        (after, Ok(_)) => (
            after,
            Err(Failure::of(VmFaultCode::TypeMismatch, "EXISTMETH expects a string"@)),
        ),
    }
}

/// What is to be captured for an argument of a user call.
pub enum ArgumentAsk {
    Value(VmValue),
    /// The array of a variable of a character.
    Selected { variable: SymbolKey, character: u64 },
}

/// Mathematical content of an [`ArgumentAsk`].
pub enum AskedArgument {
    Value(Val),
    Selected(SymbolKey, u64),
}

impl View for ArgumentAsk {
    type V = AskedArgument;

    open spec fn view(&self) -> AskedArgument {
        match self {
            ArgumentAsk::Value(v) => AskedArgument::Value(v@),
            ArgumentAsk::Selected { variable, character } => AskedArgument::Selected(
                *variable,
                *character,
            ),
        }
    }
}

/// The value of an argument of a user call is taken; it is captured next.
pub open spec fn capture_begun(vm: VmModel, form: Form, call: UserCall, references: Seq<bool>) -> (
    Form,
    Result<AskedArgument, Failure>,
) {
    match form_methods::call_checked(vm, form, call, true, references) {
        Err(e) => (form, Err(e)),
        Ok(_) => match form_support::popped(form, "STRFORM method argument is missing"@) {
            (after, Err(e)) => (after, Err(e)),
            (after, Ok(v)) => {
                let slot = call.next_slot as int;
                if !(call.call.bindings[slot] is ArrayReference) {
                    (after, Ok(AskedArgument::Value(v)))
                } else {
                    match (call.specs[slot], v) {
                        (UserArgumentSpec::Variable(variable), Val::Integer(n)) => if n < 0 {
                            (
                                after,
                                Err(
                                    Failure::script(
                                        ScriptFaultKind::Bounds,
                                        VmFaultCode::Bounds,
                                        "character selector is out of range"@,
                                    ),
                                ),
                            )
                        } else {
                            (after, Ok(AskedArgument::Selected(variable, n as u64)))
                        },
                        (UserArgumentSpec::Variable(_), _) => (
                            after,
                            Err(Failure::invalid("REF selector is not integer"@)),
                        ),
                        _ => (after, Err(Failure::invalid("REF selector has no source"@))),
                    }
                }
            },
        },
    }
}

/// What was captured for an argument is kept, and the call goes on.
pub open spec fn capture_ended(form: Form, call: UserCall, captured: Result<Val, Failure>) -> (
    Form,
    Result<(), Failure>,
) {
    match captured {
        Err(e) => (form, Err(e)),
        Ok(v) => (
            form.with_task(Task::MethodArgument(form_methods::captured_in(call, v))),
            Ok(()),
        ),
    }
}

impl RuntimeFormContinuation {
    /// Appends an interpolated value; gives it where it is to be brought to a width first.
    pub fn finish_interpolation(
        &mut self,
        string: bool,
        width: bool,
        alignment: Option<Alignment>,
    ) -> (r: Result<Option<PadAsk>, StepError>)
        ensures
            (final(self)@, pad_result(r)) == interpolated(old(self)@, string, width, alignment),
    {
        let size: Option<i64> = if width {
            match self.pop_integer("STRFORM width expects an integer") {
                Err(e) => {
                    return Err(e);
                },
                Ok(n) => Some(n),
            }
        } else {
            None
        };
        let v = match self.pop_value("STRFORM interpolation value is missing") {
            Err(e) => {
                return Err(e);
            },
            Ok(v) => v,
        };
        let shown = if string {
            match v {
                VmValue::String(s) => s,
                _ => {
                    return Err(
                        form_binding::bad_type("STRFORM string interpolation expects a string"),
                    );
                },
            }
        } else {
            match v {
                VmValue::Integer(n) => text::integer_text(n),
                _ => {
                    return Err(
                        form_binding::bad_type("STRFORM integer interpolation expects an integer"),
                    );
                },
            }
        };
        match size {
            Some(n) => {
                let left = match alignment {
                    Some(Alignment::Left) => true,
                    _ => false,
                };
                Ok(Some(PadAsk { text: shown, width: n, left }))
            },
            None => match self.append_output(shown.as_str()) {
                Err(e) => Err(e),
                Ok(_) => Ok(None),
            },
        }
    }

    /// Takes the name of EXISTMETH; whether there is such a method is asked next.
    pub fn begin_exists_method(&mut self, vm: &Vm) -> (r: Result<String, StepError>)
        ensures
            (final(self)@, fault::outcome(r)) == exists_begun(vm@, old(self)@),
    {
        let name = match self.pop_value("EXISTMETH name is missing") {
            Err(e) => {
                return Err(e);
            },
            Ok(VmValue::String(s)) => s,
            Ok(_) => {
                return Err(
                    StepError::new(VmFaultCode::TypeMismatch, "EXISTMETH expects a string"),
                );
            },
        };
        match vm.program(self.generation) {
            None => Err(StepError::new(VmFaultCode::MissingSymbol, "STRFORM generation is missing")),
            Some(_) => Ok(name),
        }
    }

    /// Takes the answer to EXISTMETH. The recording of the path is given up.
    pub fn finish_exists_method(&mut self, vm: &mut Vm, fiber: FiberId, answer: i64)
        ensures
            final(self)@ == old(self)@.with_value(Val::Integer(answer)),
            final(vm)@ == old(vm)@.without_path_memo(fiber),
    {
        self.push_value(VmValue::Integer(answer));
        vm.invalidate_path_memo(fiber);
    }

    /// Takes the value of an argument of a user call; it is captured next.
    pub fn begin_argument_capture(
        &mut self,
        vm: &Vm,
        call: &RuntimeUserCall,
        references: &Vec<bool>,
    ) -> (r: Result<ArgumentAsk, StepError>)
        ensures
            (final(self)@, fault::outcome(r)) == capture_begun(
                vm@,
                old(self)@,
                call@,
                references@,
            ),
    {
        match self.validate_method_call(vm, call, true, references) {
            Err(e) => {
                return Err(e);
            },
            Ok(_) => {},
        }
        let v = match self.pop_value("STRFORM method argument is missing") {
            Err(e) => {
                return Err(e);
            },
            Ok(v) => v,
        };
        let slot: usize = call.next_slot;
        assert(call@.call.bindings.len() == call.call.bindings@.len());
        assert(call@.call.bindings[slot as int] == call.call.bindings@[slot as int]@);
        match &call.call.bindings[slot] {
            UserArgumentBinding::ArrayReference => {},
            _ => {
                return Ok(ArgumentAsk::Value(v));
            },
        }
        let variable = match call.specs[slot] {
            UserArgumentSpec::Variable(k) => k,
            _ => {
                return Err(invalid("REF selector has no source"));
            },
        };
        match v {
            VmValue::Integer(n) => {
                if n < 0 {
                    return Err(
                        StepError::script(
                            ScriptFaultKind::Bounds,
                            VmFaultCode::Bounds,
                            "character selector is out of range",
                        ),
                    );
                }
                Ok(ArgumentAsk::Selected { variable, character: n as u64 })
            },
            _ => Err(invalid("REF selector is not integer")),
        }
    }

    /// Keeps what was captured for an argument, and lets the call go on.
    pub fn finish_argument_capture(
        &mut self,
        call: RuntimeUserCall,
        captured: Result<VmValue, StepError>,
    ) -> (r: Result<(), StepError>)
        requires
            call@.next_slot < call@.captured.len(),
            call@.captured.len() <= call@.arguments.len(),
        ensures
            (final(self)@, form_resources::unit_result(r)) == capture_ended(
                old(self)@,
                call@,
                fault::outcome(captured),
            ),
    {
        match captured {
            Err(e) => Err(e),
            Ok(v) => {
                let mut call = call;
                call.set_captured(v);
                self.push_task(RuntimeFormTask::MethodArgument(call));
                Ok(())
            },
        }
    }
}

} // verus!
