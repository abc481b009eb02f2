//! User calls of an evaluation.

use vstd::prelude::*;
use std::rc::Rc;
use crate::ast::{self, Expr, Tree};
use crate::diagnostics;
use crate::existvar::invalid;
use crate::fault::{self, Failure, ScriptFaultKind, StepError, Trouble, VmError, VmFaultCode};
use crate::form_binding;
use crate::form_checkpoints;
use crate::form_resources;
use crate::form_support;
use crate::form_typing;
use crate::forms::{
    self, Form, FormatCheckpointKind, MethodResult, Resolved, RuntimeFormContinuation,
    RuntimeFormRoot, RuntimeFormTask, RuntimeUserCall, RuntimeUserWait, Task, UserCall, UserWait,
};
use crate::lookup;
use crate::places;
use crate::program::{BytecodeFunction, ProgramGeneration, UserArgumentSpec, UserCallMode};
use crate::state::{
    self, CompatibilityWarning, Fiber, FiberModel, Frame, FrameModel, ResolvedUserCall,
    UserArgumentBinding, Vm, VmModel,
};
use crate::text;
use crate::value::{self, BytecodeType, FrameId, SymbolKey, Val, VmValue};

verus! {

/// An evaluation whose state is not what it must be.
pub fn invalid_state(message: &str) -> (r: StepError)
    ensures
        r@ == Failure::invalid(message@),
{
    invalid(message)
}

/// What a dynamic method call gives.
pub open spec fn method_kind(name: Seq<char>) -> Option<MethodResult> {
    form_typing::method_named(name)
}

pub open spec fn is_exists(name: Seq<char>) -> bool {
    text::same_ignoring_case(name, "EXISTMETH"@)
}

/// The argument at a position, if it is there.
pub open spec fn nth(arguments: Seq<Option<Tree>>, i: int) -> Option<Tree> {
    if 0 <= i < arguments.len() {
        arguments[i]
    } else {
        None
    }
}

/// Arguments from a position on.
pub open spec fn from(arguments: Seq<Option<Tree>>, i: int) -> Seq<Option<Tree>> {
    if i <= arguments.len() {
        arguments.skip(i)
    } else {
        Seq::empty()
    }
}

/// A dynamic method call is scheduled; false where the name is none of theirs.
pub open spec fn method_scheduled(form: Form, name: Seq<char>, arguments: Seq<Option<Tree>>) -> (
    Form,
    Result<bool, Failure>,
) {
    let result = method_kind(name);
    let exists = is_exists(name);
    if result is None && !exists {
        (form, Ok(false))
    } else {
        match nth(arguments, 0) {
            None => (
                form,
                Err(form_binding::argument_failure("dynamic method name cannot be omitted"@)),
            ),
            Some(target) => if exists {
                if arguments.len() != 1 {
                    (
                        form,
                        Err(form_binding::argument_failure("EXISTMETH expects one argument"@)),
                    )
                } else {
                    (form.with_task(Task::ExistsMethod).with_task(Task::Evaluate(target)), Ok(true))
                }
            } else {
                match form.current_plan {
                    None => (form, Err(Failure::invalid("method lacks its source plan"@))),
                    Some(plan) => (
                        form.with_task(
                            Task::ResolveMethod(
                                plan,
                                result->0,
                                nth(arguments, 1),
                                from(arguments, 2),
                            ),
                        ).with_task(Task::Evaluate(target)),
                        Ok(true),
                    ),
                }
            },
        }
    }
}

pub open spec fn bool_result(r: Result<bool, StepError>) -> Result<bool, Failure> {
    match r {
        Ok(b) => Ok(b),
        Err(e) => Err(e@),
    }
}

/// The result kind of a function that can be called by name.
pub open spec fn scalar_result(f: BytecodeFunction) -> Option<MethodResult> {
    match f.result {
        Some(BytecodeType::Integer) => Some(MethodResult::Integer),
        Some(BytecodeType::String) => Some(MethodResult::String),
        _ => None,
    }
}

/// A call of a user function by its name is scheduled.
pub open spec fn direct_scheduled(
    vm: VmModel,
    form: Form,
    name: Seq<char>,
    arguments: Seq<Option<Tree>>,
) -> (Form, Result<(), Failure>) {
    match vm.program(form.generation) {
        None => (form, Err(Failure::invalid("form generation is missing"@))),
        Some(program) => match program.spec_function_by_name(name) {
            None => (form, Err(Failure::invalid("known direct form method disappeared"@))),
            Some(target) => match scalar_result(*target) {
                None => (
                    form,
                    Err(
                        form_binding::argument_failure("direct form method has no scalar result"@),
                    ),
                ),
                Some(result) => {
                    let named = form.with_value(Val::Text(name));
                    match form.current_plan {
                        None => (named, Err(Failure::invalid("method lacks its source plan"@))),
                        Some(plan) => (
                            named.with_task(Task::ResolveMethod(plan, result, None, arguments)),
                            Ok(()),
                        ),
                    }
                },
            },
        },
    }
}

/// How a plan passes arguments to a user function.
pub open spec fn planned_specs(
    form: Form,
    program: ProgramGeneration,
    plan: u64,
    arguments: Seq<Option<Tree>>,
) -> Result<Seq<UserArgumentSpec>, Failure>
    decreases arguments.len(),
{
    if arguments.len() == 0 {
        Ok(Seq::empty())
    } else {
        match planned_specs(form, program, plan, arguments.drop_last()) {
            Err(e) => Err(e),
            Ok(before) => match form.planned_spec(program, plan, arguments.last()) {
                Err(e) => Err(e),
                Ok(s) => Ok(before.push(s)),
            },
        }
    }
}

/// A machine that warns of a call with more arguments than parameters.
pub open spec fn warned(vm: VmModel, call: Resolved, given: nat) -> VmModel {
    match vm.program(call.generation) {
        Some(program) => if given > call.bindings.len()
            && program.call_compatibility.excess_arguments is IgnoreWithWarning {
            diagnostics::queued(vm, CompatibilityWarning::ExcessUserArguments)
        } else {
            vm
        },
        None => vm,
    }
}

/// A call that was resolved waits for its arguments.
pub open spec fn call_queued(
    vm: VmModel,
    form: Form,
    call: Resolved,
    specs: Seq<UserArgumentSpec>,
    arguments: Seq<Option<Tree>>,
) -> (VmModel, Form, Result<(), Failure>) {
    let after = warned(vm, call, specs.len());
    let retained = form_support::paired(specs.len(), call.bindings.len());
    match form.current_plan {
        None => (after, form, Err(Failure::invalid("user call lacks its source plan"@))),
        Some(plan) => if form.next_reference_scope == u64::MAX {
            (
                after,
                form,
                Err(
                    form_resources::resource_failure(
                        "user-call reference scope identity exhausted"@,
                    ),
                ),
            )
        } else {
            let scope = form.next_reference_scope;
            let next = Form { next_reference_scope: (scope + 1) as u64, ..form };
            (
                after,
                next.with_task(
                    Task::MethodArgument(
                        UserCall {
                            reference_bindings: form.reference_bindings,
                            reference_scope: scope,
                            plan,
                            call,
                            specs,
                            arguments,
                            captured: Seq::new(retained, |i: int| None),
                            next_slot: 0,
                            argument_checkpoint: None,
                        },
                    ),
                ),
                Ok(()),
            )
        },
    }
}

pub open spec fn method_missing(name: Seq<char>) -> Failure {
    Failure::script(
        ScriptFaultKind::Resolve,
        VmFaultCode::MissingSymbol,
        "dynamic method "@ + name + " is missing"@,
    )
}

/// A dynamic method is resolved, or its fallback is evaluated.
pub open spec fn method_resolved(
    vm: VmModel,
    form: Form,
    plan: u64,
    result: MethodResult,
    fallback: Option<Tree>,
    arguments: Seq<Option<Tree>>,
) -> (VmModel, Form, Result<(), Failure>) {
    match form_support::popped(form, "form method name is missing"@) {
        (popped, Err(e)) => (vm, popped, Err(e)),
        (popped, Ok(Val::Text(name))) => match vm.program(form.generation) {
            None => (vm, popped, Err(Failure::invalid("form generation is missing"@))),
            Some(program) => match fallback_typed(popped, plan, result, fallback) {
                Err(e) => (vm, popped, Err(e)),
                Ok(_) => match planned_specs(popped, program, plan, arguments) {
                    Err(e) => (vm, popped, Err(e)),
                    Ok(specs) => match form_binding::user_resolved(
                        program,
                        name,
                        UserCallMode::Value(result.kind()),
                        specs,
                    ) {
                        Err(e) => (vm, popped, Err(fault::mapped(e))),
                        Ok(Some(call)) => call_queued(vm, popped, call, specs, arguments),
                        Ok(None) => match fallback {
                            Some(t) => (vm, popped.with_task(Task::Evaluate(t)), Ok(())),
                            None => (vm, popped, Err(method_missing(name))),
                        },
                    },
                },
            },
        },
        (popped, Ok(_)) => (
            vm,
            popped,
            Err(form_binding::argument_failure("form method name must be a string"@)),
        ),
    }
}

/// A fallback has the type of the method.
pub open spec fn fallback_typed(form: Form, plan: u64, result: MethodResult, fallback: Option<Tree>) -> Result<
    (),
    Failure,
> {
    match fallback {
        None => Ok(()),
        Some(t) => match form.planned_type(plan, t) {
            Err(e) => Err(e),
            Ok(kind) => if kind == result.kind() {
                Ok(())
            } else {
                Err(
                    form_binding::argument_failure(
                        "dynamic method fallback has an incompatible type"@,
                    ),
                )
            },
        },
    }
}

pub(crate) fn nth_argument(arguments: &Vec<Option<Rc<Expr>>>, i: usize) -> (r: Option<Rc<Expr>>)
    ensures
        ast::argument_tree(r) == nth(ast::argument_trees(arguments@), i as int),
{
    proof {
        ast::lemma_argument_trees(arguments@);
    }
    if i < arguments.len() {
        ast::copy_argument(&arguments[i])
    } else {
        None
    }
}

fn nones(n: usize) -> (r: Vec<Option<VmValue>>)
    ensures
        state::optional_vals(r@) == Seq::new(n as nat, |i: int| None::<Val>),
{
    let mut out: Vec<Option<VmValue>> = Vec::new();
    let mut i: usize = 0;
    while i < n
        invariant
            i <= n,
            out@.len() == i,
            forall|j: int| 0 <= j < i ==> #[trigger] out@[j] is None,
        decreases n - i,
    {
        out.push(None);
        i = i + 1;
    }
    assert(state::optional_vals(out@) =~= Seq::new(n as nat, |i: int| None::<Val>));
    out
}

impl RuntimeFormContinuation {
    /// Schedules a dynamic method call; false where the name is none of theirs.
    pub fn schedule_method(&mut self, name: &str, arguments: &Vec<Option<Rc<Expr>>>) -> (r: Result<
        bool,
        StepError,
    >)
        ensures
            (final(self)@, bool_result(r)) == method_scheduled(
                old(self)@,
                name@,
                ast::argument_trees(arguments@),
            ),
    {
        proof {
            ast::lemma_argument_trees(arguments@);
        }
        let result = form_typing::method_result(name);
        let exists = text::eq_ignore_ascii_case(name, "EXISTMETH");
        if result.is_none() && !exists {
            return Ok(false);
        }
        let target = match nth_argument(arguments, 0) {
            None => {
                return Err(form_binding::bad_type("dynamic method name cannot be omitted"));
            },
            Some(e) => e,
        };
        if exists {
            if arguments.len() != 1 {
                return Err(form_binding::bad_type("EXISTMETH expects one argument"));
            }
            self.push_task(RuntimeFormTask::ExistsMethod);
        } else {
            let plan: u64 = match self.current_call_plan {
                None => {
                    return Err(invalid_state("method lacks its source plan"));
                },
                Some(p) => p,
            };
            let result = match result {
                Some(r) => r,
                None => MethodResult::Integer,
            };
            let fallback = nth_argument(arguments, 1);
            let rest = ast::copy_arguments(arguments, 2);
            self.push_task(
                RuntimeFormTask::ResolveMethod { plan, result, fallback, arguments: rest },
            );
        }
        self.push_task(RuntimeFormTask::Evaluate(target));
        Ok(true)
    }

    /// Schedules a call of a user function by its name.
    pub fn schedule_direct_user_call(
        &mut self,
        vm: &Vm,
        name: &str,
        arguments: &Vec<Option<Rc<Expr>>>,
    ) -> (r: Result<(), StepError>)
        ensures
            (final(self)@, form_resources::unit_result(r)) == direct_scheduled(
                vm@,
                old(self)@,
                name@,
                ast::argument_trees(arguments@),
            ),
    {
        let program = match vm.program(self.generation) {
            None => {
                return Err(invalid_state("form generation is missing"));
            },
            Some(p) => p,
        };
        let target = match program.function_by_name(name) {
            None => {
                return Err(invalid_state("known direct form method disappeared"));
            },
            Some(t) => t,
        };
        let result = match target.result {
            Some(BytecodeType::Integer) => MethodResult::Integer,
            Some(BytecodeType::String) => MethodResult::String,
            _ => {
                return Err(form_binding::bad_type("direct form method has no scalar result"));
            },
        };
        self.push_value(VmValue::text(name));
        let plan: u64 = match self.current_call_plan {
            None => {
                return Err(invalid_state("method lacks its source plan"));
            },
            Some(p) => p,
        };
        let copy = ast::copy_arguments(arguments, 0);
        proof {
            assert(ast::argument_trees(arguments@).skip(0) =~= ast::argument_trees(arguments@));
        }
        self.push_task(
            RuntimeFormTask::ResolveMethod { plan, result, fallback: None, arguments: copy },
        );
        Ok(())
    }

    #[verifier::loop_isolation(false)]
    fn plan_specs(&self, program: &ProgramGeneration, plan: u64, arguments: &Vec<Option<Rc<Expr>>>) -> (r:
        Result<Vec<UserArgumentSpec>, StepError>)
        ensures
            match r {
                Ok(v) => planned_specs(self@, *program, plan, ast::argument_trees(arguments@))
                    == Ok::<Seq<UserArgumentSpec>, Failure>(v@) && v@.len() == arguments@.len(),
                Err(e) => planned_specs(self@, *program, plan, ast::argument_trees(arguments@))
                    == Err::<Seq<UserArgumentSpec>, Failure>(e@),
            },
    {
        let ghost all = ast::argument_trees(arguments@);
        proof {
            ast::lemma_argument_trees(arguments@);
            assert(all.take(0) =~= Seq::<Option<Tree>>::empty());
        }
        let mut out: Vec<UserArgumentSpec> = Vec::new();
        let mut i: usize = 0;
        while i < arguments.len()
            invariant
                i <= arguments.len(),
                out@.len() == i,
                planned_specs(self@, *program, plan, all.take(i as int)) == Ok::<
                    Seq<UserArgumentSpec>,
                    Failure,
                >(out@),
            decreases arguments.len() - i,
        {
            proof {
                assert(all.take(i + 1).drop_last() =~= all.take(i as int));
                assert(all.take(i + 1).last() == all[i as int]);
            }
            match self.planned_argument_spec(program, plan, &arguments[i]) {
                Err(e) => {
                    proof {
                        lemma_specs_stop(self@, *program, plan, all, i + 1);
                    }
                    return Err(e);
                },
                Ok(s) => {
                    out.push(s);
                },
            }
            i = i + 1;
        }
        assert(all.take(i as int) =~= all);
        Ok(out)
    }

    /// Lets a call that was resolved wait for its arguments.
    pub fn queue_resolved_call(
        &mut self,
        vm: &mut Vm,
        call: Rc<ResolvedUserCall>,
        specs: Vec<UserArgumentSpec>,
        arguments: Vec<Option<Rc<Expr>>>,
    ) -> (r: Result<(), StepError>)
        ensures
            (final(vm)@, final(self)@, form_resources::unit_result(r)) == call_queued(
                old(vm)@,
                old(self)@,
                call@,
                specs@,
                ast::argument_trees(arguments@),
            ),
    {
        assert(call@.bindings.len() == call.bindings@.len());
        vm.queue_user_call_diagnostic(&call, specs.len());
        let bindings: usize = call.bindings.len();
        let retained: usize = if specs.len() < bindings {
            specs.len()
        } else {
            bindings
        };
        let plan: u64 = match self.current_call_plan {
            None => {
                return Err(invalid_state("user call lacks its source plan"));
            },
            Some(p) => p,
        };
        let scope: u64 = self.next_reference_scope;
        if scope == u64::MAX {
            return Err(
                form_resources::resource_limit("user-call reference scope identity exhausted"),
            );
        }
        self.next_reference_scope = scope + 1;
        let call = RuntimeUserCall {
            reference_bindings: self.reference_bindings,
            reference_scope: scope,
            plan,
            call,
            specs,
            arguments,
            captured: nones(retained),
            next_slot: 0,
            argument_checkpoint: None,
        };
        self.push_task(RuntimeFormTask::MethodArgument(call));
        Ok(())
    }

    /// Resolves a dynamic method, or schedules its fallback.
    pub fn resolve_method(
        &mut self,
        vm: &mut Vm,
        plan: u64,
        result: MethodResult,
        fallback: Option<Rc<Expr>>,
        arguments: Vec<Option<Rc<Expr>>>,
    ) -> (r: Result<(), StepError>)
        ensures
            (final(vm)@, final(self)@, form_resources::unit_result(r)) == method_resolved(
                old(vm)@,
                old(self)@,
                plan,
                result,
                ast::argument_tree(fallback),
                ast::argument_trees(arguments@),
            ),
    {
        let name = match self.pop_value("form method name is missing") {
            Err(e) => {
                return Err(e);
            },
            Ok(VmValue::String(name)) => name,
            Ok(_) => {
                return Err(form_binding::bad_type("form method name must be a string"));
            },
        };
        let program = match vm.program(self.generation) {
            None => {
                return Err(invalid_state("form generation is missing"));
            },
            Some(p) => p,
        };
        match &fallback {
            None => {},
            Some(e) => match self.planned_expression_type(plan, e) {
                Err(error) => {
                    return Err(error);
                },
                Ok(kind) => {
                    if kind != result.bytecode_type() {
                        return Err(
                            form_binding::bad_type(
                                "dynamic method fallback has an incompatible type",
                            ),
                        );
                    }
                },
            },
        }
        let specs = match self.plan_specs(&program, plan, &arguments) {
            Err(e) => {
                return Err(e);
            },
            Ok(s) => s,
        };
        let mode = UserCallMode::Value(result.bytecode_type());
        match form_binding::resolve_user_call(&program, name.as_str(), mode, &specs) {
            Err(e) => Err(fault::map_vm_error(e)),
            Ok(Some(call)) => self.queue_resolved_call(vm, call, specs, arguments),
            Ok(None) => match fallback {
                Some(e) => {
                    self.push_task(RuntimeFormTask::Evaluate(e));
                    Ok(())
                },
                None => {
                    let message = text::join3("dynamic method ", name.as_str(), " is missing");
                    Err(
                        StepError::script(
                            ScriptFaultKind::Resolve,
                            VmFaultCode::MissingSymbol,
                            message.as_str(),
                        ),
                    )
                },
            },
        }
    }
}

proof fn lemma_specs_stop(
    form: Form,
    program: ProgramGeneration,
    plan: u64,
    arguments: Seq<Option<Tree>>,
    n: int,
)
    requires
        0 <= n <= arguments.len(),
        planned_specs(form, program, plan, arguments.take(n)) is Err,
    ensures
        planned_specs(form, program, plan, arguments) == planned_specs(
            form,
            program,
            plan,
            arguments.take(n),
        ),
    decreases arguments.len() - n,
{
    if n == arguments.len() {
        assert(arguments.take(n) =~= arguments);
    } else {
        assert(arguments.take(n + 1).drop_last() =~= arguments.take(n));
        lemma_specs_stop(form, program, plan, arguments, n + 1);
    }
}

/// What was captured for a slot.
pub open spec fn captured_at(call: UserCall, slot: int) -> Option<Val> {
    if 0 <= slot < call.captured.len() {
        call.captured[slot]
    } else {
        None
    }
}

/// A variable argument is one that the function of the evaluation sees.
pub open spec fn in_scope(program: ProgramGeneration, function: SymbolKey, s: UserArgumentSpec) -> Result<
    (),
    Failure,
> {
    match s {
        UserArgumentSpec::Variable(key) => match program.spec_global(key) {
            None => Err(Failure::invalid("stored form variable is missing"@)),
            Some(g) => match program.spec_scoped_variable(function, g.name@) {
                Some(d) => if d.key == key {
                    Ok(())
                } else {
                    Err(Failure::invalid("stored form variable escaped its caller scope"@))
                },
                None => Err(Failure::invalid("stored form variable escaped its caller scope"@)),
            },
        },
        _ => Ok(()),
    }
}

/// A captured value fits its parameter; `references` tells which captured references are good.
pub open spec fn capture_fits(
    target: BytecodeFunction,
    call: UserCall,
    slot: int,
    references: Seq<bool>,
) -> Result<(), Failure> {
    match captured_at(call, slot) {
        None => Ok(()),
        Some(v) => if slot >= target.parameters@.len() || v.value_type()
            != target.parameters@[slot].value_type {
            Err(Failure::invalid("stored form captured type differs"@))
        } else if slot < call.call.bindings.len() && call.call.bindings[slot] is ArrayReference && !(
        slot < references.len() && references[slot]) {
            Err(Failure::invalid("stored form captured REF backing is invalid"@))
        } else {
            Ok(())
        },
    }
}

/// One argument of a stored call is where the call has come to.
pub open spec fn slot_checked(
    form: Form,
    program: ProgramGeneration,
    target: BytecodeFunction,
    call: UserCall,
    awaiting: bool,
    references: Seq<bool>,
    slot: int,
) -> Result<(), Failure> {
    let s = call.specs[slot];
    let captured = captured_at(call, slot);
    let argument = call.arguments[slot];
    let passed = slot < call.next_slot;
    let current = slot == call.next_slot && awaiting;
    if (captured is Some) != (passed && slot < call.captured.len() && !(s is Omitted)) || (passed
        && argument is Some) || (current && argument is Some) {
        Err(Failure::invalid("stored form user actual/capture position differs"@))
    } else {
        match in_scope(program, form.function, s) {
            Err(e) => Err(e),
            Ok(_) => if !passed && !current && form.planned_spec(program, call.plan, argument)
                is Err {
                Err(Failure::invalid("stored actual cannot be typed"@))
            } else if !passed && !current && form.planned_spec(program, call.plan, argument) != Ok::<
                UserArgumentSpec,
                Failure,
            >(s) {
                Err(Failure::invalid("stored form argument shape differs"@))
            } else {
                capture_fits(target, call, slot, references)
            },
        }
    }
}

/// The first `n` arguments of a stored call are where the call has come to.
pub open spec fn slots_checked(
    form: Form,
    program: ProgramGeneration,
    target: BytecodeFunction,
    call: UserCall,
    awaiting: bool,
    references: Seq<bool>,
    n: nat,
) -> Result<(), Failure>
    decreases n,
{
    if n == 0 {
        Ok(())
    } else {
        match slots_checked(form, program, target, call, awaiting, references, (n - 1) as nat) {
            Err(e) => Err(e),
            Ok(_) => slot_checked(form, program, target, call, awaiting, references, n - 1),
        }
    }
}

/// A boundary around the arguments of a call is the innermost one.
pub open spec fn guarded(form: Form, checkpoint: Option<u64>) -> bool {
    match checkpoint {
        None => true,
        Some(id) => form.checkpoints.len() > 0 && form.checkpoints.last().id == id
            && form.checkpoints.last().kind is CallTextArguments,
    }
}

/// A stored call is the one that its target resolves to, and its arguments are where it has come
/// to.
pub open spec fn call_checked(
    vm: VmModel,
    form: Form,
    call: UserCall,
    awaiting: bool,
    references: Seq<bool>,
) -> Result<(), Failure> {
    match vm.program(form.generation) {
        None => Err(Failure::invalid("stored form generation is missing"@)),
        Some(program) => match program.spec_function(call.call.function) {
            None => Err(Failure::invalid("stored form target is missing"@)),
            Some(target) => match form_binding::user_resolved(
                program,
                target.name@,
                call.call.mode,
                call.specs,
            ) {
                Err(_) => Err(Failure::invalid("stored form user signature cannot resolve"@)),
                Ok(resolved) => {
                    let retained = form_support::paired(
                        call.specs.len(),
                        call.call.bindings.len(),
                    );
                    if call.reference_scope == 0 || call.reference_scope
                        >= form.next_reference_scope || call.call.generation != form.generation
                        || call.specs.len() != call.arguments.len() || call.captured.len()
                        != retained || call.next_slot > call.specs.len() || !guarded(
                        form,
                        call.argument_checkpoint,
                    ) || (awaiting && call.next_slot >= retained) || resolved != Some(call.call) {
                        Err(Failure::invalid("stored form user signature/slot state differs"@))
                    } else {
                        slots_checked(
                            form,
                            program,
                            *target,
                            call,
                            awaiting,
                            references,
                            call.specs.len(),
                        )
                    }
                },
            },
        },
    }
}

proof fn lemma_slots_stop(
    form: Form,
    program: ProgramGeneration,
    target: BytecodeFunction,
    call: UserCall,
    awaiting: bool,
    references: Seq<bool>,
    k: nat,
    n: nat,
)
    requires
        k <= n,
        slots_checked(form, program, target, call, awaiting, references, k) is Err,
    ensures
        slots_checked(form, program, target, call, awaiting, references, n) == slots_checked(
            form,
            program,
            target,
            call,
            awaiting,
            references,
            k,
        ),
    decreases n - k,
{
    if k < n {
        lemma_slots_stop(form, program, target, call, awaiting, references, k, (n - 1) as nat);
    }
}

impl RuntimeFormContinuation {
    fn check_scope(&self, program: &ProgramGeneration, s: UserArgumentSpec) -> (r: Result<
        (),
        StepError,
    >)
        ensures
            form_resources::unit_result(r) == in_scope(*program, self@.function, s),
    {
        let key = match s {
            UserArgumentSpec::Variable(key) => key,
            _ => {
                return Ok(());
            },
        };
        match program.global(key) {
            None => Err(invalid_state("stored form variable is missing")),
            Some(g) => {
                let seen = match program.scoped_variable(self.function, g.name.as_str()) {
                    Some(d) => d.key == key,
                    None => false,
                };
                if seen {
                    Ok(())
                } else {
                    Err(invalid_state("stored form variable escaped its caller scope"))
                }
            },
        }
    }

    fn check_capture(
        &self,
        target: &BytecodeFunction,
        call: &RuntimeUserCall,
        slot: usize,
        references: &Vec<bool>,
    ) -> (r: Result<(), StepError>)
        ensures
            form_resources::unit_result(r) == capture_fits(
                *target,
                call@,
                slot as int,
                references@,
            ),
    {
        if slot >= call.captured.len() {
            return Ok(());
        }
        assert(call@.captured[slot as int] == state::optional_val(call.captured@[slot as int]));
        match &call.captured[slot] {
            None => Ok(()),
            Some(v) => {
                if slot >= target.parameters.len() || v.value_type()
                    != target.parameters[slot].value_type {
                    return Err(invalid_state("stored form captured type differs"));
                }
                assert(call@.call.bindings.len() == call.call.bindings@.len());
                if slot < call.call.bindings.len() {
                    assert(call@.call.bindings[slot as int] == call.call.bindings@[slot as int]@);
                    let reference = match &call.call.bindings[slot] {
                        UserArgumentBinding::ArrayReference => true,
                        _ => false,
                    };
                    if reference && !(slot < references.len() && references[slot]) {
                        return Err(invalid_state("stored form captured REF backing is invalid"));
                    }
                }
                Ok(())
            },
        }
    }

    fn check_slot(
        &self,
        program: &ProgramGeneration,
        target: &BytecodeFunction,
        call: &RuntimeUserCall,
        awaiting: bool,
        references: &Vec<bool>,
        slot: usize,
    ) -> (r: Result<(), StepError>)
        requires
            slot < call@.specs.len(),
            call@.specs.len() == call@.arguments.len(),
        ensures
            form_resources::unit_result(r) == slot_checked(
                self@,
                *program,
                *target,
                call@,
                awaiting,
                references@,
                slot as int,
            ),
    {
        proof {
            ast::lemma_argument_trees(call.arguments@);
        }
        let s = call.specs[slot];
        let retained = slot < call.captured.len();
        let captured = if retained {
            assert(call@.captured[slot as int] == state::optional_val(
                call.captured@[slot as int],
            ));
            call.captured[slot].is_some()
        } else {
            false
        };
        let omitted = match s {
            UserArgumentSpec::Omitted => true,
            _ => false,
        };
        let present = call.arguments[slot].is_some();
        let passed = slot < call.next_slot;
        let current = slot == call.next_slot && awaiting;
        if captured != (passed && retained && !omitted) || (passed && present) || (current
            && present) {
            return Err(invalid_state("stored form user actual/capture position differs"));
        }
        match self.check_scope(program, s) {
            Err(e) => {
                return Err(e);
            },
            Ok(_) => {},
        }
        if !passed && !current {
            match self.planned_argument_spec(program, call.plan, &call.arguments[slot]) {
                Err(_) => {
                    return Err(invalid_state("stored actual cannot be typed"));
                },
                Ok(actual) => {
                    if actual != s {
                        return Err(invalid_state("stored form argument shape differs"));
                    }
                },
            }
        }
        self.check_capture(target, call, slot, references)
    }

    fn is_guarded(&self, checkpoint: Option<u64>) -> (r: bool)
        ensures
            r == guarded(self@, checkpoint),
    {
        match checkpoint {
            None => true,
            Some(id) => {
                if self.checkpoints.len() == 0 {
                    return false;
                }
                let last = self.checkpoints[self.checkpoints.len() - 1];
                let arguments = match last.kind {
                    FormatCheckpointKind::CallTextArguments(_) => true,
                    _ => false,
                };
                last.id == id && arguments
            },
        }
    }

    /// Checks that a stored call is the one that its target resolves to, and that its arguments
    /// are where it has come to.
    #[verifier::loop_isolation(false)]
    pub fn validate_method_call(
        &self,
        vm: &Vm,
        call: &RuntimeUserCall,
        awaiting: bool,
        references: &Vec<bool>,
    ) -> (r: Result<(), StepError>)
        ensures
            form_resources::unit_result(r) == call_checked(
                vm@,
                self@,
                call@,
                awaiting,
                references@,
            ),
    {
        proof {
            ast::lemma_argument_trees(call.arguments@);
            assert(call@.captured.len() == call.captured@.len());
            assert(call@.call.bindings.len() == call.call.bindings@.len());
        }
        let program = match vm.program(self.generation) {
            None => {
                return Err(invalid_state("stored form generation is missing"));
            },
            Some(p) => p,
        };
        let target = match program.function(call.call.function) {
            None => {
                return Err(invalid_state("stored form target is missing"));
            },
            Some(t) => t,
        };
        let resolved = match form_binding::resolve_user_call(
            &program,
            target.name.as_str(),
            call.call.mode,
            &call.specs,
        ) {
            Err(_) => {
                return Err(invalid_state("stored form user signature cannot resolve"));
            },
            Ok(c) => c,
        };
        let ghost loaded = vm@.program(self.generation)->0;
        let count: usize = call.specs.len();
        let bindings: usize = call.call.bindings.len();
        let retained: usize = if count < bindings {
            count
        } else {
            bindings
        };
        let same = match &resolved {
            None => false,
            Some(c) => forms::same_resolved(c, &call.call),
        };
        if call.reference_scope == 0 || call.reference_scope >= self.next_reference_scope
            || call.call.generation != self.generation || count != call.arguments.len()
            || call.captured.len() != retained || call.next_slot > count || !self.is_guarded(
            call.argument_checkpoint,
        ) || (awaiting && call.next_slot >= retained) || !same {
            return Err(invalid_state("stored form user signature/slot state differs"));
        }
        let mut slot: usize = 0;
        while slot < count
            invariant
                slot <= count,
                slots_checked(
                    self@,
                    *program,
                    *target,
                    call@,
                    awaiting,
                    references@,
                    slot as nat,
                ) is Ok,
            decreases count - slot,
        {
            match self.check_slot(&program, target, call, awaiting, references, slot) {
                Ok(_) => {},
                Err(e) => {
                    proof {
                        lemma_slots_stop(
                            self@,
                            loaded,
                            *target,
                            call@,
                            awaiting,
                            references@,
                            (slot + 1) as nat,
                            count as nat,
                        );
                    }
                    return Err(e);
                },
            }
            slot = slot + 1;
        }
        Ok(())
    }
}

/// A call whose current argument is no longer held.
pub open spec fn argument_taken(call: UserCall) -> UserCall {
    UserCall { arguments: call.arguments.update(call.next_slot as int, None), ..call }
}

/// A call that goes on to its next argument.
pub open spec fn passed_over(call: UserCall) -> UserCall {
    UserCall { next_slot: (call.next_slot + 1) as usize, ..argument_taken(call) }
}

/// A call whose current argument was captured.
pub open spec fn captured_in(call: UserCall, v: Val) -> UserCall {
    UserCall { captured: call.captured.update(call.next_slot as int, Some(v)), ..passed_over(call) }
}

/// What a call needs next.
pub enum Advance {
    /// An argument is evaluated first.
    Scheduled,
    /// The array of a variable is captured for the current slot.
    Reference(UserCall, SymbolKey),
    /// The callee is entered.
    Enter(UserCall),
}

/// The current argument of a call needs no work.
pub open spec fn passable(call: UserCall) -> bool {
    let slot = call.next_slot as int;
    slot < call.specs.len() && slot < usize::MAX && (slot >= call.captured.len()
        || call.specs[slot] is Omitted)
}

/// A call at its first argument that needs work.
pub open spec fn skipped(call: UserCall) -> UserCall
    decreases call.specs.len() - call.next_slot,
{
    if passable(call) {
        skipped(passed_over(call))
    } else {
        call
    }
}

/// The current argument of a call is captured or scheduled, or the callee is entered.
pub open spec fn argument_advanced(form: Form, call: UserCall) -> (Form, Result<Advance, Failure>) {
    if call.next_slot >= call.specs.len() {
        (form, Ok(Advance::Enter(call)))
    } else {
        let slot = call.next_slot as int;
        if slot < call.call.bindings.len() && call.call.bindings[slot] is ArrayReference {
            match call.specs[slot] {
                UserArgumentSpec::Variable(v) => (form, Ok(Advance::Reference(call, v))),
                _ => (
                    form,
                    Err(form_binding::argument_failure("REF argument has no variable identity"@)),
                ),
            }
        } else {
            match call.arguments[slot] {
                None => (
                    form,
                    Err(form_binding::argument_failure("method actual expression is missing"@)),
                ),
                Some(t) => (
                    form.with_task(Task::CaptureMethodArgument(argument_taken(call))).with_task(
                        Task::Evaluate(t),
                    ),
                    Ok(Advance::Scheduled),
                ),
            }
        }
    }
}

/// The boundary around the arguments of a call is closed.
pub open spec fn arguments_closed(form: Form, id: u64) -> (Form, Result<(), Failure>) {
    if guarded(form, Some(id)) && form.work.len() > 0 && form.work.last()
        == form_checkpoints::marker(form.checkpoints.last()) {
        (
            Form {
                work: form.work.drop_last(),
                checkpoints: form.checkpoints.drop_last(),
                ..form
            },
            Ok(()),
        )
    } else {
        (
            form,
            Err(Failure::invalid("CALLSTR argument checkpoint escaped its user-call state"@)),
        )
    }
}

/// What a call needs next, with the depth of the owner's stack where the callee is entered.
#[derive(PartialEq, Eq, Debug)]
pub enum MethodAdvance {
    /// An argument is evaluated first.
    Scheduled,
    /// The array of a variable is captured for the current slot.
    Reference { call: RuntimeUserCall, variable: SymbolKey },
    /// The callee is entered.
    Enter { call: RuntimeUserCall, owner_stack_depth: usize },
}

/// Mathematical content of a [`MethodAdvance`].
pub enum Advanced {
    Scheduled,
    Reference(UserCall, SymbolKey),
    Enter(UserCall, usize),
}

impl View for MethodAdvance {
    type V = Advanced;

    open spec fn view(&self) -> Advanced {
        match self {
            MethodAdvance::Scheduled => Advanced::Scheduled,
            MethodAdvance::Reference { call, variable } => Advanced::Reference(call@, *variable),
            MethodAdvance::Enter { call, owner_stack_depth } => Advanced::Enter(
                call@,
                *owner_stack_depth,
            ),
        }
    }
}

/// A call whose arguments are all there is ready to be entered.
pub open spec fn entering(fiber: FiberModel, form: Form, call: UserCall) -> (
    Form,
    Result<Advanced, Failure>,
) {
    let (closed, r) = match call.argument_checkpoint {
        None => (form, Ok(())),
        Some(id) => arguments_closed(form, id),
    };
    match r {
        Err(e) => (closed, Err(e)),
        Ok(_) => match form_support::owner_at(fiber, form.frame) {
            Err(e) => (closed, Err(e)),
            Ok(i) => (
                closed,
                Ok(
                    Advanced::Enter(
                        UserCall { argument_checkpoint: None, ..call },
                        fiber.frames[i].stack.len() as usize,
                    ),
                ),
            ),
        },
    }
}

/// A call goes on with its arguments.
pub open spec fn call_continued(fiber: FiberModel, form: Form, call: UserCall) -> (
    Form,
    Result<Advanced, Failure>,
) {
    match argument_advanced(form, skipped(call)) {
        (after, Err(e)) => (after, Err(e)),
        (after, Ok(Advance::Scheduled)) => (after, Ok(Advanced::Scheduled)),
        (after, Ok(Advance::Reference(call, v))) => (after, Ok(Advanced::Reference(call, v))),
        (after, Ok(Advance::Enter(call))) => entering(fiber, after, call),
    }
}

/// A stored call is checked and goes on with its arguments.
pub open spec fn call_advanced(
    vm: VmModel,
    fiber: FiberModel,
    form: Form,
    call: UserCall,
    references: Seq<bool>,
) -> (Form, Result<Advanced, Failure>) {
    match call_checked(vm, form, call, false, references) {
        Err(e) => (form, Err(e)),
        Ok(_) => call_continued(fiber, form, call),
    }
}

proof fn lemma_captured_update(s: Seq<Option<VmValue>>, i: int, v: Option<VmValue>)
    requires
        0 <= i < s.len(),
    ensures
        state::optional_vals(s.update(i, v)) == state::optional_vals(s).update(
            i,
            state::optional_val(v),
        ),
{
    assert(state::optional_vals(s.update(i, v)) =~= state::optional_vals(s).update(
        i,
        state::optional_val(v),
    ));
}

proof fn lemma_argument_update(s: Seq<Option<Rc<Expr>>>, i: int)
    requires
        0 <= i < s.len(),
    ensures
        ast::argument_trees(s.update(i, None)) == ast::argument_trees(s).update(i, None),
{
    ast::lemma_argument_trees(s);
    ast::lemma_argument_trees(s.update(i, None));
    assert(ast::argument_trees(s.update(i, None)) =~= ast::argument_trees(s).update(i, None));
}

impl RuntimeUserCall {
    fn take_argument(&mut self) -> (r: Option<Rc<Expr>>)
        requires
            old(self)@.next_slot < old(self)@.arguments.len(),
        ensures
            final(self)@ == argument_taken(old(self)@),
            ast::argument_tree(r) == old(self)@.arguments[old(self)@.next_slot as int],
    {
        proof {
            ast::lemma_argument_trees(self.arguments@);
        }
        let slot: usize = self.next_slot;
        let ghost before = self.arguments@;
        let taken = ast::copy_argument(&self.arguments[slot]);
        self.arguments.set(slot, None);
        proof {
            lemma_argument_update(before, slot as int);
        }
        taken
    }

    #[verifier::loop_isolation(false)]
    fn skip_passable(self) -> (r: RuntimeUserCall)
        requires
            self@.specs.len() == self@.arguments.len(),
            self@.captured.len() <= self@.specs.len(),
            self@.next_slot <= self@.specs.len(),
        ensures
            r@ == skipped(self@),
            r@.specs == self@.specs,
            r@.specs.len() == r@.arguments.len(),
            r@.next_slot <= r@.specs.len(),
    {
        let ghost start = self@;
        let mut call = self;
        while call.next_slot < call.specs.len()
            invariant
                call@.specs == start.specs,
                call@.specs.len() == call@.arguments.len(),
                call@.next_slot <= call@.specs.len(),
                skipped(call@) == skipped(start),
            decreases call@.specs.len() - call@.next_slot,
        {
            let slot: usize = call.next_slot;
            assert(call@.captured.len() == call.captured@.len());
            let omitted = match call.specs[slot] {
                UserArgumentSpec::Omitted => true,
                _ => false,
            };
            if slot < call.captured.len() && !omitted {
                return call;
            }
            let _ = call.take_argument();
            call.next_slot = slot + 1;
        }
        call
    }

    pub(crate) fn set_captured(&mut self, v: VmValue)
        requires
            old(self)@.next_slot < old(self)@.captured.len(),
            old(self)@.captured.len() <= old(self)@.arguments.len(),
        ensures
            final(self)@ == captured_in(old(self)@, v@),
    {
        let slot: usize = self.next_slot;
        proof {
            ast::lemma_argument_trees(self.arguments@);
            assert(self@.captured.len() == self.captured@.len());
        }
        let count: usize = self.captured.len();
        let ghost captured = self.captured@;
        self.captured.set(slot, Some(v));
        proof {
            lemma_captured_update(captured, slot as int, Some(v));
        }
        let _ = self.take_argument();
        self.next_slot = slot + 1;
    }
}

impl RuntimeFormContinuation {
    /// Closes the boundary around the arguments of a call.
    pub fn finish_call_text_argument_checkpoint(&mut self, id: u64) -> (r: Result<(), StepError>)
        ensures
            (final(self)@, form_resources::unit_result(r)) == arguments_closed(old(self)@, id),
    {
        let ghost form = self@;
        let escaped = "CALLSTR argument checkpoint escaped its user-call state";
        if !self.is_guarded(Some(id)) || self.work.len() == 0 {
            return Err(invalid_state(escaped));
        }
        assert(form.work.last() == self.work@.last()@);
        let ends = match &self.work[self.work.len() - 1] {
            RuntimeFormTask::FinishCallTextArgumentCatch(at) => *at == id,
            _ => false,
        };
        if !ends {
            return Err(invalid_state(escaped));
        }
        let _ = self.work.pop();
        let _ = self.checkpoints.pop();
        proof {
            assert(forms::task_views(self.work@) =~= form.work.drop_last());
            assert(self.checkpoints@ =~= form.checkpoints.drop_last());
        }
        Ok(())
    }

    /// Goes on with the arguments of a call.
    pub fn continue_method_arguments(&mut self, fiber: &Fiber, call: RuntimeUserCall) -> (r: Result<
        MethodAdvance,
        StepError,
    >)
        requires
            call@.specs.len() == call@.arguments.len(),
            call@.captured.len() <= call@.specs.len(),
            call@.next_slot <= call@.specs.len(),
        ensures
            (final(self)@, fault::outcome(r)) == call_continued(fiber@, old(self)@, call@),
    {
        let mut call = call.skip_passable();
        if call.next_slot < call.specs.len() {
            return self.advance_argument(call);
        }
        match call.argument_checkpoint {
            None => {},
            Some(id) => match self.finish_call_text_argument_checkpoint(id) {
                Err(e) => {
                    return Err(e);
                },
                Ok(_) => {
                    call.argument_checkpoint = None;
                },
            },
        }
        match form_support::owner_frame(fiber, self.frame) {
            Err(e) => Err(e),
            Ok(owner) => {
                assert(owner@.stack.len() == owner.stack@.len());
                Ok(MethodAdvance::Enter { call, owner_stack_depth: owner.stack.len() })
            },
        }
    }

    fn advance_argument(&mut self, call: RuntimeUserCall) -> (r: Result<MethodAdvance, StepError>)
        requires
            call@.specs.len() == call@.arguments.len(),
            call@.next_slot < call@.specs.len(),
        ensures
            match argument_advanced(old(self)@, call@) {
                (after, Ok(Advance::Scheduled)) => final(self)@ == after && fault::outcome(r)
                    == Ok::<Advanced, Failure>(Advanced::Scheduled),
                (after, Ok(Advance::Reference(c, v))) => final(self)@ == after && fault::outcome(r)
                    == Ok::<Advanced, Failure>(Advanced::Reference(c, v)),
                (after, Ok(Advance::Enter(_))) => false,
                (after, Err(e)) => final(self)@ == after && fault::outcome(r) == Err::<
                    Advanced,
                    Failure,
                >(e),
            },
    {
        let mut call = call;
        let slot: usize = call.next_slot;
        proof {
            assert(call@.call.bindings.len() == call.call.bindings@.len());
        }
        let reference = if slot < call.call.bindings.len() {
            assert(call@.call.bindings[slot as int] == call.call.bindings@[slot as int]@);
            match &call.call.bindings[slot] {
                UserArgumentBinding::ArrayReference => true,
                _ => false,
            }
        } else {
            false
        };
        if reference {
            return match call.specs[slot] {
                UserArgumentSpec::Variable(variable) => Ok(
                    MethodAdvance::Reference { call, variable },
                ),
                _ => Err(form_binding::bad_type("REF argument has no variable identity")),
            };
        }
        match call.take_argument() {
            None => Err(form_binding::bad_type("method actual expression is missing")),
            Some(e) => {
                self.push_task(RuntimeFormTask::CaptureMethodArgument(call));
                self.push_task(RuntimeFormTask::Evaluate(e));
                Ok(MethodAdvance::Scheduled)
            },
        }
    }

    /// Checks a stored call and goes on with its arguments.
    pub fn advance_method_arguments(
        &mut self,
        vm: &Vm,
        fiber: &Fiber,
        call: RuntimeUserCall,
        references: &Vec<bool>,
    ) -> (r: Result<MethodAdvance, StepError>)
        ensures
            (final(self)@, fault::outcome(r)) == call_advanced(
                vm@,
                fiber@,
                old(self)@,
                call@,
                references@,
            ),
    {
        match self.validate_method_call(vm, &call, false, references) {
            Err(e) => Err(e),
            Ok(_) => self.continue_method_arguments(fiber, call),
        }
    }

    /// Goes on with a call once the array of its current slot was captured.
    pub fn finish_reference_capture(
        &mut self,
        fiber: &Fiber,
        call: RuntimeUserCall,
        captured: Result<VmValue, VmError>,
    ) -> (r: Result<MethodAdvance, StepError>)
        requires
            call@.specs.len() == call@.arguments.len(),
            call@.captured.len() <= call@.specs.len(),
            call@.next_slot < call@.captured.len(),
        ensures
            (final(self)@, fault::outcome(r)) == reference_captured(
                fiber@,
                old(self)@,
                call@,
                fault::result(captured),
            ),
    {
        match captured {
            Err(e) => Err(fault::map_vm_error(e)),
            Ok(v) => {
                let mut call = call;
                call.set_captured(v);
                self.continue_method_arguments(fiber, call)
            },
        }
    }

    /// Notes the callee once it was entered.
    pub fn finish_entering(
        &mut self,
        fiber: &Fiber,
        call: RuntimeUserCall,
        owner_stack_depth: usize,
        entered: Result<(), VmError>,
    ) -> (r: Result<(), StepError>)
        ensures
            (final(self)@, form_resources::unit_result(r)) == callee_entered(
                fiber@,
                old(self)@,
                call@,
                owner_stack_depth,
                entry_result(entered),
            ),
    {
        match entered {
            Err(e) => {
                return Err(fault::map_vm_error(e));
            },
            Ok(_) => {},
        }
        if fiber.frames.len() == 0 {
            return Err(invalid_state("user-call did not create a callee"));
        }
        let callee = fiber.top().id;
        self.awaiting_user_call = Some(RuntimeUserWait { call, callee, owner_stack_depth });
        Ok(())
    }
}

/// A call goes on once the array of its current slot was captured.
pub open spec fn reference_captured(
    fiber: FiberModel,
    form: Form,
    call: UserCall,
    captured: Result<Val, Trouble>,
) -> (Form, Result<Advanced, Failure>) {
    match captured {
        Err(e) => (form, Err(fault::mapped(e))),
        Ok(v) => call_continued(fiber, form, captured_in(call, v)),
    }
}

pub open spec fn entry_result(r: Result<(), VmError>) -> Result<(), Trouble> {
    match r {
        Ok(_) => Ok(()),
        Err(e) => Err(e@),
    }
}

/// An evaluation waits for the callee that was entered.
pub open spec fn callee_entered(
    fiber: FiberModel,
    form: Form,
    call: UserCall,
    owner_stack_depth: usize,
    entered: Result<(), Trouble>,
) -> (Form, Result<(), Failure>) {
    match entered {
        Err(e) => (form, Err(fault::mapped(e))),
        Ok(_) => if fiber.frames.len() == 0 {
            (form, Err(Failure::invalid("user-call did not create a callee"@)))
        } else {
            (
                Form {
                    awaiting: Some(UserWait { call, callee: fiber.top().id, owner_stack_depth }),
                    ..form
                },
                Ok(()),
            )
        },
    }
}

/// A frame of a fiber has a number.
pub open spec fn has_frame(fiber: FiberModel, id: FrameId) -> bool {
    lookup::first_index(fiber.frames, state::frame_is(id)) is Some
}

/// The number of values that a call leaves on the stack of its owner.
pub open spec fn result_count(mode: UserCallMode) -> nat {
    if mode.expected() is Some {
        1
    } else {
        0
    }
}

/// The result of a callee is taken off the stack of its owner.
pub open spec fn wait_finished(vm: VmModel, fiber: FiberModel, form: Form, references: Seq<bool>) -> (
    FiberModel,
    Form,
    Result<(), Failure>,
) {
    match form.awaiting {
        None => (fiber, form, Err(Failure::invalid("form user wait is missing"@))),
        Some(wait) => if has_frame(fiber, wait.callee) {
            (fiber, form, Err(Failure::invalid("form resumed before its callee returned"@)))
        } else {
            match call_checked(vm, form, wait.call, false, references) {
                Err(e) => (fiber, form, Err(e)),
                Ok(_) => match form_support::owner_at(fiber, form.frame) {
                    Err(e) => (fiber, form, Err(e)),
                    Ok(i) => {
                        let owner = fiber.frames[i];
                        let stack = owner.stack;
                        if stack.len() != wait.owner_stack_depth + result_count(
                            wait.call.call.mode,
                        ) {
                            (
                                fiber,
                                form,
                                Err(Failure::invalid("form callee result boundary differs"@)),
                            )
                        } else {
                            match wait.call.call.mode.expected() {
                                None => (fiber, Form { awaiting: None, ..form }, Ok(())),
                                Some(expected) => {
                                    let popped = FiberModel {
                                        frames: fiber.frames.update(
                                            i,
                                            FrameModel { stack: stack.drop_last(), ..owner },
                                        ),
                                        ..fiber
                                    };
                                    if stack.last().value_type() != expected {
                                        (
                                            popped,
                                            form,
                                            Err(
                                                Failure::invalid(
                                                    "form callee result type differs"@,
                                                ),
                                            ),
                                        )
                                    } else {
                                        (
                                            popped,
                                            Form { awaiting: None, ..form }.with_value(
                                                stack.last(),
                                            ),
                                            Ok(()),
                                        )
                                    }
                                },
                            }
                        }
                    },
                },
            }
        },
    }
}

impl RuntimeFormContinuation {
    /// Takes the result of a callee that has returned.
    pub fn finish_user_wait(&mut self, vm: &Vm, fiber: &mut Fiber, references: &Vec<bool>) -> (r:
        Result<(), StepError>)
        ensures
            (final(fiber)@, final(self)@, form_resources::unit_result(r)) == wait_finished(
                vm@,
                old(fiber)@,
                old(self)@,
                references@,
            ),
    {
        let ghost form = self@;
        let (depth, expected): (usize, Option<BytecodeType>) = match &self.awaiting_user_call {
            None => {
                return Err(invalid_state("form user wait is missing"));
            },
            Some(wait) => {
                if places::find_frame(fiber, wait.callee).is_some() {
                    return Err(invalid_state("form resumed before its callee returned"));
                }
                match self.validate_method_call(vm, &wait.call, false, references) {
                    Err(e) => {
                        return Err(e);
                    },
                    Ok(_) => {},
                }
                (wait.owner_stack_depth, wait.call.call.mode.expected_result())
            },
        };
        let owner = match form_support::owner_frame_mut(fiber, self.frame) {
            Err(e) => {
                return Err(e);
            },
            Ok(f) => f,
        };
        let ghost stack = owner@.stack;
        assert(stack.len() == owner.stack@.len());
        let have: usize = owner.stack.len();
        let fits = match expected {
            Some(_) => have > 0 && have - 1 == depth,
            None => have == depth,
        };
        if !fits {
            return Err(invalid_state("form callee result boundary differs"));
        }
        match expected {
            None => {
                self.awaiting_user_call = None;
                Ok(())
            },
            Some(kind) => {
                let v = match owner.stack.pop() {
                    Some(v) => v,
                    None => {
                        return Err(invalid_state("form callee result is missing"));
                    },
                };
                proof {
                    assert(stack.last() == v@);
                    assert(value::vals(owner.stack@) =~= stack.drop_last());
                }
                if v.value_type() != kind {
                    return Err(invalid_state("form callee result type differs"));
                }
                self.awaiting_user_call = None;
                self.push_value(v);
                Ok(())
            },
        }
    }

    /// The frame that this evaluation waits for.
    pub fn expected_child(&self) -> (r: Option<FrameId>)
        ensures
            r == match self@.awaiting {
                Some(wait) => Some(wait.callee),
                None => None,
            },
    {
        match &self.awaiting_user_call {
            Some(wait) => Some(wait.callee),
            None => None,
        }
    }
}

/// Who entered a frame as a user function.
#[derive(Clone, Copy, PartialEq, Eq, Debug, Structural)]
pub struct UserFrameOrigin {
    pub caller: FrameId,
    pub mode: UserCallMode,
    /// The call was made by an evaluation, not by an instruction.
    pub runtime_form: bool,
}

/// A call may be made in its mode by an evaluation.
pub open spec fn mode_permitted(form: Form, mode: UserCallMode) -> bool {
    match mode {
        UserCallMode::Value(_) => true,
        UserCallMode::CallMethod => false,
        _ => match form.completion {
            RuntimeFormRoot::Call { spec, .. } => spec.mode() == mode,
            RuntimeFormRoot::Value(_) => false,
        },
    }
}

/// A frame is the callee that an evaluation waits for.
pub open spec fn is_child(form: Form, callee: FrameModel, origin: Option<UserFrameOrigin>) -> bool {
    match form.awaiting {
        None => false,
        Some(wait) => {
            &&& mode_permitted(form, wait.call.call.mode)
            &&& callee.id == wait.callee
            &&& callee.generation == wait.call.call.generation
            &&& callee.function == wait.call.call.function
            &&& origin is Some
            &&& origin->0.caller == form.frame
            &&& origin->0.mode == wait.call.call.mode
            &&& origin->0.runtime_form
        },
    }
}

/// The expressions that a call still holds stand in the source of its plan.
pub open spec fn sources_planned(form: Form, program: ProgramGeneration, call: UserCall) -> bool {
    forall|i: int|
        0 <= i < call.arguments.len() && (#[trigger] call.arguments[i]) is Some ==> form.plan_has(
            program,
            call.plan,
            call.arguments[i]->0,
        )
}

impl RuntimeFormContinuation {
    /// Tells whether a frame is the callee that this evaluation waits for.
    pub fn valid_child_call(&self, callee: &Frame, origin: Option<UserFrameOrigin>) -> (r: bool)
        ensures
            r == is_child(self@, callee@, origin),
    {
        let wait = match &self.awaiting_user_call {
            None => {
                return false;
            },
            Some(w) => w,
        };
        let mode = wait.call.call.mode;
        let permitted = match mode {
            UserCallMode::Value(_) => true,
            UserCallMode::CallMethod => false,
            _ => match self.completion {
                RuntimeFormRoot::Call { spec, .. } => spec.user_call_mode() == mode,
                RuntimeFormRoot::Value(_) => false,
            },
        };
        let known = match origin {
            None => false,
            Some(o) => o.caller == self.frame && o.mode == mode && o.runtime_form,
        };
        permitted && known && callee.id == wait.callee && callee.generation
            == wait.call.call.generation && callee.function == wait.call.call.function
    }

    /// Tells whether the expressions that a call still holds stand in the source of its plan.
    pub fn valid_method_sources(&self, program: &ProgramGeneration, call: &RuntimeUserCall) -> (r:
        bool)
        ensures
            r == sources_planned(self@, *program, call@),
    {
        let ghost all = call@.arguments;
        proof {
            ast::lemma_argument_trees(call.arguments@);
        }
        let mut i: usize = 0;
        while i < call.arguments.len()
            invariant
                i <= call.arguments.len(),
                all == call@.arguments,
                all.len() == call.arguments@.len(),
                forall|j: int|
                    0 <= j < all.len() ==> #[trigger] all[j] == ast::argument_tree(
                        call.arguments@[j],
                    ),
                forall|j: int|
                    0 <= j < i && (#[trigger] all[j]) is Some ==> self@.plan_has(
                        *program,
                        call@.plan,
                        all[j]->0,
                    ),
            decreases call.arguments.len() - i,
        {
            assert(all[i as int] == ast::argument_tree(call.arguments@[i as int]));
            match &call.arguments[i] {
                None => {},
                Some(e) => {
                    if !self.validate_planned_expression(program, call.plan, e) {
                        return false;
                    }
                },
            }
            i = i + 1;
        }
        true
    }
}

/// A callee that returned leaves the stack of its owner as it was when it was entered.
pub proof fn law_wait_is_balanced(
    vm: VmModel,
    fiber: FiberModel,
    form: Form,
    references: Seq<bool>,
)
    requires
        wait_finished(vm, fiber, form, references).2 is Ok,
    ensures
        ({
            let (after, evaluated, _) = wait_finished(vm, fiber, form, references);
            let i = form_support::owner_at(fiber, form.frame)->Ok_0;
            &&& evaluated.awaiting is None
            &&& after.frames[i].stack.len() == form.awaiting->0.owner_stack_depth
            &&& after.frames.len() == fiber.frames.len()
            &&& evaluated.values.len() == form.values.len() + result_count(
                form.awaiting->0.call.call.mode,
            )
        }),
{
    lookup::lemma_first_index(fiber.frames, state::frame_is(form.frame));
}

} // verus!
