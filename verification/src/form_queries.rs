//! Input queries, EXISTVAR and mutations in an evaluation.

use vstd::prelude::*;
use std::rc::Rc;
use crate::ast::{self, Expr, ExprKind, Tree, TreeKind};
use crate::basic;
use crate::bit_calls;
use crate::calls::{self, HostReply, ReplyModel};
use crate::existvar::{self, invalid};
use crate::fastpaths;
use crate::fault::{self, FaultCategory, Failure, ScriptFaultKind, StepError, VmFaultCode};
use crate::faults::{self, OriginModel};
use crate::form_binding;
use crate::form_checkpoints;
use crate::form_methods;
use crate::form_resources;
use crate::form_staged;
use crate::form_support;
use crate::form_typing;
use crate::forms::{
    Form, FormatCheckpointKind, InputOperation, RuntimeFormContinuation, RuntimeFormTask, Task,
    MAX_RUNTIME_FORM_NESTING,
};
use crate::lookup;
use crate::memory::BytecodeStorage;
use crate::named;
use crate::program::{BytecodeGlobal, ProgramGeneration, RuntimeImport};
use crate::services;
use crate::state::{
    At, Fiber, FiberModel, FiberState, FrameModel, HostWaitStability, InstructionPosition, Vm,
    VmExecutionOrigin, VmModel, WaitingHost,
};
use crate::text;
use crate::value::{self, BytecodeType, Place, PlaceDescriptor, SymbolKey, Val, VmValue};

verus! {

/// The types of values.
pub open spec fn value_types(values: Seq<Val>) -> Seq<BytecodeType> {
    values.map_values(|v: Val| v.value_type())
}

/// The types of values.
pub fn types_of(values: &Vec<VmValue>) -> (r: Vec<BytecodeType>)
    ensures
        r@ == value_types(value::vals(values@)),
{
    let ghost whole = value_types(value::vals(values@));
    let mut out: Vec<BytecodeType> = Vec::new();
    let mut i: usize = 0;
    assert(whole.take(0) =~= Seq::<BytecodeType>::empty());
    while i < values.len()
        invariant
            i <= values.len(),
            whole == value_types(value::vals(values@)),
            out@ == whole.take(i as int),
        decreases values.len() - i,
    {
        out.push(values[i].value_type());
        assert(whole.take(i + 1) =~= whole.take(i as int).push(whole[i as int]));
        i = i + 1;
    }
    assert(whole.take(i as int) =~= whole);
    out
}

/// The next step asks the input controller.
pub open spec fn next_is_input(form: Form) -> bool {
    form.awaiting is None && form.work.len() > 0 && match form.work.last() {
        Task::GateInputHost(_, _, _) => true,
        Task::FinishInputHost(_, _) => true,
        _ => false,
    }
}

/// A query of the input controller is scheduled; false where the name means something else.
pub open spec fn input_scheduled(
    vm: VmModel,
    form: Form,
    name: Seq<char>,
    arguments: Seq<Option<Tree>>,
) -> (Form, Result<bool, Failure>) {
    let supported = match vm.program(form.generation) {
        Some(program) => program.snake_input,
        None => false,
    };
    match form_binding::input_named(name) {
        None => (form, Ok(false)),
        Some(operation) => if !supported {
            (form, Ok(false))
        } else if operation is GetKey || operation is GetKeyTriggered {
            if arguments.len() != 1 || arguments[0] is None {
                (form, Err(Failure::invalid("GETKEY requires one key expression"@)))
            } else {
                match form.current_plan {
                    None => (form, Err(Failure::invalid("input query lacks its source plan"@))),
                    Some(plan) => (
                        form.with_task(
                            Task::GateInputHost(
                                plan,
                                arguments[0]->0,
                                operation is GetKeyTriggered,
                            ),
                        ),
                        Ok(true),
                    ),
                }
            }
        } else if form_typing::has_omitted(arguments) {
            (
                form,
                Err(Failure::invalid("input API cannot contain an interior omitted argument"@)),
            )
        } else {
            (
                form_support::with_tasks(
                    form.with_task(Task::FinishInputHost(operation, arguments.len() as usize)),
                    form_staged::present_tasks(arguments),
                ),
                Ok(true),
            )
        },
    }
}

/// A request to the input controller.
pub struct InputRequest {
    pub id: u64,
    pub import: Rc<RuntimeImport>,
    pub arguments: Vec<VmValue>,
    pub origin: Rc<VmExecutionOrigin>,
}

/// Mathematical content of an [`InputRequest`].
#[verifier::ext_equal]
pub struct AskedInput {
    pub id: u64,
    pub import: RuntimeImport,
    pub arguments: Seq<Val>,
    pub origin: OriginModel,
}

impl View for InputRequest {
    type V = AskedInput;

    open spec fn view(&self) -> AskedInput {
        AskedInput {
            id: self.id,
            import: *self.import,
            arguments: value::vals(self.arguments@),
            origin: self.origin@,
        }
    }
}

/// The instruction that an evaluation belongs to.
pub open spec fn opening(program: ProgramGeneration, form: Form) -> Option<At> {
    match program.spec_function(form.function) {
        None => None,
        Some(f) => if form.instruction < f.code@.len() {
            Some(
                At {
                    generation: form.generation,
                    function: form.function,
                    instruction: form.instruction,
                    variable: None,
                    opcode: f.code@[form.instruction as int].opcode,
                    payload: f.code@[form.instruction as int].payload@,
                },
            )
        } else {
            None
        },
    }
}

/// The input controller is asked; its result is read in a step of its own.
pub open spec fn input_asked(
    vm: VmModel,
    fiber: FiberModel,
    form: Form,
    calls: u32,
    operation: InputOperation,
    arguments: Seq<Val>,
    gate: Option<(Tree, bool)>,
) -> (VmModel, Form, u32, Result<AskedInput, Failure>) {
    match vm.program(form.generation) {
        None => (vm, form, calls, Err(Failure::invalid("input form generation missing"@))),
        Some(program) => if !program.snake_input {
            (
                vm,
                form,
                calls,
                Err(bit_calls::forbidden("snake input form API is unavailable"@)),
            )
        } else {
            let name = form_binding::input_text(operation);
            match lookup::first_index(
                program.host_imports@,
                form_binding::input_import(name, value_types(arguments)),
            ) {
                None => (
                    vm,
                    form,
                    calls,
                    Err(Failure::invalid("input form Host signature is absent"@)),
                ),
                Some(i) => match opening(program, form) {
                    None => (
                        vm,
                        form,
                        calls,
                        Err(Failure::invalid("input form root instruction missing"@)),
                    ),
                    Some(at) => match form_support::owner_at(fiber, form.frame) {
                        Err(e) => (vm, form, calls, Err(e)),
                        Ok(o) => {
                            let kept = vm.without_path_memo(fiber.id);
                            (
                                VmModel {
                                    next_request: kept.next_request.wrapping_add(1),
                                    ..kept
                                },
                                form.with_task(
                                    Task::ReadInputHost(
                                        fiber.frames[o].stack.len() as usize,
                                        gate,
                                    ),
                                ),
                                calls::counted(calls),
                                Ok(
                                    AskedInput {
                                        id: kept.next_request,
                                        import: *program.host_imports@[i].import,
                                        arguments,
                                        origin: faults::origin_of(vm, at, name),
                                    },
                                ),
                            )
                        },
                    },
                },
            }
        },
    }
}

/// The reply of the input controller is taken.
pub open spec fn input_replied(
    vm: VmModel,
    fiber: FiberModel,
    ask: AskedInput,
    reply: ReplyModel,
) -> (VmModel, FiberModel, Result<(), Failure>) {
    match reply {
        ReplyModel::Ready { value, writes } => {
            let step = services::taken(
                vm,
                fiber,
                Some(BytecodeType::Integer),
                value,
                writes,
                VmFaultCode::Host,
            );
            (
                step.0,
                step.1,
                match step.2 {
                    Ok(_) => Ok(()),
                    Err(e) => Err(e),
                },
            )
        },
        ReplyModel::Deferred => (
            vm,
            calls::waiting(
                fiber,
                ask.id,
                ask.import,
                ask.origin,
                HostWaitStability::Transient,
                Seq::empty(),
            ),
            Ok(()),
        ),
        ReplyModel::Pending { .. } => (
            vm,
            fiber,
            Err(
                Failure {
                    category: FaultCategory::HostContract,
                    code: VmFaultCode::Host,
                    message:
                        "input controller query cannot create an external or stable Host wait"@,
                },
            ),
        ),
        ReplyModel::Error(e) => (vm, fiber, Err(e)),
    }
}

/// The result of the input controller is read.
pub open spec fn input_read(
    fiber: FiberModel,
    form: Form,
    depth: nat,
    gate: Option<(Tree, bool)>,
) -> (FiberModel, Form, Result<(), Failure>) {
    match form_support::owner_at(fiber, form.frame) {
        Err(e) => (fiber, form, Err(e)),
        Ok(i) => {
            let owner = fiber.frames[i];
            if owner.stack.len() != depth + 1 {
                (fiber, form, Err(Failure::invalid("input Host result stack differs"@)))
            } else {
                let rest = FiberModel {
                    frames: fiber.frames.update(
                        i,
                        FrameModel { stack: owner.stack.drop_last(), ..owner },
                    ),
                    ..fiber
                };
                match (owner.stack.last(), gate) {
                    (Val::Integer(n), None) => (rest, form.with_value(Val::Integer(n)), Ok(())),
                    (Val::Integer(n), Some((key, triggered))) => if n == 0 {
                        (rest, form.with_value(Val::Integer(0)), Ok(()))
                    } else if n == 1 {
                        (
                            rest,
                            form.with_task(
                                Task::FinishInputHost(
                                    if triggered {
                                        InputOperation::GetKeyTriggered
                                    } else {
                                        InputOperation::GetKey
                                    },
                                    1,
                                ),
                            ).with_task(Task::Evaluate(key)),
                            Ok(()),
                        )
                    } else {
                        (rest, form, Err(Failure::invalid("input active gate is not boolean"@)))
                    },
                    _ => (rest, form, Err(Failure::invalid("input Host result is not Integer"@))),
                }
            }
        },
    }
}

impl RuntimeFormContinuation {
    /// Tells whether the next step asks the input controller.
    pub fn next_step_calls_input_host(&self) -> (r: bool)
        ensures
            r == next_is_input(self@),
    {
        assert(self@.work.len() == self.work@.len());
        if self.awaiting_user_call.is_some() || self.work.len() == 0 {
            return false;
        }
        assert(self@.work.last() == self.work@.last()@);
        match &self.work[self.work.len() - 1] {
            RuntimeFormTask::GateInputHost { .. } => true,
            RuntimeFormTask::FinishInputHost { .. } => true,
            _ => false,
        }
    }

    /// Schedules a query of the input controller; false where the name means something else.
    pub fn schedule_input_host(
        &mut self,
        vm: &Vm,
        name: &str,
        arguments: &Vec<Option<Rc<Expr>>>,
    ) -> (r: Result<bool, StepError>)
        ensures
            (final(self)@, form_methods::bool_result(r)) == input_scheduled(
                vm@,
                old(self)@,
                name@,
                ast::argument_trees(arguments@),
            ),
    {
        proof {
            ast::lemma_argument_trees(arguments@);
        }
        let supported = match vm.program(self.generation) {
            Some(p) => p.snake_input,
            None => false,
        };
        let operation = match form_binding::allowed(name) {
            None => {
                return Ok(false);
            },
            Some(o) => o,
        };
        if !supported {
            return Ok(false);
        }
        let triggered = operation == InputOperation::GetKeyTriggered;
        if triggered || operation == InputOperation::GetKey {
            if arguments.len() != 1 {
                return Err(invalid("GETKEY requires one key expression"));
            }
            match &arguments[0] {
                None => {
                    return Err(invalid("GETKEY requires one key expression"));
                },
                Some(key) => match self.current_call_plan {
                    None => {
                        return Err(invalid("input query lacks its source plan"));
                    },
                    Some(plan) => {
                        self.push_task(
                            RuntimeFormTask::GateInputHost { plan, key: key.clone(), triggered },
                        );
                    },
                },
            }
            return Ok(true);
        }
        if form_typing::any_omitted(arguments) {
            return Err(invalid("input API cannot contain an interior omitted argument"));
        }
        self.push_task(RuntimeFormTask::FinishInputHost { operation, count: arguments.len() });
        self.push_present(arguments);
        Ok(true)
    }

    /// Asks the input controller; its result is read in a step of its own.
    pub fn call_input_host(
        &mut self,
        vm: &mut Vm,
        fiber: &Fiber,
        host_calls: &mut u32,
        operation: InputOperation,
        arguments: Vec<VmValue>,
        gate: Option<(Rc<Expr>, bool)>,
    ) -> (r: Result<InputRequest, StepError>)
        ensures
            (final(vm)@, final(self)@, *final(host_calls), fault::outcome(r)) == input_asked(
                old(vm)@,
                fiber@,
                old(self)@,
                *old(host_calls),
                operation,
                value::vals(arguments@),
                crate::forms::gate_view(gate),
            ),
    {
        let program = match vm.program(self.generation) {
            None => {
                return Err(invalid("input form generation missing"));
            },
            Some(p) => p,
        };
        if !program.snake_input {
            return Err(form_binding::permission_denied("snake input form API is unavailable"));
        }
        let name = form_binding::input_name(operation);
        let types = types_of(&arguments);
        let import = match form_binding::find_input_import(&program, name, &types) {
            None => {
                return Err(invalid("input form Host signature is absent"));
            },
            Some(h) => h.import.clone(),
        };
        let missing = "input form root instruction missing";
        let function = match program.function(self.function) {
            None => {
                return Err(invalid(missing));
            },
            Some(f) => f,
        };
        if self.instruction >= function.code.len() {
            return Err(invalid(missing));
        }
        let start = &function.code[self.instruction];
        let position = InstructionPosition {
            generation: self.generation,
            function: self.function,
            instruction: self.instruction,
            variable: None,
            opcode: start.opcode,
            payload: start.payload.as_slice(),
        };
        let origin = vm.execution_origin(&position, name);
        let owner = match form_support::owner_frame(fiber, self.frame) {
            Err(e) => {
                return Err(e);
            },
            Ok(f) => f,
        };
        assert(owner@.stack.len() == owner.stack@.len());
        let depth: usize = owner.stack.len();
        self.push_task(RuntimeFormTask::ReadInputHost { depth, gate });
        vm.invalidate_path_memo(fiber.id);
        let id: u64 = vm.allocate_request_id();
        calls::count_call(host_calls);
        Ok(InputRequest { id, import, arguments, origin: Rc::new(origin) })
    }

    /// Reads the result of the input controller.
    pub fn read_input_host(
        &mut self,
        fiber: &mut Fiber,
        depth: usize,
        gate: Option<(Rc<Expr>, bool)>,
    ) -> (r: Result<(), StepError>)
        ensures
            (final(fiber)@, final(self)@, form_resources::unit_result(r)) == input_read(
                old(fiber)@,
                old(self)@,
                depth as nat,
                crate::forms::gate_view(gate),
            ),
    {
        let owner = match form_support::owner_frame_mut(fiber, self.frame) {
            Err(e) => {
                return Err(e);
            },
            Ok(f) => f,
        };
        let ghost stack = owner@.stack;
        assert(stack.len() == owner.stack@.len());
        let have: usize = owner.stack.len();
        if have == 0 || have - 1 != depth {
            return Err(invalid("input Host result stack differs"));
        }
        let taken = owner.stack.pop();
        assert(value::vals(owner.stack@) =~= stack.drop_last());
        assert(taken is Some && taken->0@ == stack.last());
        let n: i64 = match taken {
            Some(VmValue::Integer(n)) => n,
            _ => {
                return Err(invalid("input Host result is not Integer"));
            },
        };
        match gate {
            None => {
                self.push_value(VmValue::Integer(n));
            },
            Some((key, triggered)) => {
                if n == 0 {
                    self.push_value(VmValue::Integer(0));
                } else if n == 1 {
                    let operation = if triggered {
                        InputOperation::GetKeyTriggered
                    } else {
                        InputOperation::GetKey
                    };
                    self.push_task(RuntimeFormTask::FinishInputHost { operation, count: 1 });
                    self.push_task(RuntimeFormTask::Evaluate(key));
                } else {
                    return Err(invalid("input active gate is not boolean"));
                }
            },
        }
        Ok(())
    }
}

/// Takes the reply of the input controller.
pub fn take_input_reply(vm: &mut Vm, fiber: &mut Fiber, ask: InputRequest, reply: HostReply) -> (r: Result<
    (),
    StepError,
>)
    requires
        old(fiber)@.frames.len() > 0,
    ensures
        (final(vm)@, final(fiber)@, form_resources::unit_result(r)) == input_replied(
            old(vm)@,
            old(fiber)@,
            ask@,
            reply@,
        ),
{
    match reply {
        HostReply::Ready(ready) => {
            match vm.take_reply(fiber, Some(BytecodeType::Integer), ready, VmFaultCode::Host) {
                Ok(_) => Ok(()),
                Err(e) => Err(e),
            }
        },
        HostReply::Deferred => {
            let result = ask.import.result;
            let rebind_payload: Vec<u8> = Vec::new();
            assert(rebind_payload@ =~= Seq::<u8>::empty());
            fiber.state = FiberState::WaitingHost(
                WaitingHost {
                    request: ask.id,
                    import: ask.import,
                    result,
                    stability: HostWaitStability::Transient,
                    rebind_payload,
                    origin: ask.origin,
                },
            );
            Ok(())
        },
        HostReply::Pending { .. } => Err(
            StepError::classified(
                FaultCategory::HostContract,
                VmFaultCode::Host,
                "input controller query cannot create an external or stable Host wait",
            ),
        ),
        HostReply::Error(e) => Err(e),
    }
}

/// EXISTVAR is scheduled; its name is evaluated first.
pub open spec fn existvar_scheduled(form: Form, arguments: Seq<Option<Tree>>) -> (
    Form,
    Result<(), Failure>,
) {
    match (form_methods::nth(arguments, 0), form.current_plan) {
        (Some(source), Some(plan)) => (
            form.with_task(
                Task::ExistVarFirst(plan, source, form_methods::nth(arguments, 1)),
            ).with_task(Task::Evaluate(source)),
            Ok(()),
        ),
        _ => (form, Err(Failure::invalid("validated EXISTVAR source missing"@))),
    }
}

/// EXISTVAR looks its name up; its mode is evaluated next, where it has one.
pub open spec fn existvar_looked_up(
    vm: VmModel,
    form: Form,
    plan: u64,
    source: Tree,
    mode: Option<Tree>,
) -> (Form, Result<(), Failure>) {
    match form_support::popped(form, "EXISTVAR first source missing"@) {
        (after, Err(e)) => (after, Err(e)),
        (after, Ok(Val::Text(name))) => match existvar::flags_of(
            vm,
            form.generation,
            form.function,
            name,
        ) {
            Err(e) => (after, Err(e)),
            Ok(flags) => {
                let known = after.with_value(Val::Integer(flags));
                (
                    match mode {
                        None => known,
                        Some(m) => known.with_task(Task::ExistVarMode(plan, source)).with_task(
                            Task::Evaluate(m),
                        ),
                    },
                    Ok(()),
                )
            },
        },
        (after, Ok(_)) => (after, Err(Failure::invalid("EXISTVAR first source type changed"@))),
    }
}

/// The mode of EXISTVAR is known: with zero the flags stay, else the source is evaluated again
/// inside a boundary.
pub open spec fn existvar_switched(vm: VmModel, fiber: FiberModel, form: Form, source: Tree) -> (
    Form,
    Result<(), Failure>,
) {
    match form_support::popped_integer(form, "EXISTVAR mode missing"@) {
        (after, Err(e)) => (after, Err(e)),
        (after, Ok(mode)) => if mode == 0 {
            (after, Ok(()))
        } else {
            match form_support::popped_integer(after, "EXISTVAR first lookup result missing"@) {
                (rest, Err(e)) => (rest, Err(e)),
                (rest, Ok(_)) => match vm.program(form.generation) {
                    None => (
                        rest,
                        Err(Failure::of(VmFaultCode::MissingSymbol, "probe generation missing"@)),
                    ),
                    Some(program) => if !program.existvar_expression_probe {
                        (
                            rest,
                            Err(bit_calls::forbidden("EXISTVAR expression mode unavailable"@)),
                        )
                    } else if rest.checkpoints.len() >= MAX_RUNTIME_FORM_NESTING {
                        (
                            rest,
                            Err(
                                form_resources::resource_failure(
                                    "EXISTVAR checkpoint nesting limit"@,
                                ),
                            ),
                        )
                    } else {
                        match form_checkpoints::opened(
                            rest,
                            fiber,
                            FormatCheckpointKind::ExpressionProbe,
                            "probe identity exhausted"@,
                        ) {
                            (open, Err(e)) => (open, Err(e)),
                            (open, Ok(_)) => (open.with_task(Task::Evaluate(source)), Ok(())),
                        }
                    },
                },
            }
        },
    }
}

/// The source of EXISTVAR is to be parsed; its end marker stays while that is done.
pub open spec fn probe_begun(form: Form, id: u64) -> (Form, Result<Seq<char>, Failure>) {
    if form.values.len() == 0 || !(form.values.last() is Text) {
        (form, Err(Failure::invalid("EXISTVAR second source missing"@)))
    } else {
        let source = form.values.last()->Text_0;
        if form_resources::size(source) > form.remaining_bytes {
            (
                form,
                Err(
                    form_resources::resource_failure(
                        "EXISTVAR repeated sources exceed parser limit"@,
                    ),
                ),
            )
        } else {
            (
                Form {
                    remaining_bytes: (form.remaining_bytes - form_resources::size(source)) as usize,
                    ..form
                }.with_task(Task::FinishExpressionProbe(id)),
                Ok(source),
            )
        }
    }
}

/// An evaluation without its next step.
pub open spec fn without_task(form: Form) -> Form {
    if form.work.len() == 0 {
        form
    } else {
        Form { work: form.work.drop_last(), ..form }
    }
}

/// The source of EXISTVAR was parsed.
pub open spec fn probe_ended(form: Form, id: u64, probe: Result<(), Failure>) -> (
    Form,
    Result<(), Failure>,
) {
    match probe {
        Err(e) => (form, Err(e)),
        Ok(_) => form_checkpoints::check_finished(without_task(form), id),
    }
}

impl RuntimeFormContinuation {
    /// Schedules EXISTVAR; its name is evaluated first.
    pub fn schedule_existvar(&mut self, arguments: &Vec<Option<Rc<Expr>>>) -> (r: Result<
        (),
        StepError,
    >)
        ensures
            (final(self)@, form_resources::unit_result(r)) == existvar_scheduled(
                old(self)@,
                ast::argument_trees(arguments@),
            ),
    {
        let missing = "validated EXISTVAR source missing";
        let source = match form_methods::nth_argument(arguments, 0) {
            None => {
                return Err(invalid(missing));
            },
            Some(e) => e,
        };
        let plan: u64 = match self.current_call_plan {
            None => {
                return Err(invalid(missing));
            },
            Some(p) => p,
        };
        let mode = form_methods::nth_argument(arguments, 1);
        self.push_task(RuntimeFormTask::ExistVarFirst { plan, source: source.clone(), mode });
        self.push_task(RuntimeFormTask::Evaluate(source));
        Ok(())
    }

    /// Looks the name of EXISTVAR up.
    pub fn existvar_first(
        &mut self,
        vm: &Vm,
        plan: u64,
        source: Rc<Expr>,
        mode: Option<Rc<Expr>>,
    ) -> (r: Result<(), StepError>)
        ensures
            (final(self)@, form_resources::unit_result(r)) == existvar_looked_up(
                vm@,
                old(self)@,
                plan,
                source@,
                ast::argument_tree(mode),
            ),
    {
        let name = match self.pop_value("EXISTVAR first source missing") {
            Err(e) => {
                return Err(e);
            },
            Ok(VmValue::String(s)) => s,
            Ok(_) => {
                return Err(invalid("EXISTVAR first source type changed"));
            },
        };
        let flags: i64 = match existvar::variable_name_flags(
            vm,
            self.generation,
            self.function,
            name.as_str(),
        ) {
            Err(e) => {
                return Err(e);
            },
            Ok(n) => n,
        };
        self.push_value(VmValue::Integer(flags));
        match mode {
            None => {},
            Some(m) => {
                self.push_task(RuntimeFormTask::ExistVarMode { plan, source });
                self.push_task(RuntimeFormTask::Evaluate(m));
            },
        }
        Ok(())
    }

    /// Takes the mode of EXISTVAR.
    pub fn existvar_mode(&mut self, vm: &Vm, fiber: &Fiber, source: Rc<Expr>) -> (r: Result<
        (),
        StepError,
    >)
        ensures
            (final(self)@, form_resources::unit_result(r)) == existvar_switched(
                vm@,
                fiber@,
                old(self)@,
                source@,
            ),
    {
        let mode: i64 = match self.pop_integer("EXISTVAR mode missing") {
            Err(e) => {
                return Err(e);
            },
            Ok(n) => n,
        };
        if mode == 0 {
            return Ok(());
        }
        match self.pop_integer("EXISTVAR first lookup result missing") {
            Err(e) => {
                return Err(e);
            },
            Ok(_) => {},
        }
        let supported = match vm.program(self.generation) {
            None => {
                return Err(StepError::new(VmFaultCode::MissingSymbol, "probe generation missing"));
            },
            Some(p) => p.existvar_expression_probe,
        };
        if !supported {
            return Err(form_binding::permission_denied("EXISTVAR expression mode unavailable"));
        }
        if self.checkpoints.len() >= MAX_RUNTIME_FORM_NESTING {
            return Err(form_resources::resource_limit("EXISTVAR checkpoint nesting limit"));
        }
        match self.open_checkpoint(
            fiber,
            FormatCheckpointKind::ExpressionProbe,
            "probe identity exhausted",
        ) {
            Err(e) => {
                return Err(e);
            },
            Ok(_) => {},
        }
        self.push_task(RuntimeFormTask::Evaluate(source));
        Ok(())
    }

    /// Gives the source of EXISTVAR that is to be parsed; its end marker stays while that is done.
    pub fn begin_expression_probe(&mut self, id: u64) -> (r: Result<String, StepError>)
        ensures
            (final(self)@, fault::outcome(r)) == probe_begun(old(self)@, id),
    {
        let missing = "EXISTVAR second source missing";
        if self.values.len() == 0 {
            return Err(invalid(missing));
        }
        assert(self@.values.last() == self.values@.last()@);
        let source = match &self.values[self.values.len() - 1] {
            VmValue::String(s) => s.clone(),
            _ => {
                return Err(invalid(missing));
            },
        };
        let bytes: usize = form_resources::byte_count(source.as_str());
        if bytes > self.remaining_source_bytes {
            return Err(
                form_resources::resource_limit("EXISTVAR repeated sources exceed parser limit"),
            );
        }
        self.remaining_source_bytes = self.remaining_source_bytes - bytes;
        self.push_task(RuntimeFormTask::FinishExpressionProbe(id));
        Ok(source)
    }

    /// Ends EXISTVAR with what parsing its source came to.
    pub fn finish_expression_probe(&mut self, id: u64, probe: Result<(), StepError>) -> (r: Result<
        (),
        StepError,
    >)
        ensures
            (final(self)@, form_resources::unit_result(r)) == probe_ended(
                old(self)@,
                id,
                form_resources::unit_result(probe),
            ),
    {
        match probe {
            Err(e) => Err(e),
            Ok(_) => {
                let ghost work = self@.work;
                let _ = self.work.pop();
                proof {
                    assert(work.len() == old(self).work@.len());
                    if work.len() > 0 {
                        assert(crate::forms::task_views(self.work@) =~= work.drop_last());
                    }
                }
                self.finish_checked_form(id)
            },
        }
    }
}

/// The variable and the indices of an increment or decrement.
pub open spec fn mutation_of(form: Form, program: ProgramGeneration, t: Tree, depth: nat) -> Result<
    (SymbolKey, Seq<Tree>),
    Failure,
>
    decreases t,
{
    if depth > MAX_RUNTIME_FORM_NESTING {
        Err(form_resources::resource_failure("mutation operand nesting limit"@))
    } else {
        match t.kind {
            TreeKind::Group(inner) => mutation_of(form, program, *inner, depth + 1),
            TreeKind::Identifier(name) => mutation_checked(form, program, name, Seq::empty()),
            TreeKind::Variable(name, indices) => mutation_checked(form, program, name, indices),
            _ => Err(
                form_binding::argument_failure(
                    "increment/decrement operand must be a mutable integer variable"@,
                ),
            ),
        }
    }
}

/// The room for indices of a variable.
pub open spec fn index_room(g: BytecodeGlobal) -> nat {
    g.dimensions@.len() + (if g.storage is Character {
        1nat
    } else {
        0
    })
}

/// A variable can be incremented with some indices.
pub open spec fn mutation_checked(
    form: Form,
    program: ProgramGeneration,
    name: Seq<char>,
    indices: Seq<Tree>,
) -> Result<(SymbolKey, Seq<Tree>), Failure> {
    match program.spec_scoped_variable(form.function, name) {
        None => Err(
            Failure::script(
                ScriptFaultKind::Resolve,
                VmFaultCode::MissingSymbol,
                "mutation variable "@ + name + " is missing"@,
            ),
        ),
        Some(g) => if !g.mutable || g.value_type != BytecodeType::Integer {
            Err(
                form_binding::argument_failure(
                    "increment/decrement operand is not a writable integer place"@,
                ),
            )
        } else if indices.len() > index_room(*g) {
            Err(
                Failure::script(
                    ScriptFaultKind::Argument,
                    VmFaultCode::Bounds,
                    "mutation index count exceeds variable rank"@,
                ),
            )
        } else {
            match indices_typed(form, indices) {
                Err(e) => Err(e),
                Ok(_) => Ok((g.key, indices)),
            }
        },
    }
}

/// Every index is an integer in the current plan.
pub open spec fn indices_typed(form: Form, indices: Seq<Tree>) -> Result<(), Failure>
    decreases indices.len(),
{
    if indices.len() == 0 {
        Ok(())
    } else {
        match indices_typed(form, indices.drop_last()) {
            Err(e) => Err(e),
            Ok(_) => match current_type(form, indices.last()) {
                Err(e) => Err(e),
                Ok(kind) => if kind is Integer {
                    Ok(())
                } else {
                    Err(form_binding::argument_failure("mutation index must be an integer"@))
                },
            },
        }
    }
}

/// The type of an expression in the current plan.
pub open spec fn current_type(form: Form, t: Tree) -> Result<BytecodeType, Failure> {
    match form.current_plan {
        None => Err(Failure::invalid("runtime expression lost its analyzed type"@)),
        Some(plan) => form.planned_type(plan, t),
    }
}

/// An increment or decrement is scheduled.
pub open spec fn mutation_scheduled(vm: VmModel, form: Form, operand: Tree, mode: u8) -> (
    Form,
    Result<(), Failure>,
) {
    match vm.program(form.generation) {
        None => (form, Err(Failure::invalid("mutation generation is missing"@))),
        Some(program) => match mutation_of(form, program, operand, 0) {
            Err(e) => (form, Err(e)),
            Ok((variable, indices)) => (
                form_support::with_tasks(
                    form.with_task(Task::MutateVariable(variable, indices.len() as usize, mode)),
                    form_support::index_tasks(indices),
                ),
                Ok(()),
            ),
        },
    }
}

/// A stored increment or decrement is one that can be scheduled.
pub open spec fn mutation_valid(vm: VmModel, form: Form, variable: SymbolKey, indices: nat, mode: u8) -> bool {
    match vm.program(form.generation) {
        None => false,
        Some(program) => match program.spec_global(variable) {
            None => false,
            Some(g) => {
                &&& mode <= 3
                &&& g.mutable
                &&& g.value_type is Integer
                &&& match program.spec_scoped_variable(form.function, g.name@) {
                    Some(s) => s.key == variable,
                    None => false,
                }
                &&& indices <= index_room(*g)
            },
        },
    }
}

/// An increment or decrement takes its indices; the place is changed next.
pub open spec fn mutation_begun(
    vm: VmModel,
    fiber: FiberModel,
    form: Form,
    variable: SymbolKey,
    count: nat,
    mode: u8,
) -> (Form, Result<Place, Failure>) {
    if !mutation_valid(vm, form, variable, count, mode) || fiber.frames.len() == 0
        || fiber.frames.last().id != form.frame {
        (
            form,
            Err(Failure::invalid("stored mutation task has an invalid symbol/mode/owner"@)),
        )
    } else {
        let program = vm.program(form.generation)->0;
        let g = *program.spec_global(variable)->0;
        match form_support::indices_taken(form, count) {
            (after, Err(e)) => (after, Err(e)),
            (after, Ok(indices)) => {
                let (character, kept) = basic::split_indices(
                    g,
                    indices,
                    named::target_character(vm, form.generation),
                );
                (
                    after,
                    Ok(
                        Place {
                            backing: None,
                            variable,
                            indices: kept,
                            character,
                            fiber: Some(fiber.id),
                            frame: fastpaths::own_frame(g, form.frame),
                        },
                    ),
                )
            },
        }
    }
}

/// The new value of a changed place is put on the value stack.
pub open spec fn mutation_ended(form: Form, reply: Result<Val, Failure>) -> (
    Form,
    Result<(), Failure>,
) {
    match reply {
        Err(e) => (form, Err(e)),
        Ok(v) => (form.with_value(v), Ok(())),
    }
}

/// What the search for a mutable variable found.
pub open spec fn mutation_view(r: Result<(SymbolKey, Vec<Rc<Expr>>), StepError>) -> Result<
    (SymbolKey, Seq<Tree>),
    Failure,
> {
    match r {
        Ok((k, indices)) => Ok((k, ast::trees(indices@))),
        Err(e) => Err(e@),
    }
}

proof fn lemma_typed_stop(form: Form, indices: Seq<Tree>, k: int)
    requires
        0 <= k <= indices.len(),
        indices_typed(form, indices.take(k)) is Err,
    ensures
        indices_typed(form, indices) == indices_typed(form, indices.take(k)),
    decreases indices.len() - k,
{
    if k < indices.len() {
        assert(indices.take(k + 1).drop_last() =~= indices.take(k));
        lemma_typed_stop(form, indices, k + 1);
    } else {
        assert(indices.take(k) =~= indices);
    }
}

impl RuntimeFormContinuation {
    fn check_index_types(&self, indices: &Vec<Rc<Expr>>) -> (r: Result<(), StepError>)
        ensures
            form_resources::unit_result(r) == indices_typed(self@, ast::trees(indices@)),
    {
        let ghost all = ast::trees(indices@);
        proof {
            ast::lemma_trees(indices@);
            assert(all.take(0) =~= Seq::<Tree>::empty());
        }
        let mut i: usize = 0;
        while i < indices.len()
            invariant
                i <= indices.len(),
                all == ast::trees(indices@),
                all.len() == indices@.len(),
                forall|j: int|
                    0 <= j < indices@.len() ==> #[trigger] all[j] == ast::tree(*indices@[j]),
                indices_typed(self@, all.take(i as int)) == Ok::<(), Failure>(()),
            decreases indices.len() - i,
        {
            proof {
                assert(all.take(i + 1).drop_last() =~= all.take(i as int));
                assert(all.take(i + 1).last() == indices@[i as int]@);
            }
            let found = match self.current_call_plan {
                None => Err(invalid("runtime expression lost its analyzed type")),
                Some(plan) => self.planned_expression_type(plan, &indices[i]),
            };
            match found {
                Err(e) => {
                    proof {
                        lemma_typed_stop(self@, all, i + 1);
                    }
                    return Err(e);
                },
                Ok(kind) => {
                    if kind != BytecodeType::Integer {
                        proof {
                            lemma_typed_stop(self@, all, i + 1);
                        }
                        return Err(form_binding::bad_type("mutation index must be an integer"));
                    }
                },
            }
            i = i + 1;
        }
        assert(all.take(i as int) =~= all);
        Ok(())
    }

    fn check_mutation(&self, program: &ProgramGeneration, name: &str, indices: Vec<Rc<Expr>>) -> (r:
        Result<(SymbolKey, Vec<Rc<Expr>>), StepError>)
        ensures
            mutation_view(r) == mutation_checked(self@, *program, name@, ast::trees(indices@)),
    {
        proof {
            ast::lemma_trees(indices@);
        }
        let g = match program.scoped_variable(self.function, name) {
            None => {
                let message = text::join3("mutation variable ", name, " is missing");
                return Err(
                    StepError::script(
                        ScriptFaultKind::Resolve,
                        VmFaultCode::MissingSymbol,
                        message.as_str(),
                    ),
                );
            },
            Some(g) => g,
        };
        if !g.mutable || g.value_type != BytecodeType::Integer {
            return Err(
                form_binding::bad_type(
                    "increment/decrement operand is not a writable integer place",
                ),
            );
        }
        let given: usize = indices.len();
        let rank: usize = g.dimensions.len();
        let character = g.storage == BytecodeStorage::Character;
        if given > rank && !(character && given - rank == 1) {
            return Err(
                StepError::script(
                    ScriptFaultKind::Argument,
                    VmFaultCode::Bounds,
                    "mutation index count exceeds variable rank",
                ),
            );
        }
        match self.check_index_types(&indices) {
            Err(e) => Err(e),
            Ok(_) => Ok((g.key, indices)),
        }
    }

    /// The variable and the indices of an increment or decrement.
    pub fn mutation_variable(&self, program: &ProgramGeneration, operand: &Rc<Expr>, depth: usize) -> (r:
        Result<(SymbolKey, Vec<Rc<Expr>>), StepError>)
        ensures
            mutation_view(r) == mutation_of(self@, *program, operand@, depth as nat),
        decreases operand,
    {
        if depth > MAX_RUNTIME_FORM_NESTING {
            return Err(form_resources::resource_limit("mutation operand nesting limit"));
        }
        match &operand.kind {
            ExprKind::Group(inner) => self.mutation_variable(program, inner, depth + 1),
            ExprKind::Identifier(name) => {
                let none: Vec<Rc<Expr>> = Vec::new();
                proof {
                    ast::lemma_trees(none@);
                    assert(ast::trees(none@) =~= Seq::<Tree>::empty());
                }
                self.check_mutation(program, name.as_str(), none)
            },
            ExprKind::Variable { name, indices } => self.check_mutation(
                program,
                name.as_str(),
                ast::copy_list(indices),
            ),
            _ => Err(
                form_binding::bad_type(
                    "increment/decrement operand must be a mutable integer variable",
                ),
            ),
        }
    }

    /// Schedules an increment or decrement; its indices are evaluated first.
    pub fn schedule_integer_mutation(&mut self, vm: &Vm, operand: &Rc<Expr>, mode: u8) -> (r: Result<
        (),
        StepError,
    >)
        ensures
            (final(self)@, form_resources::unit_result(r)) == mutation_scheduled(
                vm@,
                old(self)@,
                operand@,
                mode,
            ),
    {
        let program = match vm.program(self.generation) {
            None => {
                return Err(invalid("mutation generation is missing"));
            },
            Some(p) => p,
        };
        match self.mutation_variable(&program, operand, 0) {
            Err(e) => Err(e),
            Ok((variable, indices)) => {
                proof {
                    ast::lemma_trees(indices@);
                }
                self.push_task(
                    RuntimeFormTask::MutateVariable { variable, indices: indices.len(), mode },
                );
                self.push_indices(&indices);
                Ok(())
            },
        }
    }

    /// Tells whether a stored increment or decrement is one that can be scheduled.
    pub fn valid_mutation_task(&self, vm: &Vm, variable: SymbolKey, indices: usize, mode: u8) -> (r: bool)
        ensures
            r == mutation_valid(vm@, self@, variable, indices as nat, mode),
    {
        let program = match vm.program(self.generation) {
            None => {
                return false;
            },
            Some(p) => p,
        };
        let g = match program.global(variable) {
            None => {
                return false;
            },
            Some(g) => g,
        };
        let scoped = match program.scoped_variable(self.function, g.name.as_str()) {
            Some(s) => s.key == variable,
            None => false,
        };
        let rank: usize = g.dimensions.len();
        let fits = indices <= rank || (g.storage == BytecodeStorage::Character && indices - rank
            == 1);
        mode <= 3 && g.mutable && g.value_type == BytecodeType::Integer && scoped && fits
    }

    /// Takes the indices of an increment or decrement, and gives the place that is changed next.
    pub fn begin_mutation(
        &mut self,
        vm: &Vm,
        fiber: &Fiber,
        variable: SymbolKey,
        count: usize,
        mode: u8,
    ) -> (r: Result<PlaceDescriptor, StepError>)
        ensures
            (final(self)@, fault::outcome(r)) == mutation_begun(
                vm@,
                fiber@,
                old(self)@,
                variable,
                count as nat,
                mode,
            ),
    {
        let wrong = "stored mutation task has an invalid symbol/mode/owner";
        if !self.valid_mutation_task(vm, variable, count, mode) {
            return Err(invalid(wrong));
        }
        assert(fiber@.frames.len() == fiber.frames@.len());
        if fiber.frames.len() == 0 {
            return Err(invalid(wrong));
        }
        assert(fiber@.frames.last() == fiber.frames@.last()@);
        if fiber.frames[fiber.frames.len() - 1].id != self.frame {
            return Err(invalid(wrong));
        }
        let indices = match self.take_indices(count) {
            Err(e) => {
                return Err(e);
            },
            Ok(v) => v,
        };
        let program = match vm.program(self.generation) {
            None => {
                return Err(invalid("mutation generation is missing"));
            },
            Some(p) => p,
        };
        let g = match program.global(variable) {
            None => {
                return Err(invalid("mutation variable disappeared"));
            },
            Some(g) => g,
        };
        let target: u64 = vm.target_character_for_generation(self.generation);
        let (character, kept) = form_support::split(g, indices, target);
        Ok(
            PlaceDescriptor {
                backing: None,
                variable,
                indices: kept,
                character,
                fiber: Some(fiber.id),
                frame: form_support::frame_of(g, self.frame),
            },
        )
    }

    /// Puts the new value of a changed place on the value stack.
    pub fn mutate_variable(&mut self, reply: Result<VmValue, StepError>) -> (r: Result<(), StepError>)
        ensures
            (final(self)@, form_resources::unit_result(r)) == mutation_ended(
                old(self)@,
                fault::outcome(reply),
            ),
    {
        match reply {
            Err(e) => Err(e),
            Ok(v) => {
                self.push_value(v);
                Ok(())
            },
        }
    }
}

} // verus!
