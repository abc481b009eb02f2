//! Host calls of an evaluation, in stages.

use vstd::prelude::*;
use std::rc::Rc;
use crate::ast::{self, Expr, ExprKind, Span, Tree, TreeKind};
use crate::existvar::invalid;
use crate::fault::{self, Failure, ScriptFaultKind, StepError, VmFaultCode};
use crate::faults::OriginModel;
use crate::form_binding;
use crate::form_resources::{self, Count, Tally};
use crate::form_support;
use crate::lookup;
use crate::forms::{
    self, BoundCall, BoundService, Form, HostCall, HostPhase, Phase, RuntimeBoundCall,
    RuntimeCallSite, RuntimeFormContinuation, RuntimeFormTask, RuntimeHostCall, Task,
};
use crate::program::{
    BoundRuntimeHost, HostImport, ProgramGeneration, RuntimeHostLowering, RuntimeHostStage,
};
use crate::state::{self, Fiber, FiberModel, FiberState, FrameModel, Vm, VmExecutionOrigin, VmModel};
use crate::text;
use crate::value::{self, BytecodeType, FiberId, FrameId, GenerationId, SymbolKey, Val, VmValue};

verus! {

/// The call of an evaluation that a request to the host belongs to.
#[derive(Clone, Copy, PartialEq, Eq, Debug, Structural)]
pub struct RuntimeHostScope {
    pub fiber: FiberId,
    pub frame: FrameId,
    pub generation: GenerationId,
    pub function: SymbolKey,
    pub instruction: u32,
    pub occurrence: u64,
}

/// A request that a stage makes.
#[derive(PartialEq, Eq, Debug)]
pub struct HostAsk {
    pub target: Rc<HostImport>,
    pub arguments: Vec<VmValue>,
    pub omitted: Vec<u16>,
    pub scope: RuntimeHostScope,
}

/// What a stage comes to.
#[derive(PartialEq, Eq, Debug)]
pub enum HostAdvance {
    Pending,
    Ask(HostAsk),
}

/// Mathematical content of a [`HostAdvance`].
pub enum Asked {
    Pending,
    Ask { target: HostImport, arguments: Seq<Val>, omitted: Seq<u16>, scope: RuntimeHostScope },
}

impl View for HostAdvance {
    type V = Asked;

    open spec fn view(&self) -> Asked {
        match self {
            HostAdvance::Pending => Asked::Pending,
            HostAdvance::Ask(ask) => Asked::Ask {
                target: *ask.target,
                arguments: value::vals(ask.arguments@),
                omitted: ask.omitted@,
                scope: ask.scope,
            },
        }
    }
}

/// The first stage of a call and the number of operands it needs.
pub open spec fn first_stage(lowering: RuntimeHostLowering, count: nat) -> (RuntimeHostStage, nat) {
    match lowering {
        RuntimeHostLowering::Eager => (RuntimeHostStage::Call, count),
        RuntimeHostLowering::HtmlLength => (RuntimeHostStage::MeasureLength, 1),
        RuntimeHostLowering::HtmlLines => (RuntimeHostStage::LinesBegin, 1),
    }
}

pub open spec fn differs_from_plan() -> Failure {
    Failure::invalid("Host call differs from its immutable source plan"@)
}

/// A host call is opened and its first operands are scheduled.
pub open spec fn host_scheduled(
    vm: VmModel,
    form: Form,
    bound: BoundService,
    source: Seq<Option<Tree>>,
    site: RuntimeCallSite,
) -> (Form, Result<(), Failure>) {
    match vm.program(form.generation) {
        None => (form, Err(Failure::invalid("Host generation missing"@))),
        Some(program) => if form.bound(site) != Some(BoundCall::Host(bound)) || !form.has_arguments(
            program,
            site,
            source,
        ) {
            (form, Err(differs_from_plan()))
        } else {
            match form_binding::host_family(program, bound.key) {
                Err(e) => (form, Err(e)),
                Ok(family) => {
                    let (stage, count) = first_stage(family.lowering, source.len());
                    let id = form.next_host_scope;
                    if count > source.len() || count > bound.import.parameters.len() {
                        (form, Err(differs_from_plan()))
                    } else if id == u64::MAX {
                        (
                            form,
                            Err(form_resources::resource_failure("Host scope identity exhausted"@)),
                        )
                    } else {
                        let call = HostCall {
                            id,
                            site,
                            bound,
                            source,
                            phase: Phase::Collect(stage, count as usize),
                            prefix: Seq::empty(),
                        };
                        let opened = Form {
                            next_host_scope: (id + 1) as u64,
                            host_calls: form.host_calls.push(call),
                            ..form
                        };
                        form_support::operands_pushed(
                            opened.with_task(Task::HostAdvance(id)),
                            program,
                            source,
                            bound.import.parameters,
                            count,
                        )
                    }
                },
            }
        },
    }
}

/// An evaluation whose last host call is replaced.
pub open spec fn with_last(form: Form, call: HostCall) -> Form {
    Form { host_calls: form.host_calls.update(form.host_calls.len() - 1, call), ..form }
}

/// Values have the types of parameters.
pub open spec fn typed_as(values: Seq<Val>, parameters: Seq<BytecodeType>) -> bool {
    &&& values.len() == parameters.len()
    &&& forall|i: int|
        0 <= i < values.len() ==> (#[trigger] values[i]).value_type() == parameters[i]
}

pub(crate) fn has_types(values: &Vec<VmValue>, parameters: &Vec<BytecodeType>) -> (r: bool)
    ensures
        r == typed_as(value::vals(values@), parameters@),
{
    let ghost all = value::vals(values@);
    if values.len() != parameters.len() {
        return false;
    }
    let mut i: usize = 0;
    while i < values.len()
        invariant
            i <= values.len(),
            all == value::vals(values@),
            values.len() == parameters.len(),
            forall|j: int| 0 <= j < i ==> (#[trigger] all[j]).value_type() == parameters@[j],
        decreases values.len() - i,
    {
        assert(all[i as int] == values@[i as int]@);
        if values[i].value_type() != parameters[i] {
            return false;
        }
        i = i + 1;
    }
    true
}

/// The scope of a host call.
pub open spec fn scope_of(form: Form, fiber: FiberId, occurrence: u64) -> RuntimeHostScope {
    RuntimeHostScope {
        fiber,
        frame: form.frame,
        generation: form.generation,
        function: form.function,
        instruction: form.instruction as u32,
        occurrence,
    }
}

/// The operands of a stage are collected. No lines are counted in an empty text.
pub open spec fn collected(form: Form, call: HostCall, stage: RuntimeHostStage, count: nat) -> (
    Form,
    Result<(), Failure>,
) {
    match form_support::taken(form, count) {
        (after, Err(e)) => (after, Err(e)),
        (after, Ok(values)) => if stage is LinesBegin && values == seq![
            Val::Text(Seq::<char>::empty()),
        ] {
            (
                Form { host_calls: after.host_calls.drop_last(), ..after }.with_value(
                    Val::Integer(0),
                ),
                Ok(()),
            )
        } else {
            (
                with_last(
                    after,
                    HostCall { phase: Phase::Ready(stage, call.prefix + values), ..call },
                ).with_task(Task::HostAdvance(call.id)),
                Ok(()),
            )
        },
    }
}

/// A stage whose operands are there asks the host.
pub open spec fn host_asked(
    vm: VmModel,
    fiber: FiberModel,
    form: Form,
    call: HostCall,
    stage: RuntimeHostStage,
    arguments: Seq<Val>,
) -> (Form, Result<Asked, Failure>) {
    match vm.program(form.generation) {
        None => (form, Err(Failure::invalid("Host generation missing"@))),
        Some(program) => match form_binding::host_family(program, call.bound.key) {
            Err(e) => (form, Err(e)),
            Ok(family) => match form_binding::staged_import(family, call.bound.import.key, stage) {
                None => (form, Err(Failure::invalid("Host stage is not authorized"@))),
                Some(target) => if !typed_as(arguments, target.import.parameters@) {
                    (form, Err(Failure::invalid("Host evaluated argument signature differs"@)))
                } else {
                    match form_support::owner_at(fiber, form.frame) {
                        Err(e) => (form, Err(e)),
                        Ok(i) => (
                            with_last(
                                form,
                                HostCall {
                                    phase: Phase::Waiting(
                                        stage,
                                        fiber.frames[i].stack.len() as usize,
                                    ),
                                    ..call
                                },
                            ).with_task(Task::HostAdvance(call.id)),
                            Ok(
                                Asked::Ask {
                                    target,
                                    arguments,
                                    omitted: if stage is Call {
                                        call.bound.omitted
                                    } else {
                                        Seq::empty()
                                    },
                                    scope: scope_of(form, fiber.id, call.id),
                                },
                            ),
                        ),
                    }
                },
            },
        },
    }
}

/// The measured length is kept, and the unit is evaluated.
pub open spec fn length_accepted(form: Form, call: HostCall, v: Val) -> (Form, Result<(), Failure>) {
    if !(v is Integer) {
        (form, Err(Failure::invalid("HTML length result type differs"@)))
    } else {
        let measured = with_last(
            form,
            HostCall {
                prefix: seq![v],
                phase: Phase::Collect(RuntimeHostStage::LengthUnit, 1),
                ..call
            },
        );
        if call.source.len() > 1 && call.source[1] is None {
            (
                measured,
                Err(
                    Failure::script(
                        ScriptFaultKind::Operation,
                        VmFaultCode::Host,
                        "HTML_STRINGLEN dereferenced an omitted unit after measurement"@,
                    ),
                ),
            )
        } else {
            let unit = if call.source.len() > 1 {
                call.source[1]->0
            } else {
                Tree { kind: TreeKind::Integer(0), span: Span { start: 0, end: 0 } }
            };
            (
                measured.with_task(Task::HostAdvance(call.id)).with_task(Task::Evaluate(unit)),
                Ok(()),
            )
        }
    }
}

/// The lines go on with another width, or end.
pub open spec fn more_accepted(form: Form, call: HostCall, v: Val) -> (Form, Result<(), Failure>) {
    match v {
        Val::Integer(more) => if more == 0 {
            (
                with_last(
                    form,
                    HostCall {
                        phase: Phase::Ready(RuntimeHostStage::LinesEnd, call.prefix),
                        ..call
                    },
                ).with_task(Task::HostAdvance(call.id)),
                Ok(()),
            )
        } else {
            let going = with_last(
                form,
                HostCall { phase: Phase::Collect(RuntimeHostStage::LinesStep, 1), ..call },
            );
            if call.source.len() > 1 && call.source[1] is Some {
                (
                    going.with_task(Task::HostAdvance(call.id)).with_task(
                        Task::Evaluate(call.source[1]->0),
                    ),
                    Ok(()),
                )
            } else {
                (going, Err(Failure::invalid("HTML width source missing"@)))
            }
        },
        _ => (form, Err(Failure::invalid("HTML line predicate type differs"@))),
    }
}

/// The ticket of the lines is kept, and the host is asked whether there are more.
pub open spec fn ticket_kept(form: Form, call: HostCall, ticket: Val) -> Form {
    with_last(
        form,
        HostCall {
            prefix: seq![ticket],
            phase: Phase::Ready(RuntimeHostStage::LinesMore, seq![ticket]),
            ..call
        },
    ).with_task(Task::HostAdvance(call.id))
}

/// What the host gave to a stage is taken.
pub open spec fn result_accepted(form: Form, stage: RuntimeHostStage, v: Val) -> (
    Form,
    Result<(), Failure>,
) {
    let call = form.host_calls.last();
    match stage {
        RuntimeHostStage::Call | RuntimeHostStage::LengthUnit | RuntimeHostStage::LinesEnd => (
            Form { host_calls: form.host_calls.drop_last(), ..form }.with_value(v),
            Ok(()),
        ),
        RuntimeHostStage::MeasureLength => length_accepted(form, call, v),
        RuntimeHostStage::LinesBegin => if !(v is Text) {
            (form, Err(Failure::invalid("HTML line ticket type differs"@)))
        } else {
            (ticket_kept(form, call, v), Ok(()))
        },
        RuntimeHostStage::LinesMore => more_accepted(form, call, v),
        RuntimeHostStage::LinesStep => if !(v is Integer) {
            (form, Err(Failure::invalid("HTML line step result type differs"@)))
        } else if call.prefix.len() == 0 {
            (form, Err(Failure::invalid("HTML line ticket missing"@)))
        } else {
            (ticket_kept(form, call, call.prefix[0]), Ok(()))
        },
    }
}

/// The result that the host left on the owner's stack is taken off.
pub open spec fn result_taken(
    fiber: FiberModel,
    form: Form,
    stage: RuntimeHostStage,
    depth: usize,
) -> (FiberModel, Form, Result<(), Failure>) {
    if !(fiber.state is Runnable) {
        (fiber, form, Err(Failure::invalid("Host result resumed while waiting"@)))
    } else {
        match form_support::owner_at(fiber, form.frame) {
            Err(e) => (fiber, form, Err(e)),
            Ok(i) => {
                let owner = fiber.frames[i];
                if depth == usize::MAX {
                    (fiber, form, Err(Failure::invalid("Host stack depth overflow"@)))
                } else if owner.stack.len() != depth + 1 {
                    (fiber, form, Err(Failure::invalid("Host result stack depth differs"@)))
                } else {
                    let popped = FiberModel {
                        frames: fiber.frames.update(
                            i,
                            FrameModel { stack: owner.stack.drop_last(), ..owner },
                        ),
                        ..fiber
                    };
                    let (after, r) = result_accepted(form, stage, owner.stack.last());
                    (popped, after, r)
                }
            },
        }
    }
}

/// The innermost host call goes on.
pub open spec fn host_advanced(vm: VmModel, fiber: FiberModel, form: Form, id: u64) -> (
    FiberModel,
    Form,
    Result<Asked, Failure>,
) {
    if form.host_calls.len() == 0 {
        (fiber, form, Err(Failure::invalid("Host scope missing"@)))
    } else if form.host_calls.last().id != id {
        (fiber, form, Err(Failure::invalid("Host scope is not the active call"@)))
    } else {
        let call = form.host_calls.last();
        match call.phase {
            Phase::Collect(stage, count) => {
                let (after, r) = collected(form, call, stage, count as nat);
                (fiber, after, pending_or(r))
            },
            Phase::Ready(stage, arguments) => {
                let (after, r) = host_asked(vm, fiber, form, call, stage, arguments);
                (fiber, after, r)
            },
            Phase::Waiting(stage, depth) => {
                let (popped, after, r) = result_taken(fiber, form, stage, depth);
                (popped, after, pending_or(r))
            },
        }
    }
}

pub open spec fn pending_or(r: Result<(), Failure>) -> Result<Asked, Failure> {
    match r {
        Ok(_) => Ok(Asked::Pending),
        Err(e) => Err(e),
    }
}

fn pending(r: Result<(), StepError>) -> (s: Result<HostAdvance, StepError>)
    ensures
        fault::outcome(s) == pending_or(form_resources::unit_result(r)),
{
    match r {
        Ok(_) => Ok(HostAdvance::Pending),
        Err(e) => Err(e),
    }
}

fn copy_positions(s: &Vec<u16>) -> (r: Vec<u16>)
    ensures
        r@ == s@,
{
    let mut out: Vec<u16> = Vec::new();
    let mut i: usize = 0;
    while i < s.len()
        invariant
            i <= s.len(),
            out@ == s@.take(i as int),
        decreases s.len() - i,
    {
        out.push(s[i]);
        i = i + 1;
        assert(out@ =~= s@.take(i as int));
    }
    assert(s@.take(i as int) =~= s@);
    out
}

fn single(v: VmValue) -> (r: Vec<VmValue>)
    ensures
        value::vals(r@) == seq![v@],
{
    let mut out: Vec<VmValue> = Vec::new();
    out.push(v);
    assert(value::vals(out@) =~= seq![v@]);
    out
}

impl RuntimeFormContinuation {
    /// Opens a host call and schedules its first operands.
    pub fn schedule_host_arguments(
        &mut self,
        vm: &Vm,
        bound: &Rc<BoundRuntimeHost>,
        source: &Vec<Option<Rc<Expr>>>,
        site: RuntimeCallSite,
    ) -> (r: Result<(), StepError>)
        ensures
            (final(self)@, form_resources::unit_result(r)) == host_scheduled(
                vm@,
                old(self)@,
                bound@,
                ast::argument_trees(source@),
                site,
            ),
    {
        let ghost form = self@;
        proof {
            ast::lemma_argument_trees(source@);
        }
        let program = match vm.program(self.generation) {
            None => {
                return Err(invalid("Host generation missing"));
            },
            Some(p) => p,
        };
        let planned = match self.lookup_bound_call(site) {
            Some(RuntimeBoundCall::Host(b)) => forms::same_host(b, bound),
            _ => false,
        };
        if !planned || !self.validate_call_arguments(&program, site, source) {
            return Err(invalid("Host call differs from its immutable source plan"));
        }
        let family = match form_binding::family(&program, bound.family_key) {
            Err(e) => {
                return Err(e);
            },
            Ok(f) => f,
        };
        let (stage, count): (RuntimeHostStage, usize) = match family.lowering {
            RuntimeHostLowering::Eager => (RuntimeHostStage::Call, source.len()),
            RuntimeHostLowering::HtmlLength => (RuntimeHostStage::MeasureLength, 1),
            RuntimeHostLowering::HtmlLines => (RuntimeHostStage::LinesBegin, 1),
        };
        if count > source.len() || count > bound.import.parameters.len() {
            return Err(invalid("Host call differs from its immutable source plan"));
        }
        let id: u64 = self.next_host_scope;
        if id == u64::MAX {
            return Err(form_resources::resource_limit("Host scope identity exhausted"));
        }
        self.next_host_scope = id + 1;
        let copy = ast::copy_arguments(source, 0);
        let prefix: Vec<VmValue> = Vec::new();
        proof {
            assert(ast::argument_trees(source@).skip(0) =~= ast::argument_trees(source@));
            assert(value::vals(prefix@) =~= Seq::<Val>::empty());
        }
        let call = RuntimeHostCall {
            id,
            site,
            bound: bound.clone(),
            source: copy,
            phase: HostPhase::Collect { stage, count },
            prefix,
        };
        self.host_calls.push(call);
        proof {
            assert(forms::host_views(self.host_calls@) =~= form.host_calls.push(call@));
        }
        self.push_task(RuntimeFormTask::HostAdvance(id));
        self.schedule_bound_source_arguments(&program, source, &bound.import.parameters, count)
    }

    /// Tells whether the next step asks the host.
    pub fn next_is_host_call(&self) -> (r: bool)
        ensures
            r == ({
                let form = self@;
                &&& form.work.len() > 0
                &&& form.work.last() is HostAdvance
                &&& form.host_calls.len() > 0
                &&& form.work.last() == Task::HostAdvance(form.host_calls.last().id)
                &&& form.host_calls.last().phase is Ready
            }),
    {
        if self.work.len() == 0 || self.host_calls.len() == 0 {
            return false;
        }
        assert(self@.work.last() == self.work@.last()@);
        assert(self@.host_calls.last() == self.host_calls@.last()@);
        let call = &self.host_calls[self.host_calls.len() - 1];
        match &self.work[self.work.len() - 1] {
            RuntimeFormTask::HostAdvance(id) => {
                let ready = match &call.phase {
                    HostPhase::Ready { .. } => true,
                    _ => false,
                };
                *id == call.id && ready
            },
            _ => false,
        }
    }

    fn pop_host(&mut self) -> (r: RuntimeHostCall)
        requires
            old(self)@.host_calls.len() > 0,
        ensures
            final(self)@ == (Form {
                host_calls: old(self)@.host_calls.drop_last(),
                ..old(self)@
            }),
            r@ == old(self)@.host_calls.last(),
    {
        let ghost form = self@;
        assert(form.host_calls.len() == self.host_calls@.len());
        let at: usize = self.host_calls.len() - 1;
        let call = self.host_calls.remove(at);
        proof {
            assert(form.host_calls.last() == call@);
            assert(forms::host_views(self.host_calls@) =~= form.host_calls.drop_last());
        }
        call
    }

    fn push_host(&mut self, call: RuntimeHostCall)
        ensures
            final(self)@ == (Form {
                host_calls: old(self)@.host_calls.push(call@),
                ..old(self)@
            }),
    {
        let ghost form = self@;
        self.host_calls.push(call);
        assert(forms::host_views(self.host_calls@) =~= form.host_calls.push(call@));
    }

    fn replace_host(&mut self, phase: HostPhase, prefix: Option<Vec<VmValue>>)
        requires
            old(self)@.host_calls.len() > 0,
        ensures
            final(self)@ == with_last(
                old(self)@,
                HostCall {
                    phase: phase@,
                    prefix: match prefix {
                        Some(p) => value::vals(p@),
                        None => old(self)@.host_calls.last().prefix,
                    },
                    ..old(self)@.host_calls.last()
                },
            ),
    {
        let ghost form = self@;
        let mut call = self.pop_host();
        call.phase = phase;
        match prefix {
            Some(p) => {
                call.prefix = p;
            },
            None => {},
        }
        self.push_host(call);
        assert(self@.host_calls =~= form.host_calls.update(form.host_calls.len() - 1, call@));
    }

    fn collect_operands(&mut self, stage: RuntimeHostStage, count: usize) -> (r: Result<
        (),
        StepError,
    >)
        requires
            old(self)@.host_calls.len() > 0,
        ensures
            (final(self)@, form_resources::unit_result(r)) == collected(
                old(self)@,
                old(self)@.host_calls.last(),
                stage,
                count as nat,
            ),
    {
        let values = match self.take_values(count) {
            Err(e) => {
                return Err(e);
            },
            Ok(v) => v,
        };
        let ghost after = self@;
        let lines = match stage {
            RuntimeHostStage::LinesBegin => true,
            _ => false,
        };
        let empty = if values.len() == 1 {
            assert(value::vals(values@)[0] == values@[0]@);
            match &values[0] {
                VmValue::String(s) => text::length(s.as_str()) == 0,
                _ => false,
            }
        } else {
            false
        };
        proof {
            let model = value::vals(values@);
            if empty {
                assert(model[0]->Text_0 =~= Seq::<char>::empty());
                assert(model =~= seq![Val::Text(Seq::<char>::empty())]);
            } else if model == seq![Val::Text(Seq::<char>::empty())] {
                assert(model[0] == Val::Text(Seq::<char>::empty()));
            }
        }
        if lines && empty {
            let _ = self.pop_host();
            self.push_value(VmValue::Integer(0));
            return Ok(());
        }
        let mut call = self.pop_host();
        let id: u64 = call.id;
        let mut arguments = value::copy_values(&call.prefix);
        let ghost prefix = value::vals(arguments@);
        let ghost more = value::vals(values@);
        let mut values = values;
        arguments.append(&mut values);
        assert(value::vals(arguments@) =~= prefix + more);
        call.phase = HostPhase::Ready { stage, arguments };
        self.push_host(call);
        assert(self@.host_calls =~= after.host_calls.update(after.host_calls.len() - 1, call@));
        self.push_task(RuntimeFormTask::HostAdvance(id));
        Ok(())
    }

    fn ask_host(&mut self, vm: &Vm, fiber: &Fiber, stage: RuntimeHostStage, arguments: Vec<VmValue>) -> (r:
        Result<HostAdvance, StepError>)
        requires
            old(self)@.host_calls.len() > 0,
            old(self)@.instruction <= u32::MAX,
        ensures
            (final(self)@, fault::outcome(r)) == host_asked(
                vm@,
                fiber@,
                old(self)@,
                old(self)@.host_calls.last(),
                stage,
                value::vals(arguments@),
            ),
    {
        let ghost form = self@;
        assert(form.host_calls.last() == self.host_calls@.last()@);
        let program = match vm.program(self.generation) {
            None => {
                return Err(invalid("Host generation missing"));
            },
            Some(p) => p,
        };
        let call = &self.host_calls[self.host_calls.len() - 1];
        let id: u64 = call.id;
        let family = match form_binding::family(&program, call.bound.family_key) {
            Err(e) => {
                return Err(e);
            },
            Ok(f) => f,
        };
        let target = match family.stage_import(&call.bound, stage) {
            None => {
                return Err(invalid("Host stage is not authorized"));
            },
            Some(t) => t,
        };
        if !has_types(&arguments, &target.import.parameters) {
            return Err(invalid("Host evaluated argument signature differs"));
        }
        let omitted: Vec<u16> = match stage {
            RuntimeHostStage::Call => copy_positions(&call.bound.omitted_arguments),
            _ => Vec::new(),
        };
        let owner = match form_support::owner_frame(fiber, self.frame) {
            Err(e) => {
                return Err(e);
            },
            Ok(f) => f,
        };
        assert(owner@.stack.len() == owner.stack@.len());
        let scope = RuntimeHostScope {
            fiber: fiber.id,
            frame: self.frame,
            generation: self.generation,
            function: self.function,
            instruction: self.instruction as u32,
            occurrence: id,
        };
        let stack_depth: usize = owner.stack.len();
        self.replace_host(HostPhase::Waiting { stage, stack_depth }, None);
        self.push_task(RuntimeFormTask::HostAdvance(id));
        Ok(HostAdvance::Ask(HostAsk { target, arguments, omitted, scope }))
    }

    fn accept_html_length(&mut self, v: VmValue) -> (r: Result<(), StepError>)
        requires
            old(self)@.host_calls.len() > 0,
        ensures
            (final(self)@, form_resources::unit_result(r)) == length_accepted(
                old(self)@,
                old(self)@.host_calls.last(),
                v@,
            ),
    {
        let ghost form = self@;
        assert(form.host_calls.last() == self.host_calls@.last()@);
        match v {
            VmValue::Integer(_) => {},
            _ => {
                return Err(invalid("HTML length result type differs"));
            },
        }
        let call = &self.host_calls[self.host_calls.len() - 1];
        let id: u64 = call.id;
        proof {
            ast::lemma_argument_trees(call.source@);
        }
        let unit: Option<Rc<Expr>> = if call.source.len() > 1 {
            ast::copy_argument(&call.source[1])
        } else {
            Some(
                Rc::new(Expr { kind: ExprKind::Integer(0), span: Span { start: 0, end: 0 } }),
            )
        };
        self.replace_host(
            HostPhase::Collect { stage: RuntimeHostStage::LengthUnit, count: 1 },
            Some(single(v)),
        );
        match unit {
            None => Err(
                StepError::script(
                    ScriptFaultKind::Operation,
                    VmFaultCode::Host,
                    "HTML_STRINGLEN dereferenced an omitted unit after measurement",
                ),
            ),
            Some(e) => {
                self.push_task(RuntimeFormTask::HostAdvance(id));
                self.push_task(RuntimeFormTask::Evaluate(e));
                Ok(())
            },
        }
    }

    fn accept_html_more(&mut self, v: VmValue) -> (r: Result<(), StepError>)
        requires
            old(self)@.host_calls.len() > 0,
        ensures
            (final(self)@, form_resources::unit_result(r)) == more_accepted(
                old(self)@,
                old(self)@.host_calls.last(),
                v@,
            ),
    {
        let ghost form = self@;
        assert(form.host_calls.last() == self.host_calls@.last()@);
        let more: i64 = match v {
            VmValue::Integer(n) => n,
            _ => {
                return Err(invalid("HTML line predicate type differs"));
            },
        };
        let call = &self.host_calls[self.host_calls.len() - 1];
        let id: u64 = call.id;
        proof {
            ast::lemma_argument_trees(call.source@);
        }
        if more == 0 {
            let arguments = value::copy_values(&call.prefix);
            self.replace_host(
                HostPhase::Ready { stage: RuntimeHostStage::LinesEnd, arguments },
                None,
            );
            self.push_task(RuntimeFormTask::HostAdvance(id));
            return Ok(());
        }
        let width: Option<Rc<Expr>> = if call.source.len() > 1 {
            ast::copy_argument(&call.source[1])
        } else {
            None
        };
        self.replace_host(
            HostPhase::Collect { stage: RuntimeHostStage::LinesStep, count: 1 },
            None,
        );
        match width {
            None => Err(invalid("HTML width source missing")),
            Some(e) => {
                self.push_task(RuntimeFormTask::HostAdvance(id));
                self.push_task(RuntimeFormTask::Evaluate(e));
                Ok(())
            },
        }
    }

    fn keep_ticket(&mut self, ticket: VmValue)
        requires
            old(self)@.host_calls.len() > 0,
        ensures
            final(self)@ == ticket_kept(old(self)@, old(self)@.host_calls.last(), ticket@),
    {
        assert(self@.host_calls.last() == self.host_calls@.last()@);
        let id: u64 = self.host_calls[self.host_calls.len() - 1].id;
        let arguments = single(ticket.clone());
        self.replace_host(
            HostPhase::Ready { stage: RuntimeHostStage::LinesMore, arguments },
            Some(single(ticket)),
        );
        self.push_task(RuntimeFormTask::HostAdvance(id));
    }

    /// Takes what the host gave to a stage.
    pub fn accept_host_result(&mut self, stage: RuntimeHostStage, v: VmValue) -> (r: Result<
        (),
        StepError,
    >)
        requires
            old(self)@.host_calls.len() > 0,
        ensures
            (final(self)@, form_resources::unit_result(r)) == result_accepted(
                old(self)@,
                stage,
                v@,
            ),
    {
        match stage {
            RuntimeHostStage::Call | RuntimeHostStage::LengthUnit | RuntimeHostStage::LinesEnd => {
                let _ = self.pop_host();
                self.push_value(v);
                Ok(())
            },
            RuntimeHostStage::MeasureLength => self.accept_html_length(v),
            RuntimeHostStage::LinesBegin => match v {
                VmValue::String(_) => {
                    self.keep_ticket(v);
                    Ok(())
                },
                _ => Err(invalid("HTML line ticket type differs")),
            },
            RuntimeHostStage::LinesMore => self.accept_html_more(v),
            RuntimeHostStage::LinesStep => {
                match v {
                    VmValue::Integer(_) => {},
                    _ => {
                        return Err(invalid("HTML line step result type differs"));
                    },
                }
                assert(self@.host_calls.last() == self.host_calls@.last()@);
                let call = &self.host_calls[self.host_calls.len() - 1];
                if call.prefix.len() == 0 {
                    return Err(invalid("HTML line ticket missing"));
                }
                assert(call@.prefix[0] == call.prefix@[0]@);
                let ticket = call.prefix[0].clone();
                self.keep_ticket(ticket);
                Ok(())
            },
        }
    }

    fn take_host_result(&mut self, fiber: &mut Fiber, stage: RuntimeHostStage, stack_depth: usize) -> (r:
        Result<(), StepError>)
        requires
            old(self)@.host_calls.len() > 0,
        ensures
            (final(fiber)@, final(self)@, form_resources::unit_result(r)) == result_taken(
                old(fiber)@,
                old(self)@,
                stage,
                stack_depth,
            ),
    {
        let runnable = match &fiber.state {
            FiberState::Runnable => true,
            _ => false,
        };
        if !runnable {
            return Err(invalid("Host result resumed while waiting"));
        }
        let owner = match form_support::owner_frame_mut(fiber, self.frame) {
            Err(e) => {
                return Err(e);
            },
            Ok(f) => f,
        };
        let ghost stack = owner@.stack;
        assert(stack.len() == owner.stack@.len());
        if stack_depth == usize::MAX {
            return Err(invalid("Host stack depth overflow"));
        }
        if owner.stack.len() != stack_depth + 1 {
            return Err(invalid("Host result stack depth differs"));
        }
        let v = match owner.stack.pop() {
            Some(v) => v,
            None => {
                return Err(invalid("Host result missing"));
            },
        };
        proof {
            assert(stack.last() == v@);
            assert(value::vals(owner.stack@) =~= stack.drop_last());
        }
        self.accept_host_result(stage, v)
    }

    /// Goes on with the innermost host call.
    pub fn advance_host_call(&mut self, vm: &Vm, fiber: &mut Fiber, id: u64) -> (r: Result<
        HostAdvance,
        StepError,
    >)
        requires
            old(self)@.instruction <= u32::MAX,
        ensures
            (final(fiber)@, final(self)@, fault::outcome(r)) == host_advanced(
                vm@,
                old(fiber)@,
                old(self)@,
                id,
            ),
    {
        if self.host_calls.len() == 0 {
            return Err(invalid("Host scope missing"));
        }
        assert(self@.host_calls.last() == self.host_calls@.last()@);
        let call = &self.host_calls[self.host_calls.len() - 1];
        if call.id != id {
            return Err(invalid("Host scope is not the active call"));
        }
        match &call.phase {
            HostPhase::Collect { stage, count } => {
                let (stage, count): (RuntimeHostStage, usize) = (*stage, *count);
                pending(self.collect_operands(stage, count))
            },
            HostPhase::Ready { stage, arguments } => {
                let stage = *stage;
                let arguments = value::copy_values(arguments);
                self.ask_host(vm, fiber, stage, arguments)
            },
            HostPhase::Waiting { stage, stack_depth } => {
                let (stage, depth): (RuntimeHostStage, usize) = (*stage, *stack_depth);
                pending(self.take_host_result(fiber, stage, depth))
            },
        }
    }
}

pub open spec fn call_numbered(id: u64) -> spec_fn(HostCall) -> bool {
    |c: HostCall| c.id == id
}

/// A scope is that of a host call of an evaluation.
pub open spec fn has_scope(form: Form, scope: RuntimeHostScope) -> bool {
    &&& scope.frame == form.frame
    &&& scope.generation == form.generation
    &&& scope.function == form.function
    &&& scope.instruction == form.instruction
    &&& scope.occurrence != 0
    &&& lookup::first_index(form.host_calls, call_numbered(scope.occurrence)) is Some
}

/// The host service that the innermost call of an evaluation waits for.
pub open spec fn waited_import(
    form: Form,
    scope: RuntimeHostScope,
    origin: OriginModel,
    program: ProgramGeneration,
) -> Option<HostImport> {
    if !has_scope(form, scope) || origin.generation != form.generation || origin.function
        != form.function || origin.instruction != form.instruction || form.host_calls.last().id
        != scope.occurrence {
        None
    } else {
        let call = form.host_calls.last();
        match call.phase {
            Phase::Waiting(stage, _) => match form_binding::host_family(program, call.bound.key) {
                Err(_) => None,
                Ok(family) => match form_binding::staged_import(
                    family,
                    call.bound.import.key,
                    stage,
                ) {
                    None => None,
                    Some(import) => if text::same_ignoring_case(
                        origin.command,
                        import.import.name@,
                    ) {
                        Some(import)
                    } else {
                        None
                    },
                },
            },
            _ => None,
        }
    }
}

/// The values that a host call holds.
pub open spec fn held(call: HostCall) -> Seq<Val> {
    match call.phase {
        Phase::Ready(_, arguments) => arguments + call.prefix,
        _ => call.prefix,
    }
}

/// What a host call holds: itself, its operands, its service and the values it has.
pub open spec fn host_weight(call: HostCall) -> Tally {
    form_resources::tally(1, 0).plus(form_resources::arguments_weight(call.source)).plus(
        form_resources::service_weight(call.bound),
    ).plus(form_resources::tally(held(call).len(), form_resources::stack_bytes(held(call))))
}

pub open spec fn hosts_weight(calls: Seq<HostCall>) -> Tally
    decreases calls.len(),
{
    if calls.len() == 0 {
        form_resources::tally(0, 0)
    } else {
        hosts_weight(calls.drop_last()).plus(host_weight(calls.last()))
    }
}

/// The number of tasks that go on with a host call.
pub open spec fn advances(work: Seq<Task>, id: u64) -> nat
    decreases work.len(),
{
    if work.len() == 0 {
        0
    } else {
        advances(work.drop_last(), id) + if work.last() == Task::HostAdvance(id) {
            1nat
        } else {
            0nat
        }
    }
}

/// The number of tasks that go on with any host call.
pub open spec fn all_advances(work: Seq<Task>) -> nat
    decreases work.len(),
{
    if work.len() == 0 {
        0
    } else {
        all_advances(work.drop_last()) + if work.last() is HostAdvance {
            1nat
        } else {
            0nat
        }
    }
}

/// The host calls are numbered upwards, and each has one task that goes on with it.
pub open spec fn scopes_valid(form: Form) -> bool {
    &&& form.next_host_scope != 0
    &&& forall|i: int|
        0 <= i < form.host_calls.len() ==> {
            &&& (#[trigger] form.host_calls[i]).id > (if i > 0 {
                form.host_calls[i - 1].id
            } else {
                0
            })
            &&& form.host_calls[i].id < form.next_host_scope
            &&& advances(form.work, form.host_calls[i].id) == 1
        }
    &&& all_advances(form.work) == form.host_calls.len()
}

/// The number of operands that a stage collects; nothing where it collects none.
pub open spec fn stage_count(stage: RuntimeHostStage, source: nat) -> Option<nat> {
    match stage {
        RuntimeHostStage::Call => Some(source),
        RuntimeHostStage::MeasureLength => Some(1),
        RuntimeHostStage::LinesBegin => Some(1),
        RuntimeHostStage::LengthUnit => Some(1),
        RuntimeHostStage::LinesStep => Some(1),
        _ => None,
    }
}

/// The stage that a host call is in.
pub open spec fn stage_in(phase: Phase) -> RuntimeHostStage {
    match phase {
        Phase::Collect(stage, _) => stage,
        Phase::Ready(stage, _) => stage,
        Phase::Waiting(stage, _) => stage,
    }
}

/// What an earlier stage gave is there where the stage needs it.
pub open spec fn prefix_fits(stage: RuntimeHostStage, prefix: Seq<Val>) -> bool {
    match stage {
        RuntimeHostStage::Call => prefix.len() == 0,
        RuntimeHostStage::MeasureLength => prefix.len() == 0,
        RuntimeHostStage::LinesBegin => prefix.len() == 0,
        RuntimeHostStage::LengthUnit => prefix.len() == 1 && prefix[0] is Integer,
        _ => prefix.len() == 1 && prefix[0] is Text,
    }
}

/// A host call is in a stage that it can be in.
pub open spec fn host_valid(form: Form, program: ProgramGeneration, limit: usize, call: HostCall) -> bool {
    &&& form.bound(call.site) == Some(BoundCall::Host(call.bound))
    &&& form.has_arguments(program, call.site, call.source)
    &&& match form_binding::host_family(program, call.bound.key) {
        Err(_) => false,
        Ok(family) => {
            let stage = stage_in(call.phase);
            &&& match call.phase {
                Phase::Collect(_, count) => stage_count(stage, call.source.len()) == Some(
                    count as nat,
                ),
                Phase::Ready(_, _) => true,
                Phase::Waiting(_, depth) => depth <= limit,
            }
            &&& match form_binding::staged_import(family, call.bound.import.key, stage) {
                None => false,
                Some(target) => match call.phase {
                    Phase::Ready(_, arguments) => typed_as(arguments, target.import.parameters@),
                    _ => true,
                },
            }
            &&& prefix_fits(stage, call.prefix)
        },
    }
}

/// Every host call is in a stage that it can be in.
pub open spec fn symbols_valid(form: Form, program: ProgramGeneration, limit: usize) -> bool {
    &&& scopes_valid(form)
    &&& forall|i: int|
        0 <= i < form.host_calls.len() ==> host_valid(
            form,
            program,
            limit,
            #[trigger] form.host_calls[i],
        )
}

/// A stage that works with the ticket of lines.
pub open spec fn ticket_phase(phase: Phase) -> bool {
    match phase {
        Phase::Collect(stage, _) => stage is LinesStep,
        Phase::Ready(stage, _) => stage is LinesMore || stage is LinesStep || stage is LinesEnd,
        Phase::Waiting(stage, _) => stage is LinesMore || stage is LinesStep || stage is LinesEnd,
    }
}

/// A host call holds a ticket of lines.
pub open spec fn holds_ticket(form: Form, scope: RuntimeHostScope, ticket: Seq<char>) -> bool {
    has_scope(form, scope) && ({
        let call = form.host_calls[lookup::first_index(
            form.host_calls,
            call_numbered(scope.occurrence),
        )->0];
        call.prefix == seq![Val::Text(ticket)] && ticket_phase(call.phase)
    })
}

fn stage_lines(stage: RuntimeHostStage) -> (r: bool)
    ensures
        r == (stage is LinesMore || stage is LinesStep || stage is LinesEnd),
{
    match stage {
        RuntimeHostStage::LinesMore => true,
        RuntimeHostStage::LinesStep => true,
        RuntimeHostStage::LinesEnd => true,
        _ => false,
    }
}

fn count_values(values: &Vec<VmValue>) -> (r: Count)
    ensures
        r@ == form_resources::tally(
            values@.len(),
            form_resources::stack_bytes(value::vals(values@)),
        ),
{
    let ghost all = value::vals(values@);
    let mut out = Count::zero().more(values.len(), 0);
    let mut i: usize = 0;
    assert(all.take(0) =~= Seq::<Val>::empty());
    while i < values.len()
        invariant
            i <= values.len(),
            all == value::vals(values@),
            out@ == form_resources::tally(
                values@.len(),
                form_resources::stack_bytes(all.take(i as int)),
            ),
        decreases values.len() - i,
    {
        proof {
            assert(all.take(i + 1).drop_last() =~= all.take(i as int));
            assert(all.take(i + 1).last() == values@[i as int]@);
        }
        out = out.more(0, form_resources::value_bytes(&values[i]));
        i = i + 1;
    }
    assert(all.take(i as int) =~= all);
    out
}

proof fn lemma_stack_bytes_join(a: Seq<Val>, b: Seq<Val>)
    ensures
        form_resources::stack_bytes(a + b) == form_resources::stack_bytes(a)
            + form_resources::stack_bytes(b),
    decreases b.len(),
{
    if b.len() == 0 {
        assert(a + b =~= a);
    } else {
        assert((a + b).drop_last() =~= a + b.drop_last());
        lemma_stack_bytes_join(a, b.drop_last());
    }
}

fn count_host(call: &RuntimeHostCall) -> (r: Count)
    ensures
        r@ == host_weight(call@),
{
    let base = Count::zero().more(1, 0).plus(form_resources::count_arguments(&call.source)).plus(
        form_resources::count_service(&call.bound.import, &call.bound.omitted_arguments),
    );
    match &call.phase {
        HostPhase::Ready { arguments, .. } => {
            proof {
                lemma_stack_bytes_join(value::vals(arguments@), call@.prefix);
            }
            base.plus(count_values(arguments)).plus(count_values(&call.prefix))
        },
        _ => base.plus(count_values(&call.prefix)),
    }
}

impl RuntimeFormContinuation {
    fn find_host(&self, id: u64) -> (r: Option<usize>)
        ensures
            match r {
                Some(i) => i < self.host_calls@.len() && lookup::first_index(
                    self@.host_calls,
                    call_numbered(id),
                ) == Some(i as int) && self@.host_calls[i as int] == self.host_calls@[i as int]@,
                None => lookup::first_index(self@.host_calls, call_numbered(id)) is None,
            },
    {
        let ghost calls = self@.host_calls;
        let mut i: usize = 0;
        while i < self.host_calls.len()
            invariant
                i <= self.host_calls.len(),
                calls == self@.host_calls,
                forall|j: int| 0 <= j < i ==> !call_numbered(id)(#[trigger] calls[j]),
            decreases self.host_calls.len() - i,
        {
            assert(calls[i as int] == self.host_calls@[i as int]@);
            if self.host_calls[i].id == id {
                proof {
                    lookup::lemma_first_found(calls, call_numbered(id), i as int);
                }
                return Some(i);
            }
            i = i + 1;
        }
        proof {
            lookup::lemma_first_none(calls, call_numbered(id));
        }
        None
    }

    /// Tells whether a scope is that of a host call of this evaluation.
    pub fn contains_host_scope(&self, scope: RuntimeHostScope) -> (r: bool)
        ensures
            r == has_scope(self@, scope),
    {
        scope.frame == self.frame && scope.generation == self.generation && scope.function
            == self.function && scope.instruction as u64 == self.instruction as u64
            && scope.occurrence != 0 && self.find_host(scope.occurrence).is_some()
    }

    /// The host service that the innermost call waits for.
    pub fn waiting_host_import(
        &self,
        scope: RuntimeHostScope,
        origin: &VmExecutionOrigin,
        program: &ProgramGeneration,
    ) -> (r: Option<Rc<HostImport>>)
        ensures
            match r {
                Some(t) => waited_import(self@, scope, origin@, *program) == Some(*t),
                None => waited_import(self@, scope, origin@, *program) is None,
            },
    {
        if !self.contains_host_scope(scope) || origin.generation != self.generation
            || origin.function != self.function || origin.instruction as u64
            != self.instruction as u64 {
            return None;
        }
        proof {
            lookup::lemma_first_index(self@.host_calls, call_numbered(scope.occurrence));
            assert(self@.host_calls.last() == self.host_calls@.last()@);
        }
        let call = &self.host_calls[self.host_calls.len() - 1];
        if call.id != scope.occurrence {
            return None;
        }
        match &call.phase {
            HostPhase::Waiting { stage, .. } => match form_binding::family(
                program,
                call.bound.family_key,
            ) {
                Err(_) => None,
                Ok(family) => match family.stage_import(&call.bound, *stage) {
                    None => None,
                    Some(import) => {
                        if text::eq_ignore_ascii_case(
                            origin.command.as_str(),
                            import.import.name.as_str(),
                        ) {
                            Some(import)
                        } else {
                            None
                        }
                    },
                },
            },
            _ => None,
        }
    }

    /// The slots and bytes that the host calls hold, where they can be counted.
    pub fn host_resources(&self) -> (r: Option<(usize, usize)>)
        ensures
            form_resources::counted(r, hosts_weight(self@.host_calls)),
    {
        let ghost calls = self@.host_calls;
        let mut out = Count::zero();
        let mut i: usize = 0;
        assert(calls.take(0) =~= Seq::<HostCall>::empty());
        while i < self.host_calls.len()
            invariant
                i <= self.host_calls.len(),
                calls == self@.host_calls,
                out@ == hosts_weight(calls.take(i as int)),
            decreases self.host_calls.len() - i,
        {
            proof {
                assert(calls[i as int] == self.host_calls@[i as int]@);
                assert(calls.take(i + 1).drop_last() =~= calls.take(i as int));
            }
            out = out.plus(count_host(&self.host_calls[i]));
            i = i + 1;
        }
        assert(calls.take(i as int) =~= calls);
        out.total()
    }

    /// Drops the host calls from a number on.
    pub fn abandon_host_scopes(&mut self, frontier: u64)
        ensures
            final(self)@ == (Form {
                host_calls: kept_below(old(self)@.host_calls, frontier),
                ..old(self)@
            }),
    {
        let ghost calls = self@.host_calls;
        let mut kept: Vec<RuntimeHostCall> = Vec::new();
        let mut rest: Vec<RuntimeHostCall> = Vec::new();
        std::mem::swap(&mut rest, &mut self.host_calls);
        let ghost all = rest@;
        assert(forms::host_views(all) == calls);
        assert(calls.take(0) =~= Seq::<HostCall>::empty());
        assert(forms::host_views(kept@) =~= Seq::<HostCall>::empty());
        let mut i: usize = 0;
        let count: usize = rest.len();
        while rest.len() > 0
            invariant
                i + rest@.len() == count,
                count == all.len(),
                rest@ == all.skip(i as int),
                calls == forms::host_views(all),
                forms::host_views(kept@) == kept_below(calls.take(i as int), frontier),
            decreases rest.len(),
        {
            let ghost before = kept@;
            let call = rest.remove(0);
            proof {
                assert(call == all[i as int]);
                assert(rest@ =~= all.skip(i + 1));
                assert(calls[i as int] == call@);
                assert(calls.take(i + 1).drop_last() =~= calls.take(i as int));
            }
            if call.id < frontier {
                kept.push(call);
                assert(forms::host_views(kept@) =~= forms::host_views(before).push(call@));
            }
            i = i + 1;
        }
        assert(calls.take(i as int) =~= calls);
        self.host_calls = kept;
    }

    fn count_advances(&self, id: u64) -> (r: usize)
        ensures
            r == advances(self@.work, id),
    {
        let ghost work = self@.work;
        let mut n: usize = 0;
        let mut i: usize = 0;
        assert(work.take(0) =~= Seq::<Task>::empty());
        while i < self.work.len()
            invariant
                i <= self.work.len(),
                work == self@.work,
                n <= i,
                n == advances(work.take(i as int), id),
            decreases self.work.len() - i,
        {
            proof {
                assert(work[i as int] == self.work@[i as int]@);
                assert(work.take(i + 1).drop_last() =~= work.take(i as int));
            }
            match &self.work[i] {
                RuntimeFormTask::HostAdvance(at) => {
                    if *at == id {
                        n = n + 1;
                    }
                },
                _ => {},
            }
            i = i + 1;
        }
        assert(work.take(i as int) =~= work);
        n
    }

    fn count_all_advances(&self) -> (r: usize)
        ensures
            r == all_advances(self@.work),
    {
        let ghost work = self@.work;
        let mut n: usize = 0;
        let mut i: usize = 0;
        assert(work.take(0) =~= Seq::<Task>::empty());
        while i < self.work.len()
            invariant
                i <= self.work.len(),
                work == self@.work,
                n <= i,
                n == all_advances(work.take(i as int)),
            decreases self.work.len() - i,
        {
            proof {
                assert(work[i as int] == self.work@[i as int]@);
                assert(work.take(i + 1).drop_last() =~= work.take(i as int));
            }
            match &self.work[i] {
                RuntimeFormTask::HostAdvance(_) => {
                    n = n + 1;
                },
                _ => {},
            }
            i = i + 1;
        }
        assert(work.take(i as int) =~= work);
        n
    }

    /// Tells whether the host calls are numbered upwards and each has one task.
    #[verifier::loop_isolation(false)]
    pub fn host_scopes_valid(&self) -> (r: bool)
        ensures
            r == scopes_valid(self@),
    {
        let ghost form = self@;
        if self.next_host_scope == 0 {
            return false;
        }
        let mut previous: u64 = 0;
        let mut i: usize = 0;
        while i < self.host_calls.len()
            invariant
                i <= self.host_calls.len(),
                previous == (if i > 0 {
                    form.host_calls[i - 1].id
                } else {
                    0
                }),
                forall|j: int|
                    0 <= j < i ==> {
                        &&& (#[trigger] form.host_calls[j]).id > (if j > 0 {
                            form.host_calls[j - 1].id
                        } else {
                            0
                        })
                        &&& form.host_calls[j].id < form.next_host_scope
                        &&& advances(form.work, form.host_calls[j].id) == 1
                    },
            decreases self.host_calls.len() - i,
        {
            let id: u64 = self.host_calls[i].id;
            assert(form.host_calls[i as int] == self.host_calls@[i as int]@);
            if id <= previous || id >= self.next_host_scope || self.count_advances(id) != 1 {
                return false;
            }
            previous = id;
            i = i + 1;
        }
        assert(form.host_calls.len() == self.host_calls@.len());
        self.count_all_advances() == self.host_calls.len()
    }

    fn is_host_valid(&self, program: &ProgramGeneration, limit: usize, call: &RuntimeHostCall) -> (r:
        bool)
        ensures
            r == host_valid(self@, *program, limit, call@),
    {
        proof {
            ast::lemma_argument_trees(call.source@);
        }
        let planned = match self.lookup_bound_call(call.site) {
            Some(RuntimeBoundCall::Host(b)) => forms::same_host(b, &call.bound),
            _ => false,
        };
        if !planned || !self.validate_call_arguments(program, call.site, &call.source) {
            return false;
        }
        let family = match form_binding::family(program, call.bound.family_key) {
            Err(_) => {
                return false;
            },
            Ok(f) => f,
        };
        let stage: RuntimeHostStage = match &call.phase {
            HostPhase::Collect { stage, count } => {
                let expected: Option<usize> = match *stage {
                    RuntimeHostStage::Call => Some(call.source.len()),
                    RuntimeHostStage::MeasureLength => Some(1),
                    RuntimeHostStage::LinesBegin => Some(1),
                    RuntimeHostStage::LengthUnit => Some(1),
                    RuntimeHostStage::LinesStep => Some(1),
                    _ => None,
                };
                let fits = match expected {
                    Some(n) => n == *count,
                    None => false,
                };
                if !fits {
                    return false;
                }
                *stage
            },
            HostPhase::Ready { stage, .. } => *stage,
            HostPhase::Waiting { stage, stack_depth } => {
                if *stack_depth > limit {
                    return false;
                }
                *stage
            },
        };
        let target = match family.stage_import(&call.bound, stage) {
            None => {
                return false;
            },
            Some(t) => t,
        };
        match &call.phase {
            HostPhase::Ready { arguments, .. } => {
                if !has_types(arguments, &target.import.parameters) {
                    return false;
                }
            },
            _ => {},
        }
        let ghost prefix = call@.prefix;
        assert(prefix.len() == call.prefix@.len());
        match stage {
            RuntimeHostStage::Call | RuntimeHostStage::MeasureLength
            | RuntimeHostStage::LinesBegin => call.prefix.len() == 0,
            _ => {
                if call.prefix.len() != 1 {
                    return false;
                }
                assert(prefix[0] == call.prefix@[0]@);
                let unit = match stage {
                    RuntimeHostStage::LengthUnit => true,
                    _ => false,
                };
                match &call.prefix[0] {
                    VmValue::Integer(_) => unit,
                    VmValue::String(_) => !unit,
                    _ => false,
                }
            },
        }
    }

    /// Tells whether every host call is in a stage that it can be in.
    pub fn valid_host_symbols(&self, program: &ProgramGeneration, limit: usize) -> (r: bool)
        ensures
            r == symbols_valid(self@, *program, limit),
    {
        let ghost form = self@;
        if !self.host_scopes_valid() {
            return false;
        }
        let mut i: usize = 0;
        while i < self.host_calls.len()
            invariant
                i <= self.host_calls.len(),
                form == self@,
                forall|j: int|
                    0 <= j < i ==> host_valid(
                        form,
                        *program,
                        limit,
                        #[trigger] form.host_calls[j],
                    ),
            decreases self.host_calls.len() - i,
        {
            assert(form.host_calls[i as int] == self.host_calls@[i as int]@);
            if !self.is_host_valid(program, limit, &self.host_calls[i]) {
                return false;
            }
            i = i + 1;
        }
        true
    }

    /// Tells whether a host call holds a ticket of lines.
    pub fn scope_has_html_ticket(&self, scope: RuntimeHostScope, ticket: &str) -> (r: bool)
        ensures
            r == holds_ticket(self@, scope, ticket@),
    {
        if !self.contains_host_scope(scope) {
            return false;
        }
        let call = match self.find_host(scope.occurrence) {
            None => {
                return false;
            },
            Some(i) => &self.host_calls[i],
        };
        let ghost prefix = call@.prefix;
        assert(prefix.len() == call.prefix@.len());
        if call.prefix.len() != 1 {
            return false;
        }
        assert(prefix[0] == call.prefix@[0]@);
        let same = match &call.prefix[0] {
            VmValue::String(s) => text::same_text(s.as_str(), ticket),
            _ => false,
        };
        proof {
            if same {
                assert(prefix =~= seq![Val::Text(ticket@)]);
            } else if prefix == seq![Val::Text(ticket@)] {
                assert(prefix[0] == Val::Text(ticket@));
            }
        }
        same && match &call.phase {
            HostPhase::Collect { stage, .. } => match *stage {
                RuntimeHostStage::LinesStep => true,
                _ => false,
            },
            HostPhase::Ready { stage, .. } => stage_lines(*stage),
            HostPhase::Waiting { stage, .. } => stage_lines(*stage),
        }
    }

    /// The tickets of lines that the host calls hold, with their scopes.
    pub fn html_scope_tickets(&self, fiber: FiberId) -> (r: Vec<(RuntimeHostScope, String)>)
        requires
            self@.instruction <= u32::MAX,
        ensures
            ticket_views(r@) == tickets(self@, fiber, self@.host_calls.len()),
    {
        let ghost form = self@;
        let mut out: Vec<(RuntimeHostScope, String)> = Vec::new();
        let mut i: usize = 0;
        assert(ticket_views(out@) =~= Seq::empty());
        assert(form.host_calls.len() == self.host_calls@.len());
        while i < self.host_calls.len()
            invariant
                i <= self.host_calls.len(),
                form == self@,
                form.instruction <= u32::MAX,
                ticket_views(out@) == tickets(form, fiber, i as nat),
            decreases self.host_calls.len() - i,
        {
            let call = &self.host_calls[i];
            assert(form.host_calls[i as int] == call@);
            let scope = RuntimeHostScope {
                fiber,
                frame: self.frame,
                generation: self.generation,
                function: self.function,
                instruction: self.instruction as u32,
                occurrence: call.id,
            };
            let ghost before = out@;
            assert(call@.prefix.len() == call.prefix@.len());
            if call.prefix.len() > 0 {
                assert(call@.prefix[0] == call.prefix@[0]@);
                match &call.prefix[0] {
                    VmValue::String(ticket) => {
                        if self.scope_has_html_ticket(scope, ticket.as_str()) {
                            let copy = ticket.clone();
                            out.push((scope, copy));
                            assert(ticket_views(out@) =~= ticket_views(before).push(
                                (scope, ticket@),
                            ));
                        }
                    },
                    _ => {},
                }
            }
            i = i + 1;
        }
        out
    }

    /// Tells whether the host calls are such that they can be kept while nothing runs.
    #[verifier::loop_isolation(false)]
    pub fn valid_host_snapshot(&self, vm: &Vm, fiber: &Fiber) -> (r: bool)
        ensures
            r == snapshot_valid(vm@, fiber@, self@),
    {
        let program = match vm.program(self.generation) {
            None => {
                return false;
            },
            Some(p) => p,
        };
        if !self.valid_host_symbols(&program, vm.config.maximum_operand_stack) {
            return false;
        }
        match &fiber.state {
            FiberState::WaitingHost(_) => {},
            _ => {
                return true;
            },
        }
        let ghost form = self@;
        let mut i: usize = 0;
        while i < self.host_calls.len()
            invariant
                i <= self.host_calls.len(),
                form == self@,
                forall|j: int| 0 <= j < i ==> (#[trigger] form.host_calls[j]).phase is Collect,
            decreases self.host_calls.len() - i,
        {
            assert(form.host_calls[i as int] == self.host_calls@[i as int]@);
            match &self.host_calls[i].phase {
                HostPhase::Collect { .. } => {},
                _ => {
                    assert(!(form.host_calls[i as int].phase is Collect));
                    return false;
                },
            }
            i = i + 1;
        }
        true
    }
}

/// The host calls below a number.
pub open spec fn kept_below(calls: Seq<HostCall>, frontier: u64) -> Seq<HostCall>
    decreases calls.len(),
{
    if calls.len() == 0 {
        Seq::empty()
    } else if calls.last().id < frontier {
        kept_below(calls.drop_last(), frontier).push(calls.last())
    } else {
        kept_below(calls.drop_last(), frontier)
    }
}

pub open spec fn ticket_views(s: Seq<(RuntimeHostScope, String)>) -> Seq<
    (RuntimeHostScope, Seq<char>),
> {
    s.map_values(|t: (RuntimeHostScope, String)| (t.0, t.1@))
}

/// The tickets of lines that the first `n` host calls hold, with their scopes.
pub open spec fn tickets(form: Form, fiber: FiberId, n: nat) -> Seq<(RuntimeHostScope, Seq<char>)>
    decreases n,
{
    if n == 0 {
        Seq::empty()
    } else {
        let before = tickets(form, fiber, (n - 1) as nat);
        let call = form.host_calls[n - 1];
        let scope = scope_of(form, fiber, call.id);
        if call.prefix.len() > 0 {
            match call.prefix[0] {
                Val::Text(ticket) => if holds_ticket(form, scope, ticket) {
                    before.push((scope, ticket))
                } else {
                    before
                },
                _ => before,
            }
        } else {
            before
        }
    }
}

/// Host calls that can be kept while nothing runs: where the fiber waits for the host, only
/// operands are collected.
pub open spec fn snapshot_valid(vm: VmModel, fiber: FiberModel, form: Form) -> bool {
    match vm.program(form.generation) {
        None => false,
        Some(program) => {
            &&& symbols_valid(form, program, vm.config.maximum_operand_stack)
            &&& fiber.state is WaitingHost ==> forall|i: int|
                0 <= i < form.host_calls.len() ==> (#[trigger] form.host_calls[i]).phase is Collect
        },
    }
}

/// A ticket of lines is kept from the moment it was given until the lines end.
pub proof fn law_ticket_is_kept(form: Form, stage: RuntimeHostStage, v: Val)
    requires
        form.host_calls.len() > 0,
        stage is LinesMore || stage is LinesStep,
        prefix_fits(stage, form.host_calls.last().prefix),
        result_accepted(form, stage, v).1 is Ok,
    ensures
        ({
            let after = result_accepted(form, stage, v).0;
            &&& after.host_calls.len() == form.host_calls.len()
            &&& after.host_calls.last().prefix =~= form.host_calls.last().prefix
            &&& ticket_phase(after.host_calls.last().phase)
        }),
{
}

} // verus!
