//! Dynamic jumps, events, and the ends of execution.

use vstd::prelude::*;
use crate::basic::{self, Step};
use crate::fastpaths;
use crate::fault::{self, Failure, FaultCategory, StepError, VmFaultCode};
use crate::frames;
use crate::lookup;
use crate::operand;
use crate::program::{
    BytecodeEventEntry, BytecodeFunction, BytecodeFunctionKind, BytecodeLabel, EventGroup, Opcode,
    ProgramGeneration,
};
use crate::state::{
    self, At, EventDispatch, EventDispatchEntry, EventModel, Fiber, FiberModel, FiberState,
    FrameModel, InstructionPosition, Outcome, StepOutcome, Store, Vm, VmDiagnosticNotification,
    VmModel, STRUCTURED_GOTO_DIAGNOSTIC_CODE, STRUCTURED_GOTO_DIAGNOSTIC_MESSAGE,
};
use crate::text;
use crate::utf8;
use crate::value::{self, BytecodeType, FrameId, GenerationId, Val, VmValue};

verus! {

pub open spec fn group_named(name: Seq<char>) -> spec_fn(EventGroup) -> bool {
    |g: EventGroup| text::same_ignoring_case(g.name@, name)
}

/// Handlers with their group number.
pub open spec fn tagged(entries: Seq<BytecodeEventEntry>, group: u8) -> Seq<EventDispatchEntry> {
    entries.map_values(
        |e: BytecodeEventEntry|
            EventDispatchEntry { function: e.function, single: e.single, group },
    )
}

/// The handlers of an event in the order they run: the exclusive ones alone, else priority, normal
/// and late ones.
pub open spec fn handler_order(group: EventGroup) -> Seq<EventDispatchEntry> {
    if group.only@.len() == 0 {
        tagged(group.priority@, 1) + tagged(group.normal@, 2) + tagged(group.later@, 3)
    } else {
        tagged(group.only@, 0)
    }
}

fn push_tagged(
    out: &mut Vec<EventDispatchEntry>,
    entries: &Vec<BytecodeEventEntry>,
    group: u8,
)
    ensures
        final(out)@ == old(out)@ + tagged(entries@, group),
{
    let mut i: usize = 0;
    assert(out@ =~= old(out)@ + tagged(entries@, group).take(0));
    while i < entries.len()
        invariant
            i <= entries.len(),
            out@ == old(out)@ + tagged(entries@, group).take(i as int),
        decreases entries.len() - i,
    {
        let e = entries[i];
        out.push(EventDispatchEntry { function: e.function, single: e.single, group });
        i = i + 1;
        assert(out@ =~= old(out)@ + tagged(entries@, group).take(i as int));
    }
    assert(tagged(entries@, group).take(i as int) =~= tagged(entries@, group));
}

fn ordered_handlers(group: &EventGroup) -> (r: Vec<EventDispatchEntry>)
    ensures
        r@ == handler_order(*group),
{
    let mut out: Vec<EventDispatchEntry> = Vec::new();
    if group.only.len() == 0 {
        push_tagged(&mut out, &group.priority, 1);
        push_tagged(&mut out, &group.normal, 2);
        push_tagged(&mut out, &group.later, 3);
    } else {
        push_tagged(&mut out, &group.only, 0);
    }
    assert(out@ =~= handler_order(*group));
    out
}

fn find_group<'a>(program: &'a ProgramGeneration, name: &str) -> (r: Option<&'a EventGroup>)
    ensures
        match r {
            Some(g) => lookup::first_index(program.event_groups@, group_named(name@)) matches Some(
                i,
            ) && *g == program.event_groups@[i],
            None => lookup::first_index(program.event_groups@, group_named(name@)) is None,
        },
{
    let mut i: usize = 0;
    while i < program.event_groups.len()
        invariant
            i <= program.event_groups.len(),
            forall|j: int| 0 <= j < i ==> !group_named(name@)(#[trigger] program.event_groups@[j]),
        decreases program.event_groups.len() - i,
    {
        if text::eq_ignore_ascii_case(program.event_groups[i].name.as_str(), name) {
            proof {
                lookup::lemma_first_found(program.event_groups@, group_named(name@), i as int);
            }
            return Some(&program.event_groups[i]);
        }
        i = i + 1;
    }
    None
}

/// What starting the handlers of an event does.
pub open spec fn event_start(
    vm: VmModel,
    fiber: FiberModel,
    generation: GenerationId,
    name: Seq<char>,
) -> (VmModel, FiberModel, Result<bool, Failure>) {
    match vm.program(generation) {
        None => (
            vm,
            fiber,
            Err(Failure::of(VmFaultCode::MissingSymbol, "event generation is missing"@)),
        ),
        Some(program) => match lookup::first_index(program.event_groups@, group_named(name)) {
            None => (vm, fiber, Ok(false)),
            Some(g) => {
                let handlers = handler_order(program.event_groups@[g]);
                if handlers.len() == 0 {
                    (vm, fiber, Ok(false))
                } else {
                    first_handler(vm, fiber, generation, program, handlers)
                }
            },
        },
    }
}

/// What starting a non-empty list of handlers does.
pub open spec fn first_handler(
    vm: VmModel,
    fiber: FiberModel,
    generation: GenerationId,
    program: ProgramGeneration,
    handlers: Seq<EventDispatchEntry>,
) -> (VmModel, FiberModel, Result<bool, Failure>) {
    if fiber.frames.len() >= vm.config.maximum_call_depth {
        (
            vm,
            fiber,
            Err(
                Failure {
                    category: FaultCategory::ResourceLimit,
                    code: VmFaultCode::ResourceLimit,
                    message: "maximum call depth exceeded while starting event dispatch"@,
                },
            ),
        )
    } else {
        match program.spec_function(handlers[0].function) {
            None => (
                vm,
                fiber,
                Err(Failure::of(VmFaultCode::MissingSymbol, "event function is missing"@)),
            ),
            Some(target) => if !(target.kind is Event) || target.parameters@.len() > 0 {
                (
                    vm,
                    fiber,
                    Err(Failure::invalid("event group target is not a parameterless event"@)),
                )
            } else {
                let vm1 = VmModel {
                    store: Store {
                        statics: frames::with_statics(
                            vm.store.statics,
                            program.globals@,
                            target.key,
                        ),
                        ..vm.store
                    },
                    ..vm
                };
                if fiber.frames.len() == 0 {
                    (vm1, fiber, Err(Failure::invalid("missing event caller"@)))
                } else {
                    let caller = FrameModel {
                        event_dispatch: Some(
                            EventModel { active: handlers[0], pending: handlers.skip(1) },
                        ),
                        ..fiber.top()
                    };
                    let callee = frames::fresh_frame(
                        FrameId(vm.next_frame),
                        generation,
                        program,
                        *target,
                        Seq::empty(),
                        false,
                        true,
                    );
                    (
                        VmModel { next_frame: vm.next_frame.wrapping_add(1), ..vm1 },
                        FiberModel {
                            frames: fiber.with_top(caller).frames.push(callee),
                            ..fiber
                        },
                        Ok(true),
                    )
                }
            },
        }
    }
}

impl Vm {
    /// Starts the handlers of an event on the running frame. A missing group is no failure.
    pub fn start_event_dispatch(
        &mut self,
        fiber: &mut Fiber,
        generation: GenerationId,
        name: &str,
    ) -> (r: Result<bool, StepError>)
        requires
            old(self)@.program(generation) matches Some(p) ==> frames::arrays_fit(p),
        ensures
            (final(self)@, final(fiber)@, fault::outcome(r)) == event_start(
                old(self)@,
                old(fiber)@,
                generation,
                name@,
            ),
    {
        let program = match self.program(generation) {
            None => {
                return Err(
                    StepError::new(VmFaultCode::MissingSymbol, "event generation is missing"),
                );
            },
            Some(p) => p,
        };
        let group = match find_group(&*program, name) {
            None => {
                return Ok(false);
            },
            Some(g) => g,
        };
        let mut pending = ordered_handlers(group);
        if pending.len() == 0 {
            return Ok(false);
        }
        let ghost handlers = pending@;
        let active = pending.remove(0);
        assert(pending@ =~= handlers.skip(1));
        if fiber.frames.len() >= self.config.maximum_call_depth {
            return Err(
                StepError::classified(
                    FaultCategory::ResourceLimit,
                    VmFaultCode::ResourceLimit,
                    "maximum call depth exceeded while starting event dispatch",
                ),
            );
        }
        let target = match program.function(active.function) {
            None => {
                return Err(
                    StepError::new(VmFaultCode::MissingSymbol, "event function is missing"),
                );
            },
            Some(f) => f,
        };
        if target.kind != BytecodeFunctionKind::Event || target.parameters.len() > 0 {
            return Err(
                StepError::new(
                    VmFaultCode::InvalidInstruction,
                    "event group target is not a parameterless event",
                ),
            );
        }
        self.memory.ensure_function_statics(&*program, target.key);
        if fiber.frames.len() == 0 {
            return Err(StepError::new(VmFaultCode::InvalidInstruction, "missing event caller"));
        }
        fiber.top_mut().event_dispatch = Some(EventDispatch { active, pending });
        let arguments: Vec<VmValue> = Vec::new();
        assert(value::vals(arguments@) =~= Seq::<Val>::empty());
        let id = self.allocate_frame_id();
        let callee = frames::make_frame(id, generation, &*program, target, arguments, false, true);
        let ghost before = fiber.frames@;
        fiber.frames.push(callee);
        assert(state::frame_views(fiber.frames@) =~= state::frame_views(before).push(callee@));
        Ok(true)
    }
}

pub open spec fn label_named(name: Seq<char>) -> spec_fn(BytecodeLabel) -> bool {
    |l: BytecodeLabel| text::same_ignoring_case(l.name@, name)
}

/// The instruction of a label, or the one for missing labels.
pub open spec fn label_target(labels: Seq<BytecodeLabel>, name: Seq<char>, missing: usize) -> usize {
    match lookup::first_index(labels, label_named(name)) {
        Some(i) => labels[i].instruction as usize,
        None => missing,
    }
}

fn find_label(labels: &Vec<BytecodeLabel>, name: &str, missing: usize) -> (r: usize)
    ensures
        r == label_target(labels@, name@, missing),
{
    let mut i: usize = 0;
    while i < labels.len()
        invariant
            i <= labels.len(),
            forall|j: int| 0 <= j < i ==> !label_named(name@)(#[trigger] labels@[j]),
        decreases labels.len() - i,
    {
        if text::eq_ignore_ascii_case(labels[i].name.as_str(), name) {
            proof {
                lookup::lemma_first_found(labels@, label_named(name@), i as int);
            }
            return labels[i].instruction as usize;
        }
        i = i + 1;
    }
    missing
}

/// Jumps to the label that the text on top names.
pub open spec fn dynamic_label_step(vm: VmModel, fiber: FiberModel, at: At) -> Step {
    match operand::u32_at(at.payload, 0) {
        Err(e) => basic::fail(vm, fiber, e),
        Ok(missing) => {
            let taken = operand::popped_text(
                fiber.top().stack,
                "dynamic label target must be a string"@,
            );
            let after = fiber.with_stack(taken.0);
            match taken.1 {
                Err(e) => basic::fail(vm, after, e),
                Ok(name) => {
                    let program = vm.program(at.generation)->Some_0;
                    let function = program.spec_function(at.function)->Some_0;
                    let target = label_target(function.labels@, name, missing as usize);
                    let (frame, entered) = fastpaths::jumped(
                        vm,
                        after.top(),
                        at.generation,
                        at.function,
                        at.instruction,
                        target,
                    );
                    (
                        vm,
                        after.with_top(FrameModel { instruction: target, ..frame }),
                        Ok(
                            if entered {
                                state::structured_goto()
                            } else {
                                Outcome::Continue
                            },
                        ),
                    )
                },
            }
        },
    }
}

/// A function that bears a name but is no event.
pub open spec fn plain_function_named(functions: Seq<BytecodeFunction>, name: Seq<char>) -> bool {
    exists|i: int|
        0 <= i < functions.len() && text::same_ignoring_case(
            (#[trigger] functions[i]).name@,
            name,
        ) && !(functions[i].kind is Event)
}

fn has_plain_function(functions: &Vec<BytecodeFunction>, name: &str) -> (r: bool)
    ensures
        r == plain_function_named(functions@, name@),
{
    let mut i: usize = 0;
    while i < functions.len()
        invariant
            i <= functions.len(),
            forall|j: int|
                0 <= j < i ==> !(text::same_ignoring_case(
                    (#[trigger] functions@[j]).name@,
                    name@,
                ) && !(functions@[j].kind is Event)),
        decreases functions.len() - i,
    {
        if text::eq_ignore_ascii_case(functions[i].name.as_str(), name) && functions[i].kind
            != BytecodeFunctionKind::Event {
            return true;
        }
        i = i + 1;
    }
    false
}

/// Raises the event that the text on top names.
pub open spec fn invoke_event_step(vm: VmModel, fiber: FiberModel, at: At) -> Step {
    let taken = operand::popped_text(fiber.top().stack, "event target must be a string"@);
    let after = fiber.with_stack(taken.0);
    match taken.1 {
        Err(e) => basic::fail(vm, after, e),
        Ok(name) => if after.top().event_context {
            basic::fail(
                vm,
                after,
                Failure::of(
                    VmFaultCode::Trap,
                    "CALLEVENT is not allowed inside an event dispatch"@,
                ),
            )
        } else {
            let started = event_start(vm, after, at.generation, name);
            match started.2 {
                Err(e) => basic::fail(started.0, started.1, e),
                Ok(true) => basic::go(started.0, started.1),
                Ok(false) => if plain_function_named(
                    vm.program(at.generation)->Some_0.functions@,
                    name,
                ) {
                    basic::fail(
                        started.0,
                        started.1,
                        Failure::of(
                            VmFaultCode::TypeMismatch,
                            "CALLEVENT target "@ + name + " is not an event"@,
                        ),
                    )
                } else {
                    basic::go(started.0, started.1)
                },
            }
        },
    }
}

/// Returns from the running frame, with the top value where the operand asks for one.
pub open spec fn return_step(vm: VmModel, fiber: FiberModel, at: At) -> Step {
    if at.payload.len() > 0 && at.payload[0] != 0 {
        if fiber.top().stack.len() == 0 {
            basic::fail(vm, fiber, operand::underflow())
        } else {
            (
                vm,
                fiber.with_stack(fiber.top().stack.drop_last()),
                Ok(Outcome::Returned(Some(fiber.top().stack.last()))),
            )
        }
    } else {
        (vm, fiber, Ok(Outcome::Returned(None)))
    }
}

/// The type behind a type tag.
pub open spec fn type_of_tag(tag: u8) -> Option<BytecodeType> {
    if tag == 0 {
        Some(BytecodeType::Integer)
    } else if tag == 1 {
        Some(BytecodeType::String)
    } else if tag == 2 {
        Some(BytecodeType::IntegerPlace)
    } else if tag == 3 {
        Some(BytecodeType::StringPlace)
    } else {
        None
    }
}

/// Decodes a type tag.
pub fn decode_type(tag: u8) -> (r: Option<BytecodeType>)
    ensures
        r == type_of_tag(tag),
{
    match tag {
        0 => Some(BytecodeType::Integer),
        1 => Some(BytecodeType::String),
        2 => Some(BytecodeType::IntegerPlace),
        3 => Some(BytecodeType::StringPlace),
        _ => None,
    }
}

/// Waits until a value of a type is handed in.
pub open spec fn await_step(vm: VmModel, fiber: FiberModel, at: At) -> Step {
    if at.payload.len() == 0 {
        basic::fail(vm, fiber, Failure::invalid("missing resume type"@))
    } else {
        match type_of_tag(at.payload[0]) {
            None => basic::fail(vm, fiber, Failure::invalid("invalid resume type"@)),
            Some(t) => (
                vm,
                FiberModel { state: state::StateModel::WaitingResume(t), ..fiber },
                Ok(Outcome::Blocked),
            ),
        }
    }
}

/// What a step of this family does; nothing for other operations.
pub open spec fn terminal(vm: VmModel, fiber: FiberModel, at: At, opcode: Opcode) -> Option<Step> {
    match opcode {
        Opcode::JumpDynamicLabel => Some(dynamic_label_step(vm, fiber, at)),
        Opcode::InvokeEvent => Some(invoke_event_step(vm, fiber, at)),
        Opcode::Return => Some(return_step(vm, fiber, at)),
        Opcode::Yield => Some((vm, fiber, Ok(Outcome::Yielded))),
        Opcode::AwaitResume => Some(await_step(vm, fiber, at)),
        Opcode::Trap => Some(
            basic::fail(vm, fiber, Failure::of(VmFaultCode::Trap, utf8::lossy_text(at.payload))),
        ),
        _ => None,
    }
}

/// The program and the function that a position names exist, and the program fits the machine.
pub open spec fn position_resolves(vm: VmModel, at: At) -> bool {
    vm.program(at.generation) matches Some(p) && p.spec_function(at.function) is Some
        && frames::arrays_fit(p)
}

impl Vm {
    fn step_dynamic_label(&mut self, fiber: &mut Fiber, position: &InstructionPosition<'_>) -> (r:
        Result<StepOutcome, StepError>)
        requires
            old(fiber)@.frames.len() > 0,
            position_resolves(old(self)@, position@),
        ensures
            (final(self)@, final(fiber)@, fault::outcome(r)) == dynamic_label_step(
                old(self)@,
                old(fiber)@,
                position@,
            ),
    {
        let missing: usize = match operand::read_u32(position.payload, 0) {
            Ok(n) => n as usize,
            Err(e) => {
                return Err(e);
            },
        };
        let name = match operand::pop_text(
            &mut fiber.top_mut().stack,
            "dynamic label target must be a string",
        ) {
            Ok(t) => t,
            Err(e) => {
                return Err(e);
            },
        };
        let target: usize = match self.program(position.generation) {
            None => missing,
            Some(program) => match program.function(position.function) {
                None => missing,
                Some(f) => find_label(&f.labels, name.as_str(), missing),
            },
        };
        let entered: bool = self.reconcile_structured_jump(fiber, position, target);
        fiber.top_mut().instruction = target;
        if entered {
            return Ok(
                StepOutcome::Diagnostic {
                    code: STRUCTURED_GOTO_DIAGNOSTIC_CODE,
                    message: STRUCTURED_GOTO_DIAGNOSTIC_MESSAGE,
                    notification: VmDiagnosticNotification::LogOnly,
                },
            );
        }
        Ok(StepOutcome::Continue)
    }

    fn step_invoke_event(&mut self, fiber: &mut Fiber, position: &InstructionPosition<'_>) -> (r:
        Result<StepOutcome, StepError>)
        requires
            old(fiber)@.frames.len() > 0,
            position_resolves(old(self)@, position@),
        ensures
            (final(self)@, final(fiber)@, fault::outcome(r)) == invoke_event_step(
                old(self)@,
                old(fiber)@,
                position@,
            ),
    {
        let name = match operand::pop_text(
            &mut fiber.top_mut().stack,
            "event target must be a string",
        ) {
            Ok(t) => t,
            Err(e) => {
                return Err(e);
            },
        };
        if fiber.top().event_context {
            return Err(
                StepError::new(
                    VmFaultCode::Trap,
                    "CALLEVENT is not allowed inside an event dispatch",
                ),
            );
        }
        let plain: bool = match self.program(position.generation) {
            None => false,
            Some(program) => has_plain_function(&program.functions, name.as_str()),
        };
        match self.start_event_dispatch(fiber, position.generation, name.as_str()) {
            Err(e) => Err(e),
            Ok(started) => {
                if !started && plain {
                    let message = text::join3(
                        "CALLEVENT target ",
                        name.as_str(),
                        " is not an event",
                    );
                    return Err(StepError::new(VmFaultCode::TypeMismatch, message.as_str()));
                }
                Ok(StepOutcome::Continue)
            },
        }
    }

    fn step_await(&mut self, fiber: &mut Fiber, position: &InstructionPosition<'_>) -> (r: Result<
        StepOutcome,
        StepError,
    >)
        ensures
            (final(self)@, final(fiber)@, fault::outcome(r)) == await_step(
                old(self)@,
                old(fiber)@,
                position@,
            ),
    {
        if position.payload.len() == 0 {
            return Err(StepError::new(VmFaultCode::InvalidInstruction, "missing resume type"));
        }
        match decode_type(position.payload[0]) {
            None => Err(StepError::new(VmFaultCode::InvalidInstruction, "invalid resume type")),
            Some(t) => {
                fiber.state = FiberState::WaitingResume(t);
                Ok(StepOutcome::Blocked)
            },
        }
    }

    /// Executes one operation of this family on the running frame.
    pub fn dispatch_terminal(
        &mut self,
        fiber: &mut Fiber,
        position: &InstructionPosition<'_>,
        opcode: Opcode,
    ) -> (r: Result<Option<StepOutcome>, StepError>)
        requires
            position_resolves(old(self)@, position@),
        ensures
            (final(self)@, final(fiber)@, state::step_result(r)) == basic::dispatched(
                old(self)@,
                old(fiber)@,
                terminal(old(self)@, old(fiber)@, position@, opcode),
            ),
    {
        if fiber.frames.len() == 0 {
            return Err(StepError::new(VmFaultCode::InvalidInstruction, "missing frame"));
        }
        let r = match opcode {
            Opcode::JumpDynamicLabel => self.step_dynamic_label(fiber, position),
            Opcode::InvokeEvent => self.step_invoke_event(fiber, position),
            Opcode::Return => {
                if position.payload.len() > 0 && position.payload[0] != 0 {
                    match operand::pop(&mut fiber.top_mut().stack) {
                        Ok(v) => Ok(StepOutcome::Returned(Some(v))),
                        Err(e) => {
                            assert(fiber@ =~= old(fiber)@);
                            Err(e)
                        },
                    }
                } else {
                    Ok(StepOutcome::Returned(None))
                }
            },
            Opcode::Yield => Ok(StepOutcome::Yielded),
            Opcode::AwaitResume => self.step_await(fiber, position),
            Opcode::Trap => {
                let message = utf8::decode_lossy(position.payload);
                Err(StepError::new(VmFaultCode::Trap, message.as_str()))
            },
            _ => {
                return Ok(None);
            },
        };
        match r {
            Ok(o) => Ok(Some(o)),
            Err(e) => Err(e),
        }
    }
}

/// An event starts at its first handler, and the others wait in order; nothing else is started.
pub proof fn law_event_runs_handlers_in_order(
    vm: VmModel,
    fiber: FiberModel,
    generation: GenerationId,
    name: Seq<char>,
)
    requires
        fiber.frames.len() > 0,
        event_start(vm, fiber, generation, name).2 == Ok::<bool, Failure>(true),
    ensures
        ({
            let program = vm.program(generation)->Some_0;
            let group = lookup::first_index(program.event_groups@, group_named(name))->Some_0;
            let handlers = handler_order(program.event_groups@[group]);
            let after = event_start(vm, fiber, generation, name).1;
            &&& after.frames.len() == fiber.frames.len() + 1
            &&& after.top().function == handlers[0].function
            &&& after.top().event_context
            &&& after.frames[fiber.frames.len() - 1].event_dispatch matches Some(d)
                && seq![d.active] + d.pending == handlers
        }),
{
    let program = vm.program(generation)->Some_0;
    let group = lookup::first_index(program.event_groups@, group_named(name))->Some_0;
    let handlers = handler_order(program.event_groups@[group]);
    lookup::lemma_first_index(
        program.functions@,
        crate::program::function_key(handlers[0].function),
    );
    assert(seq![handlers[0]] + handlers.skip(1) =~= handlers);
}

} // verus!
