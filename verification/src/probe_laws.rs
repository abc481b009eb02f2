//! What EXISTVAR answers and how its probes end, and in which order the handlers of an event run.

use vstd::prelude::*;
use crate::call_laws;
use crate::existvar::{self, ExistVarCatchTarget};
use crate::fault::Failure;
use crate::instruction_laws;
use crate::lookup;
use crate::program::{
    self, BytecodeEventEntry, BytecodeGlobal, EventGroup, Opcode, ProgramGeneration,
};
use crate::state::{At, EventDispatchEntry, FiberModel, FrameModel, VmModel};
use crate::terminal;
use crate::text;
use crate::value::{GenerationId, SymbolKey, Val};

verus! {

/// The variable that a name means inside a function: its own one, else one of the whole program;
/// of several the first.
pub open spec fn is_meant(program: ProgramGeneration, function: SymbolKey, name: Seq<char>, k: int) -> bool {
    let globals = program.globals@;
    let own = |g: BytecodeGlobal|
        g.owner == Some(function) && text::same_ignoring_case(g.name@, name);
    let shared = |g: BytecodeGlobal| g.owner is None && text::same_ignoring_case(g.name@, name);
    &&& 0 <= k < globals.len()
    &&& {
        ||| own(globals[k]) && forall|j: int| 0 <= j < k ==> !own(#[trigger] globals[j])
        ||| shared(globals[k]) && (forall|j: int|
            0 <= j < globals.len() ==> !own(#[trigger] globals[j])) && forall|j: int|
            0 <= j < k ==> !shared(#[trigger] globals[j])
    }
}

/// A name means no variable.
pub open spec fn means_nothing(program: ProgramGeneration, function: SymbolKey, name: Seq<char>) -> bool {
    forall|j: int|
        0 <= j < program.globals@.len() ==> !(((#[trigger] program.globals@[j]).owner == Some(
            function,
        ) || program.globals@[j].owner is None) && text::same_ignoring_case(
            program.globals@[j].name@,
            name,
        ))
}

/// A name means the first variable of the function with it, else the first of the program; case
/// does not matter.
pub proof fn law_scoped_name(program: ProgramGeneration, function: SymbolKey, name: Seq<char>, k: int)
    ensures
        is_meant(program, function, name, k) ==> program.spec_scoped_variable(function, name)
            == Some(&program.globals@[k]),
        means_nothing(program, function, name) ==> program.spec_scoped_variable(function, name)
            is None,
{
    let globals = program.globals@;
    let own = program::local_named(function, name);
    let shared = program::global_named(name);
    lookup::lemma_first_index(globals, own);
    lookup::lemma_first_index(globals, shared);
    if is_meant(program, function, name, k) {
        if own(globals[k]) {
            assert forall|j: int| 0 <= j < k implies !own(#[trigger] globals[j]) by {}
            lookup::lemma_first_found(globals, own, k);
        } else {
            assert forall|j: int| 0 <= j < globals.len() implies !own(#[trigger] globals[j]) by {}
            lookup::lemma_first_none(globals, own);
            assert forall|j: int| 0 <= j < k implies !shared(#[trigger] globals[j]) by {}
            lookup::lemma_first_found(globals, shared, k);
        }
    }
    if means_nothing(program, function, name) {
        assert forall|j: int| 0 <= j < globals.len() implies !own(#[trigger] globals[j]) by {}
        assert forall|j: int| 0 <= j < globals.len() implies !shared(#[trigger] globals[j]) by {}
        lookup::lemma_first_none(globals, own);
        lookup::lemma_first_none(globals, shared);
    }
}

/// Asking what a name is replaces it by zero where it means no variable. Else the answer is one
/// for an integer and two for a text variable, four more for a constant, and eight more for two
/// dimensions, sixteen more for three.
pub proof fn law_name_is_described(
    vm: VmModel,
    fiber: FiberModel,
    at: At,
    probe: Result<(), Failure>,
    name: Seq<char>,
    k: int,
)
    requires
        vm.program(at.generation) is Some,
        fiber.frames.len() > 0,
        fiber.frames.last().stack.len() > 0,
        fiber.frames.last().stack.last() == Val::Text(name),
    ensures
        ({
            let program = vm.program(at.generation)->Some_0;
            let frame = fiber.frames.last();
            let g = program.globals@[k];
            let step = existvar::existvar(vm, fiber, at, Opcode::ProbeVariableName, probe)->Some_0;
            let answers = |n: int|
                step.2 is Ok && step.1 == instruction_laws::running(
                    fiber,
                    FrameModel {
                        stack: frame.stack.drop_last().push(Val::Integer(n as i64)),
                        ..frame
                    },
                );
            &&& means_nothing(program, at.function, name) ==> answers(0)
            &&& is_meant(program, at.function, name, k) && (g.value_type is Integer
                || g.value_type is String) ==> answers(
                (if g.value_type is Integer {
                    1int
                } else {
                    2int
                }) + (if g.mutable {
                    0int
                } else {
                    4int
                }) + (if g.dimensions@.len() == 2 {
                    8int
                } else if g.dimensions@.len() == 3 {
                    16int
                } else {
                    0int
                }),
            )
        }),
{
    let program = vm.program(at.generation)->Some_0;
    law_scoped_name(program, at.function, name, k);
    let vm1 = vm.without_path_memo(fiber.id);
    let step = existvar::probe_name(vm1, fiber.top(), at);
    instruction_laws::lemma_retopped(fiber, step.0);
}

/// A probe that ends without a failure takes its source and its token and answers one; where a
/// failure was caught there is no source, and it answers zero. Either way it is closed.
pub proof fn law_probe_answers(
    vm: VmModel,
    fiber: FiberModel,
    at: At,
    probe: Result<(), Failure>,
)
    requires
        fiber.frames.len() > 0,
        existvar::existvar(vm, fiber, at, Opcode::FinishExistVarProbe, probe)->Some_0.2 is Ok,
    ensures
        ({
            let frame = fiber.frames.last();
            let step = existvar::existvar(
                vm,
                fiber,
                at,
                Opcode::FinishExistVarProbe,
                probe,
            )->Some_0;
            let check = frame.existvar_checks.last();
            &&& frame.existvar_checks.len() > 0
            &&& at.payload.len() > 4 && at.payload[4] <= 1
            &&& check.begin == call_laws::four_bytes(at.payload, 0)
            &&& check.caught <==> at.payload[4] == 1
            &&& !check.caught ==> probe is Ok
            &&& step.1 == instruction_laws::running(
                fiber,
                FrameModel {
                    stack: frame.stack.take(
                        frame.stack.len() - if check.caught {
                            1int
                        } else {
                            2int
                        },
                    ).push(
                        Val::Integer(
                            if check.caught {
                                0
                            } else {
                                1
                            },
                        ),
                    ),
                    existvar_checks: frame.existvar_checks.drop_last(),
                    ..frame
                },
            )
        }),
{
    call_laws::law_operand_numbers(at.payload, 0);
    let step = existvar::finish_probe(fiber.top(), at, probe);
    instruction_laws::lemma_retopped(fiber, step.0);
}

/// Behind a caught failure the frame goes on at the instruction that the probe names for it, with
/// the probe marked; nothing else changes.
pub proof fn law_caught_failure_goes_on(fiber: FiberModel, target: ExistVarCatchTarget)
    requires
        existvar::caught(fiber, target).1 is Ok,
    ensures
        ({
            let after = existvar::caught(fiber, target).0;
            let frame = fiber.frames.last();
            let now = after.frames.last();
            &&& after.frames.len() == fiber.frames.len()
            &&& after.frames.drop_last() == fiber.frames.drop_last()
            &&& frame.existvar_checks.len() > 0 && !frame.existvar_checks.last().caught
            &&& now.instruction == frame.existvar_checks.last().failure
            &&& now.existvar_checks.len() == frame.existvar_checks.len()
            &&& now.existvar_checks.drop_last() == frame.existvar_checks.drop_last()
            &&& now.existvar_checks.last().caught
            &&& now.existvar_checks.last().failure == frame.existvar_checks.last().failure
            &&& now.existvar_checks.last().begin == frame.existvar_checks.last().begin
            &&& now.stack == frame.stack && now.locals == frame.locals
        }),
{
    let after = existvar::caught(fiber, target).0;
    let frame = fiber.frames.last();
    assert(after.frames.drop_last() =~= fiber.frames.drop_last());
    assert(after.frames.last().existvar_checks.drop_last()
        =~= frame.existvar_checks.drop_last());
}

/// Handlers follow entries: the same functions with the same flags, of one group.
pub open spec fn follows(handlers: Seq<EventDispatchEntry>, from: int, entries: Seq<BytecodeEventEntry>, group: int) -> bool {
    forall|i: int|
        0 <= i < entries.len() ==> handlers[from + i].function == (#[trigger] entries[i]).function
            && handlers[from + i].single == entries[i].single && handlers[from + i].group == group
}

/// The handlers that are to run for an event: the exclusive ones alone where there are any, else
/// those with priority, then the normal ones, then the late ones.
pub open spec fn runs_all(group: EventGroup, handlers: Seq<EventDispatchEntry>) -> bool {
    let p = group.priority@.len() as int;
    let n = group.normal@.len() as int;
    let l = group.later@.len() as int;
    if group.only@.len() > 0 {
        handlers.len() == group.only@.len() && follows(handlers, 0, group.only@, 0)
    } else {
        &&& handlers.len() == p + n + l
        &&& follows(handlers, 0, group.priority@, 1)
        &&& follows(handlers, p, group.normal@, 2)
        &&& follows(handlers, p + n, group.later@, 3)
    }
}

/// Raising an event enters the first of its handlers above the raising frame, which keeps the
/// others in their order; an event without a group, or with an empty one, enters nothing.
pub proof fn law_event_handlers(
    vm: VmModel,
    fiber: FiberModel,
    generation: GenerationId,
    name: Seq<char>,
    k: int,
)
    requires
        fiber.frames.len() > 0,
        vm.program(generation) is Some,
    ensures
        ({
            let program = vm.program(generation)->Some_0;
            let groups = program.event_groups@;
            let (vm1, after, r) = terminal::event_start(vm, fiber, generation, name);
            let n = fiber.frames.len();
            &&& (forall|i: int|
                0 <= i < groups.len() ==> !text::same_ignoring_case(
                    (#[trigger] groups[i]).name@,
                    name,
                )) ==> r == Ok::<bool, Failure>(false) && after == fiber && vm1 == vm
            &&& 0 <= k < groups.len() && text::same_ignoring_case(groups[k].name@, name) && (forall|
                i: int,
            |
                0 <= i < k ==> !text::same_ignoring_case((#[trigger] groups[i]).name@, name))
                ==> {
                &&& r == Ok::<bool, Failure>(true) ==> after.frames.len() == n + 1
                    && after.frames.take(n - 1) == fiber.frames.take(n - 1)
                    && after.frames[n as int].event_context && after.frames[n as int].instruction
                    == 0 && (after.frames[n - 1].event_dispatch matches Some(d) && runs_all(
                    groups[k],
                    seq![d.active] + d.pending,
                ) && after.frames[n as int].function == d.active.function)
                &&& r == Ok::<bool, Failure>(false) <==> groups[k].only@.len() == 0
                    && groups[k].priority@.len() == 0 && groups[k].normal@.len() == 0
                    && groups[k].later@.len() == 0
            }
        }),
{
    let program = vm.program(generation)->Some_0;
    let groups = program.event_groups@;
    let p = terminal::group_named(name);
    let (vm1, after, r) = terminal::event_start(vm, fiber, generation, name);
    if forall|i: int|
        0 <= i < groups.len() ==> !text::same_ignoring_case((#[trigger] groups[i]).name@, name) {
        assert forall|i: int| 0 <= i < groups.len() implies !p(#[trigger] groups[i]) by {}
        lookup::lemma_first_none(groups, p);
    }
    if 0 <= k < groups.len() && text::same_ignoring_case(groups[k].name@, name) && (forall|i: int|
        0 <= i < k ==> !text::same_ignoring_case((#[trigger] groups[i]).name@, name)) {
        assert(p(groups[k]));
        assert forall|i: int| 0 <= i < k implies !p(#[trigger] groups[i]) by {}
        lookup::lemma_first_found(groups, p, k);
        let group = groups[k];
        let handlers = terminal::handler_order(group);
        if handlers.len() > 0 {
            assert(seq![handlers[0]] + handlers.skip(1) =~= handlers);
            assert(runs_all(group, handlers));
            if r == Ok::<bool, Failure>(true) {
                lookup::lemma_first_index(
                    program.functions@,
                    program::function_key(handlers[0].function),
                );
                assert(after.frames.take(fiber.frames.len() - 1) =~= fiber.frames.take(
                    fiber.frames.len() - 1,
                ));
            }
        }
    }
}

/// An event is raised by the name on top of the stack, which is taken off. Inside a handler none is
/// raised; where no handler is there nothing happens, unless the name is that of a function that is
/// no event.
pub proof fn law_event_instruction(vm: VmModel, fiber: FiberModel, at: At, name: Seq<char>)
    requires
        fiber.frames.len() > 0,
        fiber.frames.last().stack.len() > 0,
        fiber.frames.last().stack.last() == Val::Text(name),
        vm.program(at.generation) is Some,
    ensures
        terminal::terminal(vm, fiber, at, Opcode::InvokeEvent) is Some,
        ({
            let (vm1, after, r) = terminal::terminal(vm, fiber, at, Opcode::InvokeEvent)->Some_0;
            let named = fiber.with_stack(fiber.frames.last().stack.drop_last());
            let started = terminal::event_start(vm, named, at.generation, name);
            let functions = vm.program(at.generation)->Some_0.functions@;
            let inside = fiber.frames.last().event_context;
            &&& inside ==> vm1 == vm && after == named && (r matches Err(e) && e.code is Trap)
            &&& !inside && started.2 == Ok::<bool, Failure>(true) ==> r is Ok && vm1 == started.0
                && after == started.1
            &&& !inside && started.2 == Ok::<bool, Failure>(false) ==> vm1 == started.0 && after
                == started.1 && (r is Err <==> exists|i: int|
                0 <= i < functions.len() && text::same_ignoring_case(
                    (#[trigger] functions[i]).name@,
                    name,
                ) && !(functions[i].kind is Event))
        }),
{
}

} // verus!
