//! In which order the arguments of calls inside evaluated texts are evaluated, and what is asked.

use vstd::prelude::*;
use crate::ast::{Span, Tree};
use crate::fault::Failure;
use crate::form_binding;
use crate::form_calls;
use crate::form_graph;
use crate::form_methods;
use crate::form_queries;
use crate::form_staged;
use crate::form_support;
use crate::form_typing;
use crate::forms::{BoundService, Form, InputOperation, RuntimeCallSite, Task};
use crate::lookup;
use crate::program::ProgramGeneration;
use crate::state::{self, FiberModel, VmModel};
use crate::text;
use crate::value::{BytecodeType, Val};

verus! {

/// What evaluates an argument; one that is left out has a step of its own.
pub open spec fn step_of(argument: Option<Tree>, task: Task) -> bool {
    match argument {
        Some(t) => task == Task::Evaluate(t),
        None => task is PushOmitted,
    }
}

/// Steps evaluate arguments from the first to the last: the first argument's lies on top.
pub open spec fn first_to_last(arguments: Seq<Option<Tree>>, tasks: Seq<Task>) -> bool {
    &&& tasks.len() == arguments.len()
    &&& forall|i: int|
        0 <= i < arguments.len() ==> step_of(#[trigger] arguments[i], tasks[tasks.len() - 1 - i])
}

proof fn lemma_argument_order(arguments: Seq<Option<Tree>>)
    ensures
        first_to_last(arguments, form_support::argument_tasks(arguments)),
    decreases arguments.len(),
{
    if arguments.len() > 0 {
        let rest = arguments.skip(1);
        lemma_argument_order(rest);
        let tasks = form_support::argument_tasks(arguments);
        let later = form_support::argument_tasks(rest);
        assert forall|i: int| 0 <= i < arguments.len() implies step_of(
            #[trigger] arguments[i],
            tasks[tasks.len() - 1 - i],
        ) by {
            if i > 0 {
                assert(rest[i - 1] == arguments[i]);
                assert(step_of(rest[i - 1], later[later.len() - 1 - (i - 1)]));
                assert(tasks[tasks.len() - 1 - i] == later[later.len() - i]);
            }
        }
    }
}

pub proof fn lemma_present_order(arguments: Seq<Option<Tree>>)
    requires
        forall|i: int| 0 <= i < arguments.len() ==> #[trigger] arguments[i] is Some,
    ensures
        first_to_last(arguments, form_staged::present_tasks(arguments)),
    decreases arguments.len(),
{
    if arguments.len() > 0 {
        let rest = arguments.skip(1);
        assert forall|i: int| 0 <= i < rest.len() implies #[trigger] rest[i] is Some by {
            assert(rest[i] == arguments[i + 1]);
        }
        lemma_present_order(rest);
        assert(arguments[0] is Some);
        let tasks = form_staged::present_tasks(arguments);
        let later = form_staged::present_tasks(rest);
        assert forall|i: int| 0 <= i < arguments.len() implies step_of(
            #[trigger] arguments[i],
            tasks[tasks.len() - 1 - i],
        ) by {
            if i > 0 {
                assert(rest[i - 1] == arguments[i]);
                assert(step_of(rest[i - 1], later[later.len() - 1 - (i - 1)]));
                assert(tasks[tasks.len() - 1 - i] == later[later.len() - i]);
            }
        }
    }
}

/// A step stands under those that evaluate its arguments in their order.
pub open spec fn scheduled(
    before: Seq<Task>,
    after: Seq<Task>,
    task: Task,
    arguments: Seq<Option<Tree>>,
) -> bool {
    &&& after.len() == before.len() + 1 + arguments.len()
    &&& after.take(before.len() as int) == before
    &&& after[before.len() as int] == task
    &&& first_to_last(arguments, after.skip((before.len() + 1) as int))
}

/// STRFORM and STRFORMCHECK evaluate their arguments in their order, and are then called with as
/// many values.
pub proof fn law_form_call_is_scheduled(
    vm: VmModel,
    form: Form,
    name: Seq<char>,
    arguments: Seq<Option<Tree>>,
    span: Span,
)
    requires
        text::same_ignoring_case(name, "STRFORM"@) || text::same_ignoring_case(
            name,
            "STRFORMCHECK"@,
        ),
        form_methods::method_scheduled(form, name, arguments) == (
            form,
            Ok::<bool, Failure>(false),
        ),
    ensures
        ({
            let (after, r) = form_calls::service_scheduled(vm, form, name, arguments, span);
            r is Ok && after.values == form.values && scheduled(
                form.work,
                after.work,
                Task::FinishCall(name, arguments.len() as usize),
                arguments,
            )
        }),
{
    lemma_argument_order(arguments);
    let after = form_calls::service_scheduled(vm, form, name, arguments, span).0;
    let n = form.work.len() as int;
    assert(after.work.take(n) =~= form.work);
    assert(after.work.skip(n + 1) =~= form_support::argument_tasks(arguments));
}

/// A query of the input controller: the key of GETKEY and GETKEYTRIGGERED is held back until it is
/// known that input is active, and the two are told apart; all other queries evaluate their
/// arguments in their order.
pub proof fn law_input_is_scheduled(
    vm: VmModel,
    form: Form,
    name: Seq<char>,
    arguments: Seq<Option<Tree>>,
)
    requires
        form_queries::input_scheduled(vm, form, name, arguments).1 == Ok::<bool, Failure>(true),
    ensures
        ({
            let after = form_queries::input_scheduled(vm, form, name, arguments).0;
            let pressed = text::same_ignoring_case(name, "GETKEY"@);
            let triggered = text::same_ignoring_case(name, "GETKEYTRIGGERED"@);
            &&& pressed || triggered ==> arguments.len() == 1 && arguments[0] is Some
                && form.current_plan is Some && after.work == form.work.push(
                Task::GateInputHost(form.current_plan->Some_0, arguments[0]->Some_0, triggered),
            )
            &&& !pressed && !triggered ==> exists|operation: InputOperation|
                text::same_ignoring_case(
                    name,
                    #[trigger] form_binding::input_text(operation),
                ) && scheduled(
                    form.work,
                    after.work,
                    Task::FinishInputHost(operation, arguments.len() as usize),
                    arguments,
                )
        }),
{
    reveal_strlit("GETKEY");
    reveal_strlit("GETKEYTRIGGERED");
    assert("GETKEY"@.len() == 6 && "GETKEYTRIGGERED"@.len() == 15);
    let after = form_queries::input_scheduled(vm, form, name, arguments).0;
    let operation = form_binding::input_named(name)->Some_0;
    if !(operation is GetKey) && !(operation is GetKeyTriggered) {
        assert forall|i: int| 0 <= i < arguments.len() implies #[trigger] arguments[i] is Some by {
            assert(!form_typing::has_omitted(arguments));
        }
        lemma_present_order(arguments);
        let n = form.work.len() as int;
        assert(after.work.take(n) =~= form.work);
        assert(after.work.skip(n + 1) =~= form_staged::present_tasks(arguments));
        assert(text::same_ignoring_case(name, form_binding::input_text(operation)));
    }
}

/// The input controller is asked under the next request number, by the name of the operation and
/// with its arguments, for an integer; the answer is read above what lies on the stack.
pub proof fn law_input_is_asked(
    vm: VmModel,
    fiber: FiberModel,
    form: Form,
    calls: u32,
    operation: InputOperation,
    arguments: Seq<Val>,
    gate: Option<(Tree, bool)>,
)
    requires
        form_queries::input_asked(vm, fiber, form, calls, operation, arguments, gate).3 is Ok,
        vm.next_request < u64::MAX,
        calls < u32::MAX,
    ensures
        ({
            let (vm1, after, count, r) = form_queries::input_asked(
                vm,
                fiber,
                form,
                calls,
                operation,
                arguments,
                gate,
            );
            let ask = r->Ok_0;
            &&& ask.id == vm.next_request && vm1.next_request == vm.next_request + 1
            &&& count == calls + 1
            &&& ask.arguments == arguments
            &&& text::same_ignoring_case(ask.import.name@, form_binding::input_text(operation))
            &&& ask.import.result == Some(BytecodeType::Integer)
            &&& ask.import.parameters@.len() == arguments.len()
            &&& forall|i: int|
                0 <= i < arguments.len() ==> ask.import.parameters@[i] == (
                #[trigger] arguments[i]).value_type()
            &&& exists|o: int|
                0 <= o < fiber.frames.len() && (#[trigger] fiber.frames[o]).id == form.frame
                    && after.work == form.work.push(
                    Task::ReadInputHost(fiber.frames[o].stack.len() as usize, gate),
                )
        }),
{
    let program = vm.program(form.generation)->Some_0;
    let types = form_queries::value_types(arguments);
    let p = form_binding::input_import(form_binding::input_text(operation), types);
    lookup::lemma_first_index(program.host_imports@, p);
    let i = lookup::first_index(program.host_imports@, p)->Some_0;
    assert(p(program.host_imports@[i]));
    assert(types.len() == arguments.len());
    assert forall|k: int| 0 <= k < arguments.len() implies types[k] == (
    #[trigger] arguments[k]).value_type() by {}
    let q = state::frame_is(form.frame);
    lookup::lemma_first_index(fiber.frames, q);
    let o = form_support::owner_at(fiber, form.frame)->Ok_0;
    assert(q(fiber.frames[o]));
}

/// The operands of a service that takes values are evaluated from the first to the last, and the
/// call is made when all are there.
pub proof fn law_service_operands_come_first(
    vm: VmModel,
    form: Form,
    bound: BoundService,
    arguments: Seq<Option<Tree>>,
    site: RuntimeCallSite,
)
    requires
        vm.program(form.generation) is Some,
        arguments.len() == bound.import.parameters.len(),
        forall|i: int|
            0 <= i < bound.import.parameters.len() ==> !form_graph::is_place(
                #[trigger] bound.import.parameters[i],
            ),
    ensures
        ({
            let (after, r) = form_calls::native_scheduled(vm, form, bound, arguments, site);
            r is Ok && after.values == form.values && scheduled(
                form.work,
                after.work,
                Task::FinishNative(site, bound, arguments),
                arguments,
            )
        }),
{
    let program = vm.program(form.generation)->Some_0;
    let task = Task::FinishNative(site, bound, arguments);
    let waiting = form.with_task(task);
    lemma_operands_pushed(waiting, program, arguments, bound.import.parameters, arguments.len());
    let after = form_calls::native_scheduled(vm, form, bound, arguments, site).0;
    let n = form.work.len() as int;
    assert(after.work.take(n) =~= form.work) by {
        assert(after.work.take(n + 1) == waiting.work);
        assert(after.work.take(n) =~= after.work.take(n + 1).take(n));
        assert(waiting.work.take(n) =~= form.work);
    }
    assert(after.work[n] == waiting.work[n]) by {
        assert(after.work.take(n + 1)[n] == waiting.work[n]);
    }
    assert(arguments.take(arguments.len() as int) =~= arguments);
}

proof fn lemma_operands_pushed(
    form: Form,
    program: ProgramGeneration,
    arguments: Seq<Option<Tree>>,
    parameters: Seq<BytecodeType>,
    n: nat,
)
    requires
        n <= arguments.len(),
        n <= parameters.len(),
        forall|i: int| 0 <= i < n ==> !form_graph::is_place(#[trigger] parameters[i]),
    ensures
        ({
            let (after, r) = form_support::operands_pushed(
                form,
                program,
                arguments,
                parameters,
                n,
            );
            &&& r is Ok
            &&& after.values == form.values
            &&& after.work.take(form.work.len() as int) == form.work
            &&& after.work.len() == form.work.len() + n
            &&& first_to_last(arguments.take(n as int), after.work.skip(form.work.len() as int))
        }),
    decreases n,
{
    let (after, r) = form_support::operands_pushed(form, program, arguments, parameters, n);
    let m = form.work.len() as int;
    if n > 0 {
        assert(!form_graph::is_place(parameters[n - 1]));
        let task = form_support::argument_task(arguments[n - 1]);
        let next = form_support::with_tasks(form, seq![task]);
        lemma_operands_pushed(next, program, arguments, parameters, (n - 1) as nat);
        assert(next.work.len() == m + 1);
        assert(after.work.take(m) =~= form.work) by {
            assert(after.work.take(m) =~= after.work.take(m + 1).take(m));
            assert(next.work.take(m) =~= form.work);
        }
        assert(after.work[m] == task) by {
            assert(after.work.take(m + 1)[m] == next.work[m]);
        }
        let tasks = after.work.skip(m);
        let later = after.work.skip(m + 1);
        let given = arguments.take(n as int);
        let fewer = arguments.take(n - 1);
        assert forall|i: int| 0 <= i < given.len() implies step_of(
            #[trigger] given[i],
            tasks[tasks.len() - 1 - i],
        ) by {
            if i < n - 1 {
                assert(step_of(fewer[i], later[later.len() - 1 - i]));
                assert(fewer[i] == given[i]);
                assert(tasks[tasks.len() - 1 - i] == later[later.len() - 1 - i]);
            }
        }
    } else {
        assert(after.work.take(m) =~= form.work);
    }
}

} // verus!
