//! What every step of an evaluation keeps.

use vstd::prelude::*;
use crate::ast::{Span, Tree, TreeKind};
use crate::form_binding::NativeProviders;
use crate::form_call_text;
use crate::form_calls;
use crate::form_effects;
use crate::form_hosts;
use crate::form_methods;
use crate::form_pump;
use crate::form_queries;
use crate::form_run;
use crate::form_staged;
use crate::form_steps::{self, World};
use crate::form_support;
use crate::forms::{BoundCall, BoundService, Form, Pending, Reduction, RuntimeCallSite, Task};
use crate::lookup;
use crate::program::ProgramGeneration;
use crate::state::{self, FiberModel, FrameModel, VmModel};
use crate::value::BytecodeType;

verus! {

/// An evaluation is still the one of its frame, function and instruction.
pub open spec fn rooted(before: Form, after: Form) -> bool {
    &&& after.generation == before.generation
    &&& after.function == before.function
    &&& after.frame == before.frame
    &&& after.instruction == before.instruction
}

/// An evaluation is still the one of its frame, and its reduction stays or is gone.
pub open spec fn undisturbed(before: Form, after: Form) -> bool {
    rooted(before, after) && (after.pending == before.pending || after.pending is None)
}

/// The programs and the limits of a machine stay.
pub open spec fn same_machine(before: VmModel, after: VmModel) -> bool {
    after.generations == before.generations && after.config == before.config
}

/// The frames of a fiber stay, whatever they hold.
pub open spec fn same_frames(before: FiberModel, after: FiberModel) -> bool {
    &&& after.frames.len() == before.frames.len()
    &&& forall|i: int|
        0 <= i < before.frames.len() ==> (#[trigger] after.frames[i]).id == before.frames[i].id
}

/// Programs, limits, frames and the origin of the evaluation stay.
pub open spec fn steady(before: World, after: World) -> bool {
    &&& undisturbed(before.form, after.form)
    &&& same_machine(before.vm, after.vm)
    &&& same_frames(before.fiber, after.fiber)
}

proof fn lemma_operator_steady(w: World, t: Task)
    ensures
        form_steps::operator_step(w, t) matches Some(r) ==> steady(w, r.0),
{
    match t {
        Task::ReadVariable(name, indices) => {
            reveal(form_steps::variable_step);
        },
        Task::ApplyUnary(op) => {
            reveal(form_steps::unary_applied);
        },
        Task::EvaluateBinaryRight(op, right) => {
            reveal(form_steps::right_step);
        },
        Task::ApplyBinary(op) => {
            reveal(form_steps::binary_applied);
        },
        Task::ChooseTernary(a, b) => {
            reveal(form_steps::choice_step);
        },
        Task::MutateVariable(variable, indices, mode) => {
            reveal(form_steps::mutate_step);
        },
        Task::ExistVarFirst(plan, source, mode) => {
            reveal(form_steps::lookup_step);
        },
        Task::ExistVarMode(_, source) => {
            reveal(form_steps::mode_step);
        },
        Task::CaptureReferencePlace(key, indices) => {
            reveal(form_steps::place_step);
        },
        _ => {},
    }
}

proof fn lemma_text_steady(w: World, t: Task)
    ensures
        form_steps::text_step(w, t) matches Some(r) ==> steady(w, r.0),
{
    lookup::lemma_first_index(w.fiber.frames, state::frame_is(w.form.frame));
    match t {
        Task::StartForm(f) => {
            reveal(form_steps::start_step);
        },
        Task::RenderPart(p) => {
            reveal(form_steps::part_step);
        },
        Task::FinishFormValue => {
            reveal(form_steps::value_step);
        },
        Task::FinishInterpolation(string, width, alignment) => {
            reveal(form_steps::interpolation_step);
        },
        Task::ChooseConditional(a, b) => {
            reveal(form_steps::choice_step);
        },
        Task::FinishCheck(id) => {
            reveal(form_steps::checked_step);
        },
        Task::RestoreCallPlan(previous) => {
            reveal(form_steps::restore_step);
        },
        Task::CompleteRoot => {
            reveal(form_steps::root_completed);
        },
        _ => {},
    }
}

proof fn lemma_operands_undisturbed(
    form: Form,
    program: ProgramGeneration,
    arguments: Seq<Option<Tree>>,
    parameters: Seq<BytecodeType>,
    count: nat,
)
    ensures
        undisturbed(
            form,
            form_support::operands_pushed(form, program, arguments, parameters, count).0,
        ),
    decreases count,
{
    if count > 0 {
        match form_support::operand_tasks(
            program,
            form.function,
            arguments[count - 1],
            parameters[count - 1],
        ) {
            Err(_) => {},
            Ok(tasks) => {
                lemma_operands_undisturbed(
                    form_support::with_tasks(form, tasks),
                    program,
                    arguments,
                    parameters,
                    (count - 1) as nat,
                );
            },
        }
    }
}

proof fn lemma_planned_undisturbed(
    vm: VmModel,
    form: Form,
    span: Span,
    arguments: Seq<Option<Tree>>,
)
    ensures
        undisturbed(form, form_calls::planned_scheduled(vm, form, span, arguments).0),
{
    if let Some(plan) = form.current_plan {
        let site = RuntimeCallSite { plan, span };
        match form.bound(site) {
            Some(BoundCall::Native(bound)) => {
                if let Some(program) = vm.program(form.generation) {
                    lemma_operands_undisturbed(
                        form.with_task(Task::FinishNative(site, bound, arguments)),
                        program,
                        arguments,
                        bound.import.parameters,
                        form_support::paired(arguments.len(), bound.import.parameters.len()),
                    );
                }
                assert(undisturbed(
                    form,
                    form_calls::native_scheduled(vm, form, bound, arguments, site).0,
                ));
                assert(undisturbed(
                    form,
                    form_effects::map_scheduled(vm, form, bound, arguments, site).0,
                ));
            },
            Some(BoundCall::Host(bound)) => {
                lemma_host_undisturbed(vm, form, bound, arguments, site);
            },
            Some(BoundCall::Bit(spec)) => {
                assert(undisturbed(
                    form,
                    form_staged::bit_scheduled(vm, form, spec, site, arguments).0,
                ));
            },
            _ => {},
        }
    }
}

proof fn lemma_host_undisturbed(
    vm: VmModel,
    form: Form,
    bound: BoundService,
    source: Seq<Option<Tree>>,
    site: RuntimeCallSite,
)
    ensures
        undisturbed(form, form_hosts::host_scheduled(vm, form, bound, source, site).0),
{
    if let Some(program) = vm.program(form.generation) {
        assert forall|f: Form, count: nat| undisturbed(
            f,
            (#[trigger] form_support::operands_pushed(
                f,
                program,
                source,
                bound.import.parameters,
                count,
            )).0,
        ) by {
            lemma_operands_undisturbed(f, program, source, bound.import.parameters, count);
        }
    }
}

proof fn lemma_service_undisturbed(
    vm: VmModel,
    form: Form,
    name: Seq<char>,
    arguments: Seq<Option<Tree>>,
    span: Span,
)
    ensures
        undisturbed(form, form_calls::service_scheduled(vm, form, name, arguments, span).0),
{
    let after = form_methods::method_scheduled(form, name, arguments).0;
    assert(undisturbed(form, after));
    lemma_planned_undisturbed(vm, after, span, arguments);
}

proof fn lemma_call_undisturbed(
    vm: VmModel,
    form: Form,
    name: Seq<char>,
    arguments: Seq<Option<Tree>>,
    span: Span,
)
    ensures
        undisturbed(form, form_calls::call_scheduled(vm, form, name, arguments, span).0),
{
    let direct = form_methods::direct_scheduled(vm, form, name, arguments).0;
    assert(undisturbed(form, direct));
    let after = form_queries::input_scheduled(vm, form, name, arguments).0;
    assert(undisturbed(form, after));
    assert(undisturbed(after, form_queries::existvar_scheduled(after, arguments).0));
    lemma_service_undisturbed(vm, after, name, arguments, span);
}

proof fn lemma_expression_undisturbed(vm: VmModel, form: Form, t: Tree)
    ensures
        undisturbed(form, form_calls::expression_scheduled(vm, form, t).0),
{
    match t.kind {
        TreeKind::Call(name, arguments) => {
            lemma_call_undisturbed(vm, form, name, arguments, t.span);
        },
        _ => {},
    }
}

proof fn lemma_call_steady(w: World, providers: NativeProviders, t: Task)
    requires
        !(t is ReferenceArgumentsPump),
    ensures
        form_steps::call_step(w, providers, t) matches Some(r) ==> steady(w, r.0),
{
    match t {
        Task::Evaluate(e) => {
            reveal(form_steps::expression_step);
            lemma_expression_undisturbed(w.vm, w.form, e);
        },
        Task::FinishCall(name, count) => {
            reveal(form_steps::form_call_step);
        },
        Task::FinishNative(_, bound, source) => {
            reveal(form_steps::native_step);
        },
        Task::BeginCheckedForm(source) => {
            reveal(form_steps::check_step);
        },
        Task::ParseCallText(source, spec) => {
            reveal(form_steps::call_text_step);
        },
        Task::FinishExpressionProbe(id) => {
            reveal(form_steps::probe_step);
        },
        Task::ExistsMethod => {
            reveal(form_steps::exists_step);
        },
        Task::ResolveMethod(plan, result, fallback, arguments) => {
            reveal(form_steps::method_step);
        },
        Task::FinishCallTextArguments(target, spec) => {
            reveal(form_steps::binding_step);
        },
        _ => {},
    }
}

proof fn lemma_service_steady(w: World, t: Task)
    ensures
        form_steps::service_step(w, t) matches Some(r) ==> steady(w, r.0),
{
    lookup::lemma_first_index(w.fiber.frames, state::frame_is(w.form.frame));
    match t {
        Task::GateInputHost(_, key, triggered) => {
            reveal(form_steps::input_stepped);
        },
        Task::FinishInputHost(operation, count) => {
            reveal(form_steps::operands_step);
            reveal(form_steps::input_stepped);
        },
        Task::ReadInputHost(depth, gate) => {
            reveal(form_steps::read_step);
        },
        Task::HostAdvance(id) => {
            reveal(form_steps::host_step);
        },
        _ => {},
    }
}

/// The reduction of an evaluation is in a state that a step can be made of.
pub open spec fn reducible(form: Form) -> bool {
    form.pending matches Some(p) ==> {
        &&& form_pump::sound(p)
        &&& form_call_text::roots_known(p.graph)
    }
}

/// The lists of a reduction have lengths of the machine.
pub open spec fn reduction_fits(form: Form) -> bool {
    form.pending matches Some(p) ==> {
        &&& form_pump::lists_fit(p.graph)
        &&& forall|i: int|
            0 <= i < p.tasks.len() ==> ((#[trigger] p.tasks[i]) matches Reduction::CaptureChild(c)
                ==> c.visits.len() <= usize::MAX)
    }
}

proof fn lemma_roots_stay_known(
    program: ProgramGeneration,
    form: Form,
    p: Pending,
    t: Reduction,
)
    requires
        form_pump::sound(p),
        form_pump::task_known(p.graph, t),
        form_call_text::roots_known(p.graph),
    ensures
        form_call_text::roots_known(form_pump::turned(program, form, p, t).1.graph),
{
    let q = form_pump::turned(program, form, p, t).1;
    match t {
        Reduction::CaptureRoot(index) => {
            assert(p.results.len() > 0 ==> form_pump::term_known(
                p.graph,
                p.results[p.results.len() - 1],
            ));
            assert forall|i: int| 0 <= i < q.graph.roots.len() implies (#[trigger] q.graph.roots[i]
                matches Some(e) ==> form_pump::term_known(q.graph, e)) by {
                assert(p.graph.roots[i] matches Some(e) ==> form_pump::term_known(p.graph, e));
            }
        },
        _ => {
            assert(q.graph.template == p.graph.template && q.graph.roots == p.graph.roots);
            assert forall|i: int| 0 <= i < q.graph.roots.len() implies (#[trigger] q.graph.roots[i]
                matches Some(e) ==> form_pump::term_known(q.graph, e)) by {
                assert(p.graph.roots[i] matches Some(e) ==> form_pump::term_known(p.graph, e));
            }
        },
    }
}

proof fn lemma_pump_steady(w: World)
    requires
        reducible(w.form),
        reduction_fits(w.form),
    ensures
        rooted(w.form, form_steps::pump_step(w).0.form),
        form_steps::pump_step(w).0.vm == w.vm,
        form_steps::pump_step(w).0.fiber == w.fiber,
        reducible(form_steps::pump_step(w).0.form),
{
    reveal(form_steps::pump_step);
    if let Some(p) = w.form.pending {
        if p.tasks.len() > 0 {
            let rest = Pending { tasks: p.tasks.drop_last(), ..p };
            assert forall|i: int| 0 <= i < rest.tasks.len() implies form_pump::task_known(
                rest.graph,
                #[trigger] rest.tasks[i],
            ) by {
                assert(form_pump::task_known(p.graph, p.tasks[i]));
            }
            assert(form_pump::sound(rest));
            let t = p.tasks.last();
            assert(form_pump::task_known(p.graph, p.tasks[p.tasks.len() - 1]));
            if let Some(program) = w.vm.program(w.form.generation) {
                let idle = Form { pending: None, ..w.form };
                form_pump::law_reduction_stays_sound(program, idle, rest, t);
                lemma_roots_stay_known(program, idle, rest, t);
            }
        }
    }
}

proof fn lemma_handled(w: World, providers: NativeProviders, t: Task)
    requires
        reducible(w.form),
        reduction_fits(w.form),
    ensures
        ({
            let after = form_steps::handled(w, providers, t).0;
            &&& rooted(w.form, after.form)
            &&& same_machine(w.vm, after.vm)
            &&& same_frames(w.fiber, after.fiber)
            &&& reducible(after.form)
        }),
{
    lemma_operator_steady(w, t);
    lemma_text_steady(w, t);
    lemma_service_steady(w, t);
    if t is ReferenceArgumentsPump {
        lemma_pump_steady(w);
    } else {
        lemma_call_steady(w, providers, t);
    }
}

/// Whatever a step of an evaluation does, and whether it fails or not, the evaluation stays the one
/// of its frame, function and instruction, and the frames, programs and limits stay.
pub proof fn law_step_keeps_the_origin(w: World, providers: NativeProviders)
    requires
        form_run::steppable(w.vm, w.form),
        reduction_fits(w.form),
    ensures
        ({
            let after = form_steps::stepped(w, providers).0;
            &&& rooted(w.form, after.form)
            &&& same_machine(w.vm, after.vm)
            &&& same_frames(w.fiber, after.fiber)
        }),
{
    if w.form.awaiting is None && w.form.work.len() > 0 {
        let rest = World { form: Form { work: w.form.work.drop_last(), ..w.form }, ..w };
        lemma_handled(rest, providers, w.form.work.last());
    }
}

/// An evaluation that a step was made of can be stepped again.
pub proof fn law_step_stays_steppable(w: World, providers: NativeProviders)
    requires
        form_run::steppable(w.vm, w.form),
        reduction_fits(w.form),
    ensures
        ({
            let after = form_steps::stepped(w, providers).0;
            form_run::steppable(after.vm, after.form)
        }),
{
    if w.form.awaiting is None && w.form.work.len() > 0 {
        let rest = World { form: Form { work: w.form.work.drop_last(), ..w.form }, ..w };
        lemma_handled(rest, providers, w.form.work.last());
    }
}

/// Until an evaluation is complete, every step leaves it in the frame that owns it, in a state that
/// can be stepped again; a step that fails leaves it there too.
pub proof fn law_resumed_evaluation_stays_in_its_frame(
    vm: VmModel,
    fiber: FiberModel,
    calls: u32,
    providers: NativeProviders,
)
    requires
        fiber.frames.len() > 0,
        fiber.top().runtime_form matches Some(form) && form.frame == fiber.top().id
            && form_run::steppable(vm, form) && reduction_fits(form),
    ensures
        ({
            let form = fiber.top().runtime_form->0;
            let after = form_run::resumed(vm, fiber, calls, providers);
            let complete = after.3 matches Ok(s) && (s is Complete || s is CompleteCall);
            !complete ==> exists|i: int|
                0 <= i < after.1.frames.len() && (#[trigger] after.1.frames[i]).id == form.frame
                    && (after.1.frames[i].runtime_form matches Some(f) && rooted(form, f)
                    && form_run::steppable(after.0, f))
        }),
{
    let form = fiber.top().runtime_form->0;
    let idle = fiber.with_top(FrameModel { runtime_form: None, ..fiber.top() });
    let w = World { vm, fiber: idle, form, calls };
    law_step_keeps_the_origin(w, providers);
    law_step_stays_steppable(w, providers);
    let after = form_steps::stepped(w, providers).0;
    let last = fiber.frames.len() - 1;
    assert(idle.frames[last].id == form.frame);
    assert(after.fiber.frames[last].id == form.frame);
    lookup::lemma_first_index(after.fiber.frames, state::frame_is(form.frame));
    assert(state::frame_is(form.frame)(after.fiber.frames[last]));
    let at = lookup::first_index(after.fiber.frames, state::frame_is(form.frame))->0;
    let all = form_run::resumed(vm, fiber, calls, providers);
    if !(all.3 matches Ok(s) && (s is Complete || s is CompleteCall)) {
        assert(all.1.frames[at].id == form.frame);
    }
}

} // verus!
