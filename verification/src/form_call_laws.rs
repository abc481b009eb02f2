//! How evaluated texts read variables, make calls and take what services answer.

use vstd::prelude::*;
use crate::ast::{PostfixOp, Tree, TreeKind, UnaryOp};
use crate::basic;
use crate::evaluation_laws;
use crate::fastpaths;
use crate::fault::Failure;
use crate::form_binding::{self, NativeProviders};
use crate::form_call_text;
use crate::form_checkpoints::{self, RuntimeFormCatchTarget};
use crate::form_effects;
use crate::form_hosts;
use crate::form_methods::{self, Advance};
use crate::form_queries;
use crate::form_staged;
use crate::form_steps::{self, Stepped, World};
use crate::form_support;
use crate::forms::{
    Form, InputOperation, MapCall, MatchCall, MatchStage, MethodResult, Phase, RuntimeFormRoot,
    Scan, Task, UserCall,
};
use crate::lookup;
use crate::memory::{self, BytecodeStorage, Cell, Cells};
use crate::named;
use crate::places;
use crate::probe_laws;
use crate::program::{
    BytecodeGlobal, CallTextSpec, ProgramGeneration, RuntimeHostStage, UserCallMode,
};
use crate::terms::Graph;
use crate::state::{self, FiberModel, FrameModel, VmModel};
use crate::text;
use crate::value::{FiberId, Val};
use crate::variable_laws;

verus! {

proof fn lemma_index_values(indices: Seq<u64>)
    requires
        variable_laws::indices_fit(indices),
    ensures
        form_support::index_values(variable_laws::index_values(indices)) == Ok::<
            Seq<u64>,
            Failure,
        >(indices),
    decreases indices.len(),
{
    let values = variable_laws::index_values(indices);
    if indices.len() > 0 {
        let before = indices.drop_last();
        assert forall|i: int| 0 <= i < before.len() implies #[trigger] before[i] <= i64::MAX by {
            assert(before[i] == indices[i]);
        }
        lemma_index_values(before);
        assert(values.drop_last() =~= variable_laws::index_values(before));
        assert(indices[indices.len() - 1] <= i64::MAX);
        assert(before.push(indices.last()) =~= indices);
    } else {
        assert(indices =~= Seq::<u64>::empty());
    }
}

/// Where a variable is looked for by an evaluation: as by a load, but local variables in the frame
/// that the evaluation belongs to.
pub open spec fn found_for(
    w: World,
    g: BytecodeGlobal,
    indices: Seq<u64>,
    cells: Cells,
    rest: Seq<u64>,
) -> bool {
    match g.storage {
        BytecodeStorage::Project => cells == w.vm.store.shared && rest == indices,
        BytecodeStorage::Calculated => cells == w.vm.store.shared && rest == indices,
        BytecodeStorage::FunctionStatic => cells == w.vm.store.statics && rest == indices,
        BytecodeStorage::FunctionLocal => rest == indices && exists|i: int|
            0 <= i < w.fiber.frames.len() && (#[trigger] w.fiber.frames[i]).id == w.form.frame
                && cells == w.fiber.frames[i].locals,
        BytecodeStorage::Character => if indices.len() > g.dimensions@.len() {
            &&& indices[0] < w.vm.store.characters.len()
            &&& cells == w.vm.store.characters[indices[0] as int]
            &&& rest == indices.skip(1)
        } else {
            let t = match named::named_integer(
                w.vm.program(w.form.generation)->Some_0,
                w.vm.store,
                "TARGET"@,
            ) {
                Some(n) => n as int,
                None => 0,
            };
            &&& 0 <= t < w.vm.store.characters.len()
            &&& cells == w.vm.store.characters[t]
            &&& rest == indices
        },
    }
}

/// Reading a variable inside an evaluation takes its indices and gives the element that they name
/// in the variable that the name means inside the function.
pub proof fn law_evaluated_variable_is_read(
    w: World,
    providers: NativeProviders,
    name: Seq<char>,
    below: Seq<Val>,
    indices: Seq<u64>,
    k: int,
)
    requires
        evaluation_laws::next_is(w, Task::ReadVariable(name, indices.len() as usize)),
        indices.len() <= usize::MAX,
        variable_laws::indices_fit(indices),
        w.form.values == below + variable_laws::index_values(indices),
        w.vm.program(w.form.generation) matches Some(program) && probe_laws::is_meant(
            program,
            w.form.function,
            name,
            k,
        ),
        places::machine_sized(w.vm, w.fiber),
        w.vm.store.characters.len() <= i64::MAX,
        form_steps::stepped(w, providers).1 is Ok,
    ensures
        ({
            let g = w.vm.program(w.form.generation)->Some_0.globals@[k];
            let after = form_steps::stepped(w, providers).0;
            let v = after.form.values.last();
            &&& after == (World {
                form: Form {
                    work: evaluation_laws::later(w),
                    values: below.push(v),
                    ..w.form
                },
                ..w
            })
            &&& exists|cells: Cells, rest: Seq<u64>, cell: Cell| #[trigger]
                found_for(w, g, indices, cells, rest) && #[trigger] variable_laws::stands_under(
                    cells,
                    g.key,
                    cell,
                ) && cell.read(rest) == Ok::<Val, Seq<char>>(v)
        }),
{
    reveal(form_steps::variable_step);
    let program = w.vm.program(w.form.generation)->Some_0;
    let g = program.globals@[k];
    probe_laws::law_scoped_name(program, w.form.function, name, k);
    lemma_index_values(indices);
    let values = w.form.values;
    let n = values.len() - indices.len();
    assert(values.take(n) =~= below);
    assert(values.skip(n) =~= variable_laws::index_values(indices));
    let (character, rest) = basic::split_indices(
        g,
        indices,
        named::target_character(w.vm, w.form.generation),
    );
    let address = places::variable_address(g, character, fastpaths::own_frame(g, w.form.frame));
    let slot = places::slot_at(w.vm.store, w.fiber.frames, address)->Ok_0;
    let cell = places::cell_in(w.vm.store, w.fiber.frames, slot);
    lookup::lemma_first_index(w.fiber.frames, state::frame_is(w.form.frame));
    let cells = match g.storage {
        BytecodeStorage::Project => w.vm.store.shared,
        BytecodeStorage::Calculated => w.vm.store.shared,
        BytecodeStorage::FunctionStatic => w.vm.store.statics,
        BytecodeStorage::FunctionLocal => w.fiber.frames[lookup::first_index(
            w.fiber.frames,
            state::frame_is(w.form.frame),
        )->Some_0].locals,
        BytecodeStorage::Character => w.vm.store.characters[character->Some_0 as int],
    };
    lookup::lemma_first_index(cells, memory::has_key(g.key));
    variable_laws::lemma_stands_under(cells, g.key);
    assert(found_for(w, g, indices, cells, rest));
    assert(variable_laws::stands_under(cells, g.key, cell));
}

/// Increments and decrements are scheduled with the number of their kind: zero and one in front of
/// the operand, two and three behind it; the indices of the variable are evaluated first.
pub proof fn law_mutations_are_scheduled(
    w: World,
    providers: NativeProviders,
    t: Tree,
    mode: u8,
    name: Seq<char>,
    operand: Tree,
)
    requires
        evaluation_laws::next_is(w, Task::Evaluate(t)),
        operand.kind == TreeKind::Identifier(name),
        ({
            ||| mode == 0 && t.kind == TreeKind::Unary(UnaryOp::PreIncrement, Box::new(operand))
            ||| mode == 1 && t.kind == TreeKind::Unary(UnaryOp::PreDecrement, Box::new(operand))
            ||| mode == 2 && t.kind == TreeKind::Postfix(PostfixOp::Increment, Box::new(operand))
            ||| mode == 3 && t.kind == TreeKind::Postfix(PostfixOp::Decrement, Box::new(operand))
        }),
        form_steps::stepped(w, providers).1 is Ok,
    ensures
        ({
            let after = form_steps::stepped(w, providers).0.form;
            w.vm.program(w.form.generation) matches Some(program)
                && program.spec_scoped_variable(w.form.function, name) matches Some(g) && g.mutable
                && g.value_type is Integer && after.work == evaluation_laws::later(w).push(
                Task::MutateVariable(g.key, 0, mode),
            ) && after.values == w.form.values
        }),
{
    reveal(form_steps::expression_step);
    let after = form_steps::stepped(w, providers).0.form;
    assert(after.work =~= evaluation_laws::later(w).push(after.work.last()));
}

/// EXISTVAR first replaces its name by what it is; without a mode that is the answer, and with one
/// the mode is evaluated next. The mode zero keeps the answer; another one drops it and evaluates
/// the source again inside a boundary.
pub proof fn law_evaluated_existvar(
    w: World,
    providers: NativeProviders,
    plan: u64,
    source: Tree,
    mode: Option<Tree>,
    name: Seq<char>,
)
    requires
        w.form.values.len() > 0,
    ensures
        ({
            let (after, r) = form_steps::stepped(w, providers);
            let n = w.form.values.len() as int;
            &&& evaluation_laws::next_is(w, Task::ExistVarFirst(plan, source, mode)) && r is Ok ==> {
                &&& after.form.values.len() == n && after.form.values.last() is Integer
                &&& after.form.work == match mode {
                    None => evaluation_laws::later(w),
                    Some(m) => evaluation_laws::later(w).push(
                        Task::ExistVarMode(plan, source),
                    ).push(Task::Evaluate(m)),
                }
            }
            &&& evaluation_laws::next_is(w, Task::ExistVarMode(plan, source)) && r is Ok ==> (
            w.form.values.last() matches Val::Integer(m) && if m == 0 {
                after.form.values == w.form.values.drop_last() && after.form.work
                    == evaluation_laws::later(w)
            } else {
                &&& after.form.values == w.form.values.drop_last().drop_last()
                &&& after.form.checkpoints.len() == w.form.checkpoints.len() + 1
                &&& after.form.work.len() == evaluation_laws::later(w).len() + 2
                &&& after.form.work.last() == Task::Evaluate(source)
            })
        }),
{
    reveal(form_steps::lookup_step);
    reveal(form_steps::mode_step);
}

/// A checked text that ends replaces the text by one. Where a failure was caught, everything that
/// its boundary holds is dropped: the steps, the values and the outputs are those at the opening,
/// and zero is the value; for the arguments of a call text the call is marked as failed instead.
pub proof fn law_boundaries_answer(form: Form, fiber: FiberModel, id: u64, target: RuntimeFormCatchTarget)
    ensures
        ({
            let (after, r) = form_checkpoints::check_finished(form, id);
            r is Ok ==> after == (Form {
                values: form.values.drop_last().push(Val::Integer(1)),
                checkpoints: form.checkpoints.drop_last(),
                ..form
            }) && form.values.last() is Text
        }),
        ({
            let (after, r) = form_checkpoints::caught(fiber, target);
            r is Ok ==> {
                let before = fiber.frames.last().runtime_form->Some_0;
                let check = before.checkpoints.last();
                let now = after.frames.last().runtime_form->Some_0;
                let values = before.values.take(check.value_depth as int);
                &&& fiber.frames.last().runtime_form is Some
                &&& after.frames.last().runtime_form is Some
                &&& check.id == target.checkpoint
                &&& now.work == before.work.take(check.work_depth as int)
                &&& now.outputs == before.outputs.take(check.output_depth as int)
                &&& now.checkpoints == before.checkpoints.drop_last()
                &&& now.awaiting is None
                &&& if check.kind is CallTextArguments {
                    now.values == values && (now.completion matches RuntimeFormRoot::Call {
                        spec,
                        failed,
                    } && failed && spec == check.kind->CallTextArguments_0)
                } else {
                    now.values == values.push(Val::Integer(0)) && now.completion
                        == before.completion
                }
            }
        }),
{
}

/// A dynamic method that exists waits for its arguments; one that does not is replaced by the
/// fallback, and refused where there is none. The name is taken either way.
pub proof fn law_missing_method_falls_back(
    vm: VmModel,
    form: Form,
    plan: u64,
    result: MethodResult,
    fallback: Option<Tree>,
    arguments: Seq<Option<Tree>>,
    name: Seq<char>,
)
    requires
        form.values.len() > 0,
        form.values.last() == Val::Text(name),
        vm.program(form.generation) matches Some(program) && program.spec_function_by_name(name)
            is None,
        form_binding::user_resolved(
            vm.program(form.generation)->Some_0,
            name,
            UserCallMode::Value(result.kind()),
            form_methods::planned_specs(
                Form { values: form.values.drop_last(), ..form },
                vm.program(form.generation)->Some_0,
                plan,
                arguments,
            )->Ok_0,
        ) is Ok,
        form_methods::planned_specs(
            Form { values: form.values.drop_last(), ..form },
            vm.program(form.generation)->Some_0,
            plan,
            arguments,
        ) is Ok,
        form_methods::fallback_typed(
            Form { values: form.values.drop_last(), ..form },
            plan,
            result,
            fallback,
        ) is Ok,
    ensures
        ({
            let (vm1, after, r) = form_methods::method_resolved(
                vm,
                form,
                plan,
                result,
                fallback,
                arguments,
            );
            form_binding::user_resolved(
                vm.program(form.generation)->Some_0,
                name,
                UserCallMode::Value(result.kind()),
                form_methods::planned_specs(
                    Form { values: form.values.drop_last(), ..form },
                    vm.program(form.generation)->Some_0,
                    plan,
                    arguments,
                )->Ok_0,
            )->Ok_0 is None ==> vm1 == vm && match fallback {
                Some(t) => r is Ok && after == (Form {
                    values: form.values.drop_last(),
                    work: form.work.push(Task::Evaluate(t)),
                    ..form
                }),
                None => r matches Err(e) && e.code is MissingSymbol,
            }
        }),
{
}

/// The result of a callee moves from the stack of the frame that evaluates to the values.
pub proof fn law_callee_result_is_taken(
    vm: VmModel,
    fiber: FiberModel,
    form: Form,
    references: Seq<bool>,
)
    requires
        form_methods::wait_finished(vm, fiber, form, references).2 is Ok,
    ensures
        ({
            let (after, now, _) = form_methods::wait_finished(vm, fiber, form, references);
            let mode = form.awaiting->Some_0.call.call.mode;
            exists|i: int|
                0 <= i < fiber.frames.len() && (#[trigger] fiber.frames[i]).id == form.frame && (
                if mode is Value {
                    &&& fiber.frames[i].stack.len() > 0
                    &&& now == (Form {
                        awaiting: None,
                        values: form.values.push(fiber.frames[i].stack.last()),
                        ..form
                    })
                    &&& after.frames == fiber.frames.update(
                        i,
                        FrameModel {
                            stack: fiber.frames[i].stack.drop_last(),
                            ..fiber.frames[i]
                        },
                    )
                } else {
                    now == (Form { awaiting: None, ..form }) && after == fiber
                })
        }),
{
    lookup::lemma_first_index(fiber.frames, state::frame_is(form.frame));
    let i = form_support::owner_at(fiber, form.frame)->Ok_0;
    assert(fiber.frames[i].id == form.frame);
}

/// The result of a service moves in the same way, and there has to be exactly one.
pub proof fn law_service_result_is_taken(
    fiber: FiberModel,
    form: Form,
    depth: nat,
    message: Seq<char>,
)
    requires
        form_effects::owner_result(fiber, form, depth, message).2 is Ok,
    ensures
        ({
            let (after, now, _) = form_effects::owner_result(fiber, form, depth, message);
            exists|i: int|
                0 <= i < fiber.frames.len() && (#[trigger] fiber.frames[i]).id == form.frame
                    && fiber.frames[i].stack.len() == depth + 1 && now == (Form {
                    values: form.values.push(fiber.frames[i].stack.last()),
                    ..form
                }) && after.frames == fiber.frames.update(
                    i,
                    FrameModel { stack: fiber.frames[i].stack.drop_last(), ..fiber.frames[i] },
                )
        }),
{
    lookup::lemma_first_index(fiber.frames, state::frame_is(form.frame));
    let i = form_support::owner_at(fiber, form.frame)->Ok_0;
    assert(fiber.frames[i].id == form.frame);
}

/// A key is asked for only while the input is active: where it is not, zero is the answer and the
/// key is not evaluated; where it is, the key is evaluated and then asked for, for its press or for
/// its state as the call was.
pub proof fn law_key_needs_active_input(
    fiber: FiberModel,
    form: Form,
    depth: nat,
    key: Tree,
    triggered: bool,
)
    requires
        form_queries::input_read(fiber, form, depth, Some((key, triggered))).2 is Ok,
    ensures
        ({
            let (after, now, _) = form_queries::input_read(
                fiber,
                form,
                depth,
                Some((key, triggered)),
            );
            exists|i: int|
                0 <= i < fiber.frames.len() && (#[trigger] fiber.frames[i]).id == form.frame && ({
                    let active = fiber.frames[i].stack.last();
                    ||| active == Val::Integer(0) && now == (Form {
                        values: form.values.push(Val::Integer(0)),
                        ..form
                    })
                    ||| active == Val::Integer(1) && now == (Form {
                        work: form.work.push(
                            Task::FinishInputHost(
                                if triggered {
                                    InputOperation::GetKeyTriggered
                                } else {
                                    InputOperation::GetKey
                                },
                                1,
                            ),
                        ).push(Task::Evaluate(key)),
                        ..form
                    })
                })
        }),
{
    lookup::lemma_first_index(fiber.frames, state::frame_is(form.frame));
    let i = form_support::owner_at(fiber, form.frame)->Ok_0;
    assert(fiber.frames[i].id == form.frame);
}

/// The stages of a call of the host: a plain call, the unit of a length and the end of lines give
/// their value and close the call. A measured length is kept for the unit, which is evaluated, or
/// is zero where it is left out. Lines go on with their width while there are more, and end where
/// there are none.
pub proof fn law_host_stages(form: Form, stage: RuntimeHostStage, v: Val)
    requires
        form.host_calls.len() > 0,
        form_hosts::result_accepted(form, stage, v).1 is Ok,
    ensures
        ({
            let after = form_hosts::result_accepted(form, stage, v).0;
            let call = form.host_calls.last();
            let now = after.host_calls.last();
            let n = form.work.len() as int;
            &&& stage is Call || stage is LengthUnit || stage is LinesEnd ==> after == (Form {
                host_calls: form.host_calls.drop_last(),
                values: form.values.push(v),
                ..form
            })
            &&& stage is MeasureLength ==> v is Integer && now.prefix == seq![v] && now.phase
                == Phase::Collect(RuntimeHostStage::LengthUnit, 1) && after.work.len() == n + 2
                && (call.source.len() > 1 ==> call.source[1] is Some && after.work.last()
                == Task::Evaluate(call.source[1]->Some_0)) && (call.source.len() <= 1 ==> (
            after.work.last() matches Task::Evaluate(t) && t.kind == TreeKind::Integer(0)))
            &&& stage is LinesBegin ==> v is Text && now.prefix == seq![v] && now.phase
                == Phase::Ready(RuntimeHostStage::LinesMore, seq![v])
            &&& stage is LinesMore && v == Val::Integer(0) ==> now.phase == Phase::Ready(
                RuntimeHostStage::LinesEnd,
                call.prefix,
            ) && after.work.len() == n + 1
            &&& stage is LinesMore && v != Val::Integer(0) ==> v is Integer && now.phase
                == Phase::Collect(RuntimeHostStage::LinesStep, 1) && call.source.len() > 1
                && call.source[1] is Some && after.work.last() == Task::Evaluate(
                call.source[1]->Some_0,
            )
            &&& stage is LinesStep ==> v is Integer && now.phase == Phase::Ready(
                RuntimeHostStage::LinesMore,
                seq![call.prefix[0]],
            ) && now.prefix == seq![call.prefix[0]]
        }),
{
}

/// The arguments of a MAP call are its name and its values in their order; only where the values
/// of a map go to an array, the array comes before the switch that was evaluated first.
pub proof fn law_map_arguments(values_operation: bool, name: Seq<char>, values: Seq<Val>)
    ensures
        ({
            let all = form_effects::map_arguments(values_operation, name, values);
            &&& all.len() == values.len() + 1
            &&& all[0] == Val::Text(name)
            &&& values_operation && values.len() == 2 ==> all[1] == values[1] && all[2] == values[0]
            &&& !(values_operation && values.len() == 2) ==> forall|i: int|
                0 <= i < values.len() ==> all[i + 1] == #[trigger] values[i]
        }),
{
}

/// The values of a map are asked for where the switch is not zero; else the empty text is the
/// answer at once.
pub proof fn law_map_values_switch(
    vm: VmModel,
    fiber: FiberId,
    form: Form,
    call: MapCall,
    output: Option<Tree>,
    enabled: i64,
)
    requires
        form.values.len() > 0,
        form.values.last() == Val::Integer(enabled),
        form_effects::values_enabled(vm, fiber, form, call, output).1 is Ok,
    ensures
        ({
            let (after, r) = form_effects::values_enabled(vm, fiber, form, call, output);
            &&& enabled == 0 ==> r == Ok::<bool, Failure>(false) && after == (Form {
                values: form.values.drop_last().push(Val::Text(Seq::empty())),
                ..form
            })
            &&& enabled != 0 ==> r == Ok::<bool, Failure>(true) && after.work == form.work.push(
                Task::MapFinish(call),
            ) && (output is None ==> after.values == form.values) && (output is Some
                ==> after.values.len() == form.values.len() + 1 && after.values.last()
                is StringPlace && after.values.drop_last() == form.values)
        }),
{
    let after = form_effects::values_enabled(vm, fiber, form, call, output).0;
    assert(form.values.drop_last().push(Val::Integer(enabled)) =~= form.values);
    if enabled != 0 && output is Some {
        assert(after.values.drop_last() =~= form.values);
    }
}

/// A MATCH call evaluates the start of its range, which is zero where it is left out, then the end
/// where there is one, then the value that it looks for; when its scan is done, the number of
/// matches is the value.
pub proof fn law_match_stages(
    form: Form,
    stage: MatchStage,
    call: MatchCall,
    state: Scan,
    done: bool,
)
    requires
        form_staged::match_resumed(form, stage, call, Ok(state), done).1 is Ok,
    ensures
        ({
            let after = form_staged::match_resumed(form, stage, call, Ok(state), done).0;
            let next = MatchCall { state, ..call };
            let given = |k: int| 0 <= k < call.arguments.len() && call.arguments[k] is Some;
            &&& stage is Begin && given(3) ==> after == (Form {
                work: form.work.push(Task::Match(MatchStage::End, next)).push(
                    Task::Evaluate(call.arguments[3]->Some_0),
                ),
                ..form
            })
            &&& stage is Begin && !given(3) ==> after == (Form {
                work: form.work.push(Task::Match(MatchStage::End, next)),
                ..form
            })
            &&& stage is End ==> given(1) && after == (Form {
                work: form.work.push(Task::Match(MatchStage::Needle, next)).push(
                    Task::Evaluate(call.arguments[1]->Some_0),
                ),
                ..form
            })
            &&& stage is Needle || (stage is Scan && !done) ==> after == (Form {
                work: form.work.push(Task::Match(MatchStage::Scan, next)),
                ..form
            })
            &&& stage is Scan && done ==> after == (Form {
                values: form.values.push(Val::Integer(state.count)),
                ..form
            })
        }),
{
}

/// A call text whose target is missing fails; where the call may fail, that is noted, and the
/// evaluation ends by going on at the branch for it.
pub proof fn law_missing_call_text_target(
    program: ProgramGeneration,
    form: Form,
    spec: CallTextSpec,
    target: Seq<char>,
    graph: Graph,
    kind: Result<(), Failure>,
)
    requires
        forall|f: int|
            0 <= f < program.functions@.len() ==> !text::same_ignoring_case(
                (#[trigger] program.functions@[f]).name@,
                target,
            ),
    ensures
        ({
            let (after, r) = form_call_text::text_targeted(
                program,
                form,
                spec,
                target,
                graph,
                kind,
            );
            &&& !spec.allow_missing ==> after == form && (r matches Err(e) && e.code
                is MissingSymbol)
            &&& spec.allow_missing && r is Ok ==> after == (Form {
                completion: RuntimeFormRoot::Call { spec, failed: true },
                ..form
            })
        }),
{
    let p = crate::program::function_named(target);
    assert forall|f: int| 0 <= f < program.functions@.len() implies !p(
        #[trigger] program.functions@[f],
    ) by {}
    lookup::lemma_first_none(program.functions@, p);
}

/// A call text ends with nothing to give; where it failed and has a branch for that, the frame
/// that it belongs to goes on there, and otherwise stays where it is.
pub proof fn law_call_text_ends(w: World, providers: NativeProviders)
    requires
        evaluation_laws::next_is(w, Task::CompleteRoot),
        w.form.completion is Call,
        form_steps::stepped(w, providers).1 is Ok,
    ensures
        ({
            let (after, r) = form_steps::stepped(w, providers);
            let spec = w.form.completion->spec;
            let failed = w.form.completion->failed;
            &&& r == Ok::<Stepped, Failure>(Stepped::CompleteCall)
            &&& w.form.values.len() == 0
            &&& !(failed && spec.has_catch) ==> after.fiber == w.fiber
            &&& failed && spec.has_catch ==> exists|i: int|
                0 <= i < w.fiber.frames.len() && (#[trigger] w.fiber.frames[i]).id == w.form.frame
                    && after.fiber.frames == w.fiber.frames.update(
                    i,
                    FrameModel {
                        instruction: spec.catch_target as usize,
                        ..w.fiber.frames[i]
                    },
                )
        }),
{
    reveal(form_steps::root_completed);
    lookup::lemma_first_index(w.fiber.frames, state::frame_is(w.form.frame));
    if w.form.completion->failed && w.form.completion->spec.has_catch {
        let i = form_support::owner_at(w.fiber, w.form.frame)->Ok_0;
        assert(w.fiber.frames[i].id == w.form.frame);
    }
}

/// The argument of a user call that comes next: an array is captured for a reference, and any
/// other one is evaluated and then captured; when all are there the callee is entered.
pub proof fn law_user_call_argument(form: Form, call: UserCall)
    requires
        form_methods::argument_advanced(form, call).1 is Ok,
    ensures
        ({
            let (after, r) = form_methods::argument_advanced(form, call);
            let slot = call.next_slot as int;
            if slot >= call.specs.len() {
                after == form && r == Ok::<Advance, Failure>(Advance::Enter(call))
            } else if slot < call.call.bindings.len() && call.call.bindings[slot]
                is ArrayReference {
                after == form && (r->Ok_0 matches Advance::Reference(c, v) && c == call)
            } else {
                &&& r == Ok::<Advance, Failure>(Advance::Scheduled)
                &&& call.arguments[slot] is Some
                &&& after.work.len() == form.work.len() + 2
                &&& after.work.last() == Task::Evaluate(call.arguments[slot]->Some_0)
                &&& after.work[form.work.len() as int] matches Task::CaptureMethodArgument(c)
                    && c.next_slot == call.next_slot && c.captured == call.captured
                &&& after.work.take(form.work.len() as int) == form.work
            }
        }),
{
    let after = form_methods::argument_advanced(form, call).0;
    if call.next_slot < call.specs.len() && after.work.len() > form.work.len() {
        assert(after.work.take(form.work.len() as int) =~= form.work);
    }
}

} // verus!
