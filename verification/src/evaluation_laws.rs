//! How expressions and formatted texts are evaluated, step by step.

use vstd::prelude::*;
use crate::ast::{Alignment, FormTree, PartTree, Tree, TreeKind};
use crate::fault::Failure;
use crate::form_binding::NativeProviders;
use crate::form_resources;
use crate::form_services;
use crate::form_steps::{self, Ask, Stepped, World};
use crate::form_support;
use crate::forms::{Form, Task};
use crate::instruction_laws;
use crate::text;
use crate::value::Val;

verus! {

/// The next step of an evaluation is a task.
pub open spec fn next_is(w: World, t: Task) -> bool {
    w.form.awaiting is None && w.form.work.len() > 0 && w.form.work.last() == t
}

/// The tasks of an evaluation without the next one.
pub open spec fn later(w: World) -> Seq<Task> {
    w.form.work.drop_last()
}

/// A step that leaves an evaluation and changes nothing else; it is done unless it goes over a
/// limit.
pub open spec fn leaves_form(w: World, providers: NativeProviders, form: Form) -> bool {
    let (after, r) = form_steps::stepped(w, providers);
    &&& after == (World { form, ..w })
    &&& form_resources::checked(form, w.vm.config.maximum_operand_stack) is Ok ==> r == Ok::<
        Stepped,
        Failure,
    >(Stepped::Pending)
}

/// A literal is its value, a group is what it encloses, and an omitted argument is the smallest
/// integer.
pub proof fn law_plain_expressions(w: World, providers: NativeProviders, t: Tree)
    requires
        next_is(w, Task::Evaluate(t)) || next_is(w, Task::PushOmitted),
    ensures
        next_is(w, Task::Evaluate(t)) ==> {
            &&& t.kind matches TreeKind::Integer(n) ==> leaves_form(
                w,
                providers,
                Form { work: later(w), values: w.form.values.push(Val::Integer(n)), ..w.form },
            )
            &&& t.kind matches TreeKind::Text(s) ==> leaves_form(
                w,
                providers,
                Form { work: later(w), values: w.form.values.push(Val::Text(s)), ..w.form },
            )
            &&& t.kind matches TreeKind::Group(inner) ==> leaves_form(
                w,
                providers,
                Form { work: later(w).push(Task::Evaluate(*inner)), ..w.form },
            )
            &&& t.kind matches TreeKind::Formatted(f) ==> leaves_form(
                w,
                providers,
                Form { work: later(w).push(Task::StartForm(f)), ..w.form },
            )
        },
        next_is(w, Task::PushOmitted) ==> leaves_form(
            w,
            providers,
            Form { work: later(w), values: w.form.values.push(Val::Integer(i64::MIN)), ..w.form },
        ),
{
    reveal(form_steps::expression_step);
}

/// The operands of an operator are evaluated before it is applied, the left one first; of a choice
/// the condition is.
pub proof fn law_operands_come_first(w: World, providers: NativeProviders, t: Tree)
    requires
        next_is(w, Task::Evaluate(t)),
    ensures
        t.kind matches TreeKind::Binary(op, left, right) ==> leaves_form(
            w,
            providers,
            Form {
                work: later(w).push(Task::EvaluateBinaryRight(op, *right)).push(
                    Task::Evaluate(*left),
                ),
                ..w.form
            },
        ),
        t.kind matches TreeKind::Unary(op, operand) ==> (!(op is PreIncrement)
            && !(op is PreDecrement) ==> leaves_form(
            w,
            providers,
            Form {
                work: later(w).push(Task::ApplyUnary(op)).push(Task::Evaluate(*operand)),
                ..w.form
            },
        )),
        t.kind matches TreeKind::Ternary(c, a, b) ==> leaves_form(
            w,
            providers,
            Form {
                work: later(w).push(Task::ChooseTernary(*a, *b)).push(Task::Evaluate(*c)),
                ..w.form
            },
        ),
{
    reveal(form_steps::expression_step);
}

proof fn lemma_index_tasks(indices: Seq<Tree>)
    ensures
        form_support::index_tasks(indices).len() == indices.len(),
        forall|i: int|
            0 <= i < indices.len() ==> form_support::index_tasks(indices)[indices.len() - 1 - i]
                == Task::Evaluate(#[trigger] indices[i]),
    decreases indices.len(),
{
    if indices.len() > 0 {
        let rest = indices.skip(1);
        lemma_index_tasks(rest);
        let tasks = form_support::index_tasks(indices);
        assert forall|i: int| 0 <= i < indices.len() implies tasks[indices.len() - 1 - i]
            == Task::Evaluate(#[trigger] indices[i]) by {
            if i > 0 {
                assert(rest[i - 1] == indices[i]);
                assert(form_support::index_tasks(rest)[rest.len() - 1 - (i - 1)] == Task::Evaluate(
                    rest[i - 1],
                ));
            }
        }
    }
}

/// The indices of a variable are evaluated in their order, and then the variable is read with as
/// many as there are.
pub proof fn law_indices_come_first(
    w: World,
    providers: NativeProviders,
    t: Tree,
    name: Seq<char>,
    indices: Seq<Tree>,
)
    requires
        next_is(w, Task::Evaluate(t)),
        t.kind == TreeKind::Variable(name, indices) || (t.kind == TreeKind::Identifier(name)
            && indices.len() == 0),
        indices.len() <= usize::MAX,
    ensures
        ({
            let work = form_steps::stepped(w, providers).0.form.work;
            let n = later(w).len();
            &&& work.len() == n + 1 + indices.len()
            &&& work.take(n as int) == later(w)
            &&& work[n as int] == Task::ReadVariable(name, indices.len() as usize)
            &&& forall|i: int|
                0 <= i < indices.len() ==> work[work.len() - 1 - i] == Task::Evaluate(
                    #[trigger] indices[i],
                )
        }),
{
    reveal(form_steps::expression_step);
    lemma_index_tasks(indices);
    let work = form_steps::stepped(w, providers).0.form.work;
    assert(work.take(later(w).len() as int) =~= later(w));
    if let TreeKind::Variable(n, x) = t.kind {
        let tasks = form_support::index_tasks(indices);
        let base = later(w).push(Task::ReadVariable(name, indices.len() as usize));
        assert(work == base + tasks);
        assert forall|i: int| 0 <= i < indices.len() implies work[work.len() - 1 - i]
            == Task::Evaluate(#[trigger] indices[i]) by {
            assert(work[work.len() - 1 - i] == tasks[indices.len() - 1 - i]);
        }
    }
}

/// A choice between two expressions goes on with the first one where the condition is not zero,
/// and with the second one where it is.
pub proof fn law_choice_of_expressions(
    w: World,
    providers: NativeProviders,
    a: Tree,
    b: Tree,
    n: i64,
)
    requires
        next_is(w, Task::ChooseTernary(a, b)),
        w.form.values.len() > 0,
        w.form.values.last() == Val::Integer(n),
    ensures
        leaves_form(
            w,
            providers,
            Form {
                work: later(w).push(
                    Task::Evaluate(
                        if n != 0 {
                            a
                        } else {
                            b
                        },
                    ),
                ),
                values: w.form.values.drop_last(),
                ..w.form
            },
        ),
{
    reveal(form_steps::choice_step);
}

/// A conditional part goes on with the first text where the condition is not zero; else with the
/// second one, or with nothing where there is none.
pub proof fn law_choice_of_texts(
    w: World,
    providers: NativeProviders,
    a: FormTree,
    b: Option<FormTree>,
    n: i64,
)
    requires
        next_is(w, Task::ChooseConditional(a, b)),
        w.form.values.len() > 0,
        w.form.values.last() == Val::Integer(n),
    ensures
        leaves_form(
            w,
            providers,
            Form {
                work: if n != 0 {
                    later(w).push(Task::RenderForm(a))
                } else {
                    match b {
                        Some(f) => later(w).push(Task::RenderForm(f)),
                        None => later(w),
                    }
                },
                values: w.form.values.drop_last(),
                ..w.form
            },
        ),
{
    reveal(form_steps::choice_step);
}

proof fn lemma_part_tasks(parts: Seq<PartTree>)
    ensures
        form_steps::part_tasks(parts).len() == parts.len(),
        forall|i: int|
            0 <= i < parts.len() ==> form_steps::part_tasks(parts)[parts.len() - 1 - i]
                == Task::RenderPart(#[trigger] parts[i]),
    decreases parts.len(),
{
    if parts.len() > 0 {
        let rest = parts.skip(1);
        lemma_part_tasks(rest);
        let tasks = form_steps::part_tasks(parts);
        assert forall|i: int| 0 <= i < parts.len() implies tasks[parts.len() - 1 - i]
            == Task::RenderPart(#[trigger] parts[i]) by {
            if i > 0 {
                assert(rest[i - 1] == parts[i]);
                assert(form_steps::part_tasks(rest)[rest.len() - 1 - (i - 1)] == Task::RenderPart(
                    rest[i - 1],
                ));
            }
        }
    }
}

/// The parts of a formatted text are rendered in their order.
pub proof fn law_parts_in_order(w: World, providers: NativeProviders, f: FormTree)
    requires
        next_is(w, Task::RenderForm(f)),
    ensures
        ({
            let after = form_steps::stepped(w, providers).0.form;
            let n = later(w).len();
            &&& after == (Form { work: after.work, ..w.form })
            &&& after.work.len() == n + f.parts.len()
            &&& after.work.take(n as int) == later(w)
            &&& forall|i: int|
                0 <= i < f.parts.len() ==> after.work[after.work.len() - 1 - i]
                    == Task::RenderPart(#[trigger] f.parts[i])
        }),
{
    lemma_part_tasks(f.parts);
    let after = form_steps::stepped(w, providers).0.form;
    assert(after.work.take(later(w).len() as int) =~= later(w));
    let tasks = form_steps::part_tasks(f.parts);
    assert forall|i: int| 0 <= i < f.parts.len() implies after.work[after.work.len() - 1 - i]
        == Task::RenderPart(#[trigger] f.parts[i]) by {
        assert(after.work[after.work.len() - 1 - i] == tasks[f.parts.len() - 1 - i]);
    }
}

/// A nested formatted text has an output of its own, which starts empty; when it ends, the output
/// becomes a value and the one around it is as it was.
pub proof fn law_nested_text_has_its_own_output(w: World, providers: NativeProviders, f: FormTree)
    requires
        next_is(w, Task::StartForm(f)) || next_is(w, Task::FinishFormValue),
    ensures
        ({
            let (after, r) = form_steps::stepped(w, providers);
            &&& next_is(w, Task::StartForm(f)) && r is Ok ==> after.form == (Form {
                work: later(w).push(Task::FinishFormValue).push(Task::RenderForm(f)),
                outputs: w.form.outputs.push(Seq::empty()),
                ..w.form
            })
            &&& next_is(w, Task::FinishFormValue) && r is Ok ==> w.form.outputs.len() > 0
                && after.form == (Form {
                work: later(w),
                values: w.form.values.push(Val::Text(w.form.outputs.last())),
                outputs: w.form.outputs.drop_last(),
                ..w.form
            })
        }),
{
    reveal(form_steps::start_step);
    reveal(form_steps::value_step);
}

/// An output with a text at its end.
pub open spec fn extended(outputs: Seq<Seq<char>>, s: Seq<char>) -> Seq<Seq<char>> {
    outputs.drop_last().push(outputs.last() + s)
}

/// A piece of text is put at the end of the innermost output; the value, the width and the
/// condition of the other parts are evaluated first.
pub proof fn law_part_is_rendered(w: World, providers: NativeProviders, p: PartTree)
    requires
        next_is(w, Task::RenderPart(p)),
    ensures
        ({
            let (after, r) = form_steps::stepped(w, providers);
            &&& p matches PartTree::Text(s) ==> (r is Ok ==> after.form == (Form {
                work: later(w),
                outputs: extended(w.form.outputs, s),
                ..w.form
            }))
            &&& p matches PartTree::Interpolation(string, e, width, alignment) ==> leaves_form(
                w,
                providers,
                Form {
                    work: {
                        let last = Task::FinishInterpolation(string, width is Some, alignment);
                        match width {
                            Some(x) => later(w).push(last).push(Task::Evaluate(*x)),
                            None => later(w).push(last),
                        }.push(Task::Evaluate(*e))
                    },
                    ..w.form
                },
            )
            &&& p matches PartTree::Conditional(c, a, b) ==> leaves_form(
                w,
                providers,
                Form {
                    work: later(w).push(Task::ChooseConditional(a, b)).push(Task::Evaluate(*c)),
                    ..w.form
                },
            )
        }),
{
    reveal(form_steps::part_step);
    if let PartTree::Text(s) = p {
        let (after, r) = form_steps::stepped(w, providers);
        if r is Ok {
            assert(after.form.outputs =~= extended(w.form.outputs, s));
        }
    }
}

/// The text of an interpolated value: a text itself, or the decimal numeral of an integer.
pub open spec fn shows(v: Val, s: Seq<char>) -> bool {
    match v {
        Val::Text(t) => s == t,
        Val::Integer(n) => if n >= 0 {
            instruction_laws::is_numeral(s) && instruction_laws::numeral(s) == n
        } else {
            s.len() > 0 && s[0] == '-' && instruction_laws::is_numeral(s.skip(1))
                && instruction_laws::numeral(s.skip(1)) == -n
        },
        _ => false,
    }
}

/// An interpolated value without a width is put at the end of the innermost output. With a width
/// its text is to be brought to the width that was evaluated after it, at the left edge only where
/// that is asked for. A value of the wrong type is refused.
pub proof fn law_value_is_interpolated(
    w: World,
    providers: NativeProviders,
    string: bool,
    width: bool,
    alignment: Option<Alignment>,
)
    requires
        next_is(w, Task::FinishInterpolation(string, width, alignment)),
    ensures
        ({
            let (after, r) = form_steps::stepped(w, providers);
            let n = w.form.values.len() as int;
            &&& !width && r is Ok ==> n > 0 && (w.form.values[n - 1] is Text <==> string) && exists|
                s: Seq<char>,
            | #[trigger]
                shows(w.form.values[n - 1], s) && after.form == (Form {
                    work: later(w),
                    values: w.form.values.take(n - 1),
                    outputs: extended(w.form.outputs, s),
                    ..w.form
                })
            &&& width && r is Ok ==> n > 1 && (w.form.values[n - 2] is Text <==> string)
                && w.form.values[n - 1] is Integer && after.form == (Form {
                work: later(w),
                values: w.form.values.take(n - 2),
                ..w.form
            }) && (r->Ok_0 matches Stepped::Request(Ask::Pad(pad)) && shows(
                w.form.values[n - 2],
                pad.text,
            ) && Val::Integer(pad.width) == w.form.values[n - 1] && (pad.left <==> alignment
                == Some(Alignment::Left)))
        }),
{
    reveal(form_steps::interpolation_step);
    let values = w.form.values;
    let n = values.len() as int;
    let (after, r) = form_steps::stepped(w, providers);
    if r is Ok {
        let v = if width {
            values[n - 2]
        } else {
            values[n - 1]
        };
        if let Val::Integer(x) = v {
            instruction_laws::law_decimal_text(x as int);
        }
        let s = form_services::value_text(string, v)->Ok_0;
        assert(shows(v, s));
        if width {
            assert(values.drop_last().drop_last() =~= values.take(n - 2));
        } else {
            assert(values.drop_last() =~= values.take(n - 1));
            assert(after.form.outputs =~= extended(w.form.outputs, s));
        }
    }
}

/// An evaluation for a value ends with the one value that is left, of the type that was asked for,
/// and only when nothing else is left to do.
pub proof fn law_evaluation_ends(w: World, providers: NativeProviders)
    requires
        next_is(w, Task::CompleteRoot),
        w.form.completion is Value,
    ensures
        ({
            let (after, r) = form_steps::stepped(w, providers);
            let done = later(w).len() == 0 && w.form.outputs.len() == 0
                && w.form.checkpoints.len() == 0 && w.form.host_calls.len() == 0
                && w.form.values.len() == 1 && w.form.values[0].value_type()
                == w.form.completion->Value_0;
            &&& r is Ok <==> done
            &&& done ==> r == Ok::<Stepped, Failure>(Stepped::Complete(w.form.values[0]))
        }),
{
    reveal(form_steps::root_completed);
}

} // verus!
