//! What the sources of evaluated texts mean: types, names, nesting and letter case.

use vstd::prelude::*;
use crate::ast::{BinaryOp, PartTree, Tree, TreeKind};
use crate::evaluation_laws;
use crate::fastpaths;
use crate::fault::Failure;
use crate::form_binding::NativeProviders;
use crate::form_frontend;
use crate::form_queries;
use crate::form_steps::{self, World};
use crate::form_support;
use crate::form_typing::{self, Found, Rules};
use crate::forms::{Form, Task, MAX_RUNTIME_FORM_NESTING};
use crate::lookup;
use crate::named;
use crate::operand;
use crate::operator_laws;
use crate::program::ProgramGeneration;
use crate::state::{ExecutionPolicy, FiberModel, VmModel};
use crate::text;
use crate::value::{BytecodeType, GenerationId, SymbolKey, Val};

verus! {

proof fn lemma_operator_number(op: BinaryOp)
    ensures
        form_steps::binary_number(op) < 21,
        operator_laws::numbered_operators()[form_steps::binary_number(op) as int] == op,
{
}

/// The type that an operation is given before it is evaluated is the type of the value that it has
/// in the end; where it is given none, the operation refuses its operands.
pub proof fn law_operation_types_are_sound(op: BinaryOp, a: Val, b: Val)
    requires
        a is Integer || a is Text,
        b is Integer || b is Text,
        (op is Divide || op is Modulo) && a is Integer ==> b != Val::Integer(0),
    ensures
        ({
            let typed = form_typing::binary_type(op, a.value_type(), b.value_type());
            let result = operand::binary(form_steps::binary_number(op), a, b);
            &&& result matches Ok(v) ==> typed == Ok::<BytecodeType, Failure>(v.value_type())
            &&& typed is Err ==> (result matches Err(e) && e.code is TypeMismatch)
            &&& typed is Ok && !(op is Multiply) ==> result is Ok
        }),
{
    lemma_operator_number(op);
    let n = form_steps::binary_number(op);
    match (a, b) {
        (Val::Integer(x), Val::Integer(y)) => {
            operator_laws::lemma_integer_operators(op, n, x, y);
        },
        (Val::Text(x), Val::Text(y)) => {
            operator_laws::lemma_text_operators(op, n, x, y, 0);
        },
        (Val::Text(x), Val::Integer(y)) => {
            operator_laws::lemma_text_operators(op, n, x, x, y);
        },
        (Val::Integer(x), Val::Text(y)) => {
            operator_laws::lemma_text_operators(op, n, y, y, x);
        },
        _ => {},
    }
}

/// An expression has a type at some point of a pass.
pub open spec fn typed_as(c: Rules, t: Tree, depth: nat, ty: BytecodeType) -> bool {
    exists|s: Found| (#[trigger] form_typing::typed(c, s, t, depth)).1 == Ok::<
        BytecodeType,
        Failure,
    >(ty)
}

/// The type of an expression follows from its parts: signs and increments are integers of
/// integers, a choice has the type that both of its values have and an integer condition, and a
/// variable has its own type.
pub proof fn law_typed_expression(c: Rules, s: Found, t: Tree, depth: nat, ty: BytecodeType)
    requires
        form_typing::typed(c, s, t, depth).1 == Ok::<BytecodeType, Failure>(ty),
    ensures
        match t.kind {
            TreeKind::Integer(_) => ty is Integer,
            TreeKind::Text(_) => ty is String,
            TreeKind::Formatted(_) => ty is String,
            TreeKind::Identifier(name) => c.program.spec_scoped_variable(
                c.function,
                name,
            ) matches Some(g) && g.value_type == ty,
            TreeKind::Variable(name, _) => c.program.spec_scoped_variable(
                c.function,
                name,
            ) matches Some(g) && g.value_type == ty,
            TreeKind::Group(x) => typed_as(c, *x, depth + 1, ty),
            TreeKind::Unary(_, x) => ty is Integer && typed_as(
                c,
                *x,
                depth + 1,
                BytecodeType::Integer,
            ),
            TreeKind::Postfix(_, x) => ty is Integer && typed_as(
                c,
                *x,
                depth + 1,
                BytecodeType::Integer,
            ),
            TreeKind::Binary(_, x, y) => ty is Integer || ty is String,
            TreeKind::Ternary(x, y, z) => typed_as(c, *x, depth + 1, BytecodeType::Integer)
                && typed_as(c, *y, depth + 1, ty) && typed_as(c, *z, depth + 1, ty),
            TreeKind::Call(_, _) => true,
            TreeKind::Error => false,
        },
{
    let s1 = form_typing::visited(c, s, depth).0;
    match t.kind {
        TreeKind::Group(x) => {
            assert(form_typing::typed(c, s1, *x, depth + 1).1 == Ok::<BytecodeType, Failure>(ty));
        },
        TreeKind::Unary(_, x) => {
            assert(form_typing::typed(c, s1, *x, depth + 1).1 == Ok::<BytecodeType, Failure>(
                BytecodeType::Integer,
            ));
        },
        TreeKind::Postfix(_, x) => {
            assert(form_typing::typed(c, s1, *x, depth + 1).1 == Ok::<BytecodeType, Failure>(
                BytecodeType::Integer,
            ));
        },
        TreeKind::Ternary(x, y, z) => {
            let first = form_typing::typed(c, s1, *x, depth + 1);
            let second = form_typing::typed(c, first.0, *y, depth + 1);
            let third = form_typing::typed(c, second.0, *z, depth + 1);
            assert(first.1 == Ok::<BytecodeType, Failure>(BytecodeType::Integer));
            assert(second.1 == Ok::<BytecodeType, Failure>(ty));
            assert(third.1 == Ok::<BytecodeType, Failure>(ty));
        },
        _ => {},
    }
}

/// Only a variable of integers that may be written is incremented or decremented.
pub proof fn law_incremented_variable(c: Rules, s: Found, t: Tree, depth: nat, operand: Tree)
    requires
        form_typing::typed(c, s, t, depth).1 is Ok,
        ({
            ||| t.kind matches TreeKind::Postfix(_, x) && *x == operand
            ||| t.kind matches TreeKind::Unary(op, x) && *x == operand && (op is PreIncrement || op
                is PreDecrement)
        }),
    ensures
        form_typing::definition(c.program, c.function, operand) matches Some(g) && g.mutable
            && g.value_type is Integer,
{
}

proof fn lemma_named_list(
    program: ProgramGeneration,
    function: SymbolKey,
    list: Seq<Tree>,
    depth: nat,
    i: int,
)
    requires
        form_frontend::named_list(program, function, list, depth) is Ok,
        0 <= i < list.len(),
    ensures
        ({
            let after = form_frontend::named_list(program, function, list, depth)->Ok_0;
            after.len() == list.len() && form_frontend::named_expr(
                program,
                function,
                list[i],
                depth,
            ) == Ok::<Tree, Failure>(after[i])
        }),
    decreases list.len(),
{
    let before = list.drop_last();
    if before.len() > 0 {
        lemma_named_list(program, function, before, depth, if i < before.len() {
            i
        } else {
            0
        });
    } else {
        assert(form_frontend::named_list(program, function, before, depth)->Ok_0.len() == 0);
    }
}

/// A name stands for a number in one dimension of a variable.
pub open spec fn stands_for(
    program: ProgramGeneration,
    variable: Seq<char>,
    name: Seq<char>,
    dimension: int,
    k: int,
) -> bool {
    &&& 0 <= k < program.named_indices@.len()
    &&& program.named_indices@[k].variable@ == variable
    &&& program.named_indices@[k].candidate@ == name
    &&& program.named_indices@[k].dimension == dimension
}

/// A name among the indices of a variable that is neither a variable nor a function is replaced by
/// the number that it stands for in its dimension; where the first index selects a character, the
/// dimensions are counted from the second one on. A variable stays, and a function is called.
pub proof fn law_index_name_is_replaced(
    program: ProgramGeneration,
    function: SymbolKey,
    t: Tree,
    depth: nat,
    variable: Seq<char>,
    indices: Seq<Tree>,
    i: int,
    name: Seq<char>,
    dimension: int,
    k: int,
)
    requires
        t.kind == TreeKind::Variable(variable, indices),
        form_frontend::named_expr(program, function, t, depth) is Ok,
        0 <= i < indices.len(),
        indices[i].kind == TreeKind::Identifier(name),
        program.spec_scoped_variable(function, variable) matches Some(g) && dimension == if g.storage
            is Character && indices.len() > g.dimensions@.len() {
            i - 1
        } else {
            i
        },
        dimension >= 0,
    ensures
        form_frontend::named_expr(
            program,
            function,
            t,
            depth,
        )->Ok_0.kind matches TreeKind::Variable(same, after) && same == variable && after.len()
            == indices.len() && ({
            let is_variable = program.spec_scoped_variable(function, name) is Some;
            let is_function = program.spec_function_by_name(name) is Some;
            let first = stands_for(program, variable, name, dimension, k) && forall|j: int|
                0 <= j < k ==> !stands_for(program, variable, name, dimension, j);
            &&& is_variable ==> after[i].kind == TreeKind::Identifier(name)
            &&& !is_variable && is_function ==> after[i].kind == TreeKind::Call(
                name,
                Seq::empty(),
            )
            &&& !is_variable && !is_function && first ==> after[i].kind == TreeKind::Integer(
                program.named_indices@[k].value,
            )
        }),
{
    lemma_named_list(program, function, indices, depth + 1, i);
    let list = form_frontend::named_list(program, function, indices, depth + 1)->Ok_0;
    assert(list[i].kind == TreeKind::Identifier(name));
    let p = form_frontend::index_named(variable, name, dimension);
    let first = stands_for(program, variable, name, dimension, k) && forall|j: int|
        0 <= j < k ==> !stands_for(program, variable, name, dimension, j);
    if first {
        assert(p(program.named_indices@[k]));
        assert forall|j: int| 0 <= j < k implies !p(#[trigger] program.named_indices@[j]) by {
            assert(!stands_for(program, variable, name, dimension, j));
        }
        lookup::lemma_first_found(program.named_indices@, p, k);
    }
}

/// The variables that a symbol which stands three times in a row reads: that of the name, and that
/// of the character.
pub open spec fn symbol_reads(symbol: char, value: Seq<char>, index: Seq<char>) -> bool {
    &&& symbol == '*' || symbol == '+' || symbol == '=' || symbol == '/' || symbol == '$'
    &&& value == if symbol == '*' || symbol == '/' {
        "NAME"@
    } else {
        "CALLNAME"@
    }
    &&& index == if symbol == '*' || symbol == '$' {
        "TARGET"@
    } else if symbol == '+' {
        "MASTER"@
    } else if symbol == '=' {
        "PLAYER"@
    } else {
        "ASSI"@
    }
}

/// A text is what one variable holds for the character whose number another one holds.
pub open spec fn names(
    w: World,
    form: Form,
    value: Seq<char>,
    index: Seq<char>,
    n: i64,
    s: Seq<char>,
) -> bool {
    &&& n >= 0
    &&& form_support::variable_read(w.vm, w.fiber, form, index, Seq::empty()) == Ok::<
        Val,
        Failure,
    >(Val::Integer(n))
    &&& form_support::variable_read(w.vm, w.fiber, form, value, seq![n as u64]) == Ok::<
        Val,
        Failure,
    >(Val::Text(s))
}

/// A symbol that stands three times in a row is rendered as the name of a character: of the target,
/// the master, the player or the assistant.
pub proof fn law_symbol_names_a_character(
    w: World,
    providers: NativeProviders,
    symbol: char,
    value: Seq<char>,
    index: Seq<char>,
)
    requires
        evaluation_laws::next_is(w, Task::RenderPart(PartTree::Triple(symbol))),
        form_steps::stepped(w, providers).1 is Ok,
        symbol_reads(symbol, value, index),
    ensures
        ({
            let form = Form { work: evaluation_laws::later(w), ..w.form };
            let after = form_steps::stepped(w, providers).0;
            exists|n: i64, s: Seq<char>| #[trigger]
                names(w, form, value, index, n, s) && after.form == (Form {
                    outputs: evaluation_laws::extended(w.form.outputs, s),
                    ..form
                })
        }),
{
    reveal(form_steps::part_step);
    let form = Form { work: evaluation_laws::later(w), ..w.form };
    let after = form_steps::stepped(w, providers).0;
    let n = form_support::variable_read(
        w.vm,
        w.fiber,
        form,
        index,
        Seq::empty(),
    )->Ok_0->Integer_0;
    let s = form_support::variable_read(w.vm, w.fiber, form, value, seq![n as u64])->Ok_0->Text_0;
    assert(after.form.outputs =~= evaluation_laws::extended(w.form.outputs, s));
    assert(names(w, form, value, index, n, s));
}

/// How many characters of a source open a group, stand in front of an operand or choose.
pub open spec fn openers(s: Seq<char>) -> nat
    decreases s.len(),
{
    if s.len() == 0 {
        0
    } else {
        let c = s.last();
        openers(s.drop_last()) + if c == '{' || c == '(' || c == '!' || c == '~' || c == '+' || c
            == '-' || c == '?' {
            1nat
        } else {
            0nat
        }
    }
}

/// A source with no more such characters than the nesting limit is accepted.
pub proof fn law_shallow_source_is_accepted(s: Seq<char>)
    requires
        openers(s) <= MAX_RUNTIME_FORM_NESTING,
    ensures
        form_frontend::preflighted(s) is Ok,
{
    lemma_shallow(s);
}

proof fn lemma_shallow(s: Seq<char>)
    requires
        openers(s) <= MAX_RUNTIME_FORM_NESTING,
    ensures
        form_frontend::nesting_of(s) matches Some(n) && n.braces + n.parentheses <= openers(s)
            && n.unary_run <= openers(s) && n.ternaries <= openers(s),
    decreases s.len(),
{
    if s.len() > 0 {
        lemma_shallow(s.drop_last());
    }
}

/// A source of opening parentheses alone is accepted up to the nesting limit, and refused beyond.
pub proof fn law_deep_source_is_refused(s: Seq<char>)
    requires
        forall|i: int| 0 <= i < s.len() ==> #[trigger] s[i] == '(',
    ensures
        form_frontend::preflighted(s) is Ok <==> s.len() <= MAX_RUNTIME_FORM_NESTING,
{
    lemma_deep(s);
}

proof fn lemma_deep(s: Seq<char>)
    requires
        forall|i: int| 0 <= i < s.len() ==> #[trigger] s[i] == '(',
    ensures
        match form_frontend::nesting_of(s) {
            Some(n) => s.len() <= MAX_RUNTIME_FORM_NESTING && n.parentheses == s.len() && n.braces
                == 0 && n.quote is None && !n.escaped && !n.percent && n.unary_run == 0
                && n.ternaries == 0,
            None => s.len() > MAX_RUNTIME_FORM_NESTING,
        },
    decreases s.len(),
{
    if s.len() > 0 {
        assert(s.last() == s[s.len() - 1]);
        lemma_deep(s.drop_last());
    }
}

/// A membership test that is taken in one step answers how many of its candidates are the text that
/// it is asked about, in place of the text, and goes on behind the call.
pub proof fn law_group_match_counts(
    vm: VmModel,
    fiber: FiberModel,
    generation: GenerationId,
    function: SymbolKey,
    instruction: usize,
    policy: ExecutionPolicy,
)
    requires
        fastpaths::group_match(vm, fiber, generation, function, instruction, policy).1 is Some,
    ensures
        ({
            let (after, steps) = fastpaths::group_match(
                vm,
                fiber,
                generation,
                function,
                instruction,
                policy,
            );
            let stack = fiber.frames.last().stack;
            &&& fiber.frames.len() > 0 && stack.len() > 0
            &&& exists|k: int|
                0 <= k < vm.program(generation)->Some_0.literal_group_matches@.len() && ({
                    let plan = #[trigger] vm.program(generation)->Some_0.literal_group_matches@[k];
                    &&& plan.function == function && plan.instruction == instruction
                    &&& plan.candidates@.len() < u64::MAX ==> steps == Some(
                        plan.candidates@.len() as u64,
                    )
                    &&& after.frames.last().instruction == plan.after_call
                    &&& stack.last() matches Val::Text(t) && after.frames.last().stack
                        == stack.drop_last().push(after.frames.last().stack.last())
                        && (after.frames.last().stack.last() matches Val::Integer(n) && (
                    plan.candidates@.len() <= i64::MAX ==> n == plan.candidates@.filter(
                        |c: String| c@ == t,
                    ).len()))
                })
        }),
{
    let program = vm.program(generation)->Some_0;
    let p = fastpaths::group_at(function, instruction);
    lookup::lemma_first_index(program.literal_group_matches@, p);
    let k = lookup::first_index(program.literal_group_matches@, p)->Some_0;
    let plan = program.literal_group_matches@[k];
    assert(p(plan));
    lemma_equal_count(plan.candidates@, fiber.frames.last().stack.last()->Text_0);
}

proof fn lemma_equal_count(candidates: Seq<String>, t: Seq<char>)
    ensures
        fastpaths::equal_count(candidates, t) == candidates.filter(|c: String| c@ == t).len(),
        fastpaths::equal_count(candidates, t) <= candidates.len(),
    decreases candidates.len(),
{
    reveal(Seq::filter);
    if candidates.len() > 0 {
        lemma_equal_count(candidates.drop_last(), t);
    }
}

/// The lower-case form of a letter lies thirty-two after its upper-case form, and every other
/// character is its own.
pub proof fn law_letter_case(c: char)
    ensures
        'A' <= c <= 'Z' ==> text::lower(c) as int == c as int + 32 && text::upper(text::lower(c))
            == c,
        'a' <= c <= 'z' ==> text::upper(c) as int == c as int - 32 && text::lower(text::upper(c))
            == c,
        !('A' <= c <= 'Z') ==> text::lower(c) == c,
        !('a' <= c <= 'z') ==> text::upper(c) == c,
{
}

/// To be the same text up to letter case is an equivalence, and a text is the same as its upper-case
/// form.
pub proof fn law_same_text(a: Seq<char>, b: Seq<char>, c: Seq<char>)
    ensures
        text::same_ignoring_case(a, a),
        text::same_ignoring_case(a, b) ==> text::same_ignoring_case(b, a) && a.len() == b.len(),
        text::same_ignoring_case(a, b) && text::same_ignoring_case(b, c)
            ==> text::same_ignoring_case(a, c),
        text::same_ignoring_case(a, text::upper_text(a)),
        text::same_ignoring_case(a, b) ==> text::upper_text(a) == text::upper_text(b),
{
    if text::same_ignoring_case(a, b) {
        assert forall|i: int| 0 <= i < b.len() implies text::lower(#[trigger] b[i])
            == text::lower(a[i]) by {
            assert(text::lower(a[i]) == text::lower(b[i]));
        }
        assert forall|i: int| 0 <= i < a.len() implies #[trigger] text::upper_text(a)[i]
            == text::upper_text(b)[i] by {
            assert(text::lower(a[i]) == text::lower(b[i]));
            lemma_same_upper(a[i], b[i]);
        }
        assert(text::upper_text(a) =~= text::upper_text(b));
        if text::same_ignoring_case(b, c) {
            assert forall|i: int| 0 <= i < a.len() implies text::lower(#[trigger] a[i])
                == text::lower(c[i]) by {
                assert(text::lower(b[i]) == text::lower(c[i]));
            }
        }
    }
    assert forall|i: int| 0 <= i < a.len() implies text::lower(#[trigger] a[i]) == text::lower(
        text::upper_text(a)[i],
    ) by {
        law_letter_case(a[i]);
    }
}

proof fn lemma_same_upper(a: char, b: char)
    requires
        text::lower(a) == text::lower(b),
    ensures
        text::upper(a) == text::upper(b),
{
    law_letter_case(a);
    law_letter_case(b);
}

/// The place that an increment or decrement changes: the variable, in the frame of the evaluation
/// where it is local, and for a variable of characters that of the first index where there is one
/// more than dimensions, else of the target.
pub proof fn law_mutated_place(
    vm: VmModel,
    fiber: FiberModel,
    form: Form,
    variable: SymbolKey,
    count: nat,
    mode: u8,
)
    requires
        form_queries::mutation_begun(vm, fiber, form, variable, count, mode).1 is Ok,
    ensures
        ({
            let place = form_queries::mutation_begun(
                vm,
                fiber,
                form,
                variable,
                count,
                mode,
            ).1->Ok_0;
            let indices = form_support::indices_taken(form, count).1->Ok_0;
            &&& mode <= 3
            &&& vm.program(form.generation) matches Some(program) && program.spec_global(
                variable,
            ) matches Some(g) && g.mutable && g.value_type is Integer && ({
                &&& place.variable == variable && place.backing is None
                &&& g.storage is FunctionLocal ==> place.frame == Some(form.frame)
                &&& !(g.storage is Character) ==> place.character is None && place.indices
                    == indices
                &&& g.storage is Character && indices.len() > g.dimensions@.len()
                    ==> place.character == Some(indices[0]) && place.indices == indices.skip(1)
                &&& g.storage is Character && indices.len() <= g.dimensions@.len()
                    ==> place.character == Some(named::target_character(vm, form.generation))
                    && place.indices == indices
            })
        }),
{
}

} // verus!
