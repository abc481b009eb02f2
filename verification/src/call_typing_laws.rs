//! What calls in a source come to, and what holds of a stored evaluation.

use vstd::prelude::*;
use crate::ast::{self, Span, Tree, TreeKind};
use crate::bit_calls;
use crate::form_effects;
use crate::form_methods;
use crate::form_typing::{self, Found, Rules, Shapes};
use crate::form_validity::{self, MethodFacts};
use crate::forms::{Form, MatchSource, Task, UserCall, MAX_RUNTIME_FORM_NESTING};
use crate::lookup;
use crate::program::{BitOperation, BytecodeGlobal, ProgramGeneration, RuntimeExpressionShape};
use crate::source_laws;
use crate::state::{self, FiberModel, VmModel};
use crate::text;
use crate::value::{BytecodeType, SymbolKey};

verus! {

/// A user function stands before everything else that bears its name: a call of it has the type of
/// its result, which is an integer or a text, and only a method is called in this way.
pub proof fn law_user_function_comes_first(
    c: Rules,
    s: Found,
    name: Seq<char>,
    arguments: Seq<Option<Tree>>,
    shapes: Shapes,
    span: Span,
)
    requires
        c.program.spec_function_by_name(name) is Some,
    ensures
        ({
            let (after, r) = form_typing::call_typed(c, s, name, arguments, shapes, span);
            let target = c.program.spec_function_by_name(name)->Some_0;
            &&& after == s
            &&& r matches Ok(ty) ==> target.kind is Method && target.result == Some(ty) && (ty
                is Integer || ty is String)
            &&& !(target.kind is Method) || target.result is None ==> r is Err
        }),
{
    reveal(form_typing::call_typed);
}

proof fn lemma_bits(a: bool, b: bool, c: bool)
    by (bit_vector)
    ensures
        ({
            let p = if a {
                0u8 | (1u8 << 0u8)
            } else {
                0u8
            };
            let q = if b {
                p | (1u8 << 1u8)
            } else {
                p
            };
            let r = if c {
                q | (1u8 << 2u8)
            } else {
                q
            };
            &&& ((r >> 0u8) & 1 == 1) == a
            &&& ((r >> 1u8) & 1 == 1) == b
            &&& ((r >> 2u8) & 1 == 1) == c
        }),
{
}

/// A BIT call in a source works on a variable of integers with one dimension that may be written,
/// and takes up to three integers behind it; the call knows which of them are given.
pub proof fn law_bit_call_in_source(
    operation: BitOperation,
    g: Option<BytecodeGlobal>,
    shapes: Seq<Option<RuntimeExpressionShape>>,
)
    requires
        form_typing::bit_shaped(operation, g, shapes) is Ok,
    ensures
        ({
            let spec = form_typing::bit_shaped(operation, g, shapes)->Ok_0;
            &&& g matches Some(v) && v.mutable && v.value_type is Integer && v.dimensions@.len()
                == 1 && spec.input == v.key
            &&& spec.operation == operation
            &&& 1 <= shapes.len() <= 4 && spec.tail_count == shapes.len() - 1
            &&& forall|i: int|
                1 <= i < shapes.len() ==> (#[trigger] shapes[i] matches Some(s)
                    ==> s.value_type is Integer)
            &&& forall|i: int|
                1 <= i < shapes.len() ==> (#[trigger] shapes[i] is Some <==> bit_calls::is_present(
                    spec,
                    i - 1,
                ))
        }),
{
    reveal_with_fuel(form_typing::presence, 4);
    let given = |i: int| i < shapes.len() && shapes[i] is Some;
    lemma_bits(given(1), given(2), given(3));
    let spec = form_typing::bit_shaped(operation, g, shapes)->Ok_0;
    assert forall|i: int| 1 <= i < shapes.len() implies (#[trigger] shapes[i] is Some
        <==> bit_calls::is_present(spec, i - 1)) by {
        assert(i == 1 || i == 2 || i == 3);
    }
}

/// A MATCH call in a source searches the variable that its first argument names, or the text there,
/// for a value of the type of its second; the start is an integer where it is left out, and the
/// matches go to the variable that the fifth argument names.
pub proof fn law_match_call_in_source(
    program: ProgramGeneration,
    function: SymbolKey,
    name: Seq<char>,
    arguments: Seq<Option<Tree>>,
    types: Seq<Option<BytecodeType>>,
)
    requires
        form_typing::match_shaped(program, function, name, arguments, types) is Ok,
    ensures
        ({
            let spec = form_typing::match_shaped(program, function, name, arguments, types)->Ok_0;
            let named = |i: int|
                {
                    arguments[i] matches Some(t) && ast::variable_in(t) matches Some(v)
                        && program.spec_scoped_variable(function, v) is Some
                };
            let key = |i: int|
                program.spec_scoped_variable(
                    function,
                    ast::variable_in(arguments[i]->Some_0)->Some_0,
                )->Some_0.key;
            &&& 2 <= arguments.len() <= 5 && types.len() == arguments.len()
            &&& types[1] == Some(spec.needle)
            &&& arguments.len() > 2 && types[2] is Some ==> types[2] == Some(spec.begin_type)
            &&& arguments.len() <= 2 || types[2] is None ==> spec.begin_type is Integer
            &&& spec.end_type == if arguments.len() > 3 {
                types[3]
            } else {
                None
            }
            &&& arguments.len() == 5 ==> named(4) && spec.output == Some(key(4))
            &&& arguments.len() < 5 ==> spec.output is None
            &&& text::same_ignoring_case(name, "MATCHALLEX"@) ==> (
            spec.input matches MatchSource::Name(s) && arguments[0] is Some && ast::bare(
                arguments[0]->Some_0,
            ).kind == TreeKind::Text(s))
            &&& !text::same_ignoring_case(name, "MATCHALLEX"@) ==> named(0) && spec.input
                == MatchSource::Variable(key(0))
        }),
{
}

/// Calls of the language itself: a method by name has the type that is asked for and takes a text,
/// questions are answered with an integer, a formatted text is a text, and the check of one is an
/// integer.
pub proof fn law_calls_of_the_language(
    c: Rules,
    s: Found,
    name: Seq<char>,
    shapes: Shapes,
    span: Span,
)
    requires
        form_typing::normal_typed(c, s, name, shapes, span).1 is Ok,
    ensures
        ({
            let (after, r) = form_typing::normal_typed(c, s, name, shapes, span);
            let ty = r->Ok_0;
            let is = |word: &str| text::same_ignoring_case(name, word@);
            let text_first = shapes.len() > 0 && (shapes[0] matches Some(f) && f.value_type
                is String);
            &&& is("GETMETH") ==> ty is Integer && text_first
            &&& is("GETMETHS") ==> ty is String && text_first
            &&& is("EXISTMETH") ==> ty is Integer && text_first && shapes.len() == 1
            &&& is("EXISTVAR") ==> ty is Integer && text_first && shapes.len() <= 2
            &&& is("STRFORM") ==> ty is String && text_first && shapes.len() == 1
            &&& is("STRFORMCHECK") ==> ty is Integer && text_first && shapes.len() == 1
            &&& (is("GETMETH") || is("GETMETHS")) && shapes.len() > 1 ==> (shapes[1] matches Some(
                f,
            ) ==> f.value_type == ty)
        }),
{
    reveal_strlit("GETMETH");
    reveal_strlit("GETMETHS");
    reveal_strlit("EXISTMETH");
    reveal_strlit("EXISTVAR");
    reveal_strlit("STRFORM");
    reveal_strlit("STRFORMCHECK");
    assert("GETMETH"@.len() == 7 && "GETMETHS"@.len() == 8 && "EXISTMETH"@.len() == 9);
    assert("EXISTVAR"@.len() == 8 && "STRFORM"@.len() == 7 && "STRFORMCHECK"@.len() == 12);
    source_laws::law_letter_case('G');
    source_laws::law_letter_case('E');
    source_laws::law_letter_case('S');
    assert("GETMETH"@[0] == 'G' && "GETMETHS"@[0] == 'G');
    assert("EXISTVAR"@[0] == 'E' && "STRFORM"@[0] == 'S');
    let types = form_typing::shape_types(shapes);
    assert(types.len() == shapes.len());
    if name.len() > 0 {
        assert(text::same_ignoring_case(name, "EXISTVAR"@) ==> text::lower(name[0]) == text::lower(
            'E',
        ));
        assert(text::same_ignoring_case(name, "GETMETHS"@) ==> text::lower(name[0]) == text::lower(
            'G',
        ));
        assert(text::same_ignoring_case(name, "GETMETH"@) ==> text::lower(name[0]) == text::lower(
            'G',
        ));
        assert(text::same_ignoring_case(name, "STRFORM"@) ==> text::lower(name[0]) == text::lower(
            'S',
        ));
    }
}

/// A stored evaluation that is valid belongs to a frame of its fiber, is within the limits of the
/// machine, holds no map twice, and has only steps that can still be taken: no answer of the input
/// controller is outstanding, and an increment has one of the four kinds.
pub proof fn law_valid_evaluation(vm: VmModel, fiber: FiberModel, form: Form, facts: MethodFacts, i: int, j: int)
    requires
        form_validity::method_state_valid(vm, fiber, form, facts),
    ensures
        vm.program(form.generation) is Some,
        exists|f: int|
            0 <= f < fiber.frames.len() && (#[trigger] fiber.frames[f]).id == form.frame,
        form.values.len() <= vm.config.maximum_operand_stack,
        form.work.len() <= vm.config.maximum_operand_stack,
        form.outputs.len() <= MAX_RUNTIME_FORM_NESTING,
        form.next_map_call > 0 && form.next_bit_call > 0 && form.next_reference_scope > 0,
        ({
            let maps = form_effects::held_maps(form.work);
            0 <= i < maps.len() && 0 <= j < maps.len() && i != j ==> maps[i] != maps[j]
        }),
        0 <= i < form.work.len() ==> !(form.work[i] is ReadInputHost),
        0 <= i < form.work.len() ==> (form.work[i] matches Task::MutateVariable(_, _, mode) ==> mode
            <= 3),
{
    reveal(form_validity::task_valid);
    let p = state::frame_is(form.frame);
    lookup::lemma_first_index(fiber.frames, p);
    let f = lookup::first_index(fiber.frames, p)->Some_0;
    assert(p(fiber.frames[f]));
    if 0 <= i < form.work.len() {
        assert(form_validity::task_valid(
            vm,
            fiber.id,
            form,
            vm.program(form.generation)->Some_0,
            form_validity::references_at(facts, i),
            facts.progress@,
            form.work[i],
        ));
    }
}

/// A stored user call that is valid belongs to the program of its evaluation, has not gone past its
/// arguments, and keeps one value for each argument that has a parameter.
pub proof fn law_valid_user_call(
    vm: VmModel,
    form: Form,
    call: UserCall,
    awaiting: bool,
    references: Seq<bool>,
)
    requires
        form_methods::call_checked(vm, form, call, awaiting, references) is Ok,
    ensures
        call.call.generation == form.generation,
        0 < call.reference_scope < form.next_reference_scope,
        call.specs.len() == call.arguments.len(),
        call.next_slot <= call.specs.len(),
        call.captured.len() <= call.specs.len(),
        call.captured.len() <= call.call.bindings.len(),
        call.captured.len() == call.specs.len() || call.captured.len() == call.call.bindings.len(),
        awaiting ==> call.next_slot < call.captured.len(),
{
}

} // verus!
