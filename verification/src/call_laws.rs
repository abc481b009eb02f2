//! What calls do to the frames of a fiber.

use vstd::prelude::*;
use crate::calls::{self, CallMemo, CallModel, NativeFacts};
use crate::frames;
use crate::lookup;
use crate::operand;
use crate::places;
use crate::program::{self, BytecodeFunction, BytecodeParameter, CallCompatibility, Opcode};
use crate::state::{At, ExecutionPolicy, FiberModel, FrameModel, Outcome, VmModel};
use crate::text;
use crate::value::{FrameId, Val};

verus! {

/// Two bytes of an operand, the low one first.
pub open spec fn two_bytes(payload: Seq<u8>, i: int) -> int {
    payload[i] + 256 * payload[i + 1]
}

/// Four bytes of an operand, the lowest one first.
pub open spec fn four_bytes(payload: Seq<u8>, i: int) -> int {
    payload[i] + 256 * payload[i + 1] + 65536 * payload[i + 2] + 16777216 * payload[i + 3]
}

/// The numbers in an operand are little-endian; an operand that is too short has none.
pub proof fn law_operand_numbers(payload: Seq<u8>, i: nat)
    ensures
        operand::u16_at(payload, i) is Ok <==> i + 2 <= payload.len(),
        i + 2 <= payload.len() ==> operand::u16_at(payload, i)->Ok_0 == two_bytes(
            payload,
            i as int,
        ),
        operand::u32_at(payload, i) is Ok <==> i + 4 <= payload.len(),
        i + 4 <= payload.len() ==> operand::u32_at(payload, i)->Ok_0 == four_bytes(
            payload,
            i as int,
        ),
{
    reveal_with_fuel(operand::little_endian, 5);
}

/// The arguments of a call, completed with what the omitted ones stand for.
proof fn lemma_completed(parameters: Seq<BytecodeParameter>, arguments: Seq<Val>)
    requires
        frames::completed(parameters, arguments) is Some,
    ensures
        ({
            let all = frames::completed(parameters, arguments)->Some_0;
            &&& all.len() == parameters.len()
            &&& forall|k: int|
                0 <= k < parameters.len() ==> (#[trigger] all[k]) == if k < arguments.len() {
                    arguments[k]
                } else {
                    frames::omitted_value(parameters[k])->Some_0
                }
            &&& forall|k: int|
                arguments.len() <= k < parameters.len() ==> !(#[trigger] parameters[k]).by_reference
        }),
    decreases parameters.len(),
{
    if parameters.len() > 0 {
        lemma_completed(parameters.drop_last(), arguments);
        let before = parameters.drop_last();
        assert forall|k: int| arguments.len() <= k < parameters.len() implies !(
        #[trigger] parameters[k]).by_reference by {
            if k < before.len() {
                assert(!before[k].by_reference);
            }
        }
    }
}

/// The value that an omitted argument stands for: the default, or zero or the empty text.
pub open spec fn stands_for_omitted(parameter: BytecodeParameter, v: Val) -> bool {
    match parameter.default {
        Some(d) => v == d@,
        None => match v {
            Val::Integer(n) => n == 0 && (parameter.value_type is Integer
                || parameter.value_type is IntegerPlace),
            Val::Text(t) => t.len() == 0 && (parameter.value_type is String
                || parameter.value_type is StringPlace),
            _ => false,
        },
    }
}

/// The arguments of a dynamic call: those given in their order, then for each parameter that is
/// left over its default, or zero or the empty text. A reference cannot be left out, and too many
/// arguments are refused where the program asks for it.
pub proof fn law_omitted_arguments(
    function: BytecodeFunction,
    arguments: Seq<Val>,
    compatibility: CallCompatibility,
)
    ensures
        ({
            let parameters = function.parameters@;
            let r = frames::prepared(function, arguments, compatibility);
            &&& r matches Ok(all) ==> {
                &&& all.len() == parameters.len()
                &&& forall|k: int|
                    0 <= k < parameters.len() && k < arguments.len() ==> (#[trigger] all[k])
                        == arguments[k]
                &&& forall|k: int|
                    arguments.len() <= k < parameters.len() ==> stands_for_omitted(
                        parameters[k],
                        #[trigger] all[k],
                    )
            }
            &&& arguments.len() > parameters.len() && compatibility.excess_arguments is Reject
                ==> r is Err
            &&& (exists|k: int|
                arguments.len() <= k < parameters.len() && (
                #[trigger] parameters[k]).by_reference) ==> r is Err
        }),
{
    if frames::completed(function.parameters@, arguments) is Some {
        lemma_completed(function.parameters@, arguments);
    }
}

proof fn lemma_loaded(
    vm: VmModel,
    fiber: FiberModel,
    parameters: Seq<BytecodeParameter>,
    arguments: Seq<Val>,
    n: nat,
)
    requires
        n <= arguments.len(),
        calls::loaded(vm, fiber, parameters, arguments, n) is Ok,
    ensures
        ({
            let all = calls::loaded(vm, fiber, parameters, arguments, n)->Ok_0;
            &&& all.len() == n
            &&& forall|k: int|
                0 <= k < n ==> passes(vm, fiber, parameters, k, arguments[k], #[trigger] all[k])
        }),
    decreases n,
{
    if n > 0 {
        lemma_loaded(vm, fiber, parameters, arguments, (n - 1) as nat);
        let before = calls::loaded(vm, fiber, parameters, arguments, (n - 1) as nat)->Ok_0;
        let all = calls::loaded(vm, fiber, parameters, arguments, n)->Ok_0;
        assert forall|k: int| 0 <= k < n implies passes(
            vm,
            fiber,
            parameters,
            k,
            arguments[k],
            #[trigger] all[k],
        ) by {
            if k < n - 1 {
                assert(all[k] == before[k]);
            }
        }
    }
}

/// What is passed for an argument: what a place holds where the parameter takes a value, else the
/// argument itself.
pub open spec fn passes(
    vm: VmModel,
    fiber: FiberModel,
    parameters: Seq<BytecodeParameter>,
    k: int,
    argument: Val,
    v: Val,
) -> bool {
    let by_value = k < parameters.len() && !parameters[k].by_reference;
    match argument {
        Val::IntegerPlace(p) => if by_value {
            places::read_place(vm, fiber, p) == Ok::<Val, crate::fault::Trouble>(v)
        } else {
            v == argument
        },
        Val::StringPlace(p) => if by_value {
            places::read_place(vm, fiber, p) == Ok::<Val, crate::fault::Trouble>(v)
        } else {
            v == argument
        },
        _ => v == argument,
    }
}

/// A frame that has just been entered.
pub open spec fn just_entered(frame: FrameModel, id: FrameId, at: At, target: BytecodeFunction) -> bool {
    &&& frame.id == id
    &&& frame.generation == at.generation
    &&& frame.function == target.key
    &&& frame.instruction == 0
    &&& frame.stack.len() == 0
    &&& frame.for_loops.len() == 0
    &&& frame.select_values.len() == 0
    &&& frame.user_calls.len() == 0
    &&& frame.event_dispatch is None
    &&& frame.runtime_form is None
}

/// The caller stays under the frame that it called, with the operands of the call gone.
pub open spec fn caller_stays(before: FiberModel, after: FiberModel, taken: int) -> bool {
    let n = before.frames.len();
    let caller = before.frames.last();
    &&& after.frames.len() == n + 1
    &&& after.frames.take(n - 1) == before.frames.take(n - 1)
    &&& after.frames[n - 1] == (FrameModel {
        stack: caller.stack.take(caller.stack.len() - taken),
        ..caller
    })
}

/// The caller is replaced by the frame that it called; those below it stay.
pub open spec fn caller_replaced(before: FiberModel, after: FiberModel) -> bool {
    let n = before.frames.len();
    &&& after.frames.len() == n
    &&& after.frames.take(n - 1) == before.frames.take(n - 1)
}

/// A dynamic call that succeeds enters the function whose name lies under the arguments, with the
/// arguments passed in order. The caller stays directly under the new frame; only a tail call
/// replaces it, and then the number of frames is unchanged.
pub proof fn law_dynamic_call_frames(
    vm: VmModel,
    fiber: FiberModel,
    at: At,
    policy: ExecutionPolicy,
    memo: CallMemo,
    facts: NativeFacts,
)
    requires
        at.opcode is InvokeDynamic,
        fiber.frames.len() > 0,
        vm.program(at.generation) is Some,
        calls::called(vm, fiber, at, Opcode::InvokeDynamic, policy, memo, facts).2 is Ok,
    ensures
        at.payload.len() >= 2,
        fiber.frames.last().stack.len() > two_bytes(at.payload, 0),
        ({
            let program = vm.program(at.generation)->Some_0;
            let stack = fiber.frames.last().stack;
            let count = two_bytes(at.payload, 0);
            let first = stack.len() - count;
            let tail = at.payload.len() > 2 && at.payload[2] == 1;
            let (vm1, after, r) = calls::called(
                vm,
                fiber,
                at,
                Opcode::InvokeDynamic,
                policy,
                memo,
                facts,
            );
            let callee = after.frames.last();
            &&& r->Ok_0 == CallModel::Done(Outcome::Continue)
            &&& vm1.next_frame == vm.next_frame.wrapping_add(1)
            &&& after.id == fiber.id && after.state == fiber.state
            &&& !tail ==> caller_stays(fiber, after, count + 1) && fiber.frames.len()
                < vm.config.maximum_call_depth
            &&& tail ==> caller_replaced(fiber, after)
            &&& stack[first - 1] matches Val::Text(name) && (exists|f: int|
                0 <= f < program.functions@.len() && text::same_ignoring_case(
                    (#[trigger] program.functions@[f]).name@,
                    name,
                ) && just_entered(callee, FrameId(vm.next_frame), at, program.functions@[f])
                    && callee.arguments.len() == program.functions@[f].parameters@.len() && (forall|
                    k: int,
                |
                    0 <= k < count && k < callee.arguments.len() && !(stack[first + k]
                        is IntegerPlace) && !(stack[first + k] is StringPlace) ==> (
                    #[trigger] callee.arguments[k]) == stack[first + k]))
        }),
{
    law_operand_numbers(at.payload, 0);
    let program = vm.program(at.generation)->Some_0;
    let stack = fiber.frames.last().stack;
    let count = operand::u16_at(at.payload, 0)->Ok_0;
    let (rest, arguments) = operand::popped_arguments(stack, count as nat);
    assert(rest.len() > 0);
    assert(rest.last() == stack[stack.len() - count - 1]);
    assert(rest.drop_last() =~= stack.take(stack.len() - (count + 1)));
    let name = rest.last()->Text_0;
    lookup::lemma_first_index(program.functions@, program::function_named(name));
    let f = lookup::first_index(program.functions@, program::function_named(name))->Some_0;
    let target = program.functions@[f];
    let after = calls::called(vm, fiber, at, Opcode::InvokeDynamic, policy, memo, facts).1;
    let tail = calls::flag_in(at.payload, 2);
    let kept = if tail {
        vm.without_path_memo(fiber.id)
    } else {
        vm
    };
    let numbered = VmModel { next_frame: kept.next_frame.wrapping_add(1), ..kept };
    let popped = fiber.with_stack(rest.drop_last());
    let given = arguments->Ok_0;
    lemma_loaded(numbered, popped, target.parameters@, given, given.len());
    let values = calls::loaded(numbered, popped, target.parameters@, given, given.len())->Ok_0;
    let all = frames::prepared(target, values, program.call_compatibility)->Ok_0;
    lemma_completed(target.parameters@, values);
    let callee = after.frames.last();
    assert(callee.arguments == all);
    let n = fiber.frames.len();
    assert(after.frames.take(n - 1) =~= fiber.frames.take(n - 1));
    assert forall|k: int|
        0 <= k < count && k < all.len() && !(stack[stack.len() - count + k] is IntegerPlace) && !(
        stack[stack.len() - count + k] is StringPlace) implies (#[trigger] callee.arguments[k])
        == stack[stack.len() - count + k] by {
        assert(given[k] == stack[stack.len() - count + k]);
        assert(passes(numbered, popped, target.parameters@, k, given[k], values[k]));
    }
    assert(just_entered(callee, FrameId(vm.next_frame), at, program.functions@[f]));
    assert(text::same_ignoring_case(program.functions@[f].name@, name));
}

/// A call of a function of the program that succeeds without the help of a cache enters the
/// function that the import names, above the caller, with the arguments in pushing order.
pub proof fn law_function_call_frames(
    vm: VmModel,
    fiber: FiberModel,
    at: At,
    policy: ExecutionPolicy,
    memo: CallMemo,
    facts: NativeFacts,
)
    requires
        at.opcode is Call,
        !policy.allow_function_memo,
        fiber.frames.len() > 0,
        vm.program(at.generation) matches Some(p) && p.spec_function(at.function) is Some,
        calls::called(vm, fiber, at, Opcode::Call, policy, memo, facts).2 is Ok,
    ensures
        at.payload.len() >= 6,
        fiber.frames.last().stack.len() >= two_bytes(at.payload, 4),
        ({
            let program = vm.program(at.generation)->Some_0;
            let imports = program.spec_function(at.function)->Some_0.imports@;
            let stack = fiber.frames.last().stack;
            let count = two_bytes(at.payload, 4);
            let (vm1, after, r) = calls::called(vm, fiber, at, Opcode::Call, policy, memo, facts);
            let callee = after.frames.last();
            &&& r->Ok_0 == CallModel::Done(Outcome::Continue)
            &&& fiber.frames.len() < vm.config.maximum_call_depth
            &&& caller_stays(fiber, after, count)
            &&& callee.arguments == stack.skip(stack.len() - count)
            &&& exists|f: int|
                0 <= f < program.functions@.len() && (#[trigger] program.functions@[f]).key
                    == imports[four_bytes(at.payload, 0)].key && just_entered(
                    callee,
                    FrameId(vm.next_frame),
                    at,
                    program.functions@[f],
                ) && callee.returns_value == (program.functions@[f].result is Some)
        }),
{
    law_operand_numbers(at.payload, 0);
    law_operand_numbers(at.payload, 4);
    let program = vm.program(at.generation)->Some_0;
    let imports = program.spec_function(at.function)->Some_0.imports@;
    let key = imports[four_bytes(at.payload, 0)].key;
    lookup::lemma_first_index(program.functions@, program::function_key(key));
    let after = calls::called(vm, fiber, at, Opcode::Call, policy, memo, facts).1;
    let n = fiber.frames.len();
    let stack = fiber.frames.last().stack;
    let count = two_bytes(at.payload, 4);
    assert(after.frames.take(n - 1) =~= fiber.frames.take(n - 1));
    assert(stack.subrange(stack.len() - count, stack.len() as int) =~= stack.skip(
        stack.len() - count,
    ));
    let f = lookup::first_index(program.functions@, program::function_key(key))->Some_0;
    assert(just_entered(after.frames.last(), FrameId(vm.next_frame), at, program.functions@[f]));
}

/// A name that no function bears is skipped over where the operand allows it, and refused
/// otherwise; a name that a function of the asked kind bears stays, as the function spells it.
pub proof fn law_function_lookup(
    vm: VmModel,
    fiber: FiberModel,
    at: At,
    policy: ExecutionPolicy,
    memo: CallMemo,
    facts: NativeFacts,
    name: Seq<char>,
)
    requires
        at.opcode is ResolveFunction,
        at.payload.len() >= 4,
        fiber.frames.len() > 0,
        fiber.frames.last().stack.len() > 0,
        fiber.frames.last().stack.last() == Val::Text(name),
        vm.program(at.generation) is Some,
    ensures
        ({
            let program = vm.program(at.generation)->Some_0;
            let frame = fiber.frames.last();
            let rest = frame.stack.drop_last();
            let optional = at.payload.len() > 4 && at.payload[4] == 1;
            let method = at.payload.len() > 5 && at.payload[5] == 1;
            let (vm1, after, r) = calls::called(
                vm,
                fiber,
                at,
                Opcode::ResolveFunction,
                policy,
                memo,
                facts,
            );
            let skips = after.frames.last() == (FrameModel {
                stack: rest.push(Val::Text(Seq::empty())),
                instruction: four_bytes(at.payload, 0) as usize,
                ..frame
            });
            &&& vm1 == vm
            &&& after.frames.drop_last() == fiber.frames.drop_last()
            &&& (forall|f: int|
                0 <= f < program.functions@.len() ==> !text::same_ignoring_case(
                    (#[trigger] program.functions@[f]).name@,
                    name,
                )) ==> if optional {
                r is Ok && skips
            } else {
                r matches Err(e) && e.code is MissingSymbol
            }
            &&& forall|f: int|
                0 <= f < program.functions@.len() && text::same_ignoring_case(
                    (#[trigger] program.functions@[f]).name@,
                    name,
                ) && (forall|g: int|
                    0 <= g < f ==> !text::same_ignoring_case(
                        (#[trigger] program.functions@[g]).name@,
                        name,
                    )) ==> {
                    let found = program.functions@[f];
                    let fits = if method {
                        found.kind is Method
                    } else {
                        !(found.kind is Method) && (found.kind is Event
                            ==> program.call_compatibility.allow_event_as_normal)
                    };
                    if fits {
                        r is Ok && after.frames.last() == (FrameModel {
                            stack: rest.push(Val::Text(found.name@)),
                            ..frame
                        })
                    } else if method && optional {
                        r is Ok && skips
                    } else {
                        r matches Err(e) && e.code is TypeMismatch
                    }
                }
        }),
{
    law_operand_numbers(at.payload, 0);
    let program = vm.program(at.generation)->Some_0;
    let p = program::function_named(name);
    lookup::lemma_first_index(program.functions@, p);
    let after = calls::called(vm, fiber, at, Opcode::ResolveFunction, policy, memo, facts).1;
    assert(after.frames.drop_last() =~= fiber.frames.drop_last());
    assert forall|f: int|
        0 <= f < program.functions@.len() && text::same_ignoring_case(
            (#[trigger] program.functions@[f]).name@,
            name,
        ) && (forall|g: int|
            0 <= g < f ==> !text::same_ignoring_case(
                (#[trigger] program.functions@[g]).name@,
                name,
            )) implies program.spec_function_by_name(name) == Some(&program.functions@[f]) by {
        assert(p(program.functions@[f]));
        let first = lookup::first_index(program.functions@, p)->Some_0;
        assert(p(program.functions@[first]));
        if f < first {
            assert(!p(program.functions@[f]));
        }
    }
}

} // verus!
