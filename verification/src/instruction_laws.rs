//! What single instructions do: selections, counting loops, jumps and variables.

use vstd::prelude::*;
use vstd::utf8::encode_utf8;
use crate::basic;
use crate::call_laws;
use crate::dispatch;
use crate::fault::Failure;
use crate::operand;
use crate::operator_laws;
use crate::state::{self, At, ExecutionPolicy, FiberModel, FrameModel, Outcome, VmModel};
use crate::text;
use crate::value::Val;

verus! {

/// A fiber with another running frame.
pub open spec fn running(fiber: FiberModel, frame: FrameModel) -> FiberModel {
    FiberModel { frames: fiber.frames.drop_last().push(frame), ..fiber }
}

/// The instruction behind the one that a frame is at.
pub open spec fn next_instruction(frame: FrameModel) -> usize {
    (frame.instruction + 1) as usize
}

/// An instruction is done without anything of note, unless it left too many operands.
pub open spec fn plainly_done(
    vm: VmModel,
    fiber: FiberModel,
    r: Result<Option<Outcome>, Failure>,
) -> bool {
    fiber.frames.last().operand_slots() <= vm.config.maximum_operand_stack ==> r == Ok::<
        Option<Outcome>,
        Failure,
    >(Some(Outcome::Continue))
}

pub proof fn lemma_counted(fiber: FiberModel)
    requires
        fiber.frames.len() > 0,
    ensures
        ({
            let frame = fiber.frames.last();
            dispatch::counted(fiber) == running(
                fiber,
                FrameModel { instruction: next_instruction(frame), ..frame },
            )
        }),
        dispatch::counted(fiber).frames.len() == fiber.frames.len(),
{
    let frame = fiber.frames.last();
    assert(dispatch::counted(fiber).frames =~= fiber.frames.drop_last().push(
        FrameModel { instruction: next_instruction(frame), ..frame },
    ));
}

pub proof fn lemma_retopped(fiber: FiberModel, frame: FrameModel)
    requires
        fiber.frames.len() > 0,
    ensures
        dispatch::counted(fiber).with_top(frame) == running(fiber, frame),
        fiber.with_top(frame) == running(fiber, frame),
{
    assert(dispatch::counted(fiber).with_top(frame).frames =~= fiber.frames.drop_last().push(
        frame,
    ));
    assert(fiber.with_top(frame).frames =~= fiber.frames.drop_last().push(frame));
}

/// A CASE over an integer pushes one exactly where the selected integer is equal to, different
/// from, less than, at most, greater than or at least the operand, where it lies between the two
/// bounds of a range, or where it shares a bit with the operand; CASEELSE always does.
pub proof fn law_case_on_integers(
    vm: VmModel,
    fiber: FiberModel,
    at: At,
    policy: ExecutionPolicy,
    s: i64,
    lower: i64,
    upper: i64,
)
    requires
        at.opcode is SelectCompare,
        at.payload.len() > 0,
        fiber.frames.len() > 0,
        fiber.frames.last().select_values.len() > 0,
        fiber.frames.last().select_values.last() == Val::Integer(s),
        fiber.frames.last().stack.len() >= 2,
        fiber.frames.last().stack[fiber.frames.last().stack.len() - 2] == Val::Integer(lower),
        fiber.frames.last().stack[fiber.frames.last().stack.len() - 1] == Val::Integer(upper),
    ensures
        ({
            let frame = fiber.frames.last();
            let operation = at.payload[0];
            let after = dispatch::executed(vm, fiber, at, policy);
            let taken: int = if operation == 6 {
                2
            } else if operation == 8 {
                0
            } else {
                1
            };
            let matching = match operation {
                0 => s == upper,
                1 => s != upper,
                2 => s < upper,
                3 => s <= upper,
                4 => s > upper,
                5 => s >= upper,
                6 => lower <= s <= upper,
                7 => (s & upper) != 0,
                _ => true,
            };
            &&& operation > 8 ==> after.2 is Err
            &&& operation <= 8 ==> after.0 == vm && after.1 == running(
                fiber,
                FrameModel {
                    stack: frame.stack.take(frame.stack.len() - taken).push(
                        Val::Integer(
                            if matching {
                                1
                            } else {
                                0
                            },
                        ),
                    ),
                    instruction: next_instruction(frame),
                    ..frame
                },
            ) && plainly_done(vm, after.1, after.2)
        }),
{
    let stack = fiber.frames.last().stack;
    lemma_counted(fiber);
    assert(stack.drop_last() =~= stack.take(stack.len() - 1));
    assert(stack.drop_last().drop_last() =~= stack.take(stack.len() - 2));
    assert(stack.take(stack.len() as int) =~= stack);
    let counted = dispatch::counted(fiber);
    let step = basic::select_compare_step(counted.top(), at.payload);
    lemma_retopped(fiber, step.0);
}

/// A CASE over a text goes by the order of texts in the same way.
pub proof fn law_case_on_texts(
    vm: VmModel,
    fiber: FiberModel,
    at: At,
    policy: ExecutionPolicy,
    s: Seq<char>,
    lower: Seq<char>,
    upper: Seq<char>,
)
    requires
        at.opcode is SelectCompare,
        at.payload.len() > 0,
        fiber.frames.len() > 0,
        fiber.frames.last().select_values.len() > 0,
        fiber.frames.last().select_values.last() == Val::Text(s),
        fiber.frames.last().stack.len() >= 2,
        fiber.frames.last().stack[fiber.frames.last().stack.len() - 2] == Val::Text(lower),
        fiber.frames.last().stack[fiber.frames.last().stack.len() - 1] == Val::Text(upper),
    ensures
        ({
            let frame = fiber.frames.last();
            let operation = at.payload[0];
            let after = dispatch::executed(vm, fiber, at, policy);
            let taken: int = if operation == 6 {
                2
            } else if operation == 8 {
                0
            } else {
                1
            };
            let matching = match operation {
                0 => s == upper,
                1 => s != upper,
                2 => operator_laws::stands_before(s, upper),
                3 => !operator_laws::stands_before(upper, s),
                4 => operator_laws::stands_before(upper, s),
                5 => !operator_laws::stands_before(s, upper),
                6 => !operator_laws::stands_before(s, lower) && !operator_laws::stands_before(
                    upper,
                    s,
                ),
                _ => true,
            };
            &&& operation == 7 || operation > 8 ==> after.2 is Err
            &&& operation <= 8 && operation != 7 ==> after.0 == vm && after.1 == running(
                fiber,
                FrameModel {
                    stack: frame.stack.take(frame.stack.len() - taken).push(
                        Val::Integer(
                            if matching {
                                1
                            } else {
                                0
                            },
                        ),
                    ),
                    instruction: next_instruction(frame),
                    ..frame
                },
            ) && plainly_done(vm, after.1, after.2)
        }),
{
    let stack = fiber.frames.last().stack;
    lemma_counted(fiber);
    operator_laws::law_text_order(s, lower);
    operator_laws::law_text_order(s, upper);
    operator_laws::law_text_order(upper, s);
    assert(stack.drop_last() =~= stack.take(stack.len() - 1));
    assert(stack.drop_last().drop_last() =~= stack.take(stack.len() - 2));
    assert(stack.take(stack.len() as int) =~= stack);
    let counted = dispatch::counted(fiber);
    let step = basic::select_compare_step(counted.top(), at.payload);
    lemma_retopped(fiber, step.0);
}

/// A selection opens over the value on top and closes by forgetting it; where a selection was
/// jumped into, no CASE of it matches.
pub proof fn law_selection_opens_and_closes(
    vm: VmModel,
    fiber: FiberModel,
    at: At,
    policy: ExecutionPolicy,
)
    requires
        fiber.frames.len() > 0,
    ensures
        ({
            let frame = fiber.frames.last();
            let after = dispatch::executed(vm, fiber, at, policy);
            &&& at.opcode is SelectStart && frame.stack.len() > 0 ==> after.0 == vm && after.1
                == running(
                fiber,
                FrameModel {
                    stack: frame.stack.drop_last(),
                    select_values: frame.select_values.push(frame.stack.last()),
                    instruction: next_instruction(frame),
                    ..frame
                },
            ) && plainly_done(vm, after.1, after.2)
            &&& at.opcode is SelectStart && frame.stack.len() == 0 ==> after.2 is Err
            &&& at.opcode is SelectEnd && frame.select_values.len() > 0 ==> after.0 == vm
                && after.1 == running(
                fiber,
                FrameModel {
                    select_values: frame.select_values.drop_last(),
                    instruction: next_instruction(frame),
                    ..frame
                },
            ) && plainly_done(vm, after.1, after.2)
            &&& at.opcode is SelectEnd && frame.select_values.len() == 0 ==> after.2 is Err
            &&& at.opcode is SelectCompare && at.payload.len() > 0 && frame.select_values.len() > 0
                && frame.select_values.last() == Val::IntegerPlace(state::nowhere())
                && frame.stack.len() >= 2 ==> after.1.frames.last().stack.last() == Val::Integer(0)
            &&& at.opcode is SelectCompare && frame.select_values.len() == 0 ==> after.2 is Err
        }),
{
    lemma_counted(fiber);
    let counted = dispatch::counted(fiber);
    if at.opcode is SelectStart {
        lemma_retopped(fiber, basic::select_start_step(counted.top()).0);
    } else if at.opcode is SelectEnd {
        lemma_retopped(fiber, basic::select_end_step(counted.top()).0);
    } else if at.opcode is SelectCompare {
        lemma_retopped(fiber, basic::select_compare_step(counted.top(), at.payload).0);
    }
}

/// Popping forgets the top value, and doubling repeats it.
pub proof fn law_pop_and_dup(vm: VmModel, fiber: FiberModel, at: At, policy: ExecutionPolicy)
    requires
        fiber.frames.len() > 0,
        at.opcode is Pop || at.opcode is Dup,
    ensures
        ({
            let frame = fiber.frames.last();
            let after = dispatch::executed(vm, fiber, at, policy);
            if frame.stack.len() == 0 {
                after.2 is Err
            } else {
                after.0 == vm && after.1 == running(
                    fiber,
                    FrameModel {
                        stack: if at.opcode is Pop {
                            frame.stack.drop_last()
                        } else {
                            frame.stack.push(frame.stack.last())
                        },
                        instruction: next_instruction(frame),
                        ..frame
                    },
                ) && plainly_done(vm, after.1, after.2)
            }
        }),
{
    lemma_counted(fiber);
    let counted = dispatch::counted(fiber);
    lemma_retopped(fiber, basic::pop_step(counted.top()).0);
    lemma_retopped(fiber, basic::dup_step(counted.top()).0);
}

/// The number that eight bytes are, the lowest one first.
pub open spec fn eight_bytes(b: Seq<u8>) -> int {
    call_laws::four_bytes(b, 0) + 0x1_0000_0000 * call_laws::four_bytes(b, 4)
}

/// A literal integer is the two's complement number in the eight bytes of the operand; a literal
/// text is the one whose bytes follow the length.
pub proof fn law_literals(vm: VmModel, fiber: FiberModel, at: At, policy: ExecutionPolicy)
    requires
        fiber.frames.len() > 0,
        at.opcode is PushInteger || at.opcode is PushString,
    ensures
        ({
            let frame = fiber.frames.last();
            let after = dispatch::executed(vm, fiber, at, policy);
            let v = after.1.frames.last().stack.last();
            &&& after.0 == vm
            &&& after.2 is Ok ==> operator_laws::leaves(fiber, after.1, 0, v)
            &&& at.opcode is PushInteger && after.2 is Ok ==> at.payload.len() == 8 && (
            v matches Val::Integer(n) && operator_laws::wraps(n, eight_bytes(at.payload)))
            &&& at.opcode is PushInteger && at.payload.len() == 8 ==> plainly_done(
                vm,
                after.1,
                after.2,
            )
            &&& at.opcode is PushString && after.2 is Ok ==> at.payload.len() == 4
                + call_laws::four_bytes(at.payload, 0) && (v matches Val::Text(t) && encode_utf8(t)
                == at.payload.skip(4))
        }),
{
    lemma_counted(fiber);
    let frame = fiber.frames.last();
    let counted = dispatch::counted(fiber);
    call_laws::law_operand_numbers(at.payload, 0);
    assert(frame.stack.take(frame.stack.len() as int) =~= frame.stack);
    if at.opcode is PushInteger {
        lemma_retopped(fiber, basic::push_integer(counted.top(), at.payload).0);
        reveal_with_fuel(operand::little_endian, 9);
    } else {
        lemma_retopped(fiber, basic::push_string(counted.top(), at.payload).0);
        if vstd::utf8::valid_utf8(at.payload.skip(4)) {
            vstd::utf8::decode_utf8_encode_utf8(at.payload.skip(4));
        }
    }
}

/// Texts as values.
pub open spec fn text_values(parts: Seq<Seq<char>>) -> Seq<Val> {
    parts.map_values(|t: Seq<char>| Val::Text(t))
}

proof fn lemma_joined(rest: Seq<Val>, parts: Seq<Seq<char>>)
    ensures
        operand::popped_joined(rest + text_values(parts), parts.len()) == (
            rest,
            Ok::<Seq<char>, Failure>(parts.flatten()),
        ),
    decreases parts.len(),
{
    let stack = rest + text_values(parts);
    if parts.len() == 0 {
        assert(stack =~= rest);
    } else {
        let before = parts.drop_last();
        lemma_joined(rest, before);
        assert(stack.drop_last() =~= rest + text_values(before));
        assert(stack.last() == Val::Text(parts.last()));
        parts.lemma_flatten_and_flatten_alt_are_equivalent();
        before.lemma_flatten_and_flatten_alt_are_equivalent();
    }
}

/// Joining texts puts them one behind the other in the order in which they were pushed.
pub proof fn law_joined_texts(
    vm: VmModel,
    fiber: FiberModel,
    at: At,
    policy: ExecutionPolicy,
    rest: Seq<Val>,
    parts: Seq<Seq<char>>,
)
    requires
        at.opcode is Concat,
        at.payload.len() >= 2,
        fiber.frames.len() > 0,
        fiber.frames.last().stack == rest + text_values(parts),
        call_laws::two_bytes(at.payload, 0) == parts.len(),
    ensures
        ({
            let frame = fiber.frames.last();
            let after = dispatch::executed(vm, fiber, at, policy);
            after.0 == vm && after.1 == running(
                fiber,
                FrameModel {
                    stack: rest.push(Val::Text(parts.flatten())),
                    instruction: next_instruction(frame),
                    ..frame
                },
            ) && plainly_done(vm, after.1, after.2)
        }),
{
    lemma_counted(fiber);
    call_laws::law_operand_numbers(at.payload, 0);
    lemma_joined(rest, parts);
    let counted = dispatch::counted(fiber);
    lemma_retopped(fiber, basic::concat_step(counted.top(), at.payload).0);
}

/// The number that a text of decimal digits is.
pub open spec fn numeral(t: Seq<char>) -> int
    decreases t.len(),
{
    if t.len() == 0 {
        0
    } else {
        numeral(t.drop_last()) * 10 + (t.last() as int - '0' as int)
    }
}

/// A text of decimal digits without a needless zero in front.
pub open spec fn is_numeral(t: Seq<char>) -> bool {
    &&& t.len() > 0
    &&& forall|i: int| 0 <= i < t.len() ==> '0' <= #[trigger] t[i] <= '9'
    &&& t.len() > 1 ==> t[0] != '0'
}

proof fn lemma_digits(n: nat)
    ensures
        is_numeral(text::digits(n)),
        numeral(text::digits(n)) == n,
        n > 0 ==> text::digits(n)[0] != '0',
    decreases n,
{
    reveal_with_fuel(numeral, 2);
    let t = text::digits(n);
    if n >= 10 {
        lemma_digits(n / 10);
        assert(t.drop_last() =~= text::digits(n / 10));
        assert forall|i: int| 0 <= i < t.len() implies '0' <= #[trigger] t[i] <= '9' by {
            if i < t.len() - 1 {
                assert(t[i] == text::digits(n / 10)[i]);
            }
        }
        assert(t[0] == text::digits(n / 10)[0]);
    } else {
        assert(t.drop_last() =~= Seq::<char>::empty());
    }
}

/// The text of an integer is its decimal numeral, with a sign in front of a negative one.
pub proof fn law_decimal_text(n: int)
    ensures
        n >= 0 ==> is_numeral(text::decimal(n)) && numeral(text::decimal(n)) == n,
        n < 0 ==> text::decimal(n).len() > 0 && text::decimal(n)[0] == '-' && is_numeral(
            text::decimal(n).skip(1),
        ) && numeral(text::decimal(n).skip(1)) == -n,
{
    if n >= 0 {
        lemma_digits(n as nat);
    } else {
        lemma_digits((-n) as nat);
        assert(text::decimal(n).skip(1) =~= text::digits((-n) as nat));
    }
}

/// Turning a value into text: an integer becomes its decimal numeral, a text stays.
pub proof fn law_value_to_text(vm: VmModel, fiber: FiberModel, at: At, policy: ExecutionPolicy)
    requires
        at.opcode is ToString,
        fiber.frames.len() > 0,
        fiber.frames.last().stack.len() > 0,
    ensures
        ({
            let after = dispatch::executed(vm, fiber, at, policy);
            let v = after.1.frames.last().stack.last();
            &&& fiber.frames.last().stack.last() matches Val::Text(t) ==> v == Val::Text(t)
                && operator_laws::leaves(fiber, after.1, 1, v)
            &&& fiber.frames.last().stack.last() matches Val::Integer(n) ==> v matches Val::Text(t)
                && operator_laws::leaves(fiber, after.1, 1, v) && if n >= 0 {
                is_numeral(t) && numeral(t) == n
            } else {
                t.len() > 0 && t[0] == '-' && is_numeral(t.skip(1)) && numeral(t.skip(1)) == -n
            }
        }),
{
    lemma_counted(fiber);
    let frame = fiber.frames.last();
    let stack = frame.stack;
    let counted = dispatch::counted(fiber);
    assert(counted.top().stack == stack);
    assert(stack.drop_last() =~= stack.take(stack.len() - 1));
    let after = dispatch::executed(vm, fiber, at, policy).1;
    assert(after.frames =~= fiber.frames.drop_last().push(after.frames.last()));
    if let Val::Integer(n) = stack.last() {
        law_decimal_text(n as int);
    }
}

} // verus!
