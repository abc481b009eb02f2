//! What the instructions of a user call do with the call that is pending.

use vstd::prelude::*;
use crate::call_laws;
use crate::fault::Failure;
use crate::instruction_laws;
use crate::operand;
use crate::program::{Opcode, ProgramGeneration, UserCallSpec};
use crate::state::{At, FiberModel, FrameModel, PendingModel, VmModel};
use crate::user_calls::{self, Found, UserModel};
use crate::value::Val;

verus! {

/// The call that is pending in the running frame.
pub open spec fn pending(fiber: FiberModel) -> PendingModel {
    fiber.frames.last().user_calls.last()
}

/// The callee has a parameter for the next argument.
pub open spec fn has_parameter(fiber: FiberModel) -> bool {
    pending(fiber).next_slot < pending(fiber).call.bindings@.len()
}

/// Guarding an argument jumps past it where the callee has no parameter for it, and goes on
/// otherwise.
pub proof fn law_surplus_arguments_are_skipped(vm: VmModel, fiber: FiberModel, at: At)
    requires
        user_calls::user_called(vm, fiber, at, Opcode::GuardUserArgument).2 is Ok,
    ensures
        ({
            let (vm1, after, r) = user_calls::user_called(vm, fiber, at, Opcode::GuardUserArgument);
            let frame = fiber.frames.last();
            &&& r == Ok::<UserModel, Failure>(UserModel::Done) && vm1 == vm
            &&& fiber.frames.len() > 0 && frame.user_calls.len() > 0
            &&& after == if has_parameter(fiber) {
                fiber
            } else {
                instruction_laws::running(
                    fiber,
                    FrameModel {
                        instruction: call_laws::four_bytes(at.payload, 6) as usize,
                        ..frame
                    },
                )
            }
        }),
{
    call_laws::law_operand_numbers(at.payload, 6);
    let frame = fiber.frames.last();
    instruction_laws::lemma_retopped(
        fiber,
        FrameModel { instruction: call_laws::four_bytes(at.payload, 6) as usize, ..frame },
    );
}

/// Selecting how an argument is passed jumps where the parameter takes an array by reference, and
/// goes on where it takes a value.
pub proof fn law_reference_is_selected(vm: VmModel, fiber: FiberModel, at: At)
    requires
        user_calls::user_called(vm, fiber, at, Opcode::SelectUserArgument).2 is Ok,
    ensures
        ({
            let (vm1, after, r) = user_calls::user_called(
                vm,
                fiber,
                at,
                Opcode::SelectUserArgument,
            );
            let frame = fiber.frames.last();
            &&& r == Ok::<UserModel, Failure>(UserModel::Done) && vm1 == vm
            &&& has_parameter(fiber)
            &&& after == if pending(fiber).call.bindings@[pending(fiber).next_slot as int]
                is ArrayReference {
                instruction_laws::running(
                    fiber,
                    FrameModel {
                        instruction: call_laws::four_bytes(at.payload, 6) as usize,
                        ..frame
                    },
                )
            } else {
                fiber
            }
        }),
{
    call_laws::law_operand_numbers(at.payload, 6);
    let frame = fiber.frames.last();
    instruction_laws::lemma_retopped(
        fiber,
        FrameModel { instruction: call_laws::four_bytes(at.payload, 6) as usize, ..frame },
    );
}

/// Capturing an argument takes the top value and hands it on; the value is kept as that of the
/// next parameter. A flag in the operand says whether it is a reference, and has to agree with the
/// parameter.
pub proof fn law_argument_is_captured(vm: VmModel, fiber: FiberModel, at: At, v: Val)
    requires
        user_calls::user_called(vm, fiber, at, Opcode::CaptureUserArgument).2 is Ok,
    ensures
        ({
            let (vm1, after, r) = user_calls::user_called(
                vm,
                fiber,
                at,
                Opcode::CaptureUserArgument,
            );
            let frame = fiber.frames.last();
            let binding = pending(fiber).call.bindings@[pending(fiber).next_slot as int];
            let kept = user_calls::argument_captured(after, Ok(v)).0.frames.last();
            &&& vm1 == vm && has_parameter(fiber) && !(binding is Default)
            &&& binding is ArrayReference <==> at.payload[6] == 1
            &&& after == instruction_laws::running(
                fiber,
                FrameModel { stack: frame.stack.drop_last(), ..frame },
            )
            &&& r matches Ok(UserModel::Capture { consumer, resolve, actual }) && actual
                == frame.stack.last() && resolve == pending(fiber).resolve
            &&& kept.stack == frame.stack.drop_last()
            &&& kept.user_calls.drop_last() == frame.user_calls.drop_last()
            &&& kept.user_calls.last() == (PendingModel {
                captured: pending(fiber).captured.push(Some(v)),
                next_slot: (pending(fiber).next_slot + 1) as usize,
                ..pending(fiber)
            })
        }),
{
    let frame = fiber.frames.last();
    instruction_laws::lemma_retopped(
        fiber,
        FrameModel { stack: frame.stack.drop_last(), ..frame },
    );
    let after = user_calls::user_called(vm, fiber, at, Opcode::CaptureUserArgument).1;
    let kept = user_calls::argument_captured(after, Ok(v)).0.frames.last();
    assert(kept.user_calls.drop_last() =~= frame.user_calls.drop_last());
}

/// Passing over an argument keeps nothing for the next parameter, where there is one, and goes on
/// to the argument behind it. Only an omitted argument is passed over where there is a parameter,
/// and only one that takes a default; only a given argument is discarded, where there is none.
pub proof fn law_argument_is_passed_over(vm: VmModel, fiber: FiberModel, at: At)
    requires
        user_calls::user_called(vm, fiber, at, Opcode::AdvanceUserArgument).2 is Ok,
    ensures
        ({
            let (vm1, after, r) = user_calls::user_called(
                vm,
                fiber,
                at,
                Opcode::AdvanceUserArgument,
            );
            let frame = fiber.frames.last();
            let now = after.frames.last();
            &&& vm1 == vm && r == Ok::<UserModel, Failure>(UserModel::Done)
            &&& at.payload[6] <= 1
            &&& at.payload[6] == 1 ==> !has_parameter(fiber)
            &&& at.payload[6] == 0 && has_parameter(fiber)
                ==> pending(fiber).call.bindings@[pending(fiber).next_slot as int] is Default
            &&& now.stack == frame.stack
            &&& now.user_calls.drop_last() == frame.user_calls.drop_last()
            &&& now.user_calls.last() == (PendingModel {
                captured: if has_parameter(fiber) {
                    pending(fiber).captured.push(None)
                } else {
                    pending(fiber).captured
                },
                next_slot: (pending(fiber).next_slot + 1) as usize,
                ..pending(fiber)
            })
        }),
{
    let frame = fiber.frames.last();
    let after = user_calls::user_called(vm, fiber, at, Opcode::AdvanceUserArgument).1;
    assert(after.frames.last().user_calls.drop_last() =~= frame.user_calls.drop_last());
}

/// Invoking a user call takes its token and hands out the pending call, once all its arguments
/// were passed.
pub proof fn law_user_call_is_invoked(vm: VmModel, fiber: FiberModel, at: At)
    requires
        user_calls::user_called(vm, fiber, at, Opcode::InvokeUserCall).2 is Ok,
    ensures
        ({
            let (vm1, after, r) = user_calls::user_called(vm, fiber, at, Opcode::InvokeUserCall);
            let frame = fiber.frames.last();
            &&& vm1 == vm
            &&& after == instruction_laws::running(
                fiber,
                FrameModel {
                    stack: frame.stack.drop_last(),
                    user_calls: frame.user_calls.drop_last(),
                    ..frame
                },
            )
            &&& r matches Ok(UserModel::Invoke { consumer, pending: p }) && p == pending(fiber)
                && consumer.spec.arguments@.len() == p.next_slot && consumer.call == p.call
        }),
{
    let frame = fiber.frames.last();
    instruction_laws::lemma_retopped(
        fiber,
        FrameModel {
            user_calls: frame.user_calls.drop_last(),
            stack: frame.stack.drop_last(),
            ..frame
        },
    );
}

/// A target that is found opens a pending call at its first argument, with the name of the
/// function as its token. One that is missing jumps to the branch for it, with the empty name as
/// token, where the call allows that; else it is refused.
pub proof fn law_target_of_user_call(
    vm: VmModel,
    fiber: FiberModel,
    at: At,
    program: ProgramGeneration,
    name: Seq<char>,
    spec: UserCallSpec,
    found: Option<Found>,
)
    requires
        fiber.frames.len() > 0,
    ensures
        ({
            let frame = fiber.frames.last();
            let (vm1, after, r) = user_calls::target_found(
                vm,
                fiber,
                at,
                program,
                name,
                spec,
                Ok(found),
            );
            let now = after.frames.last();
            &&& after.frames.drop_last() == fiber.frames.drop_last()
            &&& r is Ok && found is Some ==> {
                let p = now.user_calls.last();
                &&& now.user_calls.drop_last() == frame.user_calls
                &&& p.call == found->Some_0.call && p.next_slot == 0 && p.captured.len() == 0
                    && p.resolve == at.instruction && p.stack_index == frame.stack.len() as usize
                &&& now.stack.drop_last() == frame.stack
                &&& program.spec_function(p.call.function) matches Some(f) && now.stack.last()
                    == Val::Text(f.name@)
                &&& now.instruction == frame.instruction
            }
            &&& found is None && !spec.allow_missing ==> after == fiber && (r matches Err(e)
                && e.code is MissingSymbol)
            &&& found is None && r is Ok ==> spec.allow_missing && now.instruction
                == spec.missing_target as usize && now.stack == frame.stack.push(
                Val::Text(Seq::empty()),
            ) && now.user_calls == frame.user_calls
        }),
{
    let frame = fiber.frames.last();
    let after = user_calls::target_found(vm, fiber, at, program, name, spec, Ok(found)).1;
    assert(after.frames.drop_last() =~= fiber.frames.drop_last());
    let now = after.frames.last();
    if found is Some
        && user_calls::target_found(vm, fiber, at, program, name, spec, Ok(found)).2 is Ok {
        assert(now.user_calls.drop_last() =~= frame.user_calls);
        assert(now.stack.drop_last() =~= frame.stack);
    }
}

/// A call whose target is missing is abandoned at its own branch: the empty name is taken off the
/// stack, and the pending call of the same origin, which has taken no argument yet, is dropped; one
/// of another origin stays.
pub proof fn law_user_call_is_abandoned(vm: VmModel, fiber: FiberModel, at: At)
    requires
        user_calls::user_called(vm, fiber, at, Opcode::AbandonUserCall).2 is Ok,
    ensures
        ({
            let (vm1, after, r) = user_calls::user_called(vm, fiber, at, Opcode::AbandonUserCall);
            let before = fiber.frames.last();
            let now = after.frames.last();
            let (resolve, spec) = user_calls::origin_of(
                at,
                vm.program(at.generation)->Some_0,
            )->Ok_0;
            let held = before.user_calls.len() > 0 && before.user_calls.last().resolve == resolve;
            &&& vm1 == vm && r->Ok_0 is Done
            &&& spec.allow_missing && spec.missing_target == at.instruction
            &&& before.stack.len() > 0 && before.stack.last() == Val::Text(Seq::empty())
            &&& now.stack == before.stack.drop_last() && now.instruction == before.instruction
            &&& held ==> now.user_calls == before.user_calls.drop_last()
                && before.user_calls.last().next_slot == 0
            &&& !held ==> now.user_calls == before.user_calls
        }),
{
}

} // verus!
