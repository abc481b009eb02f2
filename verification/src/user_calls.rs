//! Calls of user functions whose target is found at run time.

use vstd::prelude::*;
use std::rc::Rc;
use crate::basic;
use crate::diagnostics;
use crate::existvar::invalid;
use crate::fault::{self, Failure, ScriptFaultKind, StepError, Trouble, VmError, VmFaultCode};
use crate::operand;
use crate::program::{BytecodeFunction, Opcode, ProgramGeneration, UserArgumentSpec, UserCallSpec};
use crate::state::{
    self, At, CompatibilityWarning, Fiber, FiberModel, Frame, FrameModel, InstructionPosition,
    PendingModel, PendingUserCall, ResolvedUserCall, UserArgumentBinding, Vm, VmModel,
};
use crate::text;
use crate::value::{SymbolKey, Val, VmValue};

verus! {

/// A branch stays inside its function.
pub open spec fn target_checked(
    program: ProgramGeneration,
    function: SymbolKey,
    target: int,
) -> Result<(), Failure> {
    match program.spec_function(function) {
        Some(f) => if target < f.code@.len() {
            Ok(())
        } else {
            Err(Failure::invalid("user-call branch leaves its function"@))
        },
        None => Err(Failure::invalid("user-call branch leaves its function"@)),
    }
}

/// Checks that a branch stays inside its function.
pub fn checked_user_target(program: &ProgramGeneration, function: SymbolKey, target: usize) -> (r:
    Result<(), StepError>)
    ensures
        fault::outcome(r) == target_checked(*program, function, target as int),
{
    match program.function(function) {
        Some(f) => {
            if target < f.code.len() {
                Ok(())
            } else {
                Err(invalid("user-call branch leaves its function"))
            }
        },
        None => Err(invalid("user-call branch leaves its function")),
    }
}

/// The operands of the user call that an instruction resolves.
pub open spec fn spec_in(program: ProgramGeneration, function: SymbolKey, instruction: int) -> Option<
    UserCallSpec,
> {
    match program.spec_function(function) {
        Some(f) => if 0 <= instruction < f.code@.len() {
            match f.code@[instruction].user_call {
                Some(s) => Some(*s),
                None => None,
            }
        } else {
            None
        },
        None => None,
    }
}

pub open spec fn malformed() -> Failure {
    Failure::invalid("user-call operands are malformed"@)
}

fn find_spec(program: &ProgramGeneration, function: SymbolKey, instruction: usize) -> (r: Option<
    Rc<UserCallSpec>,
>)
    ensures
        match r {
            Some(s) => spec_in(*program, function, instruction as int) == Some(*s),
            None => spec_in(*program, function, instruction as int) is None,
        },
{
    match program.function(function) {
        Some(f) => {
            if instruction < f.code.len() {
                match &f.code[instruction].user_call {
                    Some(s) => Some(s.clone()),
                    None => None,
                }
            } else {
                None
            }
        },
        None => None,
    }
}

/// An instruction resolves a user call.
pub open spec fn resolves_at(program: ProgramGeneration, function: SymbolKey, instruction: int) -> bool {
    program.spec_function(function) matches Some(f) && 0 <= instruction < f.code@.len()
        && f.code@[instruction].opcode is ResolveUserCall
}

/// The instruction that resolved the call of a consumer, and the call's operands.
pub open spec fn origin_of(at: At, program: ProgramGeneration) -> Result<
    (usize, UserCallSpec),
    Failure,
> {
    match operand::u32_at(at.payload, 0) {
        Err(e) => Err(e),
        Ok(resolve) => if !resolves_at(program, at.function, resolve as int) || resolve
            >= at.instruction {
            Err(Failure::invalid("user consumer has no earlier resolve origin"@))
        } else {
            match spec_in(program, at.function, resolve as int) {
                Some(s) => Ok((resolve as usize, s)),
                None => Err(malformed()),
            }
        },
    }
}

/// Mathematical content of where a call was resolved.
pub open spec fn origin_result(r: Result<(usize, Rc<UserCallSpec>), StepError>) -> Result<
    (usize, UserCallSpec),
    Failure,
> {
    match r {
        Ok((i, s)) => Ok((i, *s)),
        Err(e) => Err(e@),
    }
}

/// Finds where the call of a consumer was resolved.
pub fn user_origin(position: &InstructionPosition<'_>, program: &ProgramGeneration) -> (r: Result<
    (usize, Rc<UserCallSpec>),
    StepError,
>)
    ensures
        origin_result(r) == origin_of(position@, *program),
{
    let resolve: usize = match operand::read_u32(position.payload, 0) {
        Ok(n) => n as usize,
        Err(e) => {
            return Err(e);
        },
    };
    let resolves = match program.function(position.function) {
        Some(f) => resolve < f.code.len() && f.code[resolve].opcode == Opcode::ResolveUserCall,
        None => false,
    };
    if !resolves || resolve >= position.instruction {
        return Err(invalid("user consumer has no earlier resolve origin"));
    }
    match find_spec(program, position.function, resolve) {
        Some(s) => Ok((resolve, s)),
        None => Err(invalid("user-call operands are malformed")),
    }
}

/// The user call that a consumer works on, and the argument it stands at.
pub struct UserConsumer {
    pub spec: Rc<UserCallSpec>,
    pub slot: usize,
    pub call: Rc<ResolvedUserCall>,
}

/// Mathematical content of a [`UserConsumer`].
pub struct Consumer {
    pub spec: UserCallSpec,
    pub slot: int,
    pub call: ResolvedUserCall,
}

impl View for UserConsumer {
    type V = Consumer;

    open spec fn view(&self) -> Consumer {
        Consumer { spec: *self.spec, slot: self.slot as int, call: *self.call }
    }
}

/// The length of the operands of a consumer.
pub open spec fn consumer_length(opcode: Opcode) -> Option<nat> {
    match opcode {
        Opcode::GuardUserArgument | Opcode::SelectUserArgument => Some(10),
        Opcode::CaptureUserArgument | Opcode::AdvanceUserArgument => Some(7),
        Opcode::InvokeUserCall => Some(4),
        _ => None,
    }
}

/// The pending call is the one that a consumer means, at the argument that it means, and its token
/// lies where it was put.
pub open spec fn progress_fits(
    caller: FrameModel,
    at: At,
    pending: PendingModel,
    spec: UserCallSpec,
    resolve: usize,
    slot: int,
    token: int,
    target: BytecodeFunction,
) -> bool {
    &&& pending.resolve == resolve
    &&& pending.stack_index == token
    &&& pending.next_slot == slot
    &&& pending.call.generation == at.generation
    &&& pending.call.mode == spec.mode
    &&& pending.captured.len() == if slot < pending.call.bindings@.len() {
        slot
    } else {
        pending.call.bindings@.len() as int
    }
    &&& caller.stack[token] == Val::Text(target.name@)
}

/// The user call that a consumer works on.
pub open spec fn consumer(caller: FrameModel, at: At, opcode: Opcode, program: ProgramGeneration) -> Result<
    Consumer,
    Failure,
> {
    match consumer_length(opcode) {
        None => Err(Failure::invalid("invalid user consumer opcode"@)),
        Some(length) => if at.payload.len() != length {
            Err(Failure::invalid("invalid user consumer operands"@))
        } else {
            match origin_of(at, program) {
                Err(e) => Err(e),
                Ok((resolve, spec)) => {
                    let slot: int = if opcode is InvokeUserCall {
                        spec.arguments@.len() as int
                    } else {
                        operand::u16_at(at.payload, 4)->Ok_0 as int
                    };
                    if slot > spec.arguments@.len() || (!(opcode is InvokeUserCall) && slot
                        == spec.arguments@.len()) {
                        Err(Failure::invalid("user argument slot is out of bounds"@))
                    } else if caller.user_calls.len() == 0 {
                        Err(Failure::invalid("user consumer has no pending identity"@))
                    } else {
                        pending_consumer(caller, at, opcode, program, resolve, spec, slot)
                    }
                },
            }
        },
    }
}

/// The user call that a consumer works on, where one is pending.
pub open spec fn pending_consumer(
    caller: FrameModel,
    at: At,
    opcode: Opcode,
    program: ProgramGeneration,
    resolve: usize,
    spec: UserCallSpec,
    slot: int,
) -> Result<Consumer, Failure> {
    let pending = caller.user_calls.last();
    let token: int = if opcode is CaptureUserArgument {
        caller.stack.len() - 2
    } else {
        caller.stack.len() - 1
    };
    if token < 0 {
        Err(Failure::invalid("user consumer underflows its token"@))
    } else {
        match program.spec_function(pending.call.function) {
            None => Err(Failure::invalid("user target disappeared"@)),
            Some(target) => if progress_fits(
                caller,
                at,
                pending,
                spec,
                resolve,
                slot,
                token,
                *target,
            ) {
                Ok(Consumer { spec, slot, call: pending.call })
            } else {
                Err(
                    Failure::invalid("user token, generation, origin or slot progress differs"@),
                )
            },
        }
    }
}

fn is_token(v: &VmValue, name: &String) -> (r: bool)
    ensures
        r == (v@ == Val::Text(name@)),
{
    match v {
        VmValue::String(t) => text::same_text(t.as_str(), name.as_str()),
        _ => false,
    }
}

fn find_consumer(
    caller: &Frame,
    position: &InstructionPosition<'_>,
    opcode: Opcode,
    program: &ProgramGeneration,
    resolve: usize,
    spec: Rc<UserCallSpec>,
    slot: usize,
) -> (r: Result<UserConsumer, StepError>)
    requires
        caller@.user_calls.len() > 0,
    ensures
        fault::outcome(r) == pending_consumer(
            caller@,
            position@,
            opcode,
            *program,
            resolve,
            *spec,
            slot as int,
        ),
{
    let pending = &caller.user_calls[caller.user_calls.len() - 1];
    proof {
        assert(caller@.user_calls.last() == pending@);
    }
    let extra: usize = if opcode == Opcode::CaptureUserArgument {
        2
    } else {
        1
    };
    if caller.stack.len() < extra {
        return Err(invalid("user consumer underflows its token"));
    }
    let token: usize = caller.stack.len() - extra;
    let target = match program.function(pending.call.function) {
        Some(f) => f,
        None => {
            return Err(invalid("user target disappeared"));
        },
    };
    let expected: usize = if slot < pending.call.bindings.len() {
        slot
    } else {
        pending.call.bindings.len()
    };
    if pending.resolve != resolve || pending.stack_index != token || pending.next_slot != slot
        || pending.call.generation != position.generation || pending.call.mode != spec.mode
        || pending.captured.len() != expected || !is_token(&caller.stack[token], &target.name) {
        return Err(invalid("user token, generation, origin or slot progress differs"));
    }
    Ok(UserConsumer { spec, slot, call: pending.call.clone() })
}

/// Finds the user call that a consumer works on.
pub fn decode_user_consumer(
    caller: &Frame,
    position: &InstructionPosition<'_>,
    opcode: Opcode,
    program: &ProgramGeneration,
) -> (r: Result<UserConsumer, StepError>)
    ensures
        fault::outcome(r) == consumer(caller@, position@, opcode, *program),
{
    let length: usize = match opcode {
        Opcode::GuardUserArgument | Opcode::SelectUserArgument => 10,
        Opcode::CaptureUserArgument | Opcode::AdvanceUserArgument => 7,
        Opcode::InvokeUserCall => 4,
        _ => {
            return Err(invalid("invalid user consumer opcode"));
        },
    };
    if position.payload.len() != length {
        return Err(invalid("invalid user consumer operands"));
    }
    let (resolve, spec) = match user_origin(position, program) {
        Ok(o) => o,
        Err(e) => {
            return Err(e);
        },
    };
    let slot: usize = if opcode == Opcode::InvokeUserCall {
        spec.arguments.len()
    } else {
        match operand::read_u16(position.payload, 4) {
            Ok(n) => n as usize,
            Err(e) => {
                return Err(e);
            },
        }
    };
    if slot > spec.arguments.len() || (opcode != Opcode::InvokeUserCall && slot
        == spec.arguments.len()) {
        return Err(invalid("user argument slot is out of bounds"));
    }
    if caller.user_calls.len() == 0 {
        return Err(invalid("user consumer has no pending identity"));
    }
    find_consumer(caller, position, opcode, program, resolve, spec, slot)
}

/// Why an argument is passed over.
#[derive(Clone, Copy, PartialEq, Eq, Debug, Structural)]
pub enum UserArgumentAdvance {
    Omitted,
    Discarded,
}

pub open spec fn advance_of(byte: u8) -> Option<UserArgumentAdvance> {
    if byte == 0 {
        Some(UserArgumentAdvance::Omitted)
    } else if byte == 1 {
        Some(UserArgumentAdvance::Discarded)
    } else {
        None
    }
}

/// How the parameter at a consumer's argument gets its value; nothing where there is none.
pub open spec fn binding_at(c: Consumer) -> Option<UserArgumentBinding> {
    if 0 <= c.slot < c.call.bindings@.len() {
        Some(c.call.bindings@[c.slot])
    } else {
        None
    }
}

pub open spec fn argument_at(c: Consumer) -> UserArgumentSpec {
    c.spec.arguments@[c.slot]
}

/// A frame whose pending call is one argument further.
pub open spec fn advanced(frame: FrameModel, captured: Option<Option<Val>>) -> FrameModel {
    let pending = frame.user_calls.last();
    FrameModel {
        user_calls: frame.user_calls.update(
            frame.user_calls.len() - 1,
            PendingModel {
                captured: match captured {
                    Some(v) => pending.captured.push(v),
                    None => pending.captured,
                },
                next_slot: (pending.next_slot + 1) as usize,
                ..pending
            },
        ),
        ..frame
    }
}

/// Passes over an argument.
pub open spec fn advance_step(frame: FrameModel, c: Consumer, payload: Seq<u8>) -> (
    FrameModel,
    Result<(), Failure>,
) {
    let done = advanced(
        frame,
        if binding_at(c) is Some {
            Some(None)
        } else {
            None
        },
    );
    match advance_of(payload[6]) {
        None => (frame, Err(Failure::invalid("invalid user argument advance"@))),
        Some(UserArgumentAdvance::Omitted) => if !(argument_at(c) is Omitted) || (binding_at(
            c,
        ) matches Some(b) && !(b is Default)) {
            (frame, Err(Failure::invalid("user omission does not match its formal"@)))
        } else {
            (done, Ok(()))
        },
        Some(UserArgumentAdvance::Discarded) => if argument_at(c) is Omitted || binding_at(
            c,
        ) is Some {
            (frame, Err(Failure::invalid("retained user argument cannot be discarded"@)))
        } else {
            (done, Ok(()))
        },
    }
}

fn advance_pending(frame: &mut Frame, captured: Option<Option<VmValue>>)
    requires
        old(frame)@.user_calls.len() > 0,
        old(frame)@.user_calls.last().next_slot < usize::MAX,
    ensures
        final(frame)@ == advanced(
            old(frame)@,
            match captured {
                Some(v) => Some(state::optional_val(v)),
                None => None,
            },
        ),
{
    let at: usize = frame.user_calls.len() - 1;
    let ghost before = frame.user_calls@;
    assert(old(frame)@.user_calls.last() == before[at as int]@);
    match captured {
        Some(v) => {
            frame.user_calls[at].captured.push(v);
            assert(state::optional_vals(frame.user_calls@[at as int].captured@)
                =~= state::optional_vals(before[at as int].captured@).push(
                state::optional_val(v),
            ));
        },
        None => {},
    }
    let next: usize = frame.user_calls[at].next_slot + 1;
    frame.user_calls[at].next_slot = next;
    assert(state::pending_views(frame.user_calls@) =~= state::pending_views(before).update(
        at as int,
        frame.user_calls@[at as int]@,
    ));
    assert(frame@ =~= advanced(
        old(frame)@,
        match captured {
            Some(v) => Some(state::optional_val(v)),
            None => None,
        },
    ));
}

/// Passes over the argument that a consumer stands at.
pub fn advance_user_actual(frame: &mut Frame, operands: &UserConsumer, payload: &[u8]) -> (r: Result<
    (),
    StepError,
>)
    requires
        payload@.len() > 6,
        operands.slot < operands.spec.arguments@.len(),
        old(frame)@.user_calls.len() > 0,
        old(frame)@.user_calls.last().next_slot < usize::MAX,
    ensures
        (final(frame)@, fault::outcome(r)) == advance_step(old(frame)@, operands@, payload@),
{
    let retained: bool = operands.slot < operands.call.bindings.len();
    let by_default: bool = retained && match &operands.call.bindings[operands.slot] {
        UserArgumentBinding::Default(_) => true,
        _ => false,
    };
    let omitted: bool = match operands.spec.arguments[operands.slot] {
        UserArgumentSpec::Omitted => true,
        _ => false,
    };
    if payload[6] == 0 {
        if !omitted || (retained && !by_default) {
            return Err(invalid("user omission does not match its formal"));
        }
    } else if payload[6] == 1 {
        if omitted || retained {
            return Err(invalid("retained user argument cannot be discarded"));
        }
    } else {
        return Err(invalid("invalid user argument advance"));
    }
    let captured: Option<Option<VmValue>> = if retained {
        Some(None)
    } else {
        None
    };
    advance_pending(frame, captured);
    Ok(())
}

/// Gives up a call whose target is missing.
pub open spec fn abandon_step(frame: FrameModel, at: At, program: ProgramGeneration) -> (
    FrameModel,
    Result<(), Failure>,
) {
    if at.payload.len() != 4 {
        (frame, Err(Failure::invalid("invalid abandon operands"@)))
    } else {
        match origin_of(at, program) {
            Err(e) => (frame, Err(e)),
            Ok((resolve, spec)) => if !spec.allow_missing || spec.missing_target != at.instruction {
                (frame, Err(Failure::invalid("abandon is not the matching missing branch"@)))
            } else {
                let held = frame.user_calls.len() > 0 && frame.user_calls.last().resolve == resolve;
                let pending = frame.user_calls.last();
                if held && (pending.next_slot != 0 || frame.stack.len() != pending.stack_index + 1) {
                    (
                        frame,
                        Err(Failure::invalid("abandoned call has already consumed arguments"@)),
                    )
                } else {
                    let kept = if held {
                        FrameModel { user_calls: frame.user_calls.drop_last(), ..frame }
                    } else {
                        frame
                    };
                    if kept.stack.len() == 0 {
                        (kept, Err(operand::underflow()))
                    } else {
                        (
                            FrameModel { stack: kept.stack.drop_last(), ..kept },
                            if kept.stack.last() == Val::Text(Seq::empty()) {
                                Ok(())
                            } else {
                                Err(
                                    Failure::invalid(
                                        "abandon did not consume a missing target token"@,
                                    ),
                                )
                            },
                        )
                    }
                }
            },
        }
    }
}

fn pop_pending(frame: &mut Frame) -> (r: PendingUserCall)
    requires
        old(frame)@.user_calls.len() > 0,
    ensures
        r@ == old(frame)@.user_calls.last(),
        final(frame)@ == (FrameModel {
            user_calls: old(frame)@.user_calls.drop_last(),
            ..old(frame)@
        }),
{
    let ghost before = frame.user_calls@;
    let at: usize = frame.user_calls.len() - 1;
    let r = frame.user_calls.remove(at);
    proof {
        assert(old(frame)@.user_calls.last() == before[at as int]@);
        assert(state::pending_views(frame.user_calls@) =~= state::pending_views(before).drop_last());
    }
    r
}

/// Gives up a call whose target is missing.
pub fn abandon_user_call(
    frame: &mut Frame,
    position: &InstructionPosition<'_>,
    program: &ProgramGeneration,
) -> (r: Result<(), StepError>)
    ensures
        (final(frame)@, fault::outcome(r)) == abandon_step(old(frame)@, position@, *program),
{
    if position.payload.len() != 4 {
        return Err(invalid("invalid abandon operands"));
    }
    let (resolve, spec) = match user_origin(position, program) {
        Ok(o) => o,
        Err(e) => {
            return Err(e);
        },
    };
    if !spec.allow_missing || spec.missing_target as usize != position.instruction {
        return Err(invalid("abandon is not the matching missing branch"));
    }
    if frame.user_calls.len() > 0 {
        let pending = &frame.user_calls[frame.user_calls.len() - 1];
        assert(frame@.user_calls.last() == pending@);
        if pending.resolve == resolve {
            if pending.next_slot != 0 || frame.stack.len() == 0 || frame.stack.len() - 1
                != pending.stack_index {
                return Err(invalid("abandoned call has already consumed arguments"));
            }
            let _ = pop_pending(frame);
        }
    }
    let token = match operand::pop(&mut frame.stack) {
        Ok(v) => v,
        Err(e) => {
            return Err(e);
        },
    };
    let empty = String::new();
    proof {
        reveal_strlit("");
        assert(empty@ =~= Seq::<char>::empty());
    }
    if is_token(&token, &empty) {
        Ok(())
    } else {
        Err(invalid("abandon did not consume a missing target token"))
    }
}

/// What an operation on a user call came to.
pub enum UserStep {
    /// The operation is none of this family.
    Other,
    Done,
    /// The target of this name is to be found; see [`Vm::finish_user_resolve`].
    Resolve { name: String, spec: Rc<UserCallSpec> },
    /// This argument is to be captured; see [`Vm::finish_user_capture`].
    Capture { consumer: UserConsumer, resolve: usize, actual: VmValue },
    /// The call is to be made with these captured arguments.
    Invoke { consumer: UserConsumer, pending: PendingUserCall },
}

/// Mathematical content of a [`UserStep`].
pub enum UserModel {
    Other,
    Done,
    Resolve { name: Seq<char>, spec: UserCallSpec },
    Capture { consumer: Consumer, resolve: usize, actual: Val },
    Invoke { consumer: Consumer, pending: PendingModel },
}

impl View for UserStep {
    type V = UserModel;

    open spec fn view(&self) -> UserModel {
        match self {
            UserStep::Other => UserModel::Other,
            UserStep::Done => UserModel::Done,
            UserStep::Resolve { name, spec } => UserModel::Resolve { name: name@, spec: **spec },
            UserStep::Capture { consumer, resolve, actual } => UserModel::Capture {
                consumer: consumer@,
                resolve: *resolve,
                actual: actual@,
            },
            UserStep::Invoke { consumer, pending } => UserModel::Invoke {
                consumer: consumer@,
                pending: pending@,
            },
        }
    }
}

/// Machine, fiber and what an operation on a user call came to.
pub type UserCalled = (VmModel, FiberModel, Result<UserModel, Failure>);

/// A frame step as an operation done.
pub open spec fn frame_done(vm: VmModel, fiber: FiberModel, step: (FrameModel, Result<(), Failure>)) -> UserCalled {
    (
        vm,
        fiber.with_top(step.0),
        match step.1 {
            Ok(_) => Ok(UserModel::Done),
            Err(e) => Err(e),
        },
    )
}

/// Goes on at the target in the operand.
pub open spec fn branched(
    vm: VmModel,
    fiber: FiberModel,
    at: At,
    program: ProgramGeneration,
) -> UserCalled {
    let target = operand::u32_at(at.payload, 6)->Ok_0 as usize;
    match target_checked(program, at.function, target as int) {
        Err(e) => (vm, fiber, Err(e)),
        Ok(_) => (
            vm,
            fiber.with_top(FrameModel { instruction: target, ..fiber.top() }),
            Ok(UserModel::Done),
        ),
    }
}

/// An operation on the pending call of the running frame.
pub open spec fn consumed(
    vm: VmModel,
    fiber: FiberModel,
    at: At,
    opcode: Opcode,
    program: ProgramGeneration,
    c: Consumer,
) -> UserCalled {
    let frame = fiber.top();
    match opcode {
        Opcode::GuardUserArgument => if argument_at(c) is Omitted {
            (vm, fiber, Err(Failure::invalid("omitted user argument cannot be guarded"@)))
        } else if binding_at(c) is None {
            branched(vm, fiber, at, program)
        } else {
            (vm, fiber, Ok(UserModel::Done))
        },
        Opcode::SelectUserArgument => if !(argument_at(c) is Variable) || binding_at(c) is None {
            (vm, fiber, Err(Failure::invalid("only retained variable arguments select REF"@)))
        } else if binding_at(c)->0 is ArrayReference {
            branched(vm, fiber, at, program)
        } else {
            (vm, fiber, Ok(UserModel::Done))
        },
        Opcode::CaptureUserArgument => if at.payload[6] > 1 {
            (vm, fiber, Err(Failure::invalid("invalid user REF flag"@)))
        } else if binding_at(c) is None || binding_at(c)->0 is Default || (at.payload[6] == 1) != (
        binding_at(c)->0 is ArrayReference) {
            (vm, fiber, Err(Failure::invalid("user capture differs from the retained formal"@)))
        } else {
            (
                vm,
                fiber.with_stack(frame.stack.drop_last()),
                Ok(
                    UserModel::Capture {
                        consumer: c,
                        resolve: operand::u32_at(at.payload, 0)->Ok_0 as usize,
                        actual: frame.stack.last(),
                    },
                ),
            )
        },
        Opcode::AdvanceUserArgument => frame_done(vm, fiber, advance_step(frame, c, at.payload)),
        _ => (
            vm,
            fiber.with_top(
                FrameModel {
                    user_calls: frame.user_calls.drop_last(),
                    stack: frame.stack.drop_last(),
                    ..frame
                },
            ),
            Ok(UserModel::Invoke { consumer: c, pending: frame.user_calls.last() }),
        ),
    }
}

/// Takes the name of a target from the stack.
pub open spec fn name_taken(
    vm: VmModel,
    fiber: FiberModel,
    at: At,
    program: ProgramGeneration,
) -> UserCalled {
    match spec_in(program, at.function, at.instruction as int) {
        None => (vm, fiber, Err(malformed())),
        Some(spec) => {
            let kept = if spec.mode is Value || spec.mode is Jump {
                vm.without_path_memo(fiber.id)
            } else {
                vm
            };
            let stack = fiber.top().stack;
            if stack.len() == 0 {
                (kept, fiber, Err(operand::underflow()))
            } else {
                let popped = fiber.with_stack(stack.drop_last());
                match stack.last() {
                    Val::Text(name) => (kept, popped, Ok(UserModel::Resolve { name, spec })),
                    _ => (kept, popped, Err(Failure::invalid("user-call name is not a string"@))),
                }
            }
        },
    }
}

pub open spec fn is_user_operation(opcode: Opcode) -> bool {
    opcode is ResolveUserCall || opcode is SelectUserArgument || opcode is CaptureUserArgument
        || opcode is InvokeUserCall || opcode is GuardUserArgument || opcode is AdvanceUserArgument
        || opcode is AbandonUserCall
}

/// One operation of this family.
pub open spec fn user_called(vm: VmModel, fiber: FiberModel, at: At, opcode: Opcode) -> UserCalled {
    if !is_user_operation(opcode) {
        (vm, fiber, Ok(UserModel::Other))
    } else {
        match vm.program(at.generation) {
            None => (vm, fiber, Err(Failure::invalid("user-call generation is missing"@))),
            Some(program) => if fiber.frames.len() == 0 || fiber.top().generation != at.generation
                || fiber.top().function != at.function {
                (vm, fiber, Err(Failure::invalid("user-call caller identity differs"@)))
            } else if opcode is ResolveUserCall {
                name_taken(vm, fiber, at, program)
            } else if opcode is AbandonUserCall {
                frame_done(vm, fiber, abandon_step(fiber.top(), at, program))
            } else {
                match consumer(fiber.top(), at, opcode, program) {
                    Err(e) => (vm, fiber, Err(e)),
                    Ok(c) => consumed(vm, fiber, at, opcode, program, c),
                }
            },
        }
    }
}

fn is_user_opcode(opcode: Opcode) -> (r: bool)
    ensures
        r == is_user_operation(opcode),
{
    match opcode {
        Opcode::ResolveUserCall
        | Opcode::SelectUserArgument
        | Opcode::CaptureUserArgument
        | Opcode::InvokeUserCall
        | Opcode::GuardUserArgument
        | Opcode::AdvanceUserArgument
        | Opcode::AbandonUserCall => true,
        _ => false,
    }
}

fn done_user(r: Result<(), StepError>) -> (s: Result<UserStep, StepError>)
    ensures
        fault::outcome(s) == match fault::outcome(r) {
            Ok(_) => Ok::<UserModel, Failure>(UserModel::Done),
            Err(e) => Err(e),
        },
{
    match r {
        Ok(_) => Ok(UserStep::Done),
        Err(e) => Err(e),
    }
}

fn branch(
    fiber: &mut Fiber,
    position: &InstructionPosition<'_>,
    program: &ProgramGeneration,
    Ghost(vm): Ghost<VmModel>,
) -> (r: Result<UserStep, StepError>)
    requires
        old(fiber)@.frames.len() > 0,
        position@.payload.len() == 10,
    ensures
        (vm, final(fiber)@, fault::outcome(r)) == branched(vm, old(fiber)@, position@, *program),
{
    let target: usize = match operand::read_u32(position.payload, 6) {
        Ok(n) => n as usize,
        Err(e) => {
            return Err(e);
        },
    };
    match checked_user_target(program, position.function, target) {
        Ok(_) => {},
        Err(e) => {
            return Err(e);
        },
    }
    fiber.top_mut().instruction = target;
    Ok(UserStep::Done)
}

impl Vm {
    fn execute_user_consumer(
        &mut self,
        fiber: &mut Fiber,
        position: &InstructionPosition<'_>,
        opcode: Opcode,
        program: &ProgramGeneration,
        operands: UserConsumer,
    ) -> (r: Result<UserStep, StepError>)
        requires
            old(fiber)@.frames.len() > 0,
            consumer(old(fiber)@.top(), position@, opcode, *program) == Ok::<Consumer, Failure>(
                operands@,
            ),
        ensures
            (final(self)@, final(fiber)@, fault::outcome(r)) == consumed(
                old(self)@,
                old(fiber)@,
                position@,
                opcode,
                *program,
                operands@,
            ),
    {
        let slot: usize = operands.slot;
        let count: usize = operands.spec.arguments.len();
        let retained: bool = slot < operands.call.bindings.len();
        let by_reference: bool = retained && match &operands.call.bindings[slot] {
            UserArgumentBinding::ArrayReference => true,
            _ => false,
        };
        let by_default: bool = retained && match &operands.call.bindings[slot] {
            UserArgumentBinding::Default(_) => true,
            _ => false,
        };
        match opcode {
            Opcode::GuardUserArgument => {
                let omitted: bool = match operands.spec.arguments[slot] {
                    UserArgumentSpec::Omitted => true,
                    _ => false,
                };
                if omitted {
                    return Err(invalid("omitted user argument cannot be guarded"));
                }
                if !retained {
                    return branch(fiber, position, program, Ghost(self@));
                }
                Ok(UserStep::Done)
            },
            Opcode::SelectUserArgument => {
                let variable: bool = match operands.spec.arguments[slot] {
                    UserArgumentSpec::Variable(_) => true,
                    _ => false,
                };
                if !variable || !retained {
                    return Err(invalid("only retained variable arguments select REF"));
                }
                if by_reference {
                    return branch(fiber, position, program, Ghost(self@));
                }
                Ok(UserStep::Done)
            },
            Opcode::CaptureUserArgument => {
                if position.payload[6] > 1 {
                    return Err(invalid("invalid user REF flag"));
                }
                if !retained || by_default || (position.payload[6] == 1) != by_reference {
                    return Err(invalid("user capture differs from the retained formal"));
                }
                let resolve: usize = match operand::read_u32(position.payload, 0) {
                    Ok(n) => n as usize,
                    Err(e) => {
                        return Err(e);
                    },
                };
                match operand::pop(&mut fiber.top_mut().stack) {
                    Ok(actual) => Ok(UserStep::Capture { consumer: operands, resolve, actual }),
                    Err(e) => Err(e),
                }
            },
            Opcode::AdvanceUserArgument => done_user(
                advance_user_actual(fiber.top_mut(), &operands, position.payload),
            ),
            _ => {
                let frame = fiber.top_mut();
                let pending = pop_pending(frame);
                match operand::pop(&mut frame.stack) {
                    Ok(_) => {},
                    Err(_) => {},
                }
                Ok(UserStep::Invoke { consumer: operands, pending })
            },
        }
    }

    fn take_target_name(
        &mut self,
        fiber: &mut Fiber,
        position: &InstructionPosition<'_>,
        program: &ProgramGeneration,
    ) -> (r: Result<UserStep, StepError>)
        requires
            old(fiber)@.frames.len() > 0,
        ensures
            (final(self)@, final(fiber)@, fault::outcome(r)) == name_taken(
                old(self)@,
                old(fiber)@,
                position@,
                *program,
            ),
    {
        let spec = match find_spec(program, position.function, position.instruction) {
            Some(s) => s,
            None => {
                return Err(invalid("user-call operands are malformed"));
            },
        };
        if spec.mode.expected_result().is_some() || spec.mode.unwinds_caller() {
            self.invalidate_path_memo(fiber.id);
        }
        match operand::pop(&mut fiber.top_mut().stack) {
            Err(e) => {
                assert(fiber@ =~= old(fiber)@);
                Err(e)
            },
            Ok(VmValue::String(name)) => Ok(UserStep::Resolve { name, spec }),
            Ok(_) => Err(invalid("user-call name is not a string")),
        }
    }

    /// Executes one operation of this family on the running frame. The target of a call, the capture
    /// of an argument and the call itself are handed out.
    pub fn dispatch_methods(
        &mut self,
        fiber: &mut Fiber,
        position: &InstructionPosition<'_>,
        opcode: Opcode,
    ) -> (r: Result<UserStep, StepError>)
        ensures
            (final(self)@, final(fiber)@, fault::outcome(r)) == user_called(
                old(self)@,
                old(fiber)@,
                position@,
                opcode,
            ),
    {
        if !is_user_opcode(opcode) {
            return Ok(UserStep::Other);
        }
        let program = match self.program(position.generation) {
            Some(p) => p,
            None => {
                return Err(invalid("user-call generation is missing"));
            },
        };
        if fiber.frames.len() == 0 || fiber.top().generation != position.generation
            || fiber.top().function != position.function {
            return Err(invalid("user-call caller identity differs"));
        }
        if opcode == Opcode::ResolveUserCall {
            return self.take_target_name(fiber, position, &*program);
        }
        if opcode == Opcode::AbandonUserCall {
            return done_user(abandon_user_call(fiber.top_mut(), position, &*program));
        }
        match decode_user_consumer(fiber.top(), position, opcode, &*program) {
            Err(e) => Err(e),
            Ok(operands) => self.execute_user_consumer(
                fiber,
                position,
                opcode,
                &*program,
                operands,
            ),
        }
    }
}

/// What the search for a target found.
pub struct FoundTarget {
    pub call: Rc<ResolvedUserCall>,
    /// The call may be part of a recorded path.
    pub observable: bool,
}

/// Mathematical content of a [`FoundTarget`].
pub struct Found {
    pub call: ResolvedUserCall,
    pub observable: bool,
}

pub open spec fn found_result(r: Result<Option<FoundTarget>, VmError>) -> Result<Option<Found>, Trouble> {
    match r {
        Ok(Some(f)) => Ok(Some(Found { call: *f.call, observable: f.observable })),
        Ok(None) => Ok(None),
        Err(e) => Err(e@),
    }
}

/// Slots that a new pending call takes: its token, itself and its arguments to be.
pub open spec fn slots_with(frame: FrameModel, call: ResolvedUserCall) -> nat {
    frame.operand_slots() + 2 + call.bindings@.len()
}

/// Machine, fiber and success of what follows the search for a target.
pub open spec fn target_found(
    vm: VmModel,
    fiber: FiberModel,
    at: At,
    program: ProgramGeneration,
    name: Seq<char>,
    spec: UserCallSpec,
    found: Result<Option<Found>, Trouble>,
) -> (VmModel, FiberModel, Result<(), Failure>) {
    let frame = fiber.top();
    match found {
        Err(e) => (vm, fiber, Err(fault::mapped(e))),
        Ok(Some(target)) => {
            let kept = if target.observable {
                vm
            } else {
                vm.without_path_memo(fiber.id)
            };
            let warned = if diagnostics::excess_warned(kept, target.call, spec.arguments@.len()) {
                diagnostics::queued(kept, CompatibilityWarning::ExcessUserArguments)
            } else {
                kept
            };
            match program.spec_function(target.call.function) {
                None => (
                    warned,
                    fiber,
                    Err(Failure::invalid("resolved user target disappeared"@)),
                ),
                Some(function) => if slots_with(frame, target.call)
                    > vm.config.maximum_operand_stack {
                    (
                        warned,
                        fiber,
                        Err(
                            Failure::of(
                                VmFaultCode::ResourceLimit,
                                "maximum user-call state exceeded"@,
                            ),
                        ),
                    )
                } else {
                    (
                        warned,
                        fiber.with_top(
                            FrameModel {
                                user_calls: frame.user_calls.push(
                                    PendingModel {
                                        resolve: at.instruction,
                                        stack_index: frame.stack.len() as usize,
                                        next_slot: 0,
                                        captured: Seq::empty(),
                                        call: target.call,
                                    },
                                ),
                                stack: frame.stack.push(Val::Text(function.name@)),
                                ..frame
                            },
                        ),
                        Ok(()),
                    )
                },
            }
        },
        Ok(None) => if spec.allow_missing {
            match target_checked(program, at.function, spec.missing_target as int) {
                Err(e) => (vm, fiber, Err(e)),
                Ok(_) => (
                    vm,
                    fiber.with_top(
                        FrameModel {
                            stack: frame.stack.push(Val::Text(Seq::empty())),
                            instruction: spec.missing_target as usize,
                            ..frame
                        },
                    ),
                    Ok(()),
                ),
            }
        } else {
            (
                vm,
                fiber,
                Err(
                    Failure::script(
                        ScriptFaultKind::Resolve,
                        VmFaultCode::MissingSymbol,
                        "dynamic user target "@ + name + " is missing"@,
                    ),
                ),
            )
        },
    }
}

/// Machine, fiber and success of what follows the capture of an argument.
pub open spec fn argument_captured(fiber: FiberModel, actual: Result<Val, Trouble>) -> (
    FiberModel,
    Result<(), Failure>,
) {
    match actual {
        Err(e) => (fiber, Err(fault::mapped(e))),
        Ok(v) => (fiber.with_top(advanced(fiber.top(), Some(Some(v)))), Ok(())),
    }
}

fn fits_operands(frame: &Frame, bindings: usize, maximum: usize) -> (r: bool)
    ensures
        r == (frame@.operand_slots() + 2 + bindings <= maximum),
{
    match frame.operand_slots() {
        None => false,
        Some(n) => match n.checked_add(2) {
            None => false,
            Some(m) => match m.checked_add(bindings) {
                None => false,
                Some(all) => all <= maximum,
            },
        },
    }
}

impl Vm {
    /// Takes what the search for the target of a user call found: a call that waits for its arguments,
    /// or the branch for a missing one.
    pub fn finish_user_resolve(
        &mut self,
        fiber: &mut Fiber,
        position: &InstructionPosition<'_>,
        program: &ProgramGeneration,
        name: &str,
        spec: &UserCallSpec,
        found: Result<Option<FoundTarget>, VmError>,
    ) -> (r: Result<(), StepError>)
        requires
            old(fiber)@.frames.len() > 0,
        ensures
            (final(self)@, final(fiber)@, fault::outcome(r)) == target_found(
                old(self)@,
                old(fiber)@,
                position@,
                *program,
                name@,
                *spec,
                found_result(found),
            ),
    {
        match found {
            Err(e) => Err(fault::map_vm_error(e)),
            Ok(Some(target)) => {
                if !target.observable {
                    self.invalidate_path_memo(fiber.id);
                }
                self.queue_user_call_diagnostic(&*target.call, spec.arguments.len());
                let function = match program.function(target.call.function) {
                    Some(f) => f,
                    None => {
                        return Err(invalid("resolved user target disappeared"));
                    },
                };
                if !fits_operands(
                    fiber.top(),
                    target.call.bindings.len(),
                    self.config.maximum_operand_stack,
                ) {
                    return Err(
                        StepError::new(
                            VmFaultCode::ResourceLimit,
                            "maximum user-call state exceeded",
                        ),
                    );
                }
                let frame = fiber.top_mut();
                let ghost calls = frame.user_calls@;
                let ghost before = frame@;
                let pending = PendingUserCall {
                    resolve: position.instruction,
                    stack_index: frame.stack.len(),
                    next_slot: 0,
                    captured: Vec::new(),
                    call: target.call,
                };
                assert(pending@.captured =~= Seq::<Option<Val>>::empty());
                frame.user_calls.push(pending);
                assert(state::pending_views(frame.user_calls@) =~= state::pending_views(
                    calls,
                ).push(pending@));
                basic::push(&mut frame.stack, VmValue::String(function.name.clone()));
                Ok(())
            },
            Ok(None) => {
                if !spec.allow_missing {
                    let message = text::join3("dynamic user target ", name, " is missing");
                    return Err(
                        StepError::script(
                            ScriptFaultKind::Resolve,
                            VmFaultCode::MissingSymbol,
                            message.as_str(),
                        ),
                    );
                }
                match checked_user_target(
                    program,
                    position.function,
                    spec.missing_target as usize,
                ) {
                    Ok(_) => {},
                    Err(e) => {
                        return Err(e);
                    },
                }
                let empty = String::new();
                proof {
                    reveal_strlit("");
                    assert(empty@ =~= Seq::<char>::empty());
                }
                let frame = fiber.top_mut();
                basic::push(&mut frame.stack, VmValue::String(empty));
                frame.instruction = spec.missing_target as usize;
                Ok(())
            },
        }
    }

    /// Takes the captured value of an argument.
    pub fn finish_user_capture(&mut self, fiber: &mut Fiber, actual: Result<VmValue, VmError>) -> (r:
        Result<(), StepError>)
        requires
            old(fiber)@.frames.len() > 0,
            old(fiber)@.top().user_calls.len() > 0,
            old(fiber)@.top().user_calls.last().next_slot < usize::MAX,
        ensures
            final(self)@ == old(self)@,
            (final(fiber)@, fault::outcome(r)) == argument_captured(
                old(fiber)@,
                fault::result(actual),
            ),
    {
        match actual {
            Err(e) => Err(fault::map_vm_error(e)),
            Ok(v) => {
                advance_pending(fiber.top_mut(), Some(Some(v)));
                Ok(())
            },
        }
    }
}

/// A resolved call can be consumed at once: the next consumer finds it at its first argument.
pub proof fn law_resolved_call_is_consumable(
    vm: VmModel,
    fiber: FiberModel,
    at: At,
    program: ProgramGeneration,
    name: Seq<char>,
    spec: UserCallSpec,
    found: Found,
    next: At,
    opcode: Opcode,
)
    requires
        fiber.frames.len() > 0,
        fiber.top().stack.len() < usize::MAX,
        target_found(vm, fiber, at, program, name, spec, Ok(Some(found))).2 is Ok,
        found.call.generation == at.generation,
        found.call.mode == spec.mode,
        next.generation == at.generation,
        next.function == at.function,
        origin_of(next, program) == Ok::<(usize, UserCallSpec), Failure>((at.instruction, spec)),
        opcode is GuardUserArgument || opcode is SelectUserArgument
            || opcode is AdvanceUserArgument,
        consumer_length(opcode) == Some(next.payload.len()),
        operand::u16_at(next.payload, 4) == Ok::<u16, Failure>(0),
        spec.arguments@.len() > 0,
    ensures
        ({
            let after = target_found(vm, fiber, at, program, name, spec, Ok(Some(found))).1;
            consumer(after.top(), next, opcode, program) == Ok::<Consumer, Failure>(
                Consumer { spec, slot: 0, call: found.call },
            )
        }),
{
    let after = target_found(vm, fiber, at, program, name, spec, Ok(Some(found))).1;
    assert(after.top().user_calls.last().call == found.call);
    assert(after.top().stack.last() == Val::Text(
        program.spec_function(found.call.function)->0.name@,
    ));
}

/// Looking for a missing target and then giving the call up leaves the operand stack as it was.
pub proof fn law_missing_target_is_balanced(
    vm: VmModel,
    fiber: FiberModel,
    at: At,
    program: ProgramGeneration,
    name: Seq<char>,
    spec: UserCallSpec,
    next: At,
)
    requires
        fiber.frames.len() > 0,
        target_found(vm, fiber, at, program, name, spec, Ok(None)).2 is Ok,
        next.instruction == spec.missing_target,
        next.payload.len() == 4,
        origin_of(next, program) == Ok::<(usize, UserCallSpec), Failure>((at.instruction, spec)),
        fiber.top().user_calls.len() > 0 ==> fiber.top().user_calls.last().resolve
            != at.instruction,
    ensures
        ({
            let after = target_found(vm, fiber, at, program, name, spec, Ok(None)).1;
            let done = abandon_step(after.top(), next, program);
            done.1 is Ok && done.0.stack == fiber.top().stack && done.0.user_calls
                == fiber.top().user_calls
        }),
{
    let after = target_found(vm, fiber, at, program, name, spec, Ok(None)).1;
    let done = abandon_step(after.top(), next, program);
    assert(done.0.stack =~= fiber.top().stack);
}

} // verus!
