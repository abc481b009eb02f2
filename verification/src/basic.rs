//! Values, variables, operators, loops, selection and jumps.

use vstd::prelude::*;
use vstd::utf8::*;
use crate::fastpaths;
use crate::fault::{self, Failure, StepError, VmFaultCode};
use crate::memory::BytecodeStorage;
use crate::named;
use crate::operand;
use crate::places;
use crate::program::{BytecodeGlobal, Opcode};
use crate::state::{
    self, At, ExecutionPolicy, Fiber, FiberModel, ForLoopState, Frame, FrameModel,
    InstructionPosition, LoopModel, Outcome, StepOutcome, Vm, VmDiagnosticNotification, VmModel,
    STRUCTURED_GOTO_DIAGNOSTIC_CODE, STRUCTURED_GOTO_DIAGNOSTIC_MESSAGE,
};
use crate::text;
use crate::utf8;
use crate::value::{self, BytecodeType, FrameId, Place, PlaceDescriptor, Val, VmValue};

verus! {

/// A frame and how a step on it went.
pub type FrameStep = (FrameModel, Result<(), Failure>);

/// Machine, fiber and how a step went.
pub type Step = (VmModel, FiberModel, Result<Outcome, Failure>);

pub open spec fn go(vm: VmModel, fiber: FiberModel) -> Step {
    (vm, fiber, Ok(Outcome::Continue))
}

pub open spec fn fail(vm: VmModel, fiber: FiberModel, failure: Failure) -> Step {
    (vm, fiber, Err(failure))
}

/// A step that touches only the running frame.
pub open spec fn framed(vm: VmModel, fiber: FiberModel, step: FrameStep) -> Step {
    (
        vm,
        fiber.with_top(step.0),
        match step.1 {
            Ok(_) => Ok(Outcome::Continue),
            Err(e) => Err(e),
        },
    )
}

pub open spec fn mismatch(message: Seq<char>) -> Failure {
    Failure::of(VmFaultCode::TypeMismatch, message)
}

/// A frame with another stack.
pub open spec fn restacked(frame: FrameModel, stack: Seq<Val>) -> FrameModel {
    FrameModel { stack, ..frame }
}

pub open spec fn pushed(frame: FrameModel, v: Val) -> FrameModel {
    restacked(frame, frame.stack.push(v))
}

/// Pushes the integer in the operand.
pub open spec fn push_integer(frame: FrameModel, payload: Seq<u8>) -> FrameStep {
    match operand::i64_of(payload) {
        Ok(n) => (pushed(frame, Val::Integer(n)), Ok(())),
        Err(e) => (frame, Err(e)),
    }
}

/// The text in an operand: its length in four bytes, then its bytes and nothing more.
pub open spec fn text_operand(payload: Seq<u8>) -> Result<Seq<char>, Failure> {
    match operand::u32_at(payload, 0) {
        Err(e) => Err(e),
        Ok(length) => if payload.len() != 4 + length {
            Err(Failure::invalid("invalid string operand"@))
        } else if !valid_utf8(payload.skip(4)) {
            Err(Failure::invalid("string is not UTF-8"@))
        } else {
            Ok(decode_utf8(payload.skip(4)))
        },
    }
}

/// Pushes the text in the operand.
pub open spec fn push_string(frame: FrameModel, payload: Seq<u8>) -> FrameStep {
    match text_operand(payload) {
        Ok(t) => (pushed(frame, Val::Text(t)), Ok(())),
        Err(e) => (frame, Err(e)),
    }
}

pub(crate) fn push(stack: &mut Vec<VmValue>, v: VmValue)
    ensures
        value::vals(final(stack)@) == value::vals(old(stack)@).push(v@),
{
    stack.push(v);
    assert(value::vals(stack@) =~= value::vals(old(stack)@).push(v@));
}

fn step_push_integer(frame: &mut Frame, payload: &[u8]) -> (r: Result<(), StepError>)
    ensures
        (final(frame)@, fault::outcome(r)) == push_integer(old(frame)@, payload@),
{
    match operand::read_i64(payload) {
        Ok(n) => {
            push(&mut frame.stack, VmValue::Integer(n));
            Ok(())
        },
        Err(e) => Err(e),
    }
}

fn step_push_string(frame: &mut Frame, payload: &[u8]) -> (r: Result<(), StepError>)
    ensures
        (final(frame)@, fault::outcome(r)) == push_string(old(frame)@, payload@),
{
    let length: u32 = match operand::read_u32(payload, 0) {
        Ok(n) => n,
        Err(e) => {
            return Err(e);
        },
    };
    if payload.len() as u64 != 4 + length as u64 {
        return Err(StepError::new(VmFaultCode::InvalidInstruction, "invalid string operand"));
    }
    let bytes = vstd::slice::slice_subrange(payload, 4, payload.len());
    assert(bytes@ =~= payload@.skip(4));
    match utf8::decode_text(bytes) {
        Some(t) => {
            push(&mut frame.stack, VmValue::String(t));
            Ok(())
        },
        None => Err(StepError::new(VmFaultCode::InvalidInstruction, "string is not UTF-8")),
    }
}

/// Takes a character index off the front of the indices of a character variable.
pub open spec fn split_indices(g: BytecodeGlobal, indices: Seq<u64>, target: u64) -> (
    Option<u64>,
    Seq<u64>,
) {
    if g.storage is Character {
        if indices.len() > g.dimensions@.len() {
            (Some(indices[0]), indices.skip(1))
        } else {
            (Some(target), indices)
        }
    } else {
        (None, indices)
    }
}

/// The place value of a variable.
pub open spec fn variable_place(
    g: BytecodeGlobal,
    fiber: FiberModel,
    character: Option<u64>,
    indices: Seq<u64>,
) -> Result<Val, Failure> {
    let place = Place {
        backing: None,
        variable: g.key,
        indices,
        character,
        fiber: Some(fiber.id),
        frame: fastpaths::own_frame(g, fiber.top().id),
    };
    match g.value_type {
        BytecodeType::Integer => Ok(Val::IntegerPlace(place)),
        BytecodeType::String => Ok(Val::StringPlace(place)),
        _ => Err(Failure::invalid("a variable schema cannot contain place values"@)),
    }
}

/// Loads, stores or names a variable whose indices stand on the stack.
pub open spec fn variable_step(vm: VmModel, fiber: FiberModel, at: At, opcode: Opcode) -> Step {
    match operand::u16_at(at.payload, 16) {
        Err(e) => fail(vm, fiber, e),
        Ok(count) => if at.payload.len() <= 18 {
            fail(vm, fiber, Failure::invalid("missing variable operation"@))
        } else if opcode is StoreVariable {
            if fiber.top().stack.len() == 0 {
                fail(vm, fiber, operand::underflow())
            } else {
                variable_access(
                    vm,
                    fiber.with_stack(fiber.top().stack.drop_last()),
                    at,
                    opcode,
                    count as nat,
                    at.payload[18],
                    Some(fiber.top().stack.last()),
                )
            }
        } else {
            variable_access(vm, fiber, at, opcode, count as nat, at.payload[18], None)
        },
    }
}

/// The part of [`variable_step`] behind the operand and the stored value.
pub open spec fn variable_access(
    vm: VmModel,
    fiber: FiberModel,
    at: At,
    opcode: Opcode,
    count: nat,
    operation: u8,
    stored: Option<Val>,
) -> Step {
    let taken = operand::popped_indices(fiber.top().stack, count);
    let after = fiber.with_stack(taken.0);
    match taken.1 {
        Err(e) => fail(vm, after, e),
        Ok(all) => match at.variable {
            None => fail(
                vm,
                after,
                Failure::of(
                    VmFaultCode::MissingSymbol,
                    "variable operand does not identify a defined global"@,
                ),
            ),
            Some(g) => {
                let (character, indices) = split_indices(
                    g,
                    all,
                    named::target_character(vm, at.generation),
                );
                let address = places::variable_address(
                    g,
                    character,
                    fastpaths::own_frame(g, after.top().id),
                );
                if opcode is MakePlace {
                    match variable_place(g, after, character, indices) {
                        Ok(v) => go(vm, after.with_top(pushed(after.top(), v))),
                        Err(e) => fail(vm, after, e),
                    }
                } else {
                    let current = places::read_at(vm.store, after.frames, address, indices);
                    match stored {
                        None => match current {
                            Ok(v) => go(vm, after.with_top(pushed(after.top(), v))),
                            Err(e) => fail(vm, after, fault::mapped(e)),
                        },
                        Some(v) => if operation == 0 {
                            stored_at(vm, after, address, indices, v)
                        } else {
                            match current {
                                Err(e) => fail(vm, after, fault::mapped(e)),
                                Ok(previous) => match operand::assigned(operation) {
                                    Err(e) => fail(vm, after, e),
                                    Ok(tag) => match operand::binary(tag, previous, v) {
                                        Err(e) => fail(vm, after, e),
                                        Ok(w) => stored_at(vm, after, address, indices, w),
                                    },
                                },
                            }
                        },
                    }
                }
            },
        },
    }
}

/// A step that ends in a write.
pub open spec fn stored_at(
    vm: VmModel,
    fiber: FiberModel,
    address: crate::memory::CellAddress,
    indices: Seq<u64>,
    v: Val,
) -> Step {
    match places::write_address(vm, fiber, address, indices, v) {
        Ok((w, f)) => go(w, f),
        Err(e) => fail(vm, fiber, fault::mapped(e)),
    }
}

impl Vm {
    fn step_variable(
        &mut self,
        fiber: &mut Fiber,
        position: &InstructionPosition<'_>,
        opcode: Opcode,
    ) -> (r: Result<StepOutcome, StepError>)
        requires
            old(fiber)@.frames.len() > 0,
            opcode is LoadVariable || opcode is StoreVariable || opcode is MakePlace,
        ensures
            (final(self)@, final(fiber)@, fault::outcome(r)) == variable_step(
                old(self)@,
                old(fiber)@,
                position@,
                opcode,
            ),
    {
        let count: usize = match operand::read_u16(position.payload, 16) {
            Ok(n) => n as usize,
            Err(e) => {
                return Err(e);
            },
        };
        if position.payload.len() <= 18 {
            return Err(
                StepError::new(VmFaultCode::InvalidInstruction, "missing variable operation"),
            );
        }
        let operation: u8 = position.payload[18];
        let mut stored: Option<VmValue> = None;
        if opcode == Opcode::StoreVariable {
            match operand::pop(&mut fiber.top_mut().stack) {
                Ok(v) => {
                    stored = Some(v);
                },
                Err(e) => {
                    assert(fiber@ =~= old(fiber)@);
                    return Err(e);
                },
            }
        }
        let taken = operand::pop_indices(&mut fiber.top_mut().stack, count);
        let all: Vec<u64> = match taken {
            Ok(v) => v,
            Err(e) => {
                return Err(e);
            },
        };
        let g: &BytecodeGlobal = match position.variable {
            None => {
                return Err(
                    StepError::new(
                        VmFaultCode::MissingSymbol,
                        "variable operand does not identify a defined global",
                    ),
                );
            },
            Some(g) => g,
        };
        let mut character: Option<u64> = None;
        let mut skip: usize = 0;
        if g.storage == BytecodeStorage::Character {
            if all.len() > g.dimensions.len() {
                character = Some(all[0]);
                skip = 1;
            } else {
                character = Some(self.target_character_for_generation(position.generation));
            }
        }
        let indices = vstd::slice::slice_subrange(all.as_slice(), skip, all.len());
        let ghost split = split_indices(
            *g,
            all@,
            named::target_character(self@, position.generation),
        );
        assert(indices@ =~= split.1);
        assert(character == split.0);
        let frame: Option<FrameId> = if g.storage == BytecodeStorage::FunctionLocal {
            Some(fiber.top().id)
        } else {
            None
        };
        if opcode == Opcode::MakePlace {
            let mut own: Vec<u64> = Vec::new();
            let mut k: usize = 0;
            while k < indices.len()
                invariant
                    k <= indices@.len(),
                    own@ == indices@.take(k as int),
                decreases indices@.len() - k,
            {
                own.push(indices[k]);
                k = k + 1;
                assert(own@ =~= indices@.take(k as int));
            }
            assert(own@ =~= indices@);
            let place = PlaceDescriptor {
                backing: None,
                variable: g.key,
                indices: own,
                character,
                fiber: Some(fiber.id),
                frame,
            };
            let v = match g.value_type {
                BytecodeType::Integer => VmValue::IntegerPlace(Box::new(place)),
                BytecodeType::String => VmValue::StringPlace(Box::new(place)),
                _ => {
                    return Err(
                        StepError::new(
                            VmFaultCode::InvalidInstruction,
                            "a variable schema cannot contain place values",
                        ),
                    );
                },
            };
            push(&mut fiber.top_mut().stack, v);
            return Ok(StepOutcome::Continue);
        }
        match stored {
            None => match self.read_variable_resolved(&*fiber, g, indices, character, frame) {
                Ok(v) => {
                    push(&mut fiber.top_mut().stack, v);
                    Ok(StepOutcome::Continue)
                },
                Err(e) => Err(fault::map_vm_error(e)),
            },
            Some(v) => {
                let mut w = v;
                if operation != 0 {
                    let previous = match self.read_variable_resolved(
                        &*fiber,
                        g,
                        indices,
                        character,
                        frame,
                    ) {
                        Ok(p) => p,
                        Err(e) => {
                            return Err(fault::map_vm_error(e));
                        },
                    };
                    let tag: u8 = match operand::assign_binary_tag(operation) {
                        Ok(t) => t,
                        Err(e) => {
                            return Err(e);
                        },
                    };
                    w = match operand::binary_value(tag, previous, w) {
                        Ok(x) => x,
                        Err(e) => {
                            return Err(e);
                        },
                    };
                }
                match self.write_variable_resolved(fiber, g, indices, character, frame, w) {
                    Ok(_) => Ok(StepOutcome::Continue),
                    Err(e) => Err(fault::map_vm_error(e)),
                }
            },
        }
    }
}

/// The operator in the first byte of an operand.
pub open spec fn operator_of(payload: Seq<u8>, missing: Seq<char>) -> Result<u8, Failure> {
    if payload.len() > 0 {
        Ok(payload[0])
    } else {
        Err(Failure::invalid(missing))
    }
}

fn read_operator(payload: &[u8], missing: &str) -> (r: Result<u8, StepError>)
    ensures
        fault::outcome(r) == operator_of(payload@, missing@),
{
    if payload.len() > 0 {
        Ok(payload[0])
    } else {
        Err(StepError::new(VmFaultCode::InvalidInstruction, missing))
    }
}

/// Applies a unary operator to the top value.
pub open spec fn unary_step(frame: FrameModel, payload: Seq<u8>) -> FrameStep {
    match operator_of(payload, "missing unary operation"@) {
        Err(e) => (frame, Err(e)),
        Ok(operation) => if frame.stack.len() == 0 {
            (frame, Err(operand::underflow()))
        } else {
            let rest = restacked(frame, frame.stack.drop_last());
            match operand::unary(operation, frame.stack.last()) {
                Ok(v) => (pushed(rest, v), Ok(())),
                Err(e) => (rest, Err(e)),
            }
        },
    }
}

fn step_unary(frame: &mut Frame, payload: &[u8]) -> (r: Result<(), StepError>)
    ensures
        (final(frame)@, fault::outcome(r)) == unary_step(old(frame)@, payload@),
{
    let operation: u8 = match read_operator(payload, "missing unary operation") {
        Ok(o) => o,
        Err(e) => {
            return Err(e);
        },
    };
    let v = match operand::pop(&mut frame.stack) {
        Ok(v) => v,
        Err(e) => {
            return Err(e);
        },
    };
    match operand::unary_value(operation, v) {
        Ok(w) => {
            push(&mut frame.stack, w);
            Ok(())
        },
        Err(e) => Err(e),
    }
}

/// Applies a binary operator to the two top values.
pub open spec fn binary_step(frame: FrameModel, payload: Seq<u8>) -> FrameStep {
    match operator_of(payload, "missing binary operation"@) {
        Err(e) => (frame, Err(e)),
        Ok(operation) => if frame.stack.len() == 0 {
            (frame, Err(operand::underflow()))
        } else if frame.stack.len() == 1 {
            (restacked(frame, frame.stack.drop_last()), Err(operand::underflow()))
        } else {
            let rest = restacked(frame, frame.stack.drop_last().drop_last());
            match operand::binary(
                operation,
                frame.stack.drop_last().last(),
                frame.stack.last(),
            ) {
                Ok(v) => (pushed(rest, v), Ok(())),
                Err(e) => (rest, Err(e)),
            }
        },
    }
}

fn step_binary(frame: &mut Frame, payload: &[u8]) -> (r: Result<(), StepError>)
    ensures
        (final(frame)@, fault::outcome(r)) == binary_step(old(frame)@, payload@),
{
    let operation: u8 = match read_operator(payload, "missing binary operation") {
        Ok(o) => o,
        Err(e) => {
            return Err(e);
        },
    };
    let right = match operand::pop(&mut frame.stack) {
        Ok(v) => v,
        Err(e) => {
            return Err(e);
        },
    };
    let left = match operand::pop(&mut frame.stack) {
        Ok(v) => v,
        Err(e) => {
            return Err(e);
        },
    };
    match operand::binary_value(operation, left, right) {
        Ok(w) => {
            push(&mut frame.stack, w);
            Ok(())
        },
        Err(e) => Err(e),
    }
}

/// The text of a value; a place stands for what it holds.
pub open spec fn rendered(vm: VmModel, fiber: FiberModel, v: Val) -> Result<Seq<char>, Failure> {
    match v {
        Val::Integer(n) => Ok(text::decimal(n as int)),
        Val::Text(t) => Ok(t),
        Val::IntegerPlace(p) | Val::StringPlace(p) => match places::read_place(vm, fiber, p) {
            Err(e) => Err(fault::mapped(e)),
            Ok(Val::Integer(n)) => Ok(text::decimal(n as int)),
            Ok(Val::Text(t)) => Ok(t),
            Ok(_) => Err(mismatch("a place cannot contain another place"@)),
        },
    }
}

/// Turns the top value into text.
pub open spec fn to_string_step(vm: VmModel, fiber: FiberModel) -> Step {
    if fiber.top().stack.len() == 0 {
        fail(vm, fiber, operand::underflow())
    } else {
        let after = fiber.with_stack(fiber.top().stack.drop_last());
        match rendered(vm, after, fiber.top().stack.last()) {
            Ok(t) => go(vm, after.with_top(pushed(after.top(), Val::Text(t)))),
            Err(e) => fail(vm, after, e),
        }
    }
}

impl Vm {
    fn render_place(&self, fiber: &Fiber, place: &PlaceDescriptor) -> (r: Result<String, StepError>)
        ensures
            fault::outcome(r) == rendered(self@, fiber@, Val::IntegerPlace(place@)),
            fault::outcome(r) == rendered(self@, fiber@, Val::StringPlace(place@)),
    {
        match self.read_place(fiber, place) {
            Err(e) => Err(fault::map_vm_error(e)),
            Ok(VmValue::Integer(n)) => Ok(text::integer_text(n)),
            Ok(VmValue::String(t)) => Ok(t),
            Ok(_) => Err(
                StepError::new(VmFaultCode::TypeMismatch, "a place cannot contain another place"),
            ),
        }
    }

    fn step_to_string(&mut self, fiber: &mut Fiber) -> (r: Result<StepOutcome, StepError>)
        requires
            old(fiber)@.frames.len() > 0,
        ensures
            (final(self)@, final(fiber)@, fault::outcome(r)) == to_string_step(
                old(self)@,
                old(fiber)@,
            ),
    {
        let v = match operand::pop(&mut fiber.top_mut().stack) {
            Ok(v) => v,
            Err(e) => {
                assert(fiber@ =~= old(fiber)@);
                return Err(e);
            },
        };
        let t = match v {
            VmValue::Integer(n) => text::integer_text(n),
            VmValue::String(t) => t,
            VmValue::IntegerPlace(p) => match self.render_place(&*fiber, &*p) {
                Ok(t) => t,
                Err(e) => {
                    return Err(e);
                },
            },
            VmValue::StringPlace(p) => match self.render_place(&*fiber, &*p) {
                Ok(t) => t,
                Err(e) => {
                    return Err(e);
                },
            },
        };
        push(&mut fiber.top_mut().stack, VmValue::String(t));
        Ok(StepOutcome::Continue)
    }
}

/// Drops the top value.
pub open spec fn pop_step(frame: FrameModel) -> FrameStep {
    if frame.stack.len() == 0 {
        (frame, Err(operand::underflow()))
    } else {
        (restacked(frame, frame.stack.drop_last()), Ok(()))
    }
}

fn step_pop(frame: &mut Frame) -> (r: Result<(), StepError>)
    ensures
        (final(frame)@, fault::outcome(r)) == pop_step(old(frame)@),
{
    match operand::pop(&mut frame.stack) {
        Ok(_) => Ok(()),
        Err(e) => Err(e),
    }
}

/// Doubles the top value.
pub open spec fn dup_step(frame: FrameModel) -> FrameStep {
    if frame.stack.len() == 0 {
        (frame, Err(Failure::invalid("dup underflows the stack"@)))
    } else {
        (pushed(frame, frame.stack.last()), Ok(()))
    }
}

fn step_dup(frame: &mut Frame) -> (r: Result<(), StepError>)
    ensures
        (final(frame)@, fault::outcome(r)) == dup_step(old(frame)@),
{
    let n: usize = frame.stack.len();
    if n == 0 {
        return Err(StepError::new(VmFaultCode::InvalidInstruction, "dup underflows the stack"));
    }
    let v = frame.stack[n - 1].clone();
    push(&mut frame.stack, v);
    Ok(())
}

/// Stores the second value through the place on top.
pub open spec fn store_place_step(vm: VmModel, fiber: FiberModel) -> Step {
    let stack = fiber.top().stack;
    if stack.len() == 0 {
        fail(vm, fiber, operand::underflow())
    } else if stack.len() == 1 {
        fail(vm, fiber.with_stack(stack.drop_last()), operand::underflow())
    } else {
        let after = fiber.with_stack(stack.drop_last().drop_last());
        let v = stack.drop_last().last();
        match (stack.last(), v) {
            (Val::IntegerPlace(p), Val::Integer(_)) => placed(vm, after, p, v),
            (Val::StringPlace(p), Val::Text(_)) => placed(vm, after, p, v),
            _ => fail(vm, after, mismatch("indirect store place and value types differ"@)),
        }
    }
}

/// A step that ends in a write through a place.
pub open spec fn placed(vm: VmModel, fiber: FiberModel, p: Place, v: Val) -> Step {
    match places::write_place(vm, fiber, p, v) {
        Ok((w, f)) => go(w, f),
        Err(e) => fail(vm, fiber, fault::mapped(e)),
    }
}

impl Vm {
    fn step_store_place(&mut self, fiber: &mut Fiber) -> (r: Result<StepOutcome, StepError>)
        requires
            old(fiber)@.frames.len() > 0,
        ensures
            (final(self)@, final(fiber)@, fault::outcome(r)) == store_place_step(
                old(self)@,
                old(fiber)@,
            ),
    {
        let top = match operand::pop(&mut fiber.top_mut().stack) {
            Ok(v) => v,
            Err(e) => {
                assert(fiber@ =~= old(fiber)@);
                return Err(e);
            },
        };
        let v = match operand::pop(&mut fiber.top_mut().stack) {
            Ok(v) => v,
            Err(e) => {
                assert(fiber@ =~= old(fiber)@.with_stack(old(fiber)@.top().stack.drop_last()));
                return Err(e);
            },
        };
        assert(fiber@ =~= old(fiber)@.with_stack(old(fiber)@.top().stack.drop_last().drop_last()));
        let place = match (top, &v) {
            (VmValue::IntegerPlace(p), VmValue::Integer(_)) => p,
            (VmValue::StringPlace(p), VmValue::String(_)) => p,
            _ => {
                return Err(
                    StepError::new(
                        VmFaultCode::TypeMismatch,
                        "indirect store place and value types differ",
                    ),
                );
            },
        };
        match self.write_place(fiber, &*place, v) {
            Ok(_) => Ok(StepOutcome::Continue),
            Err(e) => Err(fault::map_vm_error(e)),
        }
    }
}

/// Joins the texts on top.
pub open spec fn concat_step(frame: FrameModel, payload: Seq<u8>) -> FrameStep {
    match operand::u16_at(payload, 0) {
        Err(e) => (frame, Err(e)),
        Ok(count) => {
            let taken = operand::popped_joined(frame.stack, count as nat);
            let rest = restacked(frame, taken.0);
            match taken.1 {
                Ok(t) => (pushed(rest, Val::Text(t)), Ok(())),
                Err(e) => (rest, Err(e)),
            }
        },
    }
}

fn step_concat(frame: &mut Frame, payload: &[u8]) -> (r: Result<(), StepError>)
    ensures
        (final(frame)@, fault::outcome(r)) == concat_step(old(frame)@, payload@),
{
    let count: usize = match operand::read_u16(payload, 0) {
        Ok(n) => n as usize,
        Err(e) => {
            return Err(e);
        },
    };
    match operand::pop_joined(&mut frame.stack, count) {
        Ok(t) => {
            push(&mut frame.stack, VmValue::String(t));
            Ok(())
        },
        Err(e) => Err(e),
    }
}

/// A counting loop goes on.
pub open spec fn runs(current: i64, end: i64, step: i64) -> bool {
    (step > 0 && current < end) || (step < 0 && current > end)
}

fn still_runs(current: i64, end: i64, step: i64) -> (r: bool)
    ensures
        r == runs(current, end, step),
{
    (step > 0 && current < end) || (step < 0 && current > end)
}

/// The operands of a loop start: counter, start, end and step, with the stack behind them.
pub open spec fn for_operands(stack: Seq<Val>) -> (Seq<Val>, Result<
    (Place, i64, i64, i64),
    Failure,
>) {
    let a = operand::popped_integer(stack, "FOR step expects an integer"@);
    match a.1 {
        Err(e) => (a.0, Err(e)),
        Ok(step) => {
            let b = operand::popped_integer(a.0, "FOR end expects an integer"@);
            match b.1 {
                Err(e) => (b.0, Err(e)),
                Ok(end) => {
                    let c = operand::popped_integer(b.0, "FOR start expects an integer"@);
                    match c.1 {
                        Err(e) => (c.0, Err(e)),
                        Ok(start) => if c.0.len() == 0 {
                            (c.0, Err(operand::underflow()))
                        } else {
                            match c.0.last() {
                                Val::IntegerPlace(p) => (
                                    c.0.drop_last(),
                                    Ok((p, start, end, step)),
                                ),
                                _ => (
                                    c.0.drop_last(),
                                    Err(mismatch("FOR counter expects an integer place"@)),
                                ),
                            }
                        },
                    }
                },
            }
        },
    }
}

fn pop_for_operands(stack: &mut Vec<VmValue>) -> (r: Result<
    (Box<PlaceDescriptor>, i64, i64, i64),
    StepError,
>)
    ensures
        value::vals(final(stack)@) == for_operands(value::vals(old(stack)@)).0,
        match r {
            Ok((p, start, end, step)) => for_operands(value::vals(old(stack)@)).1 == Ok::<
                (Place, i64, i64, i64),
                Failure,
            >((p@, start, end, step)),
            Err(e) => for_operands(value::vals(old(stack)@)).1 == Err::<
                (Place, i64, i64, i64),
                Failure,
            >(e@),
        },
{
    let step: i64 = match operand::pop_integer(stack, "FOR step expects an integer") {
        Ok(n) => n,
        Err(e) => {
            return Err(e);
        },
    };
    let end: i64 = match operand::pop_integer(stack, "FOR end expects an integer") {
        Ok(n) => n,
        Err(e) => {
            return Err(e);
        },
    };
    let start: i64 = match operand::pop_integer(stack, "FOR start expects an integer") {
        Ok(n) => n,
        Err(e) => {
            return Err(e);
        },
    };
    match operand::pop(stack) {
        Err(e) => Err(e),
        Ok(VmValue::IntegerPlace(p)) => Ok((p, start, end, step)),
        Ok(_) => Err(
            StepError::new(VmFaultCode::TypeMismatch, "FOR counter expects an integer place"),
        ),
    }
}

/// Starts a counting loop.
pub open spec fn for_start_step(
    vm: VmModel,
    fiber: FiberModel,
    at: At,
    policy: ExecutionPolicy,
) -> Step {
    let taken = for_operands(fiber.top().stack);
    let after = fiber.with_stack(taken.0);
    match taken.1 {
        Err(e) => fail(vm, after, e),
        Ok((counter, start, end, step)) => match places::write_place(
            vm,
            after,
            counter,
            Val::Integer(start),
        ) {
            Err(e) => fail(vm, after, fault::mapped(e)),
            Ok((vm1, fiber1)) => if !runs(start, end, step) {
                go(vm1, fiber1.with_top(pushed(fiber1.top(), Val::Integer(0))))
            } else {
                let bulk = fastpaths::bulk_loop(
                    vm1,
                    fiber1,
                    at.generation,
                    at.function,
                    at.instruction,
                    counter,
                    start,
                    end,
                    step,
                    policy,
                );
                match bulk.2 {
                    Err(e) => fail(bulk.0, bulk.1, e),
                    Ok(Some(n)) => (bulk.0, bulk.1, Ok(Outcome::BulkProgress(n))),
                    Ok(None) => go(
                        bulk.0,
                        bulk.1.with_top(
                            pushed(
                                FrameModel {
                                    for_loops: bulk.1.top().for_loops.push(
                                        LoopModel { counter, end, step },
                                    ),
                                    ..bulk.1.top()
                                },
                                Val::Integer(1),
                            ),
                        ),
                    ),
                }
            },
        },
    }
}

fn push_loop(loops: &mut Vec<ForLoopState>, state: ForLoopState)
    ensures
        state::loop_views(final(loops)@) == state::loop_views(old(loops)@).push(state@),
{
    loops.push(state);
    assert(state::loop_views(loops@) =~= state::loop_views(old(loops)@).push(state@));
}

fn pop_loop(loops: &mut Vec<ForLoopState>)
    requires
        old(loops)@.len() > 0,
    ensures
        state::loop_views(final(loops)@) == state::loop_views(old(loops)@).drop_last(),
{
    let _ = loops.pop();
    assert(state::loop_views(loops@) =~= state::loop_views(old(loops)@).drop_last());
}

impl Vm {
    fn step_for_start(
        &mut self,
        fiber: &mut Fiber,
        position: &InstructionPosition<'_>,
        policy: ExecutionPolicy,
    ) -> (r: Result<StepOutcome, StepError>)
        requires
            old(fiber)@.frames.len() > 0,
        ensures
            (final(self)@, final(fiber)@, fault::outcome(r)) == for_start_step(
                old(self)@,
                old(fiber)@,
                position@,
                policy,
            ),
    {
        let (counter, start, end, step) = match pop_for_operands(&mut fiber.top_mut().stack) {
            Ok(found) => found,
            Err(e) => {
                return Err(e);
            },
        };
        let depth: usize = fiber.frames.len();
        proof {
            places::law_write_keeps_frames(self@, fiber@, counter@, Val::Integer(start));
        }
        match self.write_place(fiber, &*counter, VmValue::Integer(start)) {
            Ok(_) => {},
            Err(e) => {
                return Err(fault::map_vm_error(e));
            },
        }
        if !still_runs(start, end, step) {
            push(&mut fiber.top_mut().stack, VmValue::Integer(0));
            return Ok(StepOutcome::Continue);
        }
        if step == 1 {
            match self.try_bulk_fill_loop(fiber, position, &*counter, start, end, step, policy) {
                Ok(Some(n)) => {
                    return Ok(StepOutcome::BulkProgress(n));
                },
                Ok(None) => {},
                Err(e) => {
                    return Err(e);
                },
            }
        }
        let top = fiber.top_mut();
        push_loop(&mut top.for_loops, ForLoopState { counter: *counter, end, step });
        push(&mut top.stack, VmValue::Integer(1));
        Ok(StepOutcome::Continue)
    }
}

/// What a loop does after a round.
pub open spec fn for_next_step(vm: VmModel, fiber: FiberModel) -> Step {
    let frame = fiber.top();
    if frame.for_loops.len() == 0 {
        fail(vm, fiber, Failure::invalid("NEXT has no active FOR loop"@))
    } else {
        let state = frame.for_loops.last();
        if state.is_bypassed() {
            go(
                vm,
                fiber.with_top(
                    pushed(
                        FrameModel { for_loops: frame.for_loops.drop_last(), ..frame },
                        Val::Integer(0),
                    ),
                ),
            )
        } else {
            match places::read_place(vm, fiber, state.counter) {
                Err(e) => fail(vm, fiber, fault::mapped(e)),
                Ok(Val::Integer(current)) => {
                    let next = current.wrapping_add(state.step);
                    match places::write_place(vm, fiber, state.counter, Val::Integer(next)) {
                        Err(e) => fail(vm, fiber, fault::mapped(e)),
                        Ok((vm1, fiber1)) => if runs(next, state.end, state.step) {
                            go(vm1, fiber1.with_top(pushed(fiber1.top(), Val::Integer(1))))
                        } else {
                            go(
                                vm1,
                                fiber1.with_top(
                                    pushed(
                                        FrameModel {
                                            for_loops: fiber1.top().for_loops.drop_last(),
                                            ..fiber1.top()
                                        },
                                        Val::Integer(0),
                                    ),
                                ),
                            )
                        },
                    }
                },
                Ok(_) => fail(vm, fiber, mismatch("FOR counter storage is not integer"@)),
            }
        }
    }
}

/// What leaving a loop early does.
pub open spec fn for_break_step(vm: VmModel, fiber: FiberModel) -> Step {
    let frame = fiber.top();
    if frame.for_loops.len() == 0 {
        fail(vm, fiber, Failure::invalid("BREAK has no active FOR loop"@))
    } else {
        let state = frame.for_loops.last();
        if state.is_bypassed() {
            go(
                vm,
                fiber.with_top(FrameModel { for_loops: frame.for_loops.drop_last(), ..frame }),
            )
        } else {
            match places::read_place(vm, fiber, state.counter) {
                Err(e) => fail(vm, fiber, fault::mapped(e)),
                Ok(Val::Integer(current)) => match places::write_place(
                    vm,
                    fiber,
                    state.counter,
                    Val::Integer(current.wrapping_add(state.step)),
                ) {
                    Err(e) => fail(vm, fiber, fault::mapped(e)),
                    Ok((vm1, fiber1)) => go(
                        vm1,
                        fiber1.with_top(
                            FrameModel {
                                for_loops: fiber1.top().for_loops.drop_last(),
                                ..fiber1.top()
                            },
                        ),
                    ),
                },
                Ok(_) => fail(vm, fiber, mismatch("FOR counter storage is not integer"@)),
            }
        }
    }
}

impl Vm {
    /// Moves a loop counter on by one step; answers the new count.
    fn advance_counter(&mut self, fiber: &mut Fiber, state: &ForLoopState) -> (r: Result<
        i64,
        StepError,
    >)
        requires
            old(fiber)@.frames.len() > 0,
        ensures
            match places::read_place(old(self)@, old(fiber)@, state@.counter) {
                Err(e) => fault::outcome(r) == Err::<i64, Failure>(fault::mapped(e)) && final(self)@ == old(self)@ && final(fiber)@ == old(fiber)@,
                Ok(Val::Integer(current)) => {
                    let next = current.wrapping_add(state.step);
                    match places::write_place(
                        old(self)@,
                        old(fiber)@,
                        state@.counter,
                        Val::Integer(next),
                    ) {
                        Err(e) => fault::outcome(r) == Err::<i64, Failure>(fault::mapped(e))
                            && final(self)@ == old(self)@ && final(fiber)@ == old(fiber)@,
                        Ok((v, f)) => r == Ok::<i64, StepError>(next) && final(self)@ == v && final(fiber)@ == f && f.frames.len() == old(fiber)@.frames.len()
                            && places::same_but_locals(f.top(), old(fiber)@.top()),
                    }
                },
                Ok(_) => fault::outcome(r) == Err::<i64, Failure>(
                    mismatch("FOR counter storage is not integer"@),
                ) && final(self)@ == old(self)@ && final(fiber)@ == old(fiber)@,
            },
    {
        let current: i64 = match self.read_place(&*fiber, &state.counter) {
            Err(e) => {
                return Err(fault::map_vm_error(e));
            },
            Ok(VmValue::Integer(n)) => n,
            Ok(_) => {
                return Err(
                    StepError::new(
                        VmFaultCode::TypeMismatch,
                        "FOR counter storage is not integer",
                    ),
                );
            },
        };
        let next: i64 = current.wrapping_add(state.step);
        let depth: usize = fiber.frames.len();
        proof {
            places::law_write_keeps_frames(self@, fiber@, state@.counter, Val::Integer(next));
        }
        match self.write_place(fiber, &state.counter, VmValue::Integer(next)) {
            Ok(_) => Ok(next),
            Err(e) => Err(fault::map_vm_error(e)),
        }
    }

    fn step_for_next(&mut self, fiber: &mut Fiber) -> (r: Result<StepOutcome, StepError>)
        requires
            old(fiber)@.frames.len() > 0,
        ensures
            (final(self)@, final(fiber)@, fault::outcome(r)) == for_next_step(
                old(self)@,
                old(fiber)@,
            ),
    {
        let n: usize = fiber.top().for_loops.len();
        if n == 0 {
            return Err(
                StepError::new(VmFaultCode::InvalidInstruction, "NEXT has no active FOR loop"),
            );
        }
        let state = fiber.top().for_loops[n - 1].clone();
        assert(state@ == fiber@.top().for_loops.last());
        if state.is_bypassed() {
            let top = fiber.top_mut();
            pop_loop(&mut top.for_loops);
            push(&mut top.stack, VmValue::Integer(0));
            return Ok(StepOutcome::Continue);
        }
        let next: i64 = match self.advance_counter(fiber, &state) {
            Ok(n) => n,
            Err(e) => {
                return Err(e);
            },
        };
        let active: bool = still_runs(next, state.end, state.step);
        let top = fiber.top_mut();
        if !active {
            pop_loop(&mut top.for_loops);
        }
        push(&mut top.stack, operand::truth_value(active));
        Ok(StepOutcome::Continue)
    }

    fn step_for_break(&mut self, fiber: &mut Fiber) -> (r: Result<StepOutcome, StepError>)
        requires
            old(fiber)@.frames.len() > 0,
        ensures
            (final(self)@, final(fiber)@, fault::outcome(r)) == for_break_step(
                old(self)@,
                old(fiber)@,
            ),
    {
        let n: usize = fiber.top().for_loops.len();
        if n == 0 {
            return Err(
                StepError::new(VmFaultCode::InvalidInstruction, "BREAK has no active FOR loop"),
            );
        }
        let state = fiber.top().for_loops[n - 1].clone();
        assert(state@ == fiber@.top().for_loops.last());
        if !state.is_bypassed() {
            match self.advance_counter(fiber, &state) {
                Ok(_) => {},
                Err(e) => {
                    return Err(e);
                },
            }
        }
        let top = fiber.top_mut();
        pop_loop(&mut top.for_loops);
        Ok(StepOutcome::Continue)
    }
}

/// Opens a selection over the top value.
pub open spec fn select_start_step(frame: FrameModel) -> FrameStep {
    if frame.stack.len() == 0 {
        (frame, Err(operand::underflow()))
    } else {
        (
            FrameModel {
                stack: frame.stack.drop_last(),
                select_values: frame.select_values.push(frame.stack.last()),
                ..frame
            },
            Ok(()),
        )
    }
}

fn step_select_start(frame: &mut Frame) -> (r: Result<(), StepError>)
    ensures
        (final(frame)@, fault::outcome(r)) == select_start_step(old(frame)@),
{
    match operand::pop(&mut frame.stack) {
        Ok(v) => {
            push(&mut frame.select_values, v);
            Ok(())
        },
        Err(e) => Err(e),
    }
}

/// Closes the innermost selection.
pub open spec fn select_end_step(frame: FrameModel) -> FrameStep {
    if frame.select_values.len() == 0 {
        (frame, Err(Failure::invalid("ENDSELECT is outside SELECTCASE"@)))
    } else {
        (FrameModel { select_values: frame.select_values.drop_last(), ..frame }, Ok(()))
    }
}

fn step_select_end(frame: &mut Frame) -> (r: Result<(), StepError>)
    ensures
        (final(frame)@, fault::outcome(r)) == select_end_step(old(frame)@),
{
    match operand::pop(&mut frame.select_values) {
        Ok(_) => Ok(()),
        Err(_) => Err(
            StepError::new(VmFaultCode::InvalidInstruction, "ENDSELECT is outside SELECTCASE"),
        ),
    }
}

/// Takes values off a stack one by one until it is empty.
pub open spec fn dropped(stack: Seq<Val>, n: nat) -> (Seq<Val>, Result<(), Failure>) {
    if n <= stack.len() {
        (stack.take(stack.len() - n), Ok(()))
    } else {
        (Seq::empty(), Err(operand::underflow()))
    }
}

fn drop_values(stack: &mut Vec<VmValue>, n: usize) -> (r: Result<(), StepError>)
    ensures
        (value::vals(final(stack)@), fault::outcome(r)) == dropped(
            value::vals(old(stack)@),
            n as nat,
        ),
{
    let length: usize = stack.len();
    if n <= length {
        stack.truncate(length - n);
        assert(value::vals(stack@) =~= value::vals(old(stack)@).take(length - n));
        Ok(())
    } else {
        stack.clear();
        assert(value::vals(stack@) =~= Seq::<Val>::empty());
        Err(StepError::new(VmFaultCode::StackUnderflow, "operand stack underflow"))
    }
}

/// The operator behind a simple CASE comparison.
pub open spec fn case_operator(operation: u8) -> Option<u8> {
    if operation == 0 {
        Some(11)
    } else if operation == 1 {
        Some(12)
    } else if operation == 2 {
        Some(7)
    } else if operation == 3 {
        Some(8)
    } else if operation == 4 {
        Some(9)
    } else if operation == 5 {
        Some(10)
    } else if operation == 7 {
        Some(13)
    } else {
        None
    }
}

/// A value counts as true.
pub open spec fn is_true(v: Val) -> bool {
    v matches Val::Integer(n) && n != 0
}

/// Whether the selected value lies between two values.
pub open spec fn in_case_range(selector: Val, lower: Val, upper: Val) -> Result<bool, Failure> {
    match operand::binary(10, selector, lower) {
        Err(e) => Err(e),
        Ok(a) => match operand::binary(8, selector, upper) {
            Err(e) => Err(e),
            Ok(b) => Ok(is_true(a) && is_true(b)),
        },
    }
}

/// Whether a CASE matches the selected value, with the stack behind its operands.
pub open spec fn case_match(stack: Seq<Val>, selector: Val, operation: u8) -> (Seq<Val>, Result<
    bool,
    Failure,
>) {
    if operation == 8 {
        (stack, Ok(true))
    } else if stack.len() == 0 {
        (stack, Err(operand::underflow()))
    } else if operation == 6 {
        if stack.len() == 1 {
            (stack.drop_last(), Err(operand::underflow()))
        } else {
            (
                stack.drop_last().drop_last(),
                in_case_range(selector, stack.drop_last().last(), stack.last()),
            )
        }
    } else {
        (
            stack.drop_last(),
            match case_operator(operation) {
                None => Err(Failure::invalid("unknown CASE comparison operation"@)),
                Some(tag) => match operand::binary(tag, selector, stack.last()) {
                    Ok(v) => Ok(is_true(v)),
                    Err(e) => Err(e),
                },
            },
        )
    }
}

/// Compares the selected value with one CASE.
pub open spec fn select_compare_step(frame: FrameModel, payload: Seq<u8>) -> FrameStep {
    match operator_of(payload, "CASE comparison operation is missing"@) {
        Err(e) => (frame, Err(e)),
        Ok(operation) => if frame.select_values.len() == 0 {
            (frame, Err(Failure::invalid("CASE is outside SELECTCASE"@)))
        } else if frame.select_values.last() == state::bypassed_select() {
            let taken = dropped(
                frame.stack,
                if operation == 6 {
                    2
                } else if operation == 8 {
                    0
                } else {
                    1
                },
            );
            let rest = restacked(frame, taken.0);
            match taken.1 {
                Ok(_) => (pushed(rest, Val::Integer(0)), Ok(())),
                Err(e) => (rest, Err(e)),
            }
        } else {
            let taken = case_match(frame.stack, frame.select_values.last(), operation);
            let rest = restacked(frame, taken.0);
            match taken.1 {
                Ok(b) => (pushed(rest, operand::truth(b)), Ok(())),
                Err(e) => (rest, Err(e)),
            }
        },
    }
}

fn value_is_true(v: &VmValue) -> (r: bool)
    ensures
        r == is_true(v@),
{
    match v {
        VmValue::Integer(n) => *n != 0,
        _ => false,
    }
}

fn match_case(stack: &mut Vec<VmValue>, selector: &VmValue, operation: u8) -> (r: Result<
    bool,
    StepError,
>)
    ensures
        (value::vals(final(stack)@), fault::outcome(r)) == case_match(
            value::vals(old(stack)@),
            selector@,
            operation,
        ),
{
    if operation == 8 {
        return Ok(true);
    }
    let first = match operand::pop(stack) {
        Ok(v) => v,
        Err(e) => {
            return Err(e);
        },
    };
    if operation == 6 {
        let lower = match operand::pop(stack) {
            Ok(v) => v,
            Err(e) => {
                return Err(e);
            },
        };
        let a = match operand::binary_value(10, selector.clone(), lower) {
            Ok(v) => v,
            Err(e) => {
                return Err(e);
            },
        };
        let b = match operand::binary_value(8, selector.clone(), first) {
            Ok(v) => v,
            Err(e) => {
                return Err(e);
            },
        };
        return Ok(value_is_true(&a) && value_is_true(&b));
    }
    let tag: u8 = match operation {
        0 => 11,
        1 => 12,
        2 => 7,
        3 => 8,
        4 => 9,
        5 => 10,
        7 => 13,
        _ => {
            return Err(
                StepError::new(
                    VmFaultCode::InvalidInstruction,
                    "unknown CASE comparison operation",
                ),
            );
        },
    };
    match operand::binary_value(tag, selector.clone(), first) {
        Ok(v) => Ok(value_is_true(&v)),
        Err(e) => Err(e),
    }
}

fn step_select_compare(frame: &mut Frame, payload: &[u8]) -> (r: Result<(), StepError>)
    ensures
        (final(frame)@, fault::outcome(r)) == select_compare_step(old(frame)@, payload@),
{
    let operation: u8 = match read_operator(payload, "CASE comparison operation is missing") {
        Ok(o) => o,
        Err(e) => {
            return Err(e);
        },
    };
    let n: usize = frame.select_values.len();
    if n == 0 {
        return Err(StepError::new(VmFaultCode::InvalidInstruction, "CASE is outside SELECTCASE"));
    }
    let selector = frame.select_values[n - 1].clone();
    assert(selector@ == frame@.select_values.last());
    let nothing = VmValue::IntegerPlace(
        Box::new(PlaceDescriptor::of_variable(value::SymbolKey(0))),
    );
    if value::same_value(&selector, &nothing) {
        let operands: usize = match operation {
            6 => 2,
            8 => 0,
            _ => 1,
        };
        match drop_values(&mut frame.stack, operands) {
            Ok(_) => {},
            Err(e) => {
                return Err(e);
            },
        }
        push(&mut frame.stack, VmValue::Integer(0));
        return Ok(());
    }
    match match_case(&mut frame.stack, &selector, operation) {
        Ok(b) => {
            push(&mut frame.stack, operand::truth_value(b));
            Ok(())
        },
        Err(e) => Err(e),
    }
}

/// Goes on at a target.
pub open spec fn taken_jump(vm: VmModel, fiber: FiberModel, at: At, target: usize) -> Step {
    let (frame, entered) = fastpaths::jumped(
        vm,
        fiber.top(),
        at.generation,
        at.function,
        at.instruction,
        target,
    );
    let after = FiberModel {
        backward: if target <= at.instruction {
            fastpaths::saturated(fiber.backward + 1)
        } else {
            fiber.backward
        },
        ..fiber.with_top(FrameModel { instruction: target, ..frame })
    };
    (
        vm,
        after,
        Ok(
            if entered {
                state::structured_goto()
            } else {
                Outcome::Continue
            },
        ),
    )
}

/// A jump, conditional or not.
pub open spec fn jump_step(vm: VmModel, fiber: FiberModel, at: At, opcode: Opcode) -> Step {
    match operand::u32_at(at.payload, 0) {
        Err(e) => fail(vm, fiber, e),
        Ok(target) => if opcode is JumpIfFalse {
            let taken = operand::popped_integer(
                fiber.top().stack,
                "conditional jump expects an integer"@,
            );
            let after = fiber.with_stack(taken.0);
            match taken.1 {
                Err(e) => fail(vm, after, e),
                Ok(condition) => if condition == 0 {
                    taken_jump(vm, after, at, target as usize)
                } else {
                    go(vm, after)
                },
            }
        } else {
            taken_jump(vm, fiber, at, target as usize)
        },
    }
}

impl Vm {
    fn step_jump(
        &mut self,
        fiber: &mut Fiber,
        position: &InstructionPosition<'_>,
        opcode: Opcode,
    ) -> (r: Result<StepOutcome, StepError>)
        requires
            old(fiber)@.frames.len() > 0,
        ensures
            (final(self)@, final(fiber)@, fault::outcome(r)) == jump_step(
                old(self)@,
                old(fiber)@,
                position@,
                opcode,
            ),
    {
        let target: usize = match operand::read_u32(position.payload, 0) {
            Ok(n) => n as usize,
            Err(e) => {
                return Err(e);
            },
        };
        if opcode == Opcode::JumpIfFalse {
            match operand::pop_integer(
                &mut fiber.top_mut().stack,
                "conditional jump expects an integer",
            ) {
                Ok(n) => {
                    if n != 0 {
                        return Ok(StepOutcome::Continue);
                    }
                },
                Err(e) => {
                    return Err(e);
                },
            }
        }
        let entered: bool = self.reconcile_structured_jump(fiber, position, target);
        if target <= position.instruction {
            fiber.backward_branches_without_progress =
                fiber.backward_branches_without_progress.saturating_add(1);
        }
        let top = fiber.top_mut();
        top.instruction = target;
        if entered {
            return Ok(
                StepOutcome::Diagnostic {
                    code: STRUCTURED_GOTO_DIAGNOSTIC_CODE,
                    message: STRUCTURED_GOTO_DIAGNOSTIC_MESSAGE,
                    notification: VmDiagnosticNotification::LogOnly,
                },
            );
        }
        Ok(StepOutcome::Continue)
    }
}

/// What a step of this family does; nothing for other operations.
pub open spec fn basic(
    vm: VmModel,
    fiber: FiberModel,
    at: At,
    opcode: Opcode,
    policy: ExecutionPolicy,
) -> Option<Step> {
    match opcode {
        Opcode::Nop => Some(go(vm, fiber)),
        Opcode::PushInteger => Some(framed(vm, fiber, push_integer(fiber.top(), at.payload))),
        Opcode::PushString => Some(framed(vm, fiber, push_string(fiber.top(), at.payload))),
        Opcode::LoadVariable | Opcode::StoreVariable | Opcode::MakePlace => Some(
            variable_step(vm, fiber, at, opcode),
        ),
        Opcode::Unary => Some(framed(vm, fiber, unary_step(fiber.top(), at.payload))),
        Opcode::Binary => Some(framed(vm, fiber, binary_step(fiber.top(), at.payload))),
        Opcode::ToString => Some(to_string_step(vm, fiber)),
        Opcode::Pop => Some(framed(vm, fiber, pop_step(fiber.top()))),
        Opcode::Dup => Some(framed(vm, fiber, dup_step(fiber.top()))),
        Opcode::StorePlace => Some(store_place_step(vm, fiber)),
        Opcode::Concat => Some(framed(vm, fiber, concat_step(fiber.top(), at.payload))),
        Opcode::ForStart => Some(for_start_step(vm, fiber, at, policy)),
        Opcode::ForNext => Some(for_next_step(vm, fiber)),
        Opcode::ForBreak => Some(for_break_step(vm, fiber)),
        Opcode::SelectStart => Some(framed(vm, fiber, select_start_step(fiber.top()))),
        Opcode::SelectCompare => Some(
            framed(vm, fiber, select_compare_step(fiber.top(), at.payload)),
        ),
        Opcode::SelectEnd => Some(framed(vm, fiber, select_end_step(fiber.top()))),
        Opcode::Jump | Opcode::JumpIfFalse => Some(jump_step(vm, fiber, at, opcode)),
        _ => None,
    }
}

/// The state and the outcome of dispatching to a family.
pub open spec fn dispatched(vm: VmModel, fiber: FiberModel, step: Option<Step>) -> (
    VmModel,
    FiberModel,
    Result<Option<Outcome>, Failure>,
) {
    if fiber.frames.len() == 0 {
        (vm, fiber, Err(Failure::invalid("missing frame"@)))
    } else {
        match step {
            None => (vm, fiber, Ok(None)),
            Some((v, f, Ok(o))) => (v, f, Ok(Some(o))),
            Some((v, f, Err(e))) => (v, f, Err(e)),
        }
    }
}

fn continued(r: Result<(), StepError>) -> (s: Result<StepOutcome, StepError>)
    ensures
        fault::outcome(s) == match fault::outcome(r) {
            Ok(_) => Ok::<Outcome, Failure>(Outcome::Continue),
            Err(e) => Err(e),
        },
{
    match r {
        Ok(_) => Ok(StepOutcome::Continue),
        Err(e) => Err(e),
    }
}

impl Vm {
    /// Executes one operation of this family on the running frame.
    pub fn dispatch_basic(
        &mut self,
        fiber: &mut Fiber,
        position: &InstructionPosition<'_>,
        opcode: Opcode,
        policy: ExecutionPolicy,
    ) -> (r: Result<Option<StepOutcome>, StepError>)
        ensures
            (final(self)@, final(fiber)@, state::step_result(r)) == dispatched(
                old(self)@,
                old(fiber)@,
                basic(old(self)@, old(fiber)@, position@, opcode, policy),
            ),
    {
        if fiber.frames.len() == 0 {
            return Err(StepError::new(VmFaultCode::InvalidInstruction, "missing frame"));
        }
        let payload = position.payload;
        let r = match opcode {
            Opcode::Nop => Ok(StepOutcome::Continue),
            Opcode::PushInteger => continued(step_push_integer(fiber.top_mut(), payload)),
            Opcode::PushString => continued(step_push_string(fiber.top_mut(), payload)),
            Opcode::LoadVariable | Opcode::StoreVariable | Opcode::MakePlace => self.step_variable(
                fiber,
                position,
                opcode,
            ),
            Opcode::Unary => continued(step_unary(fiber.top_mut(), payload)),
            Opcode::Binary => continued(step_binary(fiber.top_mut(), payload)),
            Opcode::ToString => self.step_to_string(fiber),
            Opcode::Pop => continued(step_pop(fiber.top_mut())),
            Opcode::Dup => continued(step_dup(fiber.top_mut())),
            Opcode::StorePlace => self.step_store_place(fiber),
            Opcode::Concat => continued(step_concat(fiber.top_mut(), payload)),
            Opcode::ForStart => self.step_for_start(fiber, position, policy),
            Opcode::ForNext => self.step_for_next(fiber),
            Opcode::ForBreak => self.step_for_break(fiber),
            Opcode::SelectStart => continued(step_select_start(fiber.top_mut())),
            Opcode::SelectCompare => continued(step_select_compare(fiber.top_mut(), payload)),
            Opcode::SelectEnd => continued(step_select_end(fiber.top_mut())),
            Opcode::Jump | Opcode::JumpIfFalse => self.step_jump(fiber, position, opcode),
            _ => {
                return Ok(None);
            },
        };
        match r {
            Ok(o) => Ok(Some(o)),
            Err(e) => Err(e),
        }
    }
}

} // verus!
