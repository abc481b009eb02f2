//! The catch boundary of EXISTVAR's second source evaluation.

use vstd::prelude::*;
use crate::basic::{self, Step};
use crate::fault::{self, Failure, StepError, VmFaultCode};
use crate::operand;
use crate::program::{BytecodeGlobal, Opcode};
use crate::state::{
    self, At, ExistVarCheckpoint, Fiber, FiberModel, Frame, FrameModel, InstructionPosition,
    Outcome, StepOutcome, Vm, VmModel,
};
use crate::value::{self, BytecodeType, FrameId, GenerationId, SymbolKey, Val, VmValue};

verus! {

/// Where a caught failure goes on.
#[derive(Clone, Copy, PartialEq, Eq, Debug, Structural)]
pub struct ExistVarCatchTarget {
    pub owner: FrameId,
    pub generation: GenerationId,
    pub function: SymbolKey,
    pub begin: usize,
    pub failure: usize,
    pub stack_index: usize,
    pub user_calls: usize,
}

/// A malformed instruction or state.
pub fn invalid(message: &str) -> (r: StepError)
    ensures
        r@ == Failure::invalid(message@),
{
    StepError::new(VmFaultCode::InvalidInstruction, message)
}

/// What a variable is, in bits: type, constness and rank.
pub open spec fn name_flags(g: BytecodeGlobal) -> Result<i64, Failure> {
    let constant: i64 = if g.mutable {
        0
    } else {
        4
    };
    let rank: i64 = if g.dimensions@.len() == 2 {
        8
    } else if g.dimensions@.len() == 3 {
        16
    } else {
        0
    };
    match g.value_type {
        BytecodeType::Integer => Ok((1 + constant + rank) as i64),
        BytecodeType::String => Ok((2 + constant + rank) as i64),
        _ => Err(Failure::invalid("variable declaration has a non-scalar type"@)),
    }
}

/// What a name is inside a function; zero where it is no variable.
pub open spec fn flags_of(
    vm: VmModel,
    generation: GenerationId,
    function: SymbolKey,
    source: Seq<char>,
) -> Result<i64, Failure> {
    match vm.program(generation) {
        None => Err(Failure::invalid("EXISTVAR generation missing"@)),
        Some(program) => match program.spec_scoped_variable(function, source) {
            None => Ok(0),
            Some(g) => name_flags(*g),
        },
    }
}

/// Tells what a name is inside a function.
pub fn variable_name_flags(
    vm: &Vm,
    generation: GenerationId,
    function: SymbolKey,
    source: &str,
) -> (r: Result<i64, StepError>)
    ensures
        fault::outcome(r) == flags_of(vm@, generation, function, source@),
{
    let program = match vm.program(generation) {
        None => {
            return Err(invalid("EXISTVAR generation missing"));
        },
        Some(p) => p,
    };
    let g = match program.scoped_variable(function, source) {
        None => {
            return Ok(0);
        },
        Some(g) => g,
    };
    let constant: i64 = if g.mutable {
        0
    } else {
        4
    };
    let rank: i64 = match g.dimensions.len() {
        2 => 8,
        3 => 16,
        _ => 0,
    };
    match g.value_type {
        BytecodeType::Integer => Ok(1 + constant + rank),
        BytecodeType::String => Ok(2 + constant + rank),
        _ => Err(invalid("variable declaration has a non-scalar type")),
    }
}

/// The stack value that stands for an open probe.
pub open spec fn token_of(begin: usize) -> Result<Val, Failure> {
    if begin <= i64::MAX {
        Ok(Val::Integer(begin as i64))
    } else {
        Err(Failure::invalid("probe origin exceeds i64"@))
    }
}

/// Makes the stack value that stands for an open probe.
pub fn probe_token(begin: usize) -> (r: Result<VmValue, StepError>)
    ensures
        fault::outcome(r) == token_of(begin),
{
    if begin as u128 <= i64::MAX as u128 {
        Ok(VmValue::Integer(begin as i64))
    } else {
        Err(invalid("probe origin exceeds i64"))
    }
}

/// A stack holds a value at a position.
pub open spec fn holds(stack: Seq<Val>, at: int, v: Val) -> bool {
    at < stack.len() && stack[at] == v
}

fn stack_holds(stack: &Vec<VmValue>, at: usize, v: &VmValue) -> (r: bool)
    ensures
        r == holds(value::vals(stack@), at as int, v@),
{
    at < stack.len() && value::same_value(&stack[at], v)
}

pub open spec fn probe_differs() -> Failure {
    Failure::invalid("probe completion identity/phase/stack differs"@)
}

/// Ends an open probe; `probe` tells how evaluating the source on top of the stack went.
pub open spec fn finish_probe(
    frame: FrameModel,
    at: At,
    probe: Result<(), Failure>,
) -> basic::FrameStep {
    match operand::u32_at(at.payload, 0) {
        Err(e) => (frame, Err(e)),
        Ok(begin) => if at.payload.len() <= 4 {
            (frame, Err(Failure::invalid("probe phase missing"@)))
        } else if frame.existvar_checks.len() == 0 {
            (frame, Err(Failure::invalid("probe checkpoint missing"@)))
        } else {
            let caught = at.payload[4];
            let check = frame.existvar_checks.last();
            if check.begin != begin || check.caught != (caught == 1) || caught > 1
                || frame.stack.len() != check.stack_index + if caught == 1 {
                1int
            } else {
                2int
            } {
                (frame, Err(probe_differs()))
            } else {
                match token_of(begin as usize) {
                    Err(e) => (frame, Err(e)),
                    Ok(token) => if !holds(frame.stack, check.stack_index as int, token) || (caught
                        == 1 && check.failure != at.instruction) {
                        (frame, Err(probe_differs()))
                    } else if caught == 0 && !(frame.stack.last() is Text) {
                        (frame, Err(Failure::invalid("parse probe source is not String"@)))
                    } else if caught == 0 && probe is Err {
                        (frame, probe)
                    } else {
                        (
                            FrameModel {
                                existvar_checks: frame.existvar_checks.drop_last(),
                                stack: frame.stack.take(check.stack_index as int).push(
                                    operand::truth(caught == 0),
                                ),
                                ..frame
                            },
                            Ok(()),
                        )
                    },
                }
            }
        },
    }
}

fn finish_frame_probe(
    frame: &mut Frame,
    position: &InstructionPosition<'_>,
    probe: Result<(), StepError>,
) -> (r: Result<(), StepError>)
    ensures
        (final(frame)@, fault::outcome(r)) == finish_probe(
            old(frame)@,
            position@,
            fault::outcome(probe),
        ),
{
    let begin: usize = match operand::read_u32(position.payload, 0) {
        Ok(n) => n as usize,
        Err(e) => {
            return Err(e);
        },
    };
    if position.payload.len() <= 4 {
        return Err(invalid("probe phase missing"));
    }
    let caught: u8 = position.payload[4];
    let checks: usize = frame.existvar_checks.len();
    if checks == 0 {
        return Err(invalid("probe checkpoint missing"));
    }
    let check = frame.existvar_checks[checks - 1];
    let extra: u128 = if caught == 1 {
        1
    } else {
        2
    };
    if check.begin != begin || check.caught != (caught == 1) || caught > 1 || frame.stack.len()
        as u128 != check.stack_index as u128 + extra {
        return Err(invalid("probe completion identity/phase/stack differs"));
    }
    let token = match probe_token(begin) {
        Ok(t) => t,
        Err(e) => {
            return Err(e);
        },
    };
    if !stack_holds(&frame.stack, check.stack_index, &token) || (caught == 1 && check.failure
        != position.instruction) {
        return Err(invalid("probe completion identity/phase/stack differs"));
    }
    if caught == 0 {
        match &frame.stack[frame.stack.len() - 1] {
            VmValue::String(_) => {},
            _ => {
                return Err(invalid("parse probe source is not String"));
            },
        }
        match probe {
            Ok(_) => {},
            Err(e) => {
                return Err(e);
            },
        }
    }
    let _ = frame.existvar_checks.pop();
    frame.stack.truncate(check.stack_index);
    frame.stack.push(operand::truth_value(caught == 0));
    proof {
        assert(frame@.existvar_checks =~= old(frame)@.existvar_checks.drop_last());
        assert(frame@.stack =~= old(frame)@.stack.take(check.stack_index as int).push(
            operand::truth(caught == 0),
        ));
    }
    Ok(())
}

/// Opens a probe.
pub open spec fn begin_probe(vm: VmModel, frame: FrameModel, at: At) -> basic::FrameStep {
    match vm.program(at.generation) {
        None => (frame, Err(Failure::invalid("probe generation missing"@))),
        Some(program) => if !program.existvar_expression_probe {
            (frame, Err(Failure::invalid("EXISTVAR mode is unavailable in this identity"@)))
        } else if frame.operand_slots() + 2 > vm.config.maximum_operand_stack {
            (
                frame,
                Err(
                    Failure::of(
                        VmFaultCode::ResourceLimit,
                        "EXISTVAR checkpoint operand limit"@,
                    ),
                ),
            )
        } else {
            match operand::u32_at(at.payload, 0) {
                Err(e) => (frame, Err(e)),
                Ok(failure) => match token_of(at.instruction) {
                    Err(e) => (frame, Err(e)),
                    Ok(token) => (
                        FrameModel {
                            stack: frame.stack.push(token),
                            existvar_checks: frame.existvar_checks.push(
                                ExistVarCheckpoint {
                                    begin: at.instruction,
                                    failure: failure as usize,
                                    stack_index: frame.stack.len() as usize,
                                    user_calls: frame.user_calls.len() as usize,
                                    caught: false,
                                },
                            ),
                            ..frame
                        },
                        Ok(()),
                    ),
                },
            }
        },
    }
}

/// Tells what the name on top of the stack is.
pub open spec fn probe_name(vm: VmModel, frame: FrameModel, at: At) -> basic::FrameStep {
    if frame.stack.len() == 0 {
        (frame, Err(operand::underflow()))
    } else {
        let rest = basic::restacked(frame, frame.stack.drop_last());
        match frame.stack.last() {
            Val::Text(source) => match flags_of(vm, at.generation, at.function, source) {
                Ok(n) => (basic::pushed(rest, Val::Integer(n)), Ok(())),
                Err(e) => (rest, Err(e)),
            },
            _ => (rest, Err(Failure::invalid("name probe source is not String"@))),
        }
    }
}

/// The end of a probe: the operand is read before the frame that owns the probe is asked for.
pub open spec fn probe_finished(fiber: FiberModel, at: At, probe: Result<(), Failure>) -> (
    FiberModel,
    Result<(), Failure>,
) {
    if fiber.frames.len() == 0 {
        (
            fiber,
            match operand::u32_at(at.payload, 0) {
                Err(e) => Err(e),
                Ok(_) => if at.payload.len() <= 4 {
                    Err(Failure::invalid("probe phase missing"@))
                } else {
                    Err(Failure::invalid("probe owner missing"@))
                },
            },
        )
    } else {
        let step = finish_probe(fiber.top(), at, probe);
        (fiber.with_top(step.0), step.1)
    }
}

/// The failure of a step on a fiber without a frame: what each operation asks for before the frame
/// comes first.
pub open spec fn ownerless(vm: VmModel, fiber: FiberModel, at: At, opcode: Opcode) -> Failure {
    match opcode {
        Opcode::BeginExistVarProbe => match vm.program(at.generation) {
            None => Failure::invalid("probe generation missing"@),
            Some(program) => if !program.existvar_expression_probe {
                Failure::invalid("EXISTVAR mode is unavailable in this identity"@)
            } else {
                Failure::invalid("probe owner missing"@)
            },
        },
        Opcode::FinishExistVarProbe => probe_finished(fiber, at, Ok(())).1->Err_0,
        _ => Failure::invalid("probe owner missing"@),
    }
}

/// What a step of this family does; nothing for other operations.
pub open spec fn existvar(
    vm: VmModel,
    fiber: FiberModel,
    at: At,
    opcode: Opcode,
    probe: Result<(), Failure>,
) -> Option<Step> {
    if !(opcode is ProbeVariableName || opcode is BeginExistVarProbe
        || opcode is FinishExistVarProbe) {
        None
    } else {
        let vm1 = vm.without_path_memo(fiber.id);
        if fiber.frames.len() == 0 {
            Some(basic::fail(vm1, fiber, ownerless(vm1, fiber, at, opcode)))
        } else {
            Some(
                basic::framed(
                    vm1,
                    fiber,
                    match opcode {
                        Opcode::ProbeVariableName => probe_name(vm1, fiber.top(), at),
                        Opcode::BeginExistVarProbe => begin_probe(vm1, fiber.top(), at),
                        _ => finish_probe(fiber.top(), at, probe),
                    },
                ),
            )
        }
    }
}

/// The outcome of a family that names its own missing frame.
pub open spec fn answered(vm: VmModel, fiber: FiberModel, step: Option<Step>) -> (
    VmModel,
    FiberModel,
    Result<Option<Outcome>, Failure>,
) {
    match step {
        None => (vm, fiber, Ok(None)),
        Some((v, f, Ok(o))) => (v, f, Ok(Some(o))),
        Some((v, f, Err(e))) => (v, f, Err(e)),
    }
}

impl Vm {
    /// Ends the open probe of the running frame.
    pub fn finish_existvar_probe(
        &self,
        fiber: &mut Fiber,
        position: &InstructionPosition<'_>,
        probe: Result<(), StepError>,
    ) -> (r: Result<(), StepError>)
        ensures
            (final(fiber)@, fault::outcome(r)) == probe_finished(
                old(fiber)@,
                position@,
                fault::outcome(probe),
            ),
    {
        if fiber.frames.len() == 0 {
            let payload = position.payload;
            match operand::read_u32(payload, 0) {
                Err(e) => {
                    return Err(e);
                },
                Ok(_) => {},
            }
            if payload.len() <= 4 {
                return Err(invalid("probe phase missing"));
            }
            return Err(invalid("probe owner missing"));
        }
        finish_frame_probe(fiber.top_mut(), position, probe)
    }

    /// Executes one operation of this family on the running frame. `probe` tells how evaluating the
    /// source on top of the stack went; only the end of an uncaught probe asks for it.
    pub fn dispatch_existvar(
        &mut self,
        fiber: &mut Fiber,
        position: &InstructionPosition<'_>,
        opcode: Opcode,
        probe: Result<(), StepError>,
    ) -> (r: Result<Option<StepOutcome>, StepError>)
        ensures
            (final(self)@, final(fiber)@, state::step_result(r)) == answered(
                old(self)@,
                old(fiber)@,
                existvar(
                    old(self)@,
                    old(fiber)@,
                    position@,
                    opcode,
                    fault::outcome(probe),
                ),
            ),
    {
        match opcode {
            Opcode::ProbeVariableName
            | Opcode::BeginExistVarProbe
            | Opcode::FinishExistVarProbe => {},
            _ => {
                return Ok(None);
            },
        }
        self.invalidate_path_memo(fiber.id);
        if fiber.frames.len() == 0 {
            return match opcode {
                Opcode::BeginExistVarProbe => match self.program(position.generation) {
                    None => Err(invalid("probe generation missing")),
                    Some(program) => if !program.existvar_expression_probe {
                        Err(invalid("EXISTVAR mode is unavailable in this identity"))
                    } else {
                        Err(invalid("probe owner missing"))
                    },
                },
                Opcode::FinishExistVarProbe => match self.finish_existvar_probe(
                    fiber,
                    position,
                    probe,
                ) {
                    Ok(_) => Ok(Some(StepOutcome::Continue)),
                    Err(e) => Err(e),
                },
                _ => Err(invalid("probe owner missing")),
            };
        }
        let r = match opcode {
            Opcode::ProbeVariableName => self.step_probe_name(fiber, position),
            Opcode::BeginExistVarProbe => self.step_begin_probe(fiber, position),
            _ => self.finish_existvar_probe(fiber, position, probe),
        };
        match r {
            Ok(_) => Ok(Some(StepOutcome::Continue)),
            Err(e) => Err(e),
        }
    }

    fn step_probe_name(&self, fiber: &mut Fiber, position: &InstructionPosition<'_>) -> (r: Result<
        (),
        StepError,
    >)
        requires
            old(fiber)@.frames.len() > 0,
        ensures
            ({
                let step = probe_name(self@, old(fiber)@.top(), position@);
                &&& final(fiber)@ == old(fiber)@.with_top(step.0)
                &&& fault::outcome(r) == step.1
            }),
    {
        let frame = fiber.top_mut();
        let source = match operand::pop(&mut frame.stack) {
            Ok(VmValue::String(t)) => t,
            Ok(_) => {
                return Err(invalid("name probe source is not String"));
            },
            Err(e) => {
                return Err(e);
            },
        };
        match variable_name_flags(self, position.generation, position.function, source.as_str()) {
            Ok(n) => {
                let ghost before = frame@.stack;
                frame.stack.push(VmValue::Integer(n));
                assert(frame@.stack =~= before.push(Val::Integer(n)));
                Ok(())
            },
            Err(e) => Err(e),
        }
    }

    fn step_begin_probe(&self, fiber: &mut Fiber, position: &InstructionPosition<'_>) -> (r: Result<
        (),
        StepError,
    >)
        requires
            old(fiber)@.frames.len() > 0,
        ensures
            ({
                let step = begin_probe(self@, old(fiber)@.top(), position@);
                &&& final(fiber)@ == old(fiber)@.with_top(step.0)
                &&& fault::outcome(r) == step.1
            }),
    {
        let program = match self.program(position.generation) {
            None => {
                assert(fiber@ =~= fiber@.with_top(fiber@.top()));
                return Err(invalid("probe generation missing"));
            },
            Some(p) => p,
        };
        let frame = fiber.top_mut();
        if !program.existvar_expression_probe {
            return Err(invalid("EXISTVAR mode is unavailable in this identity"));
        }
        let fits: bool = match frame.operand_slots() {
            None => false,
            Some(n) => match n.checked_add(2) {
                None => false,
                Some(m) => m <= self.config.maximum_operand_stack,
            },
        };
        if !fits {
            return Err(
                StepError::new(VmFaultCode::ResourceLimit, "EXISTVAR checkpoint operand limit"),
            );
        }
        let failure: usize = match operand::read_u32(position.payload, 0) {
            Ok(n) => n as usize,
            Err(e) => {
                return Err(e);
            },
        };
        let token = match probe_token(position.instruction) {
            Ok(t) => t,
            Err(e) => {
                return Err(e);
            },
        };
        let check = ExistVarCheckpoint {
            begin: position.instruction,
            failure,
            stack_index: frame.stack.len(),
            user_calls: frame.user_calls.len(),
            caught: false,
        };
        let ghost before = frame@;
        frame.stack.push(token);
        frame.existvar_checks.push(check);
        assert(frame@.stack =~= before.stack.push(token@));
        Ok(())
    }
}

/// The boundary of a frame that catches a failure: its innermost probe, where a script failed and
/// the probe has caught nothing yet.
pub open spec fn catch_of(frame: FrameModel, failure: Failure) -> Option<ExistVarCatchTarget> {
    if !(failure.category is Script) || frame.existvar_checks.len() == 0
        || frame.existvar_checks.last().caught {
        None
    } else {
        let check = frame.existvar_checks.last();
        Some(
            ExistVarCatchTarget {
                owner: frame.id,
                generation: frame.generation,
                function: frame.function,
                begin: check.begin,
                failure: check.failure,
                stack_index: check.stack_index,
                user_calls: check.user_calls,
            },
        )
    }
}

/// Finds the boundary of a frame that catches a failure.
pub fn select_existvar_catch(frame: &Frame, error: &StepError) -> (r: Option<ExistVarCatchTarget>)
    ensures
        r == catch_of(frame@, error@),
{
    if !error.is_script() {
        return None;
    }
    let n: usize = frame.existvar_checks.len();
    if n == 0 {
        return None;
    }
    let check = frame.existvar_checks[n - 1];
    if check.caught {
        return None;
    }
    Some(
        ExistVarCatchTarget {
            owner: frame.id,
            generation: frame.generation,
            function: frame.function,
            begin: check.begin,
            failure: check.failure,
            stack_index: check.stack_index,
            user_calls: check.user_calls,
        },
    )
}

/// The checkpoint that a catch target was made from.
pub open spec fn checkpoint_matches(check: ExistVarCheckpoint, target: ExistVarCatchTarget) -> bool {
    &&& !check.caught
    &&& check.begin == target.begin
    &&& check.failure == target.failure
    &&& check.stack_index == target.stack_index
    &&& check.user_calls == target.user_calls
}

/// Goes on behind a caught failure.
pub open spec fn caught(fiber: FiberModel, target: ExistVarCatchTarget) -> (FiberModel, Result<
    (),
    Failure,
>) {
    let unrestored = Failure::invalid("probe catch temporary resources have not been restored"@);
    if fiber.frames.len() == 0 || fiber.top().id != target.owner || fiber.top().generation
        != target.generation || fiber.top().function != target.function {
        (fiber, Err(Failure::invalid("probe catch owner has not been restored"@)))
    } else {
        let frame = fiber.top();
        if frame.runtime_form is Some || frame.user_calls.len() != target.user_calls
            || frame.stack.len() != target.stack_index + 1 {
            (fiber, Err(unrestored))
        } else {
            match token_of(target.begin) {
                Err(e) => (fiber, Err(e)),
                Ok(token) => if frame.stack.last() != token {
                    (fiber, Err(unrestored))
                } else if frame.existvar_checks.len() == 0 || !checkpoint_matches(
                    frame.existvar_checks.last(),
                    target,
                ) {
                    (fiber, Err(Failure::invalid("probe catch target is stale"@)))
                } else {
                    (
                        fiber.with_top(
                            FrameModel {
                                existvar_checks: frame.existvar_checks.drop_last().push(
                                    ExistVarCheckpoint {
                                        caught: true,
                                        ..frame.existvar_checks.last()
                                    },
                                ),
                                instruction: target.failure,
                                ..frame
                            },
                        ),
                        Ok(()),
                    )
                },
            }
        }
    }
}

/// Goes on behind a caught failure, once everything opened inside the probe is gone.
pub fn finish_existvar_catch(fiber: &mut Fiber, target: ExistVarCatchTarget) -> (r: Result<
    (),
    StepError,
>)
    ensures
        (final(fiber)@, fault::outcome(r)) == caught(old(fiber)@, target),
{
    if fiber.frames.len() == 0 || fiber.top().id != target.owner || fiber.top().generation
        != target.generation || fiber.top().function != target.function {
        return Err(invalid("probe catch owner has not been restored"));
    }
    let stack_length: usize = fiber.top().stack.len();
    if fiber.top().runtime_form.is_some() || fiber.top().user_calls.len() != target.user_calls
        || stack_length == 0 || stack_length - 1 != target.stack_index {
        return Err(invalid("probe catch temporary resources have not been restored"));
    }
    let token = match probe_token(target.begin) {
        Ok(t) => t,
        Err(e) => {
            return Err(e);
        },
    };
    if !value::same_value(&fiber.top().stack[stack_length - 1], &token) {
        return Err(invalid("probe catch temporary resources have not been restored"));
    }
    let checks: usize = fiber.top().existvar_checks.len();
    if checks == 0 {
        return Err(invalid("probe catch target is stale"));
    }
    let check = fiber.top().existvar_checks[checks - 1];
    if check.caught || check.begin != target.begin || check.failure != target.failure
        || check.stack_index != target.stack_index || check.user_calls != target.user_calls {
        return Err(invalid("probe catch target is stale"));
    }
    let ghost before = fiber@.top();
    let frame = fiber.top_mut();
    let _ = frame.existvar_checks.pop();
    frame.existvar_checks.push(
        ExistVarCheckpoint {
            begin: check.begin,
            failure: check.failure,
            stack_index: check.stack_index,
            user_calls: check.user_calls,
            caught: true,
        },
    );
    frame.instruction = target.failure;
    assert(frame@.existvar_checks =~= before.existvar_checks.drop_last().push(
        ExistVarCheckpoint { caught: true, ..before.existvar_checks.last() },
    ));
    Ok(())
}

/// A retained checkpoint agrees with the code and the frame it belongs to.
pub open spec fn checkpoint_valid(
    code: Seq<crate::program::Instruction>,
    frame: FrameModel,
    check: ExistVarCheckpoint,
    outer: Option<ExistVarCheckpoint>,
) -> bool {
    &&& check.begin < code.len() && check.failure < code.len()
    &&& code[check.begin as int].opcode is BeginExistVarProbe
    &&& code[check.begin as int].payload@.len() == 4
    &&& operand::u32_at(code[check.begin as int].payload@, 0) matches Ok(f) && f == check.failure
    &&& code[check.failure as int].opcode is FinishExistVarProbe
    &&& code[check.failure as int].payload@.len() == 5
    &&& code[check.failure as int].payload@[4] == 1
    &&& operand::u32_at(code[check.failure as int].payload@, 0) matches Ok(b) && b == check.begin
    &&& token_of(check.begin) matches Ok(t) && holds(frame.stack, check.stack_index as int, t)
    &&& check.user_calls <= frame.user_calls.len()
    &&& check.caught ==> {
        &&& frame.instruction == check.failure
        &&& frame.runtime_form is None
        &&& frame.stack.len() == check.stack_index + 1
        &&& frame.user_calls.len() == check.user_calls
    }
    &&& check.caught || check.begin < frame.instruction < check.failure
    &&& outer matches Some(o) ==> !o.caught && check.begin > o.begin && check.failure < o.failure
        && check.stack_index > o.stack_index
}

pub open spec fn outer_of(checks: Seq<ExistVarCheckpoint>, i: int) -> Option<ExistVarCheckpoint> {
    if i == 0 {
        None
    } else {
        Some(checks[i - 1])
    }
}

/// All retained checkpoints of a frame are valid and properly nested.
pub open spec fn existvar_valid(vm: VmModel, frame: FrameModel) -> bool {
    vm.program(frame.generation) matches Some(program) && program.spec_function(
        frame.function,
    ) matches Some(function) && forall|i: int|
        0 <= i < frame.existvar_checks.len() ==> #[trigger] nested_valid(function.code@, frame, i)
}

/// A checkpoint is valid inside the one before it.
pub open spec fn nested_valid(
    code: Seq<crate::program::Instruction>,
    frame: FrameModel,
    i: int,
) -> bool {
    checkpoint_valid(
        code,
        frame,
        frame.existvar_checks[i],
        outer_of(frame.existvar_checks, i),
    )
}

fn check_checkpoint(
    code: &Vec<crate::program::Instruction>,
    frame: &Frame,
    check: ExistVarCheckpoint,
    outer: Option<ExistVarCheckpoint>,
) -> (r: bool)
    ensures
        r == checkpoint_valid(code@, frame@, check, outer),
{
    if check.begin >= code.len() || check.failure >= code.len() {
        return false;
    }
    let begin = &code[check.begin];
    let failure = &code[check.failure];
    if begin.opcode != Opcode::BeginExistVarProbe || begin.payload.len() != 4 || failure.opcode
        != Opcode::FinishExistVarProbe || failure.payload.len() != 5 || failure.payload[4] != 1 {
        return false;
    }
    match operand::read_u32(begin.payload.as_slice(), 0) {
        Ok(n) => {
            if n as usize != check.failure {
                return false;
            }
        },
        Err(_) => {
            return false;
        },
    }
    match operand::read_u32(failure.payload.as_slice(), 0) {
        Ok(n) => {
            if n as usize != check.begin {
                return false;
            }
        },
        Err(_) => {
            return false;
        },
    }
    match probe_token(check.begin) {
        Ok(t) => {
            if !stack_holds(&frame.stack, check.stack_index, &t) {
                return false;
            }
        },
        Err(_) => {
            return false;
        },
    }
    if check.user_calls > frame.user_calls.len() {
        return false;
    }
    if check.caught {
        if frame.instruction != check.failure || frame.runtime_form.is_some() || frame.stack.len()
            - 1 != check.stack_index || frame.user_calls.len() != check.user_calls {
            return false;
        }
    } else if !(check.begin < frame.instruction && frame.instruction < check.failure) {
        return false;
    }
    match outer {
        None => true,
        Some(o) => !o.caught && check.begin > o.begin && check.failure < o.failure
            && check.stack_index > o.stack_index,
    }
}

/// Tells whether all retained checkpoints of a frame are valid and properly nested.
pub fn valid_existvar_state(vm: &Vm, frame: &Frame) -> (r: bool)
    ensures
        r == existvar_valid(vm@, frame@),
{
    let program = match vm.program(frame.generation) {
        None => {
            return false;
        },
        Some(p) => p,
    };
    let function = match program.function(frame.function) {
        None => {
            return false;
        },
        Some(f) => f,
    };
    let mut i: usize = 0;
    let mut previous: Option<ExistVarCheckpoint> = None;
    while i < frame.existvar_checks.len()
        invariant
            i <= frame.existvar_checks.len(),
            vm@.program(frame.generation) == Some(*program),
            program.spec_function(frame.function) == Some(function),
            previous == outer_of(frame.existvar_checks@, i as int),
            forall|j: int|
                0 <= j < i ==> #[trigger] nested_valid(function.code@, frame@, j),
        decreases frame.existvar_checks.len() - i,
    {
        let check = frame.existvar_checks[i];
        if !check_checkpoint(&function.code, frame, check, previous) {
            assert(!nested_valid(function.code@, frame@, i as int));
            return false;
        }
        previous = Some(check);
        i = i + 1;
    }
    true
}

/// A probe that is opened and then ended, with nothing but its source left on the stack, leaves the
/// stack as it was with the answer on top, and no checkpoint.
pub proof fn law_probe_is_balanced(
    vm: VmModel,
    frame: FrameModel,
    begin: At,
    end: At,
    source: Seq<char>,
)
    requires
        frame.stack.len() < usize::MAX,
        begin_probe(vm, frame, begin).1 is Ok,
        begin.instruction <= u32::MAX,
        end.payload.len() == 5,
        end.payload[4] == 0,
        operand::u32_at(end.payload, 0) == Ok::<u32, Failure>(begin.instruction as u32),
    ensures
        ({
            let opened = begin_probe(vm, frame, begin).0;
            let closed = finish_probe(basic::pushed(opened, Val::Text(source)), end, Ok(()));
            &&& closed.1 is Ok
            &&& closed.0 == basic::pushed(frame, Val::Integer(1))
        }),
{
    let opened = begin_probe(vm, frame, begin).0;
    let loaded = basic::pushed(opened, Val::Text(source));
    let closed = finish_probe(loaded, end, Ok(()));
    assert(loaded.stack.take(frame.stack.len() as int) =~= frame.stack);
    assert(closed.0.existvar_checks =~= frame.existvar_checks);
}

/// A failure that a probe does not catch is one that no script caused, or one behind a catch.
pub proof fn law_only_script_failures_are_caught(frame: FrameModel, failure: Failure)
    ensures
        catch_of(frame, failure) is Some ==> failure.category is Script
            && frame.existvar_checks.len() > 0 && !frame.existvar_checks.last().caught,
{
}

/// Catching moves on to the failure branch and marks the probe, so that it catches nothing more.
pub proof fn law_catch_happens_once(fiber: FiberModel, target: ExistVarCatchTarget, failure: Failure)
    requires
        caught(fiber, target).1 is Ok,
    ensures
        ({
            let after = caught(fiber, target).0;
            &&& after.top().instruction == target.failure
            &&& after.top().stack == fiber.top().stack
            &&& catch_of(after.top(), failure) is None
            &&& caught(after, target).1 is Err
        }),
{
}

} // verus!
