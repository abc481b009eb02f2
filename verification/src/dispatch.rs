//! One instruction: its operation and the operand limit that follows it.

use vstd::prelude::*;
use crate::basic;
use crate::fault::{self, Failure, StepError, VmFaultCode};
use crate::state::{
    self, At, ExecutionPolicy, Fiber, FiberModel, FrameModel, InstructionPosition, Outcome,
    StepOutcome, Vm, VmModel,
};
use crate::terminal;

verus! {

/// The fiber with the running instruction counted as taken.
pub open spec fn counted(fiber: FiberModel) -> FiberModel {
    fiber.with_top(
        FrameModel { instruction: (fiber.top().instruction + 1) as usize, ..fiber.top() },
    )
}

/// The operands of the running frame fit the limit.
pub open spec fn within_limit(vm: VmModel, fiber: FiberModel) -> bool {
    fiber.frames.len() > 0 ==> fiber.top().operand_slots() <= vm.config.maximum_operand_stack
}

/// Too many operands.
pub open spec fn stack_exceeded() -> Failure {
    Failure::of(VmFaultCode::ResourceLimit, "maximum operand stack exceeded"@)
}

/// What is left of a step once its operands are counted. The state stays as the step left it.
pub open spec fn limited(
    vm: VmModel,
    fiber: FiberModel,
    result: Result<Option<Outcome>, Failure>,
) -> (VmModel, FiberModel, Result<Option<Outcome>, Failure>) {
    if result matches Ok(Some(_)) && !within_limit(vm, fiber) {
        (vm, fiber, Err(stack_exceeded()))
    } else {
        (vm, fiber, result)
    }
}

/// The operation alone: of the first family that has it, or of none.
pub open spec fn operated(vm: VmModel, fiber: FiberModel, at: At, policy: ExecutionPolicy) -> (
    VmModel,
    FiberModel,
    Result<Option<Outcome>, Failure>,
) {
    match basic::basic(vm, fiber, at, at.opcode, policy) {
        None => basic::dispatched(vm, fiber, terminal::terminal(vm, fiber, at, at.opcode)),
        step => basic::dispatched(vm, fiber, step),
    }
}

/// The state and the outcome of one instruction.
pub open spec fn executed(vm: VmModel, fiber: FiberModel, at: At, policy: ExecutionPolicy) -> (
    VmModel,
    FiberModel,
    Result<Option<Outcome>, Failure>,
) {
    if fiber.frames.len() == 0 {
        (vm, fiber, Err(Failure::invalid("missing frame"@)))
    } else {
        let after = operated(vm, counted(fiber), at, policy);
        limited(after.0, after.1, after.2)
    }
}

impl Vm {
    /// Refuses a running frame that holds more operands than the limit allows.
    pub fn check_operand_stack(&self, fiber: &Fiber) -> (r: Result<(), StepError>)
        ensures
            fault::outcome(r) == if within_limit(self@, fiber@) {
                Ok::<(), Failure>(())
            } else {
                Err(stack_exceeded())
            },
    {
        if fiber.frames.len() == 0 {
            return Ok(());
        }
        let fits: bool = match fiber.top().operand_slots() {
            Some(n) => n <= self.config.maximum_operand_stack,
            None => false,
        };
        if fits {
            Ok(())
        } else {
            Err(StepError::new(VmFaultCode::ResourceLimit, "maximum operand stack exceeded"))
        }
    }

    /// Executes one instruction: counts it as taken, does its operation, and holds the operands
    /// that it leaves to the limit. Gives nothing for an operation that calls, captures or probes:
    /// the instruction is counted, and the family of that operation does the rest.
    pub fn execute_instruction(
        &mut self,
        fiber: &mut Fiber,
        position: &InstructionPosition<'_>,
        policy: ExecutionPolicy,
    ) -> (r: Result<Option<StepOutcome>, StepError>)
        requires
            terminal::position_resolves(old(self)@, position@),
            old(fiber)@.frames.len() > 0 ==> old(fiber)@.top().instruction < usize::MAX,
        ensures
            (final(self)@, final(fiber)@, state::step_result(r)) == executed(
                old(self)@,
                old(fiber)@,
                position@,
                policy,
            ),
    {
        if fiber.frames.len() == 0 {
            return Err(StepError::new(VmFaultCode::InvalidInstruction, "missing frame"));
        }
        let frame = fiber.top_mut();
        frame.instruction = frame.instruction + 1;
        assert(fiber@ == counted(old(fiber)@));
        let done = match self.dispatch_basic(fiber, position, position.opcode, policy) {
            Err(e) => {
                return Err(e);
            },
            Ok(Some(o)) => o,
            Ok(None) => match self.dispatch_terminal(fiber, position, position.opcode) {
                Err(e) => {
                    return Err(e);
                },
                Ok(Some(o)) => o,
                Ok(None) => {
                    return Ok(None);
                },
            },
        };
        match self.check_operand_stack(&*fiber) {
            Ok(_) => Ok(Some(done)),
            Err(e) => Err(e),
        }
    }
}

/// A step that succeeds leaves no more operands than the limit allows.
pub proof fn law_finished_step_fits_the_limit(
    vm: VmModel,
    fiber: FiberModel,
    at: At,
    policy: ExecutionPolicy,
)
    ensures
        ({
            let after = executed(vm, fiber, at, policy);
            after.2 matches Ok(Some(_)) ==> within_limit(after.0, after.1)
        }),
{
}

/// A step over the limit fails with the state that its operation left, so nothing that the
/// operation gave is published.
pub proof fn law_exceeded_step_keeps_its_state(
    vm: VmModel,
    fiber: FiberModel,
    at: At,
    policy: ExecutionPolicy,
)
    requires
        fiber.frames.len() > 0,
        ({
            let after = operated(vm, counted(fiber), at, policy);
            after.2 is Ok && after.2->Ok_0 is Some && !within_limit(after.0, after.1)
        }),
    ensures
        ({
            let bare = operated(vm, counted(fiber), at, policy);
            let after = executed(vm, fiber, at, policy);
            (after.0, after.1) == (bare.0, bare.1) && after.2 == Err::<Option<Outcome>, Failure>(
                stack_exceeded(),
            )
        }),
{
}

} // verus!
