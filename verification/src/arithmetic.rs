//! Integer arithmetic under a compatibility profile.

use vstd::prelude::*;
use crate::diagnostics;
use crate::fault::{self, Failure, ScriptFaultKind, StepError, VmFaultCode};
use crate::operand;
use crate::program::IntegerArithmeticPolicy;
use crate::state::{CompatibilityWarning, IntegerArithmeticWarning, Vm, VmModel};
use crate::text;
use crate::value::{GenerationId, Val, VmValue};

verus! {

#[derive(Clone, Copy, PartialEq, Eq, Debug, Structural)]
pub enum IntegerOperation {
    Negate,
    Add,
    Subtract,
    Multiply,
    Divide,
    Modulo,
}

#[derive(Clone, Copy, PartialEq, Eq, Debug, Structural)]
pub enum IntegerArithmeticError {
    InvalidOperands,
    DivideByZero,
    Overflow,
}

/// A value with the warning that comes with it.
#[derive(Clone, Copy, PartialEq, Eq, Debug, Structural)]
pub struct IntegerOutcome {
    pub value: i64,
    pub warning: Option<IntegerArithmeticWarning>,
}

/// The mathematical result of an operation; division by zero aside.
pub open spec fn exact(operation: IntegerOperation, left: i64, right: Option<i64>) -> Option<int> {
    match (operation, right) {
        (IntegerOperation::Negate, None) => Some(-left),
        (IntegerOperation::Add, Some(r)) => Some(left + r),
        (IntegerOperation::Subtract, Some(r)) => Some(left - r),
        (IntegerOperation::Multiply, Some(r)) => Some(left * r),
        (IntegerOperation::Divide, Some(r)) => Some(operand::quotient(left as int, r as int)),
        (IntegerOperation::Modulo, Some(r)) => Some(operand::remainder(left as int, r as int)),
        _ => None,
    }
}

/// The nearest 64-bit integer.
pub open spec fn clamped(n: int) -> i64 {
    if n > i64::MAX {
        i64::MAX
    } else if n < i64::MIN {
        i64::MIN
    } else {
        n as i64
    }
}

/// The low 64 bits of a result.
pub open spec fn low_bits(operation: IntegerOperation, left: i64, right: Option<i64>) -> i64 {
    match (operation, right) {
        (IntegerOperation::Negate, _) => 0i64.wrapping_sub(left),
        (IntegerOperation::Add, Some(r)) => left.wrapping_add(r),
        (IntegerOperation::Subtract, Some(r)) => left.wrapping_sub(r),
        (IntegerOperation::Multiply, Some(r)) => left.wrapping_mul(r),
        (IntegerOperation::Divide, Some(r)) => operand::wrapped(
            operand::quotient(left as int, r as int),
        ),
        (_, Some(r)) => operand::remainder(left as int, r as int) as i64,
        _ => 0,
    }
}

/// What an operation gives under a policy.
pub open spec fn evaluated(
    policy: IntegerArithmeticPolicy,
    operation: IntegerOperation,
    left: i64,
    right: Option<i64>,
) -> Result<IntegerOutcome, IntegerArithmeticError> {
    match exact(operation, left, right) {
        None => Err(IntegerArithmeticError::InvalidOperands),
        Some(n) => if (operation is Divide || operation is Modulo) && right == Some(0i64) {
            match policy {
                IntegerArithmeticPolicy::ReferenceWrappingV1 => Err(
                    IntegerArithmeticError::DivideByZero,
                ),
                IntegerArithmeticPolicy::SnakeSaturatingV1 => Ok(
                    IntegerOutcome {
                        value: 0,
                        warning: Some(IntegerArithmeticWarning::DivideByZero),
                    },
                ),
            }
        } else {
            match policy {
                IntegerArithmeticPolicy::ReferenceWrappingV1 => Ok(
                    IntegerOutcome { value: low_bits(operation, left, right), warning: None },
                ),
                IntegerArithmeticPolicy::SnakeSaturatingV1 => Ok(
                    IntegerOutcome {
                        value: clamped(n),
                        warning: if i64::MIN <= n <= i64::MAX {
                            None
                        } else {
                            Some(IntegerArithmeticWarning::Overflow)
                        },
                    },
                ),
            }
        },
    }
}

fn clamp_wide(n: i128) -> (r: IntegerOutcome)
    ensures
        r.value == clamped(n as int),
        r.warning == if i64::MIN <= n <= i64::MAX {
            None::<IntegerArithmeticWarning>
        } else {
            Some(IntegerArithmeticWarning::Overflow)
        },
{
    if n > i64::MAX as i128 {
        IntegerOutcome { value: i64::MAX, warning: Some(IntegerArithmeticWarning::Overflow) }
    } else if n < i64::MIN as i128 {
        IntegerOutcome { value: i64::MIN, warning: Some(IntegerArithmeticWarning::Overflow) }
    } else {
        IntegerOutcome { value: n as i64, warning: None }
    }
}

proof fn lemma_quotient_range(a: int, b: int)
    requires
        i64::MIN <= a <= i64::MAX,
        i64::MIN <= b <= i64::MAX,
        b != 0,
    ensures
        i64::MIN <= operand::quotient(a, b) <= i64::MAX + 1,
        operand::quotient(a, b) == i64::MAX + 1 <==> a == i64::MIN && b == -1,
        i64::MIN <= operand::remainder(a, b) <= i64::MAX,
{
    let x = if a >= 0 {
        a
    } else {
        -a
    };
    let y = if b > 0 {
        b
    } else {
        -b
    };
    assert(0 <= x / y <= x && (y >= 2 && x > 0 ==> x / y < x) && (y == 1 ==> x / y == x))
        by (nonlinear_arith)
        requires
            x >= 0,
            y >= 1,
    ;
    assert(0 <= x % y <= x) by (nonlinear_arith)
        requires
            x >= 0,
            y >= 1,
    ;
    assert(0 <= x % y < y) by (nonlinear_arith)
        requires
            x >= 0,
            y >= 1,
    ;
}

impl IntegerArithmeticPolicy {
    /// Evaluates an operation.
    pub fn evaluate(self, operation: IntegerOperation, left: i64, right: Option<i64>) -> (r: Result<
        IntegerOutcome,
        IntegerArithmeticError,
    >)
        ensures
            r == evaluated(self, operation, left, right),
    {
        let second: i64 = match (operation, right) {
            (IntegerOperation::Negate, None) => 0,
            (IntegerOperation::Negate, Some(_)) => {
                return Err(IntegerArithmeticError::InvalidOperands);
            },
            (_, None) => {
                return Err(IntegerArithmeticError::InvalidOperands);
            },
            (_, Some(r)) => r,
        };
        let divides: bool = match operation {
            IntegerOperation::Divide | IntegerOperation::Modulo => true,
            _ => false,
        };
        if divides && second == 0 {
            return match self {
                IntegerArithmeticPolicy::ReferenceWrappingV1 => Err(
                    IntegerArithmeticError::DivideByZero,
                ),
                IntegerArithmeticPolicy::SnakeSaturatingV1 => Ok(
                    IntegerOutcome {
                        value: 0,
                        warning: Some(IntegerArithmeticWarning::DivideByZero),
                    },
                ),
            };
        }
        match self {
            IntegerArithmeticPolicy::ReferenceWrappingV1 => {
                let n: i64 = match operation {
                    IntegerOperation::Negate => 0i64.wrapping_sub(left),
                    IntegerOperation::Add => left.wrapping_add(second),
                    IntegerOperation::Subtract => left.wrapping_sub(second),
                    IntegerOperation::Multiply => left.wrapping_mul(second),
                    IntegerOperation::Divide => operand::divide(left, second),
                    IntegerOperation::Modulo => operand::modulo(left, second),
                };
                Ok(IntegerOutcome { value: n, warning: None })
            },
            IntegerArithmeticPolicy::SnakeSaturatingV1 => {
                assert(-0x4000_0000_0000_0000_0000_0000_0000_0000 <= (left as int) * (second as int)
                    <= 0x4000_0000_0000_0000_0000_0000_0000_0000) by (nonlinear_arith)
                    requires
                        -0x8000_0000_0000_0000 <= left <= 0x7fff_ffff_ffff_ffff,
                        -0x8000_0000_0000_0000 <= second <= 0x7fff_ffff_ffff_ffff,
                ;
                let a: i128 = left as i128;
                let b: i128 = second as i128;
                proof {
                    if divides {
                        lemma_quotient_range(left as int, second as int);
                    }
                }
                let wide: i128 = match operation {
                    IntegerOperation::Negate => -a,
                    IntegerOperation::Add => a + b,
                    IntegerOperation::Subtract => a - b,
                    IntegerOperation::Multiply => a * b,
                    IntegerOperation::Divide => {
                        if left == i64::MIN && second == -1 {
                            0x8000_0000_0000_0000i128
                        } else {
                            operand::divide(left, second) as i128
                        }
                    },
                    IntegerOperation::Modulo => operand::modulo(left, second) as i128,
                };
                Ok(clamp_wide(wide))
            },
        }
    }
}

pub open spec fn operation_text(operation: IntegerOperation) -> Seq<char> {
    match operation {
        IntegerOperation::Negate => "Negate"@,
        IntegerOperation::Add => "Add"@,
        IntegerOperation::Subtract => "Subtract"@,
        IntegerOperation::Multiply => "Multiply"@,
        IntegerOperation::Divide => "Divide"@,
        IntegerOperation::Modulo => "Modulo"@,
    }
}

fn operation_name(operation: IntegerOperation) -> (r: &'static str)
    ensures
        r@ == operation_text(operation),
{
    match operation {
        IntegerOperation::Negate => "Negate",
        IntegerOperation::Add => "Add",
        IntegerOperation::Subtract => "Subtract",
        IntegerOperation::Multiply => "Multiply",
        IntegerOperation::Divide => "Divide",
        IntegerOperation::Modulo => "Modulo",
    }
}

pub open spec fn error_text(error: IntegerArithmeticError) -> Seq<char> {
    match error {
        IntegerArithmeticError::InvalidOperands => "InvalidOperands"@,
        IntegerArithmeticError::DivideByZero => "DivideByZero"@,
        IntegerArithmeticError::Overflow => "Overflow"@,
    }
}

fn error_name(error: IntegerArithmeticError) -> (r: &'static str)
    ensures
        r@ == error_text(error),
{
    match error {
        IntegerArithmeticError::InvalidOperands => "InvalidOperands",
        IntegerArithmeticError::DivideByZero => "DivideByZero",
        IntegerArithmeticError::Overflow => "Overflow",
    }
}

/// How a refused operation shows.
pub open spec fn arithmetic_failure(
    operation: IntegerOperation,
    error: IntegerArithmeticError,
) -> Failure {
    let message = "integer "@ + operation_text(operation) + " failed: "@ + error_text(error);
    match error {
        IntegerArithmeticError::InvalidOperands => Failure::invalid(message),
        IntegerArithmeticError::DivideByZero => Failure::script(
            ScriptFaultKind::Arithmetic,
            VmFaultCode::DivideByZero,
            message,
        ),
        IntegerArithmeticError::Overflow => Failure::script(
            ScriptFaultKind::Arithmetic,
            VmFaultCode::InvalidInstruction,
            message,
        ),
    }
}

/// The machine and the result after an operation.
pub open spec fn arithmetic(
    vm: VmModel,
    generation: GenerationId,
    operation: IntegerOperation,
    left: i64,
    right: Option<i64>,
) -> (VmModel, Result<i64, Failure>) {
    let policy = vm.program(generation)->Some_0.integer_policy;
    match evaluated(policy, operation, left, right) {
        Err(e) => (vm, Err(arithmetic_failure(operation, e))),
        Ok(o) => (
            match o.warning {
                Some(w) => diagnostics::queued(vm, CompatibilityWarning::Arithmetic(w)),
                None => vm,
            },
            Ok(o.value),
        ),
    }
}

/// The machine and the value after an operation, with the value wrapped.
pub open spec fn as_value(step: (VmModel, Result<i64, Failure>)) -> (VmModel, Result<Val, Failure>) {
    (
        step.0,
        match step.1 {
            Ok(n) => Ok(Val::Integer(n)),
            Err(e) => Err(e),
        },
    )
}

/// A unary operator under the profile of a program.
pub open spec fn profiled_unary(
    vm: VmModel,
    generation: GenerationId,
    operation: u8,
    v: Val,
) -> (VmModel, Result<Val, Failure>) {
    let plain = (vm, operand::unary(operation, v));
    if vm.program(generation)->Some_0.integer_policy is ReferenceWrappingV1 {
        plain
    } else {
        match v {
            Val::Integer(n) => if operation == 1 {
                as_value(arithmetic(vm, generation, IntegerOperation::Negate, n, None))
            } else if operation == 4 || operation == 6 {
                as_value(arithmetic(vm, generation, IntegerOperation::Add, n, Some(1)))
            } else if operation == 5 || operation == 7 {
                as_value(arithmetic(vm, generation, IntegerOperation::Subtract, n, Some(1)))
            } else {
                plain
            },
            _ => plain,
        }
    }
}

/// The arithmetic operation behind a binary operator.
pub open spec fn arithmetic_operator(operation: u8) -> Option<IntegerOperation> {
    if operation == 0 {
        Some(IntegerOperation::Multiply)
    } else if operation == 1 {
        Some(IntegerOperation::Divide)
    } else if operation == 2 {
        Some(IntegerOperation::Modulo)
    } else if operation == 3 {
        Some(IntegerOperation::Add)
    } else if operation == 4 {
        Some(IntegerOperation::Subtract)
    } else {
        None
    }
}

/// A binary operator under the profile of a program.
pub open spec fn profiled_binary(
    vm: VmModel,
    generation: GenerationId,
    operation: u8,
    left: Val,
    right: Val,
) -> (VmModel, Result<Val, Failure>) {
    let plain = (vm, operand::binary(operation, left, right));
    if vm.program(generation)->Some_0.integer_policy is ReferenceWrappingV1 {
        plain
    } else {
        match (arithmetic_operator(operation), left, right) {
            (Some(o), Val::Integer(a), Val::Integer(b)) => as_value(
                arithmetic(vm, generation, o, a, Some(b)),
            ),
            _ => plain,
        }
    }
}

impl Vm {
    /// The integer policy of a program.
    pub fn integer_policy(&self, generation: GenerationId) -> (r: IntegerArithmeticPolicy)
        requires
            self@.program(generation) is Some,
        ensures
            r == self@.program(generation)->Some_0.integer_policy,
    {
        match self.program(generation) {
            Some(program) => program.integer_policy,
            None => IntegerArithmeticPolicy::ReferenceWrappingV1,
        }
    }

    /// Evaluates an operation and queues the warning that comes with it.
    pub fn integer_arithmetic(
        &mut self,
        generation: GenerationId,
        operation: IntegerOperation,
        left: i64,
        right: Option<i64>,
    ) -> (r: Result<i64, StepError>)
        requires
            old(self)@.program(generation) is Some,
        ensures
            (final(self)@, fault::outcome(r)) == arithmetic(
                old(self)@,
                generation,
                operation,
                left,
                right,
            ),
    {
        match self.integer_policy(generation).evaluate(operation, left, right) {
            Err(error) => {
                let start = text::join3("integer ", operation_name(operation), " failed: ");
                let message = text::join2(start.as_str(), error_name(error));
                Err(
                    match error {
                        IntegerArithmeticError::InvalidOperands => StepError::new(
                            VmFaultCode::InvalidInstruction,
                            message.as_str(),
                        ),
                        IntegerArithmeticError::DivideByZero => StepError::script(
                            ScriptFaultKind::Arithmetic,
                            VmFaultCode::DivideByZero,
                            message.as_str(),
                        ),
                        IntegerArithmeticError::Overflow => StepError::script(
                            ScriptFaultKind::Arithmetic,
                            VmFaultCode::InvalidInstruction,
                            message.as_str(),
                        ),
                    },
                )
            },
            Ok(outcome) => {
                match outcome.warning {
                    Some(w) => {
                        self.queue_compatibility_warning(CompatibilityWarning::Arithmetic(w));
                    },
                    None => {},
                }
                Ok(outcome.value)
            },
        }
    }

    /// Applies a unary operator under the profile of a program.
    pub fn unary_value(&mut self, generation: GenerationId, operation: u8, value: VmValue) -> (r:
        Result<VmValue, StepError>)
        requires
            old(self)@.program(generation) is Some,
        ensures
            (final(self)@, fault::outcome(r)) == profiled_unary(
                old(self)@,
                generation,
                operation,
                value@,
            ),
    {
        if self.integer_policy(generation) == IntegerArithmeticPolicy::ReferenceWrappingV1 {
            return operand::unary_value(operation, value);
        }
        let (arithmetic, right): (IntegerOperation, Option<i64>) = match operation {
            1 => (IntegerOperation::Negate, None),
            4 | 6 => (IntegerOperation::Add, Some(1)),
            5 | 7 => (IntegerOperation::Subtract, Some(1)),
            _ => {
                return operand::unary_value(operation, value);
            },
        };
        match value {
            VmValue::Integer(n) => match self.integer_arithmetic(generation, arithmetic, n, right) {
                Ok(m) => Ok(VmValue::Integer(m)),
                Err(e) => Err(e),
            },
            other => operand::unary_value(operation, other),
        }
    }

    /// Applies a binary operator under the profile of a program.
    pub fn binary_value(
        &mut self,
        generation: GenerationId,
        operation: u8,
        left: VmValue,
        right: VmValue,
    ) -> (r: Result<VmValue, StepError>)
        requires
            old(self)@.program(generation) is Some,
        ensures
            (final(self)@, fault::outcome(r)) == profiled_binary(
                old(self)@,
                generation,
                operation,
                left@,
                right@,
            ),
    {
        if self.integer_policy(generation) == IntegerArithmeticPolicy::ReferenceWrappingV1 {
            return operand::binary_value(operation, left, right);
        }
        let arithmetic = match operation {
            0 => IntegerOperation::Multiply,
            1 => IntegerOperation::Divide,
            2 => IntegerOperation::Modulo,
            3 => IntegerOperation::Add,
            4 => IntegerOperation::Subtract,
            _ => {
                return operand::binary_value(operation, left, right);
            },
        };
        match (left, right) {
            (VmValue::Integer(a), VmValue::Integer(b)) => match self.integer_arithmetic(
                generation,
                arithmetic,
                a,
                Some(b),
            ) {
                Ok(m) => Ok(VmValue::Integer(m)),
                Err(e) => Err(e),
            },
            (left, right) => operand::binary_value(operation, left, right),
        }
    }
}

/// Operators other than the arithmetic ones do not depend on the profile and warn of nothing.
pub proof fn law_other_operators_ignore_the_profile(
    vm: VmModel,
    generation: GenerationId,
    operation: u8,
    left: Val,
    right: Val,
)
    ensures
        operation >= 5 ==> profiled_binary(vm, generation, operation, left, right) == (
            vm,
            operand::binary(operation, left, right),
        ),
        !(operation == 1 || 4 <= operation <= 7) ==> profiled_unary(vm, generation, operation, left)
            == (vm, operand::unary(operation, left)),
{
}

/// Under the saturating profile arithmetic on integers never fails.
pub proof fn law_saturating_arithmetic_never_fails(
    vm: VmModel,
    generation: GenerationId,
    operation: u8,
    a: i64,
    b: i64,
)
    requires
        vm.program(generation) matches Some(p) && p.integer_policy is SnakeSaturatingV1,
        operation <= 4,
    ensures
        profiled_binary(vm, generation, operation, Val::Integer(a), Val::Integer(b)).1 is Ok,
{
}

/// A result that fits is the mathematical one under both profiles, and comes without a warning.
pub proof fn law_results_that_fit_are_exact(
    policy: IntegerArithmeticPolicy,
    operation: IntegerOperation,
    left: i64,
    right: i64,
)
    requires
        !(operation is Negate) && !(operation is Multiply),
        (operation is Divide || operation is Modulo) ==> right != 0,
        i64::MIN <= exact(operation, left, Some(right))->Some_0 <= i64::MAX,
    ensures
        evaluated(policy, operation, left, Some(right)) == Ok::<
            IntegerOutcome,
            IntegerArithmeticError,
        >(
            IntegerOutcome {
                value: exact(operation, left, Some(right))->Some_0 as i64,
                warning: None,
            },
        ),
{
}

} // verus!
