//! Operand decoding and the operators that do not depend on a compatibility profile.

use vstd::prelude::*;
use crate::fault::{self, Failure, ScriptFaultKind, StepError, VmFaultCode};
use crate::text;
use crate::value::{self, Val, VmValue};

verus! {

/// The value of a bool in the language.
pub open spec fn truth(b: bool) -> Val {
    if b {
        Val::Integer(1)
    } else {
        Val::Integer(0)
    }
}

/// Makes the value of a bool.
pub fn truth_value(b: bool) -> (r: VmValue)
    ensures
        r@ == truth(b),
{
    if b {
        VmValue::Integer(1)
    } else {
        VmValue::Integer(0)
    }
}

/// Quotient rounded towards zero.
pub open spec fn quotient(a: int, b: int) -> int {
    if a >= 0 {
        if b > 0 {
            a / b
        } else {
            -(a / (-b))
        }
    } else {
        if b > 0 {
            -((-a) / b)
        } else {
            (-a) / (-b)
        }
    }
}

/// Remainder that belongs to [`quotient`]; it has the sign of the dividend.
pub open spec fn remainder(a: int, b: int) -> int {
    if a >= 0 {
        if b > 0 {
            a % b
        } else {
            a % (-b)
        }
    } else {
        if b > 0 {
            -((-a) % b)
        } else {
            -((-a) % (-b))
        }
    }
}

/// An integer as it is stored in 64 bits, wrapping round at the ends of the range.
pub open spec fn wrapped(n: int) -> i64 {
    if n > i64::MAX {
        (n - 0x1_0000_0000_0000_0000) as i64
    } else if n < i64::MIN {
        (n + 0x1_0000_0000_0000_0000) as i64
    } else {
        n as i64
    }
}

fn magnitude(a: i64) -> (r: u64)
    ensures
        r == if a >= 0 { a as int } else { -(a as int) },
{
    if a >= 0 {
        a as u64
    } else if a == i64::MIN {
        0x8000_0000_0000_0000u64
    } else {
        (-a) as u64
    }
}

fn negated(m: u64) -> (r: i64)
    requires
        m <= 0x8000_0000_0000_0000u64,
    ensures
        r == -(m as int),
{
    if m == 0x8000_0000_0000_0000u64 {
        i64::MIN
    } else {
        -(m as i64)
    }
}

/// Division that rounds towards zero.
pub fn divide(a: i64, b: i64) -> (r: i64)
    requires
        b != 0,
    ensures
        r == wrapped(quotient(a as int, b as int)),
{
    let x: u64 = magnitude(a);
    let y: u64 = magnitude(b);
    let q: u64 = x / y;
    assert(q <= x) by (nonlinear_arith)
        requires
            q == x / y,
            y > 0,
    ;
    if (a >= 0) == (b > 0) {
        if q == 0x8000_0000_0000_0000u64 {
            i64::MIN
        } else {
            q as i64
        }
    } else {
        negated(q)
    }
}

/// Remainder with the sign of the dividend.
pub fn modulo(a: i64, b: i64) -> (r: i64)
    requires
        b != 0,
    ensures
        r == remainder(a as int, b as int),
{
    let x: u64 = magnitude(a);
    let y: u64 = magnitude(b);
    let m: u64 = x % y;
    if a >= 0 {
        m as i64
    } else {
        negated(m)
    }
}

/// Shift amounts count modulo the width of an integer.
pub open spec fn shift_amount(n: i64) -> u32 {
    (n % 64) as u32
}

fn shift_of(n: i64) -> (r: u32)
    ensures
        r == shift_amount(n),
        r < 64,
{
    let m: i64 = modulo(n, 64);
    if m < 0 {
        (m + 64) as u32
    } else {
        m as u32
    }
}

/// An integer operator applied to two integers; division by zero aside.
pub open spec fn integer_binary(operation: u8, a: i64, b: i64) -> Option<Val> {
    if operation == 0 {
        Some(Val::Integer(a.wrapping_mul(b)))
    } else if operation == 1 {
        Some(Val::Integer(wrapped(quotient(a as int, b as int))))
    } else if operation == 2 {
        Some(Val::Integer(remainder(a as int, b as int) as i64))
    } else if operation == 3 {
        Some(Val::Integer(a.wrapping_add(b)))
    } else if operation == 4 {
        Some(Val::Integer(a.wrapping_sub(b)))
    } else if operation == 5 {
        Some(Val::Integer(a << shift_amount(b)))
    } else if operation == 6 {
        Some(Val::Integer(a >> shift_amount(b)))
    } else if operation == 7 {
        Some(truth(a < b))
    } else if operation == 8 {
        Some(truth(a <= b))
    } else if operation == 9 {
        Some(truth(a > b))
    } else if operation == 10 {
        Some(truth(a >= b))
    } else if operation == 11 {
        Some(truth(a == b))
    } else if operation == 12 {
        Some(truth(a != b))
    } else if operation == 13 {
        Some(Val::Integer(a & b))
    } else if operation == 14 {
        Some(Val::Integer(a ^ b))
    } else if operation == 15 {
        Some(Val::Integer(a | b))
    } else if operation == 16 {
        Some(truth(a != 0 && b != 0))
    } else if operation == 17 {
        Some(truth((a != 0) != (b != 0)))
    } else if operation == 18 {
        Some(truth(a != 0 || b != 0))
    } else if operation == 19 {
        Some(truth(!(a != 0 && b != 0)))
    } else if operation == 20 {
        Some(truth(!(a != 0 || b != 0)))
    } else {
        None
    }
}

/// A comparison or the joining of two texts.
pub open spec fn text_binary(operation: u8, a: Seq<char>, b: Seq<char>) -> Option<Val> {
    if operation == 3 {
        Some(Val::Text(a + b))
    } else if operation == 7 {
        Some(truth(text::text_less(a, b)))
    } else if operation == 8 {
        Some(truth(!text::text_less(b, a)))
    } else if operation == 9 {
        Some(truth(text::text_less(b, a)))
    } else if operation == 10 {
        Some(truth(!text::text_less(a, b)))
    } else if operation == 11 {
        Some(truth(a == b))
    } else if operation == 12 {
        Some(truth(a != b))
    } else {
        None
    }
}

pub open spec fn operand_mismatch() -> Failure {
    Failure::of(VmFaultCode::TypeMismatch, "operator does not accept these operand types"@)
}

pub open spec fn zero_divisor() -> Failure {
    Failure::script(
        ScriptFaultKind::Arithmetic,
        VmFaultCode::DivideByZero,
        "integer division by zero"@,
    )
}

pub open spec fn repetition_range() -> Failure {
    Failure::script(
        ScriptFaultKind::Argument,
        VmFaultCode::TypeMismatch,
        "string repetition count is out of range"@,
    )
}

/// A text multiplied by a count.
pub open spec fn repetition(a: Seq<char>, count: i64) -> Result<Val, Failure> {
    if 0 <= count < 10000 {
        Ok(Val::Text(text::repeated(a, count as nat)))
    } else {
        Err(repetition_range())
    }
}

/// What a binary operator gives.
pub open spec fn binary(operation: u8, left: Val, right: Val) -> Result<Val, Failure> {
    match (left, right) {
        (Val::Integer(a), Val::Integer(b)) => {
            if (operation == 1 || operation == 2) && b == 0 {
                Err(zero_divisor())
            } else {
                match integer_binary(operation, a, b) {
                    Some(v) => Ok(v),
                    None => Err(operand_mismatch()),
                }
            }
        },
        (Val::Text(a), Val::Text(b)) => match text_binary(operation, a, b) {
            Some(v) => Ok(v),
            None => Err(operand_mismatch()),
        },
        (Val::Text(a), Val::Integer(n)) => if operation == 0 {
            repetition(a, n)
        } else {
            Err(operand_mismatch())
        },
        (Val::Integer(n), Val::Text(a)) => if operation == 0 {
            repetition(a, n)
        } else {
            Err(operand_mismatch())
        },
        _ => Err(operand_mismatch()),
    }
}

/// What a unary operator gives.
pub open spec fn unary(operation: u8, value: Val) -> Result<Val, Failure> {
    match value {
        Val::Integer(n) => if operation == 0 {
            Ok(Val::Integer(n))
        } else if operation == 1 {
            Ok(Val::Integer(0i64.wrapping_sub(n)))
        } else if operation == 2 {
            Ok(truth(n == 0))
        } else if operation == 3 {
            Ok(Val::Integer(!n))
        } else if operation == 4 || operation == 6 {
            Ok(Val::Integer(n.wrapping_add(1)))
        } else if operation == 5 || operation == 7 {
            Ok(Val::Integer(n.wrapping_sub(1)))
        } else {
            Err(operand_mismatch())
        },
        _ => Err(operand_mismatch()),
    }
}

fn mismatch() -> (r: StepError)
    ensures
        r@ == operand_mismatch(),
{
    StepError::new(VmFaultCode::TypeMismatch, "operator does not accept these operand types")
}

/// Applies a unary operator.
pub fn unary_value(operation: u8, value: VmValue) -> (r: Result<VmValue, StepError>)
    ensures
        fault::outcome(r) == unary(operation, value@),
{
    match value {
        VmValue::Integer(n) => match operation {
            0 => Ok(VmValue::Integer(n)),
            1 => Ok(VmValue::Integer(0i64.wrapping_sub(n))),
            2 => Ok(truth_value(n == 0)),
            3 => Ok(VmValue::Integer(!n)),
            4 | 6 => Ok(VmValue::Integer(n.wrapping_add(1))),
            5 | 7 => Ok(VmValue::Integer(n.wrapping_sub(1))),
            _ => Err(mismatch()),
        },
        _ => Err(mismatch()),
    }
}

fn integer_operation(operation: u8, a: i64, b: i64) -> (r: Option<VmValue>)
    requires
        (operation == 1 || operation == 2) ==> b != 0,
    ensures
        match r {
            Some(v) => integer_binary(operation, a, b) == Some(v@),
            None => integer_binary(operation, a, b) is None,
        },
{
    match operation {
        0 => Some(VmValue::Integer(a.wrapping_mul(b))),
        1 => Some(VmValue::Integer(divide(a, b))),
        2 => Some(VmValue::Integer(modulo(a, b))),
        3 => Some(VmValue::Integer(a.wrapping_add(b))),
        4 => Some(VmValue::Integer(a.wrapping_sub(b))),
        5 => Some(VmValue::Integer(a << shift_of(b))),
        6 => Some(VmValue::Integer(a >> shift_of(b))),
        7 => Some(truth_value(a < b)),
        8 => Some(truth_value(a <= b)),
        9 => Some(truth_value(a > b)),
        10 => Some(truth_value(a >= b)),
        11 => Some(truth_value(a == b)),
        12 => Some(truth_value(a != b)),
        13 => Some(VmValue::Integer(a & b)),
        14 => Some(VmValue::Integer(a ^ b)),
        15 => Some(VmValue::Integer(a | b)),
        16 => Some(truth_value(a != 0 && b != 0)),
        17 => Some(truth_value((a != 0) != (b != 0))),
        18 => Some(truth_value(a != 0 || b != 0)),
        19 => Some(truth_value(!(a != 0 && b != 0))),
        20 => Some(truth_value(!(a != 0 || b != 0))),
        _ => None,
    }
}

fn text_operation(operation: u8, a: &str, b: &str) -> (r: Option<VmValue>)
    ensures
        match r {
            Some(v) => text_binary(operation, a@, b@) == Some(v@),
            None => text_binary(operation, a@, b@) is None,
        },
{
    match operation {
        3 => Some(VmValue::String(text::join2(a, b))),
        7 => Some(truth_value(text::is_less(a, b))),
        8 => Some(truth_value(!text::is_less(b, a))),
        9 => Some(truth_value(text::is_less(b, a))),
        10 => Some(truth_value(!text::is_less(a, b))),
        11 => Some(truth_value(text::same_text(a, b))),
        12 => Some(truth_value(!text::same_text(a, b))),
        _ => None,
    }
}

fn repeat_value(a: &str, count: i64) -> (r: Result<VmValue, StepError>)
    ensures
        fault::outcome(r) == repetition(a@, count),
{
    if 0 <= count && count < 10000 {
        Ok(VmValue::String(text::repeat_text(a, count as usize)))
    } else {
        Err(
            StepError::script(
                ScriptFaultKind::Argument,
                VmFaultCode::TypeMismatch,
                "string repetition count is out of range",
            ),
        )
    }
}

/// Applies a binary operator.
pub fn binary_value(operation: u8, left: VmValue, right: VmValue) -> (r: Result<VmValue, StepError>)
    ensures
        fault::outcome(r) == binary(operation, left@, right@),
{
    match (left, right) {
        (VmValue::Integer(a), VmValue::Integer(b)) => {
            if (operation == 1 || operation == 2) && b == 0 {
                return Err(
                    StepError::script(
                        ScriptFaultKind::Arithmetic,
                        VmFaultCode::DivideByZero,
                        "integer division by zero",
                    ),
                );
            }
            match integer_operation(operation, a, b) {
                Some(v) => Ok(v),
                None => Err(mismatch()),
            }
        },
        (VmValue::String(a), VmValue::String(b)) => match text_operation(
            operation,
            a.as_str(),
            b.as_str(),
        ) {
            Some(v) => Ok(v),
            None => Err(mismatch()),
        },
        (VmValue::String(a), VmValue::Integer(n)) => if operation == 0 {
            repeat_value(a.as_str(), n)
        } else {
            Err(mismatch())
        },
        (VmValue::Integer(n), VmValue::String(a)) => if operation == 0 {
            repeat_value(a.as_str(), n)
        } else {
            Err(mismatch())
        },
        _ => Err(mismatch()),
    }
}

/// The operator that a compound assignment applies.
pub open spec fn assigned(operation: u8) -> Result<u8, Failure> {
    if operation == 1 {
        Ok(3)
    } else if operation == 2 {
        Ok(4)
    } else if operation == 3 {
        Ok(0)
    } else if operation == 4 {
        Ok(1)
    } else if operation == 5 {
        Ok(2)
    } else if operation == 6 {
        Ok(5)
    } else if operation == 7 {
        Ok(6)
    } else if operation == 8 {
        Ok(13)
    } else if operation == 9 {
        Ok(15)
    } else if operation == 10 {
        Ok(14)
    } else {
        Err(Failure::invalid("unknown assignment operation"@))
    }
}

pub fn assign_binary_tag(operation: u8) -> (r: Result<u8, StepError>)
    ensures
        fault::outcome(r) == assigned(operation),
{
    match operation {
        1 => Ok(3),
        2 => Ok(4),
        3 => Ok(0),
        4 => Ok(1),
        5 => Ok(2),
        6 => Ok(5),
        7 => Ok(6),
        8 => Ok(13),
        9 => Ok(15),
        10 => Ok(14),
        _ => Err(StepError::new(VmFaultCode::InvalidInstruction, "unknown assignment operation")),
    }
}

/// Little-endian number in the bytes from `from` up to `to`.
pub open spec fn little_endian(bytes: Seq<u8>, from: int, to: int) -> nat
    decreases to - from,
{
    if from >= to {
        0
    } else {
        bytes[from] as nat + 256 * little_endian(bytes, from + 1, to)
    }
}

pub open spec fn truncated_operand() -> Failure {
    Failure::invalid("instruction operand is truncated"@)
}

/// Four bytes of an operand as a number.
pub open spec fn u32_at(payload: Seq<u8>, at: nat) -> Result<u32, Failure> {
    if at + 4 <= payload.len() {
        Ok(little_endian(payload, at as int, (at + 4) as int) as u32)
    } else {
        Err(truncated_operand())
    }
}

/// Two bytes of an operand as a number.
pub open spec fn u16_at(payload: Seq<u8>, at: nat) -> Result<u16, Failure> {
    if at + 2 <= payload.len() {
        Ok(little_endian(payload, at as int, (at + 2) as int) as u16)
    } else {
        Err(truncated_operand())
    }
}

/// The whole operand as a signed number.
pub open spec fn i64_of(payload: Seq<u8>) -> Result<i64, Failure> {
    if payload.len() == 8 {
        let n = little_endian(payload, 0, 8);
        Ok(if n > i64::MAX { (n - 0x1_0000_0000_0000_0000) as i64 } else { n as i64 })
    } else {
        Err(Failure::invalid("instruction operand has the wrong length"@))
    }
}

pub(crate) fn bytes_number(payload: &[u8], at: usize, count: usize) -> (r: u64)
    requires
        count <= 8,
        at + count <= payload@.len(),
    ensures
        r == little_endian(payload@, at as int, at + count),
        count == 2 ==> r <= u16::MAX,
        count == 4 ==> r <= u32::MAX,
{
    proof {
        reveal_with_fuel(little_endian, 9);
    }
    let mut r: u64 = 0;
    let mut k: usize = count;
    let length: usize = payload.len();
    while k > 0
        invariant
            k <= count <= 8,
            at + count <= payload@.len(),
            payload@.len() == length,
            r == little_endian(payload@, at + k, at + count),
            count - k == 0 ==> r == 0,
            count - k == 1 ==> r <= 0xff,
            count - k == 2 ==> r <= 0xffff,
            count - k == 3 ==> r <= 0xff_ffff,
            count - k == 4 ==> r <= 0xffff_ffff,
            count - k == 5 ==> r <= 0xff_ffff_ffff,
            count - k == 6 ==> r <= 0xffff_ffff_ffff,
            count - k == 7 ==> r <= 0xff_ffff_ffff_ffff,
        decreases k,
    {
        k = k - 1;
        r = payload[at + k] as u64 + 256 * r;
    }
    r
}

pub fn read_u32(payload: &[u8], at: usize) -> (r: Result<u32, StepError>)
    ensures
        fault::outcome(r) == u32_at(payload@, at as nat),
{
    if payload.len() >= 4 && at <= payload.len() - 4 {
        Ok(bytes_number(payload, at, 4) as u32)
    } else {
        Err(
            StepError::new(
                VmFaultCode::InvalidInstruction,
                "instruction operand is truncated",
            ),
        )
    }
}

pub fn read_u16(payload: &[u8], at: usize) -> (r: Result<u16, StepError>)
    ensures
        fault::outcome(r) == u16_at(payload@, at as nat),
{
    if payload.len() >= 2 && at <= payload.len() - 2 {
        Ok(bytes_number(payload, at, 2) as u16)
    } else {
        Err(
            StepError::new(
                VmFaultCode::InvalidInstruction,
                "instruction operand is truncated",
            ),
        )
    }
}

pub fn read_i64(payload: &[u8]) -> (r: Result<i64, StepError>)
    ensures
        fault::outcome(r) == i64_of(payload@),
{
    if payload.len() == 8 {
        let n: u64 = bytes_number(payload, 0, 8);
        if n > 0x7fff_ffff_ffff_ffffu64 {
            Ok(negated(0x8000_0000_0000_0000u64 - (n - 0x8000_0000_0000_0000u64)))
        } else {
            Ok(n as i64)
        }
    } else {
        Err(
            StepError::new(
                VmFaultCode::InvalidInstruction,
                "instruction operand has the wrong length",
            ),
        )
    }
}

pub open spec fn underflow() -> Failure {
    Failure::of(VmFaultCode::StackUnderflow, "operand stack underflow"@)
}

/// Takes the top value.
pub fn pop(stack: &mut Vec<VmValue>) -> (r: Result<VmValue, StepError>)
    ensures
        match r {
            Ok(v) => value::vals(old(stack)@).len() > 0 && value::vals(old(stack)@).last() == v@
                && value::vals(final(stack)@) == value::vals(old(stack)@).drop_last(),
            Err(e) => value::vals(old(stack)@).len() == 0 && e@ == underflow() && final(stack)@
                == old(stack)@,
        },
{
    match stack.pop() {
        Some(v) => {
            assert(value::vals(stack@) =~= value::vals(old(stack)@).drop_last());
            Ok(v)
        },
        None => Err(StepError::new(VmFaultCode::StackUnderflow, "operand stack underflow")),
    }
}

/// What taking `count` indices from a stack gives: the indices in pushing order.
pub open spec fn popped_indices(stack: Seq<Val>, count: nat) -> (Seq<Val>, Result<
    Seq<u64>,
    Failure,
>)
    decreases count,
{
    if count == 0 {
        (stack, Ok(Seq::empty()))
    } else if stack.len() == 0 {
        (stack, Err(underflow()))
    } else {
        let rest = stack.drop_last();
        match stack.last() {
            Val::Integer(n) => if n < 0 {
                (
                    rest,
                    Err(
                        Failure::script(
                            ScriptFaultKind::Bounds,
                            VmFaultCode::Bounds,
                            "variable index is negative"@,
                        ),
                    ),
                )
            } else {
                let inner = popped_indices(rest, (count - 1) as nat);
                (
                    inner.0,
                    match inner.1 {
                        Ok(s) => Ok(s.push(n as u64)),
                        Err(e) => Err(e),
                    },
                )
            },
            _ => (
                rest,
                Err(Failure::of(VmFaultCode::TypeMismatch, "variable index is not an integer"@)),
            ),
        }
    }
}

/// What was taken so far, followed by what was taken before.
pub open spec fn appended<T>(inner: (Seq<Val>, Result<Seq<T>, Failure>), tail: Seq<T>) -> (
    Seq<Val>,
    Result<Seq<T>, Failure>,
) {
    (
        inner.0,
        match inner.1 {
            Ok(s) => Ok(s + tail),
            Err(e) => Err(e),
        },
    )
}

/// Takes `count` indices.
pub fn pop_indices(stack: &mut Vec<VmValue>, count: usize) -> (r: Result<Vec<u64>, StepError>)
    ensures
        (value::vals(final(stack)@), fault::outcome(r)) == popped_indices(
            value::vals(old(stack)@),
            count as nat,
        ),
{
    let mut out: Vec<u64> = Vec::new();
    let mut left: usize = count;
    let ghost whole = popped_indices(value::vals(stack@), count as nat);
    proof {
        match whole.1 {
            Ok(s) => {
                assert(s + out@ =~= s);
            },
            Err(_) => {},
        }
    }
    while left > 0
        invariant
            whole == popped_indices(value::vals(old(stack)@), count as nat),
            whole == appended(popped_indices(value::vals(stack@), left as nat), out@),
        decreases left,
    {
        let ghost before = value::vals(stack@);
        let ghost tail = out@;
        match pop(stack) {
            Err(e) => {
                return Err(e);
            },
            Ok(VmValue::Integer(n)) => {
                if n < 0 {
                    return Err(
                        StepError::script(
                            ScriptFaultKind::Bounds,
                            VmFaultCode::Bounds,
                            "variable index is negative",
                        ),
                    );
                }
                out.insert(0, n as u64);
                proof {
                    let inner = popped_indices(value::vals(stack@), (left - 1) as nat);
                    match inner.1 {
                        Ok(s) => {
                            assert(s.push(n as u64) + tail =~= s + out@);
                        },
                        Err(_) => {},
                    }
                }
            },
            Ok(_) => {
                return Err(
                    StepError::new(VmFaultCode::TypeMismatch, "variable index is not an integer"),
                );
            },
        }
        left = left - 1;
    }
    assert(Seq::<u64>::empty() + out@ =~= out@);
    Ok(out)
}

/// Takes an integer from the top; anything else is taken too, but refused.
pub open spec fn popped_integer(stack: Seq<Val>, refusal: Seq<char>) -> (Seq<Val>, Result<
    i64,
    Failure,
>) {
    if stack.len() == 0 {
        (stack, Err(underflow()))
    } else {
        (
            stack.drop_last(),
            match stack.last() {
                Val::Integer(n) => Ok(n),
                _ => Err(Failure::of(VmFaultCode::TypeMismatch, refusal)),
            },
        )
    }
}

pub fn pop_integer(stack: &mut Vec<VmValue>, refusal: &str) -> (r: Result<i64, StepError>)
    ensures
        (value::vals(final(stack)@), fault::outcome(r)) == popped_integer(
            value::vals(old(stack)@),
            refusal@,
        ),
{
    match pop(stack) {
        Err(e) => Err(e),
        Ok(VmValue::Integer(n)) => Ok(n),
        Ok(_) => Err(StepError::new(VmFaultCode::TypeMismatch, refusal)),
    }
}

/// Takes a text from the top; anything else is taken too, but refused.
pub open spec fn popped_text(stack: Seq<Val>, refusal: Seq<char>) -> (Seq<Val>, Result<
    Seq<char>,
    Failure,
>) {
    if stack.len() == 0 {
        (stack, Err(underflow()))
    } else {
        (
            stack.drop_last(),
            match stack.last() {
                Val::Text(t) => Ok(t),
                _ => Err(Failure::of(VmFaultCode::TypeMismatch, refusal)),
            },
        )
    }
}

pub fn pop_text(stack: &mut Vec<VmValue>, refusal: &str) -> (r: Result<String, StepError>)
    ensures
        (value::vals(final(stack)@), fault::outcome(r)) == popped_text(
            value::vals(old(stack)@),
            refusal@,
        ),
{
    match pop(stack) {
        Err(e) => Err(e),
        Ok(VmValue::String(t)) => Ok(t),
        Ok(_) => Err(StepError::new(VmFaultCode::TypeMismatch, refusal)),
    }
}

/// Takes `count` texts and joins them in pushing order.
pub open spec fn popped_joined(stack: Seq<Val>, count: nat) -> (Seq<Val>, Result<
    Seq<char>,
    Failure,
>)
    decreases count,
{
    if count == 0 {
        (stack, Ok(Seq::empty()))
    } else {
        let top = popped_text(stack, "concat expects strings"@);
        match top.1 {
            Err(e) => (top.0, Err(e)),
            Ok(t) => appended(popped_joined(top.0, (count - 1) as nat), t),
        }
    }
}

pub fn pop_joined(stack: &mut Vec<VmValue>, count: usize) -> (r: Result<String, StepError>)
    ensures
        (value::vals(final(stack)@), fault::outcome(r)) == popped_joined(
            value::vals(old(stack)@),
            count as nat,
        ),
{
    let mut out: String = String::new();
    let mut left: usize = count;
    let ghost whole = popped_joined(value::vals(stack@), count as nat);
    proof {
        reveal_strlit("");
        assert(out@ =~= Seq::<char>::empty());
        match whole.1 {
            Ok(s) => {
                assert(s + out@ =~= s);
            },
            Err(_) => {},
        }
    }
    while left > 0
        invariant
            whole == popped_joined(value::vals(old(stack)@), count as nat),
            whole == appended(popped_joined(value::vals(stack@), left as nat), out@),
        decreases left,
    {
        let ghost tail = out@;
        match pop_text(stack, "concat expects strings") {
            Err(e) => {
                return Err(e);
            },
            Ok(t) => {
                out = text::join2(t.as_str(), out.as_str());
                proof {
                    let inner = popped_joined(value::vals(stack@), (left - 1) as nat);
                    match inner.1 {
                        Ok(s) => {
                            assert((s + t@) + tail =~= s + out@);
                        },
                        Err(_) => {},
                    }
                }
            },
        }
        left = left - 1;
    }
    assert(Seq::<char>::empty() + out@ =~= out@);
    Ok(out)
}

/// Takes `count` arguments, in pushing order.
pub open spec fn popped_arguments(stack: Seq<Val>, count: nat) -> (Seq<Val>, Result<
    Seq<Val>,
    Failure,
>) {
    if count <= stack.len() {
        (
            stack.take(stack.len() - count),
            Ok(stack.subrange(stack.len() - count, stack.len() as int)),
        )
    } else {
        (stack, Err(underflow()))
    }
}

pub fn pop_arguments(stack: &mut Vec<VmValue>, count: usize) -> (r: Result<
    Vec<VmValue>,
    StepError,
>)
    ensures
        match r {
            Ok(v) => popped_arguments(value::vals(old(stack)@), count as nat) == (
                value::vals(final(stack)@),
                Ok::<Seq<Val>, Failure>(value::vals(v@)),
            ),
            Err(e) => popped_arguments(value::vals(old(stack)@), count as nat) == (
                value::vals(final(stack)@),
                Err::<Seq<Val>, Failure>(e@),
            ),
        },
{
    if count <= stack.len() {
        let at: usize = stack.len() - count;
        let tail = stack.split_off(at);
        proof {
            let before = old(stack)@;
            assert(value::vals(before.subrange(0, at as int)) =~= value::vals(before).take(
                at as int,
            ));
            assert(value::vals(tail@) =~= value::vals(before).subrange(
                at as int,
                before.len() as int,
            ));
        }
        Ok(tail)
    } else {
        Err(StepError::new(VmFaultCode::StackUnderflow, "operand stack underflow"))
    }
}

} // verus!
