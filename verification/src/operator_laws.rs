//! What the operators of the language compute, as instructions and inside evaluated texts.

use vstd::prelude::*;
use crate::ast::{BinaryOp, UnaryOp};
use crate::dispatch;
use crate::fault::Failure;
use crate::form_binding::NativeProviders;
use crate::form_resources;
use crate::form_steps::{self, Stepped, World};
use crate::forms::{Form, Task};
use crate::operand;
use crate::program::IntegerArithmeticPolicy;
use crate::state::{At, ExecutionPolicy, FiberModel, FrameModel, Outcome, VmModel};
use crate::text;
use crate::value::Val;

verus! {

/// A 64-bit integer that differs from a number by a multiple of two to the power of 64.
pub open spec fn wraps(r: i64, n: int) -> bool {
    (r - n) % 0x1_0000_0000_0000_0000 == 0
}

/// The 64-bit integer that is nearest to a number.
pub open spec fn clamps(r: i64, n: int) -> bool {
    &&& i64::MIN <= n <= i64::MAX ==> r == n
    &&& n > i64::MAX ==> r == i64::MAX
    &&& n < i64::MIN ==> r == i64::MIN
}

/// How a number is kept in 64 bits: wrapped, or clamped under the saturating profile.
pub open spec fn keeps(policy: IntegerArithmeticPolicy, r: i64, n: int) -> bool {
    match policy {
        IntegerArithmeticPolicy::ReferenceWrappingV1 => wraps(r, n),
        IntegerArithmeticPolicy::SnakeSaturatingV1 => clamps(r, n),
    }
}

pub open spec fn magnitude(n: int) -> int {
    if n < 0 {
        -n
    } else {
        n
    }
}

/// A division towards zero: a rest smaller than the divisor is left, on the side of the dividend.
pub open spec fn divides(a: int, b: int, q: int, m: int) -> bool {
    &&& a == q * b + m
    &&& magnitude(m) < magnitude(b)
    &&& m > 0 ==> a > 0
    &&& m < 0 ==> a < 0
}

/// Bit `i` of an integer in two's complement.
pub open spec fn bit(n: i64, i: u32) -> bool {
    (n >> i) & 1i64 == 1i64
}

/// How far a shift moves: an amount counts modulo 64.
pub open spec fn distance(b: i64) -> int {
    (b as int) % 64
}

/// One where a condition holds, else zero.
pub open spec fn tells(r: i64, condition: bool) -> bool {
    r == if condition {
        1int
    } else {
        0int
    }
}

/// An integer is what a binary operator gives for two integers; a divisor is not zero.
pub open spec fn results(
    policy: IntegerArithmeticPolicy,
    op: BinaryOp,
    a: i64,
    b: i64,
    r: i64,
) -> bool {
    match op {
        BinaryOp::Multiply => keeps(policy, r, a * b),
        BinaryOp::Divide => exists|q: int| #[trigger]
            divides(a as int, b as int, q, a - q * b) && keeps(policy, r, q),
        BinaryOp::Modulo => exists|q: int| #[trigger] divides(a as int, b as int, q, r as int),
        BinaryOp::Plus => keeps(policy, r, a + b),
        BinaryOp::Minus => keeps(policy, r, a - b),
        BinaryOp::ShiftLeft => forall|i: u32|
            i < 64 ==> #[trigger] bit(r, i) == (i >= distance(b) && bit(
                a,
                (i - distance(b)) as u32,
            )),
        BinaryOp::ShiftRight => forall|i: u32|
            i < 64 ==> #[trigger] bit(r, i) == bit(
                a,
                if i + distance(b) < 64 {
                    (i + distance(b)) as u32
                } else {
                    63
                },
            ),
        BinaryOp::Less => tells(r, a < b),
        BinaryOp::LessEqual => tells(r, a <= b),
        BinaryOp::Greater => tells(r, a > b),
        BinaryOp::GreaterEqual => tells(r, a >= b),
        BinaryOp::Equal => tells(r, a == b),
        BinaryOp::NotEqual => tells(r, a != b),
        BinaryOp::BitAnd => forall|i: u32|
            i < 64 ==> #[trigger] bit(r, i) == (bit(a, i) && bit(b, i)),
        BinaryOp::BitXor => forall|i: u32|
            i < 64 ==> #[trigger] bit(r, i) == (bit(a, i) != bit(b, i)),
        BinaryOp::BitOr => forall|i: u32|
            i < 64 ==> #[trigger] bit(r, i) == (bit(a, i) || bit(b, i)),
        BinaryOp::LogicalAnd => tells(r, a != 0 && b != 0),
        BinaryOp::LogicalXor => tells(r, (a != 0) != (b != 0)),
        BinaryOp::LogicalOr => tells(r, a != 0 || b != 0),
        BinaryOp::Nand => tells(r, a == 0 || b == 0),
        BinaryOp::Nor => tells(r, a == 0 && b == 0),
    }
}

/// An integer is what a unary operator gives for an integer.
pub open spec fn unary_results(policy: IntegerArithmeticPolicy, op: UnaryOp, a: i64, r: i64) -> bool {
    match op {
        UnaryOp::Plus => r == a,
        UnaryOp::Minus => keeps(policy, r, -a),
        UnaryOp::LogicalNot => tells(r, a == 0),
        UnaryOp::BitNot => forall|i: u32| i < 64 ==> #[trigger] bit(r, i) == !bit(a, i),
        UnaryOp::PreIncrement => keeps(policy, r, a + 1),
        UnaryOp::PreDecrement => keeps(policy, r, a - 1),
    }
}

/// The binary operators in the order in which instructions number them.
pub open spec fn numbered_operators() -> Seq<BinaryOp> {
    seq![
        BinaryOp::Multiply,
        BinaryOp::Divide,
        BinaryOp::Modulo,
        BinaryOp::Plus,
        BinaryOp::Minus,
        BinaryOp::ShiftLeft,
        BinaryOp::ShiftRight,
        BinaryOp::Less,
        BinaryOp::LessEqual,
        BinaryOp::Greater,
        BinaryOp::GreaterEqual,
        BinaryOp::Equal,
        BinaryOp::NotEqual,
        BinaryOp::BitAnd,
        BinaryOp::BitXor,
        BinaryOp::BitOr,
        BinaryOp::LogicalAnd,
        BinaryOp::LogicalXor,
        BinaryOp::LogicalOr,
        BinaryOp::Nand,
        BinaryOp::Nor,
    ]
}

proof fn lemma_bits_of_shifts(a: i64, k: u32, i: u32, j: u32)
    by (bit_vector)
    requires
        k < 64,
        i < 64,
        j < 64,
    ensures
        i < k ==> !(((a << k) >> i) & 1i64 == 1i64),
        i >= k && i - k == j ==> (((a << k) >> i) & 1i64 == 1i64) == ((a >> j) & 1i64 == 1i64),
        i + k < 64 && i + k == j ==> (((a >> k) >> i) & 1i64 == 1i64) == ((a >> j) & 1i64 == 1i64),
        i + k >= 64 && j == 63 ==> (((a >> k) >> i) & 1i64 == 1i64) == ((a >> j) & 1i64 == 1i64),
{
}

proof fn lemma_bits(a: i64, b: i64, i: u32)
    by (bit_vector)
    requires
        i < 64,
    ensures
        (((a & b) >> i) & 1i64 == 1i64) == ((a >> i) & 1i64 == 1i64 && (b >> i) & 1i64 == 1i64),
        (((a | b) >> i) & 1i64 == 1i64) == ((a >> i) & 1i64 == 1i64 || (b >> i) & 1i64 == 1i64),
        (((a ^ b) >> i) & 1i64 == 1i64) == (((a >> i) & 1i64 == 1i64) != ((b >> i) & 1i64
            == 1i64)),
        (((!a) >> i) & 1i64 == 1i64) == !((a >> i) & 1i64 == 1i64),
{
}

proof fn lemma_division(a: int, b: int)
    requires
        b != 0,
    ensures
        divides(a, b, operand::quotient(a, b), operand::remainder(a, b)),
        operand::remainder(a, b) == a - operand::quotient(a, b) * b,
{
    let x = magnitude(a);
    let y = magnitude(b);
    let q = x / y;
    let m = x % y;
    assert(x == q * y + m && 0 <= m < y && (x == 0 ==> m == 0)) by (nonlinear_arith)
        requires
            q == x / y,
            m == x % y,
            y > 0,
            x >= 0,
    ;
    assert(q * (-y) == -(q * y)) by (nonlinear_arith);
    assert((-q) * y == -(q * y)) by (nonlinear_arith);
    assert((-q) * (-y) == q * y) by (nonlinear_arith);
}

proof fn lemma_quotient_fits(a: i64, b: i64)
    requires
        b != 0,
    ensures
        i64::MIN <= operand::quotient(a as int, b as int) <= i64::MAX + 1,
        i64::MIN <= operand::remainder(a as int, b as int) <= i64::MAX,
{
    lemma_division(a as int, b as int);
    let x = magnitude(a as int);
    let y = magnitude(b as int);
    assert(0 <= x / y <= x) by (nonlinear_arith)
        requires
            x >= 0,
            y > 0,
    ;
}

/// What the operators give for two integers, division by zero aside.
pub proof fn lemma_integer_operators(op: BinaryOp, n: u8, a: i64, b: i64)
    requires
        n < 21,
        numbered_operators()[n as int] == op,
        (op is Divide || op is Modulo) ==> b != 0,
    ensures
        operand::binary(n, Val::Integer(a), Val::Integer(b)) matches Ok(Val::Integer(r)) && results(
            IntegerArithmeticPolicy::ReferenceWrappingV1,
            op,
            a,
            b,
            r,
        ),
{
    let r = operand::binary(n, Val::Integer(a), Val::Integer(b))->Ok_0->Integer_0;
    if op is Divide || op is Modulo {
        lemma_division(a as int, b as int);
        lemma_quotient_fits(a, b);
        let q = operand::quotient(a as int, b as int);
        assert(divides(a as int, b as int, q, a - q * b));
    } else if op is Multiply {
        let p = a * b;
        assert(r == vstd::wrapping::i64_specs::signed_crop(p));
        assert(wraps(r, p)) by {
            let m = p % 0x1_0000_0000_0000_0000;
            assert((m - p) % 0x1_0000_0000_0000_0000 == 0);
            assert((m - 0x1_0000_0000_0000_0000 - p) % 0x1_0000_0000_0000_0000 == 0);
        }
    } else if op is ShiftLeft {
        let k = operand::shift_amount(b);
        assert forall|i: u32| i < 64 implies #[trigger] bit(r, i) == (i >= distance(b) && bit(
            a,
            (i - distance(b)) as u32,
        )) by {
            if i >= k {
                lemma_bits_of_shifts(a, k, i, (i - k) as u32);
            } else {
                lemma_bits_of_shifts(a, k, i, 0);
            }
        }
    } else if op is ShiftRight {
        let k = operand::shift_amount(b);
        assert forall|i: u32| i < 64 implies #[trigger] bit(r, i) == bit(
            a,
            if i + distance(b) < 64 {
                (i + distance(b)) as u32
            } else {
                63
            },
        ) by {
            if i + k < 64 {
                lemma_bits_of_shifts(a, k, i, (i + k) as u32);
            } else {
                lemma_bits_of_shifts(a, k, i, 63);
            }
        }
    } else if op is BitAnd || op is BitOr || op is BitXor {
        assert forall|i: u32| i < 64 implies #[trigger] bit(r, i) == (if op is BitAnd {
            bit(a, i) && bit(b, i)
        } else if op is BitOr {
            bit(a, i) || bit(b, i)
        } else {
            bit(a, i) != bit(b, i)
        }) by {
            lemma_bits(a, b, i);
        }
    }
}

/// The first `k` characters of two texts agree, and then the first text ends or is smaller.
pub open spec fn parts_before(a: Seq<char>, b: Seq<char>, k: int) -> bool {
    &&& 0 <= k <= a.len()
    &&& k < b.len()
    &&& a.take(k) == b.take(k)
    &&& k < a.len() ==> a[k] < b[k]
}

/// A text stands before another one.
pub open spec fn stands_before(a: Seq<char>, b: Seq<char>) -> bool {
    exists|k: int| #[trigger] parts_before(a, b, k)
}

/// The order of texts goes by the first character in which they differ; a text stands before its
/// continuations.
pub proof fn law_text_order(a: Seq<char>, b: Seq<char>)
    ensures
        text::text_less(a, b) == stands_before(a, b),
    decreases a.len(),
{
    if b.len() > 0 {
        if a.len() == 0 {
            assert(a.take(0) =~= b.take(0));
            assert(parts_before(a, b, 0));
        } else if a[0] != b[0] {
            if a[0] < b[0] {
                assert(a.take(0) =~= b.take(0));
                assert(parts_before(a, b, 0));
            }
            if stands_before(a, b) {
                let k = choose|k: int| #[trigger] parts_before(a, b, k);
                if k > 0 {
                    assert(a.take(k)[0] == b.take(k)[0]);
                }
            }
        } else {
            let x = a.skip(1);
            let y = b.skip(1);
            law_text_order(x, y);
            if stands_before(x, y) {
                let k = choose|k: int| #[trigger] parts_before(x, y, k);
                let l = k + 1;
                assert forall|i: int| 0 <= i < l implies a[i] == #[trigger] b[i] by {
                    if i > 0 {
                        assert(x.take(k)[i - 1] == y.take(k)[i - 1]);
                    }
                }
                assert(a.take(l) =~= b.take(l));
                assert(parts_before(a, b, l));
            }
            if stands_before(a, b) {
                let k = choose|k: int| #[trigger] parts_before(a, b, k);
                assert(k > 0);
                let l = k - 1;
                assert forall|i: int| 0 <= i < l implies x[i] == #[trigger] y[i] by {
                    assert(a.take(k)[i + 1] == b.take(k)[i + 1]);
                }
                assert(x.take(l) =~= y.take(l));
                assert(parts_before(x, y, l));
            }
        }
    }
}

/// A value is what a binary operator gives for two texts.
pub open spec fn text_results(op: BinaryOp, a: Seq<char>, b: Seq<char>, v: Val) -> bool {
    match op {
        BinaryOp::Plus => v == Val::Text(a + b),
        BinaryOp::Less => v matches Val::Integer(r) && tells(r, stands_before(a, b)),
        BinaryOp::LessEqual => v matches Val::Integer(r) && tells(r, !stands_before(b, a)),
        BinaryOp::Greater => v matches Val::Integer(r) && tells(r, stands_before(b, a)),
        BinaryOp::GreaterEqual => v matches Val::Integer(r) && tells(r, !stands_before(a, b)),
        BinaryOp::Equal => v matches Val::Integer(r) && tells(r, a == b),
        BinaryOp::NotEqual => v matches Val::Integer(r) && tells(r, a != b),
        _ => false,
    }
}

/// The operators that two texts have.
pub open spec fn takes_texts(op: BinaryOp) -> bool {
    op is Plus || op is Less || op is LessEqual || op is Greater || op is GreaterEqual || op is Equal
        || op is NotEqual
}

/// A text holds so many copies of another one, one after the other.
pub open spec fn repeats(t: Seq<char>, a: Seq<char>, n: int) -> bool {
    &&& t.len() == a.len() * n
    &&& forall|i: int, j: int|
        0 <= i < n && 0 <= j < a.len() ==> #[trigger] t[i * a.len() + j] == a[j]
}

proof fn lemma_repeated(a: Seq<char>, n: nat)
    ensures
        repeats(text::repeated(a, n), a, n as int),
    decreases n,
{
    if n > 0 {
        lemma_repeated(a, (n - 1) as nat);
        let before = text::repeated(a, (n - 1) as nat);
        let t = text::repeated(a, n);
        let l = a.len() as int;
        assert(l * n == l * (n - 1) + l) by (nonlinear_arith);
        assert forall|i: int, j: int| 0 <= i < n && 0 <= j < l implies #[trigger] t[i * l + j]
            == a[j] by {
            if i == n - 1 {
                assert((n - 1) * l == l * (n - 1)) by (nonlinear_arith);
            } else {
                assert(0 <= i * l && i * l + j < l * (n - 1)) by (nonlinear_arith)
                    requires
                        0 <= i < n - 1,
                        0 <= j < l,
                ;
                assert(before[i * l + j] == a[j]);
            }
        }
    } else {
        assert(a.len() * 0 == 0);
    }
}

/// What the operators give for texts, and for a text and a count.
pub proof fn lemma_text_operators(op: BinaryOp, n: u8, a: Seq<char>, b: Seq<char>, count: i64)
    requires
        n < 21,
        numbered_operators()[n as int] == op,
    ensures
        ({
            let r = operand::binary(n, Val::Text(a), Val::Text(b));
            if takes_texts(op) {
                r matches Ok(v) && text_results(op, a, b, v)
            } else {
                r matches Err(e) && e.code is TypeMismatch
            }
        }),
        ({
            let r = operand::binary(n, Val::Text(a), Val::Integer(count));
            if op is Multiply && 0 <= count < 10000 {
                r matches Ok(Val::Text(t)) && repeats(t, a, count as int)
            } else {
                r matches Err(e) && e.code is TypeMismatch
            }
        }),
        operand::binary(n, Val::Integer(count), Val::Text(a)) == operand::binary(
            n,
            Val::Text(a),
            Val::Integer(count),
        ),
{
    law_text_order(a, b);
    law_text_order(b, a);
    if 0 <= count {
        lemma_repeated(a, count as nat);
    }
}

/// An instruction went on with the running frame: so many values were taken from its stack, and
/// one was pushed.
pub open spec fn leaves(before: FiberModel, after: FiberModel, taken: int, v: Val) -> bool {
    let frame = before.frames.last();
    after == (FiberModel {
        frames: before.frames.drop_last().push(
            FrameModel {
                stack: frame.stack.take(frame.stack.len() - taken).push(v),
                instruction: (frame.instruction + 1) as usize,
                ..frame
            },
        ),
        ..before
    })
}

/// The instruction for a binary operator takes the right operand from the top and the left one
/// from below it, and pushes what the operator of its number gives.
pub proof fn law_binary_instruction_on_integers(
    vm: VmModel,
    fiber: FiberModel,
    at: At,
    policy: ExecutionPolicy,
    a: i64,
    b: i64,
)
    requires
        at.opcode is Binary,
        at.payload.len() > 0,
        at.payload[0] < 21,
        fiber.frames.len() > 0,
        fiber.frames.last().stack.len() >= 2,
        fiber.frames.last().stack[fiber.frames.last().stack.len() - 2] == Val::Integer(a),
        fiber.frames.last().stack[fiber.frames.last().stack.len() - 1] == Val::Integer(b),
    ensures
        ({
            let op = numbered_operators()[at.payload[0] as int];
            let after = dispatch::executed(vm, fiber, at, policy);
            &&& after.0 == vm
            &&& if (op is Divide || op is Modulo) && b == 0 {
                after.2 matches Err(e) && e.code is DivideByZero
            } else {
                &&& after.1.frames.len() == fiber.frames.len()
                &&& after.1.frames.last().stack.last() matches Val::Integer(r) && results(
                    IntegerArithmeticPolicy::ReferenceWrappingV1,
                    op,
                    a,
                    b,
                    r,
                ) && leaves(fiber, after.1, 2, Val::Integer(r))
                &&& dispatch::within_limit(vm, after.1) ==> after.2 == Ok::<
                    Option<Outcome>,
                    Failure,
                >(Some(Outcome::Continue))
            }
        }),
{
    let n = at.payload[0];
    let op = numbered_operators()[n as int];
    if !((op is Divide || op is Modulo) && b == 0) {
        lemma_integer_operators(op, n, a, b);
        let r = operand::binary(n, Val::Integer(a), Val::Integer(b))->Ok_0;
        lemma_binary_leaves(vm, fiber, at, policy, r);
    }
}

proof fn lemma_binary_leaves(
    vm: VmModel,
    fiber: FiberModel,
    at: At,
    policy: ExecutionPolicy,
    r: Val,
)
    requires
        at.opcode is Binary,
        at.payload.len() > 0,
        fiber.frames.len() > 0,
        fiber.frames.last().stack.len() >= 2,
        operand::binary(
            at.payload[0],
            fiber.frames.last().stack[fiber.frames.last().stack.len() - 2],
            fiber.frames.last().stack.last(),
        ) == Ok::<Val, Failure>(r),
    ensures
        leaves(fiber, dispatch::executed(vm, fiber, at, policy).1, 2, r),
        dispatch::executed(vm, fiber, at, policy).0 == vm,
        dispatch::within_limit(vm, dispatch::executed(vm, fiber, at, policy).1)
            ==> dispatch::executed(vm, fiber, at, policy).2 == Ok::<Option<Outcome>, Failure>(
            Some(Outcome::Continue),
        ),
{
    let stack = fiber.frames.last().stack;
    let counted = dispatch::counted(fiber);
    assert(counted.top().stack == stack);
    assert(stack.drop_last().drop_last() =~= stack.take(stack.len() - 2));
    let after = dispatch::executed(vm, fiber, at, policy).1;
    assert(after.frames =~= fiber.frames.drop_last().push(after.frames.last()));
}

/// Comparing, joining and repeating texts: the instruction pushes what the operator of its number
/// gives.
pub proof fn law_binary_instruction_on_texts(
    vm: VmModel,
    fiber: FiberModel,
    at: At,
    policy: ExecutionPolicy,
    a: Seq<char>,
    right: Val,
)
    requires
        at.opcode is Binary,
        at.payload.len() > 0,
        at.payload[0] < 21,
        fiber.frames.len() > 0,
        fiber.frames.last().stack.len() >= 2,
        fiber.frames.last().stack[fiber.frames.last().stack.len() - 2] == Val::Text(a),
        fiber.frames.last().stack[fiber.frames.last().stack.len() - 1] == right,
    ensures
        ({
            let op = numbered_operators()[at.payload[0] as int];
            let after = dispatch::executed(vm, fiber, at, policy);
            let v = after.1.frames.last().stack.last();
            &&& right matches Val::Text(b) ==> if takes_texts(op) {
                text_results(op, a, b, v) && leaves(fiber, after.1, 2, v)
            } else {
                after.2 matches Err(e) && e.code is TypeMismatch
            }
            &&& right matches Val::Integer(n) ==> if op is Multiply && 0 <= n < 10000 {
                v matches Val::Text(t) && repeats(t, a, n as int) && leaves(fiber, after.1, 2, v)
            } else {
                after.2 matches Err(e) && e.code is TypeMismatch
            }
        }),
{
    let n = at.payload[0];
    let op = numbered_operators()[n as int];
    let counted = dispatch::counted(fiber);
    assert(counted.top().stack == fiber.frames.last().stack);
    match right {
        Val::Text(b) => {
            lemma_text_operators(op, n, a, b, 0);
        },
        Val::Integer(count) => {
            lemma_text_operators(op, n, a, a, count);
        },
        _ => {},
    }
    let r = operand::binary(n, Val::Text(a), right);
    if r is Ok {
        lemma_binary_leaves(vm, fiber, at, policy, r->Ok_0);
    }
}

/// The unary operators in the order in which instructions number them; the two that stand behind
/// their operand come last.
pub open spec fn numbered_unary_operators() -> Seq<UnaryOp> {
    seq![
        UnaryOp::Plus,
        UnaryOp::Minus,
        UnaryOp::LogicalNot,
        UnaryOp::BitNot,
        UnaryOp::PreIncrement,
        UnaryOp::PreDecrement,
        UnaryOp::PreIncrement,
        UnaryOp::PreDecrement,
    ]
}

proof fn lemma_unary_operators(op: UnaryOp, n: u8, a: i64)
    requires
        n < 8,
        numbered_unary_operators()[n as int] == op,
    ensures
        operand::unary(n, Val::Integer(a)) matches Ok(Val::Integer(r)) && unary_results(
            IntegerArithmeticPolicy::ReferenceWrappingV1,
            op,
            a,
            r,
        ),
{
    let r = operand::unary(n, Val::Integer(a))->Ok_0->Integer_0;
    if op is BitNot {
        assert forall|i: u32| i < 64 implies #[trigger] bit(r, i) == !bit(a, i) by {
            lemma_bits(a, a, i);
        }
    }
}

/// The instruction for a unary operator replaces the top value by what the operator of its number
/// gives.
pub proof fn law_unary_instruction(
    vm: VmModel,
    fiber: FiberModel,
    at: At,
    policy: ExecutionPolicy,
    a: i64,
)
    requires
        at.opcode is Unary,
        at.payload.len() > 0,
        at.payload[0] < 8,
        fiber.frames.len() > 0,
        fiber.frames.last().stack.len() >= 1,
        fiber.frames.last().stack.last() == Val::Integer(a),
    ensures
        ({
            let op = numbered_unary_operators()[at.payload[0] as int];
            let after = dispatch::executed(vm, fiber, at, policy);
            &&& after.0 == vm
            &&& after.1.frames.last().stack.last() matches Val::Integer(r) && unary_results(
                IntegerArithmeticPolicy::ReferenceWrappingV1,
                op,
                a,
                r,
            ) && leaves(fiber, after.1, 1, Val::Integer(r))
            &&& dispatch::within_limit(vm, after.1) ==> after.2 == Ok::<Option<Outcome>, Failure>(
                Some(Outcome::Continue),
            )
        }),
{
    let n = at.payload[0];
    lemma_unary_operators(numbered_unary_operators()[n as int], n, a);
    let stack = fiber.frames.last().stack;
    let counted = dispatch::counted(fiber);
    assert(counted.top().stack == stack);
    assert(stack.drop_last() =~= stack.take(stack.len() - 1));
    let after = dispatch::executed(vm, fiber, at, policy).1;
    assert(after.frames =~= fiber.frames.drop_last().push(after.frames.last()));
}

/// An evaluation took so many values and put one in their place; the step is done.
pub open spec fn yields(before: Form, after: Form, taken: int, v: Val) -> bool {
    after == (Form {
        work: before.work.drop_last(),
        values: before.values.take(before.values.len() - taken).push(v),
        ..before
    })
}

/// Applying a binary operator to two integers inside an evaluation leaves the operator's result:
/// wrapped to 64 bits, or clamped under the saturating profile. A division by zero fails, or gives
/// zero under that profile.
pub proof fn law_evaluated_binary_operator(
    w: World,
    providers: NativeProviders,
    op: BinaryOp,
    a: i64,
    b: i64,
)
    requires
        w.vm.program(w.form.generation) is Some,
        w.form.awaiting is None,
        w.form.work.len() > 0,
        w.form.work.last() == Task::ApplyBinary(op),
        w.form.values.len() >= 2,
        w.form.values[w.form.values.len() - 2] == Val::Integer(a),
        w.form.values[w.form.values.len() - 1] == Val::Integer(b),
    ensures
        ({
            let policy = w.vm.program(w.form.generation)->Some_0.integer_policy;
            let (after, r) = form_steps::stepped(w, providers);
            if (op is Divide || op is Modulo) && b == 0 {
                match policy {
                    IntegerArithmeticPolicy::ReferenceWrappingV1 => r matches Err(e)
                        && e.code is DivideByZero,
                    IntegerArithmeticPolicy::SnakeSaturatingV1 => yields(
                        w.form,
                        after.form,
                        2,
                        Val::Integer(0),
                    ),
                }
            } else {
                &&& after.form.values.last() matches Val::Integer(n) && results(
                    policy,
                    op,
                    a,
                    b,
                    n,
                ) && yields(w.form, after.form, 2, Val::Integer(n))
                &&& form_resources::checked(
                    after.form,
                    w.vm.config.maximum_operand_stack,
                ) is Ok ==> r == Ok::<Stepped, Failure>(Stepped::Pending)
            }
        }),
{
    reveal(form_steps::binary_applied);
    let n = form_steps::binary_number(op);
    let policy = w.vm.program(w.form.generation)->Some_0.integer_policy;
    assert(numbered_operators()[n as int] == op);
    let values = w.form.values;
    assert(values.drop_last().drop_last() =~= values.take(values.len() - 2));
    if !((op is Divide || op is Modulo) && b == 0) {
        lemma_integer_operators(op, n, a, b);
    }
    if policy is SnakeSaturatingV1 && (op is Divide || op is Modulo) && b != 0 {
        lemma_division(a as int, b as int);
        lemma_quotient_fits(a, b);
        let q = operand::quotient(a as int, b as int);
        assert(divides(a as int, b as int, q, a - q * b));
    }
}

/// Applying a binary operator to texts inside an evaluation joins, compares or repeats them.
pub proof fn law_evaluated_text_operator(
    w: World,
    providers: NativeProviders,
    op: BinaryOp,
    a: Seq<char>,
    right: Val,
)
    requires
        w.vm.program(w.form.generation) is Some,
        w.form.awaiting is None,
        w.form.work.len() > 0,
        w.form.work.last() == Task::ApplyBinary(op),
        w.form.values.len() >= 2,
        w.form.values[w.form.values.len() - 2] == Val::Text(a),
        w.form.values[w.form.values.len() - 1] == right,
    ensures
        ({
            let (after, r) = form_steps::stepped(w, providers);
            let v = after.form.values.last();
            &&& right matches Val::Text(b) ==> if takes_texts(op) {
                text_results(op, a, b, v) && yields(w.form, after.form, 2, v)
            } else {
                r matches Err(e) && e.code is TypeMismatch
            }
            &&& right matches Val::Integer(n) ==> if op is Multiply && 0 <= n < 10000 {
                v matches Val::Text(t) && repeats(t, a, n as int) && yields(
                    w.form,
                    after.form,
                    2,
                    v,
                )
            } else {
                r matches Err(e) && e.code is TypeMismatch
            }
        }),
{
    reveal(form_steps::binary_applied);
    let n = form_steps::binary_number(op);
    assert(numbered_operators()[n as int] == op);
    let values = w.form.values;
    assert(values.drop_last().drop_last() =~= values.take(values.len() - 2));
    match right {
        Val::Text(b) => {
            lemma_text_operators(op, n, a, b, 0);
        },
        Val::Integer(count) => {
            lemma_text_operators(op, n, a, a, count);
        },
        _ => {},
    }
}

/// Applying a unary operator to an integer inside an evaluation leaves the operator's result.
pub proof fn law_evaluated_unary_operator(w: World, providers: NativeProviders, op: UnaryOp, a: i64)
    requires
        w.vm.program(w.form.generation) is Some,
        w.form.awaiting is None,
        w.form.work.len() > 0,
        w.form.work.last() == Task::ApplyUnary(op),
        w.form.values.len() >= 1,
        w.form.values.last() == Val::Integer(a),
    ensures
        ({
            let policy = w.vm.program(w.form.generation)->Some_0.integer_policy;
            let (after, r) = form_steps::stepped(w, providers);
            &&& after.form.values.last() matches Val::Integer(n) && unary_results(policy, op, a, n)
                && yields(w.form, after.form, 1, Val::Integer(n))
            &&& form_resources::checked(
                after.form,
                w.vm.config.maximum_operand_stack,
            ) is Ok ==> r == Ok::<Stepped, Failure>(Stepped::Pending)
        }),
{
    reveal(form_steps::unary_applied);
    let n = crate::form_support::unary_number(op);
    assert(numbered_unary_operators()[n as int] == op);
    lemma_unary_operators(op, n, a);
    let values = w.form.values;
    assert(values.drop_last() =~= values.take(values.len() - 1));
}

/// A logical operator whose left operand decides leaves what the operator gives whatever the right
/// operand is, and evaluates nothing more; otherwise the right operand is evaluated first and the
/// operator applied to both.
pub proof fn law_logical_operators_stop_early(
    w: World,
    providers: NativeProviders,
    op: BinaryOp,
    right: crate::ast::Tree,
    a: i64,
)
    requires
        w.form.awaiting is None,
        w.form.work.len() > 0,
        w.form.work.last() == Task::EvaluateBinaryRight(op, right),
        w.form.values.len() >= 1,
        w.form.values.last() == Val::Integer(a),
    ensures
        ({
            let after = form_steps::stepped(w, providers).0.form;
            let decided = (op is LogicalAnd || op is Nand) && a == 0 || (op is LogicalOr
                || op is Nor) && a != 0;
            if decided {
                &&& after.values.last() matches Val::Integer(r) && yields(
                    w.form,
                    after,
                    1,
                    Val::Integer(r),
                ) && forall|policy: IntegerArithmeticPolicy, b: i64| #[trigger]
                    results(policy, op, a, b, r)
            } else {
                after == (Form {
                    work: w.form.work.drop_last().push(Task::ApplyBinary(op)).push(
                        Task::Evaluate(right),
                    ),
                    ..w.form
                })
            }
        }),
{
    reveal(form_steps::right_step);
    let values = w.form.values;
    assert(values.drop_last() =~= values.take(values.len() - 1));
    assert(values.drop_last().push(Val::Integer(a)) =~= values);
}

} // verus!
