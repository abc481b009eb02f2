//! BIT calls: an array is captured once and then worked on in bounded steps.

use vstd::prelude::*;
use crate::basic;
use crate::existvar::invalid;
use crate::fault::{self, Failure, FaultCategory, StepError, Trouble, VmError, VmFaultCode};
use crate::form_staged;
use crate::lookup;
use crate::operand;
use crate::program::{
    BitCallSpec, BitOperation, Opcode, ProgramGeneration, RuntimeExpressionShape, RuntimeStagedKind,
    StagedAuthorization,
};
use crate::state::{
    self, ArrayLease, ArrayLeaseOrigin, ArrayLeaseOwner, At, BitWork, ExecutionPolicy, Fiber,
    FiberModel, FiberState, Frame, FrameModel, InstructionPosition, Outcome, PendingBitCall,
    StepOutcome, Store, Vm, VmModel,
};
use crate::text;
use crate::value::{
    self, ArrayLeaseId, BytecodeType, FiberId, GenerationId, Place, PlaceDescriptor, SymbolKey, Val,
    VmValue,
};

verus! {

/// The name of a BIT operation.
pub open spec fn operation_text(operation: BitOperation) -> Seq<char> {
    match operation {
        BitOperation::SetBits => "BITSET"@,
        BitOperation::GetBit => "BITGET"@,
        BitOperation::ToggleBits => "BITTOGGLE"@,
        BitOperation::IndexOfFirst => "BITINDEXOFFIRST"@,
    }
}

fn operation_name(operation: BitOperation) -> (r: &'static str)
    ensures
        r@ == operation_text(operation),
{
    match operation {
        BitOperation::SetBits => "BITSET",
        BitOperation::GetBit => "BITGET",
        BitOperation::ToggleBits => "BITTOGGLE",
        BitOperation::IndexOfFirst => "BITINDEXOFFIRST",
    }
}

/// The argument behind the array at position `i` is given.
pub open spec fn is_present(spec: BitCallSpec, i: int) -> bool {
    0 <= i < 8 && (spec.present >> (i as u8)) & 1 == 1
}

fn present_at(spec: BitCallSpec, i: u8) -> (r: bool)
    ensures
        r == is_present(spec, i as int),
{
    i < 8 && (spec.present >> i) & 1 == 1
}

/// The number of given arguments among the first `n` behind the array.
pub open spec fn present_count(spec: BitCallSpec, n: nat) -> nat
    decreases n,
{
    if n == 0 {
        0
    } else {
        present_count(spec, (n - 1) as nat) + if is_present(spec, n - 1) {
            1nat
        } else {
            0
        }
    }
}

pub(crate) fn count_present(spec: BitCallSpec) -> (r: usize)
    ensures
        r == present_count(spec, spec.tail_count as nat),
        r <= 255,
{
    let mut total: usize = 0;
    let mut i: u8 = 0;
    while i < spec.tail_count
        invariant
            i <= spec.tail_count,
            total <= i,
            total == present_count(spec, i as nat),
        decreases spec.tail_count - i,
    {
        if present_at(spec, i) {
            total = total + 1;
        }
        i = i + 1;
    }
    total
}

/// What the arguments of a BIT call look like.
pub open spec fn call_shapes(value_type: BytecodeType, mutable: bool, spec: BitCallSpec) -> Seq<
    Option<RuntimeExpressionShape>,
> {
    seq![Some(RuntimeExpressionShape { value_type, variable: true, mutable })] + Seq::new(
        spec.tail_count as nat,
        |i: int|
            if is_present(spec, i) {
                Some(
                    RuntimeExpressionShape {
                        value_type: BytecodeType::Integer,
                        variable: false,
                        mutable: false,
                    },
                )
            } else {
                None
            },
    )
}

fn make_shapes(value_type: BytecodeType, mutable: bool, spec: BitCallSpec) -> (r: Vec<
    Option<RuntimeExpressionShape>,
>)
    ensures
        r@ == call_shapes(value_type, mutable, spec),
{
    let ghost all = call_shapes(value_type, mutable, spec);
    let mut out: Vec<Option<RuntimeExpressionShape>> = Vec::new();
    out.push(Some(RuntimeExpressionShape { value_type, variable: true, mutable }));
    let mut i: u8 = 0;
    while i < spec.tail_count
        invariant
            i <= spec.tail_count,
            all == call_shapes(value_type, mutable, spec),
            out@.len() == i + 1,
            forall|j: int| 0 <= j < out@.len() ==> #[trigger] out@[j] == all[j],
        decreases spec.tail_count - i,
    {
        if present_at(spec, i) {
            out.push(
                Some(
                    RuntimeExpressionShape {
                        value_type: BytecodeType::Integer,
                        variable: false,
                        mutable: false,
                    },
                ),
            );
        } else {
            out.push(None);
        }
        i = i + 1;
    }
    assert(out@ =~= all);
    out
}

/// A list of accepted shapes holds some shapes.
pub open spec fn accepts(
    accepted: Seq<Vec<Option<RuntimeExpressionShape>>>,
    shapes: Seq<Option<RuntimeExpressionShape>>,
) -> bool {
    exists|i: int| 0 <= i < accepted.len() && (#[trigger] accepted[i])@ == shapes
}

/// An authorization covers a BIT call.
pub open spec fn covers(
    operation: BitOperation,
    shapes: Seq<Option<RuntimeExpressionShape>>,
) -> spec_fn(StagedAuthorization) -> bool {
    |a: StagedAuthorization|
        text::same_ignoring_case(a.name@, operation_text(operation)) && a.kind == RuntimeStagedKind::Bit(operation)
            && accepts(a.accepted@, shapes)
}

pub(crate) fn same_shapes(
    a: &Vec<Option<RuntimeExpressionShape>>,
    b: &Vec<Option<RuntimeExpressionShape>>,
) -> (r: bool)
    ensures
        r == (a@ == b@),
{
    if a.len() != b.len() {
        return false;
    }
    let mut i: usize = 0;
    while i < a.len()
        invariant
            i <= a.len(),
            a@.len() == b@.len(),
            forall|j: int| 0 <= j < i ==> a@[j] == b@[j],
        decreases a.len() - i,
    {
        let same = match (a[i], b[i]) {
            (Some(x), Some(y)) => x == y,
            (None, None) => true,
            _ => false,
        };
        if !same {
            assert(a@[i as int] != b@[i as int]);
            return false;
        }
        i = i + 1;
    }
    assert(a@ =~= b@);
    true
}

fn is_covered(
    program: &ProgramGeneration,
    operation: BitOperation,
    shapes: &Vec<Option<RuntimeExpressionShape>>,
) -> (r: bool)
    ensures
        r == (lookup::first_index(program.staged_authorizations@, covers(operation, shapes@))
            is Some),
{
    let name = operation_name(operation);
    let ghost p = covers(operation, shapes@);
    let mut i: usize = 0;
    while i < program.staged_authorizations.len()
        invariant
            i <= program.staged_authorizations.len(),
            name@ == operation_text(operation),
            p == covers(operation, shapes@),
            forall|j: int| 0 <= j < i ==> !p(#[trigger] program.staged_authorizations@[j]),
        decreases program.staged_authorizations.len() - i,
    {
        let a = &program.staged_authorizations[i];
        if text::eq_ignore_ascii_case(a.name.as_str(), name) && a.kind == RuntimeStagedKind::Bit(operation) {
            let mut k: usize = 0;
            while k < a.accepted.len()
                invariant
                    k <= a.accepted.len(),
                    i < program.staged_authorizations.len(),
                    *a == program.staged_authorizations@[i as int],
                    p == covers(operation, shapes@),
                    forall|j: int| 0 <= j < i ==> !p(#[trigger] program.staged_authorizations@[j]),
                    text::same_ignoring_case(a.name@, operation_text(operation)),
                    a.kind == RuntimeStagedKind::Bit(operation),
                    forall|j: int| 0 <= j < k ==> (#[trigger] a.accepted@[j])@ != shapes@,
                decreases a.accepted.len() - k,
            {
                if same_shapes(&a.accepted[k], shapes) {
                    proof {
                        assert(a.accepted@[k as int]@ == shapes@);
                        assert(p(*a));
                        lookup::lemma_first_found(
                            program.staged_authorizations@,
                            p,
                            i as int,
                        );
                    }
                    return true;
                }
                k = k + 1;
            }
            assert(!p(*a));
        }
        i = i + 1;
    }
    proof {
        lookup::lemma_first_none(program.staged_authorizations@, p);
    }
    false
}

pub open spec fn forbidden(message: Seq<char>) -> Failure {
    Failure {
        category: FaultCategory::Permission,
        code: VmFaultCode::InvalidInstruction,
        message,
    }
}

/// The operands of the BIT call that an instruction opens, where the program may make it.
pub open spec fn call_spec(
    vm: VmModel,
    generation: GenerationId,
    function: SymbolKey,
    begin: int,
) -> Result<BitCallSpec, Failure> {
    match vm.program(generation) {
        None => Err(Failure::invalid("BIT generation is missing"@)),
        Some(program) => if !program.snake_data_apis {
            Err(forbidden("BIT operations are unavailable in this compatibility identity"@))
        } else if !opens_at(program, function, begin) {
            Err(Failure::invalid("BIT capture instruction is missing"@))
        } else {
            match program.spec_function(function)->0.code@[begin].bit_call {
                None => Err(Failure::invalid("BIT operands are malformed"@)),
                Some(spec) => match program.spec_global(spec.input) {
                    None => Err(Failure::invalid("BIT input schema is missing"@)),
                    Some(input) => if lookup::first_index(
                        program.staged_authorizations@,
                        covers(
                            spec.operation,
                            call_shapes(input.value_type, input.mutable, spec),
                        ),
                    ) is Some {
                        Ok(spec)
                    } else {
                        Err(
                            forbidden(
                                "BIT operation "@ + operation_text(spec.operation)
                                    + " lacks matching staged authorization"@,
                            ),
                        )
                    },
                },
            }
        },
    }
}

/// An instruction opens a BIT call.
pub open spec fn opens_at(program: ProgramGeneration, function: SymbolKey, begin: int) -> bool {
    program.spec_function(function) matches Some(f) && 0 <= begin < f.code@.len()
        && f.code@[begin].opcode is BeginBitCall
}

pub open spec fn spec_result(r: Result<BitCallSpec, StepError>) -> Result<BitCallSpec, Failure> {
    match r {
        Ok(s) => Ok(s),
        Err(e) => Err(e@),
    }
}

impl Vm {
    /// The operands of the BIT call that an instruction opens.
    pub fn bit_spec(&self, generation: GenerationId, function: SymbolKey, begin: usize) -> (r: Result<
        BitCallSpec,
        StepError,
    >)
        ensures
            spec_result(r) == call_spec(self@, generation, function, begin as int),
    {
        let program = match self.program(generation) {
            Some(p) => p,
            None => {
                return Err(invalid("BIT generation is missing"));
            },
        };
        if !program.snake_data_apis {
            return Err(
                StepError::classified(
                    FaultCategory::Permission,
                    VmFaultCode::InvalidInstruction,
                    "BIT operations are unavailable in this compatibility identity",
                ),
            );
        }
        let opening: Option<Option<BitCallSpec>> = match program.function(function) {
            Some(f) => {
                if begin < f.code.len() && f.code[begin].opcode == Opcode::BeginBitCall {
                    Some(f.code[begin].bit_call)
                } else {
                    None
                }
            },
            None => None,
        };
        let spec = match opening {
            None => {
                return Err(invalid("BIT capture instruction is missing"));
            },
            Some(None) => {
                return Err(invalid("BIT operands are malformed"));
            },
            Some(Some(s)) => s,
        };
        let input = match program.global(spec.input) {
            Some(g) => g,
            None => {
                return Err(invalid("BIT input schema is missing"));
            },
        };
        let shapes = make_shapes(input.value_type, input.mutable, spec);
        if is_covered(&*program, spec.operation, &shapes) {
            Ok(spec)
        } else {
            let message = text::join3(
                "BIT operation ",
                operation_name(spec.operation),
                " lacks matching staged authorization",
            );
            Err(
                StepError::classified(
                    FaultCategory::Permission,
                    VmFaultCode::InvalidInstruction,
                    message.as_str(),
                ),
            )
        }
    }
}

/// A frame holds a lease: one of its BIT calls does, or one that its suspended formatted-text
/// evaluation has stored.
pub open spec fn frame_holds(frame: FrameModel, id: ArrayLeaseId) -> bool {
    ||| exists|k: int|
        0 <= k < frame.bit_calls.len() && (#[trigger] frame.bit_calls[k]).lease == id
    ||| frame.runtime_form matches Some(form) && form_staged::held_leases(form.work).contains(id)
}

/// A frame of a fiber holds a lease.
pub open spec fn holds(fiber: FiberModel, id: ArrayLeaseId) -> bool {
    exists|f: int| 0 <= f < fiber.frames.len() && frame_holds(#[trigger] fiber.frames[f], id)
}

/// A lease is held by a frame of some fiber, or is among others that are held.
pub open spec fn is_live(
    fibers: Seq<Fiber>,
    current: Option<FiberModel>,
    others: Seq<ArrayLeaseId>,
    id: ArrayLeaseId,
) -> bool {
    ||| others.contains(id)
    ||| exists|i: int| 0 <= i < fibers.len() && holds((#[trigger] fibers[i])@, id)
    ||| current matches Some(f) && holds(f, id)
}

/// The leases that two lots of fibers hold are those of either lot, and no fibers hold none.
pub proof fn law_live_leases_add_up(
    a: Seq<Fiber>,
    b: Seq<Fiber>,
    current: Option<FiberModel>,
    others: Seq<ArrayLeaseId>,
    id: ArrayLeaseId,
)
    ensures
        is_live(a + b, current, others, id) <==> is_live(a, None, Seq::empty(), id) || is_live(
            b,
            None,
            Seq::empty(),
            id,
        ) || (current matches Some(f) && holds(f, id)) || others.contains(id),
        !is_live(Seq::empty(), None, Seq::empty(), id),
{
    let both = a + b;
    if exists|i: int| 0 <= i < a.len() && holds((#[trigger] a[i])@, id) {
        let i = choose|i: int| 0 <= i < a.len() && holds((#[trigger] a[i])@, id);
        assert(both[i] == a[i]);
    }
    if exists|i: int| 0 <= i < b.len() && holds((#[trigger] b[i])@, id) {
        let i = choose|i: int| 0 <= i < b.len() && holds((#[trigger] b[i])@, id);
        assert(both[a.len() + i] == b[i]);
    }
    if exists|i: int| 0 <= i < both.len() && holds((#[trigger] both[i])@, id) {
        let i = choose|i: int| 0 <= i < both.len() && holds((#[trigger] both[i])@, id);
        if i < a.len() {
            assert(holds(a[i]@, id));
        } else {
            assert(holds(b[i - a.len()]@, id));
        }
    }
}

fn push_calls(out: &mut Vec<ArrayLeaseId>, calls: &Vec<PendingBitCall>)
    ensures
        forall|id: ArrayLeaseId| #[trigger]
            final(out)@.contains(id) <==> old(out)@.contains(id) || (exists|k: int|
                0 <= k < calls@.len() && (#[trigger] calls@[k]).lease == id),
{
    let ghost start = out@;
    let mut k: usize = 0;
    while k < calls.len()
        invariant
            k <= calls.len(),
            forall|id: ArrayLeaseId| #[trigger]
                out@.contains(id) <==> start.contains(id) || (exists|j: int|
                    0 <= j < k && (#[trigger] calls@[j]).lease == id),
        decreases calls.len() - k,
    {
        let ghost last = out@;
        let lease = calls[k].lease;
        out.push(lease);
        proof {
            assert forall|id: ArrayLeaseId| #[trigger] out@.contains(id) <==> start.contains(id) || (
            exists|j: int| 0 <= j < k + 1 && (#[trigger] calls@[j]).lease == id) by {
                lemma_push_contains(last, lease, id);
                if id == lease {
                    assert(calls@[k as int].lease == id);
                }
            }
        }
        k = k + 1;
    }
}

fn push_all(out: &mut Vec<ArrayLeaseId>, more: &Vec<ArrayLeaseId>)
    ensures
        forall|id: ArrayLeaseId| #[trigger]
            final(out)@.contains(id) <==> old(out)@.contains(id) || more@.contains(id),
{
    let ghost start = out@;
    let mut k: usize = 0;
    while k < more.len()
        invariant
            k <= more.len(),
            forall|id: ArrayLeaseId| #[trigger]
                out@.contains(id) <==> start.contains(id) || (exists|j: int|
                    0 <= j < k && #[trigger] more@[j] == id),
        decreases more.len() - k,
    {
        let ghost last = out@;
        let lease = more[k];
        out.push(lease);
        proof {
            assert forall|id: ArrayLeaseId| #[trigger] out@.contains(id) <==> start.contains(id) || (
            exists|j: int| 0 <= j < k + 1 && #[trigger] more@[j] == id) by {
                lemma_push_contains(last, lease, id);
                if id == lease {
                    assert(more@[k as int] == id);
                }
            }
        }
        k = k + 1;
    }
}

fn push_held(out: &mut Vec<ArrayLeaseId>, fiber: &Fiber)
    ensures
        forall|id: ArrayLeaseId| #[trigger]
            final(out)@.contains(id) <==> old(out)@.contains(id) || holds(fiber@, id),
{
    let ghost start = out@;
    let mut f: usize = 0;
    while f < fiber.frames.len()
        invariant
            f <= fiber.frames.len(),
            forall|id: ArrayLeaseId| #[trigger]
                out@.contains(id) <==> start.contains(id) || (exists|g: int|
                    0 <= g < f && frame_holds(#[trigger] fiber@.frames[g], id)),
        decreases fiber.frames.len() - f,
    {
        let ghost before = out@;
        let frame = &fiber.frames[f];
        assert(frame@ == fiber@.frames[f as int]);
        push_calls(out, &frame.bit_calls);
        let ghost called = out@;
        match &frame.runtime_form {
            Some(form) => {
                let stored = form.bit_leases();
                push_all(out, &stored);
            },
            None => {},
        }
        proof {
            assert forall|id: ArrayLeaseId| #[trigger] out@.contains(id) <==> start.contains(id)
                || (exists|g: int|
                0 <= g < f + 1 && frame_holds(#[trigger] fiber@.frames[g], id)) by {
                assert(called.contains(id) <==> before.contains(id) || (exists|k: int|
                    0 <= k < frame@.bit_calls.len() && (#[trigger] frame@.bit_calls[k]).lease
                        == id));
                assert(out@.contains(id) <==> before.contains(id) || frame_holds(frame@, id));
                if frame_holds(frame@, id) {
                    assert(frame_holds(fiber@.frames[f as int], id));
                }
            }
        }
        f = f + 1;
    }
}

proof fn lemma_push_contains(s: Seq<ArrayLeaseId>, x: ArrayLeaseId, id: ArrayLeaseId)
    ensures
        s.push(x).contains(id) <==> s.contains(id) || id == x,
{
    if s.contains(id) {
        let i = choose|i: int| 0 <= i < s.len() && s[i] == id;
        assert(s.push(x)[i] == id);
    }
    if id == x {
        assert(s.push(x)[s.len() as int] == id);
    }
    if s.push(x).contains(id) && id != x {
        let i = choose|i: int| 0 <= i < s.push(x).len() && s.push(x)[i] == id;
        assert(s[i] == id);
    }
}

/// All leases that are held: by frames of the fibers, and the reference leases that are given.
pub fn live_bit_leases(fibers: &Vec<Fiber>, current: Option<&Fiber>, others: &Vec<ArrayLeaseId>) -> (r:
    Vec<ArrayLeaseId>)
    ensures
        forall|id: ArrayLeaseId| #[trigger]
            r@.contains(id) <==> is_live(
                fibers@,
                match current {
                    Some(f) => Some(f@),
                    None => None,
                },
                others@,
                id,
            ),
{
    let mut out: Vec<ArrayLeaseId> = Vec::new();
    let mut n: usize = 0;
    while n < others.len()
        invariant
            n <= others.len(),
            out@ == others@.take(n as int),
        decreases others.len() - n,
    {
        out.push(others[n]);
        n = n + 1;
        assert(out@ =~= others@.take(n as int));
    }
    assert(out@ =~= others@);
    let mut i: usize = 0;
    while i < fibers.len()
        invariant
            i <= fibers.len(),
            forall|id: ArrayLeaseId| #[trigger]
                out@.contains(id) <==> others@.contains(id) || (exists|j: int|
                    0 <= j < i && holds((#[trigger] fibers@[j])@, id)),
        decreases fibers.len() - i,
    {
        let ghost before = out@;
        push_held(&mut out, &fibers[i]);
        proof {
            assert forall|id: ArrayLeaseId| #[trigger] out@.contains(id) <==> others@.contains(id)
                || (exists|j: int| 0 <= j < i + 1 && holds((#[trigger] fibers@[j])@, id)) by {
                if holds(fibers@[i as int]@, id) {
                    assert(holds(fibers@[i as int]@, id));
                }
                assert(before.contains(id) <==> others@.contains(id) || (exists|j: int|
                    0 <= j < i && holds((#[trigger] fibers@[j])@, id)));
            }
        }
        i = i + 1;
    }
    match current {
        Some(f) => {
            push_held(&mut out, f);
        },
        None => {},
    }
    out
}

/// The leases that satisfy a predicate, in order.
pub open spec fn kept(leases: Seq<ArrayLease>, p: spec_fn(ArrayLease) -> bool) -> Seq<ArrayLease>
    decreases leases.len(),
{
    if leases.len() == 0 {
        Seq::empty()
    } else {
        let before = kept(leases.drop_last(), p);
        if p(leases.last()) {
            before.push(leases.last())
        } else {
            before
        }
    }
}

pub open spec fn live_lease(
    fibers: Seq<Fiber>,
    current: Option<FiberModel>,
    others: Seq<ArrayLeaseId>,
) -> spec_fn(ArrayLease) -> bool {
    |l: ArrayLease| is_live(fibers, current, others, l.id)
}

pub open spec fn other_than(id: ArrayLeaseId) -> spec_fn(ArrayLease) -> bool {
    |l: ArrayLease| l.id != id
}

fn contains_lease(s: &Vec<ArrayLeaseId>, id: ArrayLeaseId) -> (r: bool)
    ensures
        r == s@.contains(id),
{
    let mut i: usize = 0;
    while i < s.len()
        invariant
            i <= s.len(),
            forall|j: int| 0 <= j < i ==> s@[j] != id,
        decreases s.len() - i,
    {
        if s[i] == id {
            return true;
        }
        i = i + 1;
    }
    false
}

fn retain_leases(leases: &mut Vec<ArrayLease>, roots: &Vec<ArrayLeaseId>, Ghost(p): Ghost<
    spec_fn(ArrayLease) -> bool,
>)
    requires
        forall|l: ArrayLease| #[trigger] p(l) <==> roots@.contains(l.id),
    ensures
        final(leases)@ == kept(old(leases)@, p),
{
    let mut out: Vec<ArrayLease> = Vec::new();
    let mut i: usize = 0;
    assert(leases@.take(0) =~= Seq::<ArrayLease>::empty());
    while i < leases.len()
        invariant
            i <= leases.len(),
            leases@ == old(leases)@,
            forall|l: ArrayLease| #[trigger] p(l) <==> roots@.contains(l.id),
            out@ == kept(leases@.take(i as int), p),
        decreases leases.len() - i,
    {
        proof {
            assert(leases@.take(i + 1).drop_last() =~= leases@.take(i as int));
            assert(leases@.take(i + 1).last() == leases@[i as int]);
            assert(p(leases@[i as int]) <==> roots@.contains(leases@[i as int].id));
        }
        if contains_lease(roots, leases[i].id) {
            out.push(leases[i]);
        }
        i = i + 1;
    }
    assert(leases@.take(i as int) =~= leases@);
    *leases = out;
}

pub(crate) fn release_lease(leases: &mut Vec<ArrayLease>, id: ArrayLeaseId)
    ensures
        final(leases)@ == kept(old(leases)@, other_than(id)),
{
    let mut out: Vec<ArrayLease> = Vec::new();
    let mut i: usize = 0;
    assert(leases@.take(0) =~= Seq::<ArrayLease>::empty());
    while i < leases.len()
        invariant
            i <= leases.len(),
            leases@ == old(leases)@,
            out@ == kept(leases@.take(i as int), other_than(id)),
        decreases leases.len() - i,
    {
        proof {
            assert(leases@.take(i + 1).drop_last() =~= leases@.take(i as int));
            assert(leases@.take(i + 1).last() == leases@[i as int]);
        }
        if leases[i].id != id {
            out.push(leases[i]);
        }
        i = i + 1;
    }
    assert(leases@.take(i as int) =~= leases@);
    *leases = out;
}

/// The machine with the leases that are held, of those it has.
pub open spec fn pruned(
    vm: VmModel,
    current: Option<FiberModel>,
    others: Seq<ArrayLeaseId>,
) -> VmModel {
    VmModel {
        store: Store {
            leases: kept(vm.store.leases, live_lease(vm.fibers, current, others)),
            ..vm.store
        },
        ..vm
    }
}

impl Vm {
    /// Gives back the leases that nothing holds. `others` are the reference leases.
    pub fn prune_bit_leases(&mut self, others: &Vec<ArrayLeaseId>)
        ensures
            final(self)@ == pruned(old(self)@, None, others@),
    {
        let roots = live_bit_leases(&self.fibers, None, others);
        let ghost p = live_lease(self.fibers@, None, others@);
        retain_leases(&mut self.memory.array_leases, &roots, Ghost(p));
        assert(self@ =~= pruned(old(self)@, None, others@));
    }

    pub(crate) fn prune_with(&mut self, fiber: &Fiber, others: &Vec<ArrayLeaseId>)
        ensures
            final(self)@ == pruned(old(self)@, Some(fiber@), others@),
    {
        let roots = live_bit_leases(&self.fibers, Some(fiber), others);
        let ghost p = live_lease(self.fibers@, Some(fiber@), others@);
        retain_leases(&mut self.memory.array_leases, &roots, Ghost(p));
        assert(self@ =~= pruned(old(self)@, Some(fiber@), others@));
    }
}

/// Pruning gives back exactly the leases that nothing holds.
pub proof fn law_pruning_keeps_held_leases(
    vm: VmModel,
    current: Option<FiberModel>,
    others: Seq<ArrayLeaseId>,
    lease: ArrayLease,
)
    ensures
        pruned(vm, current, others).store.leases.contains(lease) <==> vm.store.leases.contains(lease)
            && is_live(vm.fibers, current, others, lease.id),
{
    lemma_kept(vm.store.leases, live_lease(vm.fibers, current, others), lease);
}

proof fn lemma_kept(leases: Seq<ArrayLease>, p: spec_fn(ArrayLease) -> bool, lease: ArrayLease)
    ensures
        kept(leases, p).contains(lease) <==> leases.contains(lease) && p(lease),
    decreases leases.len(),
{
    if leases.len() > 0 {
        lemma_kept(leases.drop_last(), p, lease);
        let before = kept(leases.drop_last(), p);
        let last = leases.last();
        if leases.contains(lease) {
            let i = choose|i: int| 0 <= i < leases.len() && leases[i] == lease;
            if i < leases.len() - 1 {
                assert(leases.drop_last()[i] == lease);
            }
        }
        if leases.drop_last().contains(lease) {
            let i = choose|i: int|
                0 <= i < leases.drop_last().len() && leases.drop_last()[i] == lease;
            assert(leases[i] == lease);
        }
        if p(last) {
            if before.contains(lease) {
                let i = choose|i: int| 0 <= i < before.len() && before[i] == lease;
                assert(before.push(last)[i] == lease);
            }
            assert(before.push(last)[before.len() as int] == last);
            if before.push(last).contains(lease) && lease != last {
                let i = choose|i: int|
                    0 <= i < before.push(last).len() && before.push(last)[i] == lease;
                assert(before[i] == lease);
            }
        }
        assert(leases[leases.len() - 1] == last);
    }
}

/// What an operation on a BIT call came to.
pub enum BitStep {
    /// The operation is none of this family.
    Other,
    /// The array at this place is to be captured; see [`Vm::finish_bit_capture`].
    Capture { token: PlaceDescriptor, spec: BitCallSpec },
    /// So many cells at most are to be worked on; see [`Vm::finish_bit_work`].
    Work {
        spec: BitCallSpec,
        values: Vec<i64>,
        lease: ArrayLeaseId,
        length: u64,
        work: Option<BitWork>,
        limit: usize,
    },
}

/// Mathematical content of a [`BitStep`].
pub enum BitModel {
    Other,
    Capture { token: Place, spec: BitCallSpec },
    Work {
        spec: BitCallSpec,
        values: Seq<i64>,
        lease: ArrayLeaseId,
        length: u64,
        work: Option<BitWork>,
        limit: usize,
    },
}

impl View for BitStep {
    type V = BitModel;

    open spec fn view(&self) -> BitModel {
        match self {
            BitStep::Other => BitModel::Other,
            BitStep::Capture { token, spec } => BitModel::Capture { token: token@, spec: *spec },
            BitStep::Work { spec, values, lease, length, work, limit } => BitModel::Work {
                spec: *spec,
                values: values@,
                lease: *lease,
                length: *length,
                work: *work,
                limit: *limit,
            },
        }
    }
}

/// Machine, fiber and what an operation on a BIT call came to.
pub type BitCalled = (VmModel, FiberModel, Result<BitModel, Failure>);

/// Opens a BIT call.
pub open spec fn capture_step(
    vm: VmModel,
    fiber: FiberModel,
    at: At,
    others: Seq<ArrayLeaseId>,
) -> BitCalled {
    match call_spec(vm, at.generation, at.function, at.instruction as int) {
        Err(e) => (vm, fiber, Err(e)),
        Ok(spec) => if fiber.frames.len() == 0 {
            (vm, fiber, Err(Failure::invalid("BIT owner is missing"@)))
        } else if fiber.top().operand_slots() + 2 > vm.config.maximum_operand_stack {
            (
                vm,
                fiber,
                Err(
                    Failure::of(
                        VmFaultCode::ResourceLimit,
                        "BIT capture exceeds operand limit"@,
                    ),
                ),
            )
        } else {
            (
                pruned(vm, Some(fiber), others),
                fiber,
                Ok(
                    BitModel::Capture {
                        token: Place {
                            variable: spec.input,
                            fiber: Some(fiber.id),
                            frame: Some(fiber.top().id),
                            ..state::nowhere()
                        },
                        spec,
                    },
                ),
            )
        },
    }
}

/// The integers in a stack from a position on; nothing where another value lies there.
pub open spec fn integers_from(stack: Seq<Val>, start: int) -> Option<Seq<i64>>
    decreases stack.len() - start,
{
    if start >= stack.len() {
        Some(Seq::empty())
    } else {
        match stack[start] {
            Val::Integer(n) => match integers_from(stack, start + 1) {
                Some(rest) => Some(seq![n] + rest),
                None => None,
            },
            _ => None,
        }
    }
}

/// The most cells that one step works on.
pub open spec fn work_limit(policy: ExecutionPolicy) -> usize {
    let least = if policy.remaining_instructions < policy.remaining_quantum {
        policy.remaining_instructions as int
    } else {
        policy.remaining_quantum as int
    };
    if least < 1 {
        1
    } else if least > 256 {
        256
    } else {
        least as usize
    }
}

/// Works on the array of the open BIT call.
pub open spec fn work_step(vm: VmModel, fiber: FiberModel, at: At, policy: ExecutionPolicy) -> BitCalled {
    match operand::u32_at(at.payload, 0) {
        Err(e) => (vm, fiber, Err(e)),
        Ok(begin) => match call_spec(vm, at.generation, at.function, begin as int) {
            Err(e) => (vm, fiber, Err(e)),
            Ok(spec) => if fiber.frames.len() == 0 {
                (vm, fiber, Err(Failure::invalid("BIT owner is missing"@)))
            } else if fiber.top().bit_calls.len() == 0 {
                (vm, fiber, Err(Failure::invalid("BIT pending capture is missing"@)))
            } else {
                let owner = fiber.top();
                let pending = owner.bit_calls.last();
                if pending.begin != begin || pending.spec != spec || owner.stack.len()
                    != pending.stack_index + 1 + present_count(spec, spec.tail_count as nat)
                    || owner.stack[pending.stack_index as int] != Val::Integer(begin as i64) {
                    (vm, fiber, Err(Failure::invalid("BIT completion stack or capture differs"@)))
                } else {
                    match integers_from(owner.stack, pending.stack_index + 1) {
                        None => (
                            vm,
                            fiber,
                            Err(Failure::invalid("BIT scalar operand is not Integer"@)),
                        ),
                        Some(values) => match lookup::first_index(
                            vm.store.leases,
                            state::lease_is(pending.lease),
                        ) {
                            None => (
                                vm,
                                fiber,
                                Err(Failure::invalid("BIT backing lease is missing"@)),
                            ),
                            Some(i) => (
                                vm,
                                fiber,
                                Ok(
                                    BitModel::Work {
                                        spec,
                                        values,
                                        lease: pending.lease,
                                        length: vm.store.leases[i].length,
                                        work: pending.work,
                                        limit: work_limit(policy),
                                    },
                                ),
                            ),
                        },
                    }
                }
            },
        },
    }
}

/// One operation of this family. The recording of the path is given up.
pub open spec fn bit_called(
    vm: VmModel,
    fiber: FiberModel,
    at: At,
    opcode: Opcode,
    policy: ExecutionPolicy,
    others: Seq<ArrayLeaseId>,
) -> BitCalled {
    match opcode {
        Opcode::BeginBitCall => capture_step(vm.without_path_memo(fiber.id), fiber, at, others),
        Opcode::FinishBitCall => work_step(vm.without_path_memo(fiber.id), fiber, at, policy),
        _ => (vm, fiber, Ok(BitModel::Other)),
    }
}

pub(crate) fn read_integers(stack: &Vec<VmValue>, start: usize) -> (r: Option<Vec<i64>>)
    requires
        start <= stack@.len(),
    ensures
        match r {
            Some(v) => integers_from(value::vals(stack@), start as int) == Some(v@),
            None => integers_from(value::vals(stack@), start as int) is None,
        },
{
    let ghost all = value::vals(stack@);
    let ghost whole = integers_from(all, start as int);
    let mut out: Vec<i64> = Vec::new();
    let mut i: usize = start;
    proof {
        if whole is Some {
            assert(Seq::<i64>::empty() + whole->0 =~= whole->0);
        }
    }
    while i < stack.len()
        invariant
            start <= i <= stack@.len(),
            all == value::vals(stack@),
            whole == integers_from(all, start as int),
            match integers_from(all, i as int) {
                Some(rest) => whole == Some(out@ + rest),
                None => whole is None,
            },
        decreases stack.len() - i,
    {
        match &stack[i] {
            VmValue::Integer(n) => {
                let ghost before = out@;
                out.push(*n);
                proof {
                    if integers_from(all, i + 1) is Some {
                        let rest = integers_from(all, i + 1)->0;
                        assert(before + (seq![*n] + rest) =~= out@ + rest);
                    }
                }
            },
            _ => {
                return None;
            },
        }
        i = i + 1;
    }
    assert(out@ + Seq::<i64>::empty() =~= out@);
    Some(out)
}

fn limit_of(policy: ExecutionPolicy) -> (r: usize)
    ensures
        r == work_limit(policy),
{
    let least: u64 = if policy.remaining_instructions < policy.remaining_quantum as u64 {
        policy.remaining_instructions
    } else {
        policy.remaining_quantum as u64
    };
    if least < 1 {
        1
    } else if least > 256 {
        256
    } else {
        least as usize
    }
}

impl Vm {
    pub(crate) fn find_lease(&self, id: ArrayLeaseId) -> (r: Option<ArrayLease>)
        ensures
            match r {
                Some(l) => lookup::first_index(self@.store.leases, state::lease_is(id)) matches Some(
                    i,
                ) && self@.store.leases[i] == l,
                None => lookup::first_index(self@.store.leases, state::lease_is(id)) is None,
            },
    {
        let mut i: usize = 0;
        while i < self.memory.array_leases.len()
            invariant
                i <= self.memory.array_leases.len(),
                forall|j: int|
                    0 <= j < i ==> !state::lease_is(id)(#[trigger] self.memory.array_leases@[j]),
            decreases self.memory.array_leases.len() - i,
        {
            if self.memory.array_leases[i].id == id {
                proof {
                    lookup::lemma_first_found(
                        self.memory.array_leases@,
                        state::lease_is(id),
                        i as int,
                    );
                }
                return Some(self.memory.array_leases[i]);
            }
            i = i + 1;
        }
        proof {
            lookup::lemma_first_none(self.memory.array_leases@, state::lease_is(id));
        }
        None
    }

    fn begin_capture(
        &mut self,
        fiber: &Fiber,
        position: &InstructionPosition<'_>,
        others: &Vec<ArrayLeaseId>,
    ) -> (r: Result<BitStep, StepError>)
        ensures
            (final(self)@, fiber@, fault::outcome(r)) == capture_step(
                old(self)@,
                fiber@,
                position@,
                others@,
            ),
    {
        let spec = match self.bit_spec(
            position.generation,
            position.function,
            position.instruction,
        ) {
            Ok(s) => s,
            Err(e) => {
                return Err(e);
            },
        };
        if fiber.frames.len() == 0 {
            return Err(invalid("BIT owner is missing"));
        }
        let fits = match fiber.top().operand_slots() {
            None => false,
            Some(n) => match n.checked_add(2) {
                None => false,
                Some(m) => m <= self.config.maximum_operand_stack,
            },
        };
        if !fits {
            return Err(
                StepError::new(VmFaultCode::ResourceLimit, "BIT capture exceeds operand limit"),
            );
        }
        let mut token = PlaceDescriptor::of_variable(spec.input);
        token.fiber = Some(fiber.id);
        token.frame = Some(fiber.top().id);
        self.prune_with(fiber, others);
        Ok(BitStep::Capture { token, spec })
    }

    fn prepare_work(
        &self,
        fiber: &Fiber,
        position: &InstructionPosition<'_>,
        policy: ExecutionPolicy,
    ) -> (r: Result<BitStep, StepError>)
        ensures
            (self@, fiber@, fault::outcome(r)) == work_step(self@, fiber@, position@, policy),
    {
        let begin: u32 = match operand::read_u32(position.payload, 0) {
            Ok(n) => n,
            Err(e) => {
                return Err(e);
            },
        };
        let spec = match self.bit_spec(position.generation, position.function, begin as usize) {
            Ok(s) => s,
            Err(e) => {
                return Err(e);
            },
        };
        if fiber.frames.len() == 0 {
            return Err(invalid("BIT owner is missing"));
        }
        let owner = fiber.top();
        if owner.bit_calls.len() == 0 {
            return Err(invalid("BIT pending capture is missing"));
        }
        let pending = owner.bit_calls[owner.bit_calls.len() - 1];
        let above: usize = count_present(spec) + 1;
        let placed: bool = owner.stack.len() >= above && owner.stack.len() - above
            == pending.stack_index;
        if pending.begin != begin as usize || pending.spec != spec || !placed {
            return Err(invalid("BIT completion stack or capture differs"));
        }
        let marked: bool = match &owner.stack[pending.stack_index] {
            VmValue::Integer(n) => *n == begin as i64,
            _ => false,
        };
        if !marked {
            return Err(invalid("BIT completion stack or capture differs"));
        }
        let values = match read_integers(&owner.stack, pending.stack_index + 1) {
            Some(v) => v,
            None => {
                return Err(invalid("BIT scalar operand is not Integer"));
            },
        };
        match self.find_lease(pending.lease) {
            None => Err(invalid("BIT backing lease is missing")),
            Some(lease) => Ok(
                BitStep::Work {
                    spec,
                    values,
                    lease: pending.lease,
                    length: lease.length,
                    work: pending.work,
                    limit: limit_of(policy),
                },
            ),
        }
    }

    /// Executes one operation of this family on the running frame. The capture of an array and the work
    /// on its cells are handed out. `others` are the reference leases.
    pub fn dispatch_bit_calls(
        &mut self,
        fiber: &mut Fiber,
        position: &InstructionPosition<'_>,
        opcode: Opcode,
        policy: ExecutionPolicy,
        others: &Vec<ArrayLeaseId>,
    ) -> (r: Result<BitStep, StepError>)
        ensures
            (final(self)@, final(fiber)@, fault::outcome(r)) == bit_called(
                old(self)@,
                old(fiber)@,
                position@,
                opcode,
                policy,
                others@,
            ),
    {
        match opcode {
            Opcode::BeginBitCall => {
                self.invalidate_path_memo(fiber.id);
                self.begin_capture(&*fiber, position, others)
            },
            Opcode::FinishBitCall => {
                self.invalidate_path_memo(fiber.id);
                self.prepare_work(&*fiber, position, policy)
            },
            _ => Ok(BitStep::Other),
        }
    }
}

/// Fiber and outcome of what follows the capture of an array.
pub open spec fn array_captured(
    fiber: FiberModel,
    at: At,
    spec: BitCallSpec,
    lease: Result<ArrayLeaseId, Trouble>,
) -> (FiberModel, Result<Outcome, Failure>) {
    match lease {
        Err(e) => (fiber, Err(fault::mapped(e))),
        Ok(lease) => {
            let owner = fiber.top();
            let opened = FrameModel {
                bit_calls: owner.bit_calls.push(
                    PendingBitCall {
                        begin: at.instruction,
                        stack_index: owner.stack.len() as usize,
                        spec,
                        lease,
                        work: None,
                    },
                ),
                ..owner
            };
            if at.instruction > i64::MAX {
                (
                    fiber.with_top(opened),
                    Err(Failure::invalid("BIT capture offset exceeds Integer"@)),
                )
            } else {
                (
                    fiber.with_top(
                        basic::pushed(opened, Val::Integer(at.instruction as i64)),
                    ),
                    Ok(Outcome::Continue),
                )
            }
        },
    }
}

/// What the work on the cells of an array came to.
pub enum BitReply {
    /// The work could not be started.
    NotStarted(VmError),
    /// The earlier progress does not fit the operands.
    Misfit,
    Failed(VmError),
    Complete { value: i64, visited: u64 },
    Continue { work: BitWork, visited: u64 },
}

/// Mathematical content of a [`BitReply`].
pub enum BitReplyModel {
    NotStarted(Trouble),
    Misfit,
    Failed(Trouble),
    Complete { value: i64, visited: u64 },
    Continue { work: BitWork, visited: u64 },
}

impl View for BitReply {
    type V = BitReplyModel;

    open spec fn view(&self) -> BitReplyModel {
        match self {
            BitReply::NotStarted(e) => BitReplyModel::NotStarted(e@),
            BitReply::Misfit => BitReplyModel::Misfit,
            BitReply::Failed(e) => BitReplyModel::Failed(e@),
            BitReply::Complete { value, visited } => BitReplyModel::Complete {
                value: *value,
                visited: *visited,
            },
            BitReply::Continue { work, visited } => BitReplyModel::Continue {
                work: *work,
                visited: *visited,
            },
        }
    }
}

/// So many steps beyond the one that is counted anyway.
pub open spec fn beyond_one(visited: u64) -> u64 {
    if visited == 0 {
        0
    } else {
        (visited - 1) as u64
    }
}

/// Machine, fiber and outcome of what follows the work on an array.
pub open spec fn array_worked(vm: VmModel, fiber: FiberModel, at: At, reply: BitReplyModel) -> basic::Step {
    let owner = fiber.top();
    let pending = owner.bit_calls.last();
    match reply {
        BitReplyModel::NotStarted(e) => basic::fail(vm, fiber, fault::mapped(e)),
        BitReplyModel::Misfit => basic::fail(
            vm,
            fiber,
            Failure::invalid("BIT work progress differs from operands"@),
        ),
        BitReplyModel::Failed(e) => basic::fail(vm, fiber, fault::mapped(e)),
        BitReplyModel::Complete { value, visited } => (
            VmModel {
                store: Store {
                    leases: kept(vm.store.leases, other_than(pending.lease)),
                    ..vm.store
                },
                ..vm
            },
            fiber.with_top(
                FrameModel {
                    bit_calls: owner.bit_calls.drop_last(),
                    stack: owner.stack.take(pending.stack_index as int).push(Val::Integer(value)),
                    ..owner
                },
            ),
            Ok(Outcome::BulkProgress(beyond_one(visited))),
        ),
        BitReplyModel::Continue { work, visited } => (
            vm,
            fiber.with_top(
                FrameModel {
                    bit_calls: owner.bit_calls.update(
                        owner.bit_calls.len() - 1,
                        PendingBitCall { work: Some(work), ..pending },
                    ),
                    instruction: at.instruction,
                    ..owner
                },
            ),
            Ok(Outcome::BulkProgress(beyond_one(visited))),
        ),
    }
}

fn progress_beyond_one(visited: u64) -> (r: u64)
    ensures
        r == beyond_one(visited),
{
    if visited == 0 {
        0
    } else {
        visited - 1
    }
}

pub open spec fn lease_result(r: Result<ArrayLeaseId, VmError>) -> Result<ArrayLeaseId, Trouble> {
    match r {
        Ok(l) => Ok(l),
        Err(e) => Err(e@),
    }
}

impl Vm {
    /// Takes the lease of a captured array.
    pub fn finish_bit_capture(
        &mut self,
        fiber: &mut Fiber,
        position: &InstructionPosition<'_>,
        spec: BitCallSpec,
        lease: Result<ArrayLeaseId, VmError>,
    ) -> (r: Result<StepOutcome, StepError>)
        requires
            old(fiber)@.frames.len() > 0,
        ensures
            final(self)@ == old(self)@,
            (final(fiber)@, fault::outcome(r)) == array_captured(
                old(fiber)@,
                position@,
                spec,
                lease_result(lease),
            ),
    {
        let lease = match lease {
            Ok(l) => l,
            Err(e) => {
                return Err(fault::map_vm_error(e));
            },
        };
        let owner = fiber.top_mut();
        let stack_index: usize = owner.stack.len();
        owner.bit_calls.push(
            PendingBitCall { begin: position.instruction, stack_index, spec, lease, work: None },
        );
        if position.instruction as u128 > i64::MAX as u128 {
            return Err(invalid("BIT capture offset exceeds Integer"));
        }
        basic::push(&mut owner.stack, VmValue::Integer(position.instruction as i64));
        Ok(StepOutcome::Continue)
    }

    /// Takes what the work on a captured array came to.
    pub fn finish_bit_work(
        &mut self,
        fiber: &mut Fiber,
        position: &InstructionPosition<'_>,
        reply: BitReply,
    ) -> (r: Result<StepOutcome, StepError>)
        requires
            old(fiber)@.frames.len() > 0,
            old(fiber)@.top().bit_calls.len() > 0,
            old(fiber)@.top().bit_calls.last().stack_index <= old(fiber)@.top().stack.len(),
        ensures
            (final(self)@, final(fiber)@, fault::outcome(r)) == array_worked(
                old(self)@,
                old(fiber)@,
                position@,
                reply@,
            ),
    {
        match reply {
            BitReply::NotStarted(e) => Err(fault::map_vm_error(e)),
            BitReply::Misfit => Err(invalid("BIT work progress differs from operands")),
            BitReply::Failed(e) => Err(fault::map_vm_error(e)),
            BitReply::Complete { value, visited } => {
                let owner = fiber.top_mut();
                let at: usize = owner.bit_calls.len() - 1;
                let pending = owner.bit_calls[at];
                let ghost calls = owner.bit_calls@;
                owner.bit_calls.truncate(at);
                assert(owner.bit_calls@ =~= calls.drop_last());
                let ghost before = owner.stack@;
                owner.stack.truncate(pending.stack_index);
                assert(value::vals(owner.stack@) =~= value::vals(before).take(
                    pending.stack_index as int,
                ));
                basic::push(&mut owner.stack, VmValue::Integer(value));
                release_lease(&mut self.memory.array_leases, pending.lease);
                Ok(StepOutcome::BulkProgress(progress_beyond_one(visited)))
            },
            BitReply::Continue { work, visited } => {
                let owner = fiber.top_mut();
                let at: usize = owner.bit_calls.len() - 1;
                let mut pending = owner.bit_calls[at];
                pending.work = Some(work);
                owner.bit_calls[at] = pending;
                owner.instruction = position.instruction;
                Ok(StepOutcome::BulkProgress(progress_beyond_one(visited)))
            },
        }
    }
}

/// A finished BIT call leaves one value above what lay on the stack when it was opened, and its lease
/// is given back.
pub proof fn law_bit_call_is_balanced(
    vm: VmModel,
    fiber: FiberModel,
    at: At,
    spec: BitCallSpec,
    lease: ArrayLeaseId,
    arguments: Seq<Val>,
    end: At,
    value: i64,
    visited: u64,
)
    requires
        fiber.frames.len() > 0,
        fiber.top().stack.len() <= usize::MAX,
        array_captured(fiber, at, spec, Ok(lease)).1 is Ok,
    ensures
        ({
            let opened = array_captured(fiber, at, spec, Ok(lease)).0;
            let filled = opened.with_stack(opened.top().stack + arguments);
            let done = array_worked(
                vm,
                filled,
                end,
                BitReplyModel::Complete { value, visited },
            );
            &&& done.1.top().stack == fiber.top().stack.push(Val::Integer(value))
            &&& done.1.top().bit_calls == fiber.top().bit_calls
            &&& forall|l: ArrayLease|
                l.id == lease ==> !(#[trigger] done.0.store.leases.contains(l))
        }),
{
    let opened = array_captured(fiber, at, spec, Ok(lease)).0;
    let filled = opened.with_stack(opened.top().stack + arguments);
    let done = array_worked(vm, filled, end, BitReplyModel::Complete { value, visited });
    assert(done.1.top().stack =~= fiber.top().stack.push(Val::Integer(value)));
    assert(done.1.top().bit_calls =~= fiber.top().bit_calls);
    assert forall|l: ArrayLease| l.id == lease implies !(
    #[trigger] done.0.store.leases.contains(l)) by {
        lemma_kept(vm.store.leases, other_than(lease), l);
    }
}

/// A lease and who holds it.
#[derive(Clone, Copy, PartialEq, Eq, Debug, Structural)]
pub struct LeaseHold {
    pub lease: ArrayLeaseId,
    pub owner: ArrayLeaseOwner,
}

pub open spec fn snapshot(message: Seq<char>) -> Trouble {
    Trouble::Snapshot(message)
}

/// A lease is among those held.
pub open spec fn is_held(held: Seq<LeaseHold>, lease: ArrayLeaseId) -> bool {
    exists|i: int| 0 <= i < held.len() && (#[trigger] held[i]).lease == lease
}

/// The lease of an open BIT call is there and belongs to its variable, and its token lies on the stack.
pub open spec fn capture_fits(vm: VmModel, frame: FrameModel, call: PendingBitCall, spec: BitCallSpec) -> bool {
    &&& spec == call.spec
    &&& lookup::first_index(vm.store.leases, state::lease_is(call.lease)) matches Some(i)
        && vm.store.leases[i].input == spec.input
    &&& call.stack_index < frame.stack.len()
    &&& frame.stack[call.stack_index as int] == Val::Integer(call.begin as i64)
}

/// A frame stands at the end of a BIT call.
pub open spec fn at_finish(vm: VmModel, frame: FrameModel, begin: usize) -> bool {
    vm.program(frame.generation) matches Some(program) && program.spec_function(
        frame.function,
    ) matches Some(f) && frame.instruction < f.code@.len() && {
        let op = f.code@[frame.instruction as int];
        op.opcode is FinishBitCall && op.payload@.len() == 4 && operand::little_endian(
            op.payload@,
            0,
            4,
        ) == begin
    }
}

/// The work of an open BIT call can go on.
pub open spec fn work_checked(
    vm: VmModel,
    fiber: FiberModel,
    frame: FrameModel,
    call: PendingBitCall,
    progress: Seq<ArrayLeaseId>,
) -> Result<(), Trouble> {
    if !(fiber.state is Runnable) {
        Err(snapshot("BIT partial work cannot own a Host wait or terminal state"@))
    } else if call.begin > u32::MAX {
        Err(snapshot("BIT capture offset exceeds the bytecode format"@))
    } else if !at_finish(vm, frame, call.begin) {
        Err(snapshot("BIT active work is not at its finish instruction"@))
    } else if integers_from(frame.stack, call.stack_index + 1) is None || !progress.contains(
        call.lease,
    ) {
        Err(snapshot("BIT work range or progress is invalid"@))
    } else {
        Ok(())
    }
}

/// The leases held up to an open BIT call.
pub open spec fn call_checked(
    vm: VmModel,
    fiber: FiberModel,
    frame: FrameModel,
    call: PendingBitCall,
    progress: Seq<ArrayLeaseId>,
    held: Seq<LeaseHold>,
) -> Result<Seq<LeaseHold>, Trouble> {
    match call_spec(vm, frame.generation, frame.function, call.begin as int) {
        Err(e) => Err(snapshot(e.message)),
        Ok(spec) => if call.begin > i64::MAX {
            Err(snapshot("BIT capture offset exceeds Integer"@))
        } else if !capture_fits(vm, frame, call, spec) {
            Err(snapshot("BIT capture spec/token differs"@))
        } else if is_held(held, call.lease) {
            Err(snapshot("BIT lease is owned twice"@))
        } else if call.work is Some && work_checked(vm, fiber, frame, call, progress) is Err {
            Err(work_checked(vm, fiber, frame, call, progress)->Err_0)
        } else {
            Ok(
                held.push(
                    LeaseHold {
                        lease: call.lease,
                        owner: ArrayLeaseOwner {
                            fiber: fiber.id,
                            frame: frame.id,
                            generation: frame.generation,
                            function: frame.function,
                            origin: ArrayLeaseOrigin::Bytecode { begin: call.begin },
                        },
                    },
                ),
            )
        },
    }
}

/// The leases held up to the first `n` open BIT calls of a frame.
pub open spec fn calls_checked(
    vm: VmModel,
    fiber: FiberModel,
    frame: FrameModel,
    progress: Seq<ArrayLeaseId>,
    held: Seq<LeaseHold>,
    n: nat,
) -> Result<Seq<LeaseHold>, Trouble>
    decreases n,
{
    if n == 0 {
        Ok(held)
    } else {
        match calls_checked(vm, fiber, frame, progress, held, (n - 1) as nat) {
            Err(e) => Err(e),
            Ok(before) => call_checked(vm, fiber, frame, frame.bit_calls[n - 1], progress, before),
        }
    }
}

proof fn lemma_calls_stop(
    vm: VmModel,
    fiber: FiberModel,
    frame: FrameModel,
    progress: Seq<ArrayLeaseId>,
    held: Seq<LeaseHold>,
    k: nat,
    n: nat,
)
    requires
        k <= n,
        calls_checked(vm, fiber, frame, progress, held, k) is Err,
    ensures
        calls_checked(vm, fiber, frame, progress, held, n) == calls_checked(
            vm,
            fiber,
            frame,
            progress,
            held,
            k,
        ),
    decreases n,
{
    if k < n {
        lemma_calls_stop(vm, fiber, frame, progress, held, k, (n - 1) as nat);
    }
}

/// The leases held with those of a formatted-text evaluation.
pub open spec fn form_checked(
    held: Seq<LeaseHold>,
    more: Seq<(ArrayLeaseId, ArrayLeaseOwner)>,
) -> Result<
    Seq<LeaseHold>,
    Trouble,
>
    decreases more.len(),
{
    if more.len() == 0 {
        Ok(held)
    } else {
        match form_checked(held, more.drop_last()) {
            Err(e) => Err(e),
            Ok(before) => if is_held(before, more.last().0) {
                Err(snapshot("BIT form lease is owned twice"@))
            } else {
                Ok(before.push(LeaseHold { lease: more.last().0, owner: more.last().1 }))
            },
        }
    }
}

proof fn lemma_form_stops(
    held: Seq<LeaseHold>,
    more: Seq<(ArrayLeaseId, ArrayLeaseOwner)>,
    n: int,
)
    requires
        0 <= n <= more.len(),
        form_checked(held, more.take(n)) is Err,
    ensures
        form_checked(held, more) == form_checked(held, more.take(n)),
    decreases more.len() - n,
{
    if n == more.len() {
        assert(more.take(n) =~= more);
    } else {
        assert(more.take(n + 1).drop_last() =~= more.take(n));
        lemma_form_stops(held, more, n + 1);
    }
}

/// The leases that a frame's formatted-text evaluation holds, with their owners.
pub open spec fn form_holds(fiber: FiberId, frame: FrameModel) -> Seq<
    (ArrayLeaseId, ArrayLeaseOwner),
> {
    match frame.runtime_form {
        None => Seq::empty(),
        Some(form) => form_staged::lease_owners(form, form.work, fiber),
    }
}

/// The leases held up to a frame.
pub open spec fn frame_checked(
    vm: VmModel,
    fiber: FiberModel,
    frame: FrameModel,
    progress: Seq<ArrayLeaseId>,
    held: Seq<LeaseHold>,
) -> Result<Seq<LeaseHold>, Trouble> {
    match calls_checked(vm, fiber, frame, progress, held, frame.bit_calls.len()) {
        Err(e) => Err(e),
        Ok(before) => form_checked(before, form_holds(fiber.id, frame)),
    }
}

/// The leases held up to the first `n` frames of a fiber.
pub open spec fn frames_checked(
    vm: VmModel,
    fiber: FiberModel,
    progress: Seq<ArrayLeaseId>,
    held: Seq<LeaseHold>,
    n: nat,
) -> Result<Seq<LeaseHold>, Trouble>
    decreases n,
{
    if n == 0 {
        Ok(held)
    } else {
        match frames_checked(vm, fiber, progress, held, (n - 1) as nat) {
            Err(e) => Err(e),
            Ok(before) => frame_checked(vm, fiber, fiber.frames[n - 1], progress, before),
        }
    }
}

proof fn lemma_frames_stop(
    vm: VmModel,
    fiber: FiberModel,
    progress: Seq<ArrayLeaseId>,
    held: Seq<LeaseHold>,
    k: nat,
    n: nat,
)
    requires
        k <= n,
        frames_checked(vm, fiber, progress, held, k) is Err,
    ensures
        frames_checked(vm, fiber, progress, held, n) == frames_checked(
            vm,
            fiber,
            progress,
            held,
            k,
        ),
    decreases n,
{
    if k < n {
        lemma_frames_stop(vm, fiber, progress, held, k, (n - 1) as nat);
    }
}

/// The leases held by the first `n` fibers.
pub open spec fn fibers_checked(
    vm: VmModel,
    progress: Seq<ArrayLeaseId>,
    n: nat,
) -> Result<Seq<LeaseHold>, Trouble>
    decreases n,
{
    if n == 0 {
        Ok(Seq::empty())
    } else {
        match fibers_checked(vm, progress, (n - 1) as nat) {
            Err(e) => Err(e),
            Ok(before) => frames_checked(
                vm,
                vm.fibers[n - 1]@,
                progress,
                    before,
                vm.fibers[n - 1]@.frames.len(),
            ),
        }
    }
}

proof fn lemma_fibers_stop(
    vm: VmModel,
    progress: Seq<ArrayLeaseId>,
    k: nat,
    n: nat,
)
    requires
        k <= n,
        fibers_checked(vm, progress, k) is Err,
    ensures
        fibers_checked(vm, progress, n) == fibers_checked(vm, progress, k),
    decreases n,
{
    if k < n {
        lemma_fibers_stop(vm, progress, k, (n - 1) as nat);
    }
}

fn holds_lease(held: &Vec<LeaseHold>, lease: ArrayLeaseId) -> (r: bool)
    ensures
        r == is_held(held@, lease),
{
    let mut i: usize = 0;
    while i < held.len()
        invariant
            i <= held.len(),
            forall|j: int| 0 <= j < i ==> (#[trigger] held@[j]).lease != lease,
        decreases held.len() - i,
    {
        if held[i].lease == lease {
            assert(held@[i as int].lease == lease);
            return true;
        }
        i = i + 1;
    }
    false
}

fn snapshot_error(message: &str) -> (r: VmError)
    ensures
        r@ == snapshot(message@),
{
    VmError::Snapshot(message.to_owned())
}

fn is_runnable(fiber: &Fiber) -> (r: bool)
    ensures
        r == (fiber@.state is Runnable),
{
    match &fiber.state {
        FiberState::Runnable => true,
        _ => false,
    }
}

/// What a check of held leases gives: the leases, or the first objection.
pub open spec fn check_result(r: Result<(), VmError>, held: Seq<LeaseHold>) -> Result<
    Seq<LeaseHold>,
    Trouble,
> {
    match r {
        Ok(_) => Ok(held),
        Err(e) => Err(e@),
    }
}

impl Vm {
    fn is_at_finish(&self, frame: &Frame, begin: usize) -> (r: bool)
        ensures
            r == at_finish(self@, frame@, begin),
    {
        let program = match self.program(frame.generation) {
            Some(p) => p,
            None => {
                return false;
            },
        };
        let function = match program.function(frame.function) {
            Some(f) => f,
            None => {
                return false;
            },
        };
        if frame.instruction >= function.code.len() {
            return false;
        }
        let op = &function.code[frame.instruction];
        op.opcode == Opcode::FinishBitCall && op.payload.len() == 4 && operand::bytes_number(
            op.payload.as_slice(),
            0,
            4,
        ) == begin as u64
    }

    fn check_work(
        &self,
        fiber: &Fiber,
        frame: &Frame,
        call: PendingBitCall,
        progress: &Vec<ArrayLeaseId>,
    ) -> (r: Result<(), VmError>)
        requires
            call.stack_index < frame@.stack.len(),
        ensures
            fault::result(r) == work_checked(self@, fiber@, frame@, call, progress@),
    {
        if !is_runnable(fiber) {
            return Err(
                snapshot_error("BIT partial work cannot own a Host wait or terminal state"),
            );
        }
        if call.begin as u64 > u32::MAX as u64 {
            return Err(snapshot_error("BIT capture offset exceeds the bytecode format"));
        }
        if !self.is_at_finish(frame, call.begin) {
            return Err(snapshot_error("BIT active work is not at its finish instruction"));
        }
        let depth: usize = frame.stack.len();
        assert(call.stack_index < depth);
        let whole: bool = match read_integers(&frame.stack, call.stack_index + 1) {
            Some(_) => true,
            None => false,
        };
        if !whole || !contains_lease(progress, call.lease) {
            return Err(snapshot_error("BIT work range or progress is invalid"));
        }
        Ok(())
    }

    fn check_call(
        &self,
        fiber: &Fiber,
        frame: &Frame,
        call: PendingBitCall,
        progress: &Vec<ArrayLeaseId>,
        held: &mut Vec<LeaseHold>,
    ) -> (r: Result<(), VmError>)
        ensures
            check_result(r, final(held)@) == call_checked(
                self@,
                fiber@,
                frame@,
                call,
                progress@,
                old(held)@,
            ),
    {
        let spec = match self.bit_spec(frame.generation, frame.function, call.begin) {
            Ok(s) => s,
            Err(e) => {
                return Err(snapshot_error(e.message.as_str()));
            },
        };
        if call.begin as u128 > i64::MAX as u128 {
            return Err(snapshot_error("BIT capture offset exceeds Integer"));
        }
        let leased: bool = match self.find_lease(call.lease) {
            Some(l) => l.input == spec.input,
            None => false,
        };
        let marked: bool = call.stack_index < frame.stack.len() && match &frame.stack[call.stack_index] {
            VmValue::Integer(n) => *n == call.begin as i64,
            _ => false,
        };
        if spec != call.spec || !leased || !marked {
            return Err(snapshot_error("BIT capture spec/token differs"));
        }
        if holds_lease(&*held, call.lease) {
            return Err(snapshot_error("BIT lease is owned twice"));
        }
        match call.work {
            Some(_) => match self.check_work(fiber, frame, call, progress) {
                Ok(_) => {},
                Err(e) => {
                    return Err(e);
                },
            },
            None => {},
        }
        held.push(
            LeaseHold {
                lease: call.lease,
                owner: ArrayLeaseOwner {
                    fiber: fiber.id,
                    frame: frame.id,
                    generation: frame.generation,
                    function: frame.function,
                    origin: ArrayLeaseOrigin::Bytecode { begin: call.begin },
                },
            },
        );
        Ok(())
    }

    fn check_calls(
        &self,
        fiber: &Fiber,
        frame: &Frame,
        progress: &Vec<ArrayLeaseId>,
        held: &mut Vec<LeaseHold>,
    ) -> (r: Result<(), VmError>)
        ensures
            check_result(r, final(held)@) == calls_checked(
                self@,
                fiber@,
                frame@,
                progress@,
                old(held)@,
                frame@.bit_calls.len(),
            ),
    {
        let ghost start = held@;
        let mut k: usize = 0;
        while k < frame.bit_calls.len()
            invariant
                k <= frame.bit_calls.len(),
                start == old(held)@,
                calls_checked(self@, fiber@, frame@, progress@, start, k as nat) == Ok::<
                    Seq<LeaseHold>,
                    Trouble,
                >(held@),
            decreases frame.bit_calls.len() - k,
        {
            match self.check_call(fiber, frame, frame.bit_calls[k], progress, held) {
                Ok(_) => {},
                Err(e) => {
                    proof {
                        lemma_calls_stop(
                            self@,
                            fiber@,
                            frame@,
                            progress@,
                            start,
                            (k + 1) as nat,
                            frame@.bit_calls.len(),
                        );
                    }
                    return Err(e);
                },
            }
            k = k + 1;
        }
        Ok(())
    }
}

fn check_form(held: &mut Vec<LeaseHold>, more: &Vec<(ArrayLeaseId, ArrayLeaseOwner)>) -> (r: Result<
    (),
    VmError,
>)
    ensures
        check_result(r, final(held)@) == form_checked(old(held)@, more@),
{
    let ghost start = held@;
    let mut i: usize = 0;
    assert(more@.take(0) =~= Seq::<(ArrayLeaseId, ArrayLeaseOwner)>::empty());
    while i < more.len()
        invariant
            i <= more.len(),
            start == old(held)@,
            form_checked(start, more@.take(i as int)) == Ok::<Seq<LeaseHold>, Trouble>(held@),
        decreases more.len() - i,
    {
        proof {
            assert(more@.take(i + 1).drop_last() =~= more@.take(i as int));
            assert(more@.take(i + 1).last() == more@[i as int]);
        }
        if holds_lease(&*held, more[i].0) {
            proof {
                lemma_form_stops(start, more@, i + 1);
            }
            return Err(snapshot_error("BIT form lease is owned twice"));
        }
        held.push(LeaseHold { lease: more[i].0, owner: more[i].1 });
        i = i + 1;
    }
    assert(more@.take(i as int) =~= more@);
    Ok(())
}

impl Vm {
    fn check_frame(
        &self,
        fiber: &Fiber,
        frame: &Frame,
        progress: &Vec<ArrayLeaseId>,
        held: &mut Vec<LeaseHold>,
    ) -> (r: Result<(), VmError>)
        ensures
            check_result(r, final(held)@) == frame_checked(
                self@,
                fiber@,
                frame@,
                progress@,
                old(held)@,
            ),
    {
        match self.check_calls(fiber, frame, progress, held) {
            Ok(_) => {},
            Err(e) => {
                return Err(e);
            },
        }
        match &frame.runtime_form {
            None => {
                Ok(())
            },
            Some(form) => {
                let owners = form.bit_owners(fiber.id);
                check_form(held, &owners)
            },
        }
    }

    fn check_frames(
        &self,
        fiber: &Fiber,
        progress: &Vec<ArrayLeaseId>,
        held: &mut Vec<LeaseHold>,
    ) -> (r: Result<(), VmError>)
        ensures
            check_result(r, final(held)@) == frames_checked(
                self@,
                fiber@,
                progress@,
                old(held)@,
                fiber@.frames.len(),
            ),
    {
        let ghost start = held@;
        let mut k: usize = 0;
        while k < fiber.frames.len()
            invariant
                k <= fiber.frames.len(),
                start == old(held)@,
                frames_checked(self@, fiber@, progress@, start, k as nat) == Ok::<
                    Seq<LeaseHold>,
                    Trouble,
                >(held@),
            decreases fiber.frames.len() - k,
        {
            assert(fiber@.frames[k as int] == fiber.frames@[k as int]@);
            match self.check_frame(fiber, &fiber.frames[k], progress, held) {
                Ok(_) => {},
                Err(e) => {
                    proof {
                        lemma_frames_stop(
                            self@,
                            fiber@,
                            progress@,
                                        start,
                            (k + 1) as nat,
                            fiber@.frames.len(),
                        );
                    }
                    return Err(e);
                },
            }
            k = k + 1;
        }
        Ok(())
    }

    /// Checks the BIT calls of all fibers and gives who holds which lease. `progress` are the leases whose
    /// work fits its operands.
    pub fn validate_bit_leases(&self, progress: &Vec<ArrayLeaseId>) -> (r: Result<
        Vec<LeaseHold>,
        VmError,
    >)
        ensures
            match r {
                Ok(v) => fibers_checked(self@, progress@, self@.fibers.len()) == Ok::<
                    Seq<LeaseHold>,
                    Trouble,
                >(v@),
                Err(e) => fibers_checked(self@, progress@, self@.fibers.len()) == Err::<
                    Seq<LeaseHold>,
                    Trouble,
                >(e@),
            },
    {
        let mut held: Vec<LeaseHold> = Vec::new();
        let mut k: usize = 0;
        assert(held@ =~= Seq::<LeaseHold>::empty());
        while k < self.fibers.len()
            invariant
                k <= self.fibers.len(),
                fibers_checked(self@, progress@, k as nat) == Ok::<
                    Seq<LeaseHold>,
                    Trouble,
                >(held@),
            decreases self.fibers.len() - k,
        {
            match self.check_frames(&self.fibers[k], progress, &mut held) {
                Ok(_) => {},
                Err(e) => {
                    proof {
                        lemma_fibers_stop(
                            self@,
                            progress@,
                                        (k + 1) as nat,
                            self@.fibers.len(),
                        );
                    }
                    return Err(e);
                },
            }
            k = k + 1;
        }
        Ok(held)
    }
}

/// No lease is held twice.
pub open spec fn held_once(held: Seq<LeaseHold>) -> bool {
    forall|i: int, j: int|
        #![trigger held[i], held[j]]
        0 <= i < j < held.len() ==> held[i].lease != held[j].lease
}

proof fn lemma_calls_hold_once(
    vm: VmModel,
    fiber: FiberModel,
    frame: FrameModel,
    progress: Seq<ArrayLeaseId>,
    held: Seq<LeaseHold>,
    n: nat,
)
    requires
        held_once(held),
    ensures
        calls_checked(vm, fiber, frame, progress, held, n) matches Ok(h) ==> held_once(h),
    decreases n,
{
    if n > 0 {
        lemma_calls_hold_once(vm, fiber, frame, progress, held, (n - 1) as nat);
    }
}

proof fn lemma_form_holds_once(
    held: Seq<LeaseHold>,
    more: Seq<(ArrayLeaseId, ArrayLeaseOwner)>,
)
    requires
        held_once(held),
    ensures
        form_checked(held, more) matches Ok(h) ==> held_once(h),
    decreases more.len(),
{
    if more.len() > 0 {
        lemma_form_holds_once(held, more.drop_last());
    }
}

proof fn lemma_frames_hold_once(
    vm: VmModel,
    fiber: FiberModel,
    progress: Seq<ArrayLeaseId>,
    held: Seq<LeaseHold>,
    n: nat,
)
    requires
        held_once(held),
    ensures
        frames_checked(vm, fiber, progress, held, n) matches Ok(h) ==> held_once(h),
    decreases n,
{
    if n > 0 {
        lemma_frames_hold_once(vm, fiber, progress, held, (n - 1) as nat);
        if let Ok(before) = frames_checked(vm, fiber, progress, held, (n - 1) as nat) {
            let frame = fiber.frames[n - 1];
            lemma_calls_hold_once(vm, fiber, frame, progress, before, frame.bit_calls.len());
            if let Ok(h) = calls_checked(
                vm,
                fiber,
                frame,
                progress,
                before,
                frame.bit_calls.len(),
            ) {
                lemma_form_holds_once(h, form_holds(fiber.id, frame));
            }
        }
    }
}

/// A machine that passes the check holds no lease twice.
pub proof fn law_valid_leases_are_held_once(
    vm: VmModel,
    progress: Seq<ArrayLeaseId>,
    n: nat,
)
    ensures
        fibers_checked(vm, progress, n) matches Ok(h) ==> held_once(h),
    decreases n,
{
    if n > 0 {
        law_valid_leases_are_held_once(vm, progress, (n - 1) as nat);
        if let Ok(before) = fibers_checked(vm, progress, (n - 1) as nat) {
            let fiber = vm.fibers[n - 1]@;
            lemma_frames_hold_once(vm, fiber, progress, before, fiber.frames.len());
        }
    }
}

} // verus!
