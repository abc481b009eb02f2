//! What counting loops, jumps, returns and stores do.

use vstd::prelude::*;
use crate::call_laws;
use crate::dispatch;
use crate::fastpaths;
use crate::fault::{Failure, Trouble};
use crate::instruction_laws;
use crate::lookup;
use crate::memory::CellAddress;
use crate::operand;
use crate::operator_laws;
use crate::places;
use crate::program::StructuredScopeKind;
use crate::state::{
    self, At, ExecutionPolicy, FiberModel, FrameModel, LoopModel, Outcome, Store, VmModel,
};
use crate::terminal;
use crate::text;
use crate::value::{BytecodeType, Place, Val};

verus! {

/// Frames that hold the same variables.
pub open spec fn same_variables(a: Seq<FrameModel>, b: Seq<FrameModel>) -> bool {
    &&& a.len() == b.len()
    &&& forall|i: int|
        0 <= i < a.len() ==> (#[trigger] a[i]).id == b[i].id && a[i].locals == b[i].locals
            && a[i].generation == b[i].generation
}

pub proof fn lemma_same_slots(store: Store, a: Seq<FrameModel>, b: Seq<FrameModel>, address: CellAddress)
    requires
        same_variables(a, b),
        a.len() <= usize::MAX,
    ensures
        places::slot_at(store, a, address) == places::slot_at(store, b, address),
        places::slot_at(store, a, address) is Ok ==> places::cell_in(
            store,
            a,
            places::slot_at(store, a, address)->Ok_0,
        ) == places::cell_in(store, b, places::slot_at(store, a, address)->Ok_0),
{
    if let Some(id) = address.frame {
        lookup::lemma_first_same(a, b, state::frame_is(id));
        lookup::lemma_first_index(a, state::frame_is(id));
    }
}

/// Reading a place goes by the variables alone.
pub proof fn lemma_same_reads(vm: VmModel, a: FiberModel, b: FiberModel, place: Place)
    requires
        same_variables(a.frames, b.frames),
        a.frames.len() > 0,
        a.frames.len() <= usize::MAX,
    ensures
        places::read_place(vm, a, place) == places::read_place(vm, b, place),
        places::place_address(vm, a, place) == places::place_address(vm, b, place),
{
    assert(a.frames[a.frames.len() - 1].generation == b.frames[b.frames.len() - 1].generation);
    if let Ok(address) = places::place_address(vm, a, place) {
        lemma_same_slots(vm.store, a.frames, b.frames, address);
    }
}

/// A counting loop with a step goes on from a counter towards its end.
pub open spec fn short_of_end(counter: int, end: int, step: int) -> bool {
    (step > 0 && counter < end) || (step < 0 && counter > end)
}

/// FOR gives the counter its start value. Where the start is short of the end it opens a loop and
/// pushes one; else it opens none and pushes zero.
pub proof fn law_loop_start(
    vm: VmModel,
    fiber: FiberModel,
    at: At,
    policy: ExecutionPolicy,
    counter: Place,
    start: i64,
    end: i64,
    step: i64,
)
    requires
        at.opcode is ForStart,
        fiber.frames.len() > 0,
        places::machine_sized(vm, fiber),
        fiber.frames.last().stack.len() >= 4,
        ({
            let stack = fiber.frames.last().stack;
            let n = stack.len() as int;
            &&& stack[n - 4] == Val::IntegerPlace(counter)
            &&& stack[n - 3] == Val::Integer(start)
            &&& stack[n - 2] == Val::Integer(end)
            &&& stack[n - 1] == Val::Integer(step)
        }),
        dispatch::executed(vm, fiber, at, policy).2 == Ok::<Option<Outcome>, Failure>(
            Some(Outcome::Continue),
        ),
    ensures
        ({
            let frame = fiber.frames.last();
            let after = dispatch::executed(vm, fiber, at, policy);
            let now = after.1.frames.last();
            let opens = short_of_end(start as int, end as int, step as int);
            &&& after.1.frames.len() == fiber.frames.len()
            &&& places::read_place(after.0, after.1, counter) == Ok::<Val, Trouble>(
                Val::Integer(start),
            )
            &&& now.instruction == instruction_laws::next_instruction(frame)
            &&& now.stack == frame.stack.take(frame.stack.len() - 4).push(
                Val::Integer(
                    if opens {
                        1
                    } else {
                        0
                    },
                ),
            )
            &&& now.for_loops == if opens {
                frame.for_loops.push(LoopModel { counter, end, step })
            } else {
                frame.for_loops
            }
        }),
{
    let frame = fiber.frames.last();
    let stack = frame.stack;
    let counted = dispatch::counted(fiber);
    let rest = stack.take(stack.len() - 4);
    assert(counted.top().stack == stack);
    assert(stack.drop_last().drop_last().drop_last().drop_last() =~= rest);
    let popped = counted.with_stack(rest);
    assert(places::machine_sized(vm, popped));
    let written = places::write_place(vm, popped, counter, Val::Integer(start));
    places::law_written_place_reads_back(vm, popped, counter, Val::Integer(start));
    places::law_write_keeps_frames(vm, popped, counter, Val::Integer(start));
    let (vm1, fiber1) = written->Ok_0;
    let after = dispatch::executed(vm, fiber, at, policy);
    assert(places::same_but_locals(
        fiber1.frames[fiber1.frames.len() - 1],
        popped.frames[popped.frames.len() - 1],
    ));
    lemma_same_reads(vm1, after.1, fiber1, counter);
}

/// NEXT adds the step to the counter, round the end of the range of integers. Where the counter is
/// short of the end the loop stays and one is pushed; else the loop is closed and zero is pushed.
pub proof fn law_loop_next(
    vm: VmModel,
    fiber: FiberModel,
    at: At,
    policy: ExecutionPolicy,
    before: i64,
)
    requires
        at.opcode is ForNext,
        fiber.frames.len() > 0,
        places::machine_sized(vm, fiber),
        fiber.frames.last().for_loops.len() > 0,
        fiber.frames.last().for_loops.last().step != 0,
        places::read_place(vm, fiber, fiber.frames.last().for_loops.last().counter) == Ok::<
            Val,
            Trouble,
        >(Val::Integer(before)),
        dispatch::executed(vm, fiber, at, policy).2 == Ok::<Option<Outcome>, Failure>(
            Some(Outcome::Continue),
        ),
    ensures
        ({
            let frame = fiber.frames.last();
            let l = frame.for_loops.last();
            let after = dispatch::executed(vm, fiber, at, policy);
            let now = after.1.frames.last();
            &&& after.1.frames.len() == fiber.frames.len()
            &&& places::read_place(after.0, after.1, l.counter) matches Ok(Val::Integer(n))
                && operator_laws::wraps(n, before + l.step) && now.stack == frame.stack.push(
                Val::Integer(
                    if short_of_end(n as int, l.end as int, l.step as int) {
                        1
                    } else {
                        0
                    },
                ),
            ) && now.for_loops == if short_of_end(n as int, l.end as int, l.step as int) {
                frame.for_loops
            } else {
                frame.for_loops.drop_last()
            }
            &&& now.instruction == instruction_laws::next_instruction(frame)
        }),
{
    let frame = fiber.frames.last();
    let l = frame.for_loops.last();
    let counted = dispatch::counted(fiber);
    lemma_same_reads(vm, counted, fiber, l.counter);
    assert(places::machine_sized(vm, counted));
    let next = before.wrapping_add(l.step);
    let written = places::write_place(vm, counted, l.counter, Val::Integer(next));
    places::law_written_place_reads_back(vm, counted, l.counter, Val::Integer(next));
    places::law_write_keeps_frames(vm, counted, l.counter, Val::Integer(next));
    let (vm1, fiber1) = written->Ok_0;
    let after = dispatch::executed(vm, fiber, at, policy);
    assert(places::same_but_locals(
        fiber1.frames[fiber1.frames.len() - 1],
        counted.frames[counted.frames.len() - 1],
    ));
    lemma_same_reads(vm1, after.1, fiber1, l.counter);
}

/// Leaving a loop early adds the step to the counter once more and closes the loop; nothing is
/// pushed. A loop that was jumped into is closed without touching a counter, by NEXT too.
pub proof fn law_loop_left(
    vm: VmModel,
    fiber: FiberModel,
    at: At,
    policy: ExecutionPolicy,
    before: i64,
)
    requires
        at.opcode is ForBreak || at.opcode is ForNext,
        fiber.frames.len() > 0,
        places::machine_sized(vm, fiber),
        fiber.frames.last().for_loops.len() > 0,
        dispatch::executed(vm, fiber, at, policy).2 == Ok::<Option<Outcome>, Failure>(
            Some(Outcome::Continue),
        ),
    ensures
        ({
            let frame = fiber.frames.last();
            let l = frame.for_loops.last();
            let after = dispatch::executed(vm, fiber, at, policy);
            let now = after.1.frames.last();
            &&& l.step == 0 ==> after.0 == vm && now.for_loops == frame.for_loops.drop_last()
                && now.stack == if at.opcode is ForNext {
                frame.stack.push(Val::Integer(0))
            } else {
                frame.stack
            }
            &&& at.opcode is ForBreak && l.step != 0 && places::read_place(vm, fiber, l.counter)
                == Ok::<Val, Trouble>(Val::Integer(before)) ==> {
                &&& places::read_place(after.0, after.1, l.counter) matches Ok(Val::Integer(n))
                    && operator_laws::wraps(n, before + l.step)
                &&& now.stack == frame.stack
                &&& now.for_loops == frame.for_loops.drop_last()
                &&& now.instruction == instruction_laws::next_instruction(frame)
            }
        }),
{
    let frame = fiber.frames.last();
    let l = frame.for_loops.last();
    let counted = dispatch::counted(fiber);
    lemma_same_reads(vm, counted, fiber, l.counter);
    assert(places::machine_sized(vm, counted));
    if at.opcode is ForBreak && l.step != 0 && places::read_place(vm, fiber, l.counter) == Ok::<
        Val,
        Trouble,
    >(Val::Integer(before)) {
        let next = before.wrapping_add(l.step);
        let written = places::write_place(vm, counted, l.counter, Val::Integer(next));
        places::law_written_place_reads_back(vm, counted, l.counter, Val::Integer(next));
        places::law_write_keeps_frames(vm, counted, l.counter, Val::Integer(next));
        let (vm1, fiber1) = written->Ok_0;
        let after = dispatch::executed(vm, fiber, at, policy);
        assert(places::same_but_locals(
            fiber1.frames[fiber1.frames.len() - 1],
            counted.frames[counted.frames.len() - 1],
        ));
        lemma_same_reads(vm1, after.1, fiber1, l.counter);
    }
}

/// Where execution goes on after an instruction.
pub open spec fn resumes_at(after: FiberModel) -> usize {
    after.frames.last().instruction
}

/// A jump goes on at its target. A conditional jump does so where the integer on top is zero, and
/// goes on behind itself where it is not; either way the integer is taken. A jump backwards is
/// counted.
pub proof fn law_jumps(vm: VmModel, fiber: FiberModel, at: At, policy: ExecutionPolicy)
    requires
        at.opcode is Jump || at.opcode is JumpIfFalse,
        at.payload.len() >= 4,
        fiber.frames.len() > 0,
        at.opcode is JumpIfFalse ==> fiber.frames.last().stack.len() > 0
            && fiber.frames.last().stack.last() is Integer,
    ensures
        ({
            let frame = fiber.frames.last();
            let target = call_laws::four_bytes(at.payload, 0);
            let after = dispatch::executed(vm, fiber, at, policy);
            let taken = at.opcode is Jump || frame.stack.last() == Val::Integer(0);
            &&& after.0 == vm
            &&& after.1.frames.len() == fiber.frames.len()
            &&& after.1.frames.drop_last() == fiber.frames.drop_last()
            &&& resumes_at(after.1) == if taken {
                target as usize
            } else {
                instruction_laws::next_instruction(frame)
            }
            &&& after.1.frames.last().stack == if at.opcode is Jump {
                frame.stack
            } else {
                frame.stack.drop_last()
            }
            &&& !taken ==> after.1.frames.last().for_loops == frame.for_loops
                && after.1.frames.last().select_values == frame.select_values
            &&& after.1.backward == if taken && target <= at.instruction && fiber.backward
                < u64::MAX {
                (fiber.backward + 1) as u64
            } else {
                fiber.backward
            }
        }),
{
    call_laws::law_operand_numbers(at.payload, 0);
    let counted = dispatch::counted(fiber);
    let frame = fiber.frames.last();
    let after = dispatch::executed(vm, fiber, at, policy).1;
    assert(after.frames.drop_last() =~= fiber.frames.drop_last());
    let popped = if at.opcode is Jump {
        counted
    } else {
        counted.with_stack(frame.stack.drop_last())
    };
    lemma_jump_keeps_stack(
        vm,
        popped.top(),
        at,
        call_laws::four_bytes(at.payload, 0) as usize,
    );
}

proof fn lemma_entered_keeps_stack(frame: FrameModel, scopes: Seq<StructuredScopeKind>)
    ensures
        ({
            let e = fastpaths::entered(frame, scopes);
            e == (FrameModel { for_loops: e.for_loops, select_values: e.select_values, ..frame })
        }),
    decreases scopes.len(),
{
    if scopes.len() > 0 {
        lemma_entered_keeps_stack(frame, scopes.drop_last());
    }
}

proof fn lemma_jump_keeps_stack(vm: VmModel, frame: FrameModel, at: At, target: usize)
    ensures
        ({
            let j = fastpaths::jumped(
                vm,
                frame,
                at.generation,
                at.function,
                at.instruction,
                target,
            ).0;
            j == (FrameModel { for_loops: j.for_loops, select_values: j.select_values, ..frame })
        }),
{
    if let Some(program) = vm.program(at.generation) {
        if let Some(t) = fastpaths::transition_of(program, at.function, at.instruction, target) {
            lemma_entered_keeps_stack(
                FrameModel {
                    for_loops: fastpaths::kept(frame.for_loops, t.retain_loops as nat),
                    select_values: fastpaths::kept(frame.select_values, t.retain_selects as nat),
                    ..frame
                },
                t.entered@,
            );
        }
    }
}

/// How many blocks of a kind are among some.
pub open spec fn blocks_of(scopes: Seq<StructuredScopeKind>, kind: StructuredScopeKind) -> nat
    decreases scopes.len(),
{
    if scopes.len() == 0 {
        0
    } else {
        blocks_of(scopes.drop_last(), kind) + if scopes.last() == kind {
            1nat
        } else {
            0
        }
    }
}

/// The open blocks of a kind after a jump: the outer ones that it keeps, and a mark for each block
/// that it enters past its head.
pub open spec fn blocks_after<T>(old_blocks: Seq<T>, new_blocks: Seq<T>, keep: nat, enters: nat, mark: T) -> bool {
    let kept = if keep < old_blocks.len() {
        keep
    } else {
        old_blocks.len()
    };
    &&& new_blocks.len() == kept + enters
    &&& forall|i: int| 0 <= i < kept ==> #[trigger] new_blocks[i] == old_blocks[i]
    &&& forall|i: int| kept <= i < new_blocks.len() ==> #[trigger] new_blocks[i] == mark
}

proof fn lemma_entered_blocks(frame: FrameModel, scopes: Seq<StructuredScopeKind>)
    ensures
        blocks_after(
            frame.for_loops,
            fastpaths::entered(frame, scopes).for_loops,
            frame.for_loops.len(),
            blocks_of(scopes, StructuredScopeKind::Loop),
            LoopModel { counter: state::nowhere(), end: 0, step: 0 },
        ),
        blocks_after(
            frame.select_values,
            fastpaths::entered(frame, scopes).select_values,
            frame.select_values.len(),
            blocks_of(scopes, StructuredScopeKind::Select),
            Val::IntegerPlace(state::nowhere()),
        ),
    decreases scopes.len(),
{
    if scopes.len() > 0 {
        lemma_entered_blocks(frame, scopes.drop_last());
    }
}

/// A jump that leaves or enters blocks closes the inner loops and selections that it leaves, keeps
/// the outer ones, and marks those that it enters past their heads; entering one is reported.
pub proof fn law_jump_reconciles_blocks(
    vm: VmModel,
    fiber: FiberModel,
    at: At,
    policy: ExecutionPolicy,
    k: int,
)
    requires
        at.opcode is Jump,
        at.payload.len() >= 4,
        fiber.frames.len() > 0,
        vm.program(at.generation) is Some,
        ({
            let jumps = vm.program(at.generation)->Some_0.structured_jumps@;
            let target = call_laws::four_bytes(at.payload, 0);
            &&& 0 <= k < jumps.len()
            &&& jumps[k].function == at.function && jumps[k].from == at.instruction && jumps[k].to
                == target as usize
            &&& forall|j: int|
                0 <= j < k ==> !((#[trigger] jumps[j]).function == at.function && jumps[j].from
                    == at.instruction && jumps[j].to == target as usize)
        }),
    ensures
        ({
            let t = vm.program(at.generation)->Some_0.structured_jumps@[k];
            let frame = fiber.frames.last();
            let after = dispatch::executed(vm, fiber, at, policy);
            let now = after.1.frames.last();
            &&& blocks_after(
                frame.for_loops,
                now.for_loops,
                t.retain_loops as nat,
                blocks_of(t.entered@, StructuredScopeKind::Loop),
                LoopModel { counter: state::nowhere(), end: 0, step: 0 },
            )
            &&& blocks_after(
                frame.select_values,
                now.select_values,
                t.retain_selects as nat,
                blocks_of(t.entered@, StructuredScopeKind::Select),
                Val::IntegerPlace(state::nowhere()),
            )
            &&& after.2 is Ok ==> (after.2->Ok_0->Some_0 is Diagnostic <==> t.entered@.len() > 0)
        }),
{
    call_laws::law_operand_numbers(at.payload, 0);
    let program = vm.program(at.generation)->Some_0;
    let target = call_laws::four_bytes(at.payload, 0) as usize;
    let p = fastpaths::transition_is(at.function, at.instruction, target);
    let jumps = program.structured_jumps@;
    assert(p(jumps[k]));
    assert forall|j: int| 0 <= j < k implies !p(#[trigger] jumps[j]) by {}
    lookup::lemma_first_found(jumps, p, k);
    let t = jumps[k];
    let frame = dispatch::counted(fiber).top();
    let base = FrameModel {
        for_loops: fastpaths::kept(frame.for_loops, t.retain_loops as nat),
        select_values: fastpaths::kept(frame.select_values, t.retain_selects as nat),
        ..frame
    };
    lemma_entered_blocks(base, t.entered@);
}

/// Returning hands out the top value where the operand asks for one, and nothing otherwise. Giving
/// way changes nothing, and waiting for a value keeps the type that is waited for.
pub proof fn law_leaving_instructions(
    vm: VmModel,
    fiber: FiberModel,
    at: At,
    policy: ExecutionPolicy,
)
    requires
        fiber.frames.len() > 0,
        fiber.frames.last().operand_slots() <= vm.config.maximum_operand_stack,
    ensures
        ({
            let frame = fiber.frames.last();
            let (vm1, after, r) = dispatch::executed(vm, fiber, at, policy);
            let moved = FrameModel { instruction: instruction_laws::next_instruction(frame), ..frame };
            let valued = at.payload.len() > 0 && at.payload[0] != 0;
            &&& at.opcode is Return && valued && frame.stack.len() > 0 ==> vm1 == vm && r == Ok::<
                Option<Outcome>,
                Failure,
            >(Some(Outcome::Returned(Some(frame.stack.last())))) && after
                == instruction_laws::running(
                fiber,
                FrameModel { stack: frame.stack.drop_last(), ..moved },
            )
            &&& at.opcode is Return && !valued ==> vm1 == vm && r == Ok::<Option<Outcome>, Failure>(
                Some(Outcome::Returned(None)),
            ) && after == instruction_laws::running(fiber, moved)
            &&& at.opcode is Yield ==> vm1 == vm && r == Ok::<Option<Outcome>, Failure>(
                Some(Outcome::Yielded),
            ) && after == instruction_laws::running(fiber, moved)
            &&& at.opcode is Nop ==> vm1 == vm && r == Ok::<Option<Outcome>, Failure>(
                Some(Outcome::Continue),
            ) && after == instruction_laws::running(fiber, moved)
            &&& at.opcode is Trap ==> vm1 == vm && (r matches Err(e) && e.code is Trap)
            &&& at.opcode is AwaitResume && at.payload.len() > 0 && at.payload[0] <= 3 ==> r
                == Ok::<Option<Outcome>, Failure>(Some(Outcome::Blocked)) && after.state
                == state::StateModel::WaitingResume(
                match at.payload[0] {
                    0 => BytecodeType::Integer,
                    1 => BytecodeType::String,
                    2 => BytecodeType::IntegerPlace,
                    _ => BytecodeType::StringPlace,
                },
            )
            &&& at.opcode is AwaitResume && (at.payload.len() == 0 || at.payload[0] > 3) ==> r
                is Err
        }),
{
    instruction_laws::lemma_counted(fiber);
    let counted = dispatch::counted(fiber);
    let frame = counted.top();
    instruction_laws::lemma_retopped(fiber, frame);
    instruction_laws::lemma_retopped(
        fiber,
        FrameModel { stack: frame.stack.drop_last(), ..frame },
    );
}

/// A jump to a label by name goes to the first label with the name, whatever the case of its
/// letters, and to the target in the operand where there is none. The name is taken.
pub proof fn law_jump_to_label(
    vm: VmModel,
    fiber: FiberModel,
    at: At,
    policy: ExecutionPolicy,
    name: Seq<char>,
    k: int,
)
    requires
        at.opcode is JumpDynamicLabel,
        at.payload.len() >= 4,
        fiber.frames.len() > 0,
        fiber.frames.last().stack.len() > 0,
        fiber.frames.last().stack.last() == Val::Text(name),
        vm.program(at.generation) matches Some(p) && p.spec_function(at.function) is Some,
    ensures
        ({
            let labels = vm.program(at.generation)->Some_0.spec_function(
                at.function,
            )->Some_0.labels@;
            let after = dispatch::executed(vm, fiber, at, policy).1;
            &&& after.frames.last().stack == fiber.frames.last().stack.drop_last()
            &&& (forall|i: int|
                0 <= i < labels.len() ==> !text::same_ignoring_case(
                    (#[trigger] labels[i]).name@,
                    name,
                )) ==> resumes_at(after) == call_laws::four_bytes(at.payload, 0) as usize
            &&& 0 <= k < labels.len() && text::same_ignoring_case(labels[k].name@, name) && (forall|
                i: int,
            |
                0 <= i < k ==> !text::same_ignoring_case((#[trigger] labels[i]).name@, name))
                ==> resumes_at(after) == labels[k].instruction as usize
        }),
{
    call_laws::law_operand_numbers(at.payload, 0);
    let labels = vm.program(at.generation)->Some_0.spec_function(at.function)->Some_0.labels@;
    let p = terminal::label_named(name);
    if 0 <= k < labels.len() && text::same_ignoring_case(labels[k].name@, name) && (forall|i: int|
        0 <= i < k ==> !text::same_ignoring_case((#[trigger] labels[i]).name@, name)) {
        assert(p(labels[k]));
        assert forall|j: int| 0 <= j < k implies !p(#[trigger] labels[j]) by {}
        lookup::lemma_first_found(labels, p, k);
    }
    if forall|i: int|
        0 <= i < labels.len() ==> !text::same_ignoring_case((#[trigger] labels[i]).name@, name) {
        assert forall|j: int| 0 <= j < labels.len() implies !p(#[trigger] labels[j]) by {}
        lookup::lemma_first_none(labels, p);
    }
    let counted = dispatch::counted(fiber);
    let popped = counted.with_stack(fiber.frames.last().stack.drop_last());
    let target = terminal::label_target(
        labels,
        name,
        call_laws::four_bytes(at.payload, 0) as usize,
    );
    lemma_jump_keeps_stack(vm, popped.top(), at, target);
}

} // verus!
