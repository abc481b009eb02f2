//! A loop that is taken in bulk leaves what its instructions leave.

use vstd::prelude::*;
use crate::basic;
use crate::bulk_laws::{self, Pair};
use crate::dispatch;
use crate::fastpaths;
use crate::fault::{Failure, Trouble};
use crate::lookup;
use crate::memory::{self, Cell, CellAddress};
use crate::operand;
use crate::places::{self, CellSlot};
use crate::program::{BulkArrayOperation, BulkLoopPlan, BytecodeGlobal, Opcode, ProgramGeneration};
use crate::state::{self, At, ExecutionPolicy, FiberModel, FrameModel, LoopModel, Outcome, VmModel};
use crate::value::{Place, Val};

verus! {

/// What a loop changes of its frame and fiber, apart from variables.
#[verifier::ext_equal]
pub struct Work {
    pub stack: Seq<Val>,
    pub instruction: usize,
    pub loops: Seq<LoopModel>,
    pub backward: u64,
}

/// A fiber whose running frame works on this.
pub open spec fn dressed(f: FiberModel, w: Work) -> FiberModel {
    FiberModel {
        backward: w.backward,
        ..f.with_top(
            FrameModel {
                stack: w.stack,
                instruction: w.instruction,
                for_loops: w.loops,
                ..f.top()
            },
        )
    }
}

/// The slots of a frame that are no operands.
pub open spec fn context(frame: FrameModel) -> nat {
    frame.existvar_checks.len() + frame.bit_calls.len() + state::pending_slots(frame.user_calls)
}

/// The running frame has room for so many operands.
pub open spec fn room(vm: VmModel, f: FiberModel, n: nat) -> bool {
    n + context(f.top()) <= vm.config.maximum_operand_stack
}

/// A step that goes on.
pub open spec fn on(vm: VmModel, f: FiberModel) -> (
    VmModel,
    FiberModel,
    Result<Option<Outcome>, Failure>,
) {
    (vm, f, Ok(Some(Outcome::Continue)))
}

/// A policy that takes every instruction for itself.
pub open spec fn plain(policy: ExecutionPolicy) -> ExecutionPolicy {
    ExecutionPolicy { allow_function_memo: false, ..policy }
}

proof fn lemma_dressed_slots(f: FiberModel, w: Work, store: state::Store, address: CellAddress)
    requires
        f.frames.len() > 0,
    ensures
        places::slot_at(store, dressed(f, w).frames, address) == places::slot_at(
            store,
            f.frames,
            address,
        ),
{
    if let Some(id) = address.frame {
        lookup::lemma_first_same(dressed(f, w).frames, f.frames, state::frame_is(id));
        lookup::lemma_first_index(f.frames, state::frame_is(id));
    }
}

proof fn lemma_dressed_read(
    f: FiberModel,
    w: Work,
    store: state::Store,
    address: CellAddress,
    indices: Seq<u64>,
)
    requires
        f.frames.len() > 0,
    ensures
        places::read_at(store, dressed(f, w).frames, address, indices) == places::read_at(
            store,
            f.frames,
            address,
            indices,
        ),
{
    lemma_dressed_slots(f, w, store, address);
    if let Some(id) = address.frame {
        lookup::lemma_first_index(f.frames, state::frame_is(id));
    }
}

proof fn lemma_dressed_put(vm: VmModel, f: FiberModel, w: Work, slot: CellSlot, cell: Cell)
    requires
        f.frames.len() > 0,
        places::slot_exists(vm.store, f.frames, slot),
    ensures
        ({
            let (v, g) = places::put_cell(vm, f, slot, cell);
            places::put_cell(vm, dressed(f, w), slot, cell) == (v, dressed(g, w))
        }),
{
    let (v, g) = places::put_cell(vm, f, slot, cell);
    let (x, h) = places::put_cell(vm, dressed(f, w), slot, cell);
    assert(h.frames =~= dressed(g, w).frames);
}

pub proof fn lemma_dressed_write(
    vm: VmModel,
    f: FiberModel,
    w: Work,
    address: CellAddress,
    indices: Seq<u64>,
    val: Val,
)
    requires
        f.frames.len() > 0,
        places::machine_sized(vm, f),
        places::write_address(vm, f, address, indices, val) is Ok,
    ensures
        ({
            let (v, g) = places::write_address(vm, f, address, indices, val)->Ok_0;
            &&& places::write_address(vm, dressed(f, w), address, indices, val) == Ok::<
                Pair,
                Trouble,
            >((v, dressed(g, w)))
            &&& g.frames.len() == f.frames.len()
            &&& g.top() == (FrameModel { locals: g.top().locals, ..f.top() })
            &&& (FiberModel { frames: g.frames, ..f }) == g
            &&& v == (VmModel { store: v.store, ..vm })
            &&& places::machine_sized(v, g)
        }),
{
    lemma_dressed_slots(f, w, vm.store, address);
    places::lemma_found_slot_exists(vm, f, address);
    let slot = places::slot_at(vm.store, f.frames, address)->Ok_0;
    let cell = places::cell_in(vm.store, f.frames, slot).write(indices, val)->Ok_0;
    assert(places::cell_in(vm.store, dressed(f, w).frames, slot) == places::cell_in(
        vm.store,
        f.frames,
        slot,
    ));
    lemma_dressed_put(vm, f, w, slot, cell);
}

proof fn lemma_dressed_place(vm: VmModel, f: FiberModel, w: Work, place: Place)
    requires
        f.frames.len() > 0,
    ensures
        places::place_address(vm, dressed(f, w), place) == places::place_address(vm, f, place),
{
}

proof fn lemma_push(vm: VmModel, f: FiberModel, w: Work, at: At, policy: ExecutionPolicy, n: i64)
    requires
        f.frames.len() > 0,
        w.instruction < usize::MAX,
        at.opcode is PushInteger,
        operand::i64_of(at.payload) == Ok::<i64, Failure>(n),
        room(vm, f, w.stack.len() + 1),
    ensures
        dispatch::executed(vm, dressed(f, w), at, policy) == on(
            vm,
            dressed(
                f,
                Work {
                    stack: w.stack.push(Val::Integer(n)),
                    instruction: (w.instruction + 1) as usize,
                    ..w
                },
            ),
        ),
{
    let next = Work {
        stack: w.stack.push(Val::Integer(n)),
        instruction: (w.instruction + 1) as usize,
        ..w
    };
    let after = dispatch::executed(vm, dressed(f, w), at, policy).1;
    assert(after.frames =~= dressed(f, next).frames);
}

proof fn lemma_nop(vm: VmModel, f: FiberModel, w: Work, at: At, policy: ExecutionPolicy)
    requires
        f.frames.len() > 0,
        w.instruction < usize::MAX,
        at.opcode is Nop,
        room(vm, f, w.stack.len()),
    ensures
        dispatch::executed(vm, dressed(f, w), at, policy) == on(
            vm,
            dressed(f, Work { instruction: (w.instruction + 1) as usize, ..w }),
        ),
{
    let next = Work { instruction: (w.instruction + 1) as usize, ..w };
    let after = dispatch::executed(vm, dressed(f, w), at, policy).1;
    assert(after.frames =~= dressed(f, next).frames);
}

/// An operation on a variable: so many indices, and nothing but a plain store.
pub open spec fn accesses(at: At, opcode: Opcode, g: BytecodeGlobal, count: u16) -> bool {
    &&& at.opcode == opcode
    &&& at.variable == Some(g)
    &&& operand::u16_at(at.payload, 16) == Ok::<u16, Failure>(count)
    &&& at.payload.len() > 18
    &&& at.payload[18] == 0
}

/// A variable without indices is loaded.
proof fn lemma_load_scalar(
    vm: VmModel,
    f: FiberModel,
    w: Work,
    at: At,
    policy: ExecutionPolicy,
    g: BytecodeGlobal,
    v: Val,
)
    requires
        f.frames.len() > 0,
        w.instruction < usize::MAX,
        accesses(at, Opcode::LoadVariable, g, 0),
        !(g.storage is Character),
        places::read_at(
            vm.store,
            f.frames,
            places::variable_address(g, None, fastpaths::own_frame(g, f.top().id)),
            Seq::empty(),
        ) == Ok::<Val, Trouble>(v),
        room(vm, f, w.stack.len() + 1),
    ensures
        dispatch::executed(vm, dressed(f, w), at, policy) == on(
            vm,
            dressed(
                f,
                Work {
                    stack: w.stack.push(v),
                    instruction: (w.instruction + 1) as usize,
                    ..w
                },
            ),
        ),
{
    let counted = Work { instruction: (w.instruction + 1) as usize, ..w };
    let next = Work { stack: w.stack.push(v), ..counted };
    let start = dressed(f, w);
    assert(dispatch::counted(start).frames =~= dressed(f, counted).frames);
    assert(dispatch::counted(start) == dressed(f, counted));
    assert(dressed(f, counted).with_stack(w.stack).frames =~= dressed(f, counted).frames);
    lemma_dressed_read(
        f,
        counted,
        vm.store,
        places::variable_address(g, None, fastpaths::own_frame(g, f.top().id)),
        Seq::empty(),
    );
    let after = dispatch::executed(vm, start, at, policy).1;
    assert(after.frames =~= dressed(f, next).frames);
}

/// A variable with one index is loaded.
proof fn lemma_load_element(
    vm: VmModel,
    f: FiberModel,
    w: Work,
    at: At,
    policy: ExecutionPolicy,
    g: BytecodeGlobal,
    index: i64,
    v: Val,
)
    requires
        f.frames.len() > 0,
        w.instruction < usize::MAX,
        accesses(at, Opcode::LoadVariable, g, 1),
        !(g.storage is Character),
        index >= 0,
        places::read_at(
            vm.store,
            f.frames,
            places::variable_address(g, None, fastpaths::own_frame(g, f.top().id)),
            seq![index as u64],
        ) == Ok::<Val, Trouble>(v),
        room(vm, f, w.stack.len() + 1),
    ensures
        dispatch::executed(
            vm,
            dressed(f, Work { stack: w.stack.push(Val::Integer(index)), ..w }),
            at,
            policy,
        ) == on(
            vm,
            dressed(
                f,
                Work {
                    stack: w.stack.push(v),
                    instruction: (w.instruction + 1) as usize,
                    ..w
                },
            ),
        ),
{
    let given = w.stack.push(Val::Integer(index));
    let start = dressed(f, Work { stack: given, ..w });
    let counted = Work { stack: given, instruction: (w.instruction + 1) as usize, ..w };
    let popped = Work { stack: w.stack, ..counted };
    let next = Work { stack: w.stack.push(v), ..counted };
    assert(dispatch::counted(start).frames =~= dressed(f, counted).frames);
    assert(dispatch::counted(start) == dressed(f, counted));
    reveal_with_fuel(operand::popped_indices, 2);
    assert(given.drop_last() =~= w.stack);
    assert(operand::popped_indices(given, 1).1->Ok_0 =~= seq![index as u64]);
    assert(dressed(f, counted).with_stack(w.stack).frames =~= dressed(f, popped).frames);
    assert(dressed(f, counted).with_stack(w.stack) == dressed(f, popped));
    lemma_dressed_read(
        f,
        popped,
        vm.store,
        places::variable_address(g, None, fastpaths::own_frame(g, f.top().id)),
        seq![index as u64],
    );
    let after = dispatch::executed(vm, start, at, policy).1;
    assert(after.frames =~= dressed(f, next).frames);
}

/// A cell of a row is stored.
proof fn lemma_store_cell(
    vm: VmModel,
    f: FiberModel,
    w: Work,
    at: At,
    policy: ExecutionPolicy,
    g: BytecodeGlobal,
    row: i64,
    column: i64,
    v: Val,
)
    requires
        f.frames.len() > 0,
        places::machine_sized(vm, f),
        w.instruction < usize::MAX,
        accesses(at, Opcode::StoreVariable, g, 2),
        !(g.storage is FunctionLocal),
        g.storage is Character ==> g.dimensions@.len() == 1,
        row >= 0,
        column >= 0,
        places::write_address(
            vm,
            f,
            bulk_laws::row_address(g, row),
            bulk_laws::column_indices(g, row, column as int),
            v,
        ) is Ok,
        room(vm, f, w.stack.len()),
    ensures
        ({
            let (x, h) = places::write_address(
                vm,
                f,
                bulk_laws::row_address(g, row),
                bulk_laws::column_indices(g, row, column as int),
                v,
            )->Ok_0;
            dispatch::executed(
                vm,
                dressed(
                    f,
                    Work {
                        stack: w.stack.push(Val::Integer(row)).push(Val::Integer(column)).push(v),
                        ..w
                    },
                ),
                at,
                policy,
            ) == on(x, dressed(h, Work { instruction: (w.instruction + 1) as usize, ..w }))
        }),
{
    let two = w.stack.push(Val::Integer(row)).push(Val::Integer(column));
    let given = two.push(v);
    let start = dressed(f, Work { stack: given, ..w });
    let counted = Work { stack: given, instruction: (w.instruction + 1) as usize, ..w };
    let popped = Work { stack: w.stack, ..counted };
    assert(dispatch::counted(start).frames =~= dressed(f, counted).frames);
    assert(dispatch::counted(start) == dressed(f, counted));
    assert(given.drop_last() =~= two);
    let taken = dressed(f, counted).with_stack(two);
    reveal_with_fuel(operand::popped_indices, 3);
    assert(two.drop_last() =~= w.stack.push(Val::Integer(row)));
    assert(w.stack.push(Val::Integer(row)).drop_last() =~= w.stack);
    let all = seq![row as u64, column as u64];
    assert(operand::popped_indices(two, 2).1->Ok_0 =~= all);
    assert(operand::popped_indices(two, 2).0 == w.stack);
    assert(taken.with_stack(w.stack).frames =~= dressed(f, popped).frames);
    assert(taken.with_stack(w.stack) == dressed(f, popped));
    assert(all.skip(1) =~= seq![column as u64]);
    let address = bulk_laws::row_address(g, row);
    let indices = bulk_laws::column_indices(g, row, column as int);
    lemma_dressed_write(vm, f, popped, address, indices, v);
    let after = dispatch::executed(vm, start, at, policy);
    let (x, h) = places::write_address(vm, f, address, indices, v)->Ok_0;
    assert(basic::stored_at(vm, dressed(f, popped), address, indices, v) == basic::go(
        x,
        dressed(h, popped),
    ));
}

/// A cell of a row is loaded.
proof fn lemma_load_cell(
    vm: VmModel,
    f: FiberModel,
    w: Work,
    at: At,
    policy: ExecutionPolicy,
    g: BytecodeGlobal,
    row: i64,
    column: i64,
    v: Val,
)
    requires
        f.frames.len() > 0,
        w.instruction < usize::MAX,
        accesses(at, Opcode::LoadVariable, g, 2),
        !(g.storage is FunctionLocal),
        g.storage is Character ==> g.dimensions@.len() == 1,
        row >= 0,
        column >= 0,
        places::read_at(
            vm.store,
            f.frames,
            bulk_laws::row_address(g, row),
            bulk_laws::column_indices(g, row, column as int),
        ) == Ok::<Val, Trouble>(v),
        room(vm, f, w.stack.len() + 1),
    ensures
        dispatch::executed(
            vm,
            dressed(
                f,
                Work { stack: w.stack.push(Val::Integer(row)).push(Val::Integer(column)), ..w },
            ),
            at,
            policy,
        ) == on(
            vm,
            dressed(
                f,
                Work {
                    stack: w.stack.push(v),
                    instruction: (w.instruction + 1) as usize,
                    ..w
                },
            ),
        ),
{
    let given = w.stack.push(Val::Integer(row)).push(Val::Integer(column));
    let start = dressed(f, Work { stack: given, ..w });
    let counted = Work { stack: given, instruction: (w.instruction + 1) as usize, ..w };
    let popped = Work { stack: w.stack, ..counted };
    let next = Work { stack: w.stack.push(v), ..counted };
    assert(dispatch::counted(start).frames =~= dressed(f, counted).frames);
    assert(dispatch::counted(start) == dressed(f, counted));
    reveal_with_fuel(operand::popped_indices, 3);
    assert(given.drop_last() =~= w.stack.push(Val::Integer(row)));
    assert(w.stack.push(Val::Integer(row)).drop_last() =~= w.stack);
    let all = seq![row as u64, column as u64];
    assert(operand::popped_indices(given, 2).1->Ok_0 =~= all);
    assert(operand::popped_indices(given, 2).0 == w.stack);
    assert(dressed(f, counted).with_stack(w.stack).frames =~= dressed(f, popped).frames);
    assert(dressed(f, counted).with_stack(w.stack) == dressed(f, popped));
    assert(all.skip(1) =~= seq![column as u64]);
    let address = bulk_laws::row_address(g, row);
    let indices = bulk_laws::column_indices(g, row, column as int);
    lemma_dressed_read(f, popped, vm.store, address, indices);
    let after = dispatch::executed(vm, start, at, policy).1;
    assert(after.frames =~= dressed(f, next).frames);
}

/// Two integers are added.
proof fn lemma_add(
    vm: VmModel,
    f: FiberModel,
    w: Work,
    at: At,
    policy: ExecutionPolicy,
    a: i64,
    b: i64,
)
    requires
        f.frames.len() > 0,
        w.instruction < usize::MAX,
        at.opcode is Binary,
        at.payload == seq![3u8],
        i64::MIN <= a + b <= i64::MAX,
        room(vm, f, w.stack.len() + 1),
    ensures
        dispatch::executed(
            vm,
            dressed(f, Work { stack: w.stack.push(Val::Integer(a)).push(Val::Integer(b)), ..w }),
            at,
            policy,
        ) == on(
            vm,
            dressed(
                f,
                Work {
                    stack: w.stack.push(Val::Integer((a + b) as i64)),
                    instruction: (w.instruction + 1) as usize,
                    ..w
                },
            ),
        ),
{
    let given = w.stack.push(Val::Integer(a)).push(Val::Integer(b));
    let next = Work {
        stack: w.stack.push(Val::Integer((a + b) as i64)),
        instruction: (w.instruction + 1) as usize,
        ..w
    };
    assert(given.drop_last() =~= w.stack.push(Val::Integer(a)));
    assert(w.stack.push(Val::Integer(a)).drop_last() =~= w.stack);
    let after = dispatch::executed(vm, dressed(f, Work { stack: given, ..w }), at, policy).1;
    assert(after.frames =~= dressed(f, next).frames);
}

/// A jump that enters and leaves no block.
pub open spec fn jumps(vm: VmModel, at: At, opcode: Opcode, target: usize) -> bool {
    &&& at.opcode == opcode
    &&& operand::u32_at(at.payload, 0) matches Ok(t) && t as usize == target
    &&& vm.program(at.generation) matches Some(p) ==> fastpaths::transition_of(
        p,
        at.function,
        at.instruction,
        target,
    ) is None
}

/// A condition that holds lets execution go on.
proof fn lemma_not_taken(
    vm: VmModel,
    f: FiberModel,
    w: Work,
    at: At,
    policy: ExecutionPolicy,
    target: usize,
)
    requires
        f.frames.len() > 0,
        w.instruction < usize::MAX,
        jumps(vm, at, Opcode::JumpIfFalse, target),
        room(vm, f, w.stack.len()),
    ensures
        dispatch::executed(
            vm,
            dressed(f, Work { stack: w.stack.push(Val::Integer(1)), ..w }),
            at,
            policy,
        ) == on(vm, dressed(f, Work { instruction: (w.instruction + 1) as usize, ..w })),
{
    let given = w.stack.push(Val::Integer(1));
    let start = dressed(f, Work { stack: given, ..w });
    let next = Work { instruction: (w.instruction + 1) as usize, ..w };
    assert(given.drop_last() =~= w.stack);
    let after = dispatch::executed(vm, start, at, policy).1;
    assert(after.frames =~= dressed(f, next).frames);
}

/// A condition that does not hold goes on behind the loop.
proof fn lemma_left(
    vm: VmModel,
    f: FiberModel,
    w: Work,
    at: At,
    policy: ExecutionPolicy,
    target: usize,
)
    requires
        f.frames.len() > 0,
        w.instruction < usize::MAX,
        at.instruction == w.instruction,
        target > w.instruction,
        jumps(vm, at, Opcode::JumpIfFalse, target),
        room(vm, f, w.stack.len()),
    ensures
        dispatch::executed(
            vm,
            dressed(f, Work { stack: w.stack.push(Val::Integer(0)), ..w }),
            at,
            policy,
        ) == on(vm, dressed(f, Work { instruction: target, ..w })),
{
    let given = w.stack.push(Val::Integer(0));
    let start = dressed(f, Work { stack: given, ..w });
    let next = Work { instruction: target, ..w };
    assert(given.drop_last() =~= w.stack);
    let after = dispatch::executed(vm, start, at, policy).1;
    assert(after.frames =~= dressed(f, next).frames);
}

/// The end of a round goes back to its beginning.
proof fn lemma_back(
    vm: VmModel,
    f: FiberModel,
    w: Work,
    at: At,
    policy: ExecutionPolicy,
    target: usize,
)
    requires
        f.frames.len() > 0,
        w.instruction < usize::MAX,
        at.instruction == w.instruction,
        target <= w.instruction,
        jumps(vm, at, Opcode::Jump, target),
        room(vm, f, w.stack.len()),
    ensures
        dispatch::executed(vm, dressed(f, w), at, policy) == on(
            vm,
            dressed(
                f,
                Work {
                    instruction: target,
                    backward: fastpaths::saturated(w.backward + 1),
                    ..w
                },
            ),
        ),
{
    let next = Work {
        instruction: target,
        backward: fastpaths::saturated(w.backward + 1),
        ..w
    };
    let after = dispatch::executed(vm, dressed(f, w), at, policy).1;
    assert(after.frames =~= dressed(f, next).frames);
}

/// The counter advances at the end of a round.
proof fn lemma_advance(
    vm: VmModel,
    f: FiberModel,
    w: Work,
    at: At,
    policy: ExecutionPolicy,
    counter: Place,
    end: i64,
    k: i64,
    outer: Seq<LoopModel>,
)
    requires
        f.frames.len() > 0,
        places::machine_sized(vm, f),
        w.instruction < usize::MAX,
        at.opcode is ForNext,
        w.loops == outer.push(LoopModel { counter, end, step: 1 }),
        k < end,
        places::read_place(vm, f, counter) == Ok::<Val, Trouble>(Val::Integer(k)),
        places::write_place(vm, f, counter, Val::Integer((k + 1) as i64)) is Ok,
        room(vm, f, w.stack.len() + 1),
    ensures
        ({
            let (x, h) = places::write_place(vm, f, counter, Val::Integer((k + 1) as i64))->Ok_0;
            dispatch::executed(vm, dressed(f, w), at, policy) == on(
                x,
                dressed(
                    h,
                    if k + 1 < end {
                        Work {
                            stack: w.stack.push(Val::Integer(1)),
                            instruction: (w.instruction + 1) as usize,
                            ..w
                        }
                    } else {
                        Work {
                            stack: w.stack.push(Val::Integer(0)),
                            instruction: (w.instruction + 1) as usize,
                            loops: outer,
                            ..w
                        }
                    },
                ),
            )
        }),
{
    let counted = Work { instruction: (w.instruction + 1) as usize, ..w };
    let start = dressed(f, w);
    assert(dispatch::counted(start).frames =~= dressed(f, counted).frames);
    assert(dispatch::counted(start) == dressed(f, counted));
    lemma_dressed_place(vm, f, counted, counter);
    let address = places::place_address(vm, f, counter)->Ok_0;
    lemma_dressed_read(f, counted, vm.store, address, counter.indices);
    let value = Val::Integer((k + 1) as i64);
    lemma_dressed_write(vm, f, counted, address, counter.indices, value);
    assert(w.loops.drop_last() =~= outer);
    let (x, h) = places::write_place(vm, f, counter, value)->Ok_0;
    let after = dispatch::executed(vm, start, at, policy).1;
    let next = if k + 1 < end {
        Work { stack: w.stack.push(Val::Integer(1)), ..counted }
    } else {
        Work { stack: w.stack.push(Val::Integer(0)), loops: outer, ..counted }
    };
    assert(after.frames =~= dressed(h, next).frames);
}

/// A loop starts with its first round.
proof fn lemma_enter(
    vm: VmModel,
    f: FiberModel,
    w: Work,
    at: At,
    policy: ExecutionPolicy,
    counter: Place,
    start: i64,
    end: i64,
)
    requires
        f.frames.len() > 0,
        places::machine_sized(vm, f),
        w.instruction < usize::MAX,
        at.opcode is ForStart,
        !policy.allow_function_memo,
        start < end,
        places::write_place(vm, f, counter, Val::Integer(start)) is Ok,
        room(vm, f, w.stack.len() + 1),
    ensures
        ({
            let (x, h) = places::write_place(vm, f, counter, Val::Integer(start))->Ok_0;
            dispatch::executed(
                vm,
                dressed(f, Work { stack: loop_operands(w.stack, counter, start, end), ..w }),
                at,
                policy,
            ) == on(
                x,
                dressed(
                    h,
                    Work {
                        stack: w.stack.push(Val::Integer(1)),
                        instruction: (w.instruction + 1) as usize,
                        loops: w.loops.push(LoopModel { counter, end, step: 1 }),
                        ..w
                    },
                ),
            )
        }),
{
    let given = loop_operands(w.stack, counter, start, end);
    let begin = dressed(f, Work { stack: given, ..w });
    let counted = Work { stack: given, instruction: (w.instruction + 1) as usize, ..w };
    let popped = Work { stack: w.stack, ..counted };
    assert(dispatch::counted(begin).frames =~= dressed(f, counted).frames);
    assert(dispatch::counted(begin) == dressed(f, counted));
    lemma_operands(w.stack, counter, start, end);
    assert(dressed(f, counted).with_stack(w.stack).frames =~= dressed(f, popped).frames);
    assert(dressed(f, counted).with_stack(w.stack) == dressed(f, popped));
    lemma_dressed_place(vm, f, popped, counter);
    let address = places::place_address(vm, f, counter)->Ok_0;
    lemma_dressed_write(vm, f, popped, address, counter.indices, Val::Integer(start));
    let (x, h) = places::write_place(vm, f, counter, Val::Integer(start))->Ok_0;
    let next = Work {
        stack: w.stack.push(Val::Integer(1)),
        loops: w.loops.push(LoopModel { counter, end, step: 1 }),
        ..counted
    };
    let after = dispatch::executed(vm, begin, at, policy).1;
    assert(after.frames =~= dressed(h, next).frames);
}

/// The operands of a loop with step one.
pub open spec fn loop_operands(stack: Seq<Val>, counter: Place, start: i64, end: i64) -> Seq<Val> {
    stack.push(Val::IntegerPlace(counter)).push(Val::Integer(start)).push(Val::Integer(end)).push(
        Val::Integer(1),
    )
}

pub proof fn lemma_operands(stack: Seq<Val>, counter: Place, start: i64, end: i64)
    ensures
        basic::for_operands(loop_operands(stack, counter, start, end)) == (
            stack,
            Ok::<(Place, i64, i64, i64), Failure>((counter, start, end, 1)),
        ),
{
    let a = stack.push(Val::IntegerPlace(counter));
    let b = a.push(Val::Integer(start));
    let c = b.push(Val::Integer(end));
    let d = c.push(Val::Integer(1));
    assert(d.drop_last() =~= c);
    assert(c.drop_last() =~= b);
    assert(b.drop_last() =~= a);
    assert(a.drop_last() =~= stack);
}

/// What one instruction of a function leaves, if it goes on.
#[verifier::opaque]
pub open spec fn next(code: Seq<At>, policy: ExecutionPolicy, vm: VmModel, fiber: FiberModel) -> Option<
    Pair,
> {
    if fiber.frames.len() == 0 || fiber.top().instruction >= code.len() {
        None
    } else {
        let after = dispatch::executed(vm, fiber, code[fiber.top().instruction as int], policy);
        if after.2 == Ok::<Option<Outcome>, Failure>(Some(Outcome::Continue)) {
            Some((after.0, after.1))
        } else {
            None
        }
    }
}

/// What so many instructions of a function leave, if each of them goes on.
pub open spec fn run(
    code: Seq<At>,
    policy: ExecutionPolicy,
    vm: VmModel,
    fiber: FiberModel,
    n: nat,
) -> Option<Pair>
    decreases n,
{
    if n == 0 {
        Some((vm, fiber))
    } else {
        match next(code, policy, vm, fiber) {
            None => None,
            Some((v, f)) => run(code, policy, v, f, (n - 1) as nat),
        }
    }
}

proof fn lemma_step(
    code: Seq<At>,
    policy: ExecutionPolicy,
    vm: VmModel,
    f: FiberModel,
    w: Work,
    after: Pair,
    n: nat,
)
    requires
        f.frames.len() > 0,
        w.instruction < code.len(),
        dispatch::executed(vm, dressed(f, w), code[w.instruction as int], policy) == on(
            after.0,
            after.1,
        ),
    ensures
        run(code, policy, vm, dressed(f, w), n + 1) == run(code, policy, after.0, after.1, n),
{
    reveal(next);
    assert(dressed(f, w).top().instruction == w.instruction);
}

/// What the rounds of a loop store.
pub enum LoopBody {
    Fill(i64),
    /// The cell of the row of `source` that the counter selects goes `offset` further.
    Copy { source: BytecodeGlobal, offset: i64 },
}

/// The instructions of a loop over a row.
pub struct RowLoop {
    pub code: Seq<At>,
    pub begin: usize,
    pub row: Scalar,
    pub counter: Scalar,
    pub target: BytecodeGlobal,
    pub body: LoopBody,
}

/// A variable that holds one number, or the cell of it at a fixed index.
pub struct Scalar {
    pub variable: BytecodeGlobal,
    pub index: Option<i64>,
}

/// Instructions that load it.
pub open spec fn scalar_length(s: Scalar) -> int {
    if s.index is Some {
        2
    } else {
        1
    }
}

pub open spec fn scalar_indices(s: Scalar) -> Seq<u64> {
    match s.index {
        Some(c) => seq![c as u64],
        None => Seq::empty(),
    }
}

/// Where it stands while a frame runs.
pub open spec fn scalar_cell(f: FiberModel, s: Scalar) -> CellAddress {
    places::variable_address(
        s.variable,
        None,
        fastpaths::own_frame(s.variable, f.top().id),
    )
}

/// The instructions from one on load it.
pub open spec fn loads(code: Seq<At>, i: int, s: Scalar) -> bool {
    match s.index {
        None => accesses(code[i], Opcode::LoadVariable, s.variable, 0),
        Some(c) => pushes(code[i], c) && accesses(
            code[i + 1],
            Opcode::LoadVariable,
            s.variable,
            1,
        ),
    }
}

/// It belongs to no character, and its index is none before the first.
pub open spec fn plain_scalar(s: Scalar) -> bool {
    &&& !(s.variable.storage is Character)
    &&& s.index matches Some(c) ==> c >= 0
}

/// What it holds.
pub open spec fn holds(vm: VmModel, f: FiberModel, s: Scalar, n: i64) -> bool {
    places::read_at(vm.store, f.frames, scalar_cell(f, s), scalar_indices(s)) == Ok::<Val, Trouble>(
        Val::Integer(n),
    )
}

/// Instructions of the body.
pub open spec fn body_length(l: RowLoop) -> int {
    let both = scalar_length(l.row) + scalar_length(l.counter);
    match l.body {
        LoopBody::Fill(_) => both + 2,
        LoopBody::Copy { source, offset } => both + both + 4,
    }
}

/// Operands that the body holds at once.
pub open spec fn body_peak(l: RowLoop) -> nat {
    match l.body {
        LoopBody::Fill(_) => 3,
        LoopBody::Copy { source, offset } => 4,
    }
}

/// An instruction that pushes an integer.
pub open spec fn pushes(at: At, n: i64) -> bool {
    at.opcode is PushInteger && operand::i64_of(at.payload) == Ok::<i64, Failure>(n)
}

/// A variable that holds rows: `target:row:column`.
pub open spec fn has_rows(g: BytecodeGlobal) -> bool {
    &&& !(g.storage is FunctionLocal)
    &&& g.storage is Character ==> g.dimensions@.len() == 1
}

/// The body: `target:row:counter = value` or `target:row:(offset + counter) = source:row:counter`.
pub open spec fn body_code(l: RowLoop) -> bool {
    let i = l.begin + 2;
    let r = scalar_length(l.row);
    let c = scalar_length(l.counter);
    &&& loads(l.code, i, l.row)
    &&& match l.body {
        LoopBody::Fill(value) => {
            &&& loads(l.code, i + r, l.counter)
            &&& pushes(l.code[i + r + c], value)
            &&& accesses(l.code[i + r + c + 1], Opcode::StoreVariable, l.target, 2)
        },
        LoopBody::Copy { source, offset } => {
            let j = i + r + c + 2;
            &&& pushes(l.code[i + r], offset)
            &&& loads(l.code, i + r + 1, l.counter)
            &&& l.code[j - 1].opcode is Binary
            &&& l.code[j - 1].payload == seq![3u8]
            &&& loads(l.code, j, l.row)
            &&& loads(l.code, j + r, l.counter)
            &&& accesses(l.code[j + r + c], Opcode::LoadVariable, source, 2)
            &&& accesses(l.code[j + r + c + 1], Opcode::StoreVariable, l.target, 2)
            &&& has_rows(source)
        },
    }
}

/// The code of a loop over a row: `FOR counter, ..` around the body.
pub open spec fn row_loop(vm: VmModel, l: RowLoop) -> bool {
    let p = l.begin as int;
    let q = p + 2 + body_length(l);
    &&& q + 4 <= l.code.len() <= usize::MAX
    &&& forall|i: int| p <= i < q + 4 ==> (#[trigger] l.code[i]).instruction == i
    &&& l.code[p].opcode is ForStart
    &&& jumps(vm, l.code[p + 1], Opcode::JumpIfFalse, (q + 3) as usize)
    &&& body_code(l)
    &&& l.code[q].opcode is ForNext
    &&& jumps(vm, l.code[q + 1], Opcode::JumpIfFalse, (q + 3) as usize)
    &&& jumps(vm, l.code[q + 2], Opcode::Jump, (p + 2) as usize)
    &&& l.code[q + 3].opcode is Nop
    &&& plain_scalar(l.row)
    &&& plain_scalar(l.counter)
    &&& has_rows(l.target)
}

/// The value that a round stores.
pub open spec fn body_value(vm: VmModel, f: FiberModel, l: RowLoop, row: i64, k: i64) -> Result<
    Val,
    Trouble,
> {
    match l.body {
        LoopBody::Fill(value) => Ok(Val::Integer(value)),
        LoopBody::Copy { source, offset } => places::read_at(
            vm.store,
            f.frames,
            bulk_laws::row_address(source, row),
            bulk_laws::column_indices(source, row, k as int),
        ),
    }
}

/// The column that a round stores into.
pub open spec fn body_column(l: RowLoop, k: i64) -> int {
    match l.body {
        LoopBody::Fill(_) => k as int,
        LoopBody::Copy { source, offset } => k + offset,
    }
}

/// What the body of a round leaves.
pub open spec fn body_stored(vm: VmModel, f: FiberModel, l: RowLoop, row: i64, k: i64) -> Result<
    Pair,
    Trouble,
> {
    match body_value(vm, f, l, row, k) {
        Err(e) => Err(e),
        Ok(v) => places::write_address(
            vm,
            f,
            bulk_laws::row_address(l.target, row),
            bulk_laws::column_indices(l.target, row, body_column(l, k)),
            v,
        ),
    }
}

/// A round finds the row and its counter.
pub open spec fn finds(vm: VmModel, f: FiberModel, l: RowLoop, row: i64, k: i64) -> bool {
    holds(vm, f, l.row, row) && holds(vm, f, l.counter, k)
}

/// What a scalar holds is loaded.
proof fn lemma_load(
    vm: VmModel,
    f: FiberModel,
    w: Work,
    code: Seq<At>,
    policy: ExecutionPolicy,
    s: Scalar,
    v: i64,
    n: nat,
)
    requires
        f.frames.len() > 0,
        w.instruction + scalar_length(s) <= code.len() <= usize::MAX,
        holds(vm, f, s, v),
        plain_scalar(s),
        loads(code, w.instruction as int, s),
        room(vm, f, w.stack.len() + 1),
    ensures
        run(code, policy, vm, dressed(f, w), (n + scalar_length(s)) as nat) == run(
            code,
            policy,
            vm,
            dressed(
                f,
                Work {
                    stack: w.stack.push(Val::Integer(v)),
                    instruction: (w.instruction + scalar_length(s)) as usize,
                    ..w
                },
            ),
            n,
        ),
{
    let i = w.instruction as int;
    let after = Work {
        stack: w.stack.push(Val::Integer(v)),
        instruction: (i + scalar_length(s)) as usize,
        ..w
    };
    match s.index {
        None => {
            lemma_load_scalar(vm, f, w, code[i], policy, s.variable, Val::Integer(v));
            lemma_step(code, policy, vm, f, w, (vm, dressed(f, after)), n);
        },
        Some(c) => {
            let base = Work { instruction: (i + 1) as usize, ..w };
            let w1 = Work { stack: w.stack.push(Val::Integer(c)), ..base };
            lemma_push(vm, f, w, code[i], policy, c);
            lemma_step(code, policy, vm, f, w, (vm, dressed(f, w1)), n + 1);
            lemma_load_element(
                vm,
                f,
                base,
                code[i + 1],
                policy,
                s.variable,
                c,
                Val::Integer(v),
            );
            lemma_step(code, policy, vm, f, w1, (vm, dressed(f, after)), n);
        },
    }
}

/// The body of a filling round.
proof fn lemma_fill_body(
    vm: VmModel,
    f: FiberModel,
    w: Work,
    l: RowLoop,
    policy: ExecutionPolicy,
    row: i64,
    k: i64,
    n: nat,
)
    requires
        f.frames.len() > 0,
        places::machine_sized(vm, f),
        row_loop(vm, l),
        l.body is Fill,
        w.instruction == l.begin + 2,
        row >= 0,
        k >= 0,
        finds(vm, f, l, row, k),
        body_stored(vm, f, l, row, k) is Ok,
        room(vm, f, w.stack.len() + body_peak(l)),
    ensures
        ({
            let (x, h) = body_stored(vm, f, l, row, k)->Ok_0;
            run(l.code, policy, vm, dressed(f, w), (n + body_length(l)) as nat) == run(
                l.code,
                policy,
                x,
                dressed(h, Work { instruction: (l.begin + 2 + body_length(l)) as usize, ..w }),
                n,
            )
        }),
{
    let p = l.begin as int;
    let value = l.body->Fill_0;
    let one = w.stack.push(Val::Integer(row));
    let three = one.push(Val::Integer(k));
    let four = three.push(Val::Integer(value));
    let i = p + 2;
    let r = scalar_length(l.row);
    let c = scalar_length(l.counter);
    let w1 = Work { stack: one, instruction: (i + r) as usize, ..w };
    let w2 = Work { stack: three, instruction: (i + r + c) as usize, ..w };
    let w3 = Work { stack: four, instruction: (i + r + c + 1) as usize, ..w };
    let w4 = Work { instruction: (i + r + c + 2) as usize, ..w };
    let (x, h) = body_stored(vm, f, l, row, k)->Ok_0;
    lemma_load(vm, f, w, l.code, policy, l.row, row, (n + c + 2) as nat);
    lemma_load(vm, f, w1, l.code, policy, l.counter, k, n + 2);
    lemma_push(vm, f, w2, l.code[i + r + c], policy, value);
    lemma_step(l.code, policy, vm, f, w2, (vm, dressed(f, w3)), n + 1);
    lemma_store_cell(
        vm,
        f,
        Work { stack: w.stack, ..w3 },
        l.code[i + r + c + 1],
        policy,
        l.target,
        row,
        k,
        Val::Integer(value),
    );
    lemma_step(l.code, policy, vm, f, w3, (x, dressed(h, w4)), n);
}

/// The body of a copying round.
proof fn lemma_copy_body(
    vm: VmModel,
    f: FiberModel,
    w: Work,
    l: RowLoop,
    policy: ExecutionPolicy,
    row: i64,
    k: i64,
    n: nat,
)
    requires
        f.frames.len() > 0,
        places::machine_sized(vm, f),
        row_loop(vm, l),
        l.body is Copy,
        w.instruction == l.begin + 2,
        row >= 0,
        k >= 0,
        0 <= body_column(l, k) <= i64::MAX,
        finds(vm, f, l, row, k),
        body_stored(vm, f, l, row, k) is Ok,
        room(vm, f, w.stack.len() + body_peak(l)),
    ensures
        ({
            let (x, h) = body_stored(vm, f, l, row, k)->Ok_0;
            run(l.code, policy, vm, dressed(f, w), (n + body_length(l)) as nat) == run(
                l.code,
                policy,
                x,
                dressed(h, Work { instruction: (l.begin + 2 + body_length(l)) as usize, ..w }),
                n,
            )
        }),
{
    let p = l.begin as int;
    let source = l.body->source;
    let offset = l.body->offset;
    let column = body_column(l, k) as i64;
    let v = body_value(vm, f, l, row, k)->Ok_0;
    let one = w.stack.push(Val::Integer(row));
    let two = one.push(Val::Integer(offset));
    let three = two.push(Val::Integer(k));
    let four = one.push(Val::Integer(column));
    let five = four.push(Val::Integer(row));
    let six = five.push(Val::Integer(k));
    let seven = four.push(v);
    let i = p + 2;
    let r = scalar_length(l.row);
    let c = scalar_length(l.counter);
    let j = i + r + c + 2;
    let w1 = Work { stack: one, instruction: (i + r) as usize, ..w };
    let w2 = Work { stack: two, instruction: (i + r + 1) as usize, ..w };
    let w3 = Work { stack: three, instruction: (j - 1) as usize, ..w };
    let w4 = Work { stack: four, instruction: j as usize, ..w };
    let w5 = Work { stack: five, instruction: (j + r) as usize, ..w };
    let w6 = Work { stack: six, instruction: (j + r + c) as usize, ..w };
    let w7 = Work { stack: seven, instruction: (j + r + c + 1) as usize, ..w };
    let w8 = Work { instruction: (j + r + c + 2) as usize, ..w };
    let (x, h) = body_stored(vm, f, l, row, k)->Ok_0;
    lemma_load(vm, f, w, l.code, policy, l.row, row, (n + r + c + c + 4) as nat);
    lemma_push(vm, f, w1, l.code[i + r], policy, offset);
    lemma_step(l.code, policy, vm, f, w1, (vm, dressed(f, w2)), (n + r + c + c + 3) as nat);
    lemma_load(vm, f, w2, l.code, policy, l.counter, k, (n + r + c + 3) as nat);
    lemma_add(vm, f, Work { stack: one, ..w3 }, l.code[j - 1], policy, offset, k);
    lemma_step(l.code, policy, vm, f, w3, (vm, dressed(f, w4)), (n + r + c + 2) as nat);
    lemma_load(vm, f, w4, l.code, policy, l.row, row, (n + c + 2) as nat);
    lemma_load(vm, f, w5, l.code, policy, l.counter, k, n + 2);
    lemma_load_cell(
        vm,
        f,
        Work { stack: four, ..w6 },
        l.code[j + r + c],
        policy,
        source,
        row,
        k,
        v,
    );
    lemma_step(l.code, policy, vm, f, w6, (vm, dressed(f, w7)), n + 1);
    lemma_store_cell(
        vm,
        f,
        Work { stack: w.stack, ..w7 },
        l.code[j + r + c + 1],
        policy,
        l.target,
        row,
        column,
        v,
    );
    lemma_step(l.code, policy, vm, f, w7, (x, dressed(h, w8)), n);
}

/// The end of a round: the counter advances, and the next round begins or the loop is left.
proof fn lemma_tail(
    vm: VmModel,
    f: FiberModel,
    w: Work,
    l: RowLoop,
    policy: ExecutionPolicy,
    counter: Place,
    end: i64,
    k: i64,
    outer: Seq<LoopModel>,
    n: nat,
)
    requires
        f.frames.len() > 0,
        places::machine_sized(vm, f),
        row_loop(vm, l),
        w.instruction == l.begin + 2 + body_length(l),
        w.loops == outer.push(LoopModel { counter, end, step: 1 }),
        k < end,
        places::read_place(vm, f, counter) == Ok::<Val, Trouble>(Val::Integer(k)),
        places::write_place(vm, f, counter, Val::Integer((k + 1) as i64)) is Ok,
        room(vm, f, w.stack.len() + 1),
    ensures
        ({
            let (x, h) = places::write_place(vm, f, counter, Val::Integer((k + 1) as i64))->Ok_0;
            if k + 1 < end {
                run(l.code, policy, vm, dressed(f, w), n + 3) == run(
                    l.code,
                    policy,
                    x,
                    dressed(
                        h,
                        Work {
                            instruction: (l.begin + 2) as usize,
                            backward: fastpaths::saturated(w.backward + 1),
                            ..w
                        },
                    ),
                    n,
                )
            } else {
                run(l.code, policy, vm, dressed(f, w), n + 2) == run(
                    l.code,
                    policy,
                    x,
                    dressed(
                        h,
                        Work {
                            instruction: (l.begin + 5 + body_length(l)) as usize,
                            loops: outer,
                            ..w
                        },
                    ),
                    n,
                )
            }
        }),
{
    let p = l.begin as int;
    let q = p + 2 + body_length(l);
    let (x, h) = places::write_place(vm, f, counter, Val::Integer((k + 1) as i64))->Ok_0;
    let address = places::place_address(vm, f, counter)->Ok_0;
    lemma_dressed_write(vm, f, w, address, counter.indices, Val::Integer((k + 1) as i64));
    assert(row_loop(x, l));
    assert(room(x, h, w.stack.len() + 1));
    lemma_advance(vm, f, w, l.code[q], policy, counter, end, k, outer);
    if k + 1 < end {
        let base = Work { instruction: (q + 1) as usize, ..w };
        let w1 = Work { stack: w.stack.push(Val::Integer(1)), ..base };
        let w2 = Work { instruction: (q + 2) as usize, ..w };
        let w3 = Work {
            instruction: (p + 2) as usize,
            backward: fastpaths::saturated(w.backward + 1),
            ..w
        };
        lemma_step(l.code, policy, vm, f, w, (x, dressed(h, w1)), n + 2);
        lemma_not_taken(x, h, base, l.code[q + 1], policy, (q + 3) as usize);
        lemma_step(l.code, policy, x, h, w1, (x, dressed(h, w2)), n + 1);
        lemma_back(x, h, w2, l.code[q + 2], policy, (p + 2) as usize);
        lemma_step(l.code, policy, x, h, w2, (x, dressed(h, w3)), n);
    } else {
        let base = Work { instruction: (q + 1) as usize, loops: outer, ..w };
        let w1 = Work { stack: w.stack.push(Val::Integer(0)), ..base };
        let w2 = Work { instruction: (q + 3) as usize, loops: outer, ..w };
        lemma_step(l.code, policy, vm, f, w, (x, dressed(h, w1)), n + 1);
        lemma_left(x, h, base, l.code[q + 1], policy, (q + 3) as usize);
        lemma_step(l.code, policy, x, h, w1, (x, dressed(h, w2)), n);
    }
}

/// Storing into another array leaves the counter as it is.
proof fn lemma_counter_kept(
    vm: VmModel,
    f: FiberModel,
    address: CellAddress,
    indices: Seq<u64>,
    val: Val,
    counter: Place,
)
    requires
        places::machine_sized(vm, f),
        places::write_address(vm, f, address, indices, val) is Ok,
        places::place_address(vm, f, counter) is Ok,
        places::slot_at(
            vm.store,
            f.frames,
            places::place_address(vm, f, counter)->Ok_0,
        ) is Ok,
        places::slot_at(vm.store, f.frames, address) != places::slot_at(
            vm.store,
            f.frames,
            places::place_address(vm, f, counter)->Ok_0,
        ),
    ensures
        ({
            let (x, h) = places::write_address(vm, f, address, indices, val)->Ok_0;
            places::read_place(x, h, counter) == places::read_place(vm, f, counter)
        }),
{
    let counted = places::place_address(vm, f, counter)->Ok_0;
    let slot = places::slot_at(vm.store, f.frames, address)->Ok_0;
    let held = places::slot_at(vm.store, f.frames, counted)->Ok_0;
    let cell = places::cell_in(vm.store, f.frames, slot).write(indices, val)->Ok_0;
    places::lemma_found_slot_exists(vm, f, address);
    places::lemma_found_slot_exists(vm, f, counted);
    places::lemma_put_keeps_slots(vm, f, slot, cell, counted);
    bulk_laws::lemma_put_keeps_address(vm, f, slot, cell, counter);
    bulk_laws::lemma_put_reads(vm, f, slot, cell, held);
}

/// The cell that holds the row is none that the rounds of a loop change.
pub open spec fn row_apart(
    vm: VmModel,
    f: FiberModel,
    row: CellAddress,
    row_indices: Seq<u64>,
    counter: Place,
) -> bool {
    let counted = places::place_address(vm, f, counter)->Ok_0;
    let slot = places::slot_at(vm.store, f.frames, row);
    let cell = places::cell_in(vm.store, f.frames, slot->Ok_0);
    slot == places::slot_at(vm.store, f.frames, counted) ==> cell.position(row_indices)
        != cell.position(counter.indices)
}

/// What a round finds in the counter and in the cell that holds the row.
proof fn lemma_found(
    vm: VmModel,
    f: FiberModel,
    program: ProgramGeneration,
    plan: BulkLoopPlan,
    row: i64,
    counter: Place,
    start: int,
    end: int,
    k: int,
    a: bulk_laws::Arena,
    row_address: CellAddress,
    row_indices: Seq<u64>,
)
    requires
        bulk_laws::arena_fits(vm, f, program, plan, row, counter, start, end, a),
        places::machine_sized(vm, f),
        f.frames.len() > 0,
        start <= k <= end,
        places::read_place(vm, f, counter) == Ok::<Val, Trouble>(Val::Integer(start as i64)),
        places::read_at(vm.store, f.frames, row_address, row_indices) == Ok::<Val, Trouble>(
            Val::Integer(row),
        ),
        places::slot_at(vm.store, f.frames, row_address) != Ok::<CellSlot, Trouble>(a.target),
        row_apart(vm, f, row_address, row_indices, counter),
    ensures
        ({
            let (x, h) = bulk_laws::state_after(vm, f, plan, counter, start, k, a);
            &&& places::read_place(x, h, counter) == Ok::<Val, Trouble>(Val::Integer(k as i64))
            &&& places::read_at(x.store, h.frames, row_address, row_indices) == Ok::<Val, Trouble>(
                Val::Integer(row),
            )
        }),
{
    bulk_laws::lemma_state_after(vm, f, program, plan, row, counter, start, end, k, a);
    let (x, h) = bulk_laws::state_after(vm, f, plan, counter, start, k, a);
    let counted = places::place_address(vm, f, counter)->Ok_0;
    let slot = places::slot_at(vm.store, f.frames, row_address)->Ok_0;
    places::lemma_found_slot_exists(vm, f, row_address);
    assert(places::slot_at(x.store, h.frames, row_address) == Ok::<CellSlot, Trouble>(slot));
    assert(places::slot_at(x.store, h.frames, counted) == Ok::<CellSlot, Trouble>(a.counter));
    let before = places::cell_in(vm.store, f.frames, a.counter);
    let after = places::cell_in(x.store, h.frames, a.counter);
    assert(after == bulk_laws::counter_after(before, counter, start, k));
    memory::lemma_row_major_grows(
        before.dimensions,
        counter.indices,
        0,
        before.dimensions.len(),
    );
    if slot == a.counter {
        memory::lemma_row_major_grows(before.dimensions, row_indices, 0, before.dimensions.len());
    }
    assert(places::cell_in(x.store, h.frames, slot) == if slot == a.counter {
        after
    } else {
        places::cell_in(vm.store, f.frames, slot)
    });
}

/// The plan of a loop folds this body.
pub open spec fn operates(program: ProgramGeneration, plan: BulkLoopPlan, l: RowLoop) -> bool {
    match (l.body, plan.operation) {
        (LoopBody::Fill(value), BulkArrayOperation::Fill(v)) => value == v,
        (
            LoopBody::Copy { source, offset },
            BulkArrayOperation::Copy { source: key, offset: o },
        ) => offset == o && program.spec_global(key) == Some(&source),
        _ => false,
    }
}

/// A loop stands before its first round.
pub open spec fn ready(
    vm: VmModel,
    f: FiberModel,
    program: ProgramGeneration,
    plan: BulkLoopPlan,
    row: i64,
    counter: Place,
    start: i64,
    end: i64,
    a: bulk_laws::Arena,
    l: RowLoop,
    base: Seq<Val>,
) -> bool {
    &&& bulk_laws::arena_fits(vm, f, program, plan, row, counter, start as int, end as int, a)
    &&& places::machine_sized(vm, f)
    &&& f.frames.len() > 0
    &&& row_loop(vm, l)
    &&& row >= 0
    &&& start >= 0
    &&& operates(program, plan, l)
    &&& body_column(l, end) <= i64::MAX
    &&& *program.spec_global(plan.target)->0 == l.target
    &&& places::place_address(vm, f, counter) == Ok::<CellAddress, Trouble>(
        scalar_cell(f, l.counter),
    )
    &&& counter.indices == scalar_indices(l.counter)
    &&& places::read_place(vm, f, counter) == Ok::<Val, Trouble>(Val::Integer(start))
    &&& holds(vm, f, l.row, row)
    &&& places::slot_at(vm.store, f.frames, scalar_cell(f, l.row)) != Ok::<CellSlot, Trouble>(a.target)
    &&& row_apart(vm, f, scalar_cell(f, l.row), scalar_indices(l.row), counter)
    &&& room(vm, f, base.len() + body_peak(l))
}

/// What a round starts from, and what its body leaves.
proof fn lemma_round_facts(
    vm: VmModel,
    f: FiberModel,
    program: ProgramGeneration,
    plan: BulkLoopPlan,
    row: i64,
    counter: Place,
    start: i64,
    end: i64,
    k: i64,
    a: bulk_laws::Arena,
    l: RowLoop,
    base: Seq<Val>,
)
    requires
        ready(vm, f, program, plan, row, counter, start, end, a, l, base),
        start <= k < end,
    ensures
        ({
            let (v, g) = bulk_laws::state_after(
                vm,
                f,
                plan,
                counter,
                start as int,
                k as int,
                a,
            );
            let (x, h) = bulk_laws::state_after(
                vm,
                f,
                plan,
                counter,
                start as int,
                k + 1,
                a,
            );
            let stored = body_stored(v, g, l, row, k);
            let (y, m) = stored->Ok_0;
            &&& g.frames.len() > 0
            &&& places::machine_sized(v, g)
            &&& row_loop(v, l)
            &&& room(v, g, base.len() + body_peak(l))
            &&& finds(v, g, l, row, k)
            &&& 0 <= body_column(l, k) <= i64::MAX
            &&& stored is Ok
            &&& m.frames.len() > 0
            &&& places::machine_sized(y, m)
            &&& row_loop(y, l)
            &&& room(y, m, base.len() + 1)
            &&& places::read_place(y, m, counter) == Ok::<Val, Trouble>(Val::Integer(k))
            &&& places::write_place(y, m, counter, Val::Integer((k + 1) as i64)) == Ok::<
                Pair,
                Trouble,
            >((x, h))
        }),
{
    let (v, g) = bulk_laws::state_after(vm, f, plan, counter, start as int, k as int, a);
    let (x, h) = bulk_laws::state_after(vm, f, plan, counter, start as int, k + 1, a);
    let s = start as int;
    let e = end as int;
    bulk_laws::lemma_state_after(vm, f, program, plan, row, counter, s, e, k as int, a);
    lemma_found(
        vm,
        f,
        program,
        plan,
        row,
        counter,
        s,
        e,
        k as int,
        a,
        scalar_cell(f, l.row),
        scalar_indices(l.row),
    );
    bulk_laws::lemma_rounds(vm, f, program, plan, row, counter, s, e, k as int, a);
    bulk_laws::lemma_rounds(vm, f, program, plan, row, counter, s, e, k + 1, a);
    assert(bulk_laws::round(v, g, program, plan, row, counter, k as int) == Ok::<Pair, Trouble>(
        (x, h),
    ));
    assert(row_loop(v, l));
    assert(room(v, g, base.len() + body_peak(l)));
    let address = bulk_laws::row_address(l.target, row);
    let indices = bulk_laws::column_indices(l.target, row, body_column(l, k));
    let value = body_value(v, g, l, row, k)->Ok_0;
    let (y, m) = body_stored(v, g, l, row, k)->Ok_0;
    assert(places::slot_at(v.store, g.frames, a.stretch.address) == Ok::<CellSlot, Trouble>(
        a.target,
    ));
    bulk_laws::lemma_column_position(
        l.target,
        row,
        places::cell_in(vm.store, f.frames, a.target),
        a.stretch,
        bulk_laws::round_column(plan, s),
        bulk_laws::round_column(plan, e),
        bulk_laws::round_column(plan, k as int),
    );
    assert(body_column(l, k) >= 0);
    let counted = places::place_address(vm, f, counter)->Ok_0;
    assert(places::slot_at(v.store, g.frames, counted) == Ok::<CellSlot, Trouble>(a.counter));
    lemma_counter_kept(v, g, address, indices, value, counter);
    lemma_dressed_write(
        v,
        g,
        Work {
            stack: base,
            instruction: l.begin,
            loops: g.top().for_loops,
            backward: g.backward,
        },
        address,
        indices,
        value,
    );
    assert(row_loop(y, l));
    assert(room(y, m, base.len() + 1));
    assert(finds(v, g, l, row, k));
}

/// One round, instruction by instruction.
proof fn lemma_round_run(
    vm: VmModel,
    f: FiberModel,
    program: ProgramGeneration,
    plan: BulkLoopPlan,
    row: i64,
    counter: Place,
    start: i64,
    end: i64,
    k: i64,
    a: bulk_laws::Arena,
    l: RowLoop,
    policy: ExecutionPolicy,
    w: Work,
    outer: Seq<LoopModel>,
    n: nat,
)
    requires
        ready(vm, f, program, plan, row, counter, start, end, a, l, w.stack),
        start <= k < end,
        w.instruction == l.begin + 2,
        w.loops == outer.push(LoopModel { counter, end, step: 1 }),
    ensures
        ({
            let (v, g) = bulk_laws::state_after(
                vm,
                f,
                plan,
                counter,
                start as int,
                k as int,
                a,
            );
            let (x, h) = bulk_laws::state_after(
                vm,
                f,
                plan,
                counter,
                start as int,
                k + 1,
                a,
            );
            if k + 1 < end {
                run(l.code, policy, v, dressed(g, w), (n + body_length(l) + 3) as nat) == run(
                    l.code,
                    policy,
                    x,
                    dressed(h, Work { backward: fastpaths::saturated(w.backward + 1), ..w }),
                    n,
                )
            } else {
                run(l.code, policy, v, dressed(g, w), (n + body_length(l) + 2) as nat) == run(
                    l.code,
                    policy,
                    x,
                    dressed(
                        h,
                        Work {
                            instruction: (l.begin + 5 + body_length(l)) as usize,
                            loops: outer,
                            ..w
                        },
                    ),
                    n,
                )
            }
        }),
{
    let (v, g) = bulk_laws::state_after(vm, f, plan, counter, start as int, k as int, a);
    lemma_round_facts(vm, f, program, plan, row, counter, start, end, k, a, l, w.stack);
    let (y, m) = body_stored(v, g, l, row, k)->Ok_0;
    let last = Work { instruction: (l.begin + 2 + body_length(l)) as usize, ..w };
    let more = if k + 1 < end {
        n + 3
    } else {
        n + 2
    };
    match l.body {
        LoopBody::Fill(_) => {
            lemma_fill_body(v, g, w, l, policy, row, k, more);
        },
        LoopBody::Copy { source, offset } => {
            lemma_copy_body(v, g, w, l, policy, row, k, more);
        },
    }
    lemma_tail(y, m, last, l, policy, counter, end, k, outer, n);
}

/// Instructions of so many rounds; the last one goes on behind the loop.
pub open spec fn steps_left(l: RowLoop, rounds: int) -> nat {
    ((body_length(l) + 3) * rounds) as nat
}

proof fn lemma_steps(l: RowLoop, rounds: int)
    requires
        rounds > 0,
    ensures
        steps_left(l, rounds) == steps_left(l, rounds - 1) + body_length(l) + 3,
        steps_left(l, 1) == body_length(l) + 3,
{
    let each = body_length(l) + 3;
    assert(each * rounds == each * (rounds - 1) + each) by (nonlinear_arith);
    assert(each * (rounds - 1) >= 0) by (nonlinear_arith)
        requires
            each >= 0,
            rounds > 0,
    ;
}

/// All rounds that are left, and the way out of the loop.
proof fn lemma_rounds_run(
    vm: VmModel,
    f: FiberModel,
    program: ProgramGeneration,
    plan: BulkLoopPlan,
    row: i64,
    counter: Place,
    start: i64,
    end: i64,
    k: i64,
    a: bulk_laws::Arena,
    l: RowLoop,
    policy: ExecutionPolicy,
    w: Work,
    outer: Seq<LoopModel>,
)
    requires
        ready(vm, f, program, plan, row, counter, start, end, a, l, w.stack),
        start <= k < end,
        w.instruction == l.begin + 2,
        w.loops == outer.push(LoopModel { counter, end, step: 1 }),
    ensures
        ({
            let (v, g) = bulk_laws::state_after(
                vm,
                f,
                plan,
                counter,
                start as int,
                k as int,
                a,
            );
            let (x, h) = bulk_laws::state_after(
                vm,
                f,
                plan,
                counter,
                start as int,
                end as int,
                a,
            );
            run(l.code, policy, v, dressed(g, w), steps_left(l, end - k)) == Some(
                (
                    x,
                    dressed(
                        h,
                        Work {
                            instruction: (l.begin + 6 + body_length(l)) as usize,
                            loops: outer,
                            backward: fastpaths::saturated(w.backward + (end - k - 1)),
                            ..w
                        },
                    ),
                ),
            )
        }),
    decreases end - k,
{
    lemma_steps(l, end - k);
    if k + 1 < end {
        let next = Work { backward: fastpaths::saturated(w.backward + 1), ..w };
        lemma_round_run(
            vm,
            f,
            program,
            plan,
            row,
            counter,
            start,
            end,
            k,
            a,
            l,
            policy,
            w,
            outer,
            steps_left(l, end - k - 1),
        );
        lemma_rounds_run(
            vm,
            f,
            program,
            plan,
            row,
            counter,
            start,
            end,
            (k + 1) as i64,
            a,
            l,
            policy,
            next,
            outer,
        );
        assert(fastpaths::saturated(next.backward + (end - (k + 1) - 1))
            == fastpaths::saturated(w.backward + (end - k - 1)));
    } else {
        lemma_round_run(
            vm,
            f,
            program,
            plan,
            row,
            counter,
            start,
            end,
            k,
            a,
            l,
            policy,
            w,
            outer,
            1,
        );
        bulk_laws::lemma_state_after(
            vm,
            f,
            program,
            plan,
            row,
            counter,
            start as int,
            end as int,
            k + 1,
            a,
        );
        let (x, h) = bulk_laws::state_after(vm, f, plan, counter, start as int, k + 1, a);
        let behind = Work {
            instruction: (l.begin + 5 + body_length(l)) as usize,
            loops: outer,
            ..w
        };
        let out = Work { instruction: (l.begin + 6 + body_length(l)) as usize, ..behind };
        lemma_nop(x, h, behind, l.code[l.begin + 5 + body_length(l)], policy);
        lemma_step(l.code, policy, x, h, behind, (x, dressed(h, out)), 0);
        assert(fastpaths::saturated(w.backward + (end - k - 1)) == w.backward);
    }
}

/// The plan of a loop is that of this code.
pub open spec fn planned(program: ProgramGeneration, plan: BulkLoopPlan, l: RowLoop) -> bool {
    &&& operates(program, plan, l)
    &&& bulk_laws::counter_apart(plan)
    &&& program.spec_global(plan.target) == Some(&l.target)
    &&& program.spec_global(plan.counter) == Some(&l.counter.variable)
    &&& program.spec_global(plan.prefix.variable) == Some(&l.row.variable)
    &&& plan.counter_indices@ == scalar_indices(l.counter)
    &&& plan.prefix.indices@ == scalar_indices(l.row)
    &&& plan.iteration_instructions == body_length(l) + 3
    &&& plan.stack_peak >= body_peak(l)
    &&& plan.after_loop == l.begin + 6 + body_length(l)
    &&& plan.prefix.variable != plan.target
    &&& plan.prefix.variable == plan.counter ==> memory::index_at(plan.prefix.indices@, 0)
        != memory::index_at(plan.counter_indices@, 0)
}

/// Of two cells that differ in their first index alone, the one with the larger index is behind.
proof fn lemma_first_index_orders(d: Seq<u64>, a: Seq<u64>, b: Seq<u64>, n: nat)
    requires
        1 <= n <= d.len(),
        a.len() <= 1,
        b.len() <= 1,
        memory::index_at(a, 0) < memory::index_at(b, 0),
        forall|j: int| 0 <= j < n ==> memory::index_at(a, j) < #[trigger] d[j],
    ensures
        memory::row_major(d, a, n) < memory::row_major(d, b, n),
    decreases n,
{
    if n == 1 {
        reveal_with_fuel(memory::row_major, 2);
    } else {
        lemma_first_index_orders(d, a, b, (n - 1) as nat);
        let x = memory::row_major(d, a, (n - 1) as nat);
        let y = memory::row_major(d, b, (n - 1) as nat);
        let e = d[n - 1] as int;
        assert(memory::index_at(a, n - 1) < e);
        assert(x * e < y * e) by (nonlinear_arith)
            requires
                x < y,
                e >= 1,
        ;
    }
}

proof fn lemma_positions_differ(cell: Cell, a: Seq<u64>, b: Seq<u64>)
    requires
        a.len() <= 1,
        b.len() <= 1,
        memory::index_at(a, 0) != memory::index_at(b, 0),
        cell.position(b) is Some,
    ensures
        cell.position(a) != cell.position(b),
{
    let d = cell.dimensions;
    if cell.position(a) is Some {
        if memory::index_at(a, 0) < memory::index_at(b, 0) {
            lemma_first_index_orders(d, a, b, d.len());
        } else {
            lemma_first_index_orders(d, b, a, d.len());
        }
    }
}

/// A loop that fills or copies a part of a row leaves the machine and the fiber, counted jumps
/// included, the same whether it is taken in bulk or its instructions are executed one by one, and
/// it counts as many instructions.
#[verifier::rlimit(60)]
pub proof fn law_bulk_loop_is_its_code(
    vm: VmModel,
    fiber: FiberModel,
    l: RowLoop,
    policy: ExecutionPolicy,
    base: Seq<Val>,
    counter: Place,
    start: i64,
    end: i64,
)
    requires
        places::machine_sized(vm, fiber),
        fiber.frames.len() > 0,
        fiber.top().instruction == l.begin,
        fiber.top().stack == loop_operands(base, counter, start, end),
        row_loop(vm, l),
        ({
            let at = l.code[l.begin as int];
            let program = vm.program(at.generation)->0;
            let plan = fastpaths::bulk_plan(program, at.function, at.instruction)->0;
            &&& at.generation == fiber.top().generation
            &&& planned(program, plan, l)
            &&& counter.frame == fastpaths::own_frame(l.counter.variable, fiber.top().id)
            &&& (body_length(l) + 3) * (end - start) + 2 <= u64::MAX
            &&& dispatch::executed(vm, fiber, at, policy).2 matches Ok(
                Some(Outcome::BulkProgress(_)),
            )
        }),
    ensures
        ({
            let taken = dispatch::executed(vm, fiber, l.code[l.begin as int], policy);
            let more = taken.2->Ok_0->0->BulkProgress_0;
            run(l.code, plain(policy), vm, fiber, (1 + more) as nat) == Some((taken.0, taken.1))
        }),
{
    let p = l.begin as int;
    let at = l.code[p];
    let program = vm.program(at.generation)->0;
    let plan = fastpaths::bulk_plan(program, at.function, at.instruction)->0;
    let outer = fiber.top().for_loops;
    let begin = Work {
        stack: base,
        instruction: l.begin,
        loops: outer,
        backward: fiber.backward,
    };
    let given = Work { stack: loop_operands(base, counter, start, end), ..begin };
    let popped = Work { instruction: (p + 1) as usize, ..begin };
    let f = dressed(fiber, popped);
    assert(dressed(f, given).frames =~= fiber.frames);
    assert(dressed(f, given) == fiber);
    lemma_operands(base, counter, start, end);
    let counted = dispatch::counted(fiber);
    assert(counted.with_stack(base).frames =~= f.frames);
    assert(counted.with_stack(base) == f);
    let (x, h) = places::write_place(vm, f, counter, Val::Integer(start))->Ok_0;
    let bulk = fastpaths::bulk_loop(
        x,
        h,
        at.generation,
        at.function,
        at.instruction,
        counter,
        start,
        end,
        1,
        policy,
    );
    let taken = dispatch::executed(vm, fiber, at, policy);
    assert(taken.0 == bulk.0 && taken.1 == bulk.1);
    assert(start < end);
    let address = places::place_address(vm, f, counter)->Ok_0;
    lemma_dressed_write(vm, f, popped, address, counter.indices, Val::Integer(start));
    places::law_written_place_reads_back(vm, f, counter, Val::Integer(start));
    let held = places::read_at(
        x.store,
        h.frames,
        scalar_cell(h, l.row),
        scalar_indices(l.row),
    );
    let row = held->Ok_0->Integer_0;
    assert(held == Ok::<Val, Trouble>(Val::Integer(row)));
    let a = bulk_laws::lemma_bulk_arena(
        x,
        h,
        at.generation,
        at.function,
        at.instruction,
        counter,
        start,
        end,
        1,
        policy,
        row,
    );
    lemma_ready(vm, fiber, popped, x, h, program, plan, row, counter, start, end, a, l, base);
    let entered = Work {
        stack: base.push(Val::Integer(1)),
        instruction: (p + 1) as usize,
        loops: outer.push(LoopModel { counter, end, step: 1 }),
        ..begin
    };
    let first = Work { stack: base, instruction: (p + 2) as usize, ..entered };
    let n = steps_left(l, end - start);
    lemma_enter(vm, f, begin, at, plain(policy), counter, start, end);
    lemma_step(l.code, plain(policy), vm, f, given, (x, dressed(h, entered)), n + 1);
    lemma_not_taken(
        x,
        h,
        Work { stack: base, ..entered },
        l.code[p + 1],
        plain(policy),
        (p + 5 + body_length(l)) as usize,
    );
    lemma_step(l.code, plain(policy), x, h, entered, (x, dressed(h, first)), n);
    bulk_laws::lemma_rounds(
        x,
        h,
        program,
        plan,
        row,
        counter,
        start as int,
        end as int,
        start as int,
        a,
    );
    lemma_rounds_run(
        x,
        h,
        program,
        plan,
        row,
        counter,
        start,
        end,
        start,
        a,
        l,
        plain(policy),
        first,
        outer,
    );
    bulk_laws::lemma_state_after(
        x,
        h,
        program,
        plan,
        row,
        counter,
        start as int,
        end as int,
        end as int,
        a,
    );
    let (y, m) = bulk_laws::state_after(x, h, plan, counter, start as int, end as int, a);
    let out = Work {
        instruction: (p + 6 + body_length(l)) as usize,
        loops: outer,
        backward: fastpaths::saturated(fiber.backward + (end - start - 1)),
        ..first
    };
    assert(bulk.1.frames =~= dressed(m, out).frames);
    assert(bulk.1 == dressed(m, out));
    let iterations = fastpaths::rounds(start, end);
    let each = plan.iteration_instructions;
    assert(iterations == end - start);
    assert(each * iterations == iterations * each) by (nonlinear_arith);
    lemma_steps(l, end - start);
    assert(taken.2->Ok_0->0->BulkProgress_0 == n + 1);
    assert(run(l.code, plain(policy), vm, fiber, n + 2) == Some((y, dressed(m, out))));
}

/// What a loop stands on once its counter is set.
proof fn lemma_ready(
    vm: VmModel,
    fiber: FiberModel,
    popped: Work,
    x: VmModel,
    h: FiberModel,
    program: ProgramGeneration,
    plan: BulkLoopPlan,
    row: i64,
    counter: Place,
    start: i64,
    end: i64,
    a: bulk_laws::Arena,
    l: RowLoop,
    base: Seq<Val>,
)
    requires
        places::machine_sized(vm, fiber),
        fiber.frames.len() > 0,
        row_loop(vm, l),
        vm.program(fiber.top().generation) == Some(program),
        planned(program, plan, l),
        counter.variable == plan.counter,
        counter.indices == plan.counter_indices@,
        counter.character is None,
        counter.backing is None,
        counter.frame == fastpaths::own_frame(l.counter.variable, fiber.top().id),
        places::write_place(vm, dressed(fiber, popped), counter, Val::Integer(start)) == Ok::<
            Pair,
            Trouble,
        >((x, h)),
        bulk_laws::arena_fits(x, h, program, plan, row, counter, start as int, end as int, a),
        holds(x, h, l.row, row),
        start < end,
        room(vm, fiber, base.len() + body_peak(l)),
        body_column(l, end) <= i64::MAX,
    ensures
        ready(x, h, program, plan, row, counter, start, end, a, l, base),
{
    let f = dressed(fiber, popped);
    let address = places::place_address(vm, f, counter)->Ok_0;
    lemma_dressed_write(vm, f, popped, address, counter.indices, Val::Integer(start));
    places::law_written_place_reads_back(vm, f, counter, Val::Integer(start));
    bulk_laws::lemma_global_key(program, plan.prefix.variable);
    bulk_laws::lemma_global_key(program, plan.target);
    bulk_laws::lemma_slot_key(x, h, scalar_cell(h, l.row));
    bulk_laws::lemma_slot_key(x, h, a.stretch.address);
    bulk_laws::lemma_global_key(program, plan.counter);
    let counted = places::place_address(x, h, counter)->Ok_0;
    bulk_laws::lemma_slot_key(x, h, counted);
    if plan.prefix.variable == plan.counter {
        lemma_positions_differ(
            places::cell_in(x.store, h.frames, a.counter),
            scalar_indices(l.row),
            counter.indices,
        );
    }
    assert(row_apart(x, h, scalar_cell(h, l.row), scalar_indices(l.row), counter));
    assert(row_loop(x, l));
    bulk_laws::lemma_column_position(
        l.target,
        row,
        places::cell_in(x.store, h.frames, a.target),
        a.stretch,
        bulk_laws::round_column(plan, start as int),
        bulk_laws::round_column(plan, end as int),
        bulk_laws::round_column(plan, start as int),
    );
}

} // verus!
