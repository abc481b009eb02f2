//! A loop that is taken in bulk leaves what its rounds leave.

use vstd::prelude::*;
use crate::fastpaths::{self, Stretch};
use crate::fault::Trouble;
use crate::lookup;
use crate::memory::{self, Cell, CellAddress, Data};
use crate::places::{self, CellSlot};
use crate::program::{self, BulkArrayOperation, BulkLoopPlan, BytecodeGlobal, ProgramGeneration};
use crate::state::{self, ExecutionPolicy, FiberModel, FrameModel, VmModel};
use crate::value::{GenerationId, Place, SymbolKey, Val};

verus! {

/// A machine and one of its fibers.
pub type Pair = (VmModel, FiberModel);

/// The array that holds a row of a variable.
pub open spec fn row_address(g: BytecodeGlobal, row: i64) -> CellAddress {
    places::variable_address(
        g,
        if g.storage is Character {
            Some(row as u64)
        } else {
            None
        },
        None,
    )
}

/// The indices of a column of a row.
pub open spec fn column_indices(g: BytecodeGlobal, row: i64, column: int) -> Seq<u64> {
    if g.storage is Character {
        seq![column as u64]
    } else {
        seq![row as u64, column as u64]
    }
}

/// The value that a round stores.
pub open spec fn round_value(
    vm: VmModel,
    fiber: FiberModel,
    program: ProgramGeneration,
    plan: BulkLoopPlan,
    row: i64,
    k: int,
) -> Result<Val, Trouble> {
    match plan.operation {
        BulkArrayOperation::Fill(value) => Ok(Val::Integer(value)),
        BulkArrayOperation::Copy { source, offset } => match program.spec_global(source) {
            None => Err(places::missing_storage()),
            Some(g) => places::read_at(
                vm.store,
                fiber.frames,
                row_address(*g, row),
                column_indices(*g, row, k),
            ),
        },
    }
}

/// The column that a round stores into.
pub open spec fn round_column(plan: BulkLoopPlan, k: int) -> int {
    match plan.operation {
        BulkArrayOperation::Fill(_) => k,
        BulkArrayOperation::Copy { source, offset } => k + offset,
    }
}

/// One round of a loop: a cell of the row is stored, then the counter advances.
pub open spec fn round(
    vm: VmModel,
    fiber: FiberModel,
    program: ProgramGeneration,
    plan: BulkLoopPlan,
    row: i64,
    counter: Place,
    k: int,
) -> Result<Pair, Trouble> {
    let g = *program.spec_global(plan.target)->0;
    match round_value(vm, fiber, program, plan, row, k) {
        Err(e) => Err(e),
        Ok(v) => match places::write_address(
            vm,
            fiber,
            row_address(g, row),
            column_indices(g, row, round_column(plan, k)),
            v,
        ) {
            Err(e) => Err(e),
            Ok((vm1, fiber1)) => places::write_place(
                vm1,
                fiber1,
                counter,
                Val::Integer((k + 1) as i64),
            ),
        },
    }
}

/// The rounds of a loop from `start` up to `k`, one after the other.
pub open spec fn rounds_made(
    vm: VmModel,
    fiber: FiberModel,
    program: ProgramGeneration,
    plan: BulkLoopPlan,
    row: i64,
    counter: Place,
    start: int,
    k: int,
) -> Result<Pair, Trouble>
    decreases k - start,
{
    if k <= start {
        Ok((vm, fiber))
    } else {
        match rounds_made(vm, fiber, program, plan, row, counter, start, k - 1) {
            Err(e) => Err(e),
            Ok((vm1, fiber1)) => round(vm1, fiber1, program, plan, row, counter, k - 1),
        }
    }
}

proof fn lemma_put_identity(vm: VmModel, fiber: FiberModel, slot: CellSlot)
    requires
        places::slot_exists(vm.store, fiber.frames, slot),
    ensures
        places::put_cell(vm, fiber, slot, places::cell_in(vm.store, fiber.frames, slot)) == (
            vm,
            fiber,
        ),
{
    let (v, f) = places::put_cell(
        vm,
        fiber,
        slot,
        places::cell_in(vm.store, fiber.frames, slot),
    );
    match slot {
        CellSlot::Shared(i) => {
            assert(v.store.shared =~= vm.store.shared);
        },
        CellSlot::Static(i) => {
            assert(v.store.statics =~= vm.store.statics);
        },
        CellSlot::Character(c, i) => {
            assert(v.store.characters[c as int] =~= vm.store.characters[c as int]);
            assert(v.store.characters =~= vm.store.characters);
        },
        CellSlot::Local(g, i) => {
            assert(f.frames[g as int].locals =~= fiber.frames[g as int].locals);
            assert(f.frames =~= fiber.frames);
        },
    }
}

proof fn lemma_put_again(vm: VmModel, fiber: FiberModel, slot: CellSlot, a: Cell, b: Cell)
    requires
        places::slot_exists(vm.store, fiber.frames, slot),
    ensures
        ({
            let (v, f) = places::put_cell(vm, fiber, slot, a);
            places::put_cell(v, f, slot, b) == places::put_cell(vm, fiber, slot, b)
        }),
{
    let (v, f) = places::put_cell(vm, fiber, slot, a);
    let (x, g) = places::put_cell(v, f, slot, b);
    let (y, h) = places::put_cell(vm, fiber, slot, b);
    match slot {
        CellSlot::Shared(i) => {
            assert(x.store.shared =~= y.store.shared);
        },
        CellSlot::Static(i) => {
            assert(x.store.statics =~= y.store.statics);
        },
        CellSlot::Character(c, i) => {
            assert(x.store.characters[c as int] =~= y.store.characters[c as int]);
            assert(x.store.characters =~= y.store.characters);
        },
        CellSlot::Local(n, i) => {
            assert(g.frames[n as int].locals =~= h.frames[n as int].locals);
            assert(g.frames =~= h.frames);
        },
    }
}

proof fn lemma_put_commutes(
    vm: VmModel,
    fiber: FiberModel,
    s: CellSlot,
    t: CellSlot,
    a: Cell,
    b: Cell,
)
    requires
        places::slot_exists(vm.store, fiber.frames, s),
        places::slot_exists(vm.store, fiber.frames, t),
        s != t,
    ensures
        ({
            let (v, f) = places::put_cell(vm, fiber, s, a);
            let (w, h) = places::put_cell(vm, fiber, t, b);
            places::put_cell(v, f, t, b) == places::put_cell(w, h, s, a)
        }),
{
    let (v, f) = places::put_cell(vm, fiber, s, a);
    let (w, h) = places::put_cell(vm, fiber, t, b);
    let (x, g) = places::put_cell(v, f, t, b);
    let (y, k) = places::put_cell(w, h, s, a);
    assert(x.store.shared =~= y.store.shared);
    assert(x.store.statics =~= y.store.statics);
    if let (CellSlot::Character(c, i), CellSlot::Character(d, j)) = (s, t) {
        assert(x.store.characters[c as int] =~= y.store.characters[c as int]);
        assert(x.store.characters[d as int] =~= y.store.characters[d as int]);
    }
    assert(x.store.characters =~= y.store.characters);
    if let (CellSlot::Local(c, i), CellSlot::Local(d, j)) = (s, t) {
        assert(g.frames[c as int].locals =~= k.frames[c as int].locals);
        assert(g.frames[d as int].locals =~= k.frames[d as int].locals);
    }
    assert(g.frames =~= k.frames);
}

pub proof fn lemma_put_reads(vm: VmModel, fiber: FiberModel, s: CellSlot, a: Cell, t: CellSlot)
    requires
        places::slot_exists(vm.store, fiber.frames, s),
        places::slot_exists(vm.store, fiber.frames, t),
    ensures
        ({
            let (v, f) = places::put_cell(vm, fiber, s, a);
            &&& places::slot_exists(v.store, f.frames, t)
            &&& places::cell_in(v.store, f.frames, t) == if s == t {
                a
            } else {
                places::cell_in(vm.store, fiber.frames, t)
            }
        }),
{
}

/// A machine with the arrays in two slots replaced.
pub open spec fn with_both(
    vm: VmModel,
    fiber: FiberModel,
    s: CellSlot,
    a: Cell,
    t: CellSlot,
    b: Cell,
) -> Pair {
    let (v, f) = places::put_cell(vm, fiber, s, a);
    places::put_cell(v, f, t, b)
}

pub proof fn lemma_put_keeps_address(
    vm: VmModel,
    fiber: FiberModel,
    slot: CellSlot,
    cell: Cell,
    place: Place,
)
    requires
        places::slot_exists(vm.store, fiber.frames, slot),
    ensures
        ({
            let (v, f) = places::put_cell(vm, fiber, slot, cell);
            places::place_address(v, f, place) == places::place_address(vm, fiber, place)
        }),
{
}

pub proof fn lemma_column_position(
    g: BytecodeGlobal,
    row: i64,
    cell: Cell,
    s: Stretch,
    start: int,
    end: int,
    j: int,
)
    requires
        fastpaths::stretch_of(g, row, start, end) == Some(s),
        cell.dimensions == g.dimensions@,
        s.to <= cell.data.len(),
        start <= j < end,
    ensures
        s.address == row_address(g, row),
        s.to == s.from + (end - start),
        cell.position(column_indices(g, row, j)) == Some(s.from + (j - start)),
{
    reveal_with_fuel(memory::row_major, 3);
    let indices = column_indices(g, row, j);
    let d = cell.dimensions;
    if g.storage is Character {
        assert(memory::in_range(d, indices));
        assert(memory::row_major(d, indices, 1) == j);
    } else {
        assert(d.len() == 2);
        assert(memory::index_at(indices, 0) == row);
        assert(memory::index_at(indices, 1) == j);
        assert(memory::in_range(d, indices));
        assert(memory::row_major(d, indices, 1) == row);
        assert(memory::row_major(d, indices, 2) == row * d[1] + j);
    }
}

proof fn lemma_two_writes(
    vm: VmModel,
    fiber: FiberModel,
    address: CellAddress,
    indices: Seq<u64>,
    val: Val,
    counter: Place,
    next: Val,
    s: CellSlot,
    a: Cell,
    t: CellSlot,
    b: Cell,
)
    requires
        places::slot_exists(vm.store, fiber.frames, s),
        places::slot_exists(vm.store, fiber.frames, t),
        s != t,
        places::slot_at(vm.store, fiber.frames, address) == Ok::<CellSlot, Trouble>(s),
        places::place_address(vm, fiber, counter) is Ok,
        places::slot_at(
            vm.store,
            fiber.frames,
            places::place_address(vm, fiber, counter)->Ok_0,
        ) == Ok::<CellSlot, Trouble>(t),
        a.write(indices, val) is Ok,
        b.write(counter.indices, next) is Ok,
    ensures
        ({
            let (v, f) = with_both(vm, fiber, s, a, t, b);
            let first = places::write_address(v, f, address, indices, val);
            &&& first is Ok
            &&& places::write_place(first->Ok_0.0, first->Ok_0.1, counter, next) == Ok::<
                Pair,
                Trouble,
            >(
                with_both(
                    vm,
                    fiber,
                    s,
                    a.write(indices, val)->Ok_0,
                    t,
                    b.write(counter.indices, next)->Ok_0,
                ),
            )
        }),
{
    let a2 = a.write(indices, val)->Ok_0;
    let b2 = b.write(counter.indices, next)->Ok_0;
    let counted = places::place_address(vm, fiber, counter)->Ok_0;
    let (v0, f0) = places::put_cell(vm, fiber, s, a);
    lemma_put_reads(vm, fiber, s, a, t);
    lemma_put_reads(vm, fiber, s, a, s);
    places::lemma_put_keeps_slots(vm, fiber, s, a, address);
    places::lemma_put_keeps_slots(vm, fiber, s, a, counted);
    lemma_put_keeps_address(vm, fiber, s, a, counter);
    let (v, f) = places::put_cell(v0, f0, t, b);
    lemma_put_reads(v0, f0, t, b, s);
    lemma_put_reads(v0, f0, t, b, t);
    places::lemma_put_keeps_slots(v0, f0, t, b, address);
    places::lemma_put_keeps_slots(v0, f0, t, b, counted);
    lemma_put_keeps_address(v0, f0, t, b, counter);
    let (v1, f1) = places::put_cell(v, f, s, a2);
    assert(places::write_address(v, f, address, indices, val) == Ok::<Pair, Trouble>((v1, f1)));
    lemma_put_reads(v, f, s, a2, t);
    places::lemma_put_keeps_slots(v, f, s, a2, counted);
    lemma_put_keeps_address(v, f, s, a2, counter);
    let (v2, f2) = places::put_cell(v1, f1, t, b2);
    assert(places::write_place(v1, f1, counter, next) == Ok::<Pair, Trouble>((v2, f2)));
    // The order of the two arrays does not matter, and only the last state of each stays.
    lemma_put_commutes(v0, f0, t, s, b, a2);
    let (v3, f3) = places::put_cell(v0, f0, s, a2);
    assert((v1, f1) == places::put_cell(v3, f3, t, b));
    lemma_put_again(vm, fiber, s, a, a2);
    assert((v3, f3) == places::put_cell(vm, fiber, s, a2));
    lemma_put_reads(vm, fiber, s, a2, t);
    lemma_put_again(v3, f3, t, b, b2);
}

/// The integers of the target after so many rounds.
pub open spec fn integers_after(
    plan: BulkLoopPlan,
    target: Seq<i64>,
    from: int,
    source: Seq<i64>,
    at: int,
    n: int,
) -> Seq<i64> {
    match plan.operation {
        BulkArrayOperation::Fill(value) => fastpaths::filled(target, from, from + n, value),
        BulkArrayOperation::Copy { source: _, offset } => fastpaths::overlaid(
            target,
            from,
            from + n,
            source,
            at,
        ),
    }
}

/// The counter after so many rounds; before the first one it is as it was.
pub open spec fn counter_after(cell: Cell, counter: Place, start: int, k: int) -> Cell {
    if k == start {
        cell
    } else {
        cell.write(counter.indices, Val::Integer(k as i64))->Ok_0
    }
}

/// The stretch of the target that the rounds of a loop store.
pub open spec fn target_stretch(
    program: ProgramGeneration,
    plan: BulkLoopPlan,
    row: i64,
    start: int,
    end: int,
) -> Option<Stretch> {
    fastpaths::stretch_of(
        *program.spec_global(plan.target)->0,
        row,
        round_column(plan, start),
        round_column(plan, end),
    )
}

/// The arrays that a loop works on, and where they stand.
pub struct Arena {
    pub stretch: Stretch,
    pub target: CellSlot,
    pub target_integers: Seq<i64>,
    pub counter: CellSlot,
    pub source: CellSlot,
    pub source_integers: Seq<i64>,
    pub source_from: int,
}

/// A loop over its arrays can be taken in bulk.
pub open spec fn arena_fits(
    vm: VmModel,
    fiber: FiberModel,
    program: ProgramGeneration,
    plan: BulkLoopPlan,
    row: i64,
    counter: Place,
    start: int,
    end: int,
    a: Arena,
) -> bool {
    let g = *program.spec_global(plan.target)->0;
    let target_cell = places::cell_in(vm.store, fiber.frames, a.target);
    let counter_cell = places::cell_in(vm.store, fiber.frames, a.counter);
    &&& i64::MIN <= start <= end <= i64::MAX
    &&& program.spec_global(plan.target) is Some
    &&& target_stretch(program, plan, row, start, end) == Some(a.stretch)
    &&& places::slot_exists(vm.store, fiber.frames, a.target)
    &&& places::slot_exists(vm.store, fiber.frames, a.counter)
    &&& a.target != a.counter
    &&& places::slot_at(vm.store, fiber.frames, a.stretch.address) == Ok::<CellSlot, Trouble>(
        a.target,
    )
    &&& target_cell.dimensions == g.dimensions@
    &&& target_cell.data == Data::Integers(a.target_integers)
    &&& a.stretch.to <= a.target_integers.len()
    &&& places::place_address(vm, fiber, counter) is Ok
    &&& places::slot_at(
        vm.store,
        fiber.frames,
        places::place_address(vm, fiber, counter)->Ok_0,
    ) == Ok::<CellSlot, Trouble>(a.counter)
    &&& counter_cell.position(counter.indices) is Some
    &&& counter_cell.data is Integers
    &&& match plan.operation {
        BulkArrayOperation::Fill(_) => true,
        BulkArrayOperation::Copy { source, offset } => {
            let origin = *program.spec_global(source)->0;
            let cell = places::cell_in(vm.store, fiber.frames, a.source);
            let stretch = fastpaths::stretch_of(origin, row, start, end);
            &&& program.spec_global(source) is Some
            &&& stretch is Some
            &&& stretch->0.from == a.source_from
            &&& stretch->0.to <= a.source_integers.len()
            &&& places::slot_exists(vm.store, fiber.frames, a.source)
            &&& a.source != a.target
            &&& a.source != a.counter
            &&& places::slot_at(vm.store, fiber.frames, stretch->0.address) == Ok::<
                CellSlot,
                Trouble,
            >(a.source)
            &&& cell.dimensions == origin.dimensions@
            &&& cell.data == Data::Integers(a.source_integers)
        },
    }
}

/// The machine after the rounds up to `k`.
pub open spec fn state_after(
    vm: VmModel,
    fiber: FiberModel,
    plan: BulkLoopPlan,
    counter: Place,
    start: int,
    k: int,
    a: Arena,
) -> Pair {
    let target_cell = places::cell_in(vm.store, fiber.frames, a.target);
    with_both(
        vm,
        fiber,
        a.target,
        Cell {
            dimensions: target_cell.dimensions,
            data: Data::Integers(
                integers_after(
                    plan,
                    a.target_integers,
                    a.stretch.from,
                    a.source_integers,
                    a.source_from,
                    k - start,
                ),
            ),
        },
        a.counter,
        counter_after(
            places::cell_in(vm.store, fiber.frames, a.counter),
            counter,
            start,
            k,
        ),
    )
}

proof fn lemma_put_shape(vm: VmModel, fiber: FiberModel, slot: CellSlot, cell: Cell)
    requires
        places::slot_exists(vm.store, fiber.frames, slot),
        places::machine_sized(vm, fiber),
        fiber.frames.len() > 0,
    ensures
        same_outside(vm, fiber, places::put_cell(vm, fiber, slot, cell)),
{
}

/// Only variables differ.
pub open spec fn same_outside(vm: VmModel, fiber: FiberModel, after: Pair) -> bool {
    &&& places::machine_sized(after.0, after.1)
    &&& after.0 == (VmModel { store: after.0.store, ..vm })
    &&& after.1 == (FiberModel { frames: after.1.frames, ..fiber })
    &&& after.1.frames.len() == fiber.frames.len()
    &&& after.1.top() == (FrameModel { locals: after.1.top().locals, ..fiber.top() })
}

/// What the rounds of a loop leave unchanged, and where the changed arrays are found.
pub proof fn lemma_state_after(
    vm: VmModel,
    fiber: FiberModel,
    program: ProgramGeneration,
    plan: BulkLoopPlan,
    row: i64,
    counter: Place,
    start: int,
    end: int,
    k: int,
    a: Arena,
)
    requires
        arena_fits(vm, fiber, program, plan, row, counter, start, end, a),
        places::machine_sized(vm, fiber),
        fiber.frames.len() > 0,
    ensures
        ({
            let after = state_after(vm, fiber, plan, counter, start, k, a);
            &&& same_outside(vm, fiber, after)
            &&& places::place_address(after.0, after.1, counter) == places::place_address(
                vm,
                fiber,
                counter,
            )
            &&& forall|address: CellAddress|
                #![trigger places::slot_at(after.0.store, after.1.frames, address)]
                places::slot_at(after.0.store, after.1.frames, address) == places::slot_at(
                    vm.store,
                    fiber.frames,
                    address,
                )
            &&& forall|t: CellSlot|
                #![trigger places::cell_in(after.0.store, after.1.frames, t)]
                places::slot_exists(vm.store, fiber.frames, t) && t != a.target ==> {
                    &&& places::slot_exists(after.0.store, after.1.frames, t)
                    &&& places::cell_in(after.0.store, after.1.frames, t) == if t == a.counter {
                        counter_after(
                            places::cell_in(vm.store, fiber.frames, a.counter),
                            counter,
                            start,
                            k,
                        )
                    } else {
                        places::cell_in(vm.store, fiber.frames, t)
                    }
                }
        }),
{
    let target_cell = places::cell_in(vm.store, fiber.frames, a.target);
    let one = Cell {
        dimensions: target_cell.dimensions,
        data: Data::Integers(
            integers_after(
                plan,
                a.target_integers,
                a.stretch.from,
                a.source_integers,
                a.source_from,
                k - start,
            ),
        ),
    };
    let two = counter_after(
        places::cell_in(vm.store, fiber.frames, a.counter),
        counter,
        start,
        k,
    );
    let (v, f) = places::put_cell(vm, fiber, a.target, one);
    lemma_put_shape(vm, fiber, a.target, one);
    lemma_put_keeps_address(vm, fiber, a.target, one, counter);
    lemma_put_reads(vm, fiber, a.target, one, a.counter);
    lemma_put_shape(v, f, a.counter, two);
    lemma_put_keeps_address(v, f, a.counter, two, counter);
    let after = state_after(vm, fiber, plan, counter, start, k, a);
    assert forall|address: CellAddress|
        #![trigger places::slot_at(after.0.store, after.1.frames, address)]
        places::slot_at(after.0.store, after.1.frames, address) == places::slot_at(
            vm.store,
            fiber.frames,
            address,
        ) by {
        places::lemma_put_keeps_slots(vm, fiber, a.target, one, address);
        places::lemma_put_keeps_slots(v, f, a.counter, two, address);
    }
    assert forall|t: CellSlot|
        #![trigger places::cell_in(after.0.store, after.1.frames, t)]
        places::slot_exists(vm.store, fiber.frames, t) && t != a.target implies {
        &&& places::slot_exists(after.0.store, after.1.frames, t)
        &&& places::cell_in(after.0.store, after.1.frames, t) == if t == a.counter {
            two
        } else {
            places::cell_in(vm.store, fiber.frames, t)
        }
    } by {
        lemma_put_reads(vm, fiber, a.target, one, t);
        lemma_put_reads(v, f, a.counter, two, t);
    }
}

proof fn lemma_round_value(
    vm: VmModel,
    fiber: FiberModel,
    program: ProgramGeneration,
    plan: BulkLoopPlan,
    row: i64,
    counter: Place,
    start: int,
    end: int,
    k: int,
    a: Arena,
)
    requires
        arena_fits(vm, fiber, program, plan, row, counter, start, end, a),
        start <= k < end,
    ensures
        ({
            let (v, f) = state_after(vm, fiber, plan, counter, start, k, a);
            round_value(v, f, program, plan, row, k) == Ok::<Val, Trouble>(
                Val::Integer(
                    match plan.operation {
                        BulkArrayOperation::Fill(value) => value,
                        BulkArrayOperation::Copy { source, offset } =>
                            a.source_integers[a.source_from + (k - start)],
                    },
                ),
            )
        }),
{
    match plan.operation {
        BulkArrayOperation::Fill(_) => {},
        BulkArrayOperation::Copy { source, offset } => {
            let origin = *program.spec_global(source)->0;
            let stretch = fastpaths::stretch_of(origin, row, start, end)->0;
            let cell = places::cell_in(vm.store, fiber.frames, a.source);
            lemma_column_position(origin, row, cell, stretch, start, end, k);
            let target_cell = places::cell_in(vm.store, fiber.frames, a.target);
            let one = Cell {
                dimensions: target_cell.dimensions,
                data: Data::Integers(
                    integers_after(
                        plan,
                        a.target_integers,
                        a.stretch.from,
                        a.source_integers,
                        a.source_from,
                        k - start,
                    ),
                ),
            };
            let two = counter_after(
                places::cell_in(vm.store, fiber.frames, a.counter),
                counter,
                start,
                k,
            );
            let (v0, f0) = places::put_cell(vm, fiber, a.target, one);
            lemma_put_reads(vm, fiber, a.target, one, a.source);
            lemma_put_reads(vm, fiber, a.target, one, a.counter);
            places::lemma_put_keeps_slots(vm, fiber, a.target, one, stretch.address);
            lemma_put_reads(v0, f0, a.counter, two, a.source);
            places::lemma_put_keeps_slots(v0, f0, a.counter, two, stretch.address);
        },
    }
}

pub proof fn lemma_rounds(
    vm: VmModel,
    fiber: FiberModel,
    program: ProgramGeneration,
    plan: BulkLoopPlan,
    row: i64,
    counter: Place,
    start: int,
    end: int,
    k: int,
    a: Arena,
)
    requires
        arena_fits(vm, fiber, program, plan, row, counter, start, end, a),
        start <= k <= end,
    ensures
        rounds_made(vm, fiber, program, plan, row, counter, start, k) == Ok::<Pair, Trouble>(
            state_after(vm, fiber, plan, counter, start, k, a),
        ),
    decreases k - start,
{
    let g = *program.spec_global(plan.target)->0;
    let target_cell = places::cell_in(vm.store, fiber.frames, a.target);
    let counter_cell = places::cell_in(vm.store, fiber.frames, a.counter);
    if k == start {
        assert(integers_after(
            plan,
            a.target_integers,
            a.stretch.from,
            a.source_integers,
            a.source_from,
            0,
        ) =~= a.target_integers);
        lemma_put_identity(vm, fiber, a.target);
        lemma_put_identity(vm, fiber, a.counter);
    } else {
        let j = k - 1;
        lemma_rounds(vm, fiber, program, plan, row, counter, start, end, j, a);
        lemma_round_value(vm, fiber, program, plan, row, counter, start, end, j, a);
        let before = integers_after(
            plan,
            a.target_integers,
            a.stretch.from,
            a.source_integers,
            a.source_from,
            j - start,
        );
        let after = integers_after(
            plan,
            a.target_integers,
            a.stretch.from,
            a.source_integers,
            a.source_from,
            k - start,
        );
        let one = Cell { dimensions: target_cell.dimensions, data: Data::Integers(before) };
        let two = counter_after(counter_cell, counter, start, j);
        lemma_column_position(
            g,
            row,
            one,
            a.stretch,
            round_column(plan, start),
            round_column(plan, end),
            round_column(plan, j),
        );
        let position = a.stretch.from + (j - start);
        let value = match plan.operation {
            BulkArrayOperation::Fill(value) => value,
            BulkArrayOperation::Copy { source, offset } =>
                a.source_integers[a.source_from + (j - start)],
        };
        assert(before.update(position, value) =~= after);
        let indices = column_indices(g, row, round_column(plan, j));
        assert(one.write(indices, Val::Integer(value)) == Ok::<Cell, Seq<char>>(
            Cell { dimensions: one.dimensions, data: Data::Integers(after) },
        ));
        let p = counter_cell.position(counter.indices)->0;
        let held = counter_cell.data->Integers_0;
        memory::lemma_row_major_grows(
            counter_cell.dimensions,
            counter.indices,
            0,
            counter_cell.dimensions.len(),
        );
        assert(held.update(p, j as i64).update(p, k as i64) =~= held.update(p, k as i64));
        assert(two.write(counter.indices, Val::Integer(k as i64)) == Ok::<Cell, Seq<char>>(
            counter_after(counter_cell, counter, start, k),
        ));
        lemma_two_writes(
            vm,
            fiber,
            a.stretch.address,
            indices,
            Val::Integer(value),
            counter,
            Val::Integer(k as i64),
            a.target,
            one,
            a.counter,
            two,
        );
    }
}

/// The slot of a variable holds its key.
pub proof fn lemma_slot_key(vm: VmModel, fiber: FiberModel, address: CellAddress)
    requires
        places::machine_sized(vm, fiber),
        places::slot_at(vm.store, fiber.frames, address) is Ok,
    ensures
        slot_key(
            vm.store,
            fiber.frames,
            places::slot_at(vm.store, fiber.frames, address)->Ok_0,
        ) == address.key,
{
    let p = memory::has_key(address.key);
    lookup::lemma_first_index(vm.store.shared, p);
    lookup::lemma_first_index(vm.store.statics, p);
    if let Some(c) = address.character {
        if c < vm.store.characters.len() {
            lookup::lemma_first_index(vm.store.characters[c as int], p);
        }
    }
    if let Some(id) = address.frame {
        lookup::lemma_first_index(fiber.frames, state::frame_is(id));
        if let Some(f) = lookup::first_index(fiber.frames, state::frame_is(id)) {
            lookup::lemma_first_index(fiber.frames[f].locals, p);
        }
    }
}

/// The key that the array in a slot stands under.
pub open spec fn slot_key(
    store: state::Store,
    frames: Seq<FrameModel>,
    slot: CellSlot,
) -> SymbolKey {
    match slot {
        CellSlot::Shared(i) => store.shared[i as int].0,
        CellSlot::Static(i) => store.statics[i as int].0,
        CellSlot::Character(c, i) => store.characters[c as int][i as int].0,
        CellSlot::Local(f, i) => frames[f as int].locals[i as int].0,
    }
}

pub proof fn lemma_global_key(program: ProgramGeneration, key: SymbolKey)
    requires
        program.spec_global(key) is Some,
    ensures
        program.spec_global(key)->0.key == key,
{
    lookup::lemma_first_index(program.globals@, program::global_key(key));
}

/// The counter of a loop is a variable of its own.
pub open spec fn counter_apart(plan: BulkLoopPlan) -> bool {
    &&& plan.counter != plan.target
    &&& (plan.operation matches BulkArrayOperation::Copy { source, offset } ==> source
        != plan.counter)
}

/// The arrays of a loop that is taken in bulk, and what taking it leaves.
pub proof fn lemma_bulk_arena(
    vm: VmModel,
    fiber: FiberModel,
    generation: GenerationId,
    function: SymbolKey,
    instruction: usize,
    counter: Place,
    start: i64,
    end: i64,
    step: i64,
    policy: ExecutionPolicy,
    row: i64,
) -> (a: Arena)
    requires
        places::machine_sized(vm, fiber),
        fiber.frames.len() > 0,
        fiber.top().generation == generation,
        start < end,
        fastpaths::bulk_loop(
            vm,
            fiber,
            generation,
            function,
            instruction,
            counter,
            start,
            end,
            step,
            policy,
        ).2 matches Ok(Some(_)),
        ({
            let program = vm.program(generation)->0;
            let plan = fastpaths::bulk_plan(program, function, instruction)->0;
            let prefix = *program.spec_global(plan.prefix.variable)->0;
            &&& counter_apart(plan)
            &&& places::read_at(
                vm.store,
                fiber.frames,
                places::variable_address(
                    prefix,
                    None,
                    fastpaths::own_frame(prefix, fiber.top().id),
                ),
                plan.prefix.indices@,
            ) == Ok::<Val, Trouble>(Val::Integer(row))
        }),
    ensures
        ({
            let program = vm.program(generation)->0;
            let plan = fastpaths::bulk_plan(program, function, instruction)->0;
            let bulk = fastpaths::bulk_loop(
                vm,
                fiber,
                generation,
                function,
                instruction,
                counter,
                start,
                end,
                step,
                policy,
            );
            let last = state_after(vm, fiber, plan, counter, start as int, end as int, a);
            &&& arena_fits(vm, fiber, program, plan, row, counter, start as int, end as int, a)
            &&& bulk.0 == last.0
            &&& bulk.1 == (FiberModel {
                backward: fastpaths::saturated(fiber.backward + (end - start - 1)),
                ..last.1.with_top(FrameModel { instruction: plan.after_loop, ..last.1.top() })
            })
        }),
{
    let program = vm.program(generation)->0;
    let plan = fastpaths::bulk_plan(program, function, instruction)->0;
    lemma_global_key(program, plan.target);
    let g = *program.spec_global(plan.target)->0;
    let effect = fastpaths::bulk_effect(vm, fiber, program, plan, row, start, end)->0;
    let s = effect.0;
    let slot = places::slot_at(vm.store, fiber.frames, s.address)->Ok_0;
    let cell = places::cell_in(vm.store, fiber.frames, slot);
    places::lemma_found_slot_exists(vm, fiber, s.address);
    lemma_slot_key(vm, fiber, s.address);
    let v = fastpaths::stretch_integers(vm, fiber, g, s)->0;
    let put = Cell { dimensions: cell.dimensions, data: Data::Integers(effect.1) };
    let (vm1, fiber1) = places::put_cell(vm, fiber, slot, put);
    lemma_put_keeps_address(vm, fiber, slot, put, counter);
    let counted = places::place_address(vm, fiber, counter)->Ok_0;
    lemma_global_key(program, counter.variable);
    places::lemma_put_keeps_slots(vm, fiber, slot, put, counted);
    places::lemma_found_slot_exists(vm, fiber, counted);
    lemma_slot_key(vm, fiber, counted);
    let held = places::slot_at(vm.store, fiber.frames, counted)->Ok_0;
    lemma_put_reads(vm, fiber, slot, put, held);
    let (origin_slot, w, from) = match plan.operation {
        BulkArrayOperation::Fill(_) => (slot, Seq::<i64>::empty(), 0int),
        BulkArrayOperation::Copy { source, offset } => {
            let origin = *program.spec_global(source)->0;
            let stretch = fastpaths::stretch_of(origin, row, start as int, end as int)->0;
            lemma_global_key(program, source);
            places::lemma_found_slot_exists(vm, fiber, stretch.address);
            lemma_slot_key(vm, fiber, stretch.address);
            (
                places::slot_at(vm.store, fiber.frames, stretch.address)->Ok_0,
                fastpaths::stretch_integers(vm, fiber, origin, stretch)->0,
                stretch.from,
            )
        },
    };
    let a = Arena {
        stretch: s,
        target: slot,
        target_integers: v,
        counter: held,
        source: origin_slot,
        source_integers: w,
        source_from: from,
    };
    lemma_column_position(
        g,
        row,
        cell,
        s,
        round_column(plan, start as int),
        round_column(plan, end as int),
        round_column(plan, start as int),
    );
    assert(arena_fits(vm, fiber, program, plan, row, counter, start as int, end as int, a));
    a
}

/// Taking a loop in bulk leaves what its rounds leave, one after the other: each round stores one
/// cell of the row and then advances the counter. Beyond that, execution goes on behind the loop and
/// the jumps back that the rounds would have made are counted.
pub proof fn law_bulk_loop_is_its_rounds(
    vm: VmModel,
    fiber: FiberModel,
    generation: GenerationId,
    function: SymbolKey,
    instruction: usize,
    counter: Place,
    start: i64,
    end: i64,
    step: i64,
    policy: ExecutionPolicy,
    row: i64,
)
    requires
        places::machine_sized(vm, fiber),
        fiber.frames.len() > 0,
        fiber.top().generation == generation,
        start < end,
        fastpaths::bulk_loop(
            vm,
            fiber,
            generation,
            function,
            instruction,
            counter,
            start,
            end,
            step,
            policy,
        ).2 matches Ok(Some(_)),
        ({
            let program = vm.program(generation)->0;
            let plan = fastpaths::bulk_plan(program, function, instruction)->0;
            let prefix = *program.spec_global(plan.prefix.variable)->0;
            &&& counter_apart(plan)
            &&& places::read_at(
                vm.store,
                fiber.frames,
                places::variable_address(
                    prefix,
                    None,
                    fastpaths::own_frame(prefix, fiber.top().id),
                ),
                plan.prefix.indices@,
            ) == Ok::<Val, Trouble>(Val::Integer(row))
        }),
    ensures
        ({
            let program = vm.program(generation)->0;
            let plan = fastpaths::bulk_plan(program, function, instruction)->0;
            let bulk = fastpaths::bulk_loop(
                vm,
                fiber,
                generation,
                function,
                instruction,
                counter,
                start,
                end,
                step,
                policy,
            );
            let made = rounds_made(
                vm,
                fiber,
                program,
                plan,
                row,
                counter,
                start as int,
                end as int,
            );
            &&& made is Ok
            &&& bulk.0 == made->Ok_0.0
            &&& bulk.1 == (FiberModel {
                backward: fastpaths::saturated(fiber.backward + (end - start - 1)),
                ..made->Ok_0.1.with_top(
                    FrameModel { instruction: plan.after_loop, ..made->Ok_0.1.top() },
                )
            })
        }),
{
    let program = vm.program(generation)->0;
    let plan = fastpaths::bulk_plan(program, function, instruction)->0;
    let a = lemma_bulk_arena(
        vm,
        fiber,
        generation,
        function,
        instruction,
        counter,
        start,
        end,
        step,
        policy,
        row,
    );
    lemma_rounds(vm, fiber, program, plan, row, counter, start as int, end as int, end as int, a);
}

} // verus!
