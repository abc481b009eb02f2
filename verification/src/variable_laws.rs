//! What reading and writing variables does.

use vstd::prelude::*;
use crate::ast::BinaryOp;
use crate::basic;
use crate::call_laws;
use crate::dispatch;
use crate::fastpaths;
use crate::fault::{Failure, Trouble};
use crate::flow_laws;
use crate::instruction_laws;
use crate::lookup;
use crate::memory::{self, BytecodeStorage, Cell, CellAddress, Cells, Data};
use crate::named;
use crate::operand;
use crate::operator_laws;
use crate::places;
use crate::program::{BytecodeGlobal, IntegerArithmeticPolicy};
use crate::state::{self, At, ExecutionPolicy, FiberModel, FrameModel, VmModel};
use crate::value::{Place, SymbolKey, Val};

verus! {

/// An index; one that is left out is zero.
pub open spec fn nth(indices: Seq<u64>, k: int) -> int {
    if k < indices.len() {
        indices[k] as int
    } else {
        0
    }
}

/// Where the element at some indices stands in an array of up to three dimensions that is laid out
/// row by row.
pub open spec fn offset(dimensions: Seq<u64>, indices: Seq<u64>) -> int {
    if dimensions.len() == 0 {
        0
    } else if dimensions.len() == 1 {
        nth(indices, 0)
    } else if dimensions.len() == 2 {
        nth(indices, 0) * dimensions[1] + nth(indices, 1)
    } else {
        (nth(indices, 0) * dimensions[1] + nth(indices, 1)) * dimensions[2] + nth(indices, 2)
    }
}

/// The value at some indices of an array.
pub open spec fn element(cell: Cell, indices: Seq<u64>) -> Val {
    match cell.data {
        Data::Integers(s) => Val::Integer(s[offset(cell.dimensions, indices)]),
        Data::Texts(s) => Val::Text(s[offset(cell.dimensions, indices)]),
    }
}

/// Reading an array of up to three dimensions gives the element at the indices. It is refused
/// where there are too many indices or one is out of its dimension.
pub proof fn law_array_reads_element(cell: Cell, indices: Seq<u64>)
    requires
        cell.dimensions.len() <= 3,
    ensures
        cell.read(indices) is Ok ==> cell.read(indices)->Ok_0 == element(cell, indices),
        cell.read(indices) is Ok ==> indices.len() <= cell.dimensions.len(),
        cell.read(indices) is Ok ==> forall|k: int|
            0 <= k < cell.dimensions.len() ==> nth(indices, k) < #[trigger] cell.dimensions[k],
{
    reveal_with_fuel(memory::row_major, 4);
    let d = cell.dimensions;
    assert(memory::row_major(d, indices, 0) == 0);
    if d.len() > 0 {
        assert(memory::row_major(d, indices, 1) == nth(indices, 0));
    }
    if d.len() > 1 {
        assert(memory::row_major(d, indices, 2) == nth(indices, 0) * d[1] + nth(indices, 1));
    }
    assert(memory::row_major(d, indices, d.len()) == offset(d, indices));
    if cell.read(indices) is Ok {
        assert forall|k: int| 0 <= k < cell.dimensions.len() implies nth(indices, k)
            < #[trigger] cell.dimensions[k] by {
            assert(memory::index_at(indices, k) < cell.dimensions[k]);
        }
    }
}

/// Writing an array of up to three dimensions changes the element at the indices and no other.
pub proof fn law_array_writes_element(cell: Cell, indices: Seq<u64>, v: Val)
    requires
        cell.dimensions.len() <= 3,
        cell.write(indices, v) is Ok,
    ensures
        ({
            let after = cell.write(indices, v)->Ok_0;
            let o = offset(cell.dimensions, indices);
            &&& after.dimensions == cell.dimensions
            &&& 0 <= o < cell.data.len()
            &&& after.data.len() == cell.data.len()
            &&& element(after, indices) == v
            &&& match (cell.data, after.data) {
                (Data::Integers(s), Data::Integers(t)) => forall|i: int|
                    0 <= i < s.len() && i != o ==> #[trigger] t[i] == s[i],
                (Data::Texts(s), Data::Texts(t)) => forall|i: int|
                    0 <= i < s.len() && i != o ==> #[trigger] t[i] == s[i],
                _ => false,
            }
        }),
{
    reveal_with_fuel(memory::row_major, 4);
    memory::lemma_row_major_grows(cell.dimensions, indices, 0, cell.dimensions.len());
}

/// Indices as the values that are pushed for them.
pub open spec fn index_values(indices: Seq<u64>) -> Seq<Val> {
    indices.map_values(|i: u64| Val::Integer(i as i64))
}

pub open spec fn indices_fit(indices: Seq<u64>) -> bool {
    forall|i: int| 0 <= i < indices.len() ==> #[trigger] indices[i] <= i64::MAX
}

proof fn lemma_popped_indices(rest: Seq<Val>, indices: Seq<u64>)
    requires
        indices_fit(indices),
    ensures
        operand::popped_indices(rest + index_values(indices), indices.len()) == (
            rest,
            Ok::<Seq<u64>, Failure>(indices),
        ),
    decreases indices.len(),
{
    let stack = rest + index_values(indices);
    if indices.len() == 0 {
        assert(stack =~= rest);
        assert(indices =~= Seq::<u64>::empty());
    } else {
        let before = indices.drop_last();
        assert forall|i: int| 0 <= i < before.len() implies #[trigger] before[i] <= i64::MAX by {
            assert(before[i] == indices[i]);
        }
        lemma_popped_indices(rest, before);
        assert(stack.drop_last() =~= rest + index_values(before));
        assert(indices[indices.len() - 1] <= i64::MAX);
        assert(before.push(indices.last()) =~= indices);
    }
}

/// The array under a key: the first one, where there are several.
pub open spec fn stands_under(cells: Cells, key: SymbolKey, cell: Cell) -> bool {
    exists|i: int|
        0 <= i < cells.len() && #[trigger] cells[i] == (key, cell) && forall|j: int|
            0 <= j < i ==> (#[trigger] cells[j]).0 != key
}

pub proof fn lemma_stands_under(cells: Cells, key: SymbolKey)
    requires
        memory::slot_of(cells, key) is Some,
    ensures
        stands_under(cells, key, cells[memory::slot_of(cells, key)->Some_0].1),
{
    let p = memory::has_key(key);
    lookup::lemma_first_index(cells, p);
    let i = memory::slot_of(cells, key)->Some_0;
    assert(p(cells[i]));
    assert forall|j: int| 0 <= j < i implies (#[trigger] cells[j]).0 != key by {
        assert(!p(cells[j]));
    }
    assert(cells[i] == (key, cells[i].1));
}

/// The instruction is a plain access of a variable with so many indices on the stack.
pub open spec fn accesses(at: At, g: BytecodeGlobal, indices: Seq<u64>) -> bool {
    &&& at.payload.len() > 18
    &&& at.variable == Some(g)
    &&& call_laws::two_bytes(at.payload, 16) == indices.len()
    &&& indices_fit(indices)
}

/// The frame ids of a fiber are different.
pub open spec fn frames_differ(fiber: FiberModel) -> bool {
    forall|i: int, j: int|
        0 <= i < j < fiber.frames.len() ==> (#[trigger] fiber.frames[i]).id != (
        #[trigger] fiber.frames[j]).id
}

/// Where a variable of some storage is looked for, and with which indices: the shared variables,
/// those of a function, those of the running frame, or those of a character. For a character
/// variable an index more than it has dimensions names the character; else it is the target.
pub open spec fn found_in(
    vm: VmModel,
    fiber: FiberModel,
    at: At,
    g: BytecodeGlobal,
    indices: Seq<u64>,
    cells: Cells,
    rest: Seq<u64>,
) -> bool {
    match g.storage {
        BytecodeStorage::Project => cells == vm.store.shared && rest == indices,
        BytecodeStorage::Calculated => cells == vm.store.shared && rest == indices,
        BytecodeStorage::FunctionStatic => cells == vm.store.statics && rest
            == indices,
        BytecodeStorage::FunctionLocal => cells == fiber.frames.last().locals && rest
            == indices,
        BytecodeStorage::Character => if indices.len() > g.dimensions@.len() {
            &&& indices[0] < vm.store.characters.len()
            &&& cells == vm.store.characters[indices[0] as int]
            &&& rest == indices.skip(1)
        } else {
            let target = named::named_integer(
                vm.program(at.generation)->Some_0,
                vm.store,
                "TARGET"@,
            );
            let t = match target {
                Some(n) => n as int,
                None => 0,
            };
            &&& 0 <= t < vm.store.characters.len()
            &&& cells == vm.store.characters[t]
            &&& rest == indices
        },
    }
}

/// Loading a variable takes its indices and pushes the element that they name, in the first array
/// under the key of the variable, where such variables are kept.
pub proof fn law_variable_is_loaded(
    vm: VmModel,
    fiber: FiberModel,
    at: At,
    policy: ExecutionPolicy,
    g: BytecodeGlobal,
    below: Seq<Val>,
    indices: Seq<u64>,
)
    requires
        at.opcode is LoadVariable,
        accesses(at, g, indices),
        vm.program(at.generation) is Some,
        places::machine_sized(vm, fiber),
        vm.store.characters.len() <= i64::MAX,
        fiber.frames.len() > 0,
        frames_differ(fiber),
        fiber.frames.last().stack == below + index_values(indices),
        dispatch::executed(vm, fiber, at, policy).2 is Ok,
    ensures
        ({
            let after = dispatch::executed(vm, fiber, at, policy);
            let frame = fiber.frames.last();
            let v = after.1.frames.last().stack.last();
            &&& after.0 == vm
            &&& after.1 == instruction_laws::running(
                fiber,
                FrameModel {
                    stack: below.push(v),
                    instruction: instruction_laws::next_instruction(frame),
                    ..frame
                },
            )
            &&& exists|cells: Cells, rest: Seq<u64>, cell: Cell| #[trigger]
                found_in(vm, fiber, at, g, indices, cells, rest) && #[trigger] stands_under(
                    cells,
                    g.key,
                    cell,
                ) && cell.read(rest) == Ok::<Val, Seq<char>>(v)
        }),
{
    call_laws::law_operand_numbers(at.payload, 16);
    lemma_popped_indices(below, indices);
    let frame = fiber.frames.last();
    let counted = dispatch::counted(fiber);
    assert(counted.top().stack == frame.stack);
    let popped = counted.with_stack(below);
    let after = dispatch::executed(vm, fiber, at, policy);
    let (character, rest) = basic::split_indices(
        g,
        indices,
        named::target_character(vm, at.generation),
    );
    let address = places::variable_address(
        g,
        character,
        fastpaths::own_frame(g, popped.top().id),
    );
    assert(flow_laws::same_variables(popped.frames, fiber.frames));
    flow_laws::lemma_same_slots(vm.store, popped.frames, fiber.frames, address);
    let slot = places::slot_at(vm.store, fiber.frames, address)->Ok_0;
    let cell = places::cell_in(vm.store, fiber.frames, slot);
    let n = fiber.frames.len() - 1;
    let p = state::frame_is(frame.id);
    assert(p(fiber.frames[n]));
    assert forall|j: int| 0 <= j < n implies !p(#[trigger] fiber.frames[j]) by {
        assert(fiber.frames[j].id != fiber.frames[n].id);
    }
    lookup::lemma_first_found(fiber.frames, p, n);
    let cells = match g.storage {
        BytecodeStorage::Project => vm.store.shared,
        BytecodeStorage::Calculated => vm.store.shared,
        BytecodeStorage::FunctionStatic => vm.store.statics,
        BytecodeStorage::FunctionLocal => fiber.frames.last().locals,
        BytecodeStorage::Character => vm.store.characters[character->Some_0 as int],
    };
    lookup::lemma_first_index(cells, memory::has_key(g.key));
    lemma_stands_under(cells, g.key);
    assert(found_in(vm, fiber, at, g, indices, cells, rest));
    assert(stands_under(cells, g.key, cell));
    let v = after.1.frames.last().stack.last();
    assert(cell.read(rest) == Ok::<Val, Seq<char>>(v));
    assert(after.1.frames =~= fiber.frames.drop_last().push(after.1.frames.last()));
}

proof fn lemma_written_address_reads_back(
    vm: VmModel,
    fiber: FiberModel,
    address: CellAddress,
    indices: Seq<u64>,
    v: Val,
)
    requires
        places::machine_sized(vm, fiber),
        places::write_address(vm, fiber, address, indices, v) is Ok,
    ensures
        ({
            let (w, f) = places::write_address(vm, fiber, address, indices, v)->Ok_0;
            &&& places::read_at(w.store, f.frames, address, indices) == Ok::<Val, Trouble>(v)
            &&& f.frames.len() == fiber.frames.len()
            &&& f == (FiberModel { frames: f.frames, ..fiber })
            &&& forall|i: int|
                0 <= i < f.frames.len() ==> places::same_but_locals(
                    #[trigger] f.frames[i],
                    fiber.frames[i],
                )
            &&& w == (VmModel { store: w.store, ..vm })
            &&& address.storage is Character ==> w.store.shared == vm.store.shared
        }),
{
    let (slot, cell) = places::write_at(vm.store, fiber.frames, address, indices, v)->Ok_0;
    places::lemma_found_slot_exists(vm, fiber, address);
    places::lemma_put_keeps_slots(vm, fiber, slot, cell, address);
    let before = places::cell_in(vm.store, fiber.frames, slot);
    memory::lemma_row_major_grows(before.dimensions, indices, 0, before.dimensions.len());
}

/// A fiber with more values on the stack of its running frame.
pub open spec fn with_values(fiber: FiberModel, values: Seq<Val>) -> FiberModel {
    let frame = fiber.frames.last();
    instruction_laws::running(fiber, FrameModel { stack: frame.stack + values, ..frame })
}

/// The compound assignments in the order in which instructions number them, from one on.
pub open spec fn numbered_assignments() -> Seq<BinaryOp> {
    seq![
        BinaryOp::Plus,
        BinaryOp::Minus,
        BinaryOp::Multiply,
        BinaryOp::Divide,
        BinaryOp::Modulo,
        BinaryOp::ShiftLeft,
        BinaryOp::ShiftRight,
        BinaryOp::BitAnd,
        BinaryOp::BitOr,
        BinaryOp::BitXor,
    ]
}

/// Storing takes the value and the indices. What is then loaded with the same indices is the value
/// itself; after a compound assignment it is what the operator gives for what was there before, on
/// the left, and the value.
pub proof fn law_stored_variable_is_loaded(
    vm: VmModel,
    fiber: FiberModel,
    store: At,
    load: At,
    policy: ExecutionPolicy,
    g: BytecodeGlobal,
    indices: Seq<u64>,
    v: Val,
)
    requires
        store.opcode is StoreVariable,
        load.opcode is LoadVariable,
        accesses(store, g, indices),
        accesses(load, g, indices),
        store.generation == load.generation,
        places::machine_sized(vm, fiber),
        fiber.frames.len() > 0,
        dispatch::executed(
            vm,
            with_values(fiber, index_values(indices).push(v)),
            store,
            policy,
        ).2 is Ok,
    ensures
        ({
            let before = dispatch::executed(
                vm,
                with_values(fiber, index_values(indices)),
                load,
                policy,
            );
            let (vm1, fiber1, r) = dispatch::executed(
                vm,
                with_values(fiber, index_values(indices).push(v)),
                store,
                policy,
            );
            let after = dispatch::executed(
                vm1,
                with_values(fiber1, index_values(indices)),
                load,
                policy,
            );
            let was = before.1.frames.last().stack.last();
            let is = after.1.frames.last().stack.last();
            let k = store.payload[18];
            &&& fiber1.frames.last().stack == fiber.frames.last().stack
            &&& k == 0 ==> is == v
            &&& 1 <= k <= 10 && was is Integer && v is Integer ==> (is matches Val::Integer(n)
                && operator_laws::results(
                IntegerArithmeticPolicy::ReferenceWrappingV1,
                numbered_assignments()[k - 1],
                was->Integer_0,
                v->Integer_0,
                n,
            ))
            &&& k == 1 && was is Text && v is Text ==> is == Val::Text(was->Text_0 + v->Text_0)
            &&& k <= 10
        }),
{
    let before = fiber.frames.last();
    let values = index_values(indices);
    let k = store.payload[18];
    let (vm1, fiber1, r) = dispatch::executed(
        vm,
        with_values(fiber, values.push(v)),
        store,
        policy,
    );
    let (character, rest) = basic::split_indices(
        g,
        indices,
        named::target_character(vm, store.generation),
    );
    let address = places::variable_address(g, character, fastpaths::own_frame(g, before.id));
    let popped = store_frame(fiber);
    lemma_store_step(vm, fiber, store, policy, g, indices, v);
    assert(flow_laws::same_variables(popped.frames, fiber.frames));
    assert(places::machine_sized(vm, popped));
    flow_laws::lemma_same_slots(vm.store, fiber.frames, popped.frames, address);
    let current = places::read_at(vm.store, fiber.frames, address, rest);
    let w = stored_value(k, current, v);
    lemma_load_step(vm, fiber, load, policy, g, indices);
    if k != 0 && current->Ok_0 is Integer && v is Integer {
        let op = numbered_assignments()[k - 1];
        let tag = operand::assigned(k)->Ok_0;
        assert(operator_laws::numbered_operators()[tag as int] == op);
        operator_laws::lemma_integer_operators(op, tag, current->Ok_0->Integer_0, v->Integer_0);
    }
    lemma_written_address_reads_back(vm, popped, address, rest, w);
    assert(places::same_but_locals(
        fiber1.frames[fiber1.frames.len() - 1],
        popped.frames[popped.frames.len() - 1],
    ));
    lemma_load_step(vm1, fiber1, load, policy, g, indices);
}

/// The fiber of a store once its operands are taken.
spec fn store_frame(fiber: FiberModel) -> FiberModel {
    let frame = fiber.frames.last();
    instruction_laws::running(
        fiber,
        FrameModel { instruction: instruction_laws::next_instruction(frame), ..frame },
    )
}

/// The value that a store puts down.
spec fn stored_value(k: u8, current: Result<Val, Trouble>, v: Val) -> Val {
    if k == 0 {
        v
    } else {
        operand::binary(operand::assigned(k)->Ok_0, current->Ok_0, v)->Ok_0
    }
}

proof fn lemma_load_step(
    vm: VmModel,
    fiber: FiberModel,
    at: At,
    policy: ExecutionPolicy,
    g: BytecodeGlobal,
    indices: Seq<u64>,
)
    requires
        at.opcode is LoadVariable,
        accesses(at, g, indices),
        fiber.frames.len() > 0,
        fiber.frames.len() <= usize::MAX,
    ensures
        ({
            let (character, rest) = basic::split_indices(
                g,
                indices,
                named::target_character(vm, at.generation),
            );
            let address = places::variable_address(
                g,
                character,
                fastpaths::own_frame(g, fiber.frames.last().id),
            );
            let value = places::read_at(vm.store, fiber.frames, address, rest);
            value is Ok ==> dispatch::executed(
                vm,
                with_values(fiber, index_values(indices)),
                at,
                policy,
            ).1.frames.last().stack.last() == value->Ok_0
        }),
{
    call_laws::law_operand_numbers(at.payload, 16);
    let below = fiber.frames.last().stack;
    lemma_popped_indices(below, indices);
    let (character, rest) = basic::split_indices(
        g,
        indices,
        named::target_character(vm, at.generation),
    );
    let address = places::variable_address(
        g,
        character,
        fastpaths::own_frame(g, fiber.frames.last().id),
    );
    let full = with_values(fiber, index_values(indices));
    let counted = dispatch::counted(full);
    assert(counted.top().stack == below + index_values(indices));
    let popped = counted.with_stack(below);
    assert(flow_laws::same_variables(fiber.frames, popped.frames));
    flow_laws::lemma_same_slots(vm.store, fiber.frames, popped.frames, address);
}

proof fn lemma_store_step(
    vm: VmModel,
    fiber: FiberModel,
    at: At,
    policy: ExecutionPolicy,
    g: BytecodeGlobal,
    indices: Seq<u64>,
    v: Val,
)
    requires
        at.opcode is StoreVariable,
        accesses(at, g, indices),
        fiber.frames.len() > 0,
        fiber.frames.len() <= usize::MAX,
        dispatch::executed(
            vm,
            with_values(fiber, index_values(indices).push(v)),
            at,
            policy,
        ).2 is Ok,
    ensures
        ({
            let (character, rest) = basic::split_indices(
                g,
                indices,
                named::target_character(vm, at.generation),
            );
            let address = places::variable_address(
                g,
                character,
                fastpaths::own_frame(g, fiber.frames.last().id),
            );
            let k = at.payload[18];
            let current = places::read_at(vm.store, fiber.frames, address, rest);
            let w = stored_value(k, current, v);
            let done = dispatch::executed(
                vm,
                with_values(fiber, index_values(indices).push(v)),
                at,
                policy,
            );
            &&& places::write_address(vm, store_frame(fiber), address, rest, w) == Ok::<
                (VmModel, FiberModel),
                Trouble,
            >((done.0, done.1))
            &&& k != 0 ==> current is Ok && operand::assigned(k) is Ok && operand::binary(
                operand::assigned(k)->Ok_0,
                current->Ok_0,
                v,
            ) is Ok
        }),
{
    call_laws::law_operand_numbers(at.payload, 16);
    let below = fiber.frames.last().stack;
    lemma_popped_indices(below, indices);
    let (character, rest) = basic::split_indices(
        g,
        indices,
        named::target_character(vm, at.generation),
    );
    let address = places::variable_address(
        g,
        character,
        fastpaths::own_frame(g, fiber.frames.last().id),
    );
    let full = with_values(fiber, index_values(indices).push(v));
    let counted = dispatch::counted(full);
    let all = below + index_values(indices).push(v);
    assert(counted.top().stack == all);
    assert(all.drop_last() =~= below + index_values(indices));
    assert(all.last() == v);
    let popped = counted.with_stack(all.drop_last()).with_stack(below);
    assert(popped.frames =~= store_frame(fiber).frames);
    assert(flow_laws::same_variables(fiber.frames, popped.frames));
    flow_laws::lemma_same_slots(vm.store, fiber.frames, popped.frames, address);
}

/// Naming a variable takes its indices and pushes a place of the variable's type, with the indices
/// and the character that a load would use, in the running fiber and frame.
pub proof fn law_variable_is_named(
    vm: VmModel,
    fiber: FiberModel,
    at: At,
    policy: ExecutionPolicy,
    g: BytecodeGlobal,
    below: Seq<Val>,
    indices: Seq<u64>,
)
    requires
        at.opcode is MakePlace,
        accesses(at, g, indices),
        fiber.frames.len() > 0,
        fiber.frames.last().stack == below + index_values(indices),
        dispatch::executed(vm, fiber, at, policy).2 is Ok,
    ensures
        ({
            let after = dispatch::executed(vm, fiber, at, policy);
            let frame = fiber.frames.last();
            let v = after.1.frames.last().stack.last();
            let p = match v {
                Val::IntegerPlace(p) => p,
                Val::StringPlace(p) => p,
                _ => state::nowhere(),
            };
            let extra = g.storage is Character && indices.len() > g.dimensions@.len();
            &&& after.0 == vm
            &&& after.1.frames.last().stack == below.push(v)
            &&& g.value_type is Integer ==> v is IntegerPlace
            &&& g.value_type is String ==> v is StringPlace
            &&& p.variable == g.key && p.backing is None && p.fiber == Some(fiber.id)
            &&& p.frame == if g.storage is FunctionLocal {
                Some(frame.id)
            } else {
                None
            }
            &&& p.indices == if extra {
                indices.skip(1)
            } else {
                indices
            }
            &&& extra ==> p.character == Some(indices[0])
            &&& !(g.storage is Character) ==> p.character is None
        }),
{
    call_laws::law_operand_numbers(at.payload, 16);
    lemma_popped_indices(below, indices);
    let counted = dispatch::counted(fiber);
    assert(counted.top().stack == fiber.frames.last().stack);
}

/// Storing through a place takes the place and the value below it; the place then holds the value.
pub proof fn law_store_through_place(
    vm: VmModel,
    fiber: FiberModel,
    at: At,
    policy: ExecutionPolicy,
    place: Place,
)
    requires
        at.opcode is StorePlace,
        places::machine_sized(vm, fiber),
        fiber.frames.len() > 0,
        fiber.frames.last().stack.len() >= 2,
        fiber.frames.last().stack.last() == Val::IntegerPlace(place)
            || fiber.frames.last().stack.last() == Val::StringPlace(place),
        dispatch::executed(vm, fiber, at, policy).2 is Ok,
    ensures
        ({
            let after = dispatch::executed(vm, fiber, at, policy);
            let stack = fiber.frames.last().stack;
            &&& places::read_place(after.0, after.1, place) == Ok::<Val, Trouble>(
                stack[stack.len() - 2],
            )
            &&& after.1.frames.last().stack == stack.take(stack.len() - 2)
            &&& stack.last() is IntegerPlace <==> stack[stack.len() - 2] is Integer
        }),
{
    let stack = fiber.frames.last().stack;
    let counted = dispatch::counted(fiber);
    assert(counted.top().stack == stack);
    let rest = stack.take(stack.len() - 2);
    assert(stack.drop_last().drop_last() =~= rest);
    let popped = counted.with_stack(rest);
    let v = stack[stack.len() - 2];
    assert(places::machine_sized(vm, popped));
    places::law_written_place_reads_back(vm, popped, place, v);
    places::law_write_keeps_frames(vm, popped, place, v);
    let (vm1, fiber1) = places::write_place(vm, popped, place, v)->Ok_0;
    assert(places::same_but_locals(
        fiber1.frames[fiber1.frames.len() - 1],
        popped.frames[popped.frames.len() - 1],
    ));
}

} // verus!
