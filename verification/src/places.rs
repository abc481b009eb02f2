//! Reading and writing through places.

use vstd::prelude::*;
use crate::fault::{self, Trouble, VmError};
use crate::lookup;
use crate::memory::{self, BytecodeStorage, Cell, CellAddress, VariableCell};
use crate::program::BytecodeGlobal;
use crate::state::{self, Fiber, FiberModel, FrameModel, Memory, Store, Vm, VmModel};
use crate::value::{self, FrameId, Place, PlaceDescriptor, Val, VmValue};

verus! {

/// The array that an address names.
#[derive(Clone, Copy, PartialEq, Eq, Debug, Structural)]
pub enum CellSlot {
    Shared(usize),
    Static(usize),
    Character(usize, usize),
    Local(usize, usize),
}

pub open spec fn missing_storage() -> Trouble {
    Trouble::InvalidState("variable storage is missing"@)
}

/// Finds the array that an address names.
pub open spec fn slot_at(store: Store, frames: Seq<FrameModel>, address: CellAddress) -> Result<
    CellSlot,
    Trouble,
> {
    match address.storage {
        BytecodeStorage::Project | BytecodeStorage::Calculated => match memory::slot_of(
            store.shared,
            address.key,
        ) {
            Some(i) => Ok(CellSlot::Shared(i as usize)),
            None => Err(missing_storage()),
        },
        BytecodeStorage::FunctionStatic => match memory::slot_of(store.statics, address.key) {
            Some(i) => Ok(CellSlot::Static(i as usize)),
            None => Err(missing_storage()),
        },
        BytecodeStorage::Character => match address.character {
            None => Err(Trouble::InvalidState("character index is missing"@)),
            Some(c) => if c >= store.characters.len() {
                Err(Trouble::Bounds("character index is out of range"@))
            } else {
                match memory::slot_of(store.characters[c as int], address.key) {
                    Some(i) => Ok(CellSlot::Character(c as usize, i as usize)),
                    None => Err(missing_storage()),
                }
            },
        },
        BytecodeStorage::FunctionLocal => match address.frame {
            None => Err(Trouble::InvalidState("local variable has no frame"@)),
            Some(id) => match lookup::first_index(frames, state::frame_is(id)) {
                None => Err(Trouble::InvalidState("local frame is missing"@)),
                Some(f) => match memory::slot_of(frames[f].locals, address.key) {
                    Some(i) => Ok(CellSlot::Local(f as usize, i as usize)),
                    None => Err(missing_storage()),
                },
            },
        },
    }
}

/// A slot that names an array.
pub open spec fn slot_exists(store: Store, frames: Seq<FrameModel>, slot: CellSlot) -> bool {
    match slot {
        CellSlot::Shared(i) => i < store.shared.len(),
        CellSlot::Static(i) => i < store.statics.len(),
        CellSlot::Character(c, i) => c < store.characters.len() && i
            < store.characters[c as int].len(),
        CellSlot::Local(f, i) => f < frames.len() && i < frames[f as int].locals.len(),
    }
}

/// The array in a slot.
pub open spec fn cell_in(store: Store, frames: Seq<FrameModel>, slot: CellSlot) -> Cell {
    match slot {
        CellSlot::Shared(i) => store.shared[i as int].1,
        CellSlot::Static(i) => store.statics[i as int].1,
        CellSlot::Character(c, i) => store.characters[c as int][i as int].1,
        CellSlot::Local(f, i) => frames[f as int].locals[i as int].1,
    }
}

/// Storage outside frames after the array in a slot was replaced.
pub open spec fn store_with(store: Store, slot: CellSlot, cell: Cell) -> Store {
    match slot {
        CellSlot::Shared(i) => Store {
            shared: memory::with_cell(store.shared, i as int, cell),
            ..store
        },
        CellSlot::Static(i) => Store {
            statics: memory::with_cell(store.statics, i as int, cell),
            ..store
        },
        CellSlot::Character(c, i) => Store {
            characters: store.characters.update(
                c as int,
                memory::with_cell(store.characters[c as int], i as int, cell),
            ),
            ..store
        },
        CellSlot::Local(_, _) => store,
    }
}

/// Frames after the array in a slot was replaced.
pub open spec fn frames_with(frames: Seq<FrameModel>, slot: CellSlot, cell: Cell) -> Seq<
    FrameModel,
> {
    match slot {
        CellSlot::Local(f, i) => frames.update(
            f as int,
            FrameModel {
                locals: memory::with_cell(frames[f as int].locals, i as int, cell),
                ..frames[f as int]
            },
        ),
        _ => frames,
    }
}

/// How a refused access of a cell shows.
pub open spec fn access_trouble(cell: Cell, indices: Seq<u64>, message: Seq<char>) -> Trouble {
    if cell.position(indices) is None {
        Trouble::Bounds(message)
    } else {
        Trouble::InvalidArguments(message)
    }
}

/// What reading at an address gives.
pub open spec fn read_at(
    store: Store,
    frames: Seq<FrameModel>,
    address: CellAddress,
    indices: Seq<u64>,
) -> Result<Val, Trouble> {
    match slot_at(store, frames, address) {
        Err(e) => Err(e),
        Ok(slot) => match cell_in(store, frames, slot).read(indices) {
            Ok(v) => Ok(v),
            Err(m) => Err(Trouble::Bounds(m)),
        },
    }
}

/// The slot and the new array that writing at an address leaves.
pub open spec fn write_at(
    store: Store,
    frames: Seq<FrameModel>,
    address: CellAddress,
    indices: Seq<u64>,
    val: Val,
) -> Result<(CellSlot, Cell), Trouble> {
    match slot_at(store, frames, address) {
        Err(e) => Err(e),
        Ok(slot) => {
            let cell = cell_in(store, frames, slot);
            match cell.write(indices, val) {
                Ok(c) => Ok((slot, c)),
                Err(m) => Err(access_trouble(cell, indices, m)),
            }
        },
    }
}

/// The address of a variable.
pub open spec fn variable_address(
    definition: BytecodeGlobal,
    character: Option<u64>,
    frame: Option<FrameId>,
) -> CellAddress {
    CellAddress { storage: definition.storage, key: definition.key, character, frame }
}

/// The address that a place names.
pub open spec fn place_address(vm: VmModel, fiber: FiberModel, place: Place) -> Result<
    CellAddress,
    Trouble,
> {
    match place.backing {
        Some(id) => match lookup::first_index(vm.store.leases, state::lease_is(id)) {
            Some(i) => Ok(vm.store.leases[i].address),
            None => Err(Trouble::InvalidState("array backing lease is missing"@)),
        },
        None => if fiber.frames.len() == 0 {
            Err(Trouble::InvalidState("place fiber has no frame"@))
        } else {
            match vm.program(fiber.top().generation) {
                None => Err(Trouble::InvalidState("place generation is missing"@)),
                Some(program) => match program.spec_global(place.variable) {
                    None => Err(Trouble::InvalidState("place variable is missing"@)),
                    Some(g) => Ok(variable_address(*g, place.character, place.frame)),
                },
            }
        },
    }
}

/// What reading a place gives.
pub open spec fn read_place(vm: VmModel, fiber: FiberModel, place: Place) -> Result<Val, Trouble> {
    match place_address(vm, fiber, place) {
        Err(e) => Err(e),
        Ok(address) => read_at(vm.store, fiber.frames, address, place.indices),
    }
}

/// What writing a place leaves.
pub open spec fn write_place(vm: VmModel, fiber: FiberModel, place: Place, val: Val) -> Result<
    (VmModel, FiberModel),
    Trouble,
> {
    match place_address(vm, fiber, place) {
        Err(e) => Err(e),
        Ok(address) => write_address(vm, fiber, address, place.indices, val),
    }
}

/// What writing at an address leaves.
pub open spec fn write_address(
    vm: VmModel,
    fiber: FiberModel,
    address: CellAddress,
    indices: Seq<u64>,
    val: Val,
) -> Result<(VmModel, FiberModel), Trouble> {
    match write_at(vm.store, fiber.frames, address, indices, val) {
        Err(e) => Err(e),
        Ok((slot, cell)) => Ok(put_cell(vm, fiber, slot, cell)),
    }
}

/// Machine and fiber after the array in a slot was replaced.
pub open spec fn put_cell(vm: VmModel, fiber: FiberModel, slot: CellSlot, cell: Cell) -> (
    VmModel,
    FiberModel,
) {
    (
        VmModel { store: store_with(vm.store, slot, cell), ..vm },
        FiberModel { frames: frames_with(fiber.frames, slot, cell), ..fiber },
    )
}

/// The state after a write: the written one, or the old one where it failed.
pub open spec fn after_write(
    vm: VmModel,
    fiber: FiberModel,
    written: Result<(VmModel, FiberModel), Trouble>,
) -> (VmModel, FiberModel) {
    match written {
        Ok(s) => s,
        Err(_) => (vm, fiber),
    }
}

/// The outcome of a write without the state.
pub open spec fn write_result(written: Result<(VmModel, FiberModel), Trouble>) -> Result<
    (),
    Trouble,
> {
    match written {
        Ok(_) => Ok(()),
        Err(e) => Err(e),
    }
}

/// A frame apart from its local variables.
pub open spec fn same_but_locals(a: FrameModel, b: FrameModel) -> bool {
    a == (FrameModel { locals: a.locals, ..b })
}

/// Numbers of variables, characters and frames that a machine can hold.
pub open spec fn machine_sized(vm: VmModel, fiber: FiberModel) -> bool {
    &&& vm.store.shared.len() <= usize::MAX
    &&& vm.store.statics.len() <= usize::MAX
    &&& vm.store.characters.len() <= usize::MAX
    &&& forall|c: int|
        0 <= c < vm.store.characters.len() ==> (#[trigger] vm.store.characters[c]).len()
            <= usize::MAX
    &&& fiber.frames.len() <= usize::MAX
    &&& forall|f: int|
        0 <= f < fiber.frames.len() ==> (#[trigger] fiber.frames[f]).locals.len() <= usize::MAX
}

/// A slot that was found names an array.
pub proof fn lemma_found_slot_exists(vm: VmModel, fiber: FiberModel, address: CellAddress)
    requires
        machine_sized(vm, fiber),
        slot_at(vm.store, fiber.frames, address) is Ok,
    ensures
        slot_exists(
            vm.store,
            fiber.frames,
            slot_at(vm.store, fiber.frames, address)->Ok_0,
        ),
{
    let p = memory::has_key(address.key);
    lookup::lemma_first_index(vm.store.shared, p);
    lookup::lemma_first_index(vm.store.statics, p);
    if let Some(c) = address.character {
        if c < vm.store.characters.len() {
            lookup::lemma_first_index(vm.store.characters[c as int], p);
        }
    }
    if let Some(id) = address.frame {
        lookup::lemma_first_index(fiber.frames, state::frame_is(id));
        if let Some(f) = lookup::first_index(fiber.frames, state::frame_is(id)) {
            lookup::lemma_first_index(fiber.frames[f].locals, p);
        }
    }
}

proof fn lemma_with_cell_keeps_slots(cells: memory::Cells, i: int, cell: Cell, key: value::SymbolKey)
    requires
        0 <= i < cells.len(),
    ensures
        memory::slot_of(memory::with_cell(cells, i, cell), key) == memory::slot_of(cells, key),
{
    lookup::lemma_first_same(memory::with_cell(cells, i, cell), cells, memory::has_key(key));
}

/// Replacing an array moves no array.
pub proof fn lemma_put_keeps_slots(
    vm: VmModel,
    fiber: FiberModel,
    slot: CellSlot,
    cell: Cell,
    address: CellAddress,
)
    requires
        slot_exists(vm.store, fiber.frames, slot),
    ensures
        ({
            let (v, f) = put_cell(vm, fiber, slot, cell);
            slot_at(v.store, f.frames, address) == slot_at(vm.store, fiber.frames, address)
        }),
{
    let (v, f) = put_cell(vm, fiber, slot, cell);
    match slot {
        CellSlot::Shared(i) => {
            lemma_with_cell_keeps_slots(vm.store.shared, i as int, cell, address.key);
        },
        CellSlot::Static(i) => {
            lemma_with_cell_keeps_slots(vm.store.statics, i as int, cell, address.key);
        },
        CellSlot::Character(c, i) => {
            lemma_with_cell_keeps_slots(
                vm.store.characters[c as int],
                i as int,
                cell,
                address.key,
            );
        },
        CellSlot::Local(g, i) => {
            lemma_with_cell_keeps_slots(
                fiber.frames[g as int].locals,
                i as int,
                cell,
                address.key,
            );
            if let Some(id) = address.frame {
                lookup::lemma_first_same(f.frames, fiber.frames, state::frame_is(id));
                lookup::lemma_first_index(fiber.frames, state::frame_is(id));
            }
        },
    }
}

/// Writing a place changes no frame but its local variables, and adds and removes none.
pub proof fn law_write_keeps_frames(vm: VmModel, fiber: FiberModel, place: Place, val: Val)
    requires
        fiber.frames.len() <= usize::MAX,
    ensures
        write_place(vm, fiber, place, val) matches Ok((v, f)) ==> {
            &&& f.frames.len() == fiber.frames.len()
            &&& f.id == fiber.id && f.state == fiber.state && f.backward == fiber.backward
            &&& forall|i: int|
                0 <= i < f.frames.len() ==> same_but_locals(#[trigger] f.frames[i], fiber.frames[i])
        },
{
    if let Ok(address) = place_address(vm, fiber, place) {
        if let Some(id) = address.frame {
            lookup::lemma_first_index(fiber.frames, state::frame_is(id));
        }
    }
}

/// A place names the same array after a write.
pub proof fn lemma_write_keeps_addresses(
    vm: VmModel,
    fiber: FiberModel,
    place: Place,
    val: Val,
    other: Place,
)
    requires
        machine_sized(vm, fiber),
        write_place(vm, fiber, place, val) is Ok,
    ensures
        ({
            let (v, f) = write_place(vm, fiber, place, val)->Ok_0;
            place_address(v, f, other) == place_address(vm, fiber, other)
        }),
{
    law_write_keeps_frames(vm, fiber, place, val);
    let (v, f) = write_place(vm, fiber, place, val)->Ok_0;
    if fiber.frames.len() > 0 {
        assert(same_but_locals(f.frames[f.frames.len() - 1], fiber.frames[f.frames.len() - 1]));
    }
}

/// Reading a place gives what was last written to it.
pub proof fn law_written_place_reads_back(vm: VmModel, fiber: FiberModel, place: Place, val: Val)
    requires
        machine_sized(vm, fiber),
        write_place(vm, fiber, place, val) is Ok,
    ensures
        ({
            let (v, f) = write_place(vm, fiber, place, val)->Ok_0;
            read_place(v, f, place) == Ok::<Val, Trouble>(val)
        }),
{
    let address = place_address(vm, fiber, place)->Ok_0;
    let (slot, cell) = write_at(vm.store, fiber.frames, address, place.indices, val)->Ok_0;
    lemma_found_slot_exists(vm, fiber, address);
    lemma_put_keeps_slots(vm, fiber, slot, cell, address);
    lemma_write_keeps_addresses(vm, fiber, place, val, place);
    let before = cell_in(vm.store, fiber.frames, slot);
    memory::lemma_row_major_grows(
        before.dimensions,
        place.indices,
        0,
        before.dimensions.len(),
    );
}

/// Writing a place leaves every other array position as it was.
pub proof fn law_write_leaves_other_places(
    vm: VmModel,
    fiber: FiberModel,
    place: Place,
    val: Val,
    other: Place,
)
    requires
        machine_sized(vm, fiber),
        write_place(vm, fiber, place, val) is Ok,
        read_place(vm, fiber, other) is Ok,
        ({
            let a = place_address(vm, fiber, place)->Ok_0;
            let b = place_address(vm, fiber, other)->Ok_0;
            let s = slot_at(vm.store, fiber.frames, a)->Ok_0;
            let t = slot_at(vm.store, fiber.frames, b)->Ok_0;
            s != t || cell_in(vm.store, fiber.frames, s).position(place.indices) != cell_in(
                vm.store,
                fiber.frames,
                t,
            ).position(other.indices)
        }),
    ensures
        ({
            let (v, f) = write_place(vm, fiber, place, val)->Ok_0;
            read_place(v, f, other) == read_place(vm, fiber, other)
        }),
{
    let a = place_address(vm, fiber, place)->Ok_0;
    let b = place_address(vm, fiber, other)->Ok_0;
    let (slot, cell) = write_at(vm.store, fiber.frames, a, place.indices, val)->Ok_0;
    lemma_found_slot_exists(vm, fiber, a);
    lemma_found_slot_exists(vm, fiber, b);
    lemma_put_keeps_slots(vm, fiber, slot, cell, b);
    lemma_write_keeps_addresses(vm, fiber, place, val, other);
    let s = slot_at(vm.store, fiber.frames, a)->Ok_0;
    let t = slot_at(vm.store, fiber.frames, b)->Ok_0;
    let before = cell_in(vm.store, fiber.frames, s);
    memory::lemma_row_major_grows(
        before.dimensions,
        place.indices,
        0,
        before.dimensions.len(),
    );
    let there = cell_in(vm.store, fiber.frames, t);
    memory::lemma_row_major_grows(there.dimensions, other.indices, 0, there.dimensions.len());
}

fn missing() -> (r: VmError)
    ensures
        r@ == missing_storage(),
{
    VmError::invalid_state("variable storage is missing")
}

pub(crate) fn find_frame(fiber: &Fiber, id: FrameId) -> (r: Option<usize>)
    ensures
        match r {
            Some(i) => i < fiber@.frames.len() && lookup::first_index(
                fiber@.frames,
                state::frame_is(id),
            ) == Some(i as int),
            None => lookup::first_index(fiber@.frames, state::frame_is(id)) is None,
        },
{
    let mut i: usize = 0;
    while i < fiber.frames.len()
        invariant
            i <= fiber.frames.len(),
            forall|j: int| 0 <= j < i ==> !state::frame_is(id)(#[trigger] fiber@.frames[j]),
        decreases fiber.frames.len() - i,
    {
        if fiber.frames[i].id == id {
            proof {
                lookup::lemma_first_found(fiber@.frames, state::frame_is(id), i as int);
            }
            return Some(i);
        }
        i = i + 1;
    }
    proof {
        lookup::lemma_first_none(fiber@.frames, state::frame_is(id));
    }
    None
}

/// Finds the array that an address names.
pub(crate) fn find_slot(memory: &Memory, fiber: &Fiber, address: CellAddress) -> (r: Result<CellSlot, VmError>)
    ensures
        match r {
            Ok(slot) => slot_at(memory@, fiber@.frames, address) == Ok::<CellSlot, Trouble>(slot)
                && slot_exists(memory@, fiber@.frames, slot),
            Err(e) => slot_at(memory@, fiber@.frames, address) == Err::<CellSlot, Trouble>(e@),
        },
{
    match address.storage {
        BytecodeStorage::Project | BytecodeStorage::Calculated => match memory.shared.find(
            address.key,
        ) {
            Some(i) => Ok(CellSlot::Shared(i)),
            None => Err(missing()),
        },
        BytecodeStorage::FunctionStatic => match memory.statics.find(address.key) {
            Some(i) => Ok(CellSlot::Static(i)),
            None => Err(missing()),
        },
        BytecodeStorage::Character => match address.character {
            None => Err(VmError::invalid_state("character index is missing")),
            Some(c) => {
                if c >= memory.characters.len() as u64 {
                    Err(VmError::bounds("character index is out of range"))
                } else {
                    match memory.characters[c as usize].find(address.key) {
                        Some(i) => Ok(CellSlot::Character(c as usize, i)),
                        None => Err(missing()),
                    }
                }
            },
        },
        BytecodeStorage::FunctionLocal => match address.frame {
            None => Err(VmError::invalid_state("local variable has no frame")),
            Some(id) => match find_frame(fiber, id) {
                None => Err(VmError::invalid_state("local frame is missing")),
                Some(f) => match fiber.frames[f].locals.find(address.key) {
                    Some(i) => Ok(CellSlot::Local(f, i)),
                    None => Err(missing()),
                },
            },
        },
    }
}

/// The array in a slot.
pub(crate) fn slot_cell<'a>(memory: &'a Memory, fiber: &'a Fiber, slot: CellSlot) -> (r: &'a VariableCell)
    requires
        slot_exists(memory@, fiber@.frames, slot),
    ensures
        r@ == cell_in(memory@, fiber@.frames, slot),
{
    match slot {
        CellSlot::Shared(i) => &memory.shared.entries[i].cell,
        CellSlot::Static(i) => &memory.statics.entries[i].cell,
        CellSlot::Character(c, i) => &memory.characters[c].entries[i].cell,
        CellSlot::Local(f, i) => &fiber.frames[f].locals.entries[i].cell,
    }
}

/// Replaces the array in a slot.
pub(crate) fn replace_cell(memory: &mut Memory, fiber: &mut Fiber, slot: CellSlot, cell: VariableCell)
    requires
        slot_exists(old(memory)@, old(fiber)@.frames, slot),
    ensures
        final(memory)@ == store_with(old(memory)@, slot, cell@),
        final(fiber)@ == (FiberModel {
            frames: frames_with(old(fiber)@.frames, slot, cell@),
            ..old(fiber)@
        }),
{
    match slot {
        CellSlot::Shared(i) => {
            let ghost entries = memory.shared.entries@;
            memory.shared.entries[i].cell = cell;
            proof {
                memory::lemma_entry_update(entries, i as int, memory.shared.entries@[i as int]);
            }
        },
        CellSlot::Static(i) => {
            let ghost entries = memory.statics.entries@;
            memory.statics.entries[i].cell = cell;
            proof {
                memory::lemma_entry_update(entries, i as int, memory.statics.entries@[i as int]);
            }
        },
        CellSlot::Character(c, i) => {
            let ghost before = memory.characters@;
            memory.characters[c].entries[i].cell = cell;
            proof {
                let after = memory.characters@;
                memory::lemma_entry_update(
                    before[c as int].entries@,
                    i as int,
                    after[c as int].entries@[i as int],
                );
                assert(state::character_views(after) =~= state::character_views(before).update(
                    c as int,
                    memory::with_cell(before[c as int]@, i as int, cell@),
                ));
            }
        },
        CellSlot::Local(f, i) => {
            let ghost before = fiber.frames@;
            fiber.frames[f].locals.entries[i].cell = cell;
            proof {
                let after = fiber.frames@;
                memory::lemma_entry_update(
                    before[f as int].locals.entries@,
                    i as int,
                    after[f as int].locals.entries@[i as int],
                );
                assert(state::frame_views(after) =~= frames_with(
                    state::frame_views(before),
                    slot,
                    cell@,
                ));
            }
        },
    }
}

impl Vm {
    /// Reads at an address.
    pub fn read_address(&self, fiber: &Fiber, address: CellAddress, indices: &[u64]) -> (r: Result<
        VmValue,
        VmError,
    >)
        ensures
            fault::result(r) == read_at(self@.store, fiber@.frames, address, indices@),
    {
        match find_slot(&self.memory, fiber, address) {
            Err(e) => Err(e),
            Ok(slot) => match slot_cell(&self.memory, fiber, slot).read(indices) {
                Ok(v) => Ok(v),
                Err(m) => Err(VmError::Bounds(m)),
            },
        }
    }

    /// Writes at an address.
    pub fn write_address(
        &mut self,
        fiber: &mut Fiber,
        address: CellAddress,
        indices: &[u64],
        value: VmValue,
    ) -> (r: Result<(), VmError>)
        ensures
            ({
                let written = write_address(
                    old(self)@,
                    old(fiber)@,
                    address,
                    indices@,
                    value@,
                );
                &&& fault::result(r) == write_result(written)
                &&& (final(self)@, final(fiber)@) == after_write(old(self)@, old(fiber)@, written)
            }),
    {
        match find_slot(&self.memory, &*fiber, address) {
            Err(e) => Err(e),
            Ok(slot) => {
                let mut cell = slot_cell(&self.memory, &*fiber, slot).clone();
                let ghost before = cell@;
                match cell.write(indices, value) {
                    Ok(_) => {
                        replace_cell(&mut self.memory, fiber, slot, cell);
                        Ok(())
                    },
                    Err(m) => {
                        if cell.read(indices).is_err() {
                            Err(VmError::Bounds(m))
                        } else {
                            Err(VmError::InvalidArguments(m))
                        }
                    },
                }
            },
        }
    }

    /// The address that a place names.
    pub fn resolve_place(&self, fiber: &Fiber, place: &PlaceDescriptor) -> (r: Result<
        CellAddress,
        VmError,
    >)
        ensures
            match r {
                Ok(a) => place_address(self@, fiber@, place@) == Ok::<CellAddress, Trouble>(a),
                Err(e) => place_address(self@, fiber@, place@) == Err::<CellAddress, Trouble>(e@),
            },
    {
        match place.backing {
            Some(id) => {
                let mut i: usize = 0;
                while i < self.memory.array_leases.len()
                    invariant
                        i <= self.memory.array_leases.len(),
                        place.backing == Some(id),
                        forall|j: int|
                            0 <= j < i ==> !state::lease_is(id)(
                                #[trigger] self.memory.array_leases@[j],
                            ),
                    decreases self.memory.array_leases.len() - i,
                {
                    if self.memory.array_leases[i].id == id {
                        proof {
                            lookup::lemma_first_found(
                                self.memory.array_leases@,
                                state::lease_is(id),
                                i as int,
                            );
                        }
                        return Ok(self.memory.array_leases[i].address);
                    }
                    i = i + 1;
                }
                proof {
                    lookup::lemma_first_none(self.memory.array_leases@, state::lease_is(id));
                }
                Err(VmError::invalid_state("array backing lease is missing"))
            },
            None => {
                if fiber.frames.len() == 0 {
                    return Err(VmError::invalid_state("place fiber has no frame"));
                }
                match self.program(fiber.top().generation) {
                    None => Err(VmError::invalid_state("place generation is missing")),
                    Some(program) => match program.global(place.variable) {
                        None => Err(VmError::invalid_state("place variable is missing")),
                        Some(g) => Ok(
                            CellAddress {
                                storage: g.storage,
                                key: g.key,
                                character: place.character,
                                frame: place.frame,
                            },
                        ),
                    },
                }
            },
        }
    }

    /// Reads a place.
    pub fn read_place(&self, fiber: &Fiber, place: &PlaceDescriptor) -> (r: Result<
        VmValue,
        VmError,
    >)
        ensures
            fault::result(r) == read_place(self@, fiber@, place@),
    {
        match self.resolve_place(fiber, place) {
            Err(e) => Err(e),
            Ok(address) => self.read_address(fiber, address, place.indices.as_slice()),
        }
    }

    /// Writes a place.
    pub fn write_place(&mut self, fiber: &mut Fiber, place: &PlaceDescriptor, value: VmValue) -> (r:
        Result<(), VmError>)
        ensures
            ({
                let written = write_place(old(self)@, old(fiber)@, place@, value@);
                &&& fault::result(r) == write_result(written)
                &&& (final(self)@, final(fiber)@) == after_write(old(self)@, old(fiber)@, written)
            }),
    {
        match self.resolve_place(&*fiber, place) {
            Err(e) => Err(e),
            Ok(address) => self.write_address(fiber, address, place.indices.as_slice(), value),
        }
    }

    /// Reads a variable.
    pub fn read_variable_resolved(
        &self,
        fiber: &Fiber,
        definition: &BytecodeGlobal,
        indices: &[u64],
        character: Option<u64>,
        frame: Option<FrameId>,
    ) -> (r: Result<VmValue, VmError>)
        ensures
            fault::result(r) == read_at(
                self@.store,
                fiber@.frames,
                variable_address(*definition, character, frame),
                indices@,
            ),
    {
        self.read_address(
            fiber,
            CellAddress { storage: definition.storage, key: definition.key, character, frame },
            indices,
        )
    }

    /// Writes a variable.
    pub fn write_variable_resolved(
        &mut self,
        fiber: &mut Fiber,
        definition: &BytecodeGlobal,
        indices: &[u64],
        character: Option<u64>,
        frame: Option<FrameId>,
        value: VmValue,
    ) -> (r: Result<(), VmError>)
        ensures
            ({
                let written = write_address(
                    old(self)@,
                    old(fiber)@,
                    variable_address(*definition, character, frame),
                    indices@,
                    value@,
                );
                &&& fault::result(r) == write_result(written)
                &&& (final(self)@, final(fiber)@) == after_write(old(self)@, old(fiber)@, written)
            }),
    {
        self.write_address(
            fiber,
            CellAddress { storage: definition.storage, key: definition.key, character, frame },
            indices,
            value,
        )
    }
}

} // verus!
