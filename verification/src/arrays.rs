//! Whole arrays behind places, and arguments of array operations.

use vstd::prelude::*;
use crate::fault::{self, Trouble, VmError};
use crate::memory::{self, Cell, CellData, Data, VariableCell};
use crate::places;
use crate::state::{Fiber, FiberModel, Vm, VmModel};
use crate::text;
use crate::value::{self, Place, PlaceDescriptor, Val, VmValue};

verus! {

/// All values of the array behind a place.
pub open spec fn place_values(vm: VmModel, fiber: FiberModel, place: Place) -> Result<
    Seq<Val>,
    Trouble,
> {
    match places::place_address(vm, fiber, place) {
        Err(e) => Err(e),
        Ok(address) => match places::slot_at(vm.store, fiber.frames, address) {
            Err(e) => Err(e),
            Ok(slot) => Ok(places::cell_in(vm.store, fiber.frames, slot).data.all()),
        },
    }
}

/// All values are integers.
pub open spec fn all_integers(values: Seq<Val>) -> bool {
    forall|i: int| 0 <= i < values.len() ==> (#[trigger] values[i]) is Integer
}

/// All values are texts.
pub open spec fn all_texts(values: Seq<Val>) -> bool {
    forall|i: int| 0 <= i < values.len() ==> (#[trigger] values[i]) is Text
}

/// An array with all its values replaced.
pub open spec fn refilled(cell: Cell, values: Seq<Val>) -> Result<Cell, Trouble> {
    if values.len() != cell.data.len() {
        Err(Trouble::InvalidState("array length differs from its storage"@))
    } else {
        match cell.data {
            Data::Integers(_) => if all_integers(values) {
                Ok(
                    Cell {
                        dimensions: cell.dimensions,
                        data: Data::Integers(
                            Seq::new(values.len(), |i: int| values[i]->Integer_0),
                        ),
                    },
                )
            } else {
                Err(Trouble::InvalidArguments("array value types differ from its storage"@))
            },
            Data::Texts(_) => if all_texts(values) {
                Ok(
                    Cell {
                        dimensions: cell.dimensions,
                        data: Data::Texts(Seq::new(values.len(), |i: int| values[i]->Text_0)),
                    },
                )
            } else {
                Err(Trouble::InvalidArguments("array value types differ from its storage"@))
            },
        }
    }
}

/// What replacing all values of the array behind a place leaves.
pub open spec fn array_written(vm: VmModel, fiber: FiberModel, place: Place, values: Seq<Val>) -> Result<
    (VmModel, FiberModel),
    Trouble,
> {
    match places::place_address(vm, fiber, place) {
        Err(e) => Err(e),
        Ok(address) => match places::slot_at(vm.store, fiber.frames, address) {
            Err(e) => Err(e),
            Ok(slot) => match refilled(
                places::cell_in(vm.store, fiber.frames, slot),
                values,
            ) {
                Err(e) => Err(e),
                Ok(cell) => Ok(places::put_cell(vm, fiber, slot, cell)),
            },
        },
    }
}

fn collect_integers(values: &Vec<VmValue>) -> (r: Option<Vec<i64>>)
    ensures
        match r {
            Some(v) => all_integers(value::vals(values@)) && v@ == Seq::new(
                values@.len(),
                |i: int| value::vals(values@)[i]->Integer_0,
            ),
            None => !all_integers(value::vals(values@)),
        },
{
    let mut out: Vec<i64> = Vec::new();
    let mut i: usize = 0;
    while i < values.len()
        invariant
            i <= values.len(),
            out@.len() == i,
            forall|j: int|
                0 <= j < i ==> (#[trigger] value::vals(values@)[j]) is Integer && out@[j]
                    == value::vals(values@)[j]->Integer_0,
        decreases values.len() - i,
    {
        match &values[i] {
            VmValue::Integer(n) => {
                out.push(*n);
            },
            _ => {
                assert(!(value::vals(values@)[i as int] is Integer));
                return None;
            },
        }
        i = i + 1;
    }
    assert(out@ =~= Seq::new(values@.len(), |i: int| value::vals(values@)[i]->Integer_0));
    Some(out)
}

fn collect_texts(values: &Vec<VmValue>) -> (r: Option<Vec<String>>)
    ensures
        match r {
            Some(v) => all_texts(value::vals(values@)) && memory::texts(v@) == Seq::new(
                values@.len(),
                |i: int| value::vals(values@)[i]->Text_0,
            ),
            None => !all_texts(value::vals(values@)),
        },
{
    let mut out: Vec<String> = Vec::new();
    let mut i: usize = 0;
    while i < values.len()
        invariant
            i <= values.len(),
            out@.len() == i,
            forall|j: int|
                0 <= j < i ==> (#[trigger] value::vals(values@)[j]) is Text && out@[j]@
                    == value::vals(values@)[j]->Text_0,
        decreases values.len() - i,
    {
        match &values[i] {
            VmValue::String(t) => {
                out.push(t.clone());
            },
            _ => {
                assert(!(value::vals(values@)[i as int] is Text));
                return None;
            },
        }
        i = i + 1;
    }
    assert(memory::texts(out@) =~= Seq::new(
        values@.len(),
        |i: int| value::vals(values@)[i]->Text_0,
    ));
    Some(out)
}

fn refill(cell: &VariableCell, values: &Vec<VmValue>) -> (r: Result<VariableCell, VmError>)
    ensures
        match r {
            Ok(c) => refilled(cell@, value::vals(values@)) == Ok::<Cell, Trouble>(c@),
            Err(e) => refilled(cell@, value::vals(values@)) == Err::<Cell, Trouble>(e@),
        },
{
    if values.len() != cell.len() {
        return Err(VmError::invalid_state("array length differs from its storage"));
    }
    let data = match &cell.data {
        CellData::Integers(_) => match collect_integers(values) {
            Some(v) => CellData::Integers(v),
            None => {
                return Err(
                    VmError::invalid_arguments("array value types differ from its storage"),
                );
            },
        },
        CellData::Strings(_) => match collect_texts(values) {
            Some(v) => CellData::Strings(v),
            None => {
                return Err(
                    VmError::invalid_arguments("array value types differ from its storage"),
                );
            },
        },
    };
    Ok(VariableCell { dimensions: value::copy_indices(&cell.dimensions), data })
}

impl Vm {
    /// All values of the array behind a place.
    pub fn read_place_array(&self, fiber: &Fiber, place: &PlaceDescriptor) -> (r: Result<
        Vec<VmValue>,
        VmError,
    >)
        ensures
            match r {
                Ok(v) => place_values(self@, fiber@, place@) == Ok::<Seq<Val>, Trouble>(
                    value::vals(v@),
                ),
                Err(e) => place_values(self@, fiber@, place@) == Err::<Seq<Val>, Trouble>(e@),
            },
    {
        match self.resolve_place(fiber, place) {
            Err(e) => Err(e),
            Ok(address) => match places::find_slot(&self.memory, fiber, address) {
                Err(e) => Err(e),
                Ok(slot) => Ok(places::slot_cell(&self.memory, fiber, slot).values()),
            },
        }
    }

    /// Replaces all values of the array behind a place.
    pub fn write_place_array(
        &mut self,
        fiber: &mut Fiber,
        place: &PlaceDescriptor,
        values: &Vec<VmValue>,
    ) -> (r: Result<(), VmError>)
        ensures
            ({
                let written = array_written(
                    old(self)@,
                    old(fiber)@,
                    place@,
                    value::vals(values@),
                );
                &&& fault::result(r) == places::write_result(written)
                &&& (final(self)@, final(fiber)@) == places::after_write(
                    old(self)@,
                    old(fiber)@,
                    written,
                )
            }),
    {
        match self.resolve_place(&*fiber, place) {
            Err(e) => Err(e),
            Ok(address) => match places::find_slot(&self.memory, &*fiber, address) {
                Err(e) => Err(e),
                Ok(slot) => {
                    match refill(places::slot_cell(&self.memory, &*fiber, slot), values) {
                        Err(e) => Err(e),
                        Ok(cell) => {
                            places::replace_cell(&mut self.memory, fiber, slot, cell);
                            Ok(())
                        },
                    }
                },
            },
        }
    }
}

/// The integer in an argument position.
pub open spec fn integer_at(arguments: Seq<Val>, index: int) -> Result<i64, Trouble> {
    if index >= arguments.len() {
        Err(Trouble::InvalidArguments("integer argument is missing"@))
    } else {
        match arguments[index] {
            Val::Integer(n) => Ok(n),
            _ => Err(Trouble::InvalidArguments("argument must be an integer"@)),
        }
    }
}

pub fn integer_argument(arguments: &Vec<VmValue>, index: usize) -> (r: Result<i64, VmError>)
    ensures
        fault::result(r) == integer_at(value::vals(arguments@), index as int),
{
    if index >= arguments.len() {
        return Err(VmError::invalid_arguments("integer argument is missing"));
    }
    match &arguments[index] {
        VmValue::Integer(n) => Ok(*n),
        _ => Err(VmError::invalid_arguments("argument must be an integer")),
    }
}

/// An integer in an argument position that differs from zero.
pub open spec fn flag_at(arguments: Seq<Val>, index: int) -> bool {
    index < arguments.len() && (arguments[index] matches Val::Integer(n) && n != 0)
}

pub fn flag_argument(arguments: &Vec<VmValue>, index: usize) -> (r: bool)
    ensures
        r == flag_at(value::vals(arguments@), index as int),
{
    if index >= arguments.len() {
        return false;
    }
    match &arguments[index] {
        VmValue::Integer(n) => *n != 0,
        _ => false,
    }
}

/// The place in an argument position.
pub open spec fn place_at(arguments: Seq<Val>, index: int) -> Result<Place, Trouble> {
    if index >= arguments.len() {
        Err(Trouble::InvalidArguments("array argument must be a place"@))
    } else {
        match arguments[index] {
            Val::IntegerPlace(p) => Ok(p),
            Val::StringPlace(p) => Ok(p),
            _ => Err(Trouble::InvalidArguments("array argument must be a place"@)),
        }
    }
}

pub fn array_place(arguments: &Vec<VmValue>, index: usize) -> (r: Result<&PlaceDescriptor, VmError>)
    ensures
        match r {
            Ok(p) => place_at(value::vals(arguments@), index as int) == Ok::<Place, Trouble>(p@),
            Err(e) => place_at(value::vals(arguments@), index as int) == Err::<Place, Trouble>(e@),
        },
{
    if index >= arguments.len() {
        return Err(VmError::invalid_arguments("array argument must be a place"));
    }
    match &arguments[index] {
        VmValue::IntegerPlace(p) => Ok(&**p),
        VmValue::StringPlace(p) => Ok(&**p),
        _ => Err(VmError::invalid_arguments("array argument must be a place")),
    }
}

/// A position in an argument position, or another one where it is left out.
pub open spec fn position_at(
    arguments: Seq<Val>,
    index: int,
    otherwise: int,
    operation: Seq<char>,
) -> Result<int, Trouble> {
    if index >= arguments.len() {
        Ok(otherwise)
    } else {
        match arguments[index] {
            Val::Integer(n) => if 0 <= n <= usize::MAX {
                Ok(n as int)
            } else {
                Err(Trouble::InvalidArguments(operation + " index is out of range"@))
            },
            _ => Err(Trouble::InvalidArguments(operation + " index must be an integer"@)),
        }
    }
}

pub fn optional_index(
    arguments: &Vec<VmValue>,
    index: usize,
    otherwise: usize,
    operation: &str,
) -> (r: Result<usize, VmError>)
    ensures
        match r {
            Ok(n) => position_at(
                value::vals(arguments@),
                index as int,
                otherwise as int,
                operation@,
            ) == Ok::<int, Trouble>(n as int),
            Err(e) => position_at(
                value::vals(arguments@),
                index as int,
                otherwise as int,
                operation@,
            ) == Err::<int, Trouble>(e@),
        },
{
    if index >= arguments.len() {
        return Ok(otherwise);
    }
    match &arguments[index] {
        VmValue::Integer(n) => {
            if *n >= 0 && *n as u64 <= usize::MAX as u64 {
                Ok(*n as usize)
            } else {
                Err(VmError::InvalidArguments(text::join2(operation, " index is out of range")))
            }
        },
        _ => Err(VmError::InvalidArguments(text::join2(operation, " index must be an integer"))),
    }
}

/// Reading a whole array gives what was last written to it as a whole.
pub proof fn law_written_array_reads_back(
    vm: VmModel,
    fiber: FiberModel,
    place: Place,
    values: Seq<Val>,
)
    requires
        places::machine_sized(vm, fiber),
        array_written(vm, fiber, place, values) is Ok,
    ensures
        ({
            let (v, f) = array_written(vm, fiber, place, values)->Ok_0;
            place_values(v, f, place) == Ok::<Seq<Val>, Trouble>(values)
        }),
{
    let address = places::place_address(vm, fiber, place)->Ok_0;
    let slot = places::slot_at(vm.store, fiber.frames, address)->Ok_0;
    let cell = refilled(places::cell_in(vm.store, fiber.frames, slot), values)->Ok_0;
    places::lemma_found_slot_exists(vm, fiber, address);
    places::lemma_put_keeps_slots(vm, fiber, slot, cell, address);
    let (v, f) = array_written(vm, fiber, place, values)->Ok_0;
    if fiber.frames.len() > 0 {
        assert(places::same_but_locals(f.top(), fiber.top()));
    }
    assert(cell.data.all() =~= values);
}

} // verus!
