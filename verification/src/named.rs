//! Variables that the machine itself knows by name.

use vstd::prelude::*;
use crate::fault::{self, Trouble, VmError};
use crate::lookup;
use crate::memory::{self, BytecodeStorage};
use crate::program::{BytecodeGlobal, ProgramGeneration};
use crate::state::{Memory, Store, Vm, VmModel};
use crate::text;
use crate::value::{GenerationId, Val, VmValue};

verus! {

pub open spec fn shared_named(name: Seq<char>) -> spec_fn(BytecodeGlobal) -> bool {
    |g: BytecodeGlobal|
        g.owner is None && (g.storage is Project || g.storage is Calculated)
            && text::same_ignoring_case(g.name@, name)
}

pub open spec fn character_named(name: Seq<char>) -> spec_fn(BytecodeGlobal) -> bool {
    |g: BytecodeGlobal|
        g.owner is None && g.storage is Character && text::same_ignoring_case(g.name@, name)
}

/// The shared variable with a name.
pub open spec fn shared_global(program: ProgramGeneration, name: Seq<char>) -> Option<
    BytecodeGlobal,
> {
    match lookup::first_index(program.globals@, shared_named(name)) {
        Some(i) => Some(program.globals@[i]),
        None => None,
    }
}

/// The character variable with a name.
pub open spec fn character_global(program: ProgramGeneration, name: Seq<char>) -> Option<
    BytecodeGlobal,
> {
    match lookup::first_index(program.globals@, character_named(name)) {
        Some(i) => Some(program.globals@[i]),
        None => None,
    }
}

/// Finds the shared variable with a name.
pub fn shared_definition<'a>(program: &'a ProgramGeneration, name: &str) -> (r: Option<
    &'a BytecodeGlobal,
>)
    ensures
        match r {
            Some(g) => shared_global(*program, name@) == Some(*g),
            None => shared_global(*program, name@) is None,
        },
{
    let mut i: usize = 0;
    while i < program.globals.len()
        invariant
            i <= program.globals.len(),
            forall|j: int| 0 <= j < i ==> !shared_named(name@)(#[trigger] program.globals@[j]),
        decreases program.globals.len() - i,
    {
        let g = &program.globals[i];
        let stored: bool = match g.storage {
            BytecodeStorage::Project | BytecodeStorage::Calculated => true,
            _ => false,
        };
        if g.owner.is_none() && stored && text::eq_ignore_ascii_case(g.name.as_str(), name) {
            proof {
                lookup::lemma_first_found(program.globals@, shared_named(name@), i as int);
            }
            return Some(g);
        }
        i = i + 1;
    }
    None
}

/// Finds the character variable with a name.
pub fn character_definition<'a>(program: &'a ProgramGeneration, name: &str) -> (r: Option<
    &'a BytecodeGlobal,
>)
    ensures
        match r {
            Some(g) => character_global(*program, name@) == Some(*g),
            None => character_global(*program, name@) is None,
        },
{
    let mut i: usize = 0;
    while i < program.globals.len()
        invariant
            i <= program.globals.len(),
            forall|j: int| 0 <= j < i ==> !character_named(name@)(#[trigger] program.globals@[j]),
        decreases program.globals.len() - i,
    {
        let g = &program.globals[i];
        if g.owner.is_none() && g.storage == BytecodeStorage::Character
            && text::eq_ignore_ascii_case(g.name.as_str(), name) {
            proof {
                lookup::lemma_first_found(program.globals@, character_named(name@), i as int);
            }
            return Some(g);
        }
        i = i + 1;
    }
    None
}

/// The integer that a shared variable holds first.
pub open spec fn named_integer(program: ProgramGeneration, store: Store, name: Seq<char>) -> Option<
    i64,
> {
    match shared_global(program, name) {
        None => None,
        Some(g) => match memory::cell_of(store.shared, g.key) {
            None => None,
            Some(cell) => match cell.first() {
                Some(Val::Integer(n)) => Some(n),
                _ => None,
            },
        },
    }
}

pub fn read_named_integer(program: &ProgramGeneration, memory: &Memory, name: &str) -> (r: Option<
    i64,
>)
    ensures
        r == named_integer(*program, memory@, name@),
{
    match shared_definition(program, name) {
        None => None,
        Some(g) => match memory.shared.get(g.key) {
            None => None,
            Some(cell) => match cell.first() {
                Some(VmValue::Integer(n)) => Some(n),
                _ => None,
            },
        },
    }
}

pub open spec fn undefined_name(name: Seq<char>) -> Trouble {
    Trouble::InvalidState(name + " is not defined"@)
}

pub open spec fn unavailable_name(name: Seq<char>) -> Trouble {
    Trouble::InvalidState(name + " storage is unavailable"@)
}

/// Storage after a named integer was written.
pub open spec fn named_written(
    program: ProgramGeneration,
    store: Store,
    name: Seq<char>,
    n: i64,
) -> Result<Store, Trouble> {
    match shared_global(program, name) {
        None => Err(undefined_name(name)),
        Some(g) => match memory::slot_of(store.shared, g.key) {
            None => Err(unavailable_name(name)),
            Some(i) => match store.shared[i].1.set(0, Val::Integer(n)) {
                Ok(cell) => Ok(
                    Store { shared: memory::with_cell(store.shared, i, cell), ..store },
                ),
                Err(m) => Err(Trouble::InvalidState(m)),
            },
        },
    }
}

pub fn write_named_integer(
    program: &ProgramGeneration,
    memory: &mut Memory,
    name: &str,
    n: i64,
) -> (r: Result<(), VmError>)
    ensures
        match r {
            Ok(_) => named_written(*program, old(memory)@, name@, n) == Ok::<Store, Trouble>(
                final(memory)@,
            ),
            Err(e) => named_written(*program, old(memory)@, name@, n) == Err::<Store, Trouble>(e@)
                && final(memory)@ == old(memory)@,
        },
{
    match shared_definition(program, name) {
        None => Err(VmError::InvalidState(text::join2(name, " is not defined"))),
        Some(g) => match memory.shared.find(g.key) {
            None => Err(VmError::InvalidState(text::join2(name, " storage is unavailable"))),
            Some(i) => {
                let ghost before = memory.shared.entries@;
                let mut cell = memory.shared.entries[i].cell.clone();
                match cell.set(0, VmValue::Integer(n)) {
                    Ok(_) => {
                        memory.shared.entries[i].cell = cell;
                        proof {
                            memory::lemma_entry_update(
                                before,
                                i as int,
                                memory.shared.entries@[i as int],
                            );
                        }
                        Ok(())
                    },
                    Err(m) => Err(VmError::InvalidState(m)),
                }
            },
        },
    }
}

/// Whether a named integer has a place to be written to.
pub open spec fn named_slot(program: ProgramGeneration, store: Store, name: Seq<char>) -> Result<
    (),
    Trouble,
> {
    match shared_global(program, name) {
        None => Err(undefined_name(name)),
        Some(g) => match memory::cell_of(store.shared, g.key) {
            None => Err(unavailable_name(name)),
            Some(cell) => if cell.data.len() > 0 {
                Ok(())
            } else {
                Err(unavailable_name(name))
            },
        },
    }
}

pub fn validate_named_integer_slot(program: &ProgramGeneration, memory: &Memory, name: &str) -> (r:
    Result<(), VmError>)
    ensures
        fault::result(r) == named_slot(*program, memory@, name@),
{
    match shared_definition(program, name) {
        None => Err(VmError::InvalidState(text::join2(name, " is not defined"))),
        Some(g) => match memory.shared.get(g.key) {
            None => Err(VmError::InvalidState(text::join2(name, " storage is unavailable"))),
            Some(cell) => if cell.len() > 0 {
                Ok(())
            } else {
                Err(VmError::InvalidState(text::join2(name, " storage is unavailable")))
            },
        },
    }
}

/// The character that character variables mean when none is named.
pub open spec fn target_character(vm: VmModel, generation: GenerationId) -> u64 {
    match vm.program(generation) {
        None => 0,
        Some(program) => match named_integer(program, vm.store, "TARGET"@) {
            None => 0,
            Some(n) => if n >= 0 {
                n as u64
            } else {
                u64::MAX
            },
        },
    }
}

impl Vm {
    /// The character that character variables mean when none is named.
    pub fn target_character_for_generation(&self, generation: GenerationId) -> (r: u64)
        ensures
            r == target_character(self@, generation),
    {
        match self.program(generation) {
            None => 0,
            Some(program) => match read_named_integer(&*program, &self.memory, "TARGET") {
                None => 0,
                Some(n) => if n >= 0 {
                    n as u64
                } else {
                    u64::MAX
                },
            },
        }
    }
}

/// A named integer that was written is the one that is read.
pub proof fn law_named_integer_reads_back(
    program: ProgramGeneration,
    store: Store,
    name: Seq<char>,
    n: i64,
)
    requires
        named_written(program, store, name, n) is Ok,
    ensures
        named_integer(program, named_written(program, store, name, n)->Ok_0, name) == Some(n),
{
    let g = shared_global(program, name)->Some_0;
    let after = named_written(program, store, name, n)->Ok_0;
    lookup::lemma_first_index(store.shared, memory::has_key(g.key));
    lookup::lemma_first_same(after.shared, store.shared, memory::has_key(g.key));
}

} // verus!
