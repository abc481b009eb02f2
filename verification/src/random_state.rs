//! Exchange of the random generator's state with a variable.

use vstd::prelude::*;
use crate::lookup;
use crate::memory::{self, BytecodeStorage, CellData, Data};
use crate::program::{self, BytecodeGlobal, ProgramGeneration};
use crate::state::{Memory, Store};
use crate::value::{BytecodeType, SymbolKey};

verus! {

/// Number of words of the generator's state.
pub const RANDOM_STATE_WORDS: u64 = 625;

/// Where the variable of the generator's state stands, where it has the right shape.
pub open spec fn state_variable(program: ProgramGeneration) -> Result<BytecodeGlobal, Seq<char>> {
    match program.spec_global_by_name("RANDDATA"@) {
        None => Err("RANDDATA is not defined"@),
        Some(g) => if !(g.storage is Project) || !(g.value_type is Integer) || g.dimensions@
            != seq![RANDOM_STATE_WORDS] {
            Err("RANDDATA must be a mutable one-dimensional integer[625] variable"@)
        } else {
            Ok(*g)
        },
    }
}

/// The state in memory.
pub open spec fn stored_state(program: ProgramGeneration, store: Store) -> Result<
    Seq<i64>,
    Seq<char>,
> {
    match state_variable(program) {
        Err(e) => Err(e),
        Ok(g) => match memory::cell_of(store.shared, g.key) {
            None => Err("RANDDATA storage is unavailable"@),
            Some(cell) => match cell.data {
                Data::Integers(v) => Ok(v),
                Data::Texts(_) => Err("RANDDATA contains a non-integer value"@),
            },
        },
    }
}

/// Memory after a state was stored in it.
pub open spec fn with_state(program: ProgramGeneration, store: Store, words: Seq<i64>) -> Result<
    Store,
    Seq<char>,
> {
    match state_variable(program) {
        Err(e) => Err(e),
        Ok(g) => match memory::slot_of(store.shared, g.key) {
            None => Err("RANDDATA storage is unavailable"@),
            Some(i) => match store.shared[i].1.data {
                Data::Integers(v) => if v.len() != words.len() {
                    Err("RANDDATA storage changed during DUMPRAND"@)
                } else {
                    Ok(
                        Store {
                            shared: memory::with_cell(
                                store.shared,
                                i,
                                memory::Cell {
                                    dimensions: store.shared[i].1.dimensions,
                                    data: Data::Integers(words),
                                },
                            ),
                            ..store
                        },
                    )
                },
                Data::Texts(_) => Err("RANDDATA contains a non-integer value"@),
            },
        },
    }
}

fn find_state_variable(program: &ProgramGeneration) -> (r: Result<SymbolKey, String>)
    ensures
        match r {
            Ok(k) => state_variable(*program) matches Ok(g) && g.key == k,
            Err(e) => state_variable(*program) == Err::<BytecodeGlobal, Seq<char>>(e@),
        },
{
    match program.global_by_name("RANDDATA") {
        None => Err("RANDDATA is not defined".to_owned()),
        Some(g) => {
            if g.storage != BytecodeStorage::Project || g.value_type != BytecodeType::Integer
                || g.dimensions.len() != 1 || g.dimensions[0] != RANDOM_STATE_WORDS {
                assert(g.dimensions@ != seq![RANDOM_STATE_WORDS] || g.storage
                    != BytecodeStorage::Project || g.value_type != BytecodeType::Integer);
                return Err(
                    "RANDDATA must be a mutable one-dimensional integer[625] variable".to_owned(),
                );
            }
            assert(g.dimensions@ =~= seq![RANDOM_STATE_WORDS]);
            Ok(g.key)
        },
    }
}

/// What an exchange does: INITRAND hands out the state in memory, DUMPRAND stores the generator's.
pub open spec fn exchanged(
    program: ProgramGeneration,
    store: Store,
    initializes: bool,
    generator: Result<Seq<i64>, Seq<char>>,
) -> (Store, Result<Option<Seq<i64>>, Seq<char>>) {
    if initializes {
        (
            store,
            match stored_state(program, store) {
                Ok(v) => Ok(Some(v)),
                Err(e) => Err(e),
            },
        )
    } else {
        match state_variable(program) {
            Err(e) => (store, Err(e)),
            Ok(_) => match generator {
                Err(e) => (store, Err(e)),
                Ok(words) => match with_state(program, store, words) {
                    Ok(s) => (s, Ok(None)),
                    Err(e) => (store, Err(e)),
                },
            },
        }
    }
}

pub open spec fn words_result(r: Result<Vec<i64>, String>) -> Result<Seq<i64>, Seq<char>> {
    match r {
        Ok(v) => Ok(v@),
        Err(e) => Err(e@),
    }
}

pub open spec fn exchange_result(r: Result<Option<Vec<i64>>, String>) -> Result<
    Option<Seq<i64>>,
    Seq<char>,
> {
    match r {
        Ok(Some(v)) => Ok(Some(v@)),
        Ok(None) => Ok(None),
        Err(e) => Err(e@),
    }
}

/// Exchanges the state of the random generator with memory. For INITRAND the answer is the state to
/// hand to the generator; for DUMPRAND `generator` is the state that the generator gave.
pub fn execute_random_place_transaction(
    memory: &mut Memory,
    program: &ProgramGeneration,
    initializes: bool,
    generator: Result<Vec<i64>, String>,
) -> (r: Result<Option<Vec<i64>>, String>)
    ensures
        (final(memory)@, exchange_result(r)) == exchanged(
            *program,
            old(memory)@,
            initializes,
            words_result(generator),
        ),
{
    let key = match find_state_variable(program) {
        Ok(k) => k,
        Err(e) => {
            return Err(e);
        },
    };
    if initializes {
        return match memory.shared.get(key) {
            None => Err("RANDDATA storage is unavailable".to_owned()),
            Some(cell) => match &cell.data {
                CellData::Integers(v) => Ok(Some(memory::copy_integers(v))),
                CellData::Strings(_) => Err("RANDDATA contains a non-integer value".to_owned()),
            },
        };
    }
    let words = match generator {
        Ok(v) => v,
        Err(e) => {
            return Err(e);
        },
    };
    let i: usize = match memory.shared.find(key) {
        None => {
            return Err("RANDDATA storage is unavailable".to_owned());
        },
        Some(i) => i,
    };
    match &memory.shared.entries[i].cell.data {
        CellData::Integers(v) => {
            if v.len() != words.len() {
                return Err("RANDDATA storage changed during DUMPRAND".to_owned());
            }
        },
        CellData::Strings(_) => {
            return Err("RANDDATA contains a non-integer value".to_owned());
        },
    }
    let ghost before = memory.shared.entries@;
    memory.shared.entries[i].cell.data = CellData::Integers(words);
    proof {
        memory::lemma_entry_update(before, i as int, memory.shared.entries@[i as int]);
    }
    Ok(None)
}

/// A state that was stored is the one that is handed out again.
pub proof fn law_stored_state_comes_back(
    program: ProgramGeneration,
    store: Store,
    words: Seq<i64>,
)
    requires
        exchanged(program, store, false, Ok(words)).1 is Ok,
    ensures
        ({
            let after = exchanged(program, store, false, Ok(words)).0;
            exchanged(program, after, true, Ok(words)).1 == Ok::<Option<Seq<i64>>, Seq<char>>(
                Some(words),
            )
        }),
{
    let g = state_variable(program)->Ok_0;
    let after = exchanged(program, store, false, Ok(words)).0;
    lookup::lemma_first_index(store.shared, memory::has_key(g.key));
    lookup::lemma_first_same(after.shared, store.shared, memory::has_key(g.key));
}

} // verus!
