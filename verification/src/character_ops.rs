//! Adding, removing, sorting and selecting characters.

use vstd::prelude::*;
use crate::arrays;
use crate::character_query;
use crate::fastpaths;
use crate::fault::{self, Trouble, VmError};
use crate::lookup;
use crate::memory::{self, BytecodeStorage, Cell, CellData, CellMap, Cells, Data};
use crate::named;
use crate::program::{CharacterTemplate, ProgramGeneration};
use crate::sorting;
use crate::state::{self, Memory, Store, Vm, VmModel};
use crate::text;
use crate::value::{self, Place, PlaceDescriptor, SymbolKey, Val, VmValue};

verus! {

/// What is done to the characters.
#[derive(Clone, Copy, PartialEq, Eq, Debug, Structural)]
pub enum CharacterMutation {
    AddChara,
    AddSpChara,
    AddDefChara,
    AddVoidChara,
    DelChara,
    DelAllChara,
    SwapChara,
    CopyChara,
    AddCopyChara,
    PickupChara,
    SortChara,
    ResetStain,
}

/// The mutation that an operation name means.
pub open spec fn mutation_named(name: Seq<char>) -> Option<CharacterMutation> {
    if name == "pickupchara"@ {
        Some(CharacterMutation::PickupChara)
    } else if name == "sortchara"@ {
        Some(CharacterMutation::SortChara)
    } else if name == "addchara"@ {
        Some(CharacterMutation::AddChara)
    } else if name == "addspchara"@ {
        Some(CharacterMutation::AddSpChara)
    } else if name == "adddefchara"@ {
        Some(CharacterMutation::AddDefChara)
    } else if name == "addvoidchara"@ {
        Some(CharacterMutation::AddVoidChara)
    } else if name == "delchara"@ {
        Some(CharacterMutation::DelChara)
    } else if name == "delallchara"@ {
        Some(CharacterMutation::DelAllChara)
    } else if name == "swapchara"@ {
        Some(CharacterMutation::SwapChara)
    } else if name == "copychara"@ {
        Some(CharacterMutation::CopyChara)
    } else if name == "addcopychara"@ {
        Some(CharacterMutation::AddCopyChara)
    } else if name == "reset_stain"@ {
        Some(CharacterMutation::ResetStain)
    } else {
        None
    }
}

pub(crate) fn parse_mutation(name: &str) -> (r: Option<CharacterMutation>)
    ensures
        r == mutation_named(name@),
{
    if text::same_text(name, "pickupchara") {
        Some(CharacterMutation::PickupChara)
    } else if text::same_text(name, "sortchara") {
        Some(CharacterMutation::SortChara)
    } else if text::same_text(name, "addchara") {
        Some(CharacterMutation::AddChara)
    } else if text::same_text(name, "addspchara") {
        Some(CharacterMutation::AddSpChara)
    } else if text::same_text(name, "adddefchara") {
        Some(CharacterMutation::AddDefChara)
    } else if text::same_text(name, "addvoidchara") {
        Some(CharacterMutation::AddVoidChara)
    } else if text::same_text(name, "delchara") {
        Some(CharacterMutation::DelChara)
    } else if text::same_text(name, "delallchara") {
        Some(CharacterMutation::DelAllChara)
    } else if text::same_text(name, "swapchara") {
        Some(CharacterMutation::SwapChara)
    } else if text::same_text(name, "copychara") {
        Some(CharacterMutation::CopyChara)
    } else if text::same_text(name, "addcopychara") {
        Some(CharacterMutation::AddCopyChara)
    } else if text::same_text(name, "reset_stain") {
        Some(CharacterMutation::ResetStain)
    } else {
        None
    }
}

/// Characters with one more behind them.
fn push_character(characters: &mut Vec<CellMap>, character: CellMap)
    ensures
        state::character_views(final(characters)@) == state::character_views(
            old(characters)@,
        ).push(character@),
{
    characters.push(character);
    assert(state::character_views(characters@) =~= state::character_views(old(characters)@).push(
        character@,
    ));
}

/// A copy of all characters.
fn copy_characters(characters: &Vec<CellMap>) -> (r: Vec<CellMap>)
    ensures
        state::character_views(r@) == state::character_views(characters@),
{
    let mut out: Vec<CellMap> = Vec::new();
    let mut i: usize = 0;
    while i < characters.len()
        invariant
            i <= characters.len(),
            out@.len() == i,
            forall|j: int| 0 <= j < i ==> (#[trigger] out@[j])@ == characters@[j]@,
        decreases characters.len() - i,
    {
        out.push(characters[i].clone());
        i = i + 1;
    }
    assert(state::character_views(out@) =~= state::character_views(characters@));
    out
}

pub open spec fn bad(message: Seq<char>) -> Trouble {
    Trouble::InvalidArguments(message)
}

/// New characters for template numbers, in order.
pub open spec fn added(program: ProgramGeneration, arguments: Seq<Val>, sp: bool) -> Result<
    Seq<Cells>,
    Trouble,
>
    decreases arguments.len(),
{
    if arguments.len() == 0 {
        Ok(Seq::empty())
    } else {
        match added(program, arguments.drop_last(), sp) {
            Err(e) => Err(e),
            Ok(before) => match arguments.last() {
                Val::Integer(number) => match lookup::first_index(
                    program.characters@,
                    character_query::template_is(number, sp),
                ) {
                    None => Err(
                        bad(
                            "character template "@ + text::decimal(number as int)
                                + " does not exist"@,
                        ),
                    ),
                    Some(i) => Ok(before.push(program.characters@[i].initial@)),
                },
                _ => Err(bad("ADDCHARA arguments must be integers"@)),
            },
        }
    }
}

proof fn lemma_added_stops(program: ProgramGeneration, arguments: Seq<Val>, sp: bool, n: int)
    requires
        0 <= n <= arguments.len(),
        added(program, arguments.take(n), sp) is Err,
    ensures
        added(program, arguments, sp) == added(program, arguments.take(n), sp),
    decreases arguments.len() - n,
{
    if n == arguments.len() {
        assert(arguments.take(n) =~= arguments);
    } else {
        assert(arguments.take(n + 1).drop_last() =~= arguments.take(n));
        lemma_added_stops(program, arguments, sp, n + 1);
    }
}

pub open spec fn characters_result(r: Result<Vec<CellMap>, VmError>) -> Result<Seq<Cells>, Trouble> {
    match r {
        Ok(v) => Ok(state::character_views(v@)),
        Err(e) => Err(e@),
    }
}

fn make_added(program: &ProgramGeneration, arguments: &Vec<VmValue>, sp: bool) -> (r: Result<
    Vec<CellMap>,
    VmError,
>)
    ensures
        characters_result(r) == added(*program, value::vals(arguments@), sp),
{
    let ghost all = value::vals(arguments@);
    let mut out: Vec<CellMap> = Vec::new();
    let mut i: usize = 0;
    proof {
        assert(all.take(0) =~= Seq::<Val>::empty());
        assert(state::character_views(out@) =~= Seq::<Cells>::empty());
    }
    while i < arguments.len()
        invariant
            i <= arguments.len(),
            all == value::vals(arguments@),
            added(*program, all.take(i as int), sp) == Ok::<Seq<Cells>, Trouble>(
                state::character_views(out@),
            ),
        decreases arguments.len() - i,
    {
        proof {
            assert(all.take(i + 1).drop_last() =~= all.take(i as int));
            assert(all.take(i + 1).last() == all[i as int]);
            if added(*program, all.take(i + 1), sp) is Err {
                lemma_added_stops(*program, all, sp, i + 1);
            }
        }
        match &arguments[i] {
            VmValue::Integer(number) => match character_query::find_template(
                program,
                *number,
                sp,
            ) {
                None => {
                    let n = text::integer_text(*number);
                    return Err(
                        VmError::InvalidArguments(
                            text::join3("character template ", n.as_str(), " does not exist"),
                        ),
                    );
                },
                Some(t) => {
                    push_character(&mut out, program.characters[t].initial.clone());
                },
            },
            _ => {
                return Err(VmError::invalid_arguments("ADDCHARA arguments must be integers"));
            },
        }
        i = i + 1;
    }
    assert(all.take(i as int) =~= all);
    Ok(out)
}

pub open spec fn csv_is(number: i64) -> spec_fn(CharacterTemplate) -> bool {
    |t: CharacterTemplate| t.csv_no == number
}

/// A new character for a data number; an empty one where there is no such data.
pub open spec fn csv_character(program: ProgramGeneration, number: i64) -> Cells {
    match lookup::first_index(program.characters@, csv_is(number)) {
        Some(i) => program.characters@[i].initial@,
        None => program.void_character@,
    }
}

fn make_csv_character(program: &ProgramGeneration, number: i64) -> (r: CellMap)
    ensures
        r@ == csv_character(*program, number),
{
    let mut i: usize = 0;
    while i < program.characters.len()
        invariant
            i <= program.characters.len(),
            forall|j: int| 0 <= j < i ==> !csv_is(number)(#[trigger] program.characters@[j]),
        decreases program.characters.len() - i,
    {
        if program.characters[i].csv_no == number {
            proof {
                lookup::lemma_first_found(program.characters@, csv_is(number), i as int);
            }
            return program.characters[i].initial.clone();
        }
        i = i + 1;
    }
    proof {
        lookup::lemma_first_none(program.characters@, csv_is(number));
    }
    program.void_character.clone()
}

/// The default characters.
pub open spec fn default_characters(program: ProgramGeneration) -> Seq<Cells> {
    if program.default_character > 0 {
        seq![csv_character(program, 0), csv_character(program, program.default_character)]
    } else {
        seq![csv_character(program, 0)]
    }
}

/// Positions in arguments.
pub open spec fn positions(
    arguments: Seq<Val>,
    negative: Seq<char>,
    other: Seq<char>,
) -> Result<Seq<usize>, Trouble>
    decreases arguments.len(),
{
    if arguments.len() == 0 {
        Ok(Seq::empty())
    } else {
        match positions(arguments.drop_last(), negative, other) {
            Err(e) => Err(e),
            Ok(before) => match arguments.last() {
                Val::Integer(n) => if 0 <= n <= usize::MAX {
                    Ok(before.push(n as usize))
                } else {
                    Err(bad(negative))
                },
                _ => Err(bad(other)),
            },
        }
    }
}

proof fn lemma_positions_stop(
    arguments: Seq<Val>,
    negative: Seq<char>,
    other: Seq<char>,
    n: int,
)
    requires
        0 <= n <= arguments.len(),
        positions(arguments.take(n), negative, other) is Err,
    ensures
        positions(arguments, negative, other) == positions(arguments.take(n), negative, other),
    decreases arguments.len() - n,
{
    if n == arguments.len() {
        assert(arguments.take(n) =~= arguments);
    } else {
        assert(arguments.take(n + 1).drop_last() =~= arguments.take(n));
        lemma_positions_stop(arguments, negative, other, n + 1);
    }
}

fn read_positions(arguments: &Vec<VmValue>, negative: &str, other: &str) -> (r: Result<
    Vec<usize>,
    VmError,
>)
    ensures
        match r {
            Ok(v) => positions(value::vals(arguments@), negative@, other@) == Ok::<
                Seq<usize>,
                Trouble,
            >(v@),
            Err(e) => positions(value::vals(arguments@), negative@, other@) == Err::<
                Seq<usize>,
                Trouble,
            >(e@),
        },
{
    let ghost all = value::vals(arguments@);
    let mut out: Vec<usize> = Vec::new();
    let mut i: usize = 0;
    assert(all.take(0) =~= Seq::<Val>::empty());
    while i < arguments.len()
        invariant
            i <= arguments.len(),
            all == value::vals(arguments@),
            positions(all.take(i as int), negative@, other@) == Ok::<Seq<usize>, Trouble>(out@),
        decreases arguments.len() - i,
    {
        proof {
            assert(all.take(i + 1).drop_last() =~= all.take(i as int));
            assert(all.take(i + 1).last() == all[i as int]);
            if positions(all.take(i + 1), negative@, other@) is Err {
                lemma_positions_stop(all, negative@, other@, i + 1);
            }
        }
        match &arguments[i] {
            VmValue::Integer(n) => {
                if *n < 0 || *n as u64 > usize::MAX as u64 {
                    return Err(VmError::invalid_arguments(negative));
                }
                out.push(*n as usize);
            },
            _ => {
                return Err(VmError::invalid_arguments(other));
            },
        }
        i = i + 1;
    }
    assert(all.take(i as int) =~= all);
    Ok(out)
}

/// Characters that are left when those at some positions are gone, among the first `n`.
pub open spec fn remaining(characters: Seq<Cells>, gone: Seq<usize>, n: nat) -> Seq<Cells>
    decreases n,
{
    if n == 0 {
        Seq::empty()
    } else {
        let before = remaining(characters, gone, (n - 1) as nat);
        if gone.contains((n - 1) as usize) {
            before
        } else {
            before.push(characters[n - 1])
        }
    }
}

/// Positions are all different and all name a character.
pub open spec fn deletable(gone: Seq<usize>, count: nat) -> bool {
    gone.no_duplicates() && forall|i: int| 0 <= i < gone.len() ==> #[trigger] gone[i] < count
}

fn contains_position(s: &Vec<usize>, x: usize) -> (r: bool)
    ensures
        r == s@.contains(x),
{
    let mut i: usize = 0;
    while i < s.len()
        invariant
            i <= s.len(),
            forall|j: int| 0 <= j < i ==> s@[j] != x,
        decreases s.len() - i,
    {
        if s[i] == x {
            return true;
        }
        i = i + 1;
    }
    false
}

fn is_deletable(gone: &Vec<usize>, count: usize) -> (r: bool)
    ensures
        r == deletable(gone@, count as nat),
{
    let mut i: usize = 0;
    while i < gone.len()
        invariant
            i <= gone.len(),
            forall|a: int, b: int| 0 <= a < b < i ==> gone@[a] != gone@[b],
            forall|a: int| 0 <= a < i ==> #[trigger] gone@[a] < count,
        decreases gone.len() - i,
    {
        if gone[i] >= count {
            assert(!(gone@[i as int] < count));
            return false;
        }
        let mut k: usize = 0;
        while k < i
            invariant
                k <= i < gone.len(),
                forall|a: int| 0 <= a < k ==> gone@[a] != gone@[i as int],
            decreases i - k,
        {
            if gone[k] == gone[i] {
                assert(gone@[k as int] == gone@[i as int]);
                return false;
            }
            k = k + 1;
        }
        i = i + 1;
    }
    true
}

fn remove_characters(characters: &mut Vec<CellMap>, gone: &Vec<usize>)
    ensures
        state::character_views(final(characters)@) == remaining(
            state::character_views(old(characters)@),
            gone@,
            old(characters)@.len(),
        ),
{
    let ghost all = state::character_views(characters@);
    let mut out: Vec<CellMap> = Vec::new();
    let mut i: usize = 0;
    assert(state::character_views(out@) =~= Seq::<Cells>::empty());
    while i < characters.len()
        invariant
            i <= characters.len(),
            characters@ == old(characters)@,
            all == state::character_views(characters@),
            state::character_views(out@) == remaining(all, gone@, i as nat),
        decreases characters.len() - i,
    {
        if !contains_position(gone, i) {
            push_character(&mut out, characters[i].clone());
        }
        i = i + 1;
    }
    *characters = out;
}

/// Two positions in arguments that name characters.
pub open spec fn two_positions(arguments: Seq<Val>, count: nat) -> Result<(int, int), Trouble> {
    match arrays::integer_at(arguments, 0) {
        Err(e) => Err(e),
        Ok(left) => if !(0 <= left <= usize::MAX) {
            Err(bad("character index is negative"@))
        } else {
            match arrays::integer_at(arguments, 1) {
                Err(e) => Err(e),
                Ok(right) => if !(0 <= right <= usize::MAX) {
                    Err(bad("character index is negative"@))
                } else if left >= count || right >= count {
                    Err(bad("character index is out of range"@))
                } else {
                    Ok((left as int, right as int))
                },
            }
        },
    }
}

fn read_two_positions(arguments: &Vec<VmValue>, count: usize) -> (r: Result<(usize, usize), VmError>)
    ensures
        match r {
            Ok((a, b)) => two_positions(value::vals(arguments@), count as nat) == Ok::<
                (int, int),
                Trouble,
            >((a as int, b as int)) && a < count && b < count,
            Err(e) => two_positions(value::vals(arguments@), count as nat) == Err::<
                (int, int),
                Trouble,
            >(e@),
        },
{
    let left: i64 = match arrays::integer_argument(arguments, 0) {
        Ok(n) => n,
        Err(e) => {
            return Err(e);
        },
    };
    if left < 0 || left as u64 > usize::MAX as u64 {
        return Err(VmError::invalid_arguments("character index is negative"));
    }
    let right: i64 = match arrays::integer_argument(arguments, 1) {
        Ok(n) => n,
        Err(e) => {
            return Err(e);
        },
    };
    if right < 0 || right as u64 > usize::MAX as u64 {
        return Err(VmError::invalid_arguments("character index is negative"));
    }
    if left as usize >= count || right as usize >= count {
        return Err(VmError::invalid_arguments("character index is out of range"));
    }
    Ok((left as usize, right as usize))
}

/// Characters with copies of some of them behind; a copy can be copied again.
pub open spec fn with_copies(characters: Seq<Cells>, arguments: Seq<Val>) -> Result<
    Seq<Cells>,
    Trouble,
>
    decreases arguments.len(),
{
    if arguments.len() == 0 {
        Ok(characters)
    } else {
        match with_copies(characters, arguments.drop_last()) {
            Err(e) => Err(e),
            Ok(all) => match arguments.last() {
                Val::Integer(n) => if !(0 <= n <= usize::MAX) {
                    Err(bad("ADDCOPYCHARA index is negative"@))
                } else if n >= all.len() {
                    Err(bad("ADDCOPYCHARA index is out of range"@))
                } else {
                    Ok(all.push(all[n as int]))
                },
                _ => Err(bad("ADDCOPYCHARA arguments must be integers"@)),
            },
        }
    }
}

proof fn lemma_copies_stop(characters: Seq<Cells>, arguments: Seq<Val>, n: int)
    requires
        0 <= n <= arguments.len(),
        with_copies(characters, arguments.take(n)) is Err,
    ensures
        with_copies(characters, arguments) == with_copies(characters, arguments.take(n)),
    decreases arguments.len() - n,
{
    if n == arguments.len() {
        assert(arguments.take(n) =~= arguments);
    } else {
        assert(arguments.take(n + 1).drop_last() =~= arguments.take(n));
        lemma_copies_stop(characters, arguments, n + 1);
    }
}

fn make_copies(characters: &Vec<CellMap>, arguments: &Vec<VmValue>) -> (r: Result<
    Vec<CellMap>,
    VmError,
>)
    ensures
        characters_result(r) == with_copies(
            state::character_views(characters@),
            value::vals(arguments@),
        ),
{
    let ghost all = value::vals(arguments@);
    let ghost start = state::character_views(characters@);
    let mut out = copy_characters(characters);
    let mut i: usize = 0;
    assert(all.take(0) =~= Seq::<Val>::empty());
    while i < arguments.len()
        invariant
            i <= arguments.len(),
            all == value::vals(arguments@),
            start == state::character_views(characters@),
            with_copies(start, all.take(i as int)) == Ok::<Seq<Cells>, Trouble>(
                state::character_views(out@),
            ),
        decreases arguments.len() - i,
    {
        proof {
            assert(all.take(i + 1).drop_last() =~= all.take(i as int));
            assert(all.take(i + 1).last() == all[i as int]);
            if with_copies(start, all.take(i + 1)) is Err {
                lemma_copies_stop(start, all, i + 1);
            }
        }
        match &arguments[i] {
            VmValue::Integer(n) => {
                if *n < 0 || *n as u64 > usize::MAX as u64 {
                    return Err(VmError::invalid_arguments("ADDCOPYCHARA index is negative"));
                }
                let at: usize = *n as usize;
                if at >= out.len() {
                    return Err(VmError::invalid_arguments("ADDCOPYCHARA index is out of range"));
                }
                let character = out[at].clone();
                push_character(&mut out, character);
            },
            _ => {
                return Err(
                    VmError::invalid_arguments("ADDCOPYCHARA arguments must be integers"),
                );
            },
        }
        i = i + 1;
    }
    assert(all.take(i as int) =~= all);
    Ok(out)
}

/// Integers of the default state, as many as an array has.
pub open spec fn stain_values(defaults: Seq<i64>, n: nat) -> Seq<i64> {
    Seq::new(
        n,
        |i: int|
            if i < defaults.len() {
                defaults[i]
            } else {
                0
            },
    )
}

/// Characters after one of them was cleaned.
pub open spec fn cleaned(program: ProgramGeneration, characters: Seq<Cells>, arguments: Seq<Val>) -> Result<
    Seq<Cells>,
    Trouble,
> {
    match arrays::integer_at(arguments, 0) {
        Err(e) => Err(e),
        Ok(n) => if !(0 <= n <= usize::MAX) {
            Err(bad("RESET_STAIN index is negative"@))
        } else if n >= characters.len() {
            Err(bad("RESET_STAIN character index is out of range"@))
        } else {
            match named::character_global(program, "STAIN"@) {
                None => Err(Trouble::InvalidState("STAIN variable is missing"@)),
                Some(g) => match memory::slot_of(characters[n as int], g.key) {
                    None => Err(Trouble::InvalidState("STAIN storage is unavailable"@)),
                    Some(i) => {
                        let cell = characters[n as int][i].1;
                        match cell.data {
                            Data::Integers(v) => Ok(
                                characters.update(
                                    n as int,
                                    memory::with_cell(
                                        characters[n as int],
                                        i,
                                        Cell {
                                            dimensions: cell.dimensions,
                                            data: Data::Integers(
                                                stain_values(program.stain_default@, v.len()),
                                            ),
                                        },
                                    ),
                                ),
                            ),
                            Data::Texts(_) => Err(
                                Trouble::InvalidState("STAIN storage is not an integer array"@),
                            ),
                        }
                    },
                },
            }
        },
    }
}

fn make_stain(defaults: &Vec<i64>, n: usize) -> (r: Vec<i64>)
    ensures
        r@ == stain_values(defaults@, n as nat),
{
    let mut out: Vec<i64> = Vec::new();
    let mut i: usize = 0;
    while i < n
        invariant
            i <= n,
            out@.len() == i,
            forall|j: int| 0 <= j < i ==> #[trigger] out@[j] == stain_values(defaults@, n as nat)[j],
        decreases n - i,
    {
        if i < defaults.len() {
            out.push(defaults[i]);
        } else {
            out.push(0);
        }
        i = i + 1;
    }
    assert(out@ =~= stain_values(defaults@, n as nat));
    out
}

fn clean_character(
    program: &ProgramGeneration,
    characters: &mut Vec<CellMap>,
    arguments: &Vec<VmValue>,
) -> (r: Result<(), VmError>)
    ensures
        match r {
            Ok(_) => cleaned(
                *program,
                state::character_views(old(characters)@),
                value::vals(arguments@),
            ) == Ok::<Seq<Cells>, Trouble>(state::character_views(final(characters)@)),
            Err(e) => cleaned(
                *program,
                state::character_views(old(characters)@),
                value::vals(arguments@),
            ) == Err::<Seq<Cells>, Trouble>(e@) && final(characters)@ == old(characters)@,
        },
{
    let n: i64 = match arrays::integer_argument(arguments, 0) {
        Ok(n) => n,
        Err(e) => {
            return Err(e);
        },
    };
    if n < 0 || n as u64 > usize::MAX as u64 {
        return Err(VmError::invalid_arguments("RESET_STAIN index is negative"));
    }
    let at: usize = n as usize;
    if at >= characters.len() {
        return Err(VmError::invalid_arguments("RESET_STAIN character index is out of range"));
    }
    let key = match named::character_definition(program, "STAIN") {
        None => {
            return Err(VmError::invalid_state("STAIN variable is missing"));
        },
        Some(g) => g.key,
    };
    let i: usize = match characters[at].find(key) {
        None => {
            return Err(VmError::invalid_state("STAIN storage is unavailable"));
        },
        Some(i) => i,
    };
    let length: usize = match &characters[at].entries[i].cell.data {
        CellData::Integers(v) => v.len(),
        CellData::Strings(_) => {
            return Err(VmError::invalid_state("STAIN storage is not an integer array"));
        },
    };
    let ghost before = characters@;
    characters[at].entries[i].cell.data = CellData::Integers(
        make_stain(&program.stain_default, length),
    );
    proof {
        let after = characters@;
        memory::lemma_entry_update(
            before[at as int].entries@,
            i as int,
            after[at as int].entries@[i as int],
        );
        assert(state::character_views(after) =~= state::character_views(before).update(
            at as int,
            memory::with_cell(
                before[at as int]@,
                i as int,
                after[at as int].entries@[i as int].cell@,
            ),
        ));
    }
    Ok(())
}

/// Characters after a mutation in place.
pub open spec fn mutated(
    program: ProgramGeneration,
    characters: Seq<Cells>,
    mutation: Option<CharacterMutation>,
    arguments: Seq<Val>,
) -> Result<Seq<Cells>, Trouble> {
    match mutation {
        Some(CharacterMutation::AddChara) => match added(program, arguments, false) {
            Ok(new) => Ok(characters + new),
            Err(e) => Err(e),
        },
        Some(CharacterMutation::AddSpChara) => match added(program, arguments, true) {
            Ok(new) => Ok(characters + new),
            Err(e) => Err(e),
        },
        Some(CharacterMutation::AddDefChara) => Ok(characters + default_characters(program)),
        Some(CharacterMutation::AddVoidChara) => Ok(characters.push(program.void_character@)),
        Some(CharacterMutation::DelChara) => match positions(
            arguments,
            "DELCHARA index is negative"@,
            "DELCHARA arguments must be integers"@,
        ) {
            Err(e) => Err(e),
            Ok(gone) => if deletable(gone, characters.len()) {
                Ok(remaining(characters, gone, characters.len()))
            } else {
                Err(bad("DELCHARA index is duplicated or out of range"@))
            },
        },
        Some(CharacterMutation::DelAllChara) => Ok(Seq::empty()),
        Some(CharacterMutation::SwapChara) => match two_positions(arguments, characters.len()) {
            Err(e) => Err(e),
            Ok((a, b)) => Ok(
                characters.update(a, characters[b]).update(b, characters[a]),
            ),
        },
        Some(CharacterMutation::CopyChara) => match two_positions(arguments, characters.len()) {
            Err(e) => Err(e),
            Ok((a, b)) => Ok(characters.update(b, characters[a])),
        },
        Some(CharacterMutation::AddCopyChara) => with_copies(characters, arguments),
        Some(CharacterMutation::ResetStain) => cleaned(program, characters, arguments),
        _ => Err(bad("unknown character mutation"@)),
    }
}

fn append_characters(characters: &mut Vec<CellMap>, new: Vec<CellMap>)
    ensures
        state::character_views(final(characters)@) == state::character_views(old(characters)@)
            + state::character_views(new@),
{
    let mut rest = new;
    characters.append(&mut rest);
    assert(state::character_views(characters@) =~= state::character_views(old(characters)@)
        + state::character_views(new@));
}

fn mutate_characters(
    program: &ProgramGeneration,
    characters: &mut Vec<CellMap>,
    mutation: Option<CharacterMutation>,
    arguments: &Vec<VmValue>,
) -> (r: Result<(), VmError>)
    ensures
        match r {
            Ok(_) => mutated(
                *program,
                state::character_views(old(characters)@),
                mutation,
                value::vals(arguments@),
            ) == Ok::<Seq<Cells>, Trouble>(state::character_views(final(characters)@)),
            Err(e) => mutated(
                *program,
                state::character_views(old(characters)@),
                mutation,
                value::vals(arguments@),
            ) == Err::<Seq<Cells>, Trouble>(e@) && final(characters)@ == old(characters)@,
        },
{
    match mutation {
        Some(CharacterMutation::AddChara) => match make_added(program, arguments, false) {
            Ok(new) => {
                append_characters(characters, new);
                Ok(())
            },
            Err(e) => Err(e),
        },
        Some(CharacterMutation::AddSpChara) => match make_added(program, arguments, true) {
            Ok(new) => {
                append_characters(characters, new);
                Ok(())
            },
            Err(e) => Err(e),
        },
        Some(CharacterMutation::AddDefChara) => {
            push_character(characters, make_csv_character(program, 0));
            if program.default_character > 0 {
                push_character(
                    characters,
                    make_csv_character(program, program.default_character),
                );
            }
            assert(state::character_views(characters@) =~= state::character_views(
                old(characters)@,
            ) + default_characters(*program));
            Ok(())
        },
        Some(CharacterMutation::AddVoidChara) => {
            push_character(characters, program.void_character.clone());
            Ok(())
        },
        Some(CharacterMutation::DelChara) => {
            let gone = match read_positions(
                arguments,
                "DELCHARA index is negative",
                "DELCHARA arguments must be integers",
            ) {
                Ok(v) => v,
                Err(e) => {
                    return Err(e);
                },
            };
            if !is_deletable(&gone, characters.len()) {
                return Err(
                    VmError::invalid_arguments("DELCHARA index is duplicated or out of range"),
                );
            }
            remove_characters(characters, &gone);
            Ok(())
        },
        Some(CharacterMutation::DelAllChara) => {
            characters.clear();
            assert(state::character_views(characters@) =~= Seq::<Cells>::empty());
            Ok(())
        },
        Some(CharacterMutation::SwapChara) => {
            let (a, b) = match read_two_positions(arguments, characters.len()) {
                Ok(p) => p,
                Err(e) => {
                    return Err(e);
                },
            };
            let left = characters[a].clone();
            let right = characters[b].clone();
            characters[a] = right;
            characters[b] = left;
            assert(state::character_views(characters@) =~= state::character_views(
                old(characters)@,
            ).update(a as int, old(characters)@[b as int]@).update(
                b as int,
                old(characters)@[a as int]@,
            ));
            Ok(())
        },
        Some(CharacterMutation::CopyChara) => {
            let (a, b) = match read_two_positions(arguments, characters.len()) {
                Ok(p) => p,
                Err(e) => {
                    return Err(e);
                },
            };
            let left = characters[a].clone();
            characters[b] = left;
            assert(state::character_views(characters@) =~= state::character_views(
                old(characters)@,
            ).update(b as int, old(characters)@[a as int]@));
            Ok(())
        },
        Some(CharacterMutation::AddCopyChara) => match make_copies(&*characters, arguments) {
            Ok(all) => {
                *characters = all;
                Ok(())
            },
            Err(e) => Err(e),
        },
        Some(CharacterMutation::ResetStain) => clean_character(program, characters, arguments),
        _ => Err(VmError::invalid_arguments("unknown character mutation")),
    }
}

/// Positions that a selection keeps: each once, in the order given, without negative ones.
pub open spec fn selected(arguments: Seq<Val>, count: nat) -> Result<Seq<usize>, Trouble>
    decreases arguments.len(),
{
    if arguments.len() == 0 {
        Ok(Seq::empty())
    } else {
        match selected(arguments.drop_last(), count) {
            Err(e) => Err(e),
            Ok(before) => match arguments.last() {
                Val::Integer(n) => if n < 0 {
                    Ok(before)
                } else if n >= count {
                    Err(bad("PICKUPCHARA index is out of range"@))
                } else if before.contains(n as usize) {
                    Ok(before)
                } else {
                    Ok(before.push(n as usize))
                },
                _ => Err(bad("PICKUPCHARA arguments must be integers"@)),
            },
        }
    }
}

proof fn lemma_selected_stops(arguments: Seq<Val>, count: nat, n: int)
    requires
        0 <= n <= arguments.len(),
        selected(arguments.take(n), count) is Err,
    ensures
        selected(arguments, count) == selected(arguments.take(n), count),
    decreases arguments.len() - n,
{
    if n == arguments.len() {
        assert(arguments.take(n) =~= arguments);
    } else {
        assert(arguments.take(n + 1).drop_last() =~= arguments.take(n));
        lemma_selected_stops(arguments, count, n + 1);
    }
}

/// A selection keeps each character at most once, and only existing ones.
pub proof fn law_selection_has_no_duplicates(arguments: Seq<Val>, count: nat)
    requires
        count <= usize::MAX,
    ensures
        selected(arguments, count) matches Ok(s) ==> s.no_duplicates() && forall|i: int|
            0 <= i < s.len() ==> #[trigger] s[i] < count,
    decreases arguments.len(),
{
    if arguments.len() > 0 {
        law_selection_has_no_duplicates(arguments.drop_last(), count);
    }
}

fn read_selection(arguments: &Vec<VmValue>, count: usize) -> (r: Result<Vec<usize>, VmError>)
    ensures
        match r {
            Ok(v) => selected(value::vals(arguments@), count as nat) == Ok::<Seq<usize>, Trouble>(
                v@,
            ) && forall|i: int| 0 <= i < v@.len() ==> #[trigger] v@[i] < count,
            Err(e) => selected(value::vals(arguments@), count as nat) == Err::<
                Seq<usize>,
                Trouble,
            >(e@),
        },
{
    let ghost all = value::vals(arguments@);
    let mut out: Vec<usize> = Vec::new();
    let mut i: usize = 0;
    assert(all.take(0) =~= Seq::<Val>::empty());
    while i < arguments.len()
        invariant
            i <= arguments.len(),
            all == value::vals(arguments@),
            selected(all.take(i as int), count as nat) == Ok::<Seq<usize>, Trouble>(out@),
            forall|j: int| 0 <= j < out@.len() ==> #[trigger] out@[j] < count,
        decreases arguments.len() - i,
    {
        proof {
            assert(all.take(i + 1).drop_last() =~= all.take(i as int));
            assert(all.take(i + 1).last() == all[i as int]);
            if selected(all.take(i + 1), count as nat) is Err {
                lemma_selected_stops(all, count as nat, i + 1);
            }
        }
        match &arguments[i] {
            VmValue::Integer(n) => {
                if *n >= 0 {
                    if *n as u64 >= count as u64 {
                        return Err(
                            VmError::invalid_arguments("PICKUPCHARA index is out of range"),
                        );
                    }
                    let at: usize = *n as usize;
                    if !contains_position(&out, at) {
                        out.push(at);
                    }
                }
            },
            _ => {
                return Err(VmError::invalid_arguments("PICKUPCHARA arguments must be integers"));
            },
        }
        i = i + 1;
    }
    assert(all.take(i as int) =~= all);
    Ok(out)
}

/// The characters at some positions.
pub open spec fn taken(characters: Seq<Cells>, at: Seq<usize>) -> Seq<Cells> {
    Seq::new(at.len(), |i: int| characters[at[i] as int])
}

fn take_characters(characters: &Vec<CellMap>, at: &Vec<usize>) -> (r: Vec<CellMap>)
    requires
        forall|i: int| 0 <= i < at@.len() ==> #[trigger] at@[i] < characters@.len(),
    ensures
        state::character_views(r@) == taken(state::character_views(characters@), at@),
{
    let mut out: Vec<CellMap> = Vec::new();
    let mut i: usize = 0;
    while i < at.len()
        invariant
            i <= at.len(),
            out@.len() == i,
            forall|j: int| 0 <= j < at@.len() ==> #[trigger] at@[j] < characters@.len(),
            forall|j: int| 0 <= j < i ==> (#[trigger] out@[j])@ == characters@[at@[j] as int]@,
        decreases at.len() - i,
    {
        out.push(characters[at[i]].clone());
        i = i + 1;
    }
    assert(state::character_views(out@) =~= taken(state::character_views(characters@), at@));
    out
}

pub open spec fn position_is(n: i64) -> spec_fn(usize) -> bool {
    |p: usize| p == n
}

/// Where an old position stands among some positions; minus one where it is not among them.
pub open spec fn new_position(at: Seq<usize>, old: i64) -> i64 {
    match lookup::first_index(at, position_is(old)) {
        Some(i) => fastpaths::count_integer(i as nat),
        None => (-1) as i64,
    }
}

fn find_new_position(at: &Vec<usize>, old: i64) -> (r: i64)
    ensures
        r == new_position(at@, old),
{
    let mut i: usize = 0;
    while i < at.len()
        invariant
            i <= at.len(),
            forall|j: int| 0 <= j < i ==> !position_is(old)(#[trigger] at@[j]),
        decreases at.len() - i,
    {
        if old >= 0 && at[i] as u64 == old as u64 {
            proof {
                lookup::lemma_first_found(at@, position_is(old), i as int);
            }
            return fastpaths::integer_of_count(i);
        }
        i = i + 1;
    }
    proof {
        lookup::lemma_first_none(at@, position_is(old));
    }
    -1
}

/// A named integer, or minus one.
pub open spec fn named_or_none(program: ProgramGeneration, store: Store, name: Seq<char>) -> i64 {
    match named::named_integer(program, store, name) {
        Some(n) => n,
        None => (-1) as i64,
    }
}

fn read_or_none(program: &ProgramGeneration, memory: &Memory, name: &str) -> (r: i64)
    ensures
        r == named_or_none(*program, memory@, name@),
{
    match named::read_named_integer(program, memory, name) {
        Some(n) => n,
        None => -1,
    }
}

/// Storage after a last change, which leaves it as it was where it fails.
pub open spec fn changed(store: Store, r: Result<Store, Trouble>) -> (Store, Result<(), Trouble>) {
    match r {
        Ok(next) => (next, Ok(())),
        Err(e) => (store, Err(e)),
    }
}

/// Storage after some characters were selected and the special ones were followed, up to the first
/// step that fails.
pub open spec fn picked_up(program: ProgramGeneration, store: Store, arguments: Seq<Val>) -> (
    Store,
    Result<(), Trouble>,
) {
    match selected(arguments, store.characters.len()) {
        Err(e) => (store, Err(e)),
        Ok(at) => {
            let store1 = Store { characters: taken(store.characters, at), ..store };
            match named::named_written(
                program,
                store1,
                "TARGET"@,
                new_position(at, named_or_none(program, store, "TARGET"@)),
            ) {
                Err(e) => (store1, Err(e)),
                Ok(store2) => match named::named_written(
                    program,
                    store2,
                    "ASSI"@,
                    new_position(at, named_or_none(program, store, "ASSI"@)),
                ) {
                    Err(e) => (store2, Err(e)),
                    Ok(store3) => changed(
                        store3,
                        named::named_written(
                            program,
                            store3,
                            "MASTER"@,
                            new_position(at, named_or_none(program, store, "MASTER"@)),
                        ),
                    ),
                },
            }
        },
    }
}

/// Selects some characters and follows the special ones. What was done before a step that fails
/// stays.
pub fn pickup_characters(
    program: &ProgramGeneration,
    memory: &mut Memory,
    arguments: &Vec<VmValue>,
) -> (r: Result<(), VmError>)
    ensures
        (final(memory)@, fault::result(r)) == picked_up(
            *program,
            old(memory)@,
            value::vals(arguments@),
        ),
        final(memory)@.statics == old(memory)@.statics,
        final(memory)@.leases == old(memory)@.leases,
{
    let at = match read_selection(arguments, memory.characters.len()) {
        Ok(v) => v,
        Err(e) => {
            return Err(e);
        },
    };
    let target: i64 = read_or_none(program, memory, "TARGET");
    let assi: i64 = read_or_none(program, memory, "ASSI");
    let master: i64 = read_or_none(program, memory, "MASTER");
    let characters = take_characters(&memory.characters, &at);
    memory.characters = characters;
    match named::write_named_integer(program, memory, "TARGET", find_new_position(&at, target)) {
        Ok(_) => {},
        Err(e) => {
            return Err(e);
        },
    }
    match named::write_named_integer(program, memory, "ASSI", find_new_position(&at, assi)) {
        Ok(_) => {},
        Err(e) => {
            return Err(e);
        },
    }
    named::write_named_integer(program, memory, "MASTER", find_new_position(&at, master))
}


/// By which variable, at which element and in which direction characters are sorted.
pub struct SortKey {
    pub variable: SymbolKey,
    pub indices: Seq<u64>,
    pub descending: bool,
}

pub open spec fn is_back(v: Val) -> bool {
    v matches Val::Text(t) && text::same_ignoring_case(t, "BACK"@)
}

pub open spec fn is_direction(v: Val) -> bool {
    v matches Val::Text(t) && (text::same_ignoring_case(t, "FORWARD"@) || text::same_ignoring_case(
        t,
        "BACK"@,
    ))
}

/// The key that the arguments of SORTCHARA name; the variable NO without one.
pub open spec fn sort_key(program: ProgramGeneration, arguments: Seq<Val>) -> Result<
    SortKey,
    Trouble,
> {
    if arguments.len() == 0 || is_direction(arguments[0]) {
        match named::character_global(program, "NO"@) {
            None => Err(Trouble::InvalidState("NO variable is missing"@)),
            Some(g) => Ok(
                SortKey {
                    variable: g.key,
                    indices: Seq::empty(),
                    descending: arguments.len() > 0 && is_back(arguments[0]),
                },
            ),
        }
    } else {
        match arguments[0] {
            Val::IntegerPlace(place) => sort_place(program, place, arguments),
            Val::StringPlace(place) => sort_place(program, place, arguments),
            _ => Err(bad("SORTCHARA key or order is invalid"@)),
        }
    }
}

/// The key at a place.
pub open spec fn sort_place(program: ProgramGeneration, place: Place, arguments: Seq<Val>) -> Result<
    SortKey,
    Trouble,
> {
    match program.spec_global(place.variable) {
        None => Err(Trouble::InvalidState("SORTCHARA variable is missing"@)),
        Some(g) => if g.storage != BytecodeStorage::Character {
            Err(bad("SORTCHARA key must be a character variable"@))
        } else {
            Ok(
                SortKey {
                    variable: g.key,
                    indices: place.indices,
                    descending: arguments.len() > 1 && is_back(arguments[1]),
                },
            )
        },
    }
}

struct SortInput {
    variable: SymbolKey,
    indices: Vec<u64>,
    descending: bool,
}

impl View for SortInput {
    type V = SortKey;

    closed spec fn view(&self) -> SortKey {
        SortKey {
            variable: self.variable,
            indices: self.indices@,
            descending: self.descending,
        }
    }
}

fn is_back_value(v: &VmValue) -> (r: bool)
    ensures
        r == is_back(v@),
{
    match v {
        VmValue::String(t) => text::eq_ignore_ascii_case(t.as_str(), "BACK"),
        _ => false,
    }
}

fn is_direction_value(v: &VmValue) -> (r: bool)
    ensures
        r == is_direction(v@),
{
    match v {
        VmValue::String(t) => text::eq_ignore_ascii_case(t.as_str(), "FORWARD")
            || text::eq_ignore_ascii_case(t.as_str(), "BACK"),
        _ => false,
    }
}

fn read_sort_place(
    program: &ProgramGeneration,
    place: &PlaceDescriptor,
    arguments: &Vec<VmValue>,
) -> (r: Result<SortInput, VmError>)
    ensures
        fault::result(r) == sort_place(*program, place@, value::vals(arguments@)),
{
    match program.global(place.variable) {
        None => Err(VmError::invalid_state("SORTCHARA variable is missing")),
        Some(g) => {
            if g.storage != BytecodeStorage::Character {
                return Err(
                    VmError::invalid_arguments("SORTCHARA key must be a character variable"),
                );
            }
            Ok(
                SortInput {
                    variable: g.key,
                    indices: value::copy_indices(&place.indices),
                    descending: arguments.len() > 1 && is_back_value(&arguments[1]),
                },
            )
        },
    }
}

fn read_sort_key(program: &ProgramGeneration, arguments: &Vec<VmValue>) -> (r: Result<
    SortInput,
    VmError,
>)
    ensures
        fault::result(r) == sort_key(*program, value::vals(arguments@)),
{
    if arguments.len() == 0 || is_direction_value(&arguments[0]) {
        let descending = arguments.len() > 0 && is_back_value(&arguments[0]);
        return match named::character_definition(program, "NO") {
            None => Err(VmError::invalid_state("NO variable is missing")),
            Some(g) => Ok(SortInput { variable: g.key, indices: Vec::new(), descending }),
        };
    }
    match &arguments[0] {
        VmValue::IntegerPlace(place) => read_sort_place(program, place, arguments),
        VmValue::StringPlace(place) => read_sort_place(program, place, arguments),
        _ => Err(VmError::invalid_arguments("SORTCHARA key or order is invalid")),
    }
}

/// The position of the master, where there is such a character.
pub open spec fn master_position(master: i64, count: nat) -> Option<int> {
    if 0 <= master < count {
        Some(master as int)
    } else {
        None
    }
}

/// The first `n` positions without the master's.
pub open spec fn others(master: Option<int>, n: nat) -> Seq<usize>
    decreases n,
{
    if n == 0 {
        Seq::empty()
    } else {
        let before = others(master, (n - 1) as nat);
        if master == Some(n - 1) {
            before
        } else {
            before.push((n - 1) as usize)
        }
    }
}

pub proof fn lemma_others(master: Option<int>, n: nat)
    requires
        n <= usize::MAX,
    ensures
        others(master, n).len() == if master is Some && 0 <= master->0 < n {
            n - 1
        } else {
            n as int
        },
        others(master, n).no_duplicates(),
        forall|i: int|
            0 <= i < others(master, n).len() ==> #[trigger] others(master, n)[i] < n && master
                != Some(others(master, n)[i] as int),
        forall|k: usize| k < n && master != Some(k as int) ==> others(master, n).contains(k),
    decreases n,
{
    if n > 0 {
        lemma_others(master, (n - 1) as nat);
        let before = others(master, (n - 1) as nat);
        let all = others(master, n);
        assert forall|k: usize| k < n && master != Some(k as int) implies all.contains(k) by {
            if k < n - 1 {
                assert(before.contains(k));
                let i = choose|i: int| 0 <= i < before.len() && before[i] == k;
                assert(all[i] == k);
            } else {
                assert(all[all.len() - 1] == k);
            }
        }
    }
}

/// The keys of the characters at some positions.
pub open spec fn keys_at(characters: Seq<Cells>, key: SortKey, at: Seq<usize>) -> Result<
    Seq<Val>,
    Trouble,
>
    decreases at.len(),
{
    if at.len() == 0 {
        Ok(Seq::empty())
    } else {
        match keys_at(characters, key, at.drop_last()) {
            Err(e) => Err(e),
            Ok(before) => match memory::cell_of(characters[at.last() as int], key.variable) {
                None => Err(Trouble::InvalidState("SORTCHARA key storage is unavailable"@)),
                Some(cell) => match cell.read(key.indices) {
                    Ok(v) => Ok(before.push(v)),
                    Err(m) => Err(Trouble::InvalidState(m)),
                },
            },
        }
    }
}

proof fn lemma_keys_stop(characters: Seq<Cells>, key: SortKey, at: Seq<usize>, n: int)
    requires
        0 <= n <= at.len(),
        keys_at(characters, key, at.take(n)) is Err,
    ensures
        keys_at(characters, key, at) == keys_at(characters, key, at.take(n)),
    decreases at.len() - n,
{
    if n == at.len() {
        assert(at.take(n) =~= at);
    } else {
        assert(at.take(n + 1).drop_last() =~= at.take(n));
        lemma_keys_stop(characters, key, at, n + 1);
    }
}

proof fn lemma_keys_len(characters: Seq<Cells>, key: SortKey, at: Seq<usize>)
    ensures
        keys_at(characters, key, at) matches Ok(keys) ==> keys.len() == at.len(),
    decreases at.len(),
{
    if at.len() > 0 {
        lemma_keys_len(characters, key, at.drop_last());
    }
}

fn read_keys(characters: &Vec<CellMap>, key: &SortInput, at: &Vec<usize>) -> (r: Result<
    Vec<VmValue>,
    VmError,
>)
    requires
        forall|i: int| 0 <= i < at@.len() ==> #[trigger] at@[i] < characters@.len(),
    ensures
        match r {
            Ok(v) => keys_at(state::character_views(characters@), key@, at@) == Ok::<
                Seq<Val>,
                Trouble,
            >(value::vals(v@)) && v@.len() == at@.len(),
            Err(e) => keys_at(state::character_views(characters@), key@, at@) == Err::<
                Seq<Val>,
                Trouble,
            >(e@),
        },
{
    let ghost all = state::character_views(characters@);
    let mut out: Vec<VmValue> = Vec::new();
    let mut i: usize = 0;
    proof {
        assert(at@.take(0) =~= Seq::<usize>::empty());
        assert(value::vals(out@) =~= Seq::<Val>::empty());
    }
    while i < at.len()
        invariant
            i <= at.len(),
            all == state::character_views(characters@),
            out@.len() == i,
            forall|j: int| 0 <= j < at@.len() ==> #[trigger] at@[j] < characters@.len(),
            keys_at(all, key@, at@.take(i as int)) == Ok::<Seq<Val>, Trouble>(value::vals(out@)),
        decreases at.len() - i,
    {
        proof {
            assert(at@.take(i + 1).drop_last() =~= at@.take(i as int));
            if keys_at(all, key@, at@.take(i + 1)) is Err {
                lemma_keys_stop(all, key@, at@, i + 1);
            }
        }
        match characters[at[i]].get(key.variable) {
            None => {
                return Err(VmError::invalid_state("SORTCHARA key storage is unavailable"));
            },
            Some(cell) => match cell.read(key.indices.as_slice()) {
                Ok(v) => {
                    let ghost before = out@;
                    out.push(v);
                    assert(value::vals(out@) =~= value::vals(before).push(v@));
                },
                Err(m) => {
                    return Err(VmError::InvalidState(m));
                },
            },
        }
        i = i + 1;
    }
    assert(at@.take(i as int) =~= at@);
    Ok(out)
}

/// The positions that an order of positions among others means.
pub open spec fn composed(at: Seq<usize>, order: Seq<usize>) -> Seq<usize> {
    Seq::new(order.len(), |i: int| at[order[i] as int])
}

/// All positions in their new order: sorted by the keys, the master where it stood.
pub open spec fn arranged(
    master: Option<int>,
    at: Seq<usize>,
    keys: Seq<Val>,
    descending: bool,
) -> Seq<usize> {
    let up = sorting::sorted_order(keys, at.len());
    let order = composed(
        at,
        if descending {
            up.reverse()
        } else {
            up
        },
    );
    match master {
        Some(m) => order.insert(m, m as usize),
        None => order,
    }
}

fn arrange(master: Option<usize>, at: &Vec<usize>, keys: &Vec<VmValue>, descending: bool) -> (r:
    Vec<usize>)
    requires
        keys@.len() == at@.len(),
        master matches Some(m) ==> m <= at@.len(),
    ensures
        r@ == arranged(
            match master {
                Some(m) => Some(m as int),
                None => None,
            },
            at@,
            value::vals(keys@),
            descending,
        ),
        forall|i: int|
            0 <= i < r@.len() ==> master == Some(#[trigger] r@[i]) || at@.contains(r@[i]),
{
    let up = sorting::stable_order(keys, keys.len());
    let order = if descending {
        sorting::reversed(&up)
    } else {
        up
    };
    proof {
        assert forall|i: int| 0 <= i < order@.len() implies #[trigger] order@[i] < at@.len() by {
            if descending {
                assert(order@[i] == up@[up@.len() - 1 - i]);
            }
        }
    }
    let mut out: Vec<usize> = Vec::new();
    let mut i: usize = 0;
    while i < order.len()
        invariant
            i <= order.len(),
            out@.len() == i,
            forall|j: int| 0 <= j < order@.len() ==> #[trigger] order@[j] < at@.len(),
            forall|j: int| 0 <= j < i ==> #[trigger] out@[j] == at@[order@[j] as int],
        decreases order.len() - i,
    {
        out.push(at[order[i]]);
        i = i + 1;
    }
    proof {
        assert(out@ =~= composed(at@, order@));
        assert forall|j: int| 0 <= j < out@.len() implies at@.contains(#[trigger] out@[j]) by {
            assert(at@[order@[j] as int] == out@[j]);
        }
    }
    match master {
        Some(m) => {
            let ghost before = out@;
            out.insert(m, m);
            assert forall|j: int| 0 <= j < out@.len() implies master == Some(#[trigger] out@[j])
                || at@.contains(out@[j]) by {
                if j < m {
                    assert(out@[j] == before[j]);
                } else if j > m {
                    assert(out@[j] == before[j - 1]);
                }
            }
        },
        None => {},
    }
    out
}

fn other_positions(master: Option<usize>, n: usize) -> (r: Vec<usize>)
    ensures
        r@ == others(
            match master {
                Some(m) => Some(m as int),
                None => None,
            },
            n as nat,
        ),
{
    let mut out: Vec<usize> = Vec::new();
    let mut i: usize = 0;
    while i < n
        invariant
            i <= n,
            out@ == others(
                match master {
                    Some(m) => Some(m as int),
                    None => None,
                },
                i as nat,
            ),
        decreases n - i,
    {
        let is_master = match master {
            Some(m) => m == i,
            None => false,
        };
        if !is_master {
            out.push(i);
        }
        i = i + 1;
    }
    out
}

/// Storage after a special character was followed to its new position.
pub open spec fn followed(
    program: ProgramGeneration,
    store: Store,
    name: Seq<char>,
    at: Seq<usize>,
    old_position: i64,
) -> Result<Store, Trouble> {
    match lookup::first_index(at, position_is(old_position)) {
        Some(i) => named::named_written(program, store, name, fastpaths::count_integer(i as nat)),
        None => Ok(store),
    }
}

fn follow(
    program: &ProgramGeneration,
    memory: &mut Memory,
    name: &str,
    at: &Vec<usize>,
    old_position: i64,
) -> (r: Result<(), VmError>)
    ensures
        match r {
            Ok(_) => followed(*program, old(memory)@, name@, at@, old_position) == Ok::<
                Store,
                Trouble,
            >(final(memory)@),
            Err(e) => followed(*program, old(memory)@, name@, at@, old_position) == Err::<
                Store,
                Trouble,
            >(e@) && final(memory)@ == old(memory)@,
        },
        final(memory)@.statics == old(memory)@.statics,
        final(memory)@.leases == old(memory)@.leases,
{
    let mut i: usize = 0;
    while i < at.len() && !(old_position >= 0 && at[i] as u64 == old_position as u64)
        invariant
            i <= at.len(),
            forall|j: int| 0 <= j < i ==> !position_is(old_position)(#[trigger] at@[j]),
        decreases at.len() - i,
    {
        i = i + 1;
    }
    if i < at.len() {
        proof {
            lookup::lemma_first_found(at@, position_is(old_position), i as int);
        }
        named::write_named_integer(program, memory, name, fastpaths::integer_of_count(i))
    } else {
        proof {
            lookup::lemma_first_none(at@, position_is(old_position));
        }
        Ok(())
    }
}

/// The new order of all characters.
pub open spec fn new_order(program: ProgramGeneration, store: Store, arguments: Seq<Val>) -> Result<
    Seq<usize>,
    Trouble,
> {
    match sort_key(program, arguments) {
        Err(e) => Err(e),
        Ok(key) => {
            let count = store.characters.len();
            let master = master_position(named_or_none(program, store, "MASTER"@), count);
            match keys_at(store.characters, key, others(master, count)) {
                Err(e) => Err(e),
                Ok(keys) => Ok(arranged(master, others(master, count), keys, key.descending)),
            }
        },
    }
}

/// Storage after the characters were sorted and the target and the assistant were followed, up to
/// the first step that fails.
pub open spec fn sorted(program: ProgramGeneration, store: Store, arguments: Seq<Val>) -> (
    Store,
    Result<(), Trouble>,
) {
    if store.characters.len() <= 1 {
        (store, Ok(()))
    } else {
        match new_order(program, store, arguments) {
            Err(e) => (store, Err(e)),
            Ok(at) => {
                let store1 = Store { characters: taken(store.characters, at), ..store };
                match followed(
                    program,
                    store1,
                    "TARGET"@,
                    at,
                    named_or_none(program, store, "TARGET"@),
                ) {
                    Err(e) => (store1, Err(e)),
                    Ok(store2) => changed(
                        store2,
                        followed(
                            program,
                            store2,
                            "ASSI"@,
                            at,
                            named_or_none(program, store, "ASSI"@),
                        ),
                    ),
                }
            },
        }
    }
}

/// Sorts the characters, all but the master, and follows the target and the assistant. What was
/// done before a step that fails stays.
pub fn sort_characters(
    program: &ProgramGeneration,
    memory: &mut Memory,
    arguments: &Vec<VmValue>,
) -> (r: Result<(), VmError>)
    ensures
        (final(memory)@, fault::result(r)) == sorted(
            *program,
            old(memory)@,
            value::vals(arguments@),
        ),
        final(memory)@.statics == old(memory)@.statics,
        final(memory)@.leases == old(memory)@.leases,
{
    let count: usize = memory.characters.len();
    if count <= 1 {
        return Ok(());
    }
    let key = match read_sort_key(program, arguments) {
        Ok(k) => k,
        Err(e) => {
            return Err(e);
        },
    };
    let master: i64 = read_or_none(program, memory, "MASTER");
    let target: i64 = read_or_none(program, memory, "TARGET");
    let assi: i64 = read_or_none(program, memory, "ASSI");
    let master: Option<usize> = if master >= 0 && (master as u64) < (count as u64) {
        Some(master as usize)
    } else {
        None
    };
    let at = other_positions(master, count);
    proof {
        lemma_others(
            match master {
                Some(m) => Some(m as int),
                None => None,
            },
            count as nat,
        );
    }
    let keys = match read_keys(&memory.characters, &key, &at) {
        Ok(k) => k,
        Err(e) => {
            return Err(e);
        },
    };
    let order = arrange(master, &at, &keys, key.descending);
    proof {
        assert forall|i: int| 0 <= i < order@.len() implies #[trigger] order@[i] < count by {
            if master != Some(order@[i]) {
                let j = choose|j: int| 0 <= j < at@.len() && at@[j] == order@[i];
                assert(at@[j] < count);
            }
        }
    }
    let characters = take_characters(&memory.characters, &order);
    memory.characters = characters;
    match follow(program, memory, "TARGET", &order, target) {
        Ok(_) => {},
        Err(e) => {
            return Err(e);
        },
    }
    follow(program, memory, "ASSI", &order, assi)
}

/// Storage after a mutation that reorders the characters, and its success.
pub open spec fn reordered(
    program: ProgramGeneration,
    store: Store,
    mutation: CharacterMutation,
    arguments: Seq<Val>,
) -> Result<Store, Trouble> {
    let moved = if mutation == CharacterMutation::PickupChara {
        picked_up(program, store, arguments)
    } else {
        sorted(program, store, arguments)
    };
    match moved.1 {
        Err(e) => Err(e),
        Ok(_) => named::named_written(
            program,
            moved.0,
            "CHARANUM"@,
            fastpaths::count_integer(moved.0.characters.len()),
        ),
    }
}

/// Storage after a mutation in place, and its success.
pub open spec fn edited(
    program: ProgramGeneration,
    store: Store,
    mutation: Option<CharacterMutation>,
    arguments: Seq<Val>,
) -> (Store, Result<(), Trouble>) {
    match named::named_slot(program, store, "CHARANUM"@) {
        Err(e) => (store, Err(e)),
        Ok(_) => match mutated(program, store.characters, mutation, arguments) {
            Err(e) => (store, Err(e)),
            Ok(characters) => {
                let next = Store { characters, ..store };
                match named::named_written(
                    program,
                    next,
                    "CHARANUM"@,
                    fastpaths::count_integer(characters.len()),
                ) {
                    Err(e) => (next, Err(e)),
                    Ok(last) => (last, Ok(())),
                }
            },
        },
    }
}

/// The machine after a mutation of its characters, and the mutation's success.
pub open spec fn character_mutation(vm: VmModel, name: Seq<char>, arguments: Seq<Val>) -> (
    VmModel,
    Result<(), Trouble>,
) {
    match vm.program(vm.current_generation) {
        None => (vm, Err(Trouble::InvalidState("character mutation generation is missing"@))),
        Some(program) => {
            let mutation = mutation_named(name);
            if mutation == Some(CharacterMutation::PickupChara) || mutation == Some(
                CharacterMutation::SortChara,
            ) {
                match reordered(program, vm.store, mutation->0, arguments) {
                    Err(e) => (vm, Err(e)),
                    Ok(store) => (VmModel { store, ..vm }, Ok(())),
                }
            } else {
                let (store, r) = edited(program, vm.store, mutation, arguments);
                (VmModel { store, ..vm }, r)
            }
        },
    }
}

fn reorder(
    program: &ProgramGeneration,
    memory: &mut Memory,
    mutation: CharacterMutation,
    arguments: &Vec<VmValue>,
) -> (r: Result<(), VmError>)
    ensures
        match r {
            Ok(_) => reordered(*program, old(memory)@, mutation, value::vals(arguments@)) == Ok::<
                Store,
                Trouble,
            >(final(memory)@),
            Err(e) => reordered(*program, old(memory)@, mutation, value::vals(arguments@))
                == Err::<Store, Trouble>(e@),
        },
        final(memory)@.statics == old(memory)@.statics,
        final(memory)@.leases == old(memory)@.leases,
{
    let moved = if mutation == CharacterMutation::PickupChara {
        pickup_characters(program, memory, arguments)
    } else {
        sort_characters(program, memory, arguments)
    };
    match moved {
        Err(e) => Err(e),
        Ok(_) => {
            let count: i64 = fastpaths::integer_of_count(memory.characters.len());
            named::write_named_integer(program, memory, "CHARANUM", count)
        },
    }
}

/// Mutates the characters of the machine.
pub fn execute_character_mutation(vm: &mut Vm, operation: &str, arguments: &Vec<VmValue>) -> (r:
    Result<(), VmError>)
    ensures
        (final(vm)@, fault::result(r)) == character_mutation(
            old(vm)@,
            operation@,
            value::vals(arguments@),
        ),
{
    let program = match vm.program(vm.current_generation) {
        Some(p) => p,
        None => {
            return Err(VmError::invalid_state("character mutation generation is missing"));
        },
    };
    let mutation = parse_mutation(operation);
    match mutation {
        Some(CharacterMutation::PickupChara) | Some(CharacterMutation::SortChara) => {
            let kind = match mutation {
                Some(m) => m,
                None => CharacterMutation::SortChara,
            };
            let shared = vm.memory.shared.clone();
            let characters = copy_characters(&vm.memory.characters);
            match reorder(&program, &mut vm.memory, kind, arguments) {
                Ok(_) => Ok(()),
                Err(e) => {
                    vm.memory.shared = shared;
                    vm.memory.characters = characters;
                    assert(vm@ =~= old(vm)@);
                    Err(e)
                },
            }
        },
        _ => {
            match named::validate_named_integer_slot(&program, &vm.memory, "CHARANUM") {
                Ok(_) => {},
                Err(e) => {
                    return Err(e);
                },
            }
            match mutate_characters(&program, &mut vm.memory.characters, mutation, arguments) {
                Ok(_) => {},
                Err(e) => {
                    return Err(e);
                },
            }
            let count: i64 = fastpaths::integer_of_count(vm.memory.characters.len());
            named::write_named_integer(&program, &mut vm.memory, "CHARANUM", count)
        },
    }
}

/// After a mutation that succeeds, CHARANUM is the number of characters.
pub proof fn law_count_is_kept(vm: VmModel, name: Seq<char>, arguments: Seq<Val>)
    requires
        character_mutation(vm, name, arguments).1 is Ok,
    ensures
        vm.program(vm.current_generation) matches Some(program) && {
            let store = character_mutation(vm, name, arguments).0.store;
            named::named_integer(program, store, "CHARANUM"@) == Some(
                fastpaths::count_integer(store.characters.len()),
            )
        },
{
    let program = vm.program(vm.current_generation)->0;
    let mutation = mutation_named(name);
    if mutation == Some(CharacterMutation::PickupChara) || mutation == Some(
        CharacterMutation::SortChara,
    ) {
        let moved = if mutation->0 == CharacterMutation::PickupChara {
            picked_up(program, vm.store, arguments).0
        } else {
            sorted(program, vm.store, arguments).0
        };
        named::law_named_integer_reads_back(
            program,
            moved,
            "CHARANUM"@,
            fastpaths::count_integer(moved.characters.len()),
        );
    } else {
        let characters = mutated(program, vm.store.characters, mutation, arguments)->Ok_0;
        let moved = Store { characters, ..vm.store };
        named::law_named_integer_reads_back(
            program,
            moved,
            "CHARANUM"@,
            fastpaths::count_integer(characters.len()),
        );
    }
}

/// A mutation that fails leaves the machine as it was, unless CHARANUM is a text.
pub proof fn law_failed_mutation_changes_nothing(
    vm: VmModel,
    name: Seq<char>,
    arguments: Seq<Val>,
)
    requires
        vm.program(vm.current_generation) matches Some(program) ==> named::named_slot(
            program,
            vm.store,
            "CHARANUM"@,
        ) is Err || named::named_integer(program, vm.store, "CHARANUM"@) is Some,
        character_mutation(vm, name, arguments).1 is Err,
    ensures
        character_mutation(vm, name, arguments).0 == vm,
{
}

/// Sorting puts each character at one position, and leaves the master where it is.
pub proof fn law_sort_is_a_permutation(program: ProgramGeneration, store: Store, arguments: Seq<Val>)
    requires
        store.characters.len() <= usize::MAX,
        new_order(program, store, arguments) is Ok,
    ensures
        ({
            let count = store.characters.len();
            let order = new_order(program, store, arguments)->Ok_0;
            let master = master_position(named_or_none(program, store, "MASTER"@), count);
            &&& order.len() == count
            &&& forall|k: usize| k < count ==> #[trigger] order.contains(k)
            &&& forall|i: int| 0 <= i < count ==> #[trigger] order[i] < count
            &&& master matches Some(m) ==> order[m] == m
        }),
{
    let count = store.characters.len();
    let key = sort_key(program, arguments)->Ok_0;
    let order = new_order(program, store, arguments)->Ok_0;
    let master = master_position(named_or_none(program, store, "MASTER"@), count);
    let at = others(master, count);
    let keys = keys_at(store.characters, key, at)->Ok_0;
    lemma_others(master, count);
    lemma_keys_len(store.characters, key, at);
    lemma_order_holds_all(keys, at.len());
    let up = sorting::sorted_order(keys, at.len());
    let used = if key.descending {
        up.reverse()
    } else {
        up
    };
    assert forall|j: usize| j < at.len() implies used.contains(j) by {
        assert(up.contains(j));
        let i = choose|i: int| 0 <= i < up.len() && up[i] == j;
        if key.descending {
            assert(used[up.len() - 1 - i] == j);
        } else {
            assert(used[i] == j);
        }
    }
    assert forall|i: int| 0 <= i < used.len() implies #[trigger] used[i] < at.len() by {
        if key.descending {
            assert(used[i] == up[up.len() - 1 - i]);
        }
    }
    let base = composed(at, used);
    assert forall|k: usize| k < count && master != Some(k as int) implies base.contains(k) by {
        assert(at.contains(k));
        let j = choose|j: int| 0 <= j < at.len() && at[j] == k;
        assert(used.contains(j as usize));
        let i = choose|i: int| 0 <= i < used.len() && used[i] == j;
        assert(base[i] == k);
    }
    assert forall|i: int| 0 <= i < base.len() implies #[trigger] base[i] < count by {
        assert(used[i] < at.len());
        assert(at[used[i] as int] < count);
    }
    if master is Some {
        let m = master->0;
        assert(order == base.insert(m, m as usize));
        assert(order[m] == m);
        assert forall|k: usize| k < count implies #[trigger] order.contains(k) by {
            if k != m {
                assert(base.contains(k));
                let i = choose|i: int| 0 <= i < base.len() && base[i] == k;
                if i < m {
                    assert(order[i] == k);
                } else {
                    assert(order[i + 1] == k);
                }
            }
        }
        assert forall|i: int| 0 <= i < count implies #[trigger] order[i] < count by {
            if i < m {
                assert(order[i] == base[i]);
            } else if i > m {
                assert(order[i] == base[i - 1]);
            }
        }
    } else {
        assert(order == base);
    }
}

proof fn lemma_order_holds_all(keys: Seq<Val>, n: nat)
    requires
        n <= usize::MAX,
    ensures
        sorting::sorted_order(keys, n).len() == n,
        forall|k: usize| k < n ==> #[trigger] sorting::sorted_order(keys, n).contains(k),
        forall|i: int| 0 <= i < n ==> #[trigger] sorting::sorted_order(keys, n)[i] < n,
    decreases n,
{
    if n > 0 {
        lemma_order_holds_all(keys, (n - 1) as nat);
        let before = sorting::sorted_order(keys, (n - 1) as nat);
        let all = sorting::sorted_order(keys, n);
        let p = sorting::behind(keys, n - 1);
        lookup::lemma_first_index(before, p);
        let at = sorting::insertion_point(keys, before, n - 1);
        assert(all == before.insert(at, (n - 1) as usize));
        assert(all[at] == n - 1);
        assert forall|k: usize| k < n implies #[trigger] all.contains(k) by {
            if k < n - 1 {
                assert(before.contains(k));
                let i = choose|i: int| 0 <= i < before.len() && before[i] == k;
                if i < at {
                    assert(all[i] == k);
                } else {
                    assert(all[i + 1] == k);
                }
            }
        }
        assert forall|i: int| 0 <= i < n implies #[trigger] all[i] < n by {
            if i < at {
                assert(all[i] == before[i]);
            } else if i > at {
                assert(all[i] == before[i - 1]);
            }
        }
    }
}

/// Swapping the same two characters twice restores them.
pub proof fn law_swap_twice_restores(
    program: ProgramGeneration,
    characters: Seq<Cells>,
    arguments: Seq<Val>,
)
    requires
        mutated(program, characters, Some(CharacterMutation::SwapChara), arguments) is Ok,
    ensures
        mutated(
            program,
            mutated(program, characters, Some(CharacterMutation::SwapChara), arguments)->Ok_0,
            Some(CharacterMutation::SwapChara),
            arguments,
        ) == Ok::<Seq<Cells>, Trouble>(characters),
{
    let (a, b) = two_positions(arguments, characters.len())->Ok_0;
    assert(characters.update(a, characters[b]).update(b, characters[a]).update(
        a,
        characters.update(a, characters[b]).update(b, characters[a])[b],
    ).update(b, characters.update(a, characters[b]).update(b, characters[a])[a]) =~= characters);
}

} // verus!
