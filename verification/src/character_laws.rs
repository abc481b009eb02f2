//! What the operations on the list of characters leave.

use vstd::prelude::*;
use crate::array_laws;
use crate::character_ops::{self, CharacterMutation, SortKey};
use crate::character_query;
use crate::fastpaths;
use crate::fault::Trouble;
use crate::lookup;
use crate::memory::{self, Cells, Data};
use crate::named;
use crate::program::ProgramGeneration;
use crate::sorting;
use crate::state::{Store, VmModel};
use crate::text;
use crate::value::{Place, SymbolKey, Val};

verus! {

proof fn lemma_mutation_names()
    ensures
        character_ops::mutation_named("pickupchara"@) == Some(CharacterMutation::PickupChara),
        character_ops::mutation_named("sortchara"@) == Some(CharacterMutation::SortChara),
        character_ops::mutation_named("addchara"@) == Some(CharacterMutation::AddChara),
        character_ops::mutation_named("addspchara"@) == Some(CharacterMutation::AddSpChara),
        character_ops::mutation_named("adddefchara"@) == Some(CharacterMutation::AddDefChara),
        character_ops::mutation_named("addvoidchara"@) == Some(CharacterMutation::AddVoidChara),
        character_ops::mutation_named("delchara"@) == Some(CharacterMutation::DelChara),
        character_ops::mutation_named("delallchara"@) == Some(CharacterMutation::DelAllChara),
        character_ops::mutation_named("swapchara"@) == Some(CharacterMutation::SwapChara),
        character_ops::mutation_named("copychara"@) == Some(CharacterMutation::CopyChara),
        character_ops::mutation_named("addcopychara"@) == Some(CharacterMutation::AddCopyChara),
        character_ops::mutation_named("reset_stain"@) == Some(CharacterMutation::ResetStain),
{
    reveal_strlit("pickupchara");
    reveal_strlit("sortchara");
    reveal_strlit("addchara");
    reveal_strlit("addspchara");
    reveal_strlit("adddefchara");
    reveal_strlit("addvoidchara");
    reveal_strlit("delchara");
    reveal_strlit("delallchara");
    reveal_strlit("swapchara");
    reveal_strlit("copychara");
    reveal_strlit("addcopychara");
    reveal_strlit("reset_stain");
    assert("pickupchara"@.len() == 11);
    assert("sortchara"@.len() == 9);
    assert("addchara"@.len() == 8);
    assert("addspchara"@.len() == 10);
    assert("adddefchara"@.len() == 11);
    assert("addvoidchara"@.len() == 12);
    assert("delchara"@.len() == 8);
    assert("delallchara"@.len() == 11);
    assert("swapchara"@.len() == 9);
    assert("copychara"@.len() == 9);
    assert("addcopychara"@.len() == 12);
    assert("reset_stain"@.len() == 11);
    assert("addchara"@[0] != "delchara"@[0]);
    assert("sortchara"@[1] != "swapchara"@[1]);
    assert("sortchara"@[0] != "copychara"@[0]);
    assert("swapchara"@[0] != "copychara"@[0]);
    assert("pickupchara"@[0] != "adddefchara"@[0]);
    assert("pickupchara"@[0] != "delallchara"@[0]);
    assert("pickupchara"@[0] != "reset_stain"@[0]);
    assert("adddefchara"@[0] != "delallchara"@[0]);
    assert("adddefchara"@[0] != "reset_stain"@[0]);
    assert("delallchara"@[0] != "reset_stain"@[0]);
    assert("addvoidchara"@[3] != "addcopychara"@[3]);
}

/// The characters of a machine.
pub open spec fn characters(vm: VmModel) -> Seq<Cells> {
    vm.store.characters
}

/// Two arguments name characters.
pub open spec fn names_two(arguments: Seq<Val>, a: int, b: int, count: nat) -> bool {
    &&& arguments.len() >= 2
    &&& arguments[0] matches Val::Integer(x) && x == a
    &&& arguments[1] matches Val::Integer(y) && y == b
    &&& 0 <= a < count
    &&& 0 <= b < count
}

/// After COPYCHARA the second character is what the first was, and every other one, the first
/// among them, is as it was. Positions that name no character are refused.
pub proof fn law_copied_character(vm: VmModel, arguments: Seq<Val>)
    ensures
        ({
            let (after, r) = character_ops::character_mutation(vm, "copychara"@, arguments);
            r is Ok ==> exists|a: int, b: int| #[trigger]
                names_two(arguments, a, b, characters(vm).len()) && characters(after).len()
                    == characters(vm).len() && characters(after)[b] == characters(vm)[a] && forall|
                    i: int,
                |
                    0 <= i < characters(vm).len() && i != b ==> #[trigger] characters(after)[i]
                        == characters(vm)[i]
        }),
{
    lemma_mutation_names();
    let (after, r) = character_ops::character_mutation(vm, "copychara"@, arguments);
    if r is Ok {
        let (a, b) = character_ops::two_positions(arguments, characters(vm).len())->Ok_0;
        assert(names_two(arguments, a, b, characters(vm).len()));
    }
}

/// After SWAPCHARA the two characters have changed places, and the others are as they were.
pub proof fn law_swapped_characters(vm: VmModel, arguments: Seq<Val>)
    ensures
        ({
            let (after, r) = character_ops::character_mutation(vm, "swapchara"@, arguments);
            r is Ok ==> exists|a: int, b: int| #[trigger]
                names_two(arguments, a, b, characters(vm).len()) && characters(after).len()
                    == characters(vm).len() && characters(after)[b] == characters(vm)[a]
                    && characters(after)[a] == characters(vm)[b] && forall|i: int|
                    0 <= i < characters(vm).len() && i != a && i != b ==> #[trigger] characters(
                        after,
                    )[i] == characters(vm)[i]
        }),
{
    lemma_mutation_names();
    let (after, r) = character_ops::character_mutation(vm, "swapchara"@, arguments);
    if r is Ok {
        let (a, b) = character_ops::two_positions(arguments, characters(vm).len())->Ok_0;
        assert(names_two(arguments, a, b, characters(vm).len()));
    }
}

/// A value is an integer.
pub open spec fn is_integer(v: Val, n: int) -> bool {
    v matches Val::Integer(x) && x == n
}

/// Some argument is a position.
pub open spec fn is_given(arguments: Seq<Val>, p: int) -> bool {
    exists|k: int| 0 <= k < arguments.len() && is_integer(#[trigger] arguments[k], p as int)
}

/// How many of the first `p` positions are not given.
pub open spec fn ungiven(arguments: Seq<Val>, p: nat) -> nat
    decreases p,
{
    if p == 0 {
        0
    } else {
        ungiven(arguments, (p - 1) as nat) + if is_given(arguments, p - 1) {
            0nat
        } else {
            1
        }
    }
}

proof fn lemma_positions(arguments: Seq<Val>, negative: Seq<char>, other: Seq<char>)
    requires
        character_ops::positions(arguments, negative, other) is Ok,
    ensures
        ({
            let at = character_ops::positions(arguments, negative, other)->Ok_0;
            &&& at.len() == arguments.len()
            &&& forall|k: int|
                0 <= k < at.len() ==> is_integer(arguments[k], #[trigger] at[k] as int)
        }),
    decreases arguments.len(),
{
    if arguments.len() > 0 {
        lemma_positions(arguments.drop_last(), negative, other);
        let before = character_ops::positions(arguments.drop_last(), negative, other)->Ok_0;
        let at = character_ops::positions(arguments, negative, other)->Ok_0;
        assert forall|k: int| 0 <= k < at.len() implies is_integer(arguments[k], #[trigger] at[k] as int) by {
            if k < before.len() {
                assert(at[k] == before[k]);
                assert(arguments.drop_last()[k] == arguments[k]);
            }
        }
    }
}

/// A character that is not given stands behind as many as are not given before it.
pub open spec fn stays_at(
    arguments: Seq<Val>,
    all: Seq<Cells>,
    gone: Seq<usize>,
    n: nat,
    c: Cells,
    p: int,
) -> bool {
    let left = character_ops::remaining(all, gone, n);
    is_given(arguments, p) || (ungiven(arguments, p as nat) < left.len() && left[ungiven(
        arguments,
        p as nat,
    ) as int] == c)
}

proof fn lemma_remaining(all: Seq<Cells>, arguments: Seq<Val>, gone: Seq<usize>, n: nat)
    requires
        n <= all.len(),
        n <= usize::MAX,
        gone.len() == arguments.len(),
        forall|k: int|
            0 <= k < gone.len() ==> is_integer(arguments[k], #[trigger] gone[k] as int),
    ensures
        character_ops::remaining(all, gone, n).len() == ungiven(arguments, n),
        forall|p: int| 0 <= p < n ==> stays_at(arguments, all, gone, n, #[trigger] all[p], p),
    decreases n,
{
    if n > 0 {
        lemma_remaining(all, arguments, gone, (n - 1) as nat);
        let p = (n - 1) as usize;
        if gone.contains(p) {
            let k = choose|k: int| 0 <= k < gone.len() && gone[k] == p;
            assert(is_integer(arguments[k], gone[k] as int));
            assert(is_given(arguments, n - 1));
        } else if is_given(arguments, n - 1) {
            let k = choose|k: int|
                0 <= k < arguments.len() && is_integer(#[trigger] arguments[k], n - 1 as int);
            assert(is_integer(arguments[k], gone[k] as int));
            assert(gone[k] == p);
            assert(gone.contains(p));
        }
        let before = character_ops::remaining(all, gone, (n - 1) as nat);
        let left = character_ops::remaining(all, gone, n);
        assert(left.len() == ungiven(arguments, n));
        assert forall|q: int| 0 <= q < n implies stays_at(
            arguments,
            all,
            gone,
            n,
            #[trigger] all[q],
            q,
        ) by {
            if q < n - 1 {
                assert(stays_at(arguments, all, gone, (n - 1) as nat, all[q], q));
            } else {
                assert(is_given(arguments, q) || ungiven(arguments, n) == ungiven(
                    arguments,
                    q as nat,
                ) + 1);
            }
        }
    }
}

/// After DELCHARA exactly the characters at the given positions are gone; the others keep their
/// order. DELALLCHARA leaves none.
pub proof fn law_deleted_characters(vm: VmModel, arguments: Seq<Val>)
    requires
        characters(vm).len() <= usize::MAX,
    ensures
        ({
            let (after, r) = character_ops::character_mutation(vm, "delchara"@, arguments);
            r is Ok ==> {
                &&& characters(after).len() == ungiven(arguments, characters(vm).len())
                &&& forall|p: int|
                    0 <= p < characters(vm).len() && !is_given(arguments, p) ==> characters(
                        after,
                    )[ungiven(arguments, p as nat) as int] == #[trigger] characters(vm)[p]
                &&& forall|k: int|
                    0 <= k < arguments.len() ==> (#[trigger] arguments[k] matches Val::Integer(n)
                        && 0 <= n < characters(vm).len())
            }
        }),
        ({
            let (after, r) = character_ops::character_mutation(vm, "delallchara"@, arguments);
            r is Ok ==> characters(after).len() == 0
        }),
{
    lemma_mutation_names();
    let (after, r) = character_ops::character_mutation(vm, "delchara"@, arguments);
    if r is Ok {
        let negative = "DELCHARA index is negative"@;
        let other = "DELCHARA arguments must be integers"@;
        lemma_positions(arguments, negative, other);
        let gone = character_ops::positions(arguments, negative, other)->Ok_0;
        lemma_remaining(characters(vm), arguments, gone, characters(vm).len());
        assert forall|p: int|
            0 <= p < characters(vm).len() && !is_given(arguments, p) implies characters(
            after,
        )[ungiven(arguments, p as nat) as int] == #[trigger] characters(vm)[p] by {
            assert(stays_at(
                arguments,
                characters(vm),
                gone,
                characters(vm).len(),
                characters(vm)[p],
                p,
            ));
        }
        assert forall|k: int| 0 <= k < arguments.len() implies (
        #[trigger] arguments[k] matches Val::Integer(n) && 0 <= n < characters(vm).len()) by {
            assert(gone[k] < characters(vm).len());
        }
    }
}

/// A template is the first with a number and a mark.
pub open spec fn is_template(program: ProgramGeneration, t: int, number: i64, special: bool) -> bool {
    &&& 0 <= t < program.characters@.len()
    &&& program.characters@[t].no == number
    &&& program.characters@[t].is_sp_character == special
    &&& forall|s: int|
        0 <= s < t ==> !((#[trigger] program.characters@[s]).no == number
            && program.characters@[s].is_sp_character == special)
}

/// A new character is as the template with a number starts.
pub open spec fn starts_as(program: ProgramGeneration, argument: Val, special: bool, c: Cells) -> bool {
    argument matches Val::Integer(number) && exists|t: int| #[trigger]
        is_template(program, t, number, special) && c == program.characters@[t].initial@
}

proof fn lemma_added(program: ProgramGeneration, arguments: Seq<Val>, special: bool)
    requires
        character_ops::added(program, arguments, special) is Ok,
    ensures
        ({
            let new = character_ops::added(program, arguments, special)->Ok_0;
            &&& new.len() == arguments.len()
            &&& forall|k: int|
                0 <= k < new.len() ==> starts_as(program, arguments[k], special, #[trigger] new[k])
        }),
    decreases arguments.len(),
{
    if arguments.len() > 0 {
        lemma_added(program, arguments.drop_last(), special);
        let before = character_ops::added(program, arguments.drop_last(), special)->Ok_0;
        let new = character_ops::added(program, arguments, special)->Ok_0;
        let number = arguments.last()->Integer_0;
        let p = character_query::template_is(number, special);
        lookup::lemma_first_index(program.characters@, p);
        let t = lookup::first_index(program.characters@, p)->Some_0;
        assert forall|s: int| 0 <= s < t implies !((#[trigger] program.characters@[s]).no == number
            && program.characters@[s].is_sp_character == special) by {
            assert(!p(program.characters@[s]));
        }
        assert(is_template(program, t, number, special));
        assert forall|k: int| 0 <= k < new.len() implies starts_as(
            program,
            arguments[k],
            special,
            #[trigger] new[k],
        ) by {
            if k < before.len() {
                assert(new[k] == before[k]);
                assert(arguments.drop_last()[k] == arguments[k]);
            }
        }
    }
}

/// The new characters of an operation stand behind the old ones, which stay.
pub open spec fn appends(vm: VmModel, after: VmModel, count: int) -> bool {
    &&& characters(after).len() == characters(vm).len() + count
    &&& forall|i: int|
        0 <= i < characters(vm).len() ==> #[trigger] characters(after)[i] == characters(vm)[i]
}

/// ADDCHARA and ADDSPCHARA put one character behind the others for each argument, in order, each
/// as the first template with its number starts: an ordinary one, or a special one.
pub proof fn law_added_characters(vm: VmModel, arguments: Seq<Val>)
    requires
        vm.program(vm.current_generation) is Some,
    ensures
        ({
            let program = vm.program(vm.current_generation)->Some_0;
            let (after, r) = character_ops::character_mutation(vm, "addchara"@, arguments);
            r is Ok ==> appends(vm, after, arguments.len() as int) && forall|k: int|
                0 <= k < arguments.len() ==> starts_as(
                    program,
                    #[trigger] arguments[k],
                    false,
                    characters(after)[characters(vm).len() + k],
                )
        }),
        ({
            let program = vm.program(vm.current_generation)->Some_0;
            let (after, r) = character_ops::character_mutation(vm, "addspchara"@, arguments);
            r is Ok ==> appends(vm, after, arguments.len() as int) && forall|k: int|
                0 <= k < arguments.len() ==> starts_as(
                    program,
                    #[trigger] arguments[k],
                    true,
                    characters(after)[characters(vm).len() + k],
                )
        }),
        ({
            let program = vm.program(vm.current_generation)->Some_0;
            let (after, r) = character_ops::character_mutation(vm, "addvoidchara"@, arguments);
            r is Ok ==> appends(vm, after, 1) && characters(after).last()
                == program.void_character@
        }),
{
    lemma_mutation_names();
    let program = vm.program(vm.current_generation)->Some_0;
    if character_ops::added(program, arguments, false) is Ok {
        lemma_added(program, arguments, false);
        let new = character_ops::added(program, arguments, false)->Ok_0;
        assert forall|k: int| 0 <= k < arguments.len() implies starts_as(
            program,
            #[trigger] arguments[k],
            false,
            (characters(vm) + new)[characters(vm).len() + k],
        ) by {
            assert(starts_as(program, arguments[k], false, new[k]));
        }
    }
    if character_ops::added(program, arguments, true) is Ok {
        lemma_added(program, arguments, true);
        let new = character_ops::added(program, arguments, true)->Ok_0;
        assert forall|k: int| 0 <= k < arguments.len() implies starts_as(
            program,
            #[trigger] arguments[k],
            true,
            (characters(vm) + new)[characters(vm).len() + k],
        ) by {
            assert(starts_as(program, arguments[k], true, new[k]));
        }
    }
}

/// A character is as the first template with a data number starts, or void without one.
pub open spec fn starts_as_data(program: ProgramGeneration, number: int, c: Cells) -> bool {
    ||| exists|t: int|
        0 <= t < program.characters@.len() && (#[trigger] program.characters@[t]).csv_no == number
            && (forall|s: int|
            0 <= s < t ==> (#[trigger] program.characters@[s]).csv_no != number) && c
            == program.characters@[t].initial@
    ||| c == program.void_character@ && forall|t: int|
        0 <= t < program.characters@.len() ==> (#[trigger] program.characters@[t]).csv_no != number
}

proof fn lemma_data_character(program: ProgramGeneration, number: i64)
    ensures
        starts_as_data(program, number as int, character_ops::csv_character(program, number)),
{
    let p = character_ops::csv_is(number);
    lookup::lemma_first_index(program.characters@, p);
    match lookup::first_index(program.characters@, p) {
        Some(t) => {
            assert(p(program.characters@[t]));
            assert forall|s: int| 0 <= s < t implies (#[trigger] program.characters@[s]).csv_no
                != number by {
                assert(!p(program.characters@[s]));
            }
        },
        None => {
            assert forall|t: int| 0 <= t < program.characters@.len() implies (
            #[trigger] program.characters@[t]).csv_no != number by {
                assert(!p(program.characters@[t]));
            }
        },
    }
}

/// ADDDEFCHARA adds the character with the data number zero, and behind it the default one where
/// the program has one.
pub proof fn law_default_characters(vm: VmModel, arguments: Seq<Val>)
    requires
        vm.program(vm.current_generation) is Some,
    ensures
        ({
            let program = vm.program(vm.current_generation)->Some_0;
            let (after, r) = character_ops::character_mutation(vm, "adddefchara"@, arguments);
            r is Ok ==> {
                let n = characters(vm).len() as int;
                &&& appends(
                    vm,
                    after,
                    if program.default_character > 0 {
                        2
                    } else {
                        1
                    },
                )
                &&& starts_as_data(program, 0, characters(after)[n])
                &&& program.default_character > 0 ==> starts_as_data(
                    program,
                    program.default_character as int,
                    characters(after)[n + 1],
                )
            }
        }),
{
    lemma_mutation_names();
    let program = vm.program(vm.current_generation)->Some_0;
    lemma_data_character(program, 0);
    lemma_data_character(program, program.default_character);
}

proof fn lemma_copies(all: Seq<Cells>, arguments: Seq<Val>)
    requires
        character_ops::with_copies(all, arguments) is Ok,
    ensures
        ({
            let after = character_ops::with_copies(all, arguments)->Ok_0;
            &&& after.len() == all.len() + arguments.len()
            &&& forall|i: int| 0 <= i < all.len() ==> #[trigger] after[i] == all[i]
            &&& forall|k: int|
                0 <= k < arguments.len() ==> (#[trigger] arguments[k] matches Val::Integer(n) && 0
                    <= n < all.len() + k && after[all.len() + k] == after[n as int])
        }),
    decreases arguments.len(),
{
    if arguments.len() > 0 {
        lemma_copies(all, arguments.drop_last());
        let before = character_ops::with_copies(all, arguments.drop_last())->Ok_0;
        let after = character_ops::with_copies(all, arguments)->Ok_0;
        assert forall|k: int| 0 <= k < arguments.len() implies (
        #[trigger] arguments[k] matches Val::Integer(n) && 0 <= n < all.len() + k && after[all.len()
            + k] == after[n as int]) by {
            if k < arguments.len() - 1 {
                assert(arguments.drop_last()[k] == arguments[k]);
                assert(after[all.len() + k] == before[all.len() + k]);
            }
        }
    }
}

/// ADDCOPYCHARA puts a copy of the character at each given position behind the others, in order;
/// a copy can be copied again.
pub proof fn law_added_copies(vm: VmModel, arguments: Seq<Val>)
    ensures
        ({
            let (after, r) = character_ops::character_mutation(vm, "addcopychara"@, arguments);
            let count = characters(vm).len();
            r is Ok ==> appends(vm, after, arguments.len() as int) && forall|k: int|
                0 <= k < arguments.len() ==> (#[trigger] arguments[k] matches Val::Integer(n) && 0
                    <= n < count + k && characters(after)[count + k] == characters(after)[n as int])
        }),
{
    lemma_mutation_names();
    if character_ops::with_copies(characters(vm), arguments) is Ok {
        lemma_copies(characters(vm), arguments);
    }
}

/// RESET_STAIN gives the STAIN of one character its default values, with zeros behind them, and
/// leaves every other character and every other variable as it was.
pub proof fn law_reset_stain(vm: VmModel, arguments: Seq<Val>)
    requires
        vm.program(vm.current_generation) is Some,
    ensures
        ({
            let program = vm.program(vm.current_generation)->Some_0;
            let key = named::character_global(program, "STAIN"@)->Some_0.key;
            let (after, r) = character_ops::character_mutation(vm, "reset_stain"@, arguments);
            r is Ok ==> arguments.len() > 0 && (arguments[0] matches Val::Integer(n) && 0 <= n
                < characters(vm).len() && {
                let old_cells = characters(vm)[n as int];
                let new_cells = characters(after)[n as int];
                let values = program.stain_default@;
                &&& characters(after).len() == characters(vm).len()
                &&& forall|i: int|
                    0 <= i < characters(vm).len() && i != n ==> #[trigger] characters(after)[i]
                        == characters(vm)[i]
                &&& new_cells.len() == old_cells.len()
                &&& forall|i: int|
                    0 <= i < old_cells.len() && old_cells[i].0 != key ==> #[trigger] new_cells[i]
                        == old_cells[i]
                &&& exists|s: int|
                    0 <= s < new_cells.len() && (#[trigger] new_cells[s]).0 == key && (
                    new_cells[s].1.data matches Data::Integers(v) && forall|i: int|
                        0 <= i < v.len() ==> #[trigger] v[i] == if i < values.len() {
                            values[i]
                        } else {
                            0
                        })
            })
        }),
{
    lemma_mutation_names();
    let program = vm.program(vm.current_generation)->Some_0;
    let key = named::character_global(program, "STAIN"@)->Some_0.key;
    let (after, r) = character_ops::character_mutation(vm, "reset_stain"@, arguments);
    if r is Ok {
        let n = arguments[0]->Integer_0;
        let cells = characters(vm)[n as int];
        lookup::lemma_first_index(cells, memory::has_key(key));
        let s = memory::slot_of(cells, key)->Some_0;
        let new_cells = characters(after)[n as int];
        assert(new_cells[s].0 == key);
    }
}

/// A position is given before another one is given for the first time.
pub open spec fn given_before(arguments: Seq<Val>, a: int, b: int) -> bool {
    exists|k: int|
        0 <= k < arguments.len() && is_integer(#[trigger] arguments[k], a as int)
            && forall|l: int|
            0 <= l <= k ==> !is_integer(#[trigger] arguments[l], b as int)
}

/// The given positions, each once, in the order in which they are given first.
pub open spec fn picks(arguments: Seq<Val>, at: Seq<usize>, count: nat) -> bool {
    &&& at.no_duplicates()
    &&& forall|i: int| 0 <= i < at.len() ==> #[trigger] at[i] < count && is_given(
        arguments,
        at[i] as int,
    )
    &&& forall|p: usize| #[trigger] is_given(arguments, p as int) ==> at.contains(p)
    &&& forall|i: int, j: int|
        #![trigger at[i], at[j]]
        0 <= i < j < at.len() ==> given_before(arguments, at[i] as int, at[j] as int)
}

proof fn lemma_given_grows(arguments: Seq<Val>, p: int)
    requires
        arguments.len() > 0,
    ensures
        is_given(arguments, p) == (is_given(arguments.drop_last(), p) || (
        arguments.last() matches Val::Integer(n) && n == p)),
{
    let before = arguments.drop_last();
    if is_given(before, p) {
        let k = choose|k: int|
            0 <= k < before.len() && is_integer(#[trigger] before[k], p as int);
        assert(arguments[k] == before[k]);
    }
    if is_given(arguments, p) {
        let k = choose|k: int|
            0 <= k < arguments.len() && is_integer(#[trigger] arguments[k], p as int);
        if k < before.len() {
            assert(before[k] == arguments[k]);
        }
    }
    assert(arguments[arguments.len() - 1] == arguments.last());
}

proof fn lemma_given_before_grows(arguments: Seq<Val>, a: int, b: int)
    requires
        arguments.len() > 0,
        given_before(arguments.drop_last(), a, b),
    ensures
        given_before(arguments, a, b),
{
    let before = arguments.drop_last();
    let k = choose|k: int|
        0 <= k < before.len() && is_integer(#[trigger] before[k], a as int) && forall|
            l: int,
        |
            0 <= l <= k ==> !is_integer(#[trigger] before[l], b as int);
    assert(arguments[k] == before[k]);
    assert forall|l: int| 0 <= l <= k implies !is_integer(#[trigger] arguments[l], b as int) by {
        assert(before[l] == arguments[l]);
    }
}

proof fn lemma_selected(arguments: Seq<Val>, count: nat)
    requires
        count <= usize::MAX,
        character_ops::selected(arguments, count) is Ok,
    ensures
        picks(arguments, character_ops::selected(arguments, count)->Ok_0, count),
    decreases arguments.len(),
{
    let at = character_ops::selected(arguments, count)->Ok_0;
    if arguments.len() > 0 {
        let front = arguments.drop_last();
        lemma_selected(front, count);
        let before = character_ops::selected(front, count)->Ok_0;
        let n = arguments.last()->Integer_0;
        assert forall|p: usize| #[trigger] is_given(arguments, p as int) implies at.contains(p) by {
            lemma_given_grows(arguments, p as int);
            if is_given(front, p as int) {
                assert(before.contains(p));
                let i = choose|i: int| 0 <= i < before.len() && before[i] == p;
                assert(at[i] == p);
            } else if at.len() > before.len() {
                assert(at[before.len() as int] == p);
            }
        }
        assert forall|i: int| 0 <= i < at.len() implies #[trigger] at[i] < count && is_given(
            arguments,
            at[i] as int,
        ) by {
            lemma_given_grows(arguments, at[i] as int);
            if i < before.len() {
                assert(at[i] == before[i]);
            }
        }
        assert forall|i: int, j: int|
            #![trigger at[i], at[j]]
            0 <= i < j < at.len() implies given_before(arguments, at[i] as int, at[j] as int) by {
            assert(at[i] == before[i]);
            if j < before.len() {
                assert(at[j] == before[j]);
                lemma_given_before_grows(arguments, at[i] as int, at[j] as int);
            } else {
                assert(is_given(front, before[i] as int));
                let k = choose|k: int|
                    0 <= k < front.len() && is_integer(#[trigger] front[k], before[i] as int);
                assert(arguments[k] == front[k]);
                assert forall|l: int| 0 <= l <= k implies !is_integer(#[trigger] arguments[l], at[j] as int) by {
                    assert(front[l] == arguments[l]);
                    if arguments[l] matches Val::Integer(m) && m == at[j] {
                        assert(is_given(front, at[j] as int));
                        assert(before.contains(at[j]));
                    }
                }
            }
        }
    } else {
        assert forall|p: usize| #[trigger] is_given(arguments, p as int) implies at.contains(p) by {}
    }
}

/// Two names mean different variables of the program.
pub open spec fn apart(program: ProgramGeneration, a: Seq<char>, b: Seq<char>) -> bool {
    match (named::shared_global(program, a), named::shared_global(program, b)) {
        (Some(x), Some(y)) => x.key != y.key,
        _ => true,
    }
}

proof fn lemma_other_name_stays(
    program: ProgramGeneration,
    store: Store,
    name: Seq<char>,
    n: i64,
    other: Seq<char>,
)
    requires
        apart(program, name, other),
        named::named_written(program, store, name, n) is Ok,
    ensures
        named::named_integer(
            program,
            named::named_written(program, store, name, n)->Ok_0,
            other,
        ) == named::named_integer(program, store, other),
{
    let after = named::named_written(program, store, name, n)->Ok_0;
    let g = named::shared_global(program, name)->Some_0;
    lookup::lemma_first_index(store.shared, memory::has_key(g.key));
    if let Some(h) = named::shared_global(program, other) {
        lookup::lemma_first_same(after.shared, store.shared, memory::has_key(h.key));
        lookup::lemma_first_index(store.shared, memory::has_key(h.key));
    }
}

/// The variables that follow characters are different ones.
pub open spec fn followers_apart(program: ProgramGeneration) -> bool {
    &&& apart(program, "ASSI"@, "TARGET"@)
    &&& apart(program, "MASTER"@, "TARGET"@)
    &&& apart(program, "CHARANUM"@, "TARGET"@)
    &&& apart(program, "MASTER"@, "ASSI"@)
    &&& apart(program, "CHARANUM"@, "ASSI"@)
    &&& apart(program, "CHARANUM"@, "MASTER"@)
}

/// A variable that named a character names it where it stands now; minus one where it is gone or
/// none was named.
pub open spec fn follows(
    program: ProgramGeneration,
    before: Store,
    after: Store,
    name: Seq<char>,
    at: Seq<usize>,
) -> bool {
    let old_value = named::named_integer(program, before, name);
    match named::named_integer(program, after, name) {
        None => false,
        Some(v) => {
            ||| 0 <= v < at.len() && old_value == Some(at[v as int] as i64)
            ||| v == -1 && forall|i: int|
                0 <= i < at.len() ==> old_value != Some(#[trigger] at[i] as i64)
        },
    }
}

proof fn lemma_new_position(
    program: ProgramGeneration,
    store: Store,
    after: Store,
    name: Seq<char>,
    at: Seq<usize>,
)
    requires
        at.len() <= i64::MAX,
        forall|i: int| 0 <= i < at.len() ==> #[trigger] at[i] <= i64::MAX,
        named::named_integer(program, after, name) == Some(
            character_ops::new_position(
                at,
                character_ops::named_or_none(program, store, name),
            ),
        ),
    ensures
        follows(program, store, after, name, at),
{
    let old_value = character_ops::named_or_none(program, store, name);
    let p = character_ops::position_is(old_value);
    lookup::lemma_first_index(at, p);
    match lookup::first_index(at, p) {
        Some(i) => {
            assert(p(at[i]));
        },
        None => {
            assert forall|i: int| 0 <= i < at.len() implies named::named_integer(
                program,
                store,
                name,
            ) != Some(#[trigger] at[i] as i64) by {
                assert(!p(at[i]));
            }
        },
    }
}

/// After PICKUPCHARA the characters are those at the given positions, each once, in the order
/// given; target, assistant and master are followed to where they stand now.
pub proof fn law_picked_up_characters(vm: VmModel, arguments: Seq<Val>)
    requires
        vm.program(vm.current_generation) matches Some(program) && followers_apart(program),
        characters(vm).len() <= i64::MAX,
        characters(vm).len() <= usize::MAX,
    ensures
        ({
            let program = vm.program(vm.current_generation)->Some_0;
            let (after, r) = character_ops::character_mutation(vm, "pickupchara"@, arguments);
            r is Ok ==> exists|at: Seq<usize>| #[trigger]
                picks(arguments, at, characters(vm).len()) && characters(after).len() == at.len()
                    && (forall|i: int|
                    0 <= i < at.len() ==> #[trigger] characters(after)[i] == characters(
                        vm,
                    )[at[i] as int]) && follows(program, vm.store, after.store, "TARGET"@, at)
                    && follows(program, vm.store, after.store, "ASSI"@, at) && follows(
                    program,
                    vm.store,
                    after.store,
                    "MASTER"@,
                    at,
                )
        }),
{
    lemma_mutation_names();
    let program = vm.program(vm.current_generation)->Some_0;
    let store = vm.store;
    let (after, r) = character_ops::character_mutation(vm, "pickupchara"@, arguments);
    if r is Ok {
        lemma_selected(arguments, characters(vm).len());
        let at = character_ops::selected(arguments, characters(vm).len())->Ok_0;
        lemma_pigeonhole(at, characters(vm).len());
        let t = character_ops::new_position(
            at,
            character_ops::named_or_none(program, store, "TARGET"@),
        );
        let a = character_ops::new_position(
            at,
            character_ops::named_or_none(program, store, "ASSI"@),
        );
        let m = character_ops::new_position(
            at,
            character_ops::named_or_none(program, store, "MASTER"@),
        );
        let s1 = Store { characters: character_ops::taken(store.characters, at), ..store };
        let s2 = named::named_written(program, s1, "TARGET"@, t)->Ok_0;
        let s3 = named::named_written(program, s2, "ASSI"@, a)->Ok_0;
        let s4 = named::named_written(program, s3, "MASTER"@, m)->Ok_0;
        let n = fastpaths::count_integer(s4.characters.len());
        named::law_named_integer_reads_back(program, s1, "TARGET"@, t);
        named::law_named_integer_reads_back(program, s2, "ASSI"@, a);
        named::law_named_integer_reads_back(program, s3, "MASTER"@, m);
        lemma_other_name_stays(program, s2, "ASSI"@, a, "TARGET"@);
        lemma_other_name_stays(program, s3, "MASTER"@, m, "TARGET"@);
        lemma_other_name_stays(program, s4, "CHARANUM"@, n, "TARGET"@);
        lemma_other_name_stays(program, s3, "MASTER"@, m, "ASSI"@);
        lemma_other_name_stays(program, s4, "CHARANUM"@, n, "ASSI"@);
        lemma_other_name_stays(program, s4, "CHARANUM"@, n, "MASTER"@);
        assert forall|i: int| 0 <= i < at.len() implies #[trigger] at[i] <= i64::MAX by {}
        lemma_new_position(program, store, after.store, "TARGET"@, at);
        lemma_new_position(program, store, after.store, "ASSI"@, at);
        lemma_new_position(program, store, after.store, "MASTER"@, at);
    }
}

/// Different numbers below a bound are no more than the bound.
proof fn lemma_pigeonhole(at: Seq<usize>, count: nat)
    requires
        at.no_duplicates(),
        forall|i: int| 0 <= i < at.len() ==> #[trigger] at[i] < count,
    ensures
        at.len() <= count,
{
    let ints = at.map_values(|n: usize| n as int);
    assert(ints.no_duplicates());
    ints.unique_seq_to_set();
    vstd::set_lib::lemma_int_range(0, count as int);
    assert(ints.to_set().subset_of(vstd::set_lib::set_int_range(0, count as int)));
    vstd::set_lib::lemma_len_subset(
        ints.to_set(),
        vstd::set_lib::set_int_range(0, count as int),
    );
}

/// What a variable of a character holds at some indices.
pub open spec fn key_value(c: Cells, variable: SymbolKey, indices: Seq<u64>) -> Val {
    memory::cell_of(c, variable)->Some_0.read(indices)->Ok_0
}

proof fn lemma_keys_at(all: Seq<Cells>, key: SortKey, at: Seq<usize>)
    requires
        character_ops::keys_at(all, key, at) is Ok,
    ensures
        ({
            let keys = character_ops::keys_at(all, key, at)->Ok_0;
            &&& keys.len() == at.len()
            &&& forall|k: int|
                0 <= k < at.len() ==> #[trigger] keys[k] == key_value(
                    all[at[k] as int],
                    key.variable,
                    key.indices,
                )
        }),
    decreases at.len(),
{
    if at.len() > 0 {
        lemma_keys_at(all, key, at.drop_last());
        let before = character_ops::keys_at(all, key, at.drop_last())->Ok_0;
        let keys = character_ops::keys_at(all, key, at)->Ok_0;
        assert forall|k: int| 0 <= k < at.len() implies #[trigger] keys[k] == key_value(
            all[at[k] as int],
            key.variable,
            key.indices,
        ) by {
            if k < at.len() - 1 {
                assert(keys[k] == before[k]);
                assert(at.drop_last()[k] == at[k]);
            }
        }
    }
}

/// The keys of all characters are integers, or all are texts.
pub open spec fn keys_alike(all: Seq<Cells>, variable: SymbolKey, indices: Seq<u64>) -> bool {
    ||| forall|c: int| 0 <= c < all.len() ==> key_value(#[trigger] all[c], variable, indices) is Integer
    ||| forall|c: int| 0 <= c < all.len() ==> key_value(#[trigger] all[c], variable, indices) is Text
}

/// Characters stand in the order of a key: rising, or falling where that is asked for. The one at
/// the position of the master is left out.
pub open spec fn in_order(
    all: Seq<Cells>,
    variable: SymbolKey,
    indices: Seq<u64>,
    master: Option<i64>,
    falling: bool,
) -> bool {
    forall|i: int, j: int|
        #![trigger all[i], all[j]]
        0 <= i < j < all.len() && master != Some(i as i64) && master != Some(j as i64) ==> if falling {
            !array_laws::key_before(
                key_value(all[i], variable, indices),
                key_value(all[j], variable, indices),
            )
        } else {
            !array_laws::key_before(
                key_value(all[j], variable, indices),
                key_value(all[i], variable, indices),
            )
        }
}

#[verifier::spinoff_prover]
#[verifier::rlimit(50)]
proof fn lemma_sorted(
    program: ProgramGeneration,
    store: Store,
    arguments: Seq<Val>,
    key: SortKey,
)
    requires
        character_ops::sort_key(program, arguments) == Ok::<SortKey, Trouble>(key),
        character_ops::new_order(program, store, arguments) is Ok,
        keys_alike(store.characters, key.variable, key.indices),
        store.characters.len() <= i64::MAX,
        store.characters.len() <= usize::MAX,
    ensures
        in_order(
            character_ops::taken(
                store.characters,
                character_ops::new_order(program, store, arguments)->Ok_0,
            ),
            key.variable,
            key.indices,
            named::named_integer(program, store, "MASTER"@),
            key.descending,
        ),
{
    let all = store.characters;
    let count = all.len();
    let number = character_ops::named_or_none(program, store, "MASTER"@);
    let master = character_ops::master_position(number, count);
    let others = character_ops::others(master, count);
    let keys = character_ops::keys_at(all, key, others)->Ok_0;
    let order = character_ops::new_order(program, store, arguments)->Ok_0;
    character_ops::law_sort_is_a_permutation(program, store, arguments);
    lemma_keys_at(all, key, others);
    character_ops::lemma_others(master, count);
    assert(sorting::comparable(keys)) by {
        if forall|c: int|
            0 <= c < all.len() ==> key_value(
                #[trigger] all[c],
                key.variable,
                key.indices,
            ) is Integer {
            assert forall|k: int| 0 <= k < keys.len() implies (#[trigger] keys[k]) is Integer by {
                assert(key_value(all[others[k] as int], key.variable, key.indices) is Integer);
            }
        } else {
            assert forall|k: int| 0 <= k < keys.len() implies (#[trigger] keys[k]) is Text by {
                assert(key_value(all[others[k] as int], key.variable, key.indices) is Text);
            }
        }
    }
    array_laws::lemma_sorted_order(keys, others.len());
    let up = sorting::sorted_order(keys, others.len());
    let used = if key.descending {
        up.reverse()
    } else {
        up
    };
    let base = character_ops::composed(others, used);
    let after = character_ops::taken(all, order);
    let named_master = named::named_integer(program, store, "MASTER"@);
    assert forall|i: int, j: int|
        #![trigger after[i], after[j]]
        0 <= i < j < after.len() && named_master != Some(i as i64) && named_master != Some(
            j as i64,
        ) implies (if key.descending {
        !array_laws::key_before(
            key_value(after[i], key.variable, key.indices),
            key_value(after[j], key.variable, key.indices),
        )
    } else {
        !array_laws::key_before(
            key_value(after[j], key.variable, key.indices),
            key_value(after[i], key.variable, key.indices),
        )
    }) by {
        let x = match master {
            Some(m) => if i < m {
                i
            } else {
                i - 1
            },
            None => i,
        };
        let y = match master {
            Some(m) => if j < m {
                j
            } else {
                j - 1
            },
            None => j,
        };
        assert(order[i] == base[x] && order[j] == base[y]);
        assert(used[x] < others.len() && used[y] < others.len());
        assert(keys[used[x] as int] == key_value(after[i], key.variable, key.indices));
        assert(keys[used[y] as int] == key_value(after[j], key.variable, key.indices));
    }
}

/// A text that asks for the falling order.
pub open spec fn says_back(v: Val) -> bool {
    v matches Val::Text(t) && text::same_ignoring_case(t, "BACK"@)
}

/// After SORTCHARA by a variable the characters rise in it, and fall with BACK; the master stays
/// where it is, and each character is still there.
pub proof fn law_sorted_characters(vm: VmModel, arguments: Seq<Val>, place: Place)
    requires
        vm.program(vm.current_generation) is Some,
        characters(vm).len() <= i64::MAX,
        characters(vm).len() <= usize::MAX,
        arguments.len() > 0,
        arguments[0] == Val::IntegerPlace(place) || arguments[0] == Val::StringPlace(place),
        keys_alike(characters(vm), place.variable, place.indices),
    ensures
        ({
            let program = vm.program(vm.current_generation)->Some_0;
            let (after, r) = character_ops::character_mutation(vm, "sortchara"@, arguments);
            let master = named::named_integer(program, vm.store, "MASTER"@);
            r is Ok ==> {
                &&& in_order(
                    characters(after),
                    place.variable,
                    place.indices,
                    master,
                    arguments.len() > 1 && says_back(arguments[1]),
                )
                &&& characters(after).len() == characters(vm).len()
                &&& forall|c: int|
                    0 <= c < characters(vm).len() ==> characters(after).contains(
                        #[trigger] characters(vm)[c],
                    )
                &&& master matches Some(m) ==> (0 <= m < characters(vm).len() ==> characters(
                    after,
                )[m as int] == characters(vm)[m as int])
            }
        }),
{
    lemma_mutation_names();
    let program = vm.program(vm.current_generation)->Some_0;
    let (after, r) = character_ops::character_mutation(vm, "sortchara"@, arguments);
    if r is Ok {
        if characters(vm).len() > 1 {
            let key = character_ops::sort_key(program, arguments)->Ok_0;
            lookup::lemma_first_index(program.globals@, crate::program::global_key(place.variable));
            lemma_sorted(program, vm.store, arguments, key);
            lemma_sort_keeps_all(vm, program, arguments);
        } else {
            assert forall|c: int| 0 <= c < characters(vm).len() implies characters(after).contains(
                #[trigger] characters(vm)[c],
            ) by {
                assert(characters(after)[c] == characters(vm)[c]);
            }
        }
    }
}

proof fn lemma_sort_keeps_all(vm: VmModel, program: ProgramGeneration, arguments: Seq<Val>)
    requires
        characters(vm).len() <= usize::MAX,
        characters(vm).len() <= i64::MAX,
        character_ops::new_order(program, vm.store, arguments) is Ok,
    ensures
        ({
            let order = character_ops::new_order(program, vm.store, arguments)->Ok_0;
            let after = character_ops::taken(characters(vm), order);
            let master = named::named_integer(program, vm.store, "MASTER"@);
            &&& after.len() == characters(vm).len()
            &&& forall|c: int|
                0 <= c < characters(vm).len() ==> after.contains(#[trigger] characters(vm)[c])
            &&& master matches Some(m) ==> (0 <= m < characters(vm).len() ==> after[m as int]
                == characters(vm)[m as int])
        }),
{
    character_ops::law_sort_is_a_permutation(program, vm.store, arguments);
    let order = character_ops::new_order(program, vm.store, arguments)->Ok_0;
    let after = character_ops::taken(characters(vm), order);
    assert forall|c: int| 0 <= c < characters(vm).len() implies after.contains(
        #[trigger] characters(vm)[c],
    ) by {
        assert(order.contains(c as usize));
        let i = choose|i: int| 0 <= i < order.len() && order[i] == c as usize;
        assert(after[i] == characters(vm)[c]);
    }
}

/// SORTCHARA without a variable goes by the variable NO.
pub proof fn law_characters_sorted_by_number(vm: VmModel, arguments: Seq<Val>)
    requires
        vm.program(vm.current_generation) matches Some(program)
            && named::character_global(program, "NO"@) is Some && keys_alike(
            characters(vm),
            named::character_global(program, "NO"@)->Some_0.key,
            Seq::empty(),
        ),
        characters(vm).len() <= i64::MAX,
        characters(vm).len() <= usize::MAX,
        arguments.len() == 0 || says_back(arguments[0]) || (arguments[0] matches Val::Text(t)
            && text::same_ignoring_case(t, "FORWARD"@)),
    ensures
        ({
            let program = vm.program(vm.current_generation)->Some_0;
            let (after, r) = character_ops::character_mutation(vm, "sortchara"@, arguments);
            r is Ok ==> in_order(
                characters(after),
                named::character_global(program, "NO"@)->Some_0.key,
                Seq::empty(),
                named::named_integer(program, vm.store, "MASTER"@),
                arguments.len() > 0 && says_back(arguments[0]),
            )
        }),
{
    lemma_mutation_names();
    let program = vm.program(vm.current_generation)->Some_0;
    let (after, r) = character_ops::character_mutation(vm, "sortchara"@, arguments);
    if r is Ok && characters(vm).len() > 1 {
        let key = character_ops::sort_key(program, arguments)->Ok_0;
        lemma_sorted(program, vm.store, arguments, key);
    }
}

} // verus!
