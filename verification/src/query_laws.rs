//! What the queries about characters answer.

use vstd::prelude::*;
use crate::array_laws;
use crate::arrays;
use crate::character_query::{self, CharacterQuery};
use crate::fault::Trouble;
use crate::lookup;
use crate::memory::{self, Cells};
use crate::named;
use crate::places;
use crate::program::{FieldNumber, ProgramGeneration};
use crate::state::{FiberModel, VmModel};
use crate::value::{Place, Val};

verus! {

proof fn lemma_query_names()
    ensures
        character_query::query_named("charanum"@) == Some(CharacterQuery::CharaNum),
        character_query::query_named("getchara"@) == Some(CharacterQuery::GetChara),
        character_query::query_named("getspchara"@) == Some(CharacterQuery::GetSpChara),
        character_query::query_named("findchara"@) == Some(CharacterQuery::FindChara),
        character_query::query_named("findlastchara"@) == Some(CharacterQuery::FindLastChara),
        character_query::query_named("existcsv"@) == Some(CharacterQuery::ExistCsv),
        character_query::query_named("csvname"@) == Some(CharacterQuery::CsvName),
        character_query::query_named("csvcallname"@) == Some(CharacterQuery::CsvCallName),
        character_query::query_named("csvnickname"@) == Some(CharacterQuery::CsvNickName),
        character_query::query_named("csvmastername"@) == Some(CharacterQuery::CsvMasterName),
        character_query::query_named("csvcstr"@) == Some(CharacterQuery::CsvCstr),
        character_query::query_named("csvbase"@) == Some(CharacterQuery::CsvBase),
        character_query::query_named("csvabl"@) == Some(CharacterQuery::CsvAbl),
        character_query::query_named("csvmark"@) == Some(CharacterQuery::CsvMark),
        character_query::query_named("csvexp"@) == Some(CharacterQuery::CsvExp),
        character_query::query_named("csvrelation"@) == Some(CharacterQuery::CsvRelation),
        character_query::query_named("csvtalent"@) == Some(CharacterQuery::CsvTalent),
        character_query::query_named("csvcflag"@) == Some(CharacterQuery::CsvCflag),
        character_query::query_named("csvequip"@) == Some(CharacterQuery::CsvEquip),
        character_query::query_named("csvjuel"@) == Some(CharacterQuery::CsvJuel),
{
    reveal_strlit("charanum");
    reveal_strlit("getchara");
    reveal_strlit("getspchara");
    reveal_strlit("findchara");
    reveal_strlit("findlastchara");
    reveal_strlit("existcsv");
    reveal_strlit("csvname");
    reveal_strlit("csvcallname");
    reveal_strlit("csvnickname");
    reveal_strlit("csvmastername");
    reveal_strlit("csvcstr");
    reveal_strlit("csvbase");
    reveal_strlit("csvabl");
    reveal_strlit("csvmark");
    reveal_strlit("csvexp");
    reveal_strlit("csvrelation");
    reveal_strlit("csvtalent");
    reveal_strlit("csvcflag");
    reveal_strlit("csvequip");
    reveal_strlit("csvjuel");
    assert("charanum"@.len() == 8);
    assert("getchara"@.len() == 8);
    assert("getspchara"@.len() == 10);
    assert("findchara"@.len() == 9);
    assert("findlastchara"@.len() == 13);
    assert("existcsv"@.len() == 8);
    assert("csvname"@.len() == 7);
    assert("csvcallname"@.len() == 11);
    assert("csvnickname"@.len() == 11);
    assert("csvmastername"@.len() == 13);
    assert("csvcstr"@.len() == 7);
    assert("csvbase"@.len() == 7);
    assert("csvabl"@.len() == 6);
    assert("csvmark"@.len() == 7);
    assert("csvexp"@.len() == 6);
    assert("csvrelation"@.len() == 11);
    assert("csvtalent"@.len() == 9);
    assert("csvcflag"@.len() == 8);
    assert("csvequip"@.len() == 8);
    assert("csvjuel"@.len() == 7);
    assert("charanum"@[0] != "getchara"@[0]);
    assert("charanum"@[0] != "existcsv"@[0]);
    assert("charanum"@[1] != "csvcflag"@[1]);
    assert("charanum"@[1] != "csvequip"@[1]);
    assert("getchara"@[0] != "existcsv"@[0]);
    assert("getchara"@[0] != "csvcflag"@[0]);
    assert("getchara"@[0] != "csvequip"@[0]);
    assert("findchara"@[0] != "csvtalent"@[0]);
    assert("findlastchara"@[0] != "csvmastername"@[0]);
    assert("existcsv"@[0] != "csvcflag"@[0]);
    assert("existcsv"@[0] != "csvequip"@[0]);
    assert("csvname"@[3] != "csvcstr"@[3]);
    assert("csvname"@[3] != "csvbase"@[3]);
    assert("csvname"@[3] != "csvmark"@[3]);
    assert("csvname"@[3] != "csvjuel"@[3]);
    assert("csvcallname"@[3] != "csvnickname"@[3]);
    assert("csvcallname"@[3] != "csvrelation"@[3]);
    assert("csvnickname"@[3] != "csvrelation"@[3]);
    assert("csvcstr"@[3] != "csvbase"@[3]);
    assert("csvcstr"@[3] != "csvmark"@[3]);
    assert("csvcstr"@[3] != "csvjuel"@[3]);
    assert("csvbase"@[3] != "csvmark"@[3]);
    assert("csvbase"@[3] != "csvjuel"@[3]);
    assert("csvabl"@[3] != "csvexp"@[3]);
    assert("csvmark"@[3] != "csvjuel"@[3]);
    assert("csvcflag"@[3] != "csvequip"@[3]);
}

/// An answer is a position; minus one where there is none.
pub open spec fn answers(r: Result<Val, Trouble>, i: int) -> bool {
    r == Ok::<Val, Trouble>(Val::Integer(i as i64))
}

/// What the variable NO of a character holds first.
pub open spec fn number_of(program: ProgramGeneration, c: Cells) -> Option<Val> {
    let key = named::character_global(program, "NO"@)->Some_0.key;
    match memory::cell_of(c, key) {
        Some(cell) => if cell.data.len() > 0 {
            Some(cell.data.get(0))
        } else {
            None
        },
        None => None,
    }
}

/// A character is marked as a special one: its variable CFLAG starts with another number than
/// zero.
pub open spec fn is_marked(program: ProgramGeneration, c: Cells) -> bool {
    match named::character_global(program, "CFLAG"@) {
        None => false,
        Some(g) => match memory::cell_of(c, g.key) {
            None => false,
            Some(cell) => cell.data.len() > 0 && (cell.data.get(0) matches Val::Integer(n) && n
                != 0),
        },
    }
}

/// An argument is a flag that is set.
pub open spec fn is_set(arguments: Seq<Val>, k: int) -> bool {
    k < arguments.len() && (arguments[k] matches Val::Integer(n) && n != 0)
}

/// CHARANUM is the number of characters. GETCHARA is the position of the first character with a
/// number, GETSPCHARA that of the first marked one with it; with a second argument GETCHARA looks
/// at the mark too. Minus one is the answer where there is none.
pub proof fn law_character_by_number(vm: VmModel, fiber: FiberModel, arguments: Seq<Val>, number: i64)
    requires
        vm.program(fiber.frames.last().generation) is Some,
        vm.store.characters.len() <= i64::MAX,
        arguments.len() > 0,
        arguments[0] == Val::Integer(number),
    ensures
        answers(
            character_query::character_query(vm, fiber, "charanum"@, arguments),
            vm.store.characters.len() as int,
        ),
        ({
            let program = vm.program(fiber.frames.last().generation)->Some_0;
            let all = vm.store.characters;
            let plain = character_query::character_query(vm, fiber, "getchara"@, arguments);
            let special = character_query::character_query(vm, fiber, "getspchara"@, arguments);
            named::character_global(program, "NO"@) is Some ==> {
                &&& found(program, all, plain, number, arguments.len() > 1, is_set(arguments, 1))
                &&& found(program, all, special, number, true, true)
            }
        }),
{
    lemma_query_names();
    let program = vm.program(fiber.frames.last().generation)->Some_0;
    let all = vm.store.characters;
    if named::character_global(program, "NO"@) is Some {
        let plain = character_query::character_query(vm, fiber, "getchara"@, arguments);
        let special = character_query::character_query(vm, fiber, "getspchara"@, arguments);
        lemma_found(
            program,
            all,
            CharacterQuery::GetChara,
            arguments,
            number,
            arguments.len() > 1,
            is_set(arguments, 1),
        );
        lemma_found(
            program,
            all,
            CharacterQuery::GetSpChara,
            arguments,
            number,
            true,
            true,
        );
    }
}

/// A character has a number, and a mark where that is looked at.
pub open spec fn suits(program: ProgramGeneration, c: Cells, number: i64, looks: bool, mark: bool) -> bool {
    number_of(program, c) == Some(Val::Integer(number)) && (looks ==> is_marked(program, c) == mark)
}

/// An answer is the position of the first character that suits, or minus one where none does.
pub open spec fn found(
    program: ProgramGeneration,
    all: Seq<Cells>,
    r: Result<Val, Trouble>,
    number: i64,
    looks: bool,
    mark: bool,
) -> bool {
    ||| exists|i: int|
        0 <= i < all.len() && suits(program, #[trigger] all[i], number, looks, mark) && answers(
            r,
            i,
        ) && forall|j: int| 0 <= j < i ==> !suits(program, #[trigger] all[j], number, looks, mark)
    ||| answers(r, -1) && forall|i: int|
        0 <= i < all.len() ==> !suits(program, #[trigger] all[i], number, looks, mark)
}

proof fn lemma_found(
    program: ProgramGeneration,
    all: Seq<Cells>,
    query: CharacterQuery,
    arguments: Seq<Val>,
    number: i64,
    looks: bool,
    mark: bool,
)
    requires
        all.len() <= i64::MAX,
        arguments.len() > 0,
        arguments[0] == Val::Integer(number),
        named::character_global(program, "NO"@) is Some,
        character_query::asked_mark(query, arguments) == if looks {
            Some(mark)
        } else {
            None
        },
    ensures
        found(
            program,
            all,
            character_query::get_chara(program, all, query, arguments),
            number,
            looks,
            mark,
        ),
{
    let no = named::character_global(program, "NO"@)->Some_0;
    let cflag = match named::character_global(program, "CFLAG"@) {
        Some(g) => Some(g.key),
        None => None,
    };
    let p = character_query::chara_is(
        no.key,
        cflag,
        number,
        character_query::asked_mark(query, arguments),
    );
    assert forall|c: Cells| #[trigger] p(c) == suits(program, c, number, looks, mark) by {}
    lookup::lemma_first_index(all, p);
    match lookup::first_index(all, p) {
        Some(i) => {
            assert(p(all[i]));
            assert forall|j: int| 0 <= j < i implies !suits(
                program,
                #[trigger] all[j],
                number,
                looks,
                mark,
            ) by {
                assert(!p(all[j]));
            }
        },
        None => {
            assert forall|i: int| 0 <= i < all.len() implies !suits(
                program,
                #[trigger] all[i],
                number,
                looks,
                mark,
            ) by {
                assert(!p(all[i]));
            }
        },
    }
}

/// A place of a character.
pub open spec fn place_of(place: Place, c: int) -> Place {
    Place { character: Some(c as u64), ..place }
}

/// The variable of a character holds a value.
pub open spec fn holds(vm: VmModel, fiber: FiberModel, place: Place, c: int, v: Val) -> bool {
    places::read_place(vm, fiber, place_of(place, c)) == Ok::<Val, Trouble>(v)
}

proof fn lemma_series(vm: VmModel, fiber: FiberModel, place: Place, n: nat)
    requires
        n <= u64::MAX,
        character_query::series(vm, fiber, place, n) is Ok,
    ensures
        character_query::series(vm, fiber, place, n)->Ok_0.len() == n,
        forall|c: int|
            0 <= c < n ==> holds(
                vm,
                fiber,
                place,
                c,
                #[trigger] character_query::series(vm, fiber, place, n)->Ok_0[c],
            ),
    decreases n,
{
    if n > 0 {
        lemma_series(vm, fiber, place, (n - 1) as nat);
        let before = character_query::series(vm, fiber, place, (n - 1) as nat)->Ok_0;
        let all = character_query::series(vm, fiber, place, n)->Ok_0;
        assert forall|c: int| 0 <= c < n implies holds(vm, fiber, place, c, #[trigger] all[c]) by {
            if c < n - 1 {
                assert(all[c] == before[c]);
            }
        }
    }
}

proof fn lemma_search(values: Seq<Val>, needle: Val, start: int, end: int)
    requires
        0 <= start <= end <= values.len(),
    ensures
        character_query::search_up(values, needle, start, end) matches Some(i) ==> start <= i < end
            && values[i] == needle && forall|j: int| start <= j < i ==> #[trigger] values[j]
            != needle,
        character_query::search_up(values, needle, start, end) is None ==> forall|j: int|
            start <= j < end ==> #[trigger] values[j] != needle,
        character_query::search_down(values, needle, start, end) matches Some(i) ==> start <= i
            < end && values[i] == needle && forall|j: int| i < j < end ==> #[trigger] values[j]
            != needle,
        character_query::search_down(values, needle, start, end) is None ==> forall|j: int|
            start <= j < end ==> #[trigger] values[j] != needle,
    decreases end - start,
{
    if start < end {
        lemma_search(values, needle, start + 1, end);
        lemma_search(values, needle, start, end - 1);
    }
}

/// The bound in an argument, or another one where it is left out.
pub open spec fn bound_in(arguments: Seq<Val>, k: int, otherwise: int) -> int {
    if k < arguments.len() {
        arguments[k]->Integer_0 as int
    } else {
        otherwise
    }
}

/// FINDCHARA is the first character of a range whose variable holds a value, and FINDLASTCHARA the
/// last; minus one where there is none. The range starts at the third argument and ends in front
/// of the fourth; without them it is all characters.
pub proof fn law_character_by_value(
    vm: VmModel,
    fiber: FiberModel,
    arguments: Seq<Val>,
    last: bool,
)
    requires
        vm.store.characters.len() <= i64::MAX,
        ({
            let name = if last {
                "findlastchara"@
            } else {
                "findchara"@
            };
            character_query::character_query(vm, fiber, name, arguments) is Ok
        }),
    ensures
        ({
            let name = if last {
                "findlastchara"@
            } else {
                "findchara"@
            };
            let place = array_laws::place_in(arguments[0]);
            let r = character_query::character_query(vm, fiber, name, arguments);
            let start = bound_in(arguments, 2, 0);
            let end = bound_in(arguments, 3, vm.store.characters.len() as int);
            &&& 0 <= start <= end <= vm.store.characters.len()
            &&& {
                ||| exists|i: int|
                    start <= i < end && #[trigger] holds(vm, fiber, place, i, arguments[1])
                        && answers(r, i) && forall|j: int|
                        start <= j < end && (if last {
                            i < j
                        } else {
                            j < i
                        }) ==> !#[trigger] holds(vm, fiber, place, j, arguments[1])
                ||| answers(r, -1) && forall|j: int|
                    start <= j < end ==> !#[trigger] holds(vm, fiber, place, j, arguments[1])
            }
        }),
{
    lemma_query_names();
    let place = arrays::place_at(arguments, 0)->Ok_0;
    let values = character_query::character_values(vm, fiber, place)->Ok_0;
    lemma_series(vm, fiber, place, vm.store.characters.len());
    let start = bound_in(arguments, 2, 0);
    let end = bound_in(arguments, 3, vm.store.characters.len() as int);
    lemma_search(values, arguments[1], start, end);
    assert forall|c: int| 0 <= c < values.len() implies #[trigger] holds(
        vm,
        fiber,
        place,
        c,
        arguments[1],
    ) == (values[c] == arguments[1]) by {
        assert(holds(vm, fiber, place, c, values[c]));
    }
}

/// The data of a character is asked for a number: the first template with the number and the mark
/// in the last argument.
pub open spec fn is_data(program: ProgramGeneration, t: int, arguments: Seq<Val>, k: int) -> bool {
    &&& 0 <= t < program.characters@.len()
    &&& Val::Integer(program.characters@[t].no) == arguments[0]
    &&& program.characters@[t].is_sp_character == is_set(arguments, k)
    &&& forall|s: int|
        0 <= s < t ==> !(Val::Integer((#[trigger] program.characters@[s]).no) == arguments[0]
            && program.characters@[s].is_sp_character == is_set(arguments, k))
}

proof fn lemma_data(program: ProgramGeneration, arguments: Seq<Val>, k: int, number: i64)
    requires
        arguments.len() > 0,
        arguments[0] == Val::Integer(number),
    ensures
        ({
            let found = lookup::first_index(
                program.characters@,
                character_query::template_is(number, arrays::flag_at(arguments, k)),
            );
            &&& found matches Some(t) ==> is_data(program, t, arguments, k)
            &&& found is None ==> forall|t: int| !#[trigger] is_data(program, t, arguments, k)
        }),
{
    let p = character_query::template_is(number, arrays::flag_at(arguments, k));
    lookup::lemma_first_index(program.characters@, p);
    match lookup::first_index(program.characters@, p) {
        Some(t) => {
            assert(p(program.characters@[t]));
            assert forall|s: int| 0 <= s < t implies !(Val::Integer(
                (#[trigger] program.characters@[s]).no,
            ) == arguments[0] && program.characters@[s].is_sp_character == is_set(
                arguments,
                k,
            )) by {
                assert(!p(program.characters@[s]));
            }
        },
        None => {
            assert forall|t: int| !#[trigger] is_data(program, t, arguments, k) by {
                if is_data(program, t, arguments, k) {
                    assert(p(program.characters@[t]));
                }
            }
        },
    }
}

/// EXISTCSV is one where there is data for a number, else zero; the name queries answer the names
/// in the data.
pub proof fn law_character_data_names(vm: VmModel, fiber: FiberModel, arguments: Seq<Val>, number: i64, t: int)
    requires
        vm.program(fiber.frames.last().generation) is Some,
        arguments.len() > 0,
        arguments[0] == Val::Integer(number),
    ensures
        ({
            let program = vm.program(fiber.frames.last().generation)->Some_0;
            let asked = |name: Seq<char>|
                character_query::character_query(vm, fiber, name, arguments);
            let data = program.characters@[t];
            &&& (forall|s: int| !#[trigger] is_data(program, s, arguments, 1)) ==> answers(
                asked("existcsv"@),
                0,
            ) && asked("csvname"@) is Err && asked("csvcallname"@) is Err && asked(
                "csvnickname"@,
            ) is Err && asked("csvmastername"@) is Err
            &&& is_data(program, t, arguments, 1) ==> answers(asked("existcsv"@), 1) && asked(
                "csvname"@,
            ) == Ok::<Val, Trouble>(Val::Text(data.name@)) && asked("csvcallname"@) == Ok::<
                Val,
                Trouble,
            >(Val::Text(data.call_name@)) && asked("csvnickname"@) == Ok::<Val, Trouble>(
                Val::Text(data.nick_name@),
            ) && asked("csvmastername"@) == Ok::<Val, Trouble>(Val::Text(data.master_name@))
        }),
{
    lemma_query_names();
    let program = vm.program(fiber.frames.last().generation)->Some_0;
    lemma_data(program, arguments, 1, number);
    lemma_data_unique(program, arguments, 1, number, t);
}

proof fn lemma_data_unique(
    program: ProgramGeneration,
    arguments: Seq<Val>,
    k: int,
    number: i64,
    t: int,
)
    requires
        arguments.len() > 0,
        arguments[0] == Val::Integer(number),
    ensures
        is_data(program, t, arguments, k) ==> lookup::first_index(
            program.characters@,
            character_query::template_is(number, arrays::flag_at(arguments, k)),
        ) == Some(t),
{
    if is_data(program, t, arguments, k) {
        let p = character_query::template_is(number, arrays::flag_at(arguments, k));
        assert(p(program.characters@[t]));
        assert forall|s: int| 0 <= s < t implies !p(#[trigger] program.characters@[s]) by {}
        lookup::lemma_first_found(program.characters@, p, t);
    }
}

/// The number of a field: the first entry with the index, or zero.
pub open spec fn is_number(fields: Seq<FieldNumber>, index: int, v: i64) -> bool {
    ||| exists|i: int|
        0 <= i < fields.len() && (#[trigger] fields[i]).index == index && v == fields[i].value
            && forall|j: int| 0 <= j < i ==> (#[trigger] fields[j]).index != index
    ||| v == 0 && forall|i: int| 0 <= i < fields.len() ==> (#[trigger] fields[i]).index != index
}

proof fn lemma_field_number(fields: Seq<FieldNumber>, index: usize)
    ensures
        is_number(fields, index as int, character_query::field_number(fields, index)),
{
    let p = character_query::field_is(index);
    lookup::lemma_first_index(fields, p);
    match lookup::first_index(fields, p) {
        Some(i) => {
            assert(p(fields[i]));
            assert forall|j: int| 0 <= j < i implies (#[trigger] fields[j]).index != index by {
                assert(!p(fields[j]));
            }
        },
        None => {
            assert forall|i: int| 0 <= i < fields.len() implies (#[trigger] fields[i]).index
                != index by {
                assert(!p(fields[i]));
            }
        },
    }
}

/// An answer is the number of a field.
pub open spec fn tells_number(r: Result<Val, Trouble>, fields: Seq<FieldNumber>, index: int) -> bool {
    r matches Ok(Val::Integer(n)) && is_number(fields, index, n)
}

/// The numbers in the data of a character: each query answers the field of its name, at the index
/// in the second argument, and zero where the data gives none.
pub proof fn law_character_data_fields(
    vm: VmModel,
    fiber: FiberModel,
    arguments: Seq<Val>,
    number: i64,
    index: i64,
    t: int,
)
    requires
        vm.program(fiber.frames.last().generation) matches Some(program) && is_data(
            program,
            t,
            arguments,
            2,
        ),
        arguments.len() > 1,
        arguments[0] == Val::Integer(number),
        arguments[1] == Val::Integer(index),
        0 <= index <= usize::MAX,
    ensures
        ({
            let program = vm.program(fiber.frames.last().generation)->Some_0;
            let asked = |name: Seq<char>|
                character_query::character_query(vm, fiber, name, arguments);
            let data = program.characters@[t];
            &&& tells_number(asked("csvbase"@), data.max_base@, index as int)
            &&& tells_number(asked("csvabl"@), data.abl@, index as int)
            &&& tells_number(asked("csvmark"@), data.mark@, index as int)
            &&& tells_number(asked("csvexp"@), data.exp@, index as int)
            &&& tells_number(asked("csvrelation"@), data.relation@, index as int)
            &&& tells_number(asked("csvtalent"@), data.talent@, index as int)
            &&& tells_number(asked("csvcflag"@), data.cflag@, index as int)
            &&& tells_number(asked("csvequip"@), data.equip@, index as int)
            &&& tells_number(asked("csvjuel"@), data.juel@, index as int)
        }),
{
    lemma_query_names();
    let program = vm.program(fiber.frames.last().generation)->Some_0;
    lemma_data_unique(program, arguments, 2, number, t);
    let data = program.characters@[t];
    lemma_field_number(data.max_base@, index as usize);
    lemma_field_number(data.abl@, index as usize);
    lemma_field_number(data.mark@, index as usize);
    lemma_field_number(data.exp@, index as usize);
    lemma_field_number(data.relation@, index as usize);
    lemma_field_number(data.talent@, index as usize);
    lemma_field_number(data.cflag@, index as usize);
    lemma_field_number(data.equip@, index as usize);
    lemma_field_number(data.juel@, index as usize);
}

/// CSVCSTR answers the text at an index in the data, and the empty text where it gives none.
pub proof fn law_character_data_texts(
    vm: VmModel,
    fiber: FiberModel,
    arguments: Seq<Val>,
    number: i64,
    index: i64,
    t: int,
    k: int,
)
    requires
        vm.program(fiber.frames.last().generation) matches Some(program) && is_data(
            program,
            t,
            arguments,
            2,
        ),
        arguments.len() > 1,
        arguments[0] == Val::Integer(number),
        arguments[1] == Val::Integer(index),
        0 <= index <= usize::MAX,
    ensures
        ({
            let texts = vm.program(fiber.frames.last().generation)->Some_0.characters@[t].cstr@;
            let r = character_query::character_query(vm, fiber, "csvcstr"@, arguments);
            &&& 0 <= k < texts.len() && texts[k].index == index && (forall|j: int|
                0 <= j < k ==> (#[trigger] texts[j]).index != index) ==> r == Ok::<Val, Trouble>(
                Val::Text(texts[k].value@),
            )
            &&& (forall|j: int| 0 <= j < texts.len() ==> (#[trigger] texts[j]).index != index) ==> r
                == Ok::<Val, Trouble>(Val::Text(Seq::empty()))
        }),
{
    lemma_query_names();
    let program = vm.program(fiber.frames.last().generation)->Some_0;
    lemma_data_unique(program, arguments, 2, number, t);
    let texts = program.characters@[t].cstr@;
    let p = character_query::text_field_is(index as usize);
    if 0 <= k < texts.len() && texts[k].index == index && (forall|j: int|
        0 <= j < k ==> (#[trigger] texts[j]).index != index) {
        assert(p(texts[k]));
        assert forall|j: int| 0 <= j < k implies !p(#[trigger] texts[j]) by {}
        lookup::lemma_first_found(texts, p, k);
    }
    if forall|j: int| 0 <= j < texts.len() ==> (#[trigger] texts[j]).index != index {
        assert forall|j: int| 0 <= j < texts.len() implies !p(#[trigger] texts[j]) by {}
        lookup::lemma_first_none(texts, p);
    }
}

} // verus!
