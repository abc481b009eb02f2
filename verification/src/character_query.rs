//! Queries over characters and over the project's character data.

use vstd::prelude::*;
use crate::arrays;
use crate::fastpaths;
use crate::fault::{self, Trouble, VmError};
use crate::lookup;
use crate::memory::{self, BytecodeStorage, CellMap, Cells};
use crate::named;
use crate::operand;
use crate::places;
use crate::program::{CharacterTemplate, FieldNumber, FieldText, ProgramGeneration};
use crate::state::{self, Fiber, FiberModel, Vm, VmModel};
use crate::text;
use crate::value::{self, Place, PlaceDescriptor, SymbolKey, Val, VmValue};

verus! {

/// What is asked about characters.
#[derive(Clone, Copy, PartialEq, Eq, Debug, Structural)]
pub enum CharacterQuery {
    CharaNum,
    GetChara,
    GetSpChara,
    FindChara,
    FindLastChara,
    ExistCsv,
    CsvName,
    CsvCallName,
    CsvNickName,
    CsvMasterName,
    CsvCstr,
    CsvBase,
    CsvAbl,
    CsvMark,
    CsvExp,
    CsvRelation,
    CsvTalent,
    CsvCflag,
    CsvEquip,
    CsvJuel,
}

/// The query that an operation name means.
pub open spec fn query_named(name: Seq<char>) -> Option<CharacterQuery> {
    if name == "charanum"@ {
        Some(CharacterQuery::CharaNum)
    } else if name == "getchara"@ {
        Some(CharacterQuery::GetChara)
    } else if name == "getspchara"@ {
        Some(CharacterQuery::GetSpChara)
    } else if name == "findchara"@ {
        Some(CharacterQuery::FindChara)
    } else if name == "findlastchara"@ {
        Some(CharacterQuery::FindLastChara)
    } else if name == "existcsv"@ {
        Some(CharacterQuery::ExistCsv)
    } else if name == "csvname"@ {
        Some(CharacterQuery::CsvName)
    } else if name == "csvcallname"@ {
        Some(CharacterQuery::CsvCallName)
    } else if name == "csvnickname"@ {
        Some(CharacterQuery::CsvNickName)
    } else if name == "csvmastername"@ {
        Some(CharacterQuery::CsvMasterName)
    } else if name == "csvcstr"@ {
        Some(CharacterQuery::CsvCstr)
    } else if name == "csvbase"@ {
        Some(CharacterQuery::CsvBase)
    } else if name == "csvabl"@ {
        Some(CharacterQuery::CsvAbl)
    } else if name == "csvmark"@ {
        Some(CharacterQuery::CsvMark)
    } else if name == "csvexp"@ {
        Some(CharacterQuery::CsvExp)
    } else if name == "csvrelation"@ {
        Some(CharacterQuery::CsvRelation)
    } else if name == "csvtalent"@ {
        Some(CharacterQuery::CsvTalent)
    } else if name == "csvcflag"@ {
        Some(CharacterQuery::CsvCflag)
    } else if name == "csvequip"@ {
        Some(CharacterQuery::CsvEquip)
    } else if name == "csvjuel"@ {
        Some(CharacterQuery::CsvJuel)
    } else {
        None
    }
}

pub(crate) fn parse_query(name: &str) -> (r: Option<CharacterQuery>)
    ensures
        r == query_named(name@),
{
    if text::same_text(name, "charanum") {
        Some(CharacterQuery::CharaNum)
    } else if text::same_text(name, "getchara") {
        Some(CharacterQuery::GetChara)
    } else if text::same_text(name, "getspchara") {
        Some(CharacterQuery::GetSpChara)
    } else if text::same_text(name, "findchara") {
        Some(CharacterQuery::FindChara)
    } else if text::same_text(name, "findlastchara") {
        Some(CharacterQuery::FindLastChara)
    } else if text::same_text(name, "existcsv") {
        Some(CharacterQuery::ExistCsv)
    } else if text::same_text(name, "csvname") {
        Some(CharacterQuery::CsvName)
    } else if text::same_text(name, "csvcallname") {
        Some(CharacterQuery::CsvCallName)
    } else if text::same_text(name, "csvnickname") {
        Some(CharacterQuery::CsvNickName)
    } else if text::same_text(name, "csvmastername") {
        Some(CharacterQuery::CsvMasterName)
    } else if text::same_text(name, "csvcstr") {
        Some(CharacterQuery::CsvCstr)
    } else if text::same_text(name, "csvbase") {
        Some(CharacterQuery::CsvBase)
    } else if text::same_text(name, "csvabl") {
        Some(CharacterQuery::CsvAbl)
    } else if text::same_text(name, "csvmark") {
        Some(CharacterQuery::CsvMark)
    } else if text::same_text(name, "csvexp") {
        Some(CharacterQuery::CsvExp)
    } else if text::same_text(name, "csvrelation") {
        Some(CharacterQuery::CsvRelation)
    } else if text::same_text(name, "csvtalent") {
        Some(CharacterQuery::CsvTalent)
    } else if text::same_text(name, "csvcflag") {
        Some(CharacterQuery::CsvCflag)
    } else if text::same_text(name, "csvequip") {
        Some(CharacterQuery::CsvEquip)
    } else if text::same_text(name, "csvjuel") {
        Some(CharacterQuery::CsvJuel)
    } else {
        None
    }
}

/// A place of another character.
pub open spec fn of_character(place: Place, character: nat) -> Place {
    Place { character: Some(fastpaths::saturated(character as int)), ..place }
}

/// What a place holds for each of the first `n` characters.
pub open spec fn series(vm: VmModel, fiber: FiberModel, place: Place, n: nat) -> Result<
    Seq<Val>,
    Trouble,
>
    decreases n,
{
    if n == 0 {
        Ok(Seq::empty())
    } else {
        match series(vm, fiber, place, (n - 1) as nat) {
            Err(e) => Err(e),
            Ok(before) => match places::read_place(
                vm,
                fiber,
                of_character(place, (n - 1) as nat),
            ) {
                Err(e) => Err(e),
                Ok(v) => Ok(before.push(v)),
            },
        }
    }
}

/// What a character variable holds for each character.
pub open spec fn character_values(vm: VmModel, fiber: FiberModel, place: Place) -> Result<
    Seq<Val>,
    Trouble,
> {
    let missing = Trouble::InvalidState("character array variable is missing"@);
    match vm.program(fiber.top().generation) {
        None => Err(missing),
        Some(program) => match program.spec_global(place.variable) {
            None => Err(missing),
            Some(g) => if g.storage is Character {
                series(vm, fiber, place, vm.store.characters.len())
            } else {
                Err(
                    Trouble::InvalidArguments(
                        "character-array query requires a character variable"@,
                    ),
                )
            },
        },
    }
}

proof fn lemma_series_stops(vm: VmModel, fiber: FiberModel, place: Place, k: nat, n: nat)
    requires
        k <= n,
        series(vm, fiber, place, k) is Err,
    ensures
        series(vm, fiber, place, n) == series(vm, fiber, place, k),
    decreases n,
{
    if k < n {
        lemma_series_stops(vm, fiber, place, k, (n - 1) as nat);
    }
}

/// Reads a character variable for each character.
#[verifier::loop_isolation(false)]
pub fn character_series(vm: &Vm, fiber: &Fiber, place: &PlaceDescriptor) -> (r: Result<
    Vec<VmValue>,
    VmError,
>)
    requires
        fiber@.frames.len() > 0,
    ensures
        crate::array_ops::values_result(r) == character_values(vm@, fiber@, place@),
{
    let program = match vm.program(fiber.top().generation) {
        None => {
            return Err(VmError::invalid_state("character array variable is missing"));
        },
        Some(p) => p,
    };
    match program.global(place.variable) {
        None => {
            return Err(VmError::invalid_state("character array variable is missing"));
        },
        Some(g) => {
            if g.storage != BytecodeStorage::Character {
                return Err(
                    VmError::invalid_arguments(
                        "character-array query requires a character variable",
                    ),
                );
            }
        },
    }
    let n: usize = vm.memory.characters.len();
    let mut out: Vec<VmValue> = Vec::new();
    let mut i: usize = 0;
    assert(value::vals(out@) =~= Seq::<Val>::empty());
    while i < n
        invariant
            i <= n,
            n == vm@.store.characters.len(),
            series(vm@, fiber@, place@, i as nat) == Ok::<Seq<Val>, Trouble>(value::vals(out@)),
        decreases n - i,
    {
        let mut element = place.clone();
        element.character = Some(i as u64);
        assert(element@ =~= of_character(place@, i as nat));
        match vm.read_place(fiber, &element) {
            Ok(v) => {
                let ghost before = out@;
                out.push(v);
                assert(value::vals(out@) =~= value::vals(before).push(v@));
            },
            Err(e) => {
                proof {
                    lemma_series_stops(vm@, fiber@, place@, (i + 1) as nat, n as nat);
                }
                return Err(e);
            },
        }
        i = i + 1;
    }
    Ok(out)
}

/// What a variable of a character holds first.
pub open spec fn first_of(character: Cells, key: SymbolKey) -> Option<Val> {
    match memory::cell_of(character, key) {
        None => None,
        Some(cell) => cell.first(),
    }
}

fn first_value(character: &CellMap, key: SymbolKey) -> (r: Option<VmValue>)
    ensures
        match r {
            Some(v) => first_of(character@, key) == Some(v@),
            None => first_of(character@, key) is None,
        },
{
    match character.get(key) {
        None => None,
        Some(cell) => cell.first(),
    }
}

/// A character is marked as special.
pub open spec fn is_special(character: Cells, cflag: Option<SymbolKey>) -> bool {
    cflag matches Some(key) && (first_of(character, key) matches Some(Val::Integer(n)) && n != 0)
}

/// A character with a number, and with a mark where that matters.
pub open spec fn chara_is(no: SymbolKey, cflag: Option<SymbolKey>, number: i64, sp: Option<bool>) -> spec_fn(
    Cells,
) -> bool {
    |c: Cells|
        first_of(c, no) == Some(Val::Integer(number)) && (sp matches Some(s) ==> is_special(c, cflag)
            == s)
}

/// A position as an integer of the language; minus one where there is none.
pub open spec fn position_value(i: Option<int>) -> Val {
    match i {
        Some(i) => Val::Integer(fastpaths::count_integer(i as nat)),
        None => Val::Integer((-1) as i64),
    }
}

/// Which mark a search asks for, where it asks for one.
pub open spec fn asked_mark(query: CharacterQuery, arguments: Seq<Val>) -> Option<bool> {
    if query is GetChara && arguments.len() < 2 {
        None
    } else {
        Some(query is GetSpChara || arrays::flag_at(arguments, 1))
    }
}

/// The first character with a number.
pub open spec fn get_chara(
    program: ProgramGeneration,
    characters: Seq<Cells>,
    query: CharacterQuery,
    arguments: Seq<Val>,
) -> Result<Val, Trouble> {
    match arrays::integer_at(arguments, 0) {
        Err(e) => Err(e),
        Ok(number) => match named::character_global(program, "NO"@) {
            None => Err(Trouble::InvalidState("NO is not defined"@)),
            Some(no) => {
                let cflag = match named::character_global(program, "CFLAG"@) {
                    Some(g) => Some(g.key),
                    None => None,
                };
                Ok(
                    position_value(
                        lookup::first_index(
                            characters,
                            chara_is(no.key, cflag, number, asked_mark(query, arguments)),
                        ),
                    ),
                )
            },
        },
    }
}

#[verifier::loop_isolation(false)]
fn find_number(
    program: &ProgramGeneration,
    characters: &Vec<CellMap>,
    query: CharacterQuery,
    arguments: &Vec<VmValue>,
) -> (r: Result<VmValue, VmError>)
    requires
        query is GetChara || query is GetSpChara,
    ensures
        fault::result(r) == get_chara(
            *program,
            state::character_views(characters@),
            query,
            value::vals(arguments@),
        ),
{
    let number: i64 = match arrays::integer_argument(arguments, 0) {
        Ok(n) => n,
        Err(e) => {
            return Err(e);
        },
    };
    let no: SymbolKey = match named::character_definition(program, "NO") {
        None => {
            return Err(VmError::invalid_state("NO is not defined"));
        },
        Some(g) => g.key,
    };
    let cflag: Option<SymbolKey> = match named::character_definition(program, "CFLAG") {
        None => None,
        Some(g) => Some(g.key),
    };
    let sp: Option<bool> = if query == CharacterQuery::GetChara && arguments.len() < 2 {
        None
    } else {
        Some(query == CharacterQuery::GetSpChara || arrays::flag_argument(arguments, 1))
    };
    let ghost all = state::character_views(characters@);
    let ghost p = chara_is(no, cflag, number, sp);
    let mut i: usize = 0;
    while i < characters.len()
        invariant
            i <= characters.len(),
            all == state::character_views(characters@),
            p == chara_is(no, cflag, number, sp),
            forall|j: int| 0 <= j < i ==> !p(#[trigger] all[j]),
        decreases characters.len() - i,
    {
        let character = &characters[i];
        let numbered: bool = match first_value(character, no) {
            Some(VmValue::Integer(n)) => n == number,
            _ => false,
        };
        let special: bool = match cflag {
            None => false,
            Some(key) => match first_value(character, key) {
                Some(VmValue::Integer(n)) => n != 0,
                _ => false,
            },
        };
        let marked: bool = match sp {
            None => true,
            Some(s) => special == s,
        };
        assert(p(all[i as int]) == (numbered && marked));
        if numbered && marked {
            proof {
                lookup::lemma_first_found(all, p, i as int);
            }
            return Ok(VmValue::Integer(fastpaths::integer_of_count(i)));
        }
        i = i + 1;
    }
    proof {
        lookup::lemma_first_none(all, p);
    }
    Ok(VmValue::Integer(-1))
}

/// The first position in `start..end` that holds a value.
pub open spec fn search_up(values: Seq<Val>, needle: Val, start: int, end: int) -> Option<int>
    decreases end - start,
{
    if start >= end {
        None
    } else if values[start] == needle {
        Some(start)
    } else {
        search_up(values, needle, start + 1, end)
    }
}

/// The last position in `start..end` that holds a value.
pub open spec fn search_down(values: Seq<Val>, needle: Val, start: int, end: int) -> Option<int>
    decreases end - start,
{
    if start >= end {
        None
    } else if values[end - 1] == needle {
        Some(end - 1)
    } else {
        search_down(values, needle, start, end - 1)
    }
}

/// The character whose variable holds a value.
pub open spec fn find_chara(
    vm: VmModel,
    fiber: FiberModel,
    query: CharacterQuery,
    operation: Seq<char>,
    arguments: Seq<Val>,
) -> Result<Val, Trouble> {
    match arrays::place_at(arguments, 0) {
        Err(e) => Err(e),
        Ok(place) => match character_values(vm, fiber, place) {
            Err(e) => Err(e),
            Ok(values) => if arguments.len() < 2 {
                Err(Trouble::InvalidArguments("FINDCHARA target is missing"@))
            } else {
                match arrays::position_at(arguments, 2, 0, operation) {
                    Err(e) => Err(e),
                    Ok(start) => match arrays::position_at(
                        arguments,
                        3,
                        values.len() as int,
                        operation,
                    ) {
                        Err(e) => Err(e),
                        Ok(end) => if start >= values.len() || start > end || end > values.len() {
                            Err(
                                Trouble::InvalidArguments(
                                    "FINDCHARA character range is invalid"@,
                                ),
                            )
                        } else {
                            Ok(
                                position_value(
                                    if query is FindLastChara {
                                        search_down(values, arguments[1], start, end)
                                    } else {
                                        search_up(values, arguments[1], start, end)
                                    },
                                ),
                            )
                        },
                    },
                }
            },
        },
    }
}

#[verifier::loop_isolation(false)]
fn find_value(
    vm: &Vm,
    fiber: &Fiber,
    query: CharacterQuery,
    operation: &str,
    arguments: &Vec<VmValue>,
) -> (r: Result<VmValue, VmError>)
    requires
        fiber@.frames.len() > 0,
    ensures
        fault::result(r) == find_chara(vm@, fiber@, query, operation@, value::vals(arguments@)),
{
    let place = match arrays::array_place(arguments, 0) {
        Ok(p) => p,
        Err(e) => {
            return Err(e);
        },
    };
    let values = match character_series(vm, fiber, place) {
        Ok(v) => v,
        Err(e) => {
            return Err(e);
        },
    };
    if arguments.len() < 2 {
        return Err(VmError::invalid_arguments("FINDCHARA target is missing"));
    }
    let needle = &arguments[1];
    let start: usize = match arrays::optional_index(arguments, 2, 0, operation) {
        Ok(n) => n,
        Err(e) => {
            return Err(e);
        },
    };
    let end: usize = match arrays::optional_index(arguments, 3, values.len(), operation) {
        Ok(n) => n,
        Err(e) => {
            return Err(e);
        },
    };
    if start >= values.len() || start > end || end > values.len() {
        return Err(VmError::invalid_arguments("FINDCHARA character range is invalid"));
    }
    let ghost all = value::vals(values@);
    if query == CharacterQuery::FindLastChara {
        let mut k: usize = end;
        while k > start
            invariant
                start <= k <= end <= values@.len(),
                all == value::vals(values@),
                search_down(all, needle@, start as int, end as int) == search_down(
                    all,
                    needle@,
                    start as int,
                    k as int,
                ),
            decreases k,
        {
            if value::same_value(&values[k - 1], needle) {
                return Ok(VmValue::Integer(fastpaths::integer_of_count(k - 1)));
            }
            k = k - 1;
        }
    } else {
        let mut k: usize = start;
        while k < end
            invariant
                start <= k <= end <= values@.len(),
                all == value::vals(values@),
                search_up(all, needle@, start as int, end as int) == search_up(
                    all,
                    needle@,
                    k as int,
                    end as int,
                ),
            decreases end - k,
        {
            if value::same_value(&values[k], needle) {
                return Ok(VmValue::Integer(fastpaths::integer_of_count(k)));
            }
            k = k + 1;
        }
    }
    Ok(VmValue::Integer(-1))
}

pub open spec fn template_is(number: i64, sp: bool) -> spec_fn(CharacterTemplate) -> bool {
    |t: CharacterTemplate| t.no == number && t.is_sp_character == sp
}

/// Finds the template with a number and a mark.
pub fn find_template(program: &ProgramGeneration, number: i64, sp: bool) -> (r: Option<usize>)
    ensures
        match r {
            Some(i) => i < program.characters@.len() && lookup::first_index(
                program.characters@,
                template_is(number, sp),
            ) == Some(i as int),
            None => lookup::first_index(program.characters@, template_is(number, sp)) is None,
        },
{
    let mut i: usize = 0;
    while i < program.characters.len()
        invariant
            i <= program.characters.len(),
            forall|j: int|
                0 <= j < i ==> !template_is(number, sp)(#[trigger] program.characters@[j]),
        decreases program.characters.len() - i,
    {
        let t = &program.characters[i];
        if t.no == number && t.is_sp_character == sp {
            proof {
                lookup::lemma_first_found(program.characters@, template_is(number, sp), i as int);
            }
            return Some(i);
        }
        i = i + 1;
    }
    proof {
        lookup::lemma_first_none(program.characters@, template_is(number, sp));
    }
    None
}

pub open spec fn field_is(index: usize) -> spec_fn(FieldNumber) -> bool {
    |f: FieldNumber| f.index == index
}

pub open spec fn text_field_is(index: usize) -> spec_fn(FieldText) -> bool {
    |f: FieldText| f.index == index
}

/// A number of a character field; zero where it is not given.
pub open spec fn field_number(fields: Seq<FieldNumber>, index: usize) -> i64 {
    match lookup::first_index(fields, field_is(index)) {
        Some(i) => fields[i].value,
        None => 0,
    }
}

/// A text of a character field; empty where it is not given.
pub open spec fn field_text(fields: Seq<FieldText>, index: usize) -> Seq<char> {
    match lookup::first_index(fields, text_field_is(index)) {
        Some(i) => fields[i].value@,
        None => Seq::empty(),
    }
}

fn read_field(fields: &Vec<FieldNumber>, index: usize) -> (r: VmValue)
    ensures
        r@ == Val::Integer(field_number(fields@, index)),
{
    let mut i: usize = 0;
    while i < fields.len()
        invariant
            i <= fields.len(),
            forall|j: int| 0 <= j < i ==> !field_is(index)(#[trigger] fields@[j]),
        decreases fields.len() - i,
    {
        if fields[i].index == index {
            proof {
                lookup::lemma_first_found(fields@, field_is(index), i as int);
            }
            return VmValue::Integer(fields[i].value);
        }
        i = i + 1;
    }
    proof {
        lookup::lemma_first_none(fields@, field_is(index));
    }
    VmValue::Integer(0)
}

fn read_text_field(fields: &Vec<FieldText>, index: usize) -> (r: VmValue)
    ensures
        r@ == Val::Text(field_text(fields@, index)),
{
    let mut i: usize = 0;
    while i < fields.len()
        invariant
            i <= fields.len(),
            forall|j: int| 0 <= j < i ==> !text_field_is(index)(#[trigger] fields@[j]),
        decreases fields.len() - i,
    {
        if fields[i].index == index {
            proof {
                lookup::lemma_first_found(fields@, text_field_is(index), i as int);
            }
            return VmValue::String(fields[i].value.clone());
        }
        i = i + 1;
    }
    proof {
        lookup::lemma_first_none(fields@, text_field_is(index));
        reveal_strlit("");
        assert(""@ =~= Seq::<char>::empty());
    }
    VmValue::text("")
}

/// A query that names a field of the character data by index.
pub open spec fn is_indexed(query: Option<CharacterQuery>) -> bool {
    match query {
        Some(CharacterQuery::CsvCstr) | Some(CharacterQuery::CsvBase) | Some(
            CharacterQuery::CsvAbl,
        ) | Some(CharacterQuery::CsvMark) | Some(CharacterQuery::CsvExp) | Some(
            CharacterQuery::CsvRelation,
        ) | Some(CharacterQuery::CsvTalent) | Some(CharacterQuery::CsvCflag) | Some(
            CharacterQuery::CsvEquip,
        ) | Some(CharacterQuery::CsvJuel) => true,
        _ => false,
    }
}

fn names_field(query: Option<CharacterQuery>) -> (r: bool)
    ensures
        r == is_indexed(query),
{
    match query {
        Some(CharacterQuery::CsvCstr)
        | Some(CharacterQuery::CsvBase)
        | Some(CharacterQuery::CsvAbl)
        | Some(CharacterQuery::CsvMark)
        | Some(CharacterQuery::CsvExp)
        | Some(CharacterQuery::CsvRelation)
        | Some(CharacterQuery::CsvTalent)
        | Some(CharacterQuery::CsvCflag)
        | Some(CharacterQuery::CsvEquip)
        | Some(CharacterQuery::CsvJuel) => true,
        _ => false,
    }
}

/// What the character data says for a query.
pub open spec fn template_value(query: Option<CharacterQuery>, t: CharacterTemplate, index: usize) -> Option<
    Val,
> {
    match query {
        Some(CharacterQuery::CsvName) => Some(Val::Text(t.name@)),
        Some(CharacterQuery::CsvCallName) => Some(Val::Text(t.call_name@)),
        Some(CharacterQuery::CsvNickName) => Some(Val::Text(t.nick_name@)),
        Some(CharacterQuery::CsvMasterName) => Some(Val::Text(t.master_name@)),
        Some(CharacterQuery::CsvCstr) => Some(Val::Text(field_text(t.cstr@, index))),
        Some(CharacterQuery::CsvBase) => Some(Val::Integer(field_number(t.max_base@, index))),
        Some(CharacterQuery::CsvAbl) => Some(Val::Integer(field_number(t.abl@, index))),
        Some(CharacterQuery::CsvMark) => Some(Val::Integer(field_number(t.mark@, index))),
        Some(CharacterQuery::CsvExp) => Some(Val::Integer(field_number(t.exp@, index))),
        Some(CharacterQuery::CsvRelation) => Some(Val::Integer(field_number(t.relation@, index))),
        Some(CharacterQuery::CsvTalent) => Some(Val::Integer(field_number(t.talent@, index))),
        Some(CharacterQuery::CsvCflag) => Some(Val::Integer(field_number(t.cflag@, index))),
        Some(CharacterQuery::CsvEquip) => Some(Val::Integer(field_number(t.equip@, index))),
        Some(CharacterQuery::CsvJuel) => Some(Val::Integer(field_number(t.juel@, index))),
        _ => None,
    }
}

fn read_template(query: Option<CharacterQuery>, t: &CharacterTemplate, index: usize) -> (r: Option<
    VmValue,
>)
    ensures
        match r {
            Some(v) => template_value(query, *t, index) == Some(v@),
            None => template_value(query, *t, index) is None,
        },
{
    match query {
        Some(CharacterQuery::CsvName) => Some(VmValue::String(t.name.clone())),
        Some(CharacterQuery::CsvCallName) => Some(VmValue::String(t.call_name.clone())),
        Some(CharacterQuery::CsvNickName) => Some(VmValue::String(t.nick_name.clone())),
        Some(CharacterQuery::CsvMasterName) => Some(VmValue::String(t.master_name.clone())),
        Some(CharacterQuery::CsvCstr) => Some(read_text_field(&t.cstr, index)),
        Some(CharacterQuery::CsvBase) => Some(read_field(&t.max_base, index)),
        Some(CharacterQuery::CsvAbl) => Some(read_field(&t.abl, index)),
        Some(CharacterQuery::CsvMark) => Some(read_field(&t.mark, index)),
        Some(CharacterQuery::CsvExp) => Some(read_field(&t.exp, index)),
        Some(CharacterQuery::CsvRelation) => Some(read_field(&t.relation, index)),
        Some(CharacterQuery::CsvTalent) => Some(read_field(&t.talent, index)),
        Some(CharacterQuery::CsvCflag) => Some(read_field(&t.cflag, index)),
        Some(CharacterQuery::CsvEquip) => Some(read_field(&t.equip, index)),
        Some(CharacterQuery::CsvJuel) => Some(read_field(&t.juel, index)),
        _ => None,
    }
}

/// The field index of a query: its second argument, where it names one.
pub open spec fn field_index(query: Option<CharacterQuery>, arguments: Seq<Val>) -> Result<
    usize,
    Trouble,
> {
    if is_indexed(query) {
        match arrays::integer_at(arguments, 1) {
            Err(e) => Err(e),
            Ok(n) => if 0 <= n <= usize::MAX {
                Ok(n as usize)
            } else {
                Err(Trouble::InvalidArguments("CSV field index is negative"@))
            },
        }
    } else {
        Ok(0)
    }
}

/// What the character data says.
pub open spec fn csv_query(
    program: ProgramGeneration,
    query: Option<CharacterQuery>,
    arguments: Seq<Val>,
) -> Result<Val, Trouble> {
    match arrays::integer_at(arguments, 0) {
        Err(e) => Err(e),
        Ok(number) => match field_index(query, arguments) {
            Err(e) => Err(e),
            Ok(index) => {
                let sp = arrays::flag_at(
                    arguments,
                    if is_indexed(query) {
                        2
                    } else {
                        1
                    },
                );
                let found = lookup::first_index(program.characters@, template_is(number, sp));
                if query == Some(CharacterQuery::ExistCsv) {
                    Ok(operand::truth(found is Some))
                } else {
                    match found {
                        None => Err(
                            Trouble::InvalidArguments(
                                "character CSV number "@ + text::decimal(number as int)
                                    + " does not exist"@,
                            ),
                        ),
                        Some(i) => match template_value(query, program.characters@[i], index) {
                            Some(v) => Ok(v),
                            None => Err(
                                Trouble::InvalidArguments("unknown character CSV query"@),
                            ),
                        },
                    }
                }
            },
        },
    }
}

fn read_csv(
    program: &ProgramGeneration,
    query: Option<CharacterQuery>,
    arguments: &Vec<VmValue>,
) -> (r: Result<VmValue, VmError>)
    ensures
        fault::result(r) == csv_query(*program, query, value::vals(arguments@)),
{
    let number: i64 = match arrays::integer_argument(arguments, 0) {
        Ok(n) => n,
        Err(e) => {
            return Err(e);
        },
    };
    let indexed: bool = names_field(query);
    let mut index: usize = 0;
    if indexed {
        match arrays::integer_argument(arguments, 1) {
            Ok(n) => {
                if n < 0 || n as u64 > usize::MAX as u64 {
                    return Err(VmError::invalid_arguments("CSV field index is negative"));
                }
                index = n as usize;
            },
            Err(e) => {
                return Err(e);
            },
        }
    }
    let sp: bool = arrays::flag_argument(
        arguments,
        if indexed {
            2
        } else {
            1
        },
    );
    let found = find_template(program, number, sp);
    let exists: bool = match query {
        Some(CharacterQuery::ExistCsv) => true,
        _ => false,
    };
    if exists {
        return Ok(operand::truth_value(found.is_some()));
    }
    match found {
        None => {
            let number_text = text::integer_text(number);
            Err(
                VmError::InvalidArguments(
                    text::join3(
                        "character CSV number ",
                        number_text.as_str(),
                        " does not exist",
                    ),
                ),
            )
        },
        Some(i) => match read_template(query, &program.characters[i], index) {
            Some(v) => Ok(v),
            None => Err(VmError::invalid_arguments("unknown character CSV query")),
        },
    }
}

/// What a query answers.
pub open spec fn character_query(
    vm: VmModel,
    fiber: FiberModel,
    operation: Seq<char>,
    arguments: Seq<Val>,
) -> Result<Val, Trouble> {
    match vm.program(fiber.top().generation) {
        None => Err(Trouble::InvalidState("character query generation is missing"@)),
        Some(program) => match query_named(operation) {
            Some(CharacterQuery::CharaNum) => Ok(
                Val::Integer(fastpaths::count_integer(vm.store.characters.len())),
            ),
            Some(CharacterQuery::GetChara) => get_chara(
                program,
                vm.store.characters,
                CharacterQuery::GetChara,
                arguments,
            ),
            Some(CharacterQuery::GetSpChara) => get_chara(
                program,
                vm.store.characters,
                CharacterQuery::GetSpChara,
                arguments,
            ),
            Some(CharacterQuery::FindChara) => find_chara(
                vm,
                fiber,
                CharacterQuery::FindChara,
                operation,
                arguments,
            ),
            Some(CharacterQuery::FindLastChara) => find_chara(
                vm,
                fiber,
                CharacterQuery::FindLastChara,
                operation,
                arguments,
            ),
            query => csv_query(program, query, arguments),
        },
    }
}

/// Answers a query about characters.
pub fn execute_character_query(
    vm: &Vm,
    fiber: &Fiber,
    operation: &str,
    arguments: &Vec<VmValue>,
) -> (r: Result<VmValue, VmError>)
    requires
        fiber@.frames.len() > 0,
    ensures
        fault::result(r) == character_query(
            vm@,
            fiber@,
            operation@,
            value::vals(arguments@),
        ),
{
    let program = match vm.program(fiber.top().generation) {
        None => {
            return Err(VmError::invalid_state("character query generation is missing"));
        },
        Some(p) => p,
    };
    match parse_query(operation) {
        Some(CharacterQuery::CharaNum) => Ok(
            VmValue::Integer(fastpaths::integer_of_count(vm.memory.characters.len())),
        ),
        Some(CharacterQuery::GetChara) => find_number(
            &*program,
            &vm.memory.characters,
            CharacterQuery::GetChara,
            arguments,
        ),
        Some(CharacterQuery::GetSpChara) => find_number(
            &*program,
            &vm.memory.characters,
            CharacterQuery::GetSpChara,
            arguments,
        ),
        Some(CharacterQuery::FindChara) => find_value(
            vm,
            fiber,
            CharacterQuery::FindChara,
            operation,
            arguments,
        ),
        Some(CharacterQuery::FindLastChara) => find_value(
            vm,
            fiber,
            CharacterQuery::FindLastChara,
            operation,
            arguments,
        ),
        query => read_csv(&*program, query, arguments),
    }
}

/// A character that is found has the number that was asked for, and none before it that would do.
pub proof fn law_found_chara_has_the_number(
    program: ProgramGeneration,
    characters: Seq<Cells>,
    query: CharacterQuery,
    arguments: Seq<Val>,
    i: int,
)
    requires
        characters.len() <= i64::MAX,
        0 <= i,
        get_chara(program, characters, query, arguments) == Ok::<Val, Trouble>(
            Val::Integer(i as i64),
        ),
        i <= i64::MAX,
    ensures
        i < characters.len(),
        first_of(characters[i], named::character_global(program, "NO"@)->Some_0.key) == Some(
            arguments[0],
        ),
{
    let no = named::character_global(program, "NO"@)->Some_0;
    let cflag = match named::character_global(program, "CFLAG"@) {
        Some(g) => Some(g.key),
        None => None,
    };
    let number = arrays::integer_at(arguments, 0)->Ok_0;
    lookup::lemma_first_index(
        characters,
        chara_is(no.key, cflag, number, asked_mark(query, arguments)),
    );
}

} // verus!
