//! Regular-expression results and bulk operations on arrays of any rank.

use vstd::prelude::*;
use crate::fastpaths;
use crate::fault::{self, Trouble, VmError};
use crate::frames;
use crate::memory;
use crate::named;
use crate::places;
use crate::state::{self, Fiber, FiberModel, Vm, VmModel};
use crate::text;
use crate::value::{self, Place, PlaceDescriptor, Val, VmValue};

verus! {

/// A value bound for a place.
pub struct PlaceWrite {
    pub place: PlaceDescriptor,
    pub value: VmValue,
}

pub open spec fn writes_of(s: Seq<PlaceWrite>) -> Seq<(Place, Val)> {
    s.map_values(|w: PlaceWrite| (w.place@, w.value@))
}

/// A place can take a value: it can be read and holds a value of the same type.
pub open spec fn write_check(vm: VmModel, fiber: FiberModel, write: (Place, Val)) -> Result<
    (),
    Trouble,
> {
    match places::read_place(vm, fiber, write.0) {
        Err(e) => Err(e),
        Ok(previous) => if previous.value_type() == write.1.value_type() {
            Ok(())
        } else {
            Err(
                Trouble::InvalidArguments(
                    "REGEXPMATCH output type differs from its destination"@,
                ),
            )
        },
    }
}

/// The first refusal among some writes.
pub open spec fn writes_check(vm: VmModel, fiber: FiberModel, writes: Seq<(Place, Val)>) -> Result<
    (),
    Trouble,
>
    decreases writes.len(),
{
    if writes.len() == 0 {
        Ok(())
    } else {
        match writes_check(vm, fiber, writes.drop_last()) {
            Err(e) => Err(e),
            Ok(_) => write_check(vm, fiber, writes.last()),
        }
    }
}

/// What some writes leave, one after the other up to the first that fails.
pub open spec fn writes_done(vm: VmModel, fiber: FiberModel, writes: Seq<(Place, Val)>) -> (
    VmModel,
    FiberModel,
    Result<(), Trouble>,
)
    decreases writes.len(),
{
    if writes.len() == 0 {
        (vm, fiber, Ok(()))
    } else {
        let before = writes_done(vm, fiber, writes.drop_last());
        match before.2 {
            Err(_) => before,
            Ok(_) => match places::write_place(
                before.0,
                before.1,
                writes.last().0,
                writes.last().1,
            ) {
                Ok((v, f)) => (v, f, Ok(())),
                Err(e) => (before.0, before.1, Err(e)),
            },
        }
    }
}

/// What committing some writes leaves: nothing is written before all were checked.
pub open spec fn committed(vm: VmModel, fiber: FiberModel, writes: Seq<(Place, Val)>) -> (
    VmModel,
    FiberModel,
    Result<(), Trouble>,
) {
    match writes_check(vm, fiber, writes) {
        Err(e) => (vm, fiber, Err(e)),
        Ok(_) => writes_done(vm, fiber, writes),
    }
}

proof fn lemma_check_prefix(vm: VmModel, fiber: FiberModel, writes: Seq<(Place, Val)>, n: int)
    requires
        0 <= n <= writes.len(),
        writes_check(vm, fiber, writes.take(n)) is Err,
    ensures
        writes_check(vm, fiber, writes) == writes_check(vm, fiber, writes.take(n)),
    decreases writes.len() - n,
{
    if n == writes.len() {
        assert(writes.take(n) =~= writes);
    } else {
        assert(writes.take(n + 1).drop_last() =~= writes.take(n));
        lemma_check_prefix(vm, fiber, writes, n + 1);
    }
}

pub proof fn lemma_done_prefix(vm: VmModel, fiber: FiberModel, writes: Seq<(Place, Val)>, n: int)
    requires
        0 <= n <= writes.len(),
        writes_done(vm, fiber, writes.take(n)).2 is Err,
    ensures
        writes_done(vm, fiber, writes) == writes_done(vm, fiber, writes.take(n)),
    decreases writes.len() - n,
{
    if n == writes.len() {
        assert(writes.take(n) =~= writes);
    } else {
        assert(writes.take(n + 1).drop_last() =~= writes.take(n));
        lemma_done_prefix(vm, fiber, writes, n + 1);
    }
}

/// Writes keep the frames, apart from their local variables.
pub proof fn lemma_done_keeps_frames(vm: VmModel, fiber: FiberModel, writes: Seq<(Place, Val)>)
    requires
        fiber.frames.len() <= usize::MAX,
    ensures
        ({
            let f = writes_done(vm, fiber, writes).1;
            &&& f.frames.len() == fiber.frames.len()
            &&& f.id == fiber.id && f.state == fiber.state && f.backward == fiber.backward
            &&& forall|i: int|
                0 <= i < f.frames.len() ==> places::same_but_locals(
                    #[trigger] f.frames[i],
                    fiber.frames[i],
                )
        }),
    decreases writes.len(),
{
    if writes.len() > 0 {
        lemma_done_keeps_frames(vm, fiber, writes.drop_last());
        let before = writes_done(vm, fiber, writes.drop_last());
        places::law_write_keeps_frames(before.0, before.1, writes.last().0, writes.last().1);
    }
}

/// Checks all writes, then does them.
pub fn commit_place_writes(vm: &mut Vm, fiber: &mut Fiber, writes: Vec<PlaceWrite>) -> (r: Result<
    (),
    VmError,
>)
    ensures
        (final(vm)@, final(fiber)@, fault::result(r)) == committed(
            old(vm)@,
            old(fiber)@,
            writes_of(writes@),
        ),
{
    let ghost all = writes_of(writes@);
    let mut i: usize = 0;
    assert(all.take(0) =~= Seq::<(Place, Val)>::empty());
    while i < writes.len()
        invariant
            i <= writes.len(),
            all == writes_of(writes@),
            vm@ == old(vm)@,
            fiber@ == old(fiber)@,
            writes_check(vm@, fiber@, all.take(i as int)) is Ok,
        decreases writes.len() - i,
    {
        proof {
            assert(all.take(i + 1).drop_last() =~= all.take(i as int));
            assert(all.take(i + 1).last() == all[i as int]);
        }
        match vm.read_place(&*fiber, &writes[i].place) {
            Err(e) => {
                proof {
                    lemma_check_prefix(vm@, fiber@, all, i + 1);
                }
                return Err(e);
            },
            Ok(previous) => {
                if previous.value_type() != writes[i].value.value_type() {
                    proof {
                        lemma_check_prefix(vm@, fiber@, all, i + 1);
                    }
                    return Err(
                        VmError::invalid_arguments(
                            "REGEXPMATCH output type differs from its destination",
                        ),
                    );
                }
            },
        }
        i = i + 1;
    }
    assert(all.take(i as int) =~= all);
    let mut k: usize = 0;
    while k < writes.len()
        invariant
            k <= writes.len(),
            all == writes_of(writes@),
            writes_check(old(vm)@, old(fiber)@, all) is Ok,
            writes_done(old(vm)@, old(fiber)@, all.take(k as int)) == (
                vm@,
                fiber@,
                Ok::<(), Trouble>(()),
            ),
        decreases writes.len() - k,
    {
        proof {
            assert(all.take(k + 1).drop_last() =~= all.take(k as int));
            assert(all.take(k + 1).last() == all[k as int]);
        }
        match vm.write_place(fiber, &writes[k].place, writes[k].value.clone()) {
            Err(e) => {
                proof {
                    lemma_done_prefix(old(vm)@, old(fiber)@, all, k + 1);
                }
                return Err(e);
            },
            Ok(_) => {},
        }
        k = k + 1;
    }
    assert(all.take(k as int) =~= all);
    Ok(())
}

/// A place that could be read can be read after a write, and holds a value of the same type.
pub proof fn lemma_write_keeps_readable(
    vm: VmModel,
    fiber: FiberModel,
    place: Place,
    val: Val,
    other: Place,
)
    requires
        places::machine_sized(vm, fiber),
        places::write_place(vm, fiber, place, val) is Ok,
        places::read_place(vm, fiber, other) is Ok,
    ensures
        ({
            let (v, f) = places::write_place(vm, fiber, place, val)->Ok_0;
            &&& places::machine_sized(v, f)
            &&& places::read_place(v, f, other) is Ok
            &&& places::read_place(v, f, other)->Ok_0.value_type() == places::read_place(
                vm,
                fiber,
                other,
            )->Ok_0.value_type()
        }),
{
    let a = places::place_address(vm, fiber, place)->Ok_0;
    let b = places::place_address(vm, fiber, other)->Ok_0;
    let (slot, cell) = places::write_at(vm.store, fiber.frames, a, place.indices, val)->Ok_0;
    places::lemma_found_slot_exists(vm, fiber, a);
    places::lemma_found_slot_exists(vm, fiber, b);
    places::lemma_put_keeps_slots(vm, fiber, slot, cell, b);
    places::lemma_write_keeps_addresses(vm, fiber, place, val, other);
    let (v, f) = places::write_place(vm, fiber, place, val)->Ok_0;
    let before = places::cell_in(vm.store, fiber.frames, slot);
    memory::lemma_row_major_grows(before.dimensions, place.indices, 0, before.dimensions.len());
    let t = places::slot_at(vm.store, fiber.frames, b)->Ok_0;
    let there = places::cell_in(vm.store, fiber.frames, t);
    memory::lemma_row_major_grows(there.dimensions, other.indices, 0, there.dimensions.len());
    if t == slot {
        assert(places::cell_in(v.store, f.frames, t) == cell);
        assert(cell.data.len() == before.data.len());
        assert(cell.position(other.indices) == before.position(other.indices));
    } else {
        assert(places::cell_in(v.store, f.frames, t) == there);
    }
    assert forall|c: int| 0 <= c < v.store.characters.len() implies (
    #[trigger] v.store.characters[c]).len() <= usize::MAX by {
        assert(vm.store.characters[c].len() <= usize::MAX);
    }
    assert forall|g: int| 0 <= g < f.frames.len() implies (#[trigger] f.frames[g]).locals.len()
        <= usize::MAX by {
        assert(fiber.frames[g].locals.len() <= usize::MAX);
    }
}

/// A place whose contents have a type can be written with a value of that type.
proof fn lemma_readable_is_writable(vm: VmModel, fiber: FiberModel, place: Place, val: Val)
    requires
        write_check(vm, fiber, (place, val)) is Ok,
    ensures
        places::write_place(vm, fiber, place, val) is Ok,
{
}

proof fn lemma_checked_writes_succeed(vm: VmModel, fiber: FiberModel, writes: Seq<(Place, Val)>, n: int)
    requires
        places::machine_sized(vm, fiber),
        0 <= n <= writes.len(),
        writes_check(vm, fiber, writes) is Ok,
    ensures
        ({
            let done = writes_done(vm, fiber, writes.take(n));
            &&& done.2 is Ok
            &&& places::machine_sized(done.0, done.1)
            &&& forall|k: int|
                0 <= k < writes.len() ==> write_check(done.0, done.1, #[trigger] writes[k]) is Ok
        }),
    decreases n,
{
    if n == 0 {
        assert(writes.take(0) =~= Seq::<(Place, Val)>::empty());
        assert forall|k: int| 0 <= k < writes.len() implies write_check(
            vm,
            fiber,
            #[trigger] writes[k],
        ) is Ok by {
            lemma_each_checked(vm, fiber, writes, k);
        }
    } else {
        lemma_checked_writes_succeed(vm, fiber, writes, n - 1);
        assert(writes.take(n).drop_last() =~= writes.take(n - 1));
        let before = writes_done(vm, fiber, writes.take(n - 1));
        let w = writes[n - 1];
        assert(write_check(before.0, before.1, w) is Ok);
        lemma_readable_is_writable(before.0, before.1, w.0, w.1);
        let done = writes_done(vm, fiber, writes.take(n));
        assert forall|k: int| 0 <= k < writes.len() implies write_check(
            done.0,
            done.1,
            #[trigger] writes[k],
        ) is Ok by {
            lemma_write_keeps_readable(before.0, before.1, w.0, w.1, writes[k].0);
        }
        lemma_write_keeps_readable(before.0, before.1, w.0, w.1, w.0);
    }
}

proof fn lemma_each_checked(vm: VmModel, fiber: FiberModel, writes: Seq<(Place, Val)>, k: int)
    requires
        0 <= k < writes.len(),
        writes_check(vm, fiber, writes) is Ok,
    ensures
        write_check(vm, fiber, writes[k]) is Ok,
    decreases writes.len(),
{
    if k < writes.len() - 1 {
        lemma_each_checked(vm, fiber, writes.drop_last(), k);
    }
}

/// A commit writes everything or nothing: where it fails, nothing has changed.
pub proof fn law_commit_is_all_or_nothing(vm: VmModel, fiber: FiberModel, writes: Seq<(Place, Val)>)
    requires
        places::machine_sized(vm, fiber),
    ensures
        committed(vm, fiber, writes).2 is Err ==> committed(vm, fiber, writes).0 == vm && committed(
            vm,
            fiber,
            writes,
        ).1 == fiber,
        committed(vm, fiber, writes).2 == writes_check(vm, fiber, writes),
{
    if writes_check(vm, fiber, writes) is Ok {
        lemma_checked_writes_succeed(vm, fiber, writes, writes.len() as int);
        assert(writes.take(writes.len() as int) =~= writes);
    }
}

/// An unindexed place of the variable with a name.
pub open spec fn unindexed(vm: VmModel, fiber: FiberModel, name: Seq<char>) -> Result<
    Place,
    Trouble,
> {
    match vm.program(fiber.top().generation) {
        None => Err(named::undefined_name(name)),
        Some(program) => match program.spec_global_by_name(name) {
            None => Err(named::undefined_name(name)),
            Some(g) => Ok(Place { variable: g.key, ..state::nowhere() }),
        },
    }
}

/// An unindexed place of the variable with a name.
pub fn global_unindexed_place(vm: &Vm, fiber: &Fiber, name: &str) -> (r: Result<
    PlaceDescriptor,
    VmError,
>)
    requires
        fiber@.frames.len() > 0,
    ensures
        fault::result(r) == unindexed(vm@, fiber@, name@),
{
    match vm.program(fiber.top().generation) {
        None => Err(VmError::InvalidState(text::join2(name, " is not defined"))),
        Some(program) => match program.global_by_name(name) {
            None => Err(VmError::InvalidState(text::join2(name, " is not defined"))),
            Some(g) => Ok(PlaceDescriptor::of_variable(g.key)),
        },
    }
}

/// A place at one index.
pub open spec fn at_index(place: Place, index: nat) -> Place {
    Place { indices: seq![fastpaths::saturated(index as int)], ..place }
}

/// The place at one index of an array.
pub fn indexed_place(place: &PlaceDescriptor, index: usize) -> (r: PlaceDescriptor)
    ensures
        r@ == at_index(place@, index as nat),
{
    let mut r = place.clone();
    let mut indices: Vec<u64> = Vec::new();
    indices.push(index as u64);
    assert(indices@ =~= seq![index as u64]);
    r.indices = indices;
    r
}

/// What matching a regular expression found: groups per match, and the texts of each match.
pub struct RegexCaptures {
    pub captures_len: usize,
    pub matches: Vec<Vec<String>>,
}

/// Mathematical content of [`RegexCaptures`].
pub struct Captures {
    pub groups: nat,
    pub matches: Seq<Seq<Seq<char>>>,
}

pub open spec fn match_texts(s: Seq<Vec<String>>) -> Seq<Seq<Seq<char>>> {
    s.map_values(|m: Vec<String>| memory::texts(m@))
}

impl View for RegexCaptures {
    type V = Captures;

    open spec fn view(&self) -> Captures {
        Captures { groups: self.captures_len as nat, matches: match_texts(self.matches@) }
    }
}

/// What an engine found: a group that took no part in a match is left open.
pub struct EngineMatches {
    pub groups: usize,
    pub matches: Vec<Vec<Option<String>>>,
}

/// The text of a group; empty where the group took no part.
pub open spec fn group_text(g: Option<String>) -> Seq<char> {
    match g {
        Some(t) => t@,
        None => Seq::empty(),
    }
}

pub open spec fn group_texts(s: Seq<Option<String>>) -> Seq<Seq<char>> {
    s.map_values(|g: Option<String>| group_text(g))
}

pub open spec fn engine_texts(s: Seq<Vec<Option<String>>>) -> Seq<Seq<Seq<char>>> {
    s.map_values(|m: Vec<Option<String>>| group_texts(m@))
}

/// What a pattern captures: what the boundary rules found, and where they do not apply what the
/// engine found.
pub open spec fn captured(
    boundaries: Result<Option<RegexCaptures>, String>,
    engine: Result<EngineMatches, String>,
) -> Result<Captures, Trouble> {
    match boundaries {
        Err(m) => Err(Trouble::InvalidArguments(m@)),
        Ok(Some(found)) => Ok(found@),
        Ok(None) => match engine {
            Err(m) => Err(Trouble::InvalidArguments(m@)),
            Ok(found) => Ok(
                Captures {
                    groups: found.groups as nat,
                    matches: engine_texts(found.matches@),
                },
            ),
        },
    }
}

fn close_groups(groups: &Vec<Option<String>>) -> (r: Vec<String>)
    ensures
        memory::texts(r@) == group_texts(groups@),
{
    let mut out: Vec<String> = Vec::new();
    let mut i: usize = 0;
    while i < groups.len()
        invariant
            i <= groups.len(),
            out@.len() == i,
            forall|j: int| 0 <= j < i ==> (#[trigger] out@[j])@ == group_text(groups@[j]),
        decreases groups.len() - i,
    {
        match &groups[i] {
            Some(t) => out.push(t.clone()),
            None => out.push(String::new()),
        }
        i = i + 1;
    }
    assert(memory::texts(out@) =~= group_texts(groups@));
    out
}

/// Settles what a pattern captures.
pub fn regex_captures(
    boundaries: Result<Option<RegexCaptures>, String>,
    engine: Result<EngineMatches, String>,
) -> (r: Result<RegexCaptures, VmError>)
    ensures
        fault::result(r) == captured(boundaries, engine),
{
    match boundaries {
        Err(m) => {
            return Err(VmError::InvalidArguments(m));
        },
        Ok(Some(found)) => {
            return Ok(found);
        },
        Ok(None) => {},
    }
    let found = match engine {
        Ok(found) => found,
        Err(m) => {
            return Err(VmError::InvalidArguments(m));
        },
    };
    let mut matches: Vec<Vec<String>> = Vec::new();
    let mut i: usize = 0;
    while i < found.matches.len()
        invariant
            i <= found.matches.len(),
            matches@.len() == i,
            forall|j: int|
                0 <= j < i ==> memory::texts((#[trigger] matches@[j])@) == group_texts(
                    found.matches@[j]@,
                ),
        decreases found.matches.len() - i,
    {
        matches.push(close_groups(&found.matches[i]));
        i = i + 1;
    }
    assert(match_texts(matches@) =~= engine_texts(found.matches@));
    Ok(RegexCaptures { captures_len: found.groups, matches })
}

/// The texts of all matches, one after the other.
pub open spec fn all_groups(matches: Seq<Seq<Seq<char>>>) -> Seq<Seq<char>>
    decreases matches.len(),
{
    if matches.len() == 0 {
        Seq::empty()
    } else {
        all_groups(matches.drop_last()) + matches.last()
    }
}

/// The writes that hand out what was found: the number of groups, then all texts from index zero.
pub open spec fn capture_writes(count: Place, texts: Place, found: Captures) -> Seq<(Place, Val)> {
    seq![(count, Val::Integer(fastpaths::count_integer(found.groups)))] + Seq::new(
        all_groups(found.matches).len(),
        |i: int| (at_index(texts, i as nat), Val::Text(all_groups(found.matches)[i])),
    )
}

fn flatten(matches: &Vec<Vec<String>>) -> (r: Vec<String>)
    ensures
        memory::texts(r@) == all_groups(match_texts(matches@)),
{
    let mut out: Vec<String> = Vec::new();
    let ghost all = match_texts(matches@);
    let mut i: usize = 0;
    proof {
        assert(all.take(0) =~= Seq::<Seq<Seq<char>>>::empty());
        assert(memory::texts(out@) =~= Seq::<Seq<char>>::empty());
    }
    while i < matches.len()
        invariant
            i <= matches.len(),
            all == match_texts(matches@),
            memory::texts(out@) == all_groups(all.take(i as int)),
        decreases matches.len() - i,
    {
        let ghost start = memory::texts(out@);
        let ghost whole = memory::texts(matches@[i as int]@);
        let group = &matches[i];
        let mut k: usize = 0;
        assert(start + whole.take(0) =~= start);
        while k < group.len()
            invariant
                k <= group.len(),
                whole == memory::texts(group@),
                memory::texts(out@) == start + whole.take(k as int),
            decreases group.len() - k,
        {
            let ghost before = out@;
            out.push(group[k].clone());
            k = k + 1;
            assert(memory::texts(out@) =~= memory::texts(before).push(whole[k - 1]));
            assert(start + whole.take(k as int) =~= (start + whole.take(k - 1)).push(
                whole[k - 1],
            ));
        }
        proof {
            assert(whole.take(k as int) =~= whole);
            assert(all.take(i + 1).drop_last() =~= all.take(i as int));
            assert(all.take(i + 1).last() == whole);
        }
        i = i + 1;
    }
    assert(all.take(i as int) =~= all);
    out
}

fn make_capture_writes(count: PlaceDescriptor, texts: &PlaceDescriptor, found: &RegexCaptures) -> (r:
    Vec<PlaceWrite>)
    ensures
        writes_of(r@) == capture_writes(count@, texts@, found@),
{
    let groups = flatten(&found.matches);
    let mut out: Vec<PlaceWrite> = Vec::new();
    let first = PlaceWrite {
        place: count,
        value: VmValue::Integer(fastpaths::integer_of_count(found.captures_len)),
    };
    out.push(first);
    let ghost head = (count@, Val::Integer(fastpaths::count_integer(found@.groups)));
    let mut i: usize = 0;
    while i < groups.len()
        invariant
            i <= groups.len(),
            memory::texts(groups@) == all_groups(found@.matches),
            out@.len() == i + 1,
            (out@[0].place@, out@[0].value@) == head,
            forall|j: int|
                0 <= j < i ==> (#[trigger] out@[j + 1]).place@ == at_index(texts@, j as nat)
                    && out@[j + 1].value@ == Val::Text(all_groups(found@.matches)[j]),
        decreases groups.len() - i,
    {
        assert(memory::texts(groups@)[i as int] == groups@[i as int]@);
        let w = PlaceWrite {
            place: indexed_place(texts, i),
            value: VmValue::String(groups[i].clone()),
        };
        out.push(w);
        i = i + 1;
        assert forall|j: int| 0 <= j < i implies (#[trigger] out@[j + 1]).place@ == at_index(
            texts@,
            j as nat,
        ) && out@[j + 1].value@ == Val::Text(all_groups(found@.matches)[j]) by {
            if j < i - 1 {
                assert(out@[j + 1].place@ == at_index(texts@, j as nat));
            }
        }
    }
    proof {
        let want = capture_writes(count@, texts@, found@);
        assert forall|k: int| 0 <= k < out@.len() implies writes_of(out@)[k] == want[k] by {
            if k > 0 {
                assert(out@[(k - 1) + 1].place@ == at_index(texts@, (k - 1) as nat));
            }
        }
        assert(writes_of(out@) =~= want);
    }
    out
}

/// What handing out the result of a match does.
pub open spec fn regex_match(
    vm: VmModel,
    fiber: FiberModel,
    arguments: Seq<Val>,
    captures: Result<Captures, Trouble>,
) -> (VmModel, FiberModel, Result<Val, Trouble>) {
    let bad = |m: Seq<char>| (vm, fiber, Err::<Val, Trouble>(Trouble::InvalidArguments(m)));
    if arguments.len() == 0 {
        bad("REGEXPMATCH input is missing"@)
    } else if !(arguments[0] is Text) {
        bad("REGEXPMATCH input must be a string"@)
    } else if arguments.len() == 1 {
        bad("REGEXPMATCH pattern is missing"@)
    } else if !(arguments[1] is Text) {
        bad("REGEXPMATCH pattern must be a string"@)
    } else {
        match captures {
            Err(e) => (vm, fiber, Err(e)),
            Ok(found) => {
                let count = Val::Integer(fastpaths::count_integer(found.matches.len()));
                if arguments.len() == 2 {
                    (vm, fiber, Ok(count))
                } else if arguments.len() == 3 {
                    match arguments[2] {
                        Val::Integer(n) => if n == 0 {
                            (vm, fiber, Ok(count))
                        } else {
                            match (unindexed(vm, fiber, "RESULT"@), unindexed(vm, fiber, "RESULTS"@)) {
                                (Err(e), _) => (vm, fiber, Err(e)),
                                (Ok(_), Err(e)) => (vm, fiber, Err(e)),
                                (Ok(result), Ok(results)) => handed_out(
                                    vm,
                                    fiber,
                                    at_index(result, 1),
                                    results,
                                    found,
                                    count,
                                ),
                            }
                        },
                        _ => bad("REGEXPMATCH output flag must be an integer"@),
                    }
                } else if arguments.len() == 4 {
                    match (arguments[2], arguments[3]) {
                        (Val::IntegerPlace(groups), Val::StringPlace(texts)) => handed_out(
                            vm,
                            fiber,
                            groups,
                            texts,
                            found,
                            count,
                        ),
                        (Val::IntegerPlace(_), _) => bad(
                            "REGEXPMATCH capture output must be a string-array place"@,
                        ),
                        _ => bad("REGEXPMATCH group-count output must be an integer place"@),
                    }
                } else {
                    bad("REGEXPMATCH expects two, three, or four arguments"@)
                }
            },
        }
    }
}

/// The outcome of handing out captures.
pub open spec fn handed_out(
    vm: VmModel,
    fiber: FiberModel,
    groups: Place,
    texts: Place,
    found: Captures,
    count: Val,
) -> (VmModel, FiberModel, Result<Val, Trouble>) {
    let done = committed(vm, fiber, capture_writes(groups, texts, found));
    (
        done.0,
        done.1,
        match done.2 {
            Ok(_) => Ok(count),
            Err(e) => Err(e),
        },
    )
}

/// Hands out what matching `arguments[1]` against `arguments[0]` found.
pub fn execute_regex_match(
    vm: &mut Vm,
    fiber: &mut Fiber,
    arguments: &Vec<VmValue>,
    captures: Result<RegexCaptures, VmError>,
) -> (r: Result<VmValue, VmError>)
    requires
        old(fiber)@.frames.len() > 0,
    ensures
        (final(vm)@, final(fiber)@, fault::result(r)) == regex_match(
            old(vm)@,
            old(fiber)@,
            value::vals(arguments@),
            fault::result(captures),
        ),
{
    if arguments.len() == 0 {
        return Err(VmError::invalid_arguments("REGEXPMATCH input is missing"));
    }
    match &arguments[0] {
        VmValue::String(_) => {},
        _ => {
            return Err(VmError::invalid_arguments("REGEXPMATCH input must be a string"));
        },
    }
    if arguments.len() == 1 {
        return Err(VmError::invalid_arguments("REGEXPMATCH pattern is missing"));
    }
    match &arguments[1] {
        VmValue::String(_) => {},
        _ => {
            return Err(VmError::invalid_arguments("REGEXPMATCH pattern must be a string"));
        },
    }
    let found = match captures {
        Ok(c) => c,
        Err(e) => {
            return Err(e);
        },
    };
    let count: i64 = fastpaths::integer_of_count(found.matches.len());
    if arguments.len() == 2 {
        return Ok(VmValue::Integer(count));
    }
    if arguments.len() == 3 {
        match &arguments[2] {
            VmValue::Integer(n) => {
                if *n != 0 {
                    let result = match global_unindexed_place(&*vm, &*fiber, "RESULT") {
                        Ok(p) => p,
                        Err(e) => {
                            return Err(e);
                        },
                    };
                    let results = match global_unindexed_place(&*vm, &*fiber, "RESULTS") {
                        Ok(p) => p,
                        Err(e) => {
                            return Err(e);
                        },
                    };
                    let writes = make_capture_writes(indexed_place(&result, 1), &results, &found);
                    match commit_place_writes(vm, fiber, writes) {
                        Ok(_) => {},
                        Err(e) => {
                            return Err(e);
                        },
                    }
                }
                return Ok(VmValue::Integer(count));
            },
            _ => {
                return Err(
                    VmError::invalid_arguments("REGEXPMATCH output flag must be an integer"),
                );
            },
        }
    }
    if arguments.len() == 4 {
        let groups = match &arguments[2] {
            VmValue::IntegerPlace(p) => (**p).clone(),
            _ => {
                return Err(
                    VmError::invalid_arguments(
                        "REGEXPMATCH group-count output must be an integer place",
                    ),
                );
            },
        };
        let texts = match &arguments[3] {
            VmValue::StringPlace(p) => (**p).clone(),
            _ => {
                return Err(
                    VmError::invalid_arguments(
                        "REGEXPMATCH capture output must be a string-array place",
                    ),
                );
            },
        };
        let writes = make_capture_writes(groups, &texts, &found);
        return match commit_place_writes(vm, fiber, writes) {
            Ok(_) => Ok(VmValue::Integer(count)),
            Err(e) => Err(e),
        };
    }
    Err(VmError::invalid_arguments("REGEXPMATCH expects two, three, or four arguments"))
}

} // verus!
