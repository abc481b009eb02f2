//! What sorting and copying leave in arrays.

use vstd::prelude::*;
use crate::array_ops;
use crate::arrays;
use crate::bulk_laws;
use crate::fault::Trouble;
use crate::frames;
use crate::lookup;
use crate::operator_laws;
use crate::places::{self, CellSlot};
use crate::sorting::{self, Candidate, SortArray};
use crate::state::{FiberModel, VmModel};
use crate::value::{Place, Val};

verus! {

/// A key stands before another one: the smaller integer, or the text that comes first.
pub open spec fn key_before(a: Val, b: Val) -> bool {
    match (a, b) {
        (Val::Integer(x), Val::Integer(y)) => x < y,
        (Val::Text(x), Val::Text(y)) => operator_laws::stands_before(x, y),
        _ => false,
    }
}

/// Each of the first positions once.
pub open spec fn rearranges(order: Seq<usize>) -> bool {
    order.no_duplicates() && forall|i: int| 0 <= i < order.len() ==> #[trigger] order[i]
        < order.len()
}

/// Keys taken in an order do not fall.
pub open spec fn keys_rise(keys: Seq<Val>, order: Seq<usize>) -> bool {
    forall|i: int, j: int|
        #![trigger order[i], order[j]]
        0 <= i < j < order.len() ==> !key_before(keys[order[j] as int], keys[order[i] as int])
}

/// Keys taken in an order do not rise.
pub open spec fn keys_fall(keys: Seq<Val>, order: Seq<usize>) -> bool {
    forall|i: int, j: int|
        #![trigger order[i], order[j]]
        0 <= i < j < order.len() ==> !key_before(keys[order[i] as int], keys[order[j] as int])
}

/// The first rows of an array are its old rows in an order, cell by cell; the rest stays.
pub open spec fn rows_follow(old_values: Seq<Val>, new_values: Seq<Val>, order: Seq<usize>, w: int) -> bool {
    &&& new_values.len() == old_values.len()
    &&& forall|i: int, c: int|
        0 <= i < order.len() && 0 <= c < w && i * w + c < old_values.len() ==> #[trigger] new_values[i
            * w + c] == old_values[order[i] * w + c]
    &&& forall|i: int|
        order.len() * w <= i < old_values.len() ==> #[trigger] new_values[i] == old_values[i]
}

proof fn lemma_same_key_order(a: Val, b: Val)
    ensures
        sorting::key_less(a, b) == key_before(a, b),
{
    if let (Val::Text(x), Val::Text(y)) = (a, b) {
        operator_laws::law_text_order(x, y);
    }
}

pub proof fn lemma_sorted_order(keys: Seq<Val>, n: nat)
    requires
        sorting::comparable(keys),
        n <= keys.len(),
        n <= usize::MAX,
    ensures
        rearranges(sorting::sorted_order(keys, n)),
        sorting::sorted_order(keys, n).len() == n,
        keys_rise(keys, sorting::sorted_order(keys, n)),
        rearranges(sorting::sorted_order(keys, n).reverse()),
        keys_fall(keys, sorting::sorted_order(keys, n).reverse()),
{
    sorting::law_order_is_stable(keys, n);
    let up = sorting::sorted_order(keys, n);
    let down = up.reverse();
    assert forall|i: int, j: int|
        #![trigger up[i], up[j]]
        0 <= i < j < up.len() implies !key_before(keys[up[j] as int], keys[up[i] as int]) by {
        lemma_same_key_order(keys[up[j] as int], keys[up[i] as int]);
    }
    assert forall|i: int, j: int|
        #![trigger down[i], down[j]]
        0 <= i < j < down.len() implies !key_before(keys[down[i] as int], keys[down[j] as int]) by {
        let a = up.len() - 1 - i;
        let b = up.len() - 1 - j;
        assert(down[i] == up[a] && down[j] == up[b]);
    }
    assert forall|i: int| 0 <= i < down.len() implies #[trigger] down[i] < down.len() by {
        assert(down[i] == up[up.len() - 1 - i]);
    }
    assert forall|i: int, j: int| 0 <= i < down.len() && 0 <= j < down.len() && i != j implies down[i]
        != down[j] by {
        assert(down[i] == up[up.len() - 1 - i]);
        assert(down[j] == up[up.len() - 1 - j]);
    }
}

proof fn lemma_permuted_rows(values: Seq<Val>, order: Seq<usize>, w: int)
    requires
        w >= 0,
    ensures
        rows_follow(values, sorting::permuted(values, order, w), order, w),
{
    let after = sorting::permuted(values, order, w);
    assert forall|i: int, c: int|
        0 <= i < order.len() && 0 <= c < w && i * w + c < values.len() implies #[trigger] after[i
        * w + c] == values[order[i] * w + c] by {
        let k = i * w + c;
        assert(k / w == i && k % w == c && k >= 0) by (nonlinear_arith)
            requires
                k == i * w + c,
                0 <= c < w,
                0 <= i,
        ;
    }
    assert forall|i: int| order.len() * w <= i < values.len() implies #[trigger] after[i]
        == values[i] by {
        let l = order.len() as int;
        if w > 0 {
            assert(i / w >= l) by (nonlinear_arith)
                requires
                    l * w <= i,
                    w > 0,
            ;
            assert(i >= 0) by (nonlinear_arith)
                requires
                    l * w <= i,
                    w > 0,
                    l >= 0,
            ;
        } else {
            assert(l * w == 0) by (nonlinear_arith)
                requires
                    w == 0,
            ;
        }
    }
}

/// Arrays to be written: those at one place are to hold the same.
pub open spec fn agree(vm: VmModel, fiber: FiberModel, candidates: Seq<Candidate>) -> bool {
    forall|i: int, j: int|
        #![trigger candidates[i], candidates[j]]
        0 <= i < candidates.len() && 0 <= j < candidates.len() && slot_of(
            vm,
            fiber,
            candidates[i].0,
        ) == slot_of(vm, fiber, candidates[j].0) ==> candidates[i].1 == candidates[j].1
}

/// Where the array of a place stands.
pub open spec fn slot_of(vm: VmModel, fiber: FiberModel, place: Place) -> CellSlot {
    places::slot_at(vm.store, fiber.frames, places::place_address(vm, fiber, place)->Ok_0)->Ok_0
}

/// The arrays of some candidates can be found.
pub open spec fn all_found(vm: VmModel, fiber: FiberModel, candidates: Seq<Candidate>) -> bool {
    forall|i: int|
        0 <= i < candidates.len() ==> arrays::place_values(
            vm,
            fiber,
            (#[trigger] candidates[i]).0,
        ) is Ok
}

proof fn lemma_array_write(vm: VmModel, fiber: FiberModel, place: Place, values: Seq<Val>, other: Place)
    requires
        places::machine_sized(vm, fiber),
        arrays::array_written(vm, fiber, place, values) is Ok,
        arrays::place_values(vm, fiber, other) is Ok,
    ensures
        ({
            let (v, f) = arrays::array_written(vm, fiber, place, values)->Ok_0;
            &&& places::machine_sized(v, f)
            &&& slot_of(v, f, other) == slot_of(vm, fiber, other)
            &&& arrays::place_values(v, f, other) == Ok::<Seq<Val>, Trouble>(
                if slot_of(vm, fiber, other) == slot_of(vm, fiber, place) {
                    values
                } else {
                    arrays::place_values(vm, fiber, other)->Ok_0
                },
            )
        }),
{
    let a = places::place_address(vm, fiber, place)->Ok_0;
    let b = places::place_address(vm, fiber, other)->Ok_0;
    let s = places::slot_at(vm.store, fiber.frames, a)->Ok_0;
    let t = places::slot_at(vm.store, fiber.frames, b)->Ok_0;
    let cell = arrays::refilled(places::cell_in(vm.store, fiber.frames, s), values)->Ok_0;
    let (v, f) = arrays::array_written(vm, fiber, place, values)->Ok_0;
    places::lemma_found_slot_exists(vm, fiber, a);
    places::lemma_found_slot_exists(vm, fiber, b);
    places::lemma_put_keeps_slots(vm, fiber, s, cell, b);
    bulk_laws::lemma_put_keeps_address(vm, fiber, s, cell, other);
    bulk_laws::lemma_put_reads(vm, fiber, s, cell, t);
    assert(cell.data.all() =~= values);
}

proof fn lemma_all_written(vm: VmModel, fiber: FiberModel, candidates: Seq<Candidate>)
    requires
        places::machine_sized(vm, fiber),
        agree(vm, fiber, candidates),
        all_found(vm, fiber, candidates),
        sorting::candidates_done(vm, fiber, candidates).2 is Ok,
    ensures
        ({
            let done = sorting::candidates_done(vm, fiber, candidates);
            &&& places::machine_sized(done.0, done.1)
            &&& forall|p: Place| #[trigger]
                arrays::place_values(vm, fiber, p) is Ok ==> arrays::place_values(
                    done.0,
                    done.1,
                    p,
                ) is Ok && slot_of(done.0, done.1, p) == slot_of(vm, fiber, p)
            &&& forall|i: int|
                0 <= i < candidates.len() ==> arrays::place_values(
                    done.0,
                    done.1,
                    (#[trigger] candidates[i]).0,
                ) == Ok::<Seq<Val>, Trouble>(candidates[i].1)
        }),
    decreases candidates.len(),
{
    if candidates.len() > 0 {
        let front = candidates.drop_last();
        let c = candidates.last();
        assert(agree(vm, fiber, front)) by {
            assert forall|i: int, j: int|
                #![trigger front[i], front[j]]
                0 <= i < front.len() && 0 <= j < front.len() && slot_of(vm, fiber, front[i].0)
                    == slot_of(vm, fiber, front[j].0) implies front[i].1 == front[j].1 by {
                assert(candidates[i] == front[i] && candidates[j] == front[j]);
            }
        }
        assert(all_found(vm, fiber, front)) by {
            assert forall|i: int| 0 <= i < front.len() implies arrays::place_values(
                vm,
                fiber,
                (#[trigger] front[i]).0,
            ) is Ok by {
                assert(candidates[i] == front[i]);
            }
        }
        lemma_all_written(vm, fiber, front);
        let before = sorting::candidates_done(vm, fiber, front);
        let done = sorting::candidates_done(vm, fiber, candidates);
        assert(candidates[candidates.len() - 1] == c);
        assert(arrays::place_values(vm, fiber, c.0) is Ok);
        lemma_array_write(before.0, before.1, c.0, c.1, c.0);
        assert forall|p: Place| #[trigger]
            arrays::place_values(vm, fiber, p) is Ok implies arrays::place_values(
            done.0,
            done.1,
            p,
        ) is Ok && slot_of(done.0, done.1, p) == slot_of(vm, fiber, p) by {
            lemma_array_write(before.0, before.1, c.0, c.1, p);
        }
        assert forall|i: int| 0 <= i < candidates.len() implies arrays::place_values(
            done.0,
            done.1,
            (#[trigger] candidates[i]).0,
        ) == Ok::<Seq<Val>, Trouble>(candidates[i].1) by {
            assert(arrays::place_values(vm, fiber, candidates[i].0) is Ok);
            lemma_array_write(before.0, before.1, c.0, c.1, candidates[i].0);
            if i < front.len() {
                assert(front[i] == candidates[i]);
                assert(arrays::place_values(before.0, before.1, front[i].0) == Ok::<
                    Seq<Val>,
                    Trouble,
                >(front[i].1));
            }
        }
    }
}

/// A name of an array among names: no name before it is empty, nor is it.
pub open spec fn is_named(names: Seq<Val>, k: int) -> bool {
    0 <= k < names.len() && forall|i: int|
        0 <= i <= k ==> (#[trigger] names[i] matches Val::Text(t) && t.len() > 0)
}

/// The array that a name means, as a target.
pub open spec fn target_of(vm: VmModel, fiber: FiberModel, name: Val) -> array_ops::ArrayModel {
    array_ops::array_argument(vm, fiber, Some(name), "target"@, true)->Ok_0
}

/// A candidate comes from the name at a position.
pub open spec fn named_at(
    vm: VmModel,
    fiber: FiberModel,
    names: Seq<Val>,
    order: Seq<usize>,
    k: int,
    c: Candidate,
) -> bool {
    is_named(names, k) && sorting::named_candidate(vm, fiber, names[k]->Text_0, order) == Ok::<
        Option<Candidate>,
        Trouble,
    >(Some(c))
}

proof fn lemma_named_candidates(
    vm: VmModel,
    fiber: FiberModel,
    names: Seq<Val>,
    order: Seq<usize>,
)
    requires
        sorting::named_candidates(vm, fiber, names, order) matches Ok(Some(_)),
    ensures
        forall|k: int|
            0 <= k < sorting::named_candidates(vm, fiber, names, order)->Ok_0->Some_0.len()
                ==> named_at(
                vm,
                fiber,
                names,
                order,
                k,
                #[trigger] sorting::named_candidates(vm, fiber, names, order)->Ok_0->Some_0[k],
            ),
        forall|k: int| #[trigger]
            is_named(names, k) ==> k < sorting::named_candidates(
                vm,
                fiber,
                names,
                order,
            )->Ok_0->Some_0.len(),
    decreases names.len(),
{
    let all = sorting::named_candidates(vm, fiber, names, order)->Ok_0->Some_0;
    if names.len() > 0 && names[0]->Text_0.len() > 0 {
        let rest = names.skip(1);
        lemma_named_candidates(vm, fiber, rest, order);
        let later = sorting::named_candidates(vm, fiber, rest, order)->Ok_0->Some_0;
        assert forall|k: int| 0 <= k < all.len() implies named_at(
            vm,
            fiber,
            names,
            order,
            k,
            #[trigger] all[k],
        ) by {
            if k > 0 {
                assert(all[k] == later[k - 1]);
                assert(named_at(vm, fiber, rest, order, k - 1, later[k - 1]));
                assert forall|i: int| 0 <= i <= k implies (#[trigger] names[i] matches Val::Text(t)
                    && t.len() > 0) by {
                    if i > 0 {
                        assert(rest[i - 1] == names[i]);
                    }
                }
                assert(rest[k - 1] == names[k]);
            } else {
                assert(all[0] == sorting::named_candidate(
                    vm,
                    fiber,
                    names[0]->Text_0,
                    order,
                )->Ok_0->Some_0);
                assert forall|i: int| 0 <= i <= 0 implies (#[trigger] names[i] matches Val::Text(t)
                    && t.len() > 0) by {}
            }
        }
        assert forall|k: int| #[trigger] is_named(names, k) implies k < all.len() by {
            if k > 0 {
                assert forall|i: int| 0 <= i <= k - 1 implies (#[trigger] rest[i] matches Val::Text(t)
                    && t.len() > 0) by {
                    assert(rest[i] == names[i + 1]);
                }
                assert(is_named(rest, k - 1));
            }
        }
    } else {
        assert(all.len() == 0);
        assert forall|k: int| #[trigger] is_named(names, k) implies k < all.len() by {
            assert(names[0] matches Val::Text(t) && t.len() > 0);
        }
    }
}

/// The variable of a place stands under the key of the place.
proof fn lemma_place_key(vm: VmModel, fiber: FiberModel, place: Place)
    requires
        places::machine_sized(vm, fiber),
        fiber.frames.len() > 0,
        place.backing is None,
        arrays::place_values(vm, fiber, place) is Ok,
    ensures
        bulk_laws::slot_key(vm.store, fiber.frames, slot_of(vm, fiber, place)) == place.variable,
{
    let program = vm.program(fiber.top().generation)->Some_0;
    bulk_laws::lemma_global_key(program, place.variable);
    bulk_laws::lemma_slot_key(vm, fiber, places::place_address(vm, fiber, place)->Ok_0);
}

proof fn lemma_all_comparable(vm: VmModel, fiber: FiberModel, place: Place)
    requires
        arrays::place_values(vm, fiber, place) is Ok,
    ensures
        sorting::comparable(arrays::place_values(vm, fiber, place)->Ok_0),
{
    let data = places::cell_in(vm.store, fiber.frames, slot_of(vm, fiber, place)).data;
    match data {
        crate::memory::Data::Integers(_) => {
            assert(arrays::all_integers(data.all()));
        },
        crate::memory::Data::Texts(_) => {
            assert(arrays::all_texts(data.all()));
        },
    }
}

/// The third argument of a sort asks for the falling order: it is the integer zero.
pub open spec fn asks_falling(arguments: Seq<Val>) -> bool {
    arguments.len() > 2 && arguments[2] == Val::Integer(0)
}

/// So many keys take part in a sort by name: as many as the fourth argument asks for, or those in
/// front of the first zero.
pub open spec fn takes_keys(keys: Seq<Val>, arguments: Seq<Val>, n: int) -> bool {
    if arguments.len() > 3 && (arguments[3] matches Val::Integer(c) && c > 0) {
        n == if arguments[3]->Integer_0 < keys.len() {
            arguments[3]->Integer_0 as int
        } else {
            keys.len() as int
        }
    } else {
        &&& 0 <= n <= keys.len()
        &&& forall|i: int| 0 <= i < n ==> #[trigger] keys[i] != Val::Integer(0)
        &&& n < keys.len() ==> keys[n] == Val::Integer(0)
    }
}

/// Sorting arrays by name: one order is applied to all named arrays, row by row. Taken in that
/// order, the keys do not fall, and where the third argument is the integer zero they do not rise.
pub proof fn law_sort_by_name(vm: VmModel, fiber: FiberModel, arguments: Seq<Val>)
    requires
        places::machine_sized(vm, fiber),
        fiber.frames.len() > 0,
        sorting::multi_sort_ex(vm, fiber, arguments).2 == Ok::<Val, Trouble>(Val::Integer(1)),
        arrays::place_values(
            vm,
            fiber,
            array_ops::array_argument(vm, fiber, Some(arguments[0]), "key"@, false)->Ok_0.place,
        )->Ok_0.len() <= usize::MAX,
    ensures
        ({
            let key = array_ops::array_argument(vm, fiber, Some(arguments[0]), "key"@, false);
            let keys = arrays::place_values(vm, fiber, key->Ok_0.place)->Ok_0;
            let names = arrays::place_values(
                vm,
                fiber,
                arrays::place_at(arguments, 1)->Ok_0,
            )->Ok_0;
            let (v, f, _) = sorting::multi_sort_ex(vm, fiber, arguments);
            exists|order: Seq<usize>| #[trigger]
                rearranges(order) && takes_keys(keys, arguments, order.len() as int) && (if asks_falling(
                    arguments,
                ) {
                    keys_fall(keys, order)
                } else {
                    keys_rise(keys, order)
                }) && forall|k: int| #[trigger]
                    is_named(names, k) ==> {
                        let target = target_of(vm, fiber, names[k]);
                        let values = arrays::place_values(vm, fiber, target.place)->Ok_0;
                        &&& order.len() <= target.dimensions[0]
                        &&& arrays::place_values(v, f, target.place) is Ok
                        &&& rows_follow(
                            values,
                            arrays::place_values(v, f, target.place)->Ok_0,
                            order,
                            values.len() as int / target.dimensions[0] as int,
                        )
                    }
        }),
{
    let key = array_ops::array_argument(vm, fiber, Some(arguments[0]), "key"@, false)->Ok_0;
    let keys = arrays::place_values(vm, fiber, key.place)->Ok_0;
    let names = arrays::place_values(vm, fiber, arrays::place_at(arguments, 1)->Ok_0)->Ok_0;
    let n = sorting::wanted_keys(keys, arguments)->Some_0;
    let order = sorting::wanted_order(keys, n, arguments);
    lookup::lemma_first_index(keys, sorting::zero_key());
    assert(takes_keys(keys, arguments, n as int)) by {
        if !(arguments.len() > 3 && (arguments[3] matches Val::Integer(c) && c > 0)) {
            assert forall|i: int| 0 <= i < n implies #[trigger] keys[i] != Val::Integer(0) by {
                assert(!sorting::zero_key()(keys[i]));
            }
        }
    }
    lemma_all_comparable(vm, fiber, key.place);
    lemma_sorted_order(keys, n);
    lemma_named_candidates(vm, fiber, names, order);
    let all = sorting::named_candidates(vm, fiber, names, order)->Ok_0->Some_0;
    assert(all_found(vm, fiber, all)) by {
        assert forall|i: int| 0 <= i < all.len() implies arrays::place_values(
            vm,
            fiber,
            (#[trigger] all[i]).0,
        ) is Ok by {
            assert(named_at(vm, fiber, names, order, i, all[i]));
        }
    }
    assert(agree(vm, fiber, all)) by {
        assert forall|i: int, j: int|
            #![trigger all[i], all[j]]
            0 <= i < all.len() && 0 <= j < all.len() && slot_of(vm, fiber, all[i].0) == slot_of(
                vm,
                fiber,
                all[j].0,
            ) implies all[i].1 == all[j].1 by {
            assert(named_at(vm, fiber, names, order, i, all[i]));
            assert(named_at(vm, fiber, names, order, j, all[j]));
            lemma_place_key(vm, fiber, all[i].0);
            lemma_place_key(vm, fiber, all[j].0);
        }
    }
    lemma_all_written(vm, fiber, all);
    let (v, f, _) = sorting::multi_sort_ex(vm, fiber, arguments);
    assert forall|k: int| #[trigger] is_named(names, k) implies ({
        let target = target_of(vm, fiber, names[k]);
        let values = arrays::place_values(vm, fiber, target.place)->Ok_0;
        &&& order.len() <= target.dimensions[0]
        &&& arrays::place_values(v, f, target.place) is Ok
        &&& rows_follow(
            values,
            arrays::place_values(v, f, target.place)->Ok_0,
            order,
            values.len() as int / target.dimensions[0] as int,
        )
    }) by {
        let c = all[k];
        let target = target_of(vm, fiber, names[k]);
        let values = arrays::place_values(vm, fiber, target.place)->Ok_0;
        assert(named_at(vm, fiber, names, order, k, c));
        assert(names[k] == Val::Text(names[k]->Text_0));
        assert(c.0 == target.place);
        let w = values.len() as int / target.dimensions[0] as int;
        assert(w >= 0) by (nonlinear_arith)
            requires
                w == values.len() as int / target.dimensions[0] as int,
                target.dimensions[0] > 0,
        ;
        lemma_permuted_rows(values, order, w);
        assert(c.1 == sorting::permuted(values, order, w));
    }
    assert(rearranges(order));
}

proof fn lemma_sort_arguments(vm: VmModel, fiber: FiberModel, arguments: Seq<Val>)
    requires
        sorting::sort_arguments(vm, fiber, arguments) is Ok,
    ensures
        sorting::sort_arguments(vm, fiber, arguments)->Ok_0.len() == arguments.len(),
        forall|k: int|
            0 <= k < arguments.len() ==> sorting::sort_argument(
                vm,
                fiber,
                arguments[k],
                k as nat,
            ) == Ok::<SortArray, Trouble>(
                #[trigger] sorting::sort_arguments(vm, fiber, arguments)->Ok_0[k],
            ),
    decreases arguments.len(),
{
    if arguments.len() > 0 {
        let front = arguments.drop_last();
        lemma_sort_arguments(vm, fiber, front);
        let before = sorting::sort_arguments(vm, fiber, front)->Ok_0;
        let all = sorting::sort_arguments(vm, fiber, arguments)->Ok_0;
        assert forall|k: int| 0 <= k < arguments.len() implies sorting::sort_argument(
            vm,
            fiber,
            arguments[k],
            k as nat,
        ) == Ok::<SortArray, Trouble>(#[trigger] all[k]) by {
            if k < front.len() {
                assert(all[k] == before[k]);
                assert(front[k] == arguments[k]);
            }
        }
    }
}

/// The new values of an array that is sorted along.
pub open spec fn sorted_along(a: SortArray, order: Seq<usize>, c: Candidate) -> bool {
    &&& c.0 == a.place
    &&& a.dimensions[0] > 0
    &&& order.len() <= a.dimensions[0]
    &&& c.1 == sorting::permuted(
        a.values,
        order,
        (a.values.len() / a.dimensions[0] as nat) as int,
    )
}

proof fn lemma_sort_candidates(all: Seq<SortArray>, order: Seq<usize>)
    requires
        sorting::sort_candidates(all, order) matches Ok(Some(_)),
    ensures
        sorting::sort_candidates(all, order)->Ok_0->Some_0.len() == all.len(),
        forall|k: int|
            0 <= k < all.len() ==> sorted_along(
                all[k],
                order,
                #[trigger] sorting::sort_candidates(all, order)->Ok_0->Some_0[k],
            ),
    decreases all.len(),
{
    if all.len() > 0 {
        lemma_sort_candidates(all.drop_last(), order);
        let before = sorting::sort_candidates(all.drop_last(), order)->Ok_0->Some_0;
        let done = sorting::sort_candidates(all, order)->Ok_0->Some_0;
        assert forall|k: int| 0 <= k < all.len() implies sorted_along(
            all[k],
            order,
            #[trigger] done[k],
        ) by {
            if k < all.len() - 1 {
                assert(done[k] == before[k]);
                assert(all.drop_last()[k] == all[k]);
            }
        }
    }
}

/// A key that ends the keys of a sort: zero or the empty text.
pub open spec fn ends_keys(v: Val) -> bool {
    v == Val::Integer(0) || (v matches Val::Text(t) && t.len() == 0)
}

/// The place in an argument.
pub open spec fn place_in(v: Val) -> Place {
    match v {
        Val::IntegerPlace(p) => p,
        Val::StringPlace(p) => p,
        _ => crate::state::nowhere(),
    }
}

/// Sorting arrays by the first one: one order is applied to all of them, row by row, in which the
/// keys in front of the first zero or empty one do not fall. Where an array has fewer rows than
/// there are keys, zero is answered and nothing changes.
pub proof fn law_sort_by_first(vm: VmModel, fiber: FiberModel, arguments: Seq<Val>)
    requires
        places::machine_sized(vm, fiber),
        fiber.frames.len() > 0,
        forall|k: int|
            0 <= k < arguments.len() ==> place_in(#[trigger] arguments[k]).backing is None,
        arrays::place_values(vm, fiber, place_in(arguments[0]))->Ok_0.len() <= usize::MAX,
    ensures
        ({
            let (v, f, r) = sorting::multi_sort(vm, fiber, arguments);
            let keys = arrays::place_values(vm, fiber, place_in(arguments[0]))->Ok_0;
            &&& r == Ok::<Val, Trouble>(Val::Integer(0)) ==> v == vm && f == fiber
            &&& r == Ok::<Val, Trouble>(Val::Integer(1)) ==> exists|order: Seq<usize>| #[trigger]
                rearranges(order) && order.len() <= keys.len() && (forall|i: int|
                    0 <= i < order.len() ==> !ends_keys(#[trigger] keys[i])) && (order.len()
                    < keys.len() ==> ends_keys(keys[order.len() as int])) && keys_rise(keys, order)
                    && forall|k: int|
                    0 <= k < arguments.len() ==> sorted_at(
                        vm,
                        fiber,
                        v,
                        f,
                        place_in(#[trigger] arguments[k]),
                        order,
                    )
        }),
{
    let (v, f, r) = sorting::multi_sort(vm, fiber, arguments);
    if r == Ok::<Val, Trouble>(Val::Integer(1)) {
        let inputs = sorting::sort_arguments(vm, fiber, arguments)->Ok_0;
        lemma_sort_arguments(vm, fiber, arguments);
        assert(sorting::sort_argument(vm, fiber, arguments[0], 0) == Ok::<SortArray, Trouble>(
            inputs[0],
        ));
        let keys = inputs[0].values;
        let n = sorting::leading_keys(keys);
        let order = sorting::sorted_order(keys, n);
        lookup::lemma_first_index(keys, sorting::blank());
        assert forall|i: int| 0 <= i < n implies !ends_keys(#[trigger] keys[i]) by {
            assert(!sorting::blank()(keys[i]));
        }
        lemma_all_comparable(vm, fiber, place_in(arguments[0]));
        lemma_sorted_order(keys, n);
        lemma_sort_candidates(inputs, order);
        let all = sorting::sort_candidates(inputs, order)->Ok_0->Some_0;
        assert forall|k: int| 0 <= k < all.len() implies #[trigger] all[k].0 == place_in(
            arguments[k],
        ) && arrays::place_values(vm, fiber, all[k].0) == Ok::<Seq<Val>, Trouble>(
            inputs[k].values,
        ) by {
            assert(sorting::sort_argument(vm, fiber, arguments[k], k as nat) == Ok::<
                SortArray,
                Trouble,
            >(inputs[k]));
            assert(sorted_along(inputs[k], order, all[k]));
        }
        assert(all_found(vm, fiber, all));
        assert(agree(vm, fiber, all)) by {
            assert forall|i: int, j: int|
                #![trigger all[i], all[j]]
                0 <= i < all.len() && 0 <= j < all.len() && slot_of(vm, fiber, all[i].0)
                    == slot_of(vm, fiber, all[j].0) implies all[i].1 == all[j].1 by {
                assert(place_in(arguments[i]).backing is None);
                assert(place_in(arguments[j]).backing is None);
                assert(all[i].0 == place_in(arguments[i]));
                assert(all[j].0 == place_in(arguments[j]));
                lemma_place_key(vm, fiber, all[i].0);
                lemma_place_key(vm, fiber, all[j].0);
                assert(sorted_along(inputs[i], order, all[i]));
                assert(sorted_along(inputs[j], order, all[j]));
                assert(sorting::sort_argument(vm, fiber, arguments[i], i as nat) == Ok::<
                    SortArray,
                    Trouble,
                >(inputs[i]));
                assert(sorting::sort_argument(vm, fiber, arguments[j], j as nat) == Ok::<
                    SortArray,
                    Trouble,
                >(inputs[j]));
            }
        }
        lemma_all_written(vm, fiber, all);
        assert forall|k: int| 0 <= k < arguments.len() implies sorted_at(
            vm,
            fiber,
            v,
            f,
            place_in(#[trigger] arguments[k]),
            order,
        ) by {
            assert(sorted_along(inputs[k], order, all[k]));
            assert(all[k].0 == place_in(arguments[k]));
            let a = inputs[k];
            let w = (a.values.len() / a.dimensions[0] as nat) as int;
            lemma_permuted_rows(a.values, order, w);
            assert(arrays::place_values(vm, fiber, all[k].0) == Ok::<Seq<Val>, Trouble>(a.values));
            assert(arrays::place_values(v, f, all[k].0) == Ok::<Seq<Val>, Trouble>(all[k].1));
            assert(w >= 0) by (nonlinear_arith)
                requires
                    w == (a.values.len() / a.dimensions[0] as nat) as int,
                    a.dimensions[0] > 0,
            ;
            assert(rows_follow(
                arrays::place_values(vm, fiber, place_in(arguments[k]))->Ok_0,
                arrays::place_values(v, f, place_in(arguments[k]))->Ok_0,
                order,
                w,
            ));
        }
        assert(rearranges(order));
    }
}

/// The array at a place was sorted along: its rows follow an order.
pub open spec fn sorted_at(
    vm: VmModel,
    fiber: FiberModel,
    v: VmModel,
    f: FiberModel,
    place: Place,
    order: Seq<usize>,
) -> bool {
    let values = arrays::place_values(vm, fiber, place)->Ok_0;
    arrays::place_values(v, f, place) is Ok && exists|w: int| #[trigger]
        rows_follow(values, arrays::place_values(v, f, place)->Ok_0, order, w) && w >= 0
}

/// A cell of an array of up to three dimensions, by its coordinates; the ones that an array lacks
/// are zero.
pub open spec fn flat(d: Seq<u64>, x: int, y: int, z: int) -> int {
    if d.len() == 1 {
        x
    } else if d.len() == 2 {
        x * d[1] + y
    } else {
        (x * d[1] + y) * d[2] + z
    }
}

/// Coordinates lie inside an array.
pub open spec fn within(d: Seq<u64>, x: int, y: int, z: int) -> bool {
    &&& 0 <= x < d[0]
    &&& if d.len() > 1 {
        0 <= y < d[1]
    } else {
        y == 0
    }
    &&& if d.len() > 2 {
        0 <= z < d[2]
    } else {
        z == 0
    }
}

/// The number of cells of an array of up to three dimensions.
pub open spec fn cells_of(d: Seq<u64>) -> int {
    if d.len() == 1 {
        d[0] as int
    } else if d.len() == 2 {
        d[0] * d[1]
    } else {
        d[0] * d[1] * d[2]
    }
}

proof fn lemma_coordinates(d: Seq<u64>, x: int, y: int, z: int)
    requires
        1 <= d.len() <= 3,
        within(d, x, y, z),
    ensures
        flat(d, x, y, z) >= 0,
        flat(d, x, y, z) < cells_of(d),
        array_ops::coordinates_of(d, flat(d, x, y, z) as nat) == coordinates(d.len(), x, y, z),
    decreases d.len(),
{
    reveal_with_fuel(array_ops::coordinates_of, 4);
    let o = flat(d, x, y, z);
    let d0 = d[0] as int;
    if d.len() == 1 {
        assert(o % d0 == x) by (nonlinear_arith)
            requires
                o == x,
                0 <= x < d0,
        ;
        assert(d.drop_last() =~= Seq::<u64>::empty());
        assert(array_ops::coordinates_of(d, o as nat) =~= coordinates(1, x, y, z));
    } else if d.len() == 2 {
        let d1 = d[1] as int;
        assert(o >= 0 && o % d1 == y && o / d1 == x && o < d0 * d1) by (nonlinear_arith)
            requires
                o == x * d1 + y,
                0 <= y < d1,
                0 <= x < d0,
        ;
        let e = d.drop_last();
        assert(e[0] == d[0] && e.len() == 1);
        lemma_coordinates(e, x, 0, 0);
        assert(array_ops::coordinates_of(d, o as nat) =~= coordinates(2, x, y, z));
    } else {
        let d1 = d[1] as int;
        let d2 = d[2] as int;
        let q = x * d1 + y;
        let e = d.drop_last();
        assert(e[0] == d[0] && e[1] == d[1] && e.len() == 2);
        lemma_coordinates(e, x, y, 0);
        assert(q >= 0 && q < d0 * d1);
        assert(o >= 0 && o % d2 == z && o / d2 == q && o < d0 * d1 * d2) by (nonlinear_arith)
            requires
                o == q * d2 + z,
                0 <= z < d2,
                0 <= q < d0 * d1,
        ;
        assert(array_ops::coordinates_of(d, o as nat) =~= coordinates(3, x, y, z));
    }
}

/// The first so many of three coordinates.
pub open spec fn coordinates(rank: nat, x: int, y: int, z: int) -> Seq<u64> {
    seq![x as u64, y as u64, z as u64].take(rank as int)
}

proof fn lemma_source_cell(source: Seq<Val>, s: Seq<u64>, d: Seq<u64>, x: int, y: int, z: int)
    requires
        1 <= d.len() <= 3,
        s.len() == d.len(),
        within(d, x, y, z),
        array_ops::cell_copy(source, s, d, flat(d, x, y, z) as nat) is Ok,
    ensures
        array_ops::cell_copy(source, s, d, flat(d, x, y, z) as nat)->Ok_0 == if within(
            s,
            x,
            y,
            z,
        ) {
            Some(source[flat(s, x, y, z)])
        } else {
            None
        },
{
    lemma_coordinates(d, x, y, z);
    reveal_with_fuel(array_ops::offset_over, 4);
    let c = coordinates(d.len(), x, y, z);
    let full = seq![x as u64, y as u64, z as u64];
    assert(c.len() == d.len());
    assert(c[0] == x);
    if d.len() > 1 {
        assert(c[1] == y);
    }
    if d.len() > 2 {
        assert(c[2] == z);
    }
    if within(s, x, y, z) {
        assert forall|k: int|
            0 <= k < array_ops::shorter(c.len(), s.len()) implies #[trigger] c[k] < s[k] by {
            assert(k == 0 || k == 1 || k == 2);
        }
        assert(array_ops::inside(c, s));
        let none = array_ops::offset_over(s, c, 0);
        let width = s[0] as int;
        assert(none * width == 0) by (nonlinear_arith)
            requires
                none == 0,
        ;
        assert(array_ops::offset_over(s, c, 1) == none * width + c[0]);
        assert(array_ops::offset_over(s, c, 1) == x);
    } else if array_ops::inside(c, s) {
        assert(c[0] < s[0]);
        if d.len() > 1 {
            assert(c[1] < s[1]);
        }
        if d.len() > 2 {
            assert(c[2] < s[2]);
        }
    }
}

/// After ARRAYCOPY each cell of the destination holds what the source holds at the same
/// coordinates, where the source reaches so far, and what it held before elsewhere.
pub proof fn law_copied_array(
    vm: VmModel,
    fiber: FiberModel,
    arguments: Seq<Val>,
    x: int,
    y: int,
    z: int,
)
    requires
        places::machine_sized(vm, fiber),
        array_ops::array_copy(vm, fiber, arguments) is Ok,
        ({
            let destination = array_ops::array_argument(
                vm,
                fiber,
                Some(arguments[1]),
                "destination"@,
                true,
            )->Ok_0;
            &&& within(destination.dimensions, x, y, z)
            &&& arrays::place_values(vm, fiber, destination.place)->Ok_0.len() == cells_of(
                destination.dimensions,
            )
        }),
    ensures
        ({
            let source = array_ops::array_argument(
                vm,
                fiber,
                Some(arguments[0]),
                "source"@,
                false,
            )->Ok_0;
            let destination = array_ops::array_argument(
                vm,
                fiber,
                Some(arguments[1]),
                "destination"@,
                true,
            )->Ok_0;
            let from = arrays::place_values(vm, fiber, source.place)->Ok_0;
            let to = arrays::place_values(vm, fiber, destination.place)->Ok_0;
            let (v, f) = array_ops::array_copy(vm, fiber, arguments)->Ok_0;
            let after = arrays::place_values(v, f, destination.place);
            let o = flat(destination.dimensions, x, y, z);
            &&& source.dimensions.len() == destination.dimensions.len()
            &&& after is Ok && after->Ok_0.len() == to.len()
            &&& after->Ok_0[o] == if within(source.dimensions, x, y, z) {
                from[flat(source.dimensions, x, y, z)]
            } else {
                to[o]
            }
            &&& slot_of(vm, fiber, source.place) != slot_of(vm, fiber, destination.place)
                ==> arrays::place_values(v, f, source.place) == Ok::<Seq<Val>, Trouble>(from)
        }),
{
    let source = array_ops::array_argument(
        vm,
        fiber,
        Some(arguments[0]),
        "source"@,
        false,
    )->Ok_0;
    let destination = array_ops::array_argument(
        vm,
        fiber,
        Some(arguments[1]),
        "destination"@,
        true,
    )->Ok_0;
    let from = arrays::place_values(vm, fiber, source.place)->Ok_0;
    let to = arrays::place_values(vm, fiber, destination.place)->Ok_0;
    let done = array_ops::copied(
        from,
        source.dimensions,
        to,
        destination.dimensions,
        to.len(),
    );
    let o = flat(destination.dimensions, x, y, z);
    lemma_coordinates(destination.dimensions, x, y, z);
    array_ops::law_copy_takes_the_shared_extent(
        from,
        source.dimensions,
        to,
        destination.dimensions,
        to.len(),
        o,
    );
    lemma_source_cell(from, source.dimensions, destination.dimensions, x, y, z);
    lemma_array_write(vm, fiber, destination.place, done.0, destination.place);
    lemma_array_write(vm, fiber, destination.place, done.0, source.place);
}

} // verus!
