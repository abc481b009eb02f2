//! Stable order of keys, and sorting of arrays by the order of another.

use vstd::prelude::*;
use crate::array_ops;
use crate::arrays;
use crate::fault::{self, Trouble, VmError};
use crate::lookup;
use crate::memory::BytecodeStorage;
use crate::state::{Fiber, FiberModel, Vm, VmModel};
use crate::text;
use crate::value::{self, Place, PlaceDescriptor, Val, VmValue};

verus! {

/// A key stands before another. Keys of different types are not ordered.
pub open spec fn key_less(a: Val, b: Val) -> bool {
    match (a, b) {
        (Val::Integer(x), Val::Integer(y)) => x < y,
        (Val::Text(x), Val::Text(y)) => text::text_less(x, y),
        _ => false,
    }
}

/// Tells whether a key stands before another.
pub fn is_key_less(a: &VmValue, b: &VmValue) -> (r: bool)
    ensures
        r == key_less(a@, b@),
{
    match (a, b) {
        (VmValue::Integer(x), VmValue::Integer(y)) => *x < *y,
        (VmValue::String(x), VmValue::String(y)) => text::is_less(x.as_str(), y.as_str()),
        _ => false,
    }
}

/// Positions whose key stands behind the key at `k`.
pub open spec fn behind(keys: Seq<Val>, k: int) -> spec_fn(usize) -> bool {
    |i: usize| key_less(keys[k], keys[i as int])
}

/// Where position `k` goes in an order: behind all that do not stand behind it.
pub open spec fn insertion_point(keys: Seq<Val>, order: Seq<usize>, k: int) -> int {
    match lookup::first_index(order, behind(keys, k)) {
        Some(i) => i,
        None => order.len() as int,
    }
}

/// The first `n` positions in the stable order of their keys.
pub open spec fn sorted_order(keys: Seq<Val>, n: nat) -> Seq<usize>
    decreases n,
{
    if n == 0 {
        Seq::empty()
    } else {
        let before = sorted_order(keys, (n - 1) as nat);
        before.insert(insertion_point(keys, before, n - 1), (n - 1) as usize)
    }
}

/// Puts the first `n` positions in the stable order of their keys.
pub fn stable_order(keys: &Vec<VmValue>, n: usize) -> (r: Vec<usize>)
    requires
        n <= keys@.len(),
    ensures
        r@ == sorted_order(value::vals(keys@), n as nat),
        r@.len() == n,
        forall|i: int| 0 <= i < r@.len() ==> #[trigger] r@[i] < n,
{
    let ghost all = value::vals(keys@);
    let mut out: Vec<usize> = Vec::new();
    let mut k: usize = 0;
    while k < n
        invariant
            k <= n <= keys@.len(),
            all == value::vals(keys@),
            out@ == sorted_order(all, k as nat),
            out@.len() == k,
            forall|i: int| 0 <= i < out@.len() ==> #[trigger] out@[i] < k,
        decreases n - k,
    {
        let ghost p = behind(all, k as int);
        let mut at: usize = 0;
        while at < out.len() && !is_key_less(&keys[k], &keys[out[at]])
            invariant
                at <= out.len(),
                k < n <= keys@.len(),
                all == value::vals(keys@),
                p == behind(all, k as int),
                forall|i: int| 0 <= i < out@.len() ==> #[trigger] out@[i] < k,
                forall|j: int| 0 <= j < at ==> !p(#[trigger] out@[j]),
            decreases out.len() - at,
        {
            at = at + 1;
        }
        proof {
            if at < out@.len() {
                lookup::lemma_first_found(out@, p, at as int);
            } else {
                lookup::lemma_first_none(out@, p);
            }
        }
        let ghost before = out@;
        out.insert(at, k);
        assert forall|i: int| 0 <= i < out@.len() implies #[trigger] out@[i] < k + 1 by {
            if i < at {
                assert(out@[i] == before[i]);
            } else if i > at {
                assert(out@[i] == before[i - 1]);
            }
        }
        k = k + 1;
    }
    out
}

proof fn lemma_text_total(a: Seq<char>, b: Seq<char>)
    ensures
        !text::text_less(a, a),
        !(text::text_less(a, b) && text::text_less(b, a)),
        !text::text_less(a, b) && !text::text_less(b, a) ==> a == b,
    decreases a.len(),
{
    if a.len() > 0 {
        lemma_text_total(a.skip(1), a.skip(1));
    }
    if a.len() > 0 && b.len() > 0 && a[0] == b[0] {
        lemma_text_total(a.skip(1), b.skip(1));
        if a.skip(1) == b.skip(1) {
            assert(a =~= seq![a[0]] + a.skip(1));
            assert(b =~= seq![b[0]] + b.skip(1));
        }
    } else if a.len() == 0 && b.len() == 0 {
        assert(a =~= b);
    }
}

proof fn lemma_text_not_less_transitive(a: Seq<char>, b: Seq<char>, c: Seq<char>)
    requires
        !text::text_less(b, a),
        !text::text_less(c, b),
    ensures
        !text::text_less(c, a),
    decreases a.len(),
{
    if a.len() > 0 && b.len() > 0 && c.len() > 0 && a[0] == b[0] && b[0] == c[0] {
        lemma_text_not_less_transitive(a.skip(1), b.skip(1), c.skip(1));
    }
}

/// Keys that can all be compared with each other.
pub open spec fn comparable(keys: Seq<Val>) -> bool {
    arrays::all_integers(keys) || arrays::all_texts(keys)
}

proof fn lemma_key_order(keys: Seq<Val>, i: int, j: int, k: int)
    requires
        comparable(keys),
        0 <= i < keys.len(),
        0 <= j < keys.len(),
        0 <= k < keys.len(),
    ensures
        !key_less(keys[j], keys[i]) && !key_less(keys[k], keys[j]) ==> !key_less(keys[k], keys[i]),
        !(key_less(keys[i], keys[j]) && key_less(keys[j], keys[i])),
{
    let a = keys[i];
    let b = keys[j];
    let c = keys[k];
    if arrays::all_texts(keys) && !arrays::all_integers(keys) {
        assert(a is Text && b is Text && c is Text);
        lemma_text_total(a->Text_0, b->Text_0);
        if !key_less(b, a) && !key_less(c, b) {
            lemma_text_not_less_transitive(a->Text_0, b->Text_0, c->Text_0);
        }
    } else {
        assert(a is Integer && b is Integer && c is Integer);
    }
}

/// An order is stable: no key stands behind a later one, and equal keys keep their positions.
pub open spec fn is_stable_order(keys: Seq<Val>, order: Seq<usize>) -> bool {
    forall|i: int, j: int|
        #![trigger order[i], order[j]]
        0 <= i < j < order.len() ==> !key_less(keys[order[j] as int], keys[order[i] as int]) && (
        !key_less(keys[order[i] as int], keys[order[j] as int]) ==> order[i] < order[j])
}

/// The stable order holds each position once, no key before a smaller one, and equal keys in their
/// old order.
pub proof fn law_order_is_stable(keys: Seq<Val>, n: nat)
    requires
        comparable(keys),
        n <= keys.len(),
        n <= usize::MAX,
    ensures
        sorted_order(keys, n).len() == n,
        sorted_order(keys, n).no_duplicates(),
        forall|i: int| 0 <= i < n ==> #[trigger] sorted_order(keys, n)[i] < n,
        is_stable_order(keys, sorted_order(keys, n)),
    decreases n,
{
    if n > 0 {
        law_order_is_stable(keys, (n - 1) as nat);
        let s = sorted_order(keys, (n - 1) as nat);
        let k = n - 1;
        let p = behind(keys, k);
        lookup::lemma_first_index(s, p);
        let at = insertion_point(keys, s, k);
        let t = sorted_order(keys, n);
        assert forall|i: int| 0 <= i < t.len() implies t[i] == if i < at {
            s[i]
        } else if i == at {
            k as usize
        } else {
            s[i - 1]
        } by {}
        assert forall|i: int, j: int|
            #![trigger t[i], t[j]]
            0 <= i < j < t.len() implies !key_less(keys[t[j] as int], keys[t[i] as int]) && (
        !key_less(keys[t[i] as int], keys[t[j] as int]) ==> t[i] < t[j]) && t[i] != t[j] by {
            let si = if i < at {
                i
            } else {
                i - 1
            };
            let sj = if j < at {
                j
            } else {
                j - 1
            };
            if i != at && j != at {
                assert(s[si] == t[i] && s[sj] == t[j]);
            } else if j == at {
                assert(s[i] == t[i]);
                assert(!p(s[i]));
                lemma_key_order(keys, s[i] as int, k, k);
            } else {
                assert(s[sj] == t[j]);
                assert(p(s[at]));
                lemma_key_order(keys, k, s[at] as int, s[sj] as int);
                lemma_key_order(keys, k, s[at] as int, k);
                if sj > at {
                    assert(!key_less(keys[s[sj] as int], keys[s[at] as int]));
                }
                lemma_key_order(keys, s[at] as int, s[sj] as int, k);
            }
        }
    }
}

/// Values with their first rows of width `w` replaced by the rows that an order names.
pub open spec fn permuted(values: Seq<Val>, order: Seq<usize>, w: int) -> Seq<Val> {
    Seq::new(
        values.len(),
        |i: int|
            if w > 0 && i / w < order.len() {
                values[order[i / w] * w + i % w]
            } else {
                values[i]
            },
    )
}

/// Replaces the first rows of an array by the rows that an order names.
fn permute(values: &Vec<VmValue>, order: &Vec<usize>, rows: usize) -> (r: Vec<VmValue>)
    requires
        rows > 0,
        order@.len() <= rows,
        forall|i: int| 0 <= i < order@.len() ==> #[trigger] order@[i] < rows,
    ensures
        value::vals(r@) == permuted(
            value::vals(values@),
            order@,
            (values@.len() / rows as nat) as int,
        ),
{
    let n: usize = values.len();
    let w: usize = n / rows;
    let ghost want = permuted(value::vals(values@), order@, w as int);
    let mut out: Vec<VmValue> = Vec::new();
    let mut i: usize = 0;
    while i < n
        invariant
            i <= n,
            n == values@.len(),
            w == n / rows,
            rows > 0,
            order@.len() <= rows,
            forall|j: int| 0 <= j < order@.len() ==> #[trigger] order@[j] < rows,
            want == permuted(value::vals(values@), order@, w as int),
            out@.len() == i,
            forall|j: int| 0 <= j < i ==> (#[trigger] out@[j])@ == want[j],
        decreases n - i,
    {
        if w > 0 && i / w < order.len() {
            let row: usize = order[i / w];
            let column: usize = i % w;
            assert(row * w + column < n && row * w >= 0 && row * w <= n) by (nonlinear_arith)
                requires
                    row < rows,
                    w == n / rows,
                    w > 0,
                    rows > 0,
                    column < w,
            ;
            out.push(values[row * w + column].clone());
        } else {
            out.push(values[i].clone());
        }
        i = i + 1;
    }
    assert(value::vals(out@) =~= want);
    out
}

/// An array to be sorted.
#[verifier::ext_equal]
pub struct SortArray {
    pub place: Place,
    pub dimensions: Seq<u64>,
    pub values: Seq<Val>,
}

/// An array to be sorted.
struct SortInput {
    place: PlaceDescriptor,
    dimensions: Vec<u64>,
    values: Vec<VmValue>,
}

spec fn input_views(s: Seq<SortInput>) -> Seq<SortArray> {
    s.map_values(|a: SortInput| a.model())
}

impl SortInput {
    spec fn model(self) -> SortArray {
        SortArray {
            place: self.place@,
            dimensions: self.dimensions@,
            values: value::vals(self.values@),
        }
    }
}

/// The array in one argument position.
pub open spec fn sort_argument(vm: VmModel, fiber: FiberModel, argument: Val, index: nat) -> Result<
    SortArray,
    Trouble,
> {
    let which = "ARRAYMSORT argument "@ + text::digits(index + 1);
    match arrays::place_at(seq![argument], 0) {
        Err(_) => Err(Trouble::InvalidArguments(which + " must be an array place"@)),
        Ok(place) => match vm.program(fiber.top().generation) {
            None => Err(Trouble::InvalidState("ARRAYMSORT variable is missing"@)),
            Some(program) => match program.spec_global(place.variable) {
                None => Err(Trouble::InvalidState("ARRAYMSORT variable is missing"@)),
                Some(g) => if g.storage is Character || !g.mutable || place.character is Some
                    || place.indices.len() > 0 || !(1 <= g.dimensions@.len() <= 3) || (index == 0
                    && g.dimensions@.len() != 1) {
                    Err(
                        Trouble::InvalidArguments(
                            which
                                + " is not a mutable non-character array of the required rank"@,
                        ),
                    )
                } else {
                    match array_ops::snapshot(vm, fiber, place) {
                        Err(e) => Err(e),
                        Ok(values) => Ok(SortArray { place, dimensions: g.dimensions@, values }),
                    }
                },
            },
        },
    }
}

/// The arrays in the first argument positions.
pub open spec fn sort_arguments(vm: VmModel, fiber: FiberModel, arguments: Seq<Val>) -> Result<
    Seq<SortArray>,
    Trouble,
>
    decreases arguments.len(),
{
    if arguments.len() == 0 {
        Ok(Seq::empty())
    } else {
        match sort_arguments(vm, fiber, arguments.drop_last()) {
            Err(e) => Err(e),
            Ok(before) => match sort_argument(
                vm,
                fiber,
                arguments.last(),
                (arguments.len() - 1) as nat,
            ) {
                Err(e) => Err(e),
                Ok(a) => Ok(before.push(a)),
            },
        }
    }
}

proof fn lemma_sort_arguments_stop(vm: VmModel, fiber: FiberModel, arguments: Seq<Val>, n: int)
    requires
        0 <= n <= arguments.len(),
        sort_arguments(vm, fiber, arguments.take(n)) is Err,
    ensures
        sort_arguments(vm, fiber, arguments) == sort_arguments(vm, fiber, arguments.take(n)),
    decreases arguments.len() - n,
{
    if n == arguments.len() {
        assert(arguments.take(n) =~= arguments);
    } else {
        assert(arguments.take(n + 1).drop_last() =~= arguments.take(n));
        lemma_sort_arguments_stop(vm, fiber, arguments, n + 1);
    }
}

fn read_sort_argument(vm: &Vm, fiber: &Fiber, argument: &VmValue, index: usize) -> (r: Result<
    SortInput,
    VmError,
>)
    requires
        fiber@.frames.len() > 0,
        index < usize::MAX,
    ensures
        match r {
            Ok(a) => sort_argument(vm@, fiber@, argument@, index as nat) == Ok::<
                SortArray,
                Trouble,
            >(a.model()),
            Err(e) => sort_argument(vm@, fiber@, argument@, index as nat) == Err::<
                SortArray,
                Trouble,
            >(e@),
        },
{
    let number = text::unsigned_text((index + 1) as u64);
    let which = text::join2("ARRAYMSORT argument ", number.as_str());
    let place = match argument {
        VmValue::IntegerPlace(p) => (**p).clone(),
        VmValue::StringPlace(p) => (**p).clone(),
        _ => {
            return Err(
                VmError::InvalidArguments(text::join2(which.as_str(), " must be an array place")),
            );
        },
    };
    let program = match vm.program(fiber.top().generation) {
        None => {
            return Err(VmError::invalid_state("ARRAYMSORT variable is missing"));
        },
        Some(p) => p,
    };
    let g = match program.global(place.variable) {
        None => {
            return Err(VmError::invalid_state("ARRAYMSORT variable is missing"));
        },
        Some(g) => g,
    };
    let rank: usize = g.dimensions.len();
    if g.storage == BytecodeStorage::Character || !g.mutable || place.character.is_some()
        || place.indices.len() > 0 || rank < 1 || rank > 3 || (index == 0 && rank != 1) {
        return Err(
            VmError::InvalidArguments(
                text::join2(
                    which.as_str(),
                    " is not a mutable non-character array of the required rank",
                ),
            ),
        );
    }
    let values = match array_ops::array_snapshot_any_rank(vm, fiber, &place) {
        Ok(v) => v,
        Err(e) => {
            return Err(e);
        },
    };
    Ok(SortInput { place, dimensions: value::copy_indices(&g.dimensions), values })
}

fn read_sort_arguments(vm: &Vm, fiber: &Fiber, arguments: &Vec<VmValue>) -> (r: Result<
    Vec<SortInput>,
    VmError,
>)
    requires
        fiber@.frames.len() > 0,
    ensures
        match r {
            Ok(v) => sort_arguments(vm@, fiber@, value::vals(arguments@)) == Ok::<
                Seq<SortArray>,
                Trouble,
            >(input_views(v@)) && v@.len() == arguments@.len(),
            Err(e) => sort_arguments(vm@, fiber@, value::vals(arguments@)) == Err::<
                Seq<SortArray>,
                Trouble,
            >(e@),
        },
{
    let ghost all = value::vals(arguments@);
    let mut out: Vec<SortInput> = Vec::new();
    let mut i: usize = 0;
    proof {
        assert(all.take(0) =~= Seq::<Val>::empty());
        assert(input_views(out@) =~= Seq::<SortArray>::empty());
    }
    while i < arguments.len()
        invariant
            i <= arguments.len(),
            fiber@.frames.len() > 0,
            all == value::vals(arguments@),
            out@.len() == i,
            sort_arguments(vm@, fiber@, all.take(i as int)) == Ok::<Seq<SortArray>, Trouble>(
                input_views(out@),
            ),
        decreases arguments.len() - i,
    {
        proof {
            assert(all.take(i + 1).drop_last() =~= all.take(i as int));
            assert(all.take(i + 1).last() == all[i as int]);
        }
        match read_sort_argument(vm, fiber, &arguments[i], i) {
            Ok(a) => {
                let ghost before = out@;
                out.push(a);
                assert(input_views(out@) =~= input_views(before).push(a.model()));
            },
            Err(e) => {
                proof {
                    lemma_sort_arguments_stop(vm@, fiber@, all, i + 1);
                }
                return Err(e);
            },
        }
        i = i + 1;
    }
    assert(all.take(i as int) =~= all);
    Ok(out)
}

/// A key that ends the list of keys.
pub open spec fn is_blank(v: Val) -> bool {
    match v {
        Val::Integer(n) => n == 0,
        Val::Text(t) => t.len() == 0,
        _ => false,
    }
}

pub open spec fn blank() -> spec_fn(Val) -> bool {
    |v: Val| is_blank(v)
}

/// How many keys there are before the first blank one.
pub open spec fn leading_keys(keys: Seq<Val>) -> nat {
    match lookup::first_index(keys, blank()) {
        Some(i) => i as nat,
        None => keys.len(),
    }
}

fn count_leading_keys(keys: &Vec<VmValue>) -> (r: usize)
    ensures
        r == leading_keys(value::vals(keys@)),
        r <= keys@.len(),
{
    let ghost all = value::vals(keys@);
    let mut i: usize = 0;
    while i < keys.len()
        invariant
            i <= keys.len(),
            all == value::vals(keys@),
            forall|j: int| 0 <= j < i ==> !blank()(#[trigger] all[j]),
        decreases keys.len() - i,
    {
        let stops: bool = match &keys[i] {
            VmValue::Integer(n) => *n == 0,
            VmValue::String(t) => text::length(t.as_str()) == 0,
            _ => false,
        };
        if stops {
            proof {
                assert(blank()(all[i as int]));
                lookup::lemma_first_found(all, blank(), i as int);
            }
            return i;
        }
        i = i + 1;
    }
    proof {
        lookup::lemma_first_none(all, blank());
    }
    i
}

/// A place with its new values.
pub type Candidate = (Place, Seq<Val>);

/// The new values of the first arrays; nothing where one of them is too short.
pub open spec fn sort_candidates(arrays: Seq<SortArray>, order: Seq<usize>) -> Result<
    Option<Seq<Candidate>>,
    Trouble,
>
    decreases arrays.len(),
{
    if arrays.len() == 0 {
        Ok(Some(Seq::empty()))
    } else {
        match sort_candidates(arrays.drop_last(), order) {
            Err(e) => Err(e),
            Ok(None) => Ok(None),
            Ok(Some(before)) => {
                let a = arrays.last();
                if a.dimensions[0] > usize::MAX {
                    Err(Trouble::InvalidState("ARRAYMSORT dimension is too large"@))
                } else if a.dimensions[0] < order.len() {
                    Ok(None)
                } else if a.dimensions[0] == 0 {
                    Err(
                        Trouble::InvalidState("ARRAYMSORT array has an invalid first dimension"@),
                    )
                } else {
                    Ok(
                        Some(
                            before.push(
                                (
                                    a.place,
                                    permuted(
                                        a.values,
                                        order,
                                        (a.values.len() / a.dimensions[0] as nat) as int,
                                    ),
                                ),
                            ),
                        ),
                    )
                }
            },
        }
    }
}

/// What committing new arrays leaves, one after the other up to the first that fails.
pub open spec fn candidates_done(vm: VmModel, fiber: FiberModel, candidates: Seq<Candidate>) -> (
    VmModel,
    FiberModel,
    Result<(), Trouble>,
)
    decreases candidates.len(),
{
    if candidates.len() == 0 {
        (vm, fiber, Ok(()))
    } else {
        let before = candidates_done(vm, fiber, candidates.drop_last());
        match before.2 {
            Err(_) => before,
            Ok(_) => match arrays::array_written(
                before.0,
                before.1,
                candidates.last().0,
                candidates.last().1,
            ) {
                Ok((v, f)) => (v, f, Ok(())),
                Err(e) => (before.0, before.1, Err(e)),
            },
        }
    }
}

/// What sorting arrays by the first of them does.
pub open spec fn multi_sort(vm: VmModel, fiber: FiberModel, arguments: Seq<Val>) -> (
    VmModel,
    FiberModel,
    Result<Val, Trouble>,
) {
    if arguments.len() == 0 {
        (
            vm,
            fiber,
            Err(Trouble::InvalidArguments("ARRAYMSORT requires at least one array"@)),
        )
    } else {
        match sort_arguments(vm, fiber, arguments) {
            Err(e) => (vm, fiber, Err(e)),
            Ok(arrays) => {
                let keys = arrays[0].values;
                let order = sorted_order(keys, leading_keys(keys));
                sort_commit(vm, fiber, sort_candidates(arrays, order))
            },
        }
    }
}

/// The end of a sort: everything is written, or zero is answered where an array is too short.
pub open spec fn sort_commit(
    vm: VmModel,
    fiber: FiberModel,
    candidates: Result<Option<Seq<Candidate>>, Trouble>,
) -> (VmModel, FiberModel, Result<Val, Trouble>) {
    match candidates {
        Err(e) => (vm, fiber, Err(e)),
        Ok(None) => (vm, fiber, Ok(Val::Integer(0))),
        Ok(Some(all)) => {
            let done = candidates_done(vm, fiber, all);
            (
                done.0,
                done.1,
                match done.2 {
                    Ok(_) => Ok(Val::Integer(1)),
                    Err(e) => Err(e),
                },
            )
        },
    }
}

struct NewArray {
    place: PlaceDescriptor,
    values: Vec<VmValue>,
}

spec fn candidate_views(s: Seq<NewArray>) -> Seq<Candidate> {
    s.map_values(|c: NewArray| (c.place@, value::vals(c.values@)))
}

proof fn lemma_candidates_stop(arrays: Seq<SortArray>, order: Seq<usize>, n: int)
    requires
        0 <= n <= arrays.len(),
        !(sort_candidates(arrays.take(n), order) matches Ok(Some(_))),
    ensures
        sort_candidates(arrays, order) == sort_candidates(arrays.take(n), order),
    decreases arrays.len() - n,
{
    if n == arrays.len() {
        assert(arrays.take(n) =~= arrays);
    } else {
        assert(arrays.take(n + 1).drop_last() =~= arrays.take(n));
        lemma_candidates_stop(arrays, order, n + 1);
    }
}

proof fn lemma_candidates_done_stop(
    vm: VmModel,
    fiber: FiberModel,
    candidates: Seq<Candidate>,
    n: int,
)
    requires
        0 <= n <= candidates.len(),
        candidates_done(vm, fiber, candidates.take(n)).2 is Err,
    ensures
        candidates_done(vm, fiber, candidates) == candidates_done(vm, fiber, candidates.take(n)),
    decreases candidates.len() - n,
{
    if n == candidates.len() {
        assert(candidates.take(n) =~= candidates);
    } else {
        assert(candidates.take(n + 1).drop_last() =~= candidates.take(n));
        lemma_candidates_done_stop(vm, fiber, candidates, n + 1);
    }
}

fn commit_candidates(vm: &mut Vm, fiber: &mut Fiber, candidates: &Vec<NewArray>) -> (r: Result<
    (),
    VmError,
>)
    ensures
        (final(vm)@, final(fiber)@, fault::result(r)) == candidates_done(
            old(vm)@,
            old(fiber)@,
            candidate_views(candidates@),
        ),
{
    let ghost all = candidate_views(candidates@);
    let mut i: usize = 0;
    assert(all.take(0) =~= Seq::<Candidate>::empty());
    while i < candidates.len()
        invariant
            i <= candidates.len(),
            all == candidate_views(candidates@),
            candidates_done(old(vm)@, old(fiber)@, all.take(i as int)) == (
                vm@,
                fiber@,
                Ok::<(), Trouble>(()),
            ),
        decreases candidates.len() - i,
    {
        proof {
            assert(all.take(i + 1).drop_last() =~= all.take(i as int));
            assert(all.take(i + 1).last() == all[i as int]);
        }
        match array_ops::commit_array_any_rank(
            vm,
            fiber,
            &candidates[i].place,
            &candidates[i].values,
        ) {
            Ok(_) => {},
            Err(e) => {
                proof {
                    lemma_candidates_done_stop(old(vm)@, old(fiber)@, all, i + 1);
                }
                return Err(e);
            },
        }
        i = i + 1;
    }
    assert(all.take(i as int) =~= all);
    Ok(())
}

fn make_candidates(inputs: &Vec<SortInput>, order: &Vec<usize>, keys: usize) -> (r: Result<
    Option<Vec<NewArray>>,
    VmError,
>)
    requires
        order@.len() == keys,
        forall|i: int| 0 <= i < order@.len() ==> #[trigger] order@[i] < keys,
        forall|i: int| 0 <= i < inputs@.len() ==> (#[trigger] inputs@[i]).dimensions@.len() > 0,
    ensures
        match r {
            Ok(Some(v)) => sort_candidates(input_views(inputs@), order@) == Ok::<
                Option<Seq<Candidate>>,
                Trouble,
            >(Some(candidate_views(v@))),
            Ok(None) => sort_candidates(input_views(inputs@), order@) == Ok::<
                Option<Seq<Candidate>>,
                Trouble,
            >(None),
            Err(e) => sort_candidates(input_views(inputs@), order@) == Err::<
                Option<Seq<Candidate>>,
                Trouble,
            >(e@),
        },
{
    let ghost all = input_views(inputs@);
    let mut out: Vec<NewArray> = Vec::new();
    let mut i: usize = 0;
    proof {
        assert(all.take(0) =~= Seq::<SortArray>::empty());
        assert(candidate_views(out@) =~= Seq::<Candidate>::empty());
    }
    while i < inputs.len()
        invariant
            i <= inputs.len(),
            all == input_views(inputs@),
            order@.len() == keys,
            forall|j: int| 0 <= j < order@.len() ==> #[trigger] order@[j] < keys,
            forall|j: int| 0 <= j < inputs@.len() ==> (#[trigger] inputs@[j]).dimensions@.len() > 0,
            sort_candidates(all.take(i as int), order@) == Ok::<Option<Seq<Candidate>>, Trouble>(
                Some(candidate_views(out@)),
            ),
        decreases inputs.len() - i,
    {
        proof {
            assert(all.take(i + 1).drop_last() =~= all.take(i as int));
            assert(all.take(i + 1).last() == all[i as int]);
            if !(sort_candidates(all.take(i + 1), order@) matches Ok(Some(_))) {
                lemma_candidates_stop(all, order@, i + 1);
            }
        }
        let input = &inputs[i];
        let first: u64 = input.dimensions[0];
        if first > usize::MAX as u64 {
            return Err(VmError::invalid_state("ARRAYMSORT dimension is too large"));
        }
        if (first as usize) < keys {
            return Ok(None);
        }
        if first == 0 {
            return Err(VmError::invalid_state("ARRAYMSORT array has an invalid first dimension"));
        }
        let values = permute(&input.values, order, first as usize);
        let ghost before = out@;
        let c = NewArray { place: input.place.clone(), values };
        out.push(c);
        assert(candidate_views(out@) =~= candidate_views(before).push(
            (c.place@, value::vals(c.values@)),
        ));
        i = i + 1;
    }
    assert(all.take(i as int) =~= all);
    Ok(Some(out))
}

proof fn lemma_sort_arguments_rank(vm: VmModel, fiber: FiberModel, arguments: Seq<Val>)
    ensures
        sort_arguments(vm, fiber, arguments) matches Ok(a) ==> a.len() == arguments.len() && forall|
            i: int,
        |
            0 <= i < a.len() ==> (#[trigger] a[i]).dimensions.len() > 0,
    decreases arguments.len(),
{
    if arguments.len() > 0 {
        lemma_sort_arguments_rank(vm, fiber, arguments.drop_last());
    }
}

/// Sorts arrays by the first of them, up to its first blank key.
pub fn execute_array_multi_sort(vm: &mut Vm, fiber: &mut Fiber, arguments: &Vec<VmValue>) -> (r:
    Result<VmValue, VmError>)
    requires
        old(fiber)@.frames.len() > 0,
    ensures
        (final(vm)@, final(fiber)@, fault::result(r)) == multi_sort(
            old(vm)@,
            old(fiber)@,
            value::vals(arguments@),
        ),
{
    if arguments.len() == 0 {
        return Err(VmError::invalid_arguments("ARRAYMSORT requires at least one array"));
    }
    let inputs = match read_sort_arguments(&*vm, &*fiber, arguments) {
        Ok(v) => v,
        Err(e) => {
            return Err(e);
        },
    };
    proof {
        lemma_sort_arguments_rank(vm@, fiber@, value::vals(arguments@));
        assert forall|i: int| 0 <= i < inputs@.len() implies (
        #[trigger] inputs@[i]).dimensions@.len() > 0 by {
            assert(input_views(inputs@)[i].dimensions.len() > 0);
        }
    }
    let keys: usize = count_leading_keys(&inputs[0].values);
    let order = stable_order(&inputs[0].values, keys);
    match make_candidates(&inputs, &order, keys) {
        Err(e) => Err(e),
        Ok(None) => Ok(VmValue::Integer(0)),
        Ok(Some(candidates)) => match commit_candidates(vm, fiber, &candidates) {
            Ok(_) => Ok(VmValue::Integer(1)),
            Err(e) => Err(e),
        },
    }
}

/// How many keys to sort by; nothing where there is nothing to sort.
pub open spec fn wanted_keys(keys: Seq<Val>, arguments: Seq<Val>) -> Option<nat> {
    match arrays::integer_at(arguments, 3) {
        Ok(0) => None,
        Ok(n) if n > 0 => Some(array_ops::shorter(n as nat, keys.len())),
        _ => if exists|i: int|
            0 <= i < keys.len() && ((#[trigger] keys[i]) matches Val::Text(t) && t.len() == 0) {
            None
        } else {
            Some(
                match lookup::first_index(keys, zero_key()) {
                    Some(i) => i as nat,
                    None => keys.len(),
                },
            )
        },
    }
}

pub open spec fn zero_key() -> spec_fn(Val) -> bool {
    |v: Val| v == Val::Integer(0)
}

fn count_wanted_keys(keys: &Vec<VmValue>, arguments: &Vec<VmValue>) -> (r: Option<usize>)
    ensures
        match r {
            Some(n) => wanted_keys(value::vals(keys@), value::vals(arguments@)) == Some(n as nat)
                && n <= keys@.len(),
            None => wanted_keys(value::vals(keys@), value::vals(arguments@)) is None,
        },
{
    let ghost all = value::vals(keys@);
    match arrays::integer_argument(arguments, 3) {
        Ok(n) => {
            if n == 0 {
                return None;
            }
            if n > 0 {
                if n as u64 >= keys.len() as u64 {
                    return Some(keys.len());
                }
                return Some(n as usize);
            }
        },
        Err(_) => {},
    }
    let mut i: usize = 0;
    while i < keys.len()
        invariant
            i <= keys.len(),
            all == value::vals(keys@),
            !(arrays::integer_at(value::vals(arguments@), 3) matches Ok(n) && n >= 0),
            forall|j: int|
                0 <= j < i ==> !((#[trigger] all[j]) matches Val::Text(t) && t.len() == 0),
        decreases keys.len() - i,
    {
        match &keys[i] {
            VmValue::String(t) => {
                if text::length(t.as_str()) == 0 {
                    assert(all[i as int] matches Val::Text(t) && t.len() == 0);
                    return None;
                }
            },
            _ => {},
        }
        i = i + 1;
    }
    let mut k: usize = 0;
    while k < keys.len()
        invariant
            k <= keys.len(),
            all == value::vals(keys@),
            forall|j: int|
                0 <= j < all.len() ==> !((#[trigger] all[j]) matches Val::Text(t) && t.len() == 0),
            forall|j: int| 0 <= j < k ==> !zero_key()(#[trigger] all[j]),
            !(arrays::integer_at(value::vals(arguments@), 3) matches Ok(n) && n >= 0),
        decreases keys.len() - k,
    {
        let stops: bool = match &keys[k] {
            VmValue::Integer(n) => *n == 0,
            _ => false,
        };
        if stops {
            proof {
                assert(zero_key()(all[k as int]));
                lookup::lemma_first_found(all, zero_key(), k as int);
            }
            return Some(k);
        }
        k = k + 1;
    }
    proof {
        lookup::lemma_first_none(all, zero_key());
    }
    Some(k)
}

/// The order that sorting asks for: rising, or the reverse of it.
pub open spec fn wanted_order(keys: Seq<Val>, n: nat, arguments: Seq<Val>) -> Seq<usize> {
    let order = sorted_order(keys, n);
    if arguments.len() > 2 && arguments[2] == Val::Integer(0) {
        order.reverse()
    } else {
        order
    }
}

/// The new values of the array with a name; nothing where it is too short.
pub open spec fn named_candidate(
    vm: VmModel,
    fiber: FiberModel,
    name: Seq<char>,
    order: Seq<usize>,
) -> Result<Option<Candidate>, Trouble> {
    match array_ops::array_argument(vm, fiber, Some(Val::Text(name)), "target"@, true) {
        Err(e) => Err(e),
        Ok(a) => match array_ops::snapshot(vm, fiber, a.place) {
            Err(e) => Err(e),
            Ok(values) => if a.dimensions[0] > usize::MAX {
                Err(Trouble::InvalidState("ARRAYMSORTEX dimension is too large"@))
            } else if a.dimensions[0] < order.len() {
                Ok(None)
            } else if a.dimensions[0] == 0 {
                Err(Trouble::InvalidState("ARRAYMSORTEX array has an invalid first dimension"@))
            } else {
                Ok(
                    Some(
                        (
                            a.place,
                            permuted(
                                values,
                                order,
                                (values.len() / a.dimensions[0] as nat) as int,
                            ),
                        ),
                    ),
                )
            },
        },
    }
}

/// The new values of the arrays whose names stand before the first empty name.
pub open spec fn named_candidates(
    vm: VmModel,
    fiber: FiberModel,
    names: Seq<Val>,
    order: Seq<usize>,
) -> Result<Option<Seq<Candidate>>, Trouble>
    decreases names.len(),
{
    if names.len() == 0 {
        Ok(Some(Seq::empty()))
    } else {
        match names[0] {
            Val::Text(name) => if name.len() == 0 {
                Ok(Some(Seq::empty()))
            } else {
                match named_candidate(vm, fiber, name, order) {
                    Err(e) => Err(e),
                    Ok(None) => Ok(None),
                    Ok(Some(c)) => with_front(
                        seq![c],
                        named_candidates(vm, fiber, names.skip(1), order),
                    ),
                }
            },
            _ => Err(
                Trouble::InvalidArguments(
                    "ARRAYMSORTEX variable-name array must contain strings"@,
                ),
            ),
        }
    }
}

/// Candidates with others in front of them.
pub open spec fn with_front(
    front: Seq<Candidate>,
    rest: Result<Option<Seq<Candidate>>, Trouble>,
) -> Result<Option<Seq<Candidate>>, Trouble> {
    match rest {
        Ok(Some(s)) => Ok(Some(front + s)),
        other => other,
    }
}

/// What sorting arrays by name does.
pub open spec fn multi_sort_ex(vm: VmModel, fiber: FiberModel, arguments: Seq<Val>) -> (
    VmModel,
    FiberModel,
    Result<Val, Trouble>,
) {
    if arguments.len() < 2 {
        (
            vm,
            fiber,
            Err(
                Trouble::InvalidArguments("ARRAYMSORTEX requires a key and variable-name array"@),
            ),
        )
    } else {
        match array_ops::array_argument(vm, fiber, Some(arguments[0]), "key"@, false) {
            Err(e) => (vm, fiber, Err(e)),
            Ok(key) => if key.dimensions.len() != 1 {
                (
                    vm,
                    fiber,
                    Err(Trouble::InvalidArguments("ARRAYMSORTEX key must be one-dimensional"@)),
                )
            } else {
                match array_ops::snapshot(vm, fiber, key.place) {
                    Err(e) => (vm, fiber, Err(e)),
                    Ok(keys) => match arrays::place_at(arguments, 1) {
                        Err(e) => (vm, fiber, Err(e)),
                        Ok(names_place) => match arrays::place_values(vm, fiber, names_place) {
                            Err(e) => (vm, fiber, Err(e)),
                            Ok(names) => match wanted_keys(keys, arguments) {
                                None => (vm, fiber, Ok(Val::Integer(0))),
                                Some(n) => sort_commit(
                                    vm,
                                    fiber,
                                    named_candidates(
                                        vm,
                                        fiber,
                                        names,
                                        wanted_order(keys, n, arguments),
                                    ),
                                ),
                            },
                        },
                    },
                }
            },
        }
    }
}

fn make_named_candidate(vm: &Vm, fiber: &Fiber, name: &VmValue, order: &Vec<usize>) -> (r: Result<
    Option<NewArray>,
    VmError,
>)
    requires
        fiber@.frames.len() > 0,
        name@ is Text,
        forall|i: int| 0 <= i < order@.len() ==> #[trigger] order@[i] < order@.len(),
    ensures
        match r {
            Ok(Some(c)) => named_candidate(vm@, fiber@, name@->Text_0, order@) == Ok::<
                Option<Candidate>,
                Trouble,
            >(Some((c.place@, value::vals(c.values@)))),
            Ok(None) => named_candidate(vm@, fiber@, name@->Text_0, order@) == Ok::<
                Option<Candidate>,
                Trouble,
            >(None),
            Err(e) => named_candidate(vm@, fiber@, name@->Text_0, order@) == Err::<
                Option<Candidate>,
                Trouble,
            >(e@),
        },
{
    let a = match array_ops::array_copy_place(vm, fiber, Some(name), "target", true) {
        Ok(a) => a,
        Err(e) => {
            return Err(e);
        },
    };
    let values = match array_ops::array_snapshot_any_rank(vm, fiber, &a.place) {
        Ok(v) => v,
        Err(e) => {
            return Err(e);
        },
    };
    let first: u64 = a.dimensions[0];
    if first > usize::MAX as u64 {
        return Err(VmError::invalid_state("ARRAYMSORTEX dimension is too large"));
    }
    if (first as usize) < order.len() {
        return Ok(None);
    }
    if first == 0 {
        return Err(
            VmError::invalid_state("ARRAYMSORTEX array has an invalid first dimension"),
        );
    }
    Ok(Some(NewArray { values: permute(&values, order, first as usize), place: a.place }))
}

/// The positions the other way round.
pub fn reversed(order: &Vec<usize>) -> (r: Vec<usize>)
    ensures
        r@ == order@.reverse(),
{
    let mut out: Vec<usize> = Vec::new();
    let mut i: usize = order.len();
    while i > 0
        invariant
            i <= order.len(),
            out@.len() == order@.len() - i,
            forall|j: int| 0 <= j < out@.len() ==> #[trigger] out@[j] == order@.reverse()[j],
        decreases i,
    {
        i = i - 1;
        out.push(order[i]);
    }
    assert(out@ =~= order@.reverse());
    out
}

fn make_named_candidates(vm: &Vm, fiber: &Fiber, names: &Vec<VmValue>, order: &Vec<usize>) -> (r:
    Result<Option<Vec<NewArray>>, VmError>)
    requires
        fiber@.frames.len() > 0,
        forall|i: int| 0 <= i < order@.len() ==> #[trigger] order@[i] < order@.len(),
    ensures
        match r {
            Ok(Some(v)) => named_candidates(vm@, fiber@, value::vals(names@), order@) == Ok::<
                Option<Seq<Candidate>>,
                Trouble,
            >(Some(candidate_views(v@))),
            Ok(None) => named_candidates(vm@, fiber@, value::vals(names@), order@) == Ok::<
                Option<Seq<Candidate>>,
                Trouble,
            >(None),
            Err(e) => named_candidates(vm@, fiber@, value::vals(names@), order@) == Err::<
                Option<Seq<Candidate>>,
                Trouble,
            >(e@),
        },
{
    let ghost all = value::vals(names@);
    let ghost whole = named_candidates(vm@, fiber@, all, order@);
    let mut out: Vec<NewArray> = Vec::new();
    let mut i: usize = 0;
    proof {
        assert(candidate_views(out@) =~= Seq::<Candidate>::empty());
        assert(all.skip(0) =~= all);
        match whole {
            Ok(Some(s)) => {
                assert(Seq::<Candidate>::empty() + s =~= s);
            },
            _ => {},
        }
    }
    while i < names.len()
        invariant
            i <= names.len(),
            fiber@.frames.len() > 0,
            forall|j: int| 0 <= j < order@.len() ==> #[trigger] order@[j] < order@.len(),
            all == value::vals(names@),
            whole == named_candidates(vm@, fiber@, all, order@),
            whole == with_front(
                candidate_views(out@),
                named_candidates(vm@, fiber@, all.skip(i as int), order@),
            ),
        decreases names.len() - i,
    {
        let ghost front = candidate_views(out@);
        proof {
            assert(all.skip(i as int)[0] == all[i as int]);
            assert(all.skip(i as int).skip(1) =~= all.skip(i + 1));
        }
        match &names[i] {
            VmValue::String(t) => {
                if text::length(t.as_str()) == 0 {
                    assert(front + Seq::<Candidate>::empty() =~= front);
                    return Ok(Some(out));
                }
            },
            _ => {
                return Err(
                    VmError::invalid_arguments(
                        "ARRAYMSORTEX variable-name array must contain strings",
                    ),
                );
            },
        }
        match make_named_candidate(vm, fiber, &names[i], order) {
            Err(e) => {
                return Err(e);
            },
            Ok(None) => {
                return Ok(None);
            },
            Ok(Some(c)) => {
                let ghost before = out@;
                let ghost cv: Candidate = (c.place@, value::vals(c.values@));
                out.push(c);
                proof {
                    assert(candidate_views(out@) =~= front.push(cv));
                    match named_candidates(vm@, fiber@, all.skip(i + 1), order@) {
                        Ok(Some(s)) => {
                            assert(front + (seq![cv] + s) =~= front.push(cv) + s);
                        },
                        _ => {},
                    }
                }
            },
        }
        i = i + 1;
    }
    assert(candidate_views(out@) + Seq::<Candidate>::empty() =~= candidate_views(out@));
    Ok(Some(out))
}

/// Sorts the arrays whose names stand in an array, by the keys in another one.
pub fn execute_array_multi_sort_ex(vm: &mut Vm, fiber: &mut Fiber, arguments: &Vec<VmValue>) -> (r:
    Result<VmValue, VmError>)
    requires
        old(fiber)@.frames.len() > 0,
    ensures
        (final(vm)@, final(fiber)@, fault::result(r)) == multi_sort_ex(
            old(vm)@,
            old(fiber)@,
            value::vals(arguments@),
        ),
{
    if arguments.len() < 2 {
        return Err(
            VmError::invalid_arguments("ARRAYMSORTEX requires a key and variable-name array"),
        );
    }
    let key = match array_ops::array_copy_place(&*vm, &*fiber, Some(&arguments[0]), "key", false) {
        Ok(a) => a,
        Err(e) => {
            return Err(e);
        },
    };
    if key.dimensions.len() != 1 {
        return Err(VmError::invalid_arguments("ARRAYMSORTEX key must be one-dimensional"));
    }
    let keys = match array_ops::array_snapshot_any_rank(&*vm, &*fiber, &key.place) {
        Ok(v) => v,
        Err(e) => {
            return Err(e);
        },
    };
    let names_place = match arrays::array_place(arguments, 1) {
        Ok(p) => p,
        Err(e) => {
            return Err(e);
        },
    };
    let names = match vm.read_place_array(&*fiber, names_place) {
        Ok(v) => v,
        Err(e) => {
            return Err(e);
        },
    };
    let n: usize = match count_wanted_keys(&keys, arguments) {
        None => {
            return Ok(VmValue::Integer(0));
        },
        Some(n) => n,
    };
    let mut order = stable_order(&keys, n);
    let falling: bool = if arguments.len() > 2 {
        match &arguments[2] {
            VmValue::Integer(k) => *k == 0,
            _ => false,
        }
    } else {
        false
    };
    if falling {
        let ghost rising = order@;
        order = reversed(&order);
        assert forall|i: int| 0 <= i < order@.len() implies #[trigger] order@[i] < order@.len() by {
            assert(order@[i] == rising[rising.len() - 1 - i]);
        }
    }
    match make_named_candidates(&*vm, &*fiber, &names, &order) {
        Err(e) => Err(e),
        Ok(None) => Ok(VmValue::Integer(0)),
        Ok(Some(candidates)) => match commit_candidates(vm, fiber, &candidates) {
            Ok(_) => Ok(VmValue::Integer(1)),
            Err(e) => Err(e),
        },
    }
}

/// A sort moves whole rows: each sorted row is a row of the old array, and the rest stays.
pub proof fn law_sorted_rows_are_old_rows(values: Seq<Val>, order: Seq<usize>, w: int, i: int)
    requires
        w > 0,
        0 <= i < values.len(),
    ensures
        i / w >= order.len() ==> permuted(values, order, w)[i] == values[i],
        i / w < order.len() ==> permuted(values, order, w)[i] == values[order[i / w] * w + i % w],
        permuted(values, order, w).len() == values.len(),
{
}

} // verus!
