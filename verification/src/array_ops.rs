//! Copying and sorting of whole arrays.

use vstd::prelude::*;
use crate::arrays;
use crate::fault::{self, Trouble, VmError};
use crate::frames;
use crate::lookup;
use crate::memory::BytecodeStorage;
use crate::places;
use crate::program::{BytecodeGlobal, ProgramGeneration};
use crate::state::{self, Fiber, FiberModel, Vm, VmModel};
use crate::text;
use crate::value::{self, BytecodeType, Place, PlaceDescriptor, SymbolKey, Val, VmValue};

verus! {

/// Coordinates of a flat position in a row-major array.
pub open spec fn coordinates_of(dimensions: Seq<u64>, offset: nat) -> Seq<u64>
    decreases dimensions.len(),
{
    if dimensions.len() == 0 {
        Seq::empty()
    } else {
        let d = dimensions.last() as nat;
        coordinates_of(dimensions.drop_last(), offset / d).push((offset % d) as u64)
    }
}

/// Dimensions that have coordinates: none is empty and each fits the machine. The last dimension is
/// looked at first.
pub open spec fn dimensions_check(dimensions: Seq<u64>) -> Result<(), Trouble>
    decreases dimensions.len(),
{
    if dimensions.len() == 0 {
        Ok(())
    } else if dimensions.last() > usize::MAX {
        Err(Trouble::InvalidState("ARRAYCOPY dimension exceeds this platform"@))
    } else if dimensions.last() == 0 {
        Err(Trouble::InvalidState("ARRAYCOPY array has a zero-length dimension"@))
    } else {
        dimensions_check(dimensions.drop_last())
    }
}

fn check_dimensions(dimensions: &Vec<u64>) -> (r: Result<(), VmError>)
    ensures
        fault::result(r) == dimensions_check(dimensions@),
        r is Ok ==> forall|k: int|
            0 <= k < dimensions@.len() ==> 0 < #[trigger] dimensions@[k] <= usize::MAX,
{
    let mut k: usize = dimensions.len();
    assert(dimensions@.take(k as int) =~= dimensions@);
    while k > 0
        invariant
            k <= dimensions.len(),
            dimensions_check(dimensions@) == dimensions_check(dimensions@.take(k as int)),
            forall|j: int|
                k <= j < dimensions@.len() ==> 0 < #[trigger] dimensions@[j] <= usize::MAX,
        decreases k,
    {
        k = k - 1;
        let d: u64 = dimensions[k];
        assert(dimensions@.take(k + 1).drop_last() =~= dimensions@.take(k as int));
        assert(dimensions@.take(k + 1).last() == d);
        if d > usize::MAX as u64 {
            return Err(VmError::invalid_state("ARRAYCOPY dimension exceeds this platform"));
        }
        if d == 0 {
            return Err(VmError::invalid_state("ARRAYCOPY array has a zero-length dimension"));
        }
    }
    Ok(())
}

/// Computes the coordinates of a flat position.
pub fn array_coordinates(
    dimensions: &Vec<u64>,
    offset: usize,
    coordinates: &mut Vec<u64>,
) -> (r: Result<(), VmError>)
    requires
        old(coordinates)@.len() == dimensions@.len(),
    ensures
        fault::result(r) == dimensions_check(dimensions@),
        r is Ok ==> final(coordinates)@ == coordinates_of(dimensions@, offset as nat),
        r is Err ==> final(coordinates)@ == old(coordinates)@,
        final(coordinates)@.len() == old(coordinates)@.len(),
{
    match check_dimensions(dimensions) {
        Ok(_) => {},
        Err(e) => {
            return Err(e);
        },
    }
    let mut rest: usize = offset;
    let mut k: usize = dimensions.len();
    let ghost whole = coordinates_of(dimensions@, offset as nat);
    proof {
        assert(dimensions@.take(k as int) =~= dimensions@);
        assert(coordinates@.skip(k as int) =~= Seq::<u64>::empty());
        assert(coordinates_of(dimensions@, offset as nat) + coordinates@.skip(k as int) =~= whole);
    }
    while k > 0
        invariant
            k <= dimensions.len(),
            coordinates@.len() == dimensions@.len(),
            forall|j: int|
                0 <= j < dimensions@.len() ==> 0 < #[trigger] dimensions@[j] <= usize::MAX,
            whole == coordinates_of(dimensions@.take(k as int), rest as nat) + coordinates@.skip(
                k as int,
            ),
        decreases k,
    {
        k = k - 1;
        let d: usize = dimensions[k] as usize;
        let ghost before = coordinates@;
        proof {
            assert(dimensions@.take(k + 1).drop_last() =~= dimensions@.take(k as int));
            assert(dimensions@.take(k + 1).last() == dimensions@[k as int]);
        }
        let c: u64 = (rest % d) as u64;
        coordinates[k] = c;
        proof {
            let head = coordinates_of(dimensions@.take(k as int), (rest / d) as nat);
            assert(coordinates_of(dimensions@.take(k + 1), rest as nat) == head.push(c));
            assert(head.push(c) + before.skip(k + 1) =~= head + coordinates@.skip(k as int));
        }
        rest = rest / d;
    }
    proof {
        assert(dimensions@.take(0) =~= Seq::<u64>::empty());
        assert(coordinates@.skip(0) =~= coordinates@);
        assert(Seq::<u64>::empty() + coordinates@ =~= coordinates@);
    }
    Ok(())
}

/// Row-major offset over the first `n` dimensions.
pub open spec fn offset_over(dimensions: Seq<u64>, coordinates: Seq<u64>, n: nat) -> int
    decreases n,
{
    if n == 0 {
        0
    } else {
        offset_over(dimensions, coordinates, (n - 1) as nat) * dimensions[n - 1] + coordinates[n - 1]
    }
}

pub open spec fn shorter(a: nat, b: nat) -> nat {
    if a < b {
        a
    } else {
        b
    }
}

/// The flat position of coordinates, where all partial offsets fit the machine.
pub open spec fn offset_of(dimensions: Seq<u64>, coordinates: Seq<u64>) -> Result<int, Trouble> {
    let n = shorter(dimensions.len(), coordinates.len());
    if exists|k: nat| k <= n && #[trigger] offset_over(dimensions, coordinates, k) > u64::MAX {
        Err(Trouble::InvalidState("ARRAYCOPY array offset overflow"@))
    } else if offset_over(dimensions, coordinates, n) > usize::MAX {
        Err(Trouble::InvalidState("ARRAYCOPY array offset exceeds this platform"@))
    } else {
        Ok(offset_over(dimensions, coordinates, n))
    }
}

/// Computes the flat position of coordinates.
pub fn array_offset(dimensions: &Vec<u64>, coordinates: &Vec<u64>) -> (r: Result<usize, VmError>)
    ensures
        match r {
            Ok(o) => offset_of(dimensions@, coordinates@) == Ok::<int, Trouble>(o as int),
            Err(e) => offset_of(dimensions@, coordinates@) == Err::<int, Trouble>(e@),
        },
{
    let n: usize = if dimensions.len() < coordinates.len() {
        dimensions.len()
    } else {
        coordinates.len()
    };
    let mut offset: u64 = 0;
    let mut k: usize = 0;
    while k < n
        invariant
            k <= n,
            n == shorter(dimensions@.len(), coordinates@.len()),
            offset == offset_over(dimensions@, coordinates@, k as nat),
            forall|j: nat| j <= k ==> #[trigger] offset_over(dimensions@, coordinates@, j)
                <= u64::MAX,
        decreases n - k,
    {
        let d: u64 = dimensions[k];
        let c: u64 = coordinates[k];
        assert(0 <= (offset as int) * (d as int) && (offset as int) * (d as int) + c <= u128::MAX)
            by (nonlinear_arith)
            requires
                0 <= offset <= u64::MAX,
                0 <= d <= u64::MAX,
                0 <= c <= u64::MAX,
        ;
        let wide: u128 = (offset as u128) * (d as u128) + (c as u128);
        assert(wide == offset_over(dimensions@, coordinates@, (k + 1) as nat));
        if wide > u64::MAX as u128 {
            return Err(VmError::invalid_state("ARRAYCOPY array offset overflow"));
        }
        offset = wide as u64;
        k = k + 1;
    }
    if offset > usize::MAX as u64 {
        return Err(VmError::invalid_state("ARRAYCOPY array offset exceeds this platform"));
    }
    Ok(offset as usize)
}

/// Coordinates lie inside the first dimensions of an array.
pub open spec fn inside(coordinates: Seq<u64>, dimensions: Seq<u64>) -> bool {
    forall|k: int|
        0 <= k < shorter(coordinates.len(), dimensions.len()) ==> #[trigger] coordinates[k]
            < dimensions[k]
}

fn is_inside(coordinates: &Vec<u64>, dimensions: &Vec<u64>) -> (r: bool)
    ensures
        r == inside(coordinates@, dimensions@),
{
    let mut k: usize = 0;
    while k < coordinates.len() && k < dimensions.len()
        invariant
            k <= coordinates.len(),
            k <= dimensions.len(),
            forall|j: int| 0 <= j < k ==> #[trigger] coordinates@[j] < dimensions@[j],
        decreases coordinates.len() - k,
    {
        if coordinates[k] >= dimensions[k] {
            assert(!(coordinates@[k as int] < dimensions@[k as int]));
            return false;
        }
        k = k + 1;
    }
    true
}

/// What copying hands to one cell: its new value, or nothing where it lies outside the source.
pub open spec fn cell_copy(
    source: Seq<Val>,
    source_dimensions: Seq<u64>,
    destination_dimensions: Seq<u64>,
    at: nat,
) -> Result<Option<Val>, Trouble> {
    match dimensions_check(destination_dimensions) {
        Err(e) => Err(e),
        Ok(_) => {
            let c = coordinates_of(destination_dimensions, at);
            if !inside(c, source_dimensions) {
                Ok(None)
            } else {
                match offset_of(source_dimensions, c) {
                    Err(e) => Err(e),
                    Ok(o) => if o < source.len() {
                        Ok(Some(source[o]))
                    } else {
                        Err(
                            Trouble::InvalidState(
                                "ARRAYCOPY source storage has an invalid length"@,
                            ),
                        )
                    },
                }
            }
        },
    }
}

/// The destination after its first `n` cells were copied, up to the first that fails.
pub open spec fn copied(
    source: Seq<Val>,
    source_dimensions: Seq<u64>,
    destination: Seq<Val>,
    destination_dimensions: Seq<u64>,
    n: nat,
) -> (Seq<Val>, Result<(), Trouble>)
    decreases n,
{
    if n == 0 {
        (destination, Ok(()))
    } else {
        let before = copied(
            source,
            source_dimensions,
            destination,
            destination_dimensions,
            (n - 1) as nat,
        );
        match before.1 {
            Err(_) => before,
            Ok(_) => match cell_copy(
                source,
                source_dimensions,
                destination_dimensions,
                (n - 1) as nat,
            ) {
                Err(e) => (before.0, Err(e)),
                Ok(None) => before,
                Ok(Some(v)) => (before.0.update(n - 1, v), Ok(())),
            },
        }
    }
}

proof fn lemma_copied_stops(
    source: Seq<Val>,
    source_dimensions: Seq<u64>,
    destination: Seq<Val>,
    destination_dimensions: Seq<u64>,
    k: nat,
    n: nat,
)
    requires
        k <= n,
        copied(source, source_dimensions, destination, destination_dimensions, k).1 is Err,
    ensures
        copied(source, source_dimensions, destination, destination_dimensions, n) == copied(
            source,
            source_dimensions,
            destination,
            destination_dimensions,
            k,
        ),
    decreases n,
{
    if k < n {
        lemma_copied_stops(
            source,
            source_dimensions,
            destination,
            destination_dimensions,
            k,
            (n - 1) as nat,
        );
    }
}

/// Copies the part that two arrays of the same rank share; the rest of the destination stays.
pub fn copy_shared_array_extent(
    source: &Vec<VmValue>,
    source_dimensions: &Vec<u64>,
    destination: &mut Vec<VmValue>,
    destination_dimensions: &Vec<u64>,
) -> (r: Result<(), VmError>)
    ensures
        (value::vals(final(destination)@), fault::result(r)) == copied(
            value::vals(source@),
            source_dimensions@,
            value::vals(old(destination)@),
            destination_dimensions@,
            old(destination)@.len(),
        ),
{
    let n: usize = destination.len();
    let ghost start = value::vals(destination@);
    let mut coordinates: Vec<u64> = value::copy_indices(destination_dimensions);
    let mut i: usize = 0;
    while i < n
        invariant
            i <= n,
            n == destination@.len(),
            n == old(destination)@.len(),
            start == value::vals(old(destination)@),
            coordinates@.len() == destination_dimensions@.len(),
            copied(
                value::vals(source@),
                source_dimensions@,
                start,
                destination_dimensions@,
                i as nat,
            ) == (value::vals(destination@), Ok::<(), Trouble>(())),
        decreases n - i,
    {
        let ghost failing = copied(
            value::vals(source@),
            source_dimensions@,
            start,
            destination_dimensions@,
            (i + 1) as nat,
        );
        proof {
            if failing.1 is Err {
                lemma_copied_stops(
                    value::vals(source@),
                    source_dimensions@,
                    start,
                    destination_dimensions@,
                    (i + 1) as nat,
                    n as nat,
                );
            }
        }
        match array_coordinates(destination_dimensions, i, &mut coordinates) {
            Ok(_) => {},
            Err(e) => {
                return Err(e);
            },
        }
        if is_inside(&coordinates, source_dimensions) {
            let o: usize = match array_offset(source_dimensions, &coordinates) {
                Ok(o) => o,
                Err(e) => {
                    return Err(e);
                },
            };
            if o >= source.len() {
                return Err(
                    VmError::invalid_state("ARRAYCOPY source storage has an invalid length"),
                );
            }
            let ghost before = destination@;
            let v = source[o].clone();
            destination[i] = v;
            assert(value::vals(destination@) =~= value::vals(before).update(
                i as int,
                value::vals(source@)[o as int],
            ));
        }
        i = i + 1;
    }
    Ok(())
}

proof fn lemma_offset_over_prefix(dimensions: Seq<u64>, coordinates: Seq<u64>, n: nat)
    requires
        n < dimensions.len(),
        n < coordinates.len(),
    ensures
        offset_over(dimensions.drop_last(), coordinates.drop_last(), n) == offset_over(
            dimensions,
            coordinates,
            n,
        ),
    decreases n,
{
    if n > 0 {
        lemma_offset_over_prefix(dimensions, coordinates, (n - 1) as nat);
    }
}

/// Coordinates of a position inside an array lie inside its dimensions, and their offset is the
/// position.
pub proof fn law_coordinates_and_offset_are_inverse(dimensions: Seq<u64>, offset: nat)
    requires
        dimensions_check(dimensions) is Ok,
        offset < frames::extent(dimensions),
    ensures
        inside(coordinates_of(dimensions, offset), dimensions),
        coordinates_of(dimensions, offset).len() == dimensions.len(),
        offset_over(dimensions, coordinates_of(dimensions, offset), dimensions.len()) == offset,
    decreases dimensions.len(),
{
    if dimensions.len() > 0 {
        let d = dimensions.last() as nat;
        let rest = dimensions.drop_last();
        let q = offset / d;
        let m = offset % d;
        let e = frames::extent(rest);
        assert(offset == q * d + m && m < d && q < e) by (nonlinear_arith)
            requires
                d > 0,
                q == offset / d,
                m == offset % d,
                offset < e * d,
        ;
        law_coordinates_and_offset_are_inverse(rest, q);
        let c = coordinates_of(dimensions, offset);
        assert(c.drop_last() =~= coordinates_of(rest, q));
        lemma_offset_over_prefix(dimensions, c, rest.len());
        assert forall|k: int| 0 <= k < c.len() implies #[trigger] c[k] < dimensions[k] by {
            if k < rest.len() {
                assert(coordinates_of(rest, q)[k] < rest[k]);
            }
        }
    }
}

/// A copy that succeeds gives each cell inside the source its value and leaves every other cell.
pub proof fn law_copy_takes_the_shared_extent(
    source: Seq<Val>,
    source_dimensions: Seq<u64>,
    destination: Seq<Val>,
    destination_dimensions: Seq<u64>,
    n: nat,
    i: int,
)
    requires
        n <= destination.len(),
        0 <= i < destination.len(),
        copied(source, source_dimensions, destination, destination_dimensions, n).1 is Ok,
    ensures
        ({
            let after = copied(source, source_dimensions, destination, destination_dimensions, n).0;
            &&& after.len() == destination.len()
            &&& i < n ==> match cell_copy(
                source,
                source_dimensions,
                destination_dimensions,
                i as nat,
            ) {
                Ok(Some(v)) => after[i] == v,
                Ok(None) => after[i] == destination[i],
                Err(_) => false,
            }
            &&& i >= n ==> after[i] == destination[i]
        }),
    decreases n,
{
    if n > 0 {
        law_copy_takes_the_shared_extent(
            source,
            source_dimensions,
            destination,
            destination_dimensions,
            (n - 1) as nat,
            i,
        );
    }
}

/// Copying an array onto one of the same shape makes them equal.
pub proof fn law_copy_of_equal_shapes_is_identity(
    source: Seq<Val>,
    destination: Seq<Val>,
    dimensions: Seq<u64>,
)
    requires
        dimensions_check(dimensions) is Ok,
        frames::extent(dimensions) <= usize::MAX,
        source.len() == frames::extent(dimensions),
        destination.len() == frames::extent(dimensions),
    ensures
        copied(source, dimensions, destination, dimensions, destination.len()).0 == source,
        copied(source, dimensions, destination, dimensions, destination.len()).1 is Ok,
{
    lemma_identity_prefix(source, destination, dimensions, destination.len());
    let after = copied(source, dimensions, destination, dimensions, destination.len()).0;
    assert(after =~= source);
}

proof fn lemma_offset_over_bounded(dimensions: Seq<u64>, coordinates: Seq<u64>, k: nat, n: nat)
    requires
        k <= n <= dimensions.len(),
        coordinates.len() == dimensions.len(),
        forall|j: int| 0 <= j < dimensions.len() ==> #[trigger] coordinates[j] < dimensions[j],
    ensures
        0 <= offset_over(dimensions, coordinates, k) <= offset_over(dimensions, coordinates, n),
    decreases n,
{
    if n > 0 {
        if k < n {
            lemma_offset_over_bounded(dimensions, coordinates, k, (n - 1) as nat);
        } else {
            lemma_offset_over_bounded(dimensions, coordinates, (k - 1) as nat, (n - 1) as nat);
        }
        let h = offset_over(dimensions, coordinates, (n - 1) as nat);
        let d = dimensions[n - 1] as int;
        let c = coordinates[n - 1] as int;
        assert(c < d);
        assert(h * d + c >= h && h * d + c >= 0) by (nonlinear_arith)
            requires
                h >= 0,
                d >= 1,
                c >= 0,
        ;
    }
}

proof fn lemma_identity_prefix(
    source: Seq<Val>,
    destination: Seq<Val>,
    dimensions: Seq<u64>,
    n: nat,
)
    requires
        dimensions_check(dimensions) is Ok,
        frames::extent(dimensions) <= usize::MAX,
        source.len() == frames::extent(dimensions),
        destination.len() == frames::extent(dimensions),
        n <= destination.len(),
    ensures
        ({
            let step = copied(source, dimensions, destination, dimensions, n);
            &&& step.1 is Ok
            &&& step.0.len() == destination.len()
            &&& forall|i: int| 0 <= i < n ==> #[trigger] step.0[i] == source[i]
        }),
    decreases n,
{
    if n > 0 {
        lemma_identity_prefix(source, destination, dimensions, (n - 1) as nat);
        let at = (n - 1) as nat;
        law_coordinates_and_offset_are_inverse(dimensions, at);
        let c = coordinates_of(dimensions, at);
        assert forall|k: nat| k <= dimensions.len() implies #[trigger] offset_over(dimensions, c, k)
            <= u64::MAX by {
            lemma_offset_over_bounded(dimensions, c, k, dimensions.len());
        }
    }
}

/// A variable of a function, stored in a given way, with a name.
pub open spec fn owned_named(function: SymbolKey, storage: BytecodeStorage, name: Seq<char>) -> spec_fn(
    BytecodeGlobal,
) -> bool {
    |g: BytecodeGlobal|
        frames::owned(g, function, storage) && text::same_ignoring_case(g.name@, name)
}

/// The array that a name means inside a function: a local one, else a static one, else one of the
/// whole program.
pub open spec fn array_named(program: ProgramGeneration, function: SymbolKey, name: Seq<char>) -> Option<
    BytecodeGlobal,
> {
    match lookup::first_index(
        program.globals@,
        owned_named(function, BytecodeStorage::FunctionLocal, name),
    ) {
        Some(i) => Some(program.globals@[i]),
        None => match lookup::first_index(
            program.globals@,
            owned_named(function, BytecodeStorage::FunctionStatic, name),
        ) {
            Some(i) => Some(program.globals@[i]),
            None => match program.spec_global_by_name(name) {
                Some(g) => Some(*g),
                None => None,
            },
        },
    }
}

fn find_owned<'a>(
    program: &'a ProgramGeneration,
    function: SymbolKey,
    storage: BytecodeStorage,
    name: &str,
) -> (r: Option<&'a BytecodeGlobal>)
    ensures
        match r {
            Some(g) => lookup::first_index(
                program.globals@,
                owned_named(function, storage, name@),
            ) matches Some(i) && *g == program.globals@[i],
            None => lookup::first_index(
                program.globals@,
                owned_named(function, storage, name@),
            ) is None,
        },
{
    let mut i: usize = 0;
    while i < program.globals.len()
        invariant
            i <= program.globals.len(),
            forall|j: int|
                0 <= j < i ==> !owned_named(function, storage, name@)(
                    #[trigger] program.globals@[j],
                ),
        decreases program.globals.len() - i,
    {
        let g = &program.globals[i];
        let own: bool = match g.owner {
            Some(owner) => owner == function && g.storage == storage,
            None => false,
        };
        if own && text::eq_ignore_ascii_case(g.name.as_str(), name) {
            proof {
                lookup::lemma_first_found(
                    program.globals@,
                    owned_named(function, storage, name@),
                    i as int,
                );
            }
            return Some(g);
        }
        i = i + 1;
    }
    None
}

fn find_array<'a>(program: &'a ProgramGeneration, function: SymbolKey, name: &str) -> (r: Option<
    &'a BytecodeGlobal,
>)
    ensures
        match r {
            Some(g) => array_named(*program, function, name@) == Some(*g),
            None => array_named(*program, function, name@) is None,
        },
{
    match find_owned(program, function, BytecodeStorage::FunctionLocal, name) {
        Some(g) => Some(g),
        None => match find_owned(program, function, BytecodeStorage::FunctionStatic, name) {
            Some(g) => Some(g),
            None => program.global_by_name(name),
        },
    }
}

/// A text in quotes, as `std::fmt::Debug` writes it.
pub uninterp spec fn quoted_text(t: Seq<char>) -> Seq<char>;

/// Calls `std::fmt::Debug` for `str` through `format!`: the text in quotes, with escapes.
#[verifier::external_body]
fn quoted(t: &str) -> (r: String)
    ensures
        r@ == quoted_text(t@),
{
    format!("{:?}", t)
}

/// An array with its type and its dimensions.
#[verifier::ext_equal]
pub struct ArrayModel {
    pub place: Place,
    pub value_type: BytecodeType,
    pub dimensions: Seq<u64>,
}

/// An array in an argument position.
pub struct ArrayArgument {
    pub place: PlaceDescriptor,
    pub value_type: BytecodeType,
    pub dimensions: Vec<u64>,
}

impl View for ArrayArgument {
    type V = ArrayModel;

    open spec fn view(&self) -> ArrayModel {
        ArrayModel {
            place: self.place@,
            value_type: self.value_type,
            dimensions: self.dimensions@,
        }
    }
}

/// The place and type that an array argument names.
pub open spec fn argument_place(
    program: ProgramGeneration,
    fiber: FiberModel,
    argument: Option<Val>,
    role: Seq<char>,
) -> Result<(Place, BytecodeType), Trouble> {
    match argument {
        Some(Val::IntegerPlace(p)) => Ok((p, BytecodeType::Integer)),
        Some(Val::StringPlace(p)) => Ok((p, BytecodeType::String)),
        Some(Val::Text(name)) => match array_named(program, fiber.top().function, name) {
            None => Err(
                Trouble::InvalidArguments(
                    "ARRAYCOPY "@ + role + " variable "@ + quoted_text(name) + " does not exist"@,
                ),
            ),
            Some(g) => Ok(
                (
                    Place {
                        variable: g.key,
                        fiber: Some(fiber.id),
                        frame: crate::fastpaths::own_frame(g, fiber.top().id),
                        ..state::nowhere()
                    },
                    g.value_type,
                ),
            ),
        },
        _ => Err(
            Trouble::InvalidArguments(
                "ARRAYCOPY "@ + role + " must be an array place or variable-name string"@,
            ),
        ),
    }
}

/// The array that an argument names, where it may be used in a role.
pub open spec fn array_argument(
    vm: VmModel,
    fiber: FiberModel,
    argument: Option<Val>,
    role: Seq<char>,
    destination: bool,
) -> Result<ArrayModel, Trouble> {
    match vm.program(fiber.top().generation) {
        None => Err(Trouble::InvalidState("ARRAYCOPY generation is missing"@)),
        Some(program) => match argument_place(program, fiber, argument, role) {
            Err(e) => Err(e),
            Ok((place, value_type)) => match program.spec_global(place.variable) {
                None => Err(Trouble::InvalidState("ARRAYCOPY variable is missing"@)),
                Some(g) => if g.storage is Character {
                    Err(
                        Trouble::InvalidArguments(
                            "ARRAYCOPY "@ + role + " cannot be a character variable"@,
                        ),
                    )
                } else if destination && !g.mutable {
                    Err(Trouble::InvalidArguments("ARRAYCOPY destination is read-only"@))
                } else if !(1 <= g.dimensions@.len() <= 3) || place.indices.len() > 0 {
                    Err(
                        Trouble::InvalidArguments(
                            "ARRAYCOPY "@ + role
                                + " must be an unindexed one to three dimensional array"@,
                        ),
                    )
                } else {
                    Ok(ArrayModel { place, value_type, dimensions: g.dimensions@ })
                },
            },
        },
    }
}

pub open spec fn argument_at(arguments: Seq<Val>, index: int) -> Option<Val> {
    if index < arguments.len() {
        Some(arguments[index])
    } else {
        None
    }
}

pub open spec fn optional_view(argument: Option<&VmValue>) -> Option<Val> {
    match argument {
        Some(v) => Some(v@),
        None => None,
    }
}

/// Finds the array that an argument names.
pub fn array_copy_place(
    vm: &Vm,
    fiber: &Fiber,
    argument: Option<&VmValue>,
    role: &str,
    destination: bool,
) -> (r: Result<ArrayArgument, VmError>)
    requires
        fiber@.frames.len() > 0,
    ensures
        fault::result(r) == array_argument(
            vm@,
            fiber@,
            optional_view(argument),
            role@,
            destination,
        ),
{
    let program = match vm.program(fiber.top().generation) {
        None => {
            return Err(VmError::invalid_state("ARRAYCOPY generation is missing"));
        },
        Some(p) => p,
    };
    let start = text::join2("ARRAYCOPY ", role);
    let (place, value_type) = match argument {
        Some(VmValue::IntegerPlace(p)) => ((**p).clone(), BytecodeType::Integer),
        Some(VmValue::StringPlace(p)) => ((**p).clone(), BytecodeType::String),
        Some(VmValue::String(name)) => match find_array(
            &*program,
            fiber.top().function,
            name.as_str(),
        ) {
            None => {
                let middle = text::join3(
                    start.as_str(),
                    " variable ",
                    quoted(name.as_str()).as_str(),
                );
                return Err(
                    VmError::InvalidArguments(text::join2(middle.as_str(), " does not exist")),
                );
            },
            Some(g) => {
                let mut place = PlaceDescriptor::of_variable(g.key);
                place.fiber = Some(fiber.id);
                if g.storage == BytecodeStorage::FunctionLocal {
                    place.frame = Some(fiber.top().id);
                }
                (place, g.value_type)
            },
        },
        _ => {
            return Err(
                VmError::InvalidArguments(
                    text::join2(
                        start.as_str(),
                        " must be an array place or variable-name string",
                    ),
                ),
            );
        },
    };
    let g = match program.global(place.variable) {
        None => {
            return Err(VmError::invalid_state("ARRAYCOPY variable is missing"));
        },
        Some(g) => g,
    };
    if g.storage == BytecodeStorage::Character {
        return Err(
            VmError::InvalidArguments(
                text::join2(start.as_str(), " cannot be a character variable"),
            ),
        );
    }
    if destination && !g.mutable {
        return Err(VmError::invalid_arguments("ARRAYCOPY destination is read-only"));
    }
    if g.dimensions.len() < 1 || g.dimensions.len() > 3 || place.indices.len() > 0 {
        return Err(
            VmError::InvalidArguments(
                text::join2(
                    start.as_str(),
                    " must be an unindexed one to three dimensional array",
                ),
            ),
        );
    }
    Ok(ArrayArgument { place, value_type, dimensions: value::copy_indices(&g.dimensions) })
}

/// All values of an unindexed array of one to three dimensions.
pub open spec fn snapshot(vm: VmModel, fiber: FiberModel, place: Place) -> Result<
    Seq<Val>,
    Trouble,
> {
    if place.indices.len() > 0 {
        Err(Trouble::InvalidArguments("array place must be unindexed"@))
    } else {
        match vm.program(fiber.top().generation) {
            None => Err(Trouble::InvalidState("array variable is missing"@)),
            Some(program) => match program.spec_global(place.variable) {
                None => Err(Trouble::InvalidState("array variable is missing"@)),
                Some(g) => if 1 <= g.dimensions@.len() <= 3 {
                    arrays::place_values(vm, fiber, place)
                } else {
                    Err(
                        Trouble::InvalidArguments(
                            "ARRAYCOPY requires a one to three dimensional array"@,
                        ),
                    )
                },
            },
        }
    }
}

/// Mathematical content of a list of values or the reason it cannot be had.
pub open spec fn values_result(r: Result<Vec<VmValue>, VmError>) -> Result<Seq<Val>, Trouble> {
    match r {
        Ok(v) => Ok(value::vals(v@)),
        Err(e) => Err(e@),
    }
}

/// Reads all values of an unindexed array of one to three dimensions.
pub fn array_snapshot_any_rank(vm: &Vm, fiber: &Fiber, place: &PlaceDescriptor) -> (r: Result<
    Vec<VmValue>,
    VmError,
>)
    requires
        fiber@.frames.len() > 0,
    ensures
        values_result(r) == snapshot(vm@, fiber@, place@),
{
    if place.indices.len() > 0 {
        return Err(VmError::invalid_arguments("array place must be unindexed"));
    }
    match vm.program(fiber.top().generation) {
        None => Err(VmError::invalid_state("array variable is missing")),
        Some(program) => match program.global(place.variable) {
            None => Err(VmError::invalid_state("array variable is missing")),
            Some(g) => {
                if g.dimensions.len() < 1 || g.dimensions.len() > 3 {
                    return Err(
                        VmError::invalid_arguments(
                            "ARRAYCOPY requires a one to three dimensional array",
                        ),
                    );
                }
                vm.read_place_array(fiber, place)
            },
        },
    }
}

/// Replaces all values of an array.
pub fn commit_array_any_rank(
    vm: &mut Vm,
    fiber: &mut Fiber,
    place: &PlaceDescriptor,
    values: &Vec<VmValue>,
) -> (r: Result<(), VmError>)
    ensures
        ({
            let written = arrays::array_written(
                old(vm)@,
                old(fiber)@,
                place@,
                value::vals(values@),
            );
            &&& fault::result(r) == places::write_result(written)
            &&& (final(vm)@, final(fiber)@) == places::after_write(
                old(vm)@,
                old(fiber)@,
                written,
            )
        }),
{
    vm.write_place_array(fiber, place, values)
}

/// What copying one array argument to another does.
pub open spec fn array_copy(vm: VmModel, fiber: FiberModel, arguments: Seq<Val>) -> Result<
    (VmModel, FiberModel),
    Trouble,
> {
    match array_argument(vm, fiber, argument_at(arguments, 0), "source"@, false) {
        Err(e) => Err(e),
        Ok(source) => match array_argument(
            vm,
            fiber,
            argument_at(arguments, 1),
            "destination"@,
            true,
        ) {
            Err(e) => Err(e),
            Ok(destination) => if source.value_type != destination.value_type {
                Err(Trouble::InvalidArguments("ARRAYCOPY array types differ"@))
            } else if source.dimensions.len() != destination.dimensions.len() {
                Err(Trouble::InvalidArguments("ARRAYCOPY dimensions differ"@))
            } else {
                match (snapshot(vm, fiber, source.place), snapshot(vm, fiber, destination.place)) {
                    (Err(e), _) => Err(e),
                    (Ok(_), Err(e)) => Err(e),
                    (Ok(from), Ok(to)) => {
                        let done = copied(
                            from,
                            source.dimensions,
                            to,
                            destination.dimensions,
                            to.len(),
                        );
                        match done.1 {
                            Err(e) => Err(e),
                            Ok(_) => arrays::array_written(
                                vm,
                                fiber,
                                destination.place,
                                done.0,
                            ),
                        }
                    },
                }
            },
        },
    }
}

fn argument(arguments: &Vec<VmValue>, index: usize) -> (r: Option<&VmValue>)
    ensures
        optional_view(r) == argument_at(value::vals(arguments@), index as int),
{
    if index < arguments.len() {
        Some(&arguments[index])
    } else {
        None
    }
}

/// Copies one array argument to another.
pub fn execute_array_copy(vm: &mut Vm, fiber: &mut Fiber, arguments: &Vec<VmValue>) -> (r: Result<
    (),
    VmError,
>)
    requires
        old(fiber)@.frames.len() > 0,
    ensures
        ({
            let written = array_copy(old(vm)@, old(fiber)@, value::vals(arguments@));
            &&& fault::result(r) == places::write_result(written)
            &&& (final(vm)@, final(fiber)@) == places::after_write(
                old(vm)@,
                old(fiber)@,
                written,
            )
        }),
{
    let source = match array_copy_place(
        &*vm,
        &*fiber,
        argument(arguments, 0),
        "source",
        false,
    ) {
        Ok(a) => a,
        Err(e) => {
            return Err(e);
        },
    };
    let destination = match array_copy_place(
        &*vm,
        &*fiber,
        argument(arguments, 1),
        "destination",
        true,
    ) {
        Ok(a) => a,
        Err(e) => {
            return Err(e);
        },
    };
    if source.value_type != destination.value_type {
        return Err(VmError::invalid_arguments("ARRAYCOPY array types differ"));
    }
    if source.dimensions.len() != destination.dimensions.len() {
        return Err(VmError::invalid_arguments("ARRAYCOPY dimensions differ"));
    }
    let from = match array_snapshot_any_rank(&*vm, &*fiber, &source.place) {
        Ok(v) => v,
        Err(e) => {
            return Err(e);
        },
    };
    let mut to = match array_snapshot_any_rank(&*vm, &*fiber, &destination.place) {
        Ok(v) => v,
        Err(e) => {
            return Err(e);
        },
    };
    match copy_shared_array_extent(&from, &source.dimensions, &mut to, &destination.dimensions) {
        Ok(_) => {},
        Err(e) => {
            return Err(e);
        },
    }
    commit_array_any_rank(vm, fiber, &destination.place, &to)
}

} // verus!
