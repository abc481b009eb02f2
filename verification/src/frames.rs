//! New activations: their variables and arguments.

use vstd::prelude::*;
use crate::fault::{self, Trouble, VmError};
use crate::memory::{self, BytecodeStorage, Cell, CellData, CellMap, Cells, Data, VariableCell};
use crate::program::{
    BytecodeFunction, BytecodeGlobal, BytecodeParameter, CallCompatibility, ExcessArgumentPolicy,
    ProgramGeneration,
};
use crate::state::{Frame, FrameModel, LoopModel, Memory, PendingModel, Store};
use crate::value::{self, BytecodeType, FrameId, GenerationId, SymbolKey, Val, VmValue};

verus! {

/// Number of elements of an array.
pub open spec fn extent(dimensions: Seq<u64>) -> nat
    decreases dimensions.len(),
{
    if dimensions.len() == 0 {
        1
    } else {
        extent(dimensions.drop_last()) * (dimensions.last() as nat)
    }
}

/// The zero value of a type.
pub open spec fn zero_of(value_type: BytecodeType) -> Val {
    match value_type {
        BytecodeType::Integer | BytecodeType::IntegerPlace => Val::Integer(0),
        BytecodeType::String | BytecodeType::StringPlace => Val::Text(Seq::empty()),
    }
}

/// A variable as it is before anything was written to it.
pub open spec fn initial_cell(g: BytecodeGlobal) -> Cell {
    Cell {
        dimensions: g.dimensions@,
        data: match g.value_type {
            BytecodeType::Integer | BytecodeType::IntegerPlace => Data::Integers(
                Seq::new(extent(g.dimensions@), |i: int| 0i64),
            ),
            BytecodeType::String | BytecodeType::StringPlace => Data::Texts(
                Seq::new(extent(g.dimensions@), |i: int| Seq::<char>::empty()),
            ),
        },
    }
}

/// The arrays of a program fit the machine.
pub open spec fn arrays_fit(program: ProgramGeneration) -> bool {
    forall|i: int|
        0 <= i < program.globals@.len() ==> extent((#[trigger] program.globals@[i]).dimensions@)
            <= usize::MAX
}

proof fn lemma_extent_zero(dimensions: Seq<u64>, k: int)
    requires
        0 <= k < dimensions.len(),
        dimensions[k] == 0,
    ensures
        extent(dimensions) == 0,
    decreases dimensions.len(),
{
    if k < dimensions.len() - 1 {
        lemma_extent_zero(dimensions.drop_last(), k);
        assert(0 * (dimensions.last() as nat) == 0);
    } else {
        let h = extent(dimensions.drop_last());
        assert(h * 0 == 0) by (nonlinear_arith);
    }
}

proof fn lemma_extent_prefix(dimensions: Seq<u64>, k: int)
    requires
        0 <= k <= dimensions.len(),
        forall|j: int| k <= j < dimensions.len() ==> #[trigger] dimensions[j] >= 1,
    ensures
        extent(dimensions.take(k)) <= extent(dimensions),
    decreases dimensions.len() - k,
{
    if k == dimensions.len() {
        assert(dimensions.take(k) =~= dimensions);
    } else {
        lemma_extent_prefix(dimensions, k + 1);
        let t = dimensions.take(k + 1);
        assert(t.drop_last() =~= dimensions.take(k));
        let h = extent(dimensions.take(k));
        let d = dimensions[k] as nat;
        assert(h * d >= h) by (nonlinear_arith)
            requires
                d >= 1,
        ;
    }
}

/// Number of elements of an array that fits the machine.
fn element_count(dimensions: &Vec<u64>) -> (r: usize)
    requires
        extent(dimensions@) <= usize::MAX,
    ensures
        r == extent(dimensions@),
{
    let mut k: usize = 0;
    while k < dimensions.len()
        invariant
            k <= dimensions.len(),
            forall|j: int| 0 <= j < k ==> #[trigger] dimensions@[j] >= 1,
        decreases dimensions.len() - k,
    {
        if dimensions[k] == 0 {
            proof {
                lemma_extent_zero(dimensions@, k as int);
            }
            return 0;
        }
        k = k + 1;
    }
    let mut count: usize = 1;
    let mut i: usize = 0;
    assert(dimensions@.take(0) =~= Seq::<u64>::empty());
    while i < dimensions.len()
        invariant
            i <= dimensions.len(),
            extent(dimensions@) <= usize::MAX,
            forall|j: int| 0 <= j < dimensions@.len() ==> #[trigger] dimensions@[j] >= 1,
            count == extent(dimensions@.take(i as int)),
        decreases dimensions.len() - i,
    {
        let d: u64 = dimensions[i];
        proof {
            assert(dimensions@.take(i + 1).drop_last() =~= dimensions@.take(i as int));
            lemma_extent_prefix(dimensions@, i + 1);
            lemma_extent_prefix(dimensions@, i as int);
            let c = count as nat;
            assert(c * (d as nat) == extent(dimensions@.take(i + 1)));
            if c == 0 {
            } else {
                assert(c * (d as nat) >= (d as nat)) by (nonlinear_arith)
                    requires
                        c >= 1,
                ;
            }
        }
        if count == 0 {
            proof {
                assert(0 * (d as nat) == 0);
                lemma_zero_extent_stays(dimensions@, i as int);
            }
            return 0;
        }
        count = count * (d as usize);
        i = i + 1;
    }
    assert(dimensions@.take(i as int) =~= dimensions@);
    count
}

proof fn lemma_zero_extent_stays(dimensions: Seq<u64>, k: int)
    requires
        0 <= k <= dimensions.len(),
        extent(dimensions.take(k)) == 0,
    ensures
        extent(dimensions) == 0,
    decreases dimensions.len() - k,
{
    if k == dimensions.len() {
        assert(dimensions.take(k) =~= dimensions);
    } else {
        assert(dimensions.take(k + 1).drop_last() =~= dimensions.take(k));
        assert(0 * (dimensions[k] as nat) == 0);
        lemma_zero_extent_stays(dimensions, k + 1);
    }
}

/// Makes a variable as it is before anything was written to it.
pub fn new_cell(g: &BytecodeGlobal) -> (r: VariableCell)
    requires
        extent(g.dimensions@) <= usize::MAX,
    ensures
        r@ == initial_cell(*g),
{
    let n: usize = element_count(&g.dimensions);
    let dimensions = value::copy_indices(&g.dimensions);
    match g.value_type {
        BytecodeType::Integer | BytecodeType::IntegerPlace => {
            let mut v: Vec<i64> = Vec::new();
            let mut i: usize = 0;
            while i < n
                invariant
                    i <= n,
                    v@ == Seq::new(i as nat, |i: int| 0i64),
                decreases n - i,
            {
                v.push(0);
                i = i + 1;
                assert(v@ =~= Seq::new(i as nat, |i: int| 0i64));
            }
            VariableCell { dimensions, data: CellData::Integers(v) }
        },
        BytecodeType::String | BytecodeType::StringPlace => {
            let mut v: Vec<String> = Vec::new();
            let mut i: usize = 0;
            while i < n
                invariant
                    i <= n,
                    v@.len() == i,
                    forall|j: int| 0 <= j < i ==> (#[trigger] v@[j])@ == Seq::<char>::empty(),
                decreases n - i,
            {
                let empty = String::new();
                proof {
                    reveal_strlit("");
                    assert(empty@ =~= Seq::<char>::empty());
                }
                v.push(empty);
                i = i + 1;
            }
            assert(memory::texts(v@) =~= Seq::new(n as nat, |i: int| Seq::<char>::empty()));
            VariableCell { dimensions, data: CellData::Strings(v) }
        },
    }
}

/// A variable that belongs to a function and is stored in a given way.
pub open spec fn owned(g: BytecodeGlobal, function: SymbolKey, storage: BytecodeStorage) -> bool {
    g.owner == Some(function) && g.storage == storage
}

fn is_owned(g: &BytecodeGlobal, function: SymbolKey, storage: BytecodeStorage) -> (r: bool)
    ensures
        r == owned(*g, function, storage),
{
    match g.owner {
        Some(owner) => owner == function && g.storage == storage,
        None => false,
    }
}

/// The local variables of a new activation.
pub open spec fn local_cells(globals: Seq<BytecodeGlobal>, function: SymbolKey) -> Cells
    decreases globals.len(),
{
    if globals.len() == 0 {
        Seq::empty()
    } else {
        let rest = local_cells(globals.drop_last(), function);
        if owned(globals.last(), function, BytecodeStorage::FunctionLocal) {
            rest.push((globals.last().key, initial_cell(globals.last())))
        } else {
            rest
        }
    }
}

fn new_locals(program: &ProgramGeneration, function: SymbolKey) -> (r: CellMap)
    requires
        arrays_fit(*program),
    ensures
        r@ == local_cells(program.globals@, function),
{
    let mut out = CellMap::new();
    let mut i: usize = 0;
    assert(program.globals@.take(0) =~= Seq::<BytecodeGlobal>::empty());
    while i < program.globals.len()
        invariant
            i <= program.globals.len(),
            arrays_fit(*program),
            out@ == local_cells(program.globals@.take(i as int), function),
        decreases program.globals.len() - i,
    {
        let g = &program.globals[i];
        assert(program.globals@.take(i + 1).drop_last() =~= program.globals@.take(i as int));
        if is_owned(g, function, BytecodeStorage::FunctionLocal) {
            out.push(g.key, new_cell(g));
        }
        i = i + 1;
    }
    assert(program.globals@.take(i as int) =~= program.globals@);
    out
}

/// Static variables after those of a function were made sure of.
pub open spec fn with_statics(
    statics: Cells,
    globals: Seq<BytecodeGlobal>,
    function: SymbolKey,
) -> Cells
    decreases globals.len(),
{
    if globals.len() == 0 {
        statics
    } else {
        let rest = with_statics(statics, globals.drop_last(), function);
        let g = globals.last();
        if owned(g, function, BytecodeStorage::FunctionStatic) && memory::slot_of(
            rest,
            g.key,
        ) is None {
            rest.push((g.key, initial_cell(g)))
        } else {
            rest
        }
    }
}

impl Memory {
    /// Makes sure that the static variables of a function exist.
    pub fn ensure_function_statics(&mut self, program: &ProgramGeneration, function: SymbolKey)
        requires
            arrays_fit(*program),
        ensures
            final(self)@ == (Store {
                statics: with_statics(old(self)@.statics, program.globals@, function),
                ..old(self)@
            }),
    {
        let mut i: usize = 0;
        assert(program.globals@.take(0) =~= Seq::<BytecodeGlobal>::empty());
        while i < program.globals.len()
            invariant
                i <= program.globals.len(),
                arrays_fit(*program),
                self@ == (Store {
                    statics: with_statics(
                        old(self)@.statics,
                        program.globals@.take(i as int),
                        function,
                    ),
                    ..old(self)@
                }),
            decreases program.globals.len() - i,
        {
            let g = &program.globals[i];
            assert(program.globals@.take(i + 1).drop_last() =~= program.globals@.take(i as int));
            if is_owned(g, function, BytecodeStorage::FunctionStatic) {
                if self.statics.find(g.key).is_none() {
                    let cell = new_cell(g);
                    self.statics.push(g.key, cell);
                }
            }
            i = i + 1;
        }
        assert(program.globals@.take(i as int) =~= program.globals@);
    }
}

/// Variables after the arguments were stored in the formal parameters among them.
///
/// A parameter that is taken by reference, that stands elsewhere or whose type differs is left.
pub open spec fn bound(cells: Cells, parameters: Seq<BytecodeParameter>, arguments: Seq<Val>) -> Cells
    decreases parameters.len(),
{
    if parameters.len() == 0 {
        cells
    } else {
        let rest = bound(cells, parameters.drop_last(), arguments);
        let k = parameters.len() - 1;
        if k < arguments.len() && !parameters.last().by_reference {
            match memory::slot_of(rest, parameters.last().variable) {
                Some(i) => match rest[i].1.set(0, arguments[k]) {
                    Ok(cell) => memory::with_cell(rest, i, cell),
                    Err(_) => rest,
                },
                None => rest,
            }
        } else {
            rest
        }
    }
}

/// Stores arguments in the formal parameters among some variables.
fn bind_cells(cells: &mut CellMap, parameters: &Vec<BytecodeParameter>, arguments: &Vec<VmValue>)
    ensures
        final(cells)@ == bound(old(cells)@, parameters@, value::vals(arguments@)),
{
    let mut k: usize = 0;
    assert(parameters@.take(0) =~= Seq::<BytecodeParameter>::empty());
    while k < parameters.len()
        invariant
            k <= parameters.len(),
            cells@ == bound(old(cells)@, parameters@.take(k as int), value::vals(arguments@)),
        decreases parameters.len() - k,
    {
        assert(parameters@.take(k + 1).drop_last() =~= parameters@.take(k as int));
        if k < arguments.len() && !parameters[k].by_reference {
            match cells.find(parameters[k].variable) {
                Some(i) => {
                    let ghost before = cells.entries@;
                    let mut cell = cells.entries[i].cell.clone();
                    if cell.set(0, arguments[k].clone()).is_ok() {
                        cells.entries[i].cell = cell;
                        proof {
                            memory::lemma_entry_update(
                                before,
                                i as int,
                                cells.entries@[i as int],
                            );
                        }
                    }
                },
                None => {},
            }
        }
        k = k + 1;
    }
    assert(parameters@.take(k as int) =~= parameters@);
}

/// Variables after the arguments were stored in the formal parameters among them, up to the first
/// one that does not take its argument.
pub open spec fn persisted(
    cells: Cells,
    parameters: Seq<BytecodeParameter>,
    arguments: Seq<Val>,
) -> (Cells, Result<(), Trouble>)
    decreases parameters.len(),
{
    if parameters.len() == 0 {
        (cells, Ok(()))
    } else {
        let rest = persisted(cells, parameters.drop_last(), arguments);
        let k = parameters.len() - 1;
        if rest.1 is Ok && k < arguments.len() && !parameters.last().by_reference {
            match memory::slot_of(rest.0, parameters.last().variable) {
                Some(i) => match rest.0[i].1.set(0, arguments[k]) {
                    Ok(cell) => (memory::with_cell(rest.0, i, cell), Ok(())),
                    Err(m) => (rest.0, Err(Trouble::InvalidState(m))),
                },
                None => rest,
            }
        } else {
            rest
        }
    }
}

proof fn lemma_persisted_stops(
    cells: Cells,
    parameters: Seq<BytecodeParameter>,
    arguments: Seq<Val>,
    n: int,
)
    requires
        0 <= n <= parameters.len(),
        persisted(cells, parameters.take(n), arguments).1 is Err,
    ensures
        persisted(cells, parameters, arguments) == persisted(cells, parameters.take(n), arguments),
    decreases parameters.len() - n,
{
    if n == parameters.len() {
        assert(parameters.take(n) =~= parameters);
    } else {
        assert(parameters.take(n + 1).drop_last() =~= parameters.take(n));
        lemma_persisted_stops(cells, parameters, arguments, n + 1);
    }
}

impl Memory {
    /// Stores arguments in the formal parameters that are static variables. Those before one that
    /// does not take its argument stay stored.
    pub fn bind_persistent_arguments(
        &mut self,
        function: &BytecodeFunction,
        arguments: &Vec<VmValue>,
    ) -> (r: Result<(), VmError>)
        ensures
            ({
                let after = persisted(
                    old(self)@.statics,
                    function.parameters@,
                    value::vals(arguments@),
                );
                &&& final(self)@ == (Store { statics: after.0, ..old(self)@ })
                &&& fault::result(r) == after.1
            }),
    {
        let parameters = &function.parameters;
        let ghost start = self@;
        let mut k: usize = 0;
        assert(parameters@.take(0) =~= Seq::<BytecodeParameter>::empty());
        while k < parameters.len()
            invariant
                k <= parameters.len(),
                parameters@ == function.parameters@,
                start == old(self)@,
                self@ == (Store { statics: self@.statics, ..start }),
                persisted(start.statics, parameters@.take(k as int), value::vals(arguments@)) == (
                    self@.statics,
                    Ok::<(), Trouble>(()),
                ),
            decreases parameters.len() - k,
        {
            assert(parameters@.take(k + 1).drop_last() =~= parameters@.take(k as int));
            if k < arguments.len() && !parameters[k].by_reference {
                match self.statics.find(parameters[k].variable) {
                    Some(i) => {
                        let ghost before = self.statics.entries@;
                        let mut cell = self.statics.entries[i].cell.clone();
                        match cell.set(0, arguments[k].clone()) {
                            Ok(_) => {
                                self.statics.entries[i].cell = cell;
                                proof {
                                    memory::lemma_entry_update(
                                        before,
                                        i as int,
                                        self.statics.entries@[i as int],
                                    );
                                }
                            },
                            Err(m) => {
                                proof {
                                    lemma_persisted_stops(
                                        start.statics,
                                        parameters@,
                                        value::vals(arguments@),
                                        k + 1,
                                    );
                                }
                                return Err(VmError::InvalidState(m));
                            },
                        }
                    },
                    None => {},
                }
            }
            k = k + 1;
        }
        assert(parameters@.take(k as int) =~= parameters@);
        Ok(())
    }
}

/// A new activation.
pub open spec fn fresh_frame(
    id: FrameId,
    generation: GenerationId,
    program: ProgramGeneration,
    function: BytecodeFunction,
    arguments: Seq<Val>,
    returns_value: bool,
    event_context: bool,
) -> FrameModel {
    FrameModel {
        id,
        generation,
        function: function.key,
        instruction: 0,
        stack: Seq::empty(),
        locals: bound(
            local_cells(program.globals@, function.key),
            function.parameters@,
            arguments,
        ),
        arguments,
        for_loops: Seq::empty(),
        select_values: Seq::empty(),
        user_calls: Seq::empty(),
        existvar_checks: Seq::empty(),
        bit_calls: Seq::empty(),
        returns_value,
        event_context,
        event_dispatch: None,
        runtime_form: None,
    }
}

/// Makes a new activation.
pub fn make_frame(
    id: FrameId,
    generation: GenerationId,
    program: &ProgramGeneration,
    function: &BytecodeFunction,
    arguments: Vec<VmValue>,
    returns_value: bool,
    event_context: bool,
) -> (r: Frame)
    requires
        arrays_fit(*program),
    ensures
        r@ == fresh_frame(
            id,
            generation,
            *program,
            *function,
            value::vals(arguments@),
            returns_value,
            event_context,
        ),
{
    let mut locals = new_locals(program, function.key);
    bind_cells(&mut locals, &function.parameters, &arguments);
    let r = Frame {
        id,
        generation,
        function: function.key,
        instruction: 0,
        stack: Vec::new(),
        locals,
        arguments,
        for_loops: Vec::new(),
        select_values: Vec::new(),
        user_calls: Vec::new(),
        existvar_checks: Vec::new(),
        bit_calls: Vec::new(),
        returns_value,
        event_context,
        event_dispatch: None,
        runtime_form: None,
    };
    proof {
        assert(r@.stack =~= Seq::<Val>::empty());
        assert(r@.select_values =~= Seq::<Val>::empty());
        assert(r@.for_loops =~= Seq::<LoopModel>::empty());
        assert(r@.user_calls =~= Seq::<PendingModel>::empty());
    }
    r
}

/// An argument that a formal parameter takes.
pub open spec fn accepts(parameter: BytecodeParameter, argument: Val) -> bool {
    if parameter.by_reference {
        match parameter.value_type {
            BytecodeType::Integer | BytecodeType::IntegerPlace => argument is IntegerPlace,
            BytecodeType::String | BytecodeType::StringPlace => argument is StringPlace,
        }
    } else {
        argument.value_type() == parameter.value_type
    }
}

fn parameter_accepts(parameter: &BytecodeParameter, argument: &VmValue) -> (r: bool)
    ensures
        r == accepts(*parameter, argument@),
{
    if parameter.by_reference {
        match (parameter.value_type, argument) {
            (
                BytecodeType::Integer | BytecodeType::IntegerPlace,
                VmValue::IntegerPlace(_),
            ) => true,
            (BytecodeType::String | BytecodeType::StringPlace, VmValue::StringPlace(_)) => true,
            _ => false,
        }
    } else {
        argument.value_type() == parameter.value_type
    }
}

/// Arguments that match the formal parameters one for one.
pub open spec fn arguments_match(parameters: Seq<BytecodeParameter>, arguments: Seq<Val>) -> bool {
    &&& parameters.len() == arguments.len()
    &&& forall|i: int| 0 <= i < parameters.len() ==> accepts(#[trigger] parameters[i], arguments[i])
}

pub open spec fn argument_mismatch() -> Trouble {
    Trouble::InvalidArguments("call arguments do not match the formal parameters"@)
}

/// Checks arguments against the formal parameters.
pub fn validate_arguments(function: &BytecodeFunction, arguments: &Vec<VmValue>) -> (r: Result<
    (),
    VmError,
>)
    ensures
        match r {
            Ok(_) => arguments_match(function.parameters@, value::vals(arguments@)),
            Err(e) => !arguments_match(function.parameters@, value::vals(arguments@)) && e@
                == argument_mismatch(),
        },
{
    if function.parameters.len() != arguments.len() {
        return Err(
            VmError::invalid_arguments("call arguments do not match the formal parameters"),
        );
    }
    let mut i: usize = 0;
    while i < arguments.len()
        invariant
            i <= arguments.len(),
            function.parameters@.len() == arguments@.len(),
            forall|j: int|
                0 <= j < i ==> accepts(
                    #[trigger] function.parameters@[j],
                    value::vals(arguments@)[j],
                ),
        decreases arguments.len() - i,
    {
        if !parameter_accepts(&function.parameters[i], &arguments[i]) {
            assert(!accepts(function.parameters@[i as int], value::vals(arguments@)[i as int]));
            return Err(
                VmError::invalid_arguments("call arguments do not match the formal parameters"),
            );
        }
        i = i + 1;
    }
    Ok(())
}

/// What an omitted argument stands for, if it may be omitted.
pub open spec fn omitted_value(parameter: BytecodeParameter) -> Option<Val> {
    if parameter.by_reference {
        None
    } else {
        match parameter.default {
            Some(v) => Some(v@),
            None => Some(zero_of(parameter.value_type)),
        }
    }
}

/// Arguments completed with defaults: position `k` and those behind it.
pub open spec fn completed(parameters: Seq<BytecodeParameter>, arguments: Seq<Val>) -> Option<
    Seq<Val>,
>
    decreases parameters.len(),
{
    if parameters.len() == 0 {
        Some(Seq::empty())
    } else {
        let k = parameters.len() - 1;
        match completed(parameters.drop_last(), arguments) {
            None => None,
            Some(rest) => if k < arguments.len() {
                Some(rest.push(arguments[k]))
            } else {
                match omitted_value(parameters.last()) {
                    Some(v) => Some(rest.push(v)),
                    None => None,
                }
            },
        }
    }
}

/// The arguments that a dynamic call passes.
pub open spec fn prepared(
    function: BytecodeFunction,
    arguments: Seq<Val>,
    compatibility: CallCompatibility,
) -> Result<Seq<Val>, Trouble> {
    if arguments.len() > function.parameters@.len() && compatibility.excess_arguments is Reject {
        Err(Trouble::InvalidArguments("dynamic call has too many arguments"@))
    } else {
        match completed(function.parameters@, arguments) {
            None => Err(Trouble::InvalidArguments("reference argument is omitted"@)),
            Some(all) => if arguments_match(function.parameters@, all) {
                Ok(all)
            } else {
                Err(argument_mismatch())
            },
        }
    }
}

fn zero_value(value_type: BytecodeType) -> (r: VmValue)
    ensures
        r@ == zero_of(value_type),
{
    match value_type {
        BytecodeType::Integer | BytecodeType::IntegerPlace => VmValue::Integer(0),
        BytecodeType::String | BytecodeType::StringPlace => {
            let s = String::new();
            proof {
                reveal_strlit("");
                assert(s@ =~= Seq::<char>::empty());
            }
            VmValue::String(s)
        },
    }
}

/// Completes the arguments of a dynamic call.
pub fn prepare_dynamic_arguments(
    function: &BytecodeFunction,
    arguments: Vec<VmValue>,
    compatibility: CallCompatibility,
) -> (r: Result<Vec<VmValue>, VmError>)
    ensures
        match r {
            Ok(v) => prepared(*function, value::vals(arguments@), compatibility) == Ok::<
                Seq<Val>,
                Trouble,
            >(value::vals(v@)),
            Err(e) => prepared(*function, value::vals(arguments@), compatibility) == Err::<
                Seq<Val>,
                Trouble,
            >(e@),
        },
{
    if arguments.len() > function.parameters.len() && compatibility.excess_arguments
        == ExcessArgumentPolicy::Reject {
        return Err(VmError::invalid_arguments("dynamic call has too many arguments"));
    }
    let parameters = &function.parameters;
    let ghost given = value::vals(arguments@);
    let mut out: Vec<VmValue> = Vec::new();
    let mut k: usize = 0;
    proof {
        assert(parameters@.take(0) =~= Seq::<BytecodeParameter>::empty());
        assert(value::vals(out@) =~= Seq::<Val>::empty());
    }
    while k < parameters.len()
        invariant
            k <= parameters.len(),
            parameters@ == function.parameters@,
            given == value::vals(arguments@),
            completed(parameters@.take(k as int), given) == Some(value::vals(out@)),
            !(given.len() > function.parameters@.len() && compatibility.excess_arguments is Reject),
        decreases parameters.len() - k,
    {
        proof {
            assert(parameters@.take(k + 1).drop_last() =~= parameters@.take(k as int));
            assert(parameters@.take(k + 1).last() == parameters@[k as int]);
        }
        let ghost before = out@;
        if k < arguments.len() {
            out.push(arguments[k].clone());
        } else if parameters[k].by_reference {
            proof {
                lemma_incomplete(parameters@, given, k + 1);
                assert(parameters@ =~= parameters@.take(parameters@.len() as int));
            }
            return Err(VmError::invalid_arguments("reference argument is omitted"));
        } else {
            match &parameters[k].default {
                Some(v) => {
                    out.push((**v).clone());
                },
                None => {
                    out.push(zero_value(parameters[k].value_type));
                },
            }
        }
        proof {
            value::lemma_vals_push(before, out@.last());
            assert(out@ =~= before.push(out@.last()));
        }
        k = k + 1;
    }
    assert(parameters@.take(k as int) =~= parameters@);
    match validate_arguments(function, &out) {
        Ok(_) => Ok(out),
        Err(e) => Err(e),
    }
}

proof fn lemma_incomplete(parameters: Seq<BytecodeParameter>, arguments: Seq<Val>, k: int)
    requires
        0 <= k <= parameters.len(),
        completed(parameters.take(k), arguments) is None,
    ensures
        completed(parameters, arguments) is None,
    decreases parameters.len() - k,
{
    if k == parameters.len() {
        assert(parameters.take(k) =~= parameters);
    } else {
        assert(parameters.take(k + 1).drop_last() =~= parameters.take(k));
        lemma_incomplete(parameters, arguments, k + 1);
    }
}

} // verus!
