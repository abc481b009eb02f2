//! What services, remembered calls and reports come to.

use vstd::prelude::*;
use crate::array_ops;
use crate::ast::{Tree, TreeKind};
use crate::call_laws;
use crate::calls::{self, CallMemo, CallModel, NativeFacts, ReplyModel};
use crate::diagnostics;
use crate::extended_ops::{self, Captures};
use crate::fault::{Failure, Trouble, VmFaultCode};
use crate::faults::{self, OriginModel};
use crate::flow_laws;
use crate::form_resources;
use crate::forms::{Form, MAX_RUNTIME_FORM_BYTES, MAX_RUNTIME_FORM_NESTING};
use crate::frames;
use crate::lookup;
use crate::memo::{self, FunctionMemoEntry};
use crate::memory::{self, BytecodeStorage, Cell, Cells};
use crate::places;
use crate::program::{
    self, BytecodeGlobal, BytecodeParameter, Opcode, ProgramGeneration, RuntimeImport,
};
use crate::services;
use crate::sorting;
use crate::state::{
    At, CompatibilityWarning, ExecutionPolicy, FiberModel, Outcome, StateModel, VmModel,
};
use crate::value::{BytecodeType, FrameId, GenerationId, Place, SymbolKey, Val};

verus! {

/// A reply is taken where its value has the declared type: the value lies on top of what was on the
/// stack, and where nothing is to be written nothing else changes.
pub proof fn law_reply_is_taken(
    vm: VmModel,
    fiber: FiberModel,
    result: Option<BytecodeType>,
    value: Option<Val>,
    writes: Seq<(Place, Val)>,
    code: VmFaultCode,
)
    requires
        0 < fiber.frames.len() <= usize::MAX,
    ensures
        ({
            let (vm1, after, r) = services::taken(vm, fiber, result, value, writes, code);
            &&& r is Ok ==> r == Ok::<Outcome, Failure>(Outcome::Continue) && match value {
                Some(v) => result == Some(v.value_type()) && after.frames.last().stack
                    == fiber.frames.last().stack.push(v),
                None => result is None && after.frames.last().stack == fiber.frames.last().stack,
            }
            &&& r is Ok && writes.len() == 0 ==> vm1 == vm && after.frames.drop_last()
                == fiber.frames.drop_last()
            &&& writes.len() == 0 && services::type_of(value) == result ==> r is Ok
            &&& services::type_of(value) != result ==> vm1 == vm && after == fiber && (
            r matches Err(e) && e.code == code)
        }),
{
    extended_ops::lemma_done_keeps_frames(vm, fiber, writes);
    let after = services::taken(vm, fiber, result, value, writes, code).1;
    if writes.len() == 0 {
        assert(after.frames.drop_last() =~= fiber.frames.drop_last());
    }
}

/// What a reply wrote last is read back from its place.
pub proof fn law_reply_is_written(
    vm: VmModel,
    fiber: FiberModel,
    result: Option<BytecodeType>,
    value: Option<Val>,
    writes: Seq<(Place, Val)>,
    code: VmFaultCode,
)
    requires
        0 < fiber.frames.len() <= usize::MAX,
        writes.len() > 0,
        ({
            let before = extended_ops::writes_done(vm, fiber, writes.drop_last());
            places::machine_sized(before.0, before.1)
        }),
        services::taken(vm, fiber, result, value, writes, code).2 is Ok,
    ensures
        ({
            let (vm1, after, _) = services::taken(vm, fiber, result, value, writes, code);
            places::read_place(vm1, after, writes.last().0) == Ok::<Val, Trouble>(writes.last().1)
        }),
{
    let before = extended_ops::writes_done(vm, fiber, writes.drop_last());
    let done = extended_ops::writes_done(vm, fiber, writes);
    extended_ops::lemma_done_keeps_frames(vm, fiber, writes);
    extended_ops::lemma_done_keeps_frames(vm, fiber, writes.drop_last());
    places::law_written_place_reads_back(before.0, before.1, writes.last().0, writes.last().1);
    let after = services::taken(vm, fiber, result, value, writes, code).1;
    flow_laws::lemma_same_reads(done.0, done.1, after, writes.last().0);
}

/// A call of the host asks for the service that its import names, with the top values of the stack
/// as arguments, the first one deepest; the values below stay.
pub proof fn law_host_call_is_asked_for(
    vm: VmModel,
    fiber: FiberModel,
    at: At,
    policy: ExecutionPolicy,
    memo: CallMemo,
    facts: NativeFacts,
    below: Seq<Val>,
    arguments: Seq<Val>,
    h: int,
)
    requires
        fiber.frames.len() > 0,
        vm.program(at.generation) matches Some(p) && p.spec_function(at.function) is Some,
        at.payload.len() >= 6,
        call_laws::two_bytes(at.payload, 4) == arguments.len(),
        fiber.frames.last().stack == below + arguments,
        ({
            let program = vm.program(at.generation)->Some_0;
            let imports = program.spec_function(at.function)->Some_0.imports@;
            let i = call_laws::four_bytes(at.payload, 0);
            &&& i < imports.len() && imports[i].kind is Host
            &&& 0 <= h < program.host_imports@.len()
            &&& program.host_imports@[h].import.key == imports[i].key
            &&& forall|j: int|
                0 <= j < h ==> (#[trigger] program.host_imports@[j]).import.key != imports[i].key
        }),
    ensures
        ({
            let import = vm.program(at.generation)->Some_0.host_imports@[h];
            let (vm1, after, r) = calls::called(
                vm,
                fiber,
                at,
                Opcode::CallHost,
                policy,
                memo,
                facts,
            );
            &&& vm1 == vm
            &&& after == fiber.with_stack(below)
            &&& r == Ok::<CallModel, Failure>(
                CallModel::Host {
                    import: *import.import,
                    may_suspend: import.may_suspend,
                    stable_wait: import.stable_wait,
                    arguments,
                    immediate: policy.allow_immediate_host,
                },
            )
        }),
{
    call_laws::law_operand_numbers(at.payload, 0);
    call_laws::law_operand_numbers(at.payload, 4);
    let program = vm.program(at.generation)->Some_0;
    let imports = program.spec_function(at.function)->Some_0.imports@;
    let key = imports[call_laws::four_bytes(at.payload, 0)].key;
    let p = faults::host_key(key);
    assert(p(program.host_imports@[h]));
    assert forall|j: int| 0 <= j < h implies !p(#[trigger] program.host_imports@[j]) by {}
    lookup::lemma_first_found(program.host_imports@, p, h);
    let stack = fiber.frames.last().stack;
    let n = stack.len() - arguments.len();
    assert(stack.take(n) =~= below);
    assert(stack.subrange(n, stack.len() as int) =~= arguments);
}

/// A service left a machine and a fiber, and its value lies on the stack.
pub open spec fn gives(
    vm: VmModel,
    fiber: FiberModel,
    value: Result<Val, Trouble>,
    vm1: VmModel,
    after: FiberModel,
) -> bool {
    value matches Ok(v) && vm1 == vm && after == fiber.with_stack(fiber.top().stack.push(v))
}

/// A service that the machine has itself gives its value, or none, on the stack without its
/// arguments.
pub proof fn law_own_services_answer(
    vm: VmModel,
    fiber: FiberModel,
    program: ProgramGeneration,
    key: SymbolKey,
    arguments: Seq<Val>,
    facts: NativeFacts,
    k: int,
)
    requires
        fiber.frames.len() > 0,
        0 <= k < program.native_imports@.len(),
        program.native_imports@[k].import.key == key,
        forall|j: int|
            0 <= j < k ==> (#[trigger] program.native_imports@[j]).import.key != key,
        calls::native_call(vm, fiber, program, key, arguments, facts).2 is Ok,
        calls::keeps_path(program.native_imports@[k].normalized_name@, facts),
    ensures
        ({
            let name = program.native_imports@[k].normalized_name@;
            let (vm1, after, r) = calls::native_call(vm, fiber, program, key, arguments, facts);
            let ended = r == Ok::<CallModel, Failure>(CallModel::Done(Outcome::Continue));
            &&& name == "arraycopy"@ ==> ended && (array_ops::array_copy(
                vm,
                fiber,
                arguments,
            ) matches Ok(w) && (vm1, after) == places::after_write(vm, fiber, Ok(w)))
            &&& name == "arraymsort"@ ==> ended && ({
                let sorted = sorting::multi_sort(vm, fiber, arguments);
                gives(sorted.0, sorted.1, sorted.2, vm1, after)
            })
            &&& name == "arraymsortex"@ ==> ended && ({
                let sorted = sorting::multi_sort_ex(vm, fiber, arguments);
                gives(sorted.0, sorted.1, sorted.2, vm1, after)
            })
        }),
{
    let p = faults::native_key(key);
    assert(p(program.native_imports@[k]));
    assert forall|j: int| 0 <= j < k implies !p(#[trigger] program.native_imports@[j]) by {}
    lookup::lemma_first_found(program.native_imports@, p, k);
    let name = program.native_imports@[k].normalized_name@;
    lemma_array_names(name);
    if name == "arraycopy"@ || name == "arraymsort"@ || name == "arraymsortex"@ {
        let service = services::service_named(name);
        let r = calls::own_service(vm, fiber, service, name, arguments);
        if let Ok(v) = r.2 {
            let import = program.native_imports@[k].import;
            assert(extended_ops::writes_done(r.0, r.1, Seq::empty()) == (
                r.0,
                r.1,
                Ok::<(), Trouble>(()),
            ));
        }
    }
}

proof fn lemma_array_names(name: Seq<char>)
    ensures
        name == "arraycopy"@ ==> services::service_named(name) is ArrayCopy,
        name == "arraymsort"@ ==> services::service_named(name) is ArrayMultiSort,
        name == "arraymsortex"@ ==> services::service_named(name) is ArrayMultiSortEx,
{
    reveal_strlit("arraycopy");
    reveal_strlit("arraymsort");
    reveal_strlit("arraymsortex");
    reveal_strlit("existmeth");
    reveal_strlit("strform");
    reveal_strlit("initrand");
    reveal_strlit("dumprand");
    reveal_strlit("__mutate_integer");
    reveal_strlit("swap");
    reveal_strlit("swapvar");
    reveal_strlit("setbit");
    reveal_strlit("clearbit");
    reveal_strlit("invertbit");
    reveal_strlit("split");
    reveal_strlit("getnum");
    reveal_strlit("erdname");
    reveal_strlit("__indexbyname");
    reveal_strlit("setvar");
    reveal_strlit("getvar");
    reveal_strlit("getvars");
    reveal_strlit("__encodetouni_result");
    reveal_strlit("strjoin");
    reveal_strlit("arrayremove");
    reveal_strlit("arrayshift");
    reveal_strlit("arraysort");
    reveal_strlit("varset");
    reveal_strlit("cvarset");
    assert("arraycopy"@.len() == 9 && "arraymsort"@.len() == 10 && "arraymsortex"@.len() == 12);
    assert("arraycopy"@[0] == 'a' && "arraymsort"@[0] == 'a');
    assert("existmeth"@[0] == 'e');
    assert("clearbit"@.len() == 8);
    assert("invertbit"@[0] == 'i');
    assert("arraycopy"@[5] == 'c' && "arraysort"@[5] == 's' && "arraysort"@.len() == 9);
    assert("arrayshift"@[5] == 's' && "arraymsort"@[5] == 'm' && "arrayshift"@.len() == 10);
    assert("arrayremove"@.len() == 11);
}

/// What the host says to a request: a value is taken like that of any service, an error is the
/// failure, and an answer that is put off leaves the fiber waiting for the request, for the result
/// that the import declares.
pub proof fn law_host_reply(
    vm: VmModel,
    fiber: FiberModel,
    id: u64,
    import: RuntimeImport,
    may_suspend: bool,
    stable_wait: bool,
    origin: OriginModel,
    reply: ReplyModel,
)
    requires
        0 < fiber.frames.len() <= usize::MAX,
    ensures
        ({
            let (vm1, after, r) = calls::host_end(
                vm,
                fiber,
                id,
                import,
                may_suspend,
                stable_wait,
                origin,
                reply,
            );
            let refused = reply matches ReplyModel::Pending { stability, .. } && (!may_suspend || (
            stability is StableInput && !stable_wait));
            &&& r is Ok && reply is Ready ==> r == Ok::<Outcome, Failure>(Outcome::Continue)
                && after.frames.last().stack == match reply->Ready_value {
                Some(v) => fiber.frames.last().stack.push(v),
                None => fiber.frames.last().stack,
            }
            &&& reply matches ReplyModel::Error(e) ==> r == Err::<Outcome, Failure>(e)
            &&& refused ==> vm1 == vm && after == fiber && (r matches Err(e) && e.code is Host)
            &&& (reply is Pending && !refused) || reply is Deferred ==> r == Ok::<
                Outcome,
                Failure,
            >(Outcome::Blocked) && vm1 == vm && after.frames == fiber.frames && after.id
                == fiber.id && (after.state matches StateModel::WaitingHost(w) && w.request == id
                && w.import == import && w.result == import.result && w.origin == origin)
            &&& reply matches ReplyModel::Pending { stability, rebind_payload } ==> (!refused ==> (
            after.state matches StateModel::WaitingHost(w) && w.stability == stability
                && w.rebind_payload == rebind_payload))
        }),
{
    if let ReplyModel::Ready { value, writes } = reply {
        law_reply_is_taken(vm, fiber, import.result, value, writes, VmFaultCode::Host);
    }
}

/// A call that is remembered is not made again: its writes are repeated, and its result lies on
/// the stack in place of its arguments.
pub proof fn law_remembered_call(
    vm: VmModel,
    fiber: FiberModel,
    at: At,
    program: ProgramGeneration,
    key: SymbolKey,
    arguments: Seq<Val>,
    id: FrameId,
    policy: ExecutionPolicy,
    memo: CallMemo,
    entry: FunctionMemoEntry,
)
    requires
        fiber.frames.len() > 0,
        policy.allow_function_memo,
        vm.path_memo_owner != Some(fiber.id),
        memo.function matches calls::FunctionLookup::Found(e) && e == entry,
        program.spec_function(key) matches Some(f) && f.code@.len() < policy.remaining_quantum
            && vm.program(at.generation) == Some(program) && memo::indexed_plan(program, f.key)
            is None,
        calls::function_call(vm, fiber, at, program, key, arguments, id, policy, memo).2 is Ok,
    ensures
        ({
            let (vm1, after, r) = calls::function_call(
                vm,
                fiber,
                at,
                program,
                key,
                arguments,
                id,
                policy,
                memo,
            );
            &&& r == Ok::<Outcome, Failure>(Outcome::Continue)
            &&& after.frames.len() == fiber.frames.len()
            &&& after.frames.last().stack == fiber.frames.last().stack.push(entry.result@)
            &&& after.frames.last().instruction == fiber.frames.last().instruction
        }),
{
    let f = program.spec_function(key)->Some_0;
    let bound = memo::bound_statics(vm, program, *f, arguments).0;
    assert(bound.program(at.generation) == vm.program(at.generation));
    extended_ops::lemma_done_keeps_frames(
        bound,
        fiber,
        extended_ops::writes_of(entry.effects@),
    );
}

/// A read by a remembered selector gives the cell of the target at the index that was passed and
/// the selector that was remembered; where there is no plan or an index is negative, nothing is
/// read and nothing changes.
pub proof fn law_indexed_read(
    vm: VmModel,
    fiber: FiberModel,
    generation: GenerationId,
    function: SymbolKey,
    arguments: Seq<Val>,
    entry: Option<FunctionMemoEntry>,
)
    ensures
        ({
            let (vm1, after, r) = memo::memoized_read(
                vm,
                fiber,
                generation,
                function,
                arguments,
                entry,
            );
            &&& r == Ok::<Option<Val>, Failure>(None) ==> vm1 == vm && after == fiber
            &&& r matches Ok(Some(v)) ==> exists|k: int, i: i64, s: i64|
                #![trigger reads_by(vm, generation, function, arguments, entry, k, i, s)]
                reads_by(vm, generation, function, arguments, entry, k, i, s) && ({
                    let program = vm.program(generation)->Some_0;
                    let target = program.spec_global(
                        program.indexed_reads@[k].target,
                    )->Some_0;
                    places::read_at(
                        vm1.store,
                        after.frames,
                        places::variable_address(*target, None, None),
                        seq![i as u64, s as u64],
                    ) == Ok::<Val, Trouble>(v)
                })
        }),
{
    let r = memo::memoized_read(vm, fiber, generation, function, arguments, entry).2;
    if let Ok(Some(v)) = r {
        let program = vm.program(generation)->Some_0;
        let p = memo::plan_of(function);
        lookup::lemma_first_index(program.indexed_reads@, p);
        let k = lookup::first_index(program.indexed_reads@, p)->Some_0;
        let plan = program.indexed_reads@[k];
        let i = arguments[plan.index_parameter as int]->Integer_0;
        let s = entry->Some_0.result@->Integer_0;
        assert(p(plan));
        assert(reads_by(vm, generation, function, arguments, entry, k, i, s));
    }
}

/// A plan of a function reads at an index among its arguments and at a remembered selector.
pub open spec fn reads_by(
    vm: VmModel,
    generation: GenerationId,
    function: SymbolKey,
    arguments: Seq<Val>,
    entry: Option<FunctionMemoEntry>,
    k: int,
    i: i64,
    s: i64,
) -> bool {
    vm.program(generation) matches Some(program) && {
        &&& 0 <= k < program.indexed_reads@.len()
        &&& program.indexed_reads@[k].function == function
        &&& arguments[program.indexed_reads@[k].index_parameter as int] == Val::Integer(i)
        &&& entry matches Some(e) && e.result@ == Val::Integer(s)
        &&& i >= 0 && s >= 0
    }
}

/// A report says where execution stands: the function by its key and name, the instruction, and
/// the first source position that is recorded for it.
pub proof fn law_origin(vm: VmModel, at: At, command: Seq<char>, program: ProgramGeneration, f: int)
    requires
        vm.program(at.generation) == Some(program),
        0 <= f < program.functions@.len(),
        program.functions@[f].key == at.function,
        forall|j: int| 0 <= j < f ==> (#[trigger] program.functions@[j]).key != at.function,
    ensures
        ({
            let origin = faults::origin_of(vm, at, command);
            &&& origin.generation == at.generation && origin.function == at.function
            &&& origin.function_name == program.functions@[f].name@
            &&& origin.command == command
            &&& at.instruction <= u32::MAX ==> origin.instruction == at.instruction
            &&& at.instruction > u32::MAX ==> origin.instruction == u32::MAX
            &&& origin.source is None ==> forall|s: int|
                0 <= s < program.source_map@.len() ==> !recorded(program, at, s)
            &&& origin.source matches Some(l) ==> exists|s: int| #[trigger]
                recorded(program, at, s) && program.source_map@[s].location == l && forall|j: int|
                    0 <= j < s ==> !recorded(program, at, j)
        }),
{
    let p = program::function_key(at.function);
    assert(p(program.functions@[f]));
    assert forall|j: int| 0 <= j < f implies !p(#[trigger] program.functions@[j]) by {}
    lookup::lemma_first_found(program.functions@, p, f);
    let q = faults::source_at(at.function, at.instruction);
    lookup::lemma_first_index(program.source_map@, q);
    match lookup::first_index(program.source_map@, q) {
        Some(s) => {
            assert(q(program.source_map@[s]));
            assert(recorded(program, at, s));
            assert forall|j: int| 0 <= j < s implies !recorded(program, at, j) by {
                assert(!q(program.source_map@[j]));
            }
        },
        None => {
            assert forall|s: int| 0 <= s < program.source_map@.len() implies !recorded(
                program,
                at,
                s,
            ) by {
                assert(!q(program.source_map@[s]));
            }
        },
    }
}

/// A source position is recorded for an instruction.
pub open spec fn recorded(program: ProgramGeneration, at: At, s: int) -> bool {
    &&& 0 <= s < program.source_map@.len()
    &&& program.source_map@[s].function == at.function
    &&& program.source_map@[s].instruction == at.instruction
}

/// Some variable of a kind is this one, as it is before anything was written to it.
pub open spec fn is_initial(
    cell: (SymbolKey, Cell),
    globals: Seq<BytecodeGlobal>,
    function: SymbolKey,
    storage: BytecodeStorage,
) -> bool {
    exists|g: int|
        0 <= g < globals.len() && #[trigger] belongs(globals[g], function, storage) && cell.0
            == globals[g].key && cell.1 == frames::initial_cell(globals[g])
}

/// There is a variable with a key among some.
pub open spec fn has_key(cells: Cells, key: SymbolKey) -> bool {
    exists|i: int| 0 <= i < cells.len() && (#[trigger] cells[i]).0 == key
}

/// A variable of a function that is kept in a certain way.
pub open spec fn belongs(g: BytecodeGlobal, function: SymbolKey, storage: BytecodeStorage) -> bool {
    g.owner == Some(function) && g.storage == storage
}

proof fn lemma_initial(
    cell: (SymbolKey, Cell),
    globals: Seq<BytecodeGlobal>,
    function: SymbolKey,
    storage: BytecodeStorage,
)
    requires
        globals.len() > 0,
        is_initial(cell, globals.drop_last(), function, storage),
    ensures
        is_initial(cell, globals, function, storage),
{
    let before = globals.drop_last();
    let g = choose|g: int|
        0 <= g < before.len() && #[trigger] belongs(before[g], function, storage) && cell.0
            == before[g].key && cell.1 == frames::initial_cell(before[g]);
    assert(belongs(globals[g], function, storage));
}

/// The variables of a new frame are those that each activation of the function has for itself, and
/// every one of them starts out with zeros or empty texts.
pub proof fn law_local_variables(globals: Seq<BytecodeGlobal>, function: SymbolKey)
    ensures
        ({
            let cells = frames::local_cells(globals, function);
            let local = BytecodeStorage::FunctionLocal;
            &&& forall|i: int|
                0 <= i < cells.len() ==> is_initial(#[trigger] cells[i], globals, function, local)
            &&& forall|g: int|
                0 <= g < globals.len() && #[trigger] belongs(globals[g], function, local)
                    ==> has_key(cells, globals[g].key)
        }),
    decreases globals.len(),
{
    let cells = frames::local_cells(globals, function);
    let local = BytecodeStorage::FunctionLocal;
    if globals.len() > 0 {
        let before = globals.drop_last();
        let rest = frames::local_cells(before, function);
        let n = globals.len() - 1;
        law_local_variables(before, function);
        assert forall|i: int| 0 <= i < cells.len() implies is_initial(
            #[trigger] cells[i],
            globals,
            function,
            local,
        ) by {
            if i < rest.len() {
                assert(cells[i] == rest[i]);
                lemma_initial(cells[i], globals, function, local);
            } else {
                assert(belongs(globals[n], function, local));
            }
        }
        assert forall|g: int|
            0 <= g < globals.len() && #[trigger] belongs(globals[g], function, local) implies has_key(
            cells,
            globals[g].key,
        ) by {
            if g < n {
                assert(belongs(before[g], function, local));
                let i = choose|i: int| 0 <= i < rest.len() && (#[trigger] rest[i]).0 == before[g].key;
                assert(cells[i] == rest[i]);
            } else {
                assert(cells[cells.len() - 1].0 == globals[g].key);
            }
        }
    }
}

proof fn lemma_bound_keys(cells: Cells, parameters: Seq<BytecodeParameter>, arguments: Seq<Val>)
    ensures
        ({
            let after = frames::bound(cells, parameters, arguments);
            after.len() == cells.len() && forall|j: int|
                0 <= j < cells.len() ==> (#[trigger] after[j]).0 == cells[j].0
        }),
    decreases parameters.len(),
{
    if parameters.len() > 0 {
        let before = parameters.drop_last();
        lemma_bound_keys(cells, before, arguments);
        let rest = frames::bound(cells, before, arguments);
        lookup::lemma_first_index(rest, memory::has_key(parameters.last().variable));
    }
}

proof fn lemma_bound_slots(
    cells: Cells,
    parameters: Seq<BytecodeParameter>,
    arguments: Seq<Val>,
    key: SymbolKey,
)
    ensures
        memory::slot_of(frames::bound(cells, parameters, arguments), key) == memory::slot_of(
            cells,
            key,
        ),
{
    lemma_bound_keys(cells, parameters, arguments);
    let after = frames::bound(cells, parameters, arguments);
    let p = memory::has_key(key);
    assert forall|j: int| 0 <= j < cells.len() implies p(#[trigger] after[j]) == p(cells[j]) by {}
    lookup::lemma_first_same(after, cells, p);
}

proof fn lemma_bound_others(
    cells: Cells,
    parameters: Seq<BytecodeParameter>,
    arguments: Seq<Val>,
    i: int,
)
    requires
        0 <= i < cells.len(),
        forall|k: int|
            0 <= k < parameters.len() ==> (#[trigger] parameters[k]).variable != cells[i].0,
    ensures
        frames::bound(cells, parameters, arguments)[i] == cells[i],
    decreases parameters.len(),
{
    if parameters.len() > 0 {
        let before = parameters.drop_last();
        assert forall|k: int| 0 <= k < before.len() implies (#[trigger] before[k]).variable
            != cells[i].0 by {
            assert(before[k] == parameters[k]);
        }
        lemma_bound_others(cells, before, arguments, i);
        lemma_bound_keys(cells, before, arguments);
        let rest = frames::bound(cells, before, arguments);
        let p = memory::has_key(parameters.last().variable);
        lookup::lemma_first_index(rest, p);
        assert(parameters.last() == parameters[parameters.len() - 1]);
    }
}

/// A parameter that takes a value holds its argument when the function starts, where no other
/// parameter is the same variable.
pub proof fn law_parameters_hold_arguments(
    cells: Cells,
    parameters: Seq<BytecodeParameter>,
    arguments: Seq<Val>,
    k: int,
    i: int,
)
    requires
        0 <= k < parameters.len(),
        k < arguments.len(),
        !parameters[k].by_reference,
        forall|a: int|
            0 <= a < parameters.len() && a != k ==> (#[trigger] parameters[a]).variable
                != parameters[k].variable,
        memory::slot_of(cells, parameters[k].variable) == Some(i),
        cells[i].1.set(0, arguments[k]) is Ok,
    ensures
        ({
            let after = frames::bound(cells, parameters, arguments);
            &&& memory::slot_of(after, parameters[k].variable) == Some(i)
            &&& after[i].1.first() == Some(arguments[k])
            &&& after.len() == cells.len()
        }),
    decreases parameters.len(),
{
    let n = parameters.len() - 1;
    let before = parameters.drop_last();
    let key = parameters[k].variable;
    lookup::lemma_first_index(cells, memory::has_key(key));
    assert(cells[i].0 == key);
    lemma_bound_keys(cells, parameters, arguments);
    lemma_bound_slots(cells, parameters, arguments, key);
    lemma_bound_keys(cells, before, arguments);
    lemma_bound_slots(cells, before, arguments, key);
    let rest = frames::bound(cells, before, arguments);
    if k == n {
        assert forall|a: int| 0 <= a < before.len() implies (#[trigger] before[a]).variable
            != cells[i].0 by {
            assert(before[a] == parameters[a]);
        }
        lemma_bound_others(cells, before, arguments, i);
    } else {
        assert forall|a: int| 0 <= a < before.len() && a != k implies (
        #[trigger] before[a]).variable != before[k].variable by {
            assert(before[a] == parameters[a]);
        }
        assert(before[k] == parameters[k]);
        law_parameters_hold_arguments(cells, before, arguments, k, i);
        assert(parameters[n].variable != key);
        lookup::lemma_first_index(rest, memory::has_key(parameters[n].variable));
    }
}

/// Making sure of the static variables of a function leaves those that are there, and adds each of
/// the function that is missing, with zeros or empty texts.
pub proof fn law_static_variables(statics: Cells, globals: Seq<BytecodeGlobal>, function: SymbolKey)
    ensures
        ({
            let after = frames::with_statics(statics, globals, function);
            let shared = BytecodeStorage::FunctionStatic;
            &&& after.len() >= statics.len()
            &&& after.take(statics.len() as int) == statics
            &&& forall|i: int|
                statics.len() <= i < after.len() ==> is_initial(
                    #[trigger] after[i],
                    globals,
                    function,
                    shared,
                )
            &&& forall|g: int|
                0 <= g < globals.len() && #[trigger] belongs(globals[g], function, shared)
                    ==> has_key(after, globals[g].key)
        }),
    decreases globals.len(),
{
    let after = frames::with_statics(statics, globals, function);
    let shared = BytecodeStorage::FunctionStatic;
    if globals.len() > 0 {
        let before = globals.drop_last();
        let rest = frames::with_statics(statics, before, function);
        let n = globals.len() - 1;
        law_static_variables(statics, before, function);
        let p = memory::has_key(globals[n].key);
        lookup::lemma_first_index(rest, p);
        assert forall|i: int| statics.len() <= i < after.len() implies is_initial(
            #[trigger] after[i],
            globals,
            function,
            shared,
        ) by {
            if i < rest.len() {
                assert(after[i] == rest[i]);
                lemma_initial(after[i], globals, function, shared);
            } else {
                assert(belongs(globals[n], function, shared));
            }
        }
        assert forall|g: int|
            0 <= g < globals.len() && #[trigger] belongs(
                globals[g],
                function,
                shared,
            ) implies has_key(after, globals[g].key) by {
            if g < n {
                assert(belongs(before[g], function, shared));
                let i = choose|i: int| 0 <= i < rest.len() && (#[trigger] rest[i]).0 == before[g].key;
                assert(after[i] == rest[i]);
            } else if memory::slot_of(rest, globals[n].key) is Some {
                let i = memory::slot_of(rest, globals[n].key)->Some_0;
                assert(p(rest[i]));
                assert(after[i].0 == globals[g].key);
            } else {
                assert(after[after.len() - 1].0 == globals[g].key);
            }
        }
        assert(rest.take(statics.len() as int) == statics);
        assert(after.take(statics.len() as int) =~= rest.take(statics.len() as int));
    } else {
        assert(after.take(statics.len() as int) =~= statics);
    }
}

/// A match answers with the number of matches. It writes only where that is asked for: with an
/// output flag other than zero, or with places for the groups and the texts.
pub proof fn law_regex_match(
    vm: VmModel,
    fiber: FiberModel,
    arguments: Seq<Val>,
    captures: Result<Captures, Trouble>,
)
    requires
        extended_ops::regex_match(vm, fiber, arguments, captures).2 is Ok,
    ensures
        ({
            let (vm1, after, r) = extended_ops::regex_match(vm, fiber, arguments, captures);
            &&& captures is Ok
            &&& 2 <= arguments.len() <= 4
            &&& captures->Ok_0.matches.len() <= i64::MAX ==> r == Ok::<Val, Trouble>(
                Val::Integer(captures->Ok_0.matches.len() as i64),
            )
            &&& arguments.len() == 2 || arguments.len() == 3 && arguments[2] == Val::Integer(0)
                ==> vm1 == vm && after == fiber
            &&& arguments.len() == 4 ==> (arguments[2] matches Val::IntegerPlace(count)
                && arguments[3] matches Val::StringPlace(texts) && ({
                let writes = extended_ops::capture_writes(count, texts, captures->Ok_0);
                (vm1, after, Ok::<(), Trouble>(())) == extended_ops::writes_done(vm, fiber, writes)
            }))
        }),
{
}

/// The texts of all matches of equal size are handed out match by match, group by group, after the
/// number of groups.
pub proof fn law_regex_outputs(count: Place, texts: Place, found: Captures, m: int, g: int)
    requires
        found.groups <= i64::MAX,
        forall|i: int|
            0 <= i < found.matches.len() ==> (#[trigger] found.matches[i]).len() == found.groups,
        0 <= m < found.matches.len(),
        0 <= g < found.groups,
        found.matches.len() * found.groups <= u64::MAX,
    ensures
        ({
            let writes = extended_ops::capture_writes(count, texts, found);
            let at = m * found.groups + g;
            &&& writes[0] == (count, Val::Integer(found.groups as i64))
            &&& writes.len() == 1 + found.matches.len() * found.groups
            &&& 0 <= at < found.matches.len() * found.groups
            &&& writes[1 + at] == (
                Place { indices: seq![at as u64], ..texts },
                Val::Text(found.matches[m][g]),
            )
        }),
{
    lemma_all_groups(found.matches, found.groups, m, g);
}

proof fn lemma_all_groups(matches: Seq<Seq<Seq<char>>>, groups: nat, m: int, g: int)
    requires
        forall|i: int| 0 <= i < matches.len() ==> (#[trigger] matches[i]).len() == groups,
    ensures
        extended_ops::all_groups(matches).len() == matches.len() * groups,
        0 <= m < matches.len() && 0 <= g < groups ==> 0 <= m * groups + g < matches.len() * groups
            && extended_ops::all_groups(matches)[m * groups + g] == matches[m][g],
    decreases matches.len(),
{
    if matches.len() > 0 {
        let before = matches.drop_last();
        assert forall|i: int| 0 <= i < before.len() implies (#[trigger] before[i]).len()
            == groups by {
            assert(before[i] == matches[i]);
        }
        lemma_all_groups(before, groups, m, g);
        let n = before.len();
        assert(matches.len() * groups == n * groups + groups) by (nonlinear_arith)
            requires
                matches.len() == n + 1,
        ;
        assert(matches.last() == matches[n as int]);
        if 0 <= m < matches.len() && 0 <= g < groups {
            assert(0 <= m * groups) by (nonlinear_arith)
                requires
                    0 <= m,
            ;
            if m < n {
                assert(before[m] == matches[m]);
            }
        }
    } else {
        assert(matches.len() * groups == 0) by (nonlinear_arith)
            requires
                matches.len() == 0,
        ;
    }
}

/// A text is appended to the innermost output, and all outputs around it stay.
pub proof fn law_output_is_appended(form: Form, text: Seq<char>)
    requires
        form_resources::appended(form, text).1 is Ok,
    ensures
        ({
            let after = form_resources::appended(form, text).0;
            &&& form.outputs.len() > 0
            &&& after.outputs.len() == form.outputs.len()
            &&& after.outputs.last() == form.outputs.last() + text
            &&& after.outputs.drop_last() == form.outputs.drop_last()
            &&& after.values == form.values && after.work == form.work
        }),
{
    let after = form_resources::appended(form, text).0;
    assert(after.outputs.drop_last() =~= form.outputs.drop_last());
}

/// An expression holds itself and its parts: one slot and what its operands hold, and the bytes of
/// the texts and names in it.
pub proof fn law_expression_weight(t: Tree)
    ensures
        ({
            let all = form_resources::expr_weight(t);
            match t.kind {
                TreeKind::Integer(_) => all.slots == 1 && all.bytes == 0,
                TreeKind::Text(s) => all.slots == 1 && all.bytes == form_resources::size(s),
                TreeKind::Identifier(s) => all.slots == 1 && all.bytes == form_resources::size(s),
                TreeKind::Unary(_, x) => all.slots == 1 + form_resources::expr_weight(*x).slots
                    && all.bytes == form_resources::expr_weight(*x).bytes,
                TreeKind::Binary(_, x, y) => all.slots == 1 + form_resources::expr_weight(*x).slots
                    + form_resources::expr_weight(*y).slots && all.bytes
                    == form_resources::expr_weight(*x).bytes + form_resources::expr_weight(
                    *y,
                ).bytes,
                TreeKind::Ternary(x, y, z) => all.slots == 1 + form_resources::expr_weight(*x).slots
                    + form_resources::expr_weight(*y).slots + form_resources::expr_weight(*z).slots
                    && all.bytes == form_resources::expr_weight(*x).bytes
                    + form_resources::expr_weight(*y).bytes + form_resources::expr_weight(
                    *z,
                ).bytes,
                _ => all.slots >= 1,
            }
        }),
{
}

/// An evaluation within the limits has no more values than operands are allowed, no more outputs
/// than forms may be nested, and no more steps than operands are allowed.
pub proof fn law_limits_are_kept(form: Form, maximum: usize)
    requires
        form_resources::checked(form, maximum) is Ok,
    ensures
        form.values.len() <= maximum,
        form.work.len() <= maximum,
        form.outputs.len() <= MAX_RUNTIME_FORM_NESTING,
        form_resources::output_bytes(form.outputs) + form_resources::stack_bytes(form.values)
            <= MAX_RUNTIME_FORM_BYTES,
{
}

/// A variable starts out with zero or the empty text in every element.
pub proof fn law_initial_variable(g: BytecodeGlobal, indices: Seq<u64>)
    ensures
        frames::initial_cell(g).read(indices) matches Ok(v) ==> v == match g.value_type {
            BytecodeType::Integer => Val::Integer(0),
            BytecodeType::IntegerPlace => Val::Integer(0),
            BytecodeType::String => Val::Text(Seq::empty()),
            BytecodeType::StringPlace => Val::Text(Seq::empty()),
        },
        frames::initial_cell(g).dimensions == g.dimensions@,
{
    let d = g.dimensions@;
    if memory::in_range(d, indices) {
        memory::lemma_row_major_grows(d, indices, 0, d.len());
    }
}

/// Different warnings have different numbers, so none hides another one at the same instruction.
pub proof fn law_warnings_differ(a: CompatibilityWarning, b: CompatibilityWarning)
    ensures
        diagnostics::described(a).0 == diagnostics::described(b).0 <==> a == b,
{
}

} // verus!
