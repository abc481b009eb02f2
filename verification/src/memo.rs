//! Results of earlier calls, and the reads that they make short.

use vstd::prelude::*;
use crate::extended_ops::{self, PlaceWrite};
use crate::fastpaths;
use crate::fault::{self, Failure, StepError, Trouble, VmError, VmFaultCode};
use crate::frames;
use crate::lookup;
use crate::memory::CellAddress;
use crate::places;
use crate::program::{BytecodeGlobal, MemoizedIndexedReadPlan, ProgramGeneration};
use crate::state::{Fiber, FiberModel, Store, Vm, VmModel};
use crate::value::{self, GenerationId, SymbolKey, Val, VmValue};

verus! {

/// What a call gave and wrote when it was last made.
pub struct FunctionMemoEntry {
    pub result: VmValue,
    pub effects: Vec<PlaceWrite>,
}

/// Makes some writes, one after the other up to the first that fails.
pub fn write_places(vm: &mut Vm, fiber: &mut Fiber, writes: &Vec<PlaceWrite>) -> (r: Result<
    (),
    VmError,
>)
    ensures
        (final(vm)@, final(fiber)@, fault::result(r)) == extended_ops::writes_done(
            old(vm)@,
            old(fiber)@,
            extended_ops::writes_of(writes@),
        ),
{
    let ghost all = extended_ops::writes_of(writes@);
    let mut i: usize = 0;
    assert(all.take(0) =~= Seq::<(value::Place, Val)>::empty());
    while i < writes.len()
        invariant
            i <= writes.len(),
            all == extended_ops::writes_of(writes@),
            extended_ops::writes_done(old(vm)@, old(fiber)@, all.take(i as int)) == (
                vm@,
                fiber@,
                Ok::<(), Trouble>(()),
            ),
        decreases writes.len() - i,
    {
        proof {
            assert(all.take(i + 1).drop_last() =~= all.take(i as int));
            assert(all.take(i + 1).last() == all[i as int]);
        }
        match vm.write_place(fiber, &writes[i].place, writes[i].value.clone()) {
            Ok(_) => {},
            Err(e) => {
                proof {
                    extended_ops::lemma_done_prefix(old(vm)@, old(fiber)@, all, i + 1);
                }
                return Err(e);
            },
        }
        i = i + 1;
    }
    assert(all.take(i as int) =~= all);
    Ok(())
}

pub open spec fn plan_of(function: SymbolKey) -> spec_fn(MemoizedIndexedReadPlan) -> bool {
    |p: MemoizedIndexedReadPlan| p.function == function
}

/// The plan of a function that reads one cell by a memoized selector.
pub open spec fn indexed_plan(program: ProgramGeneration, function: SymbolKey) -> Option<
    MemoizedIndexedReadPlan,
> {
    match lookup::first_index(program.indexed_reads@, plan_of(function)) {
        Some(i) => Some(program.indexed_reads@[i]),
        None => None,
    }
}

impl ProgramGeneration {
    /// The plan of a function that reads one cell by a memoized selector.
    pub fn memoized_indexed_read_plan(&self, function: SymbolKey) -> (r: Option<
        &MemoizedIndexedReadPlan,
    >)
        ensures
            match r {
                Some(p) => indexed_plan(*self, function) == Some(*p),
                None => indexed_plan(*self, function) is None,
            },
    {
        let mut i: usize = 0;
        while i < self.indexed_reads.len()
            invariant
                i <= self.indexed_reads.len(),
                forall|j: int| 0 <= j < i ==> !plan_of(function)(#[trigger] self.indexed_reads@[j]),
            decreases self.indexed_reads.len() - i,
        {
            if self.indexed_reads[i].function == function {
                proof {
                    lookup::lemma_first_found(self.indexed_reads@, plan_of(function), i as int);
                }
                return Some(&self.indexed_reads[i]);
            }
            i = i + 1;
        }
        proof {
            lookup::lemma_first_none(self.indexed_reads@, plan_of(function));
        }
        None
    }
}

/// Plans name a function and variables of the program.
pub open spec fn plans_resolve(program: ProgramGeneration) -> bool {
    forall|i: int|
        0 <= i < program.indexed_reads@.len() ==> {
            let plan = #[trigger] program.indexed_reads@[i];
            program.spec_function(plan.selector_function) is Some && program.spec_global(
                plan.scratch,
            ) is Some && program.spec_global(plan.target) is Some
        }
}

/// The two indices of a planned read, where there is such a plan and what it needs is at hand.
pub open spec fn planned_indices(
    plan: MemoizedIndexedReadPlan,
    arguments: Seq<Val>,
    entry: Option<FunctionMemoEntry>,
) -> Option<(u64, u64)> {
    if plan.index_parameter < arguments.len() && plan.selector_parameter < arguments.len() {
        match (arguments[plan.index_parameter as int], entry) {
            (Val::Integer(index), Some(e)) => match e.result@ {
                Val::Integer(selector) => if index >= 0 && selector >= 0 {
                    Some((index as u64, selector as u64))
                } else {
                    None
                },
                _ => None,
            },
            _ => None,
        }
    } else {
        None
    }
}

/// The arguments of the selector that a plan names.
pub open spec fn selector_arguments(plan: MemoizedIndexedReadPlan, arguments: Seq<Val>) -> Seq<Val> {
    seq![Val::Text(plan.selector_prefix@), arguments[plan.selector_parameter as int]]
}

/// The machine after the arguments of a call were bound to the static variables of its function,
/// and whether all of them could be.
pub open spec fn bound_statics(
    vm: VmModel,
    program: ProgramGeneration,
    function: crate::program::BytecodeFunction,
    arguments: Seq<Val>,
) -> (VmModel, Result<(), Trouble>) {
    let after = frames::persisted(
        frames::with_statics(vm.store.statics, program.globals@, function.key),
        function.parameters@,
        arguments,
    );
    (VmModel { store: Store { statics: after.0, ..vm.store }, ..vm }, after.1)
}

/// The place of a scratch variable: that of the first character for a character variable.
pub open spec fn scratch_address(g: BytecodeGlobal) -> CellAddress {
    places::variable_address(g, Some(0), None)
}

/// Machine, fiber and value of a planned read.
pub open spec fn planned_read(
    vm: VmModel,
    fiber: FiberModel,
    program: ProgramGeneration,
    plan: MemoizedIndexedReadPlan,
    arguments: Seq<Val>,
    entry: FunctionMemoEntry,
    indices: (u64, u64),
) -> (VmModel, FiberModel, Result<Option<Val>, Failure>) {
    let function = *program.spec_function(plan.selector_function)->0;
    let scratch = *program.spec_global(plan.scratch)->0;
    let target = *program.spec_global(plan.target)->0;
    let bound = bound_statics(vm, program, function, selector_arguments(plan, arguments));
    let replayed = extended_ops::writes_done(
        bound.0,
        fiber,
        extended_ops::writes_of(entry.effects@),
    );
    match (bound.1, replayed.2) {
        (Err(e), _) => (bound.0, fiber, Err(fault::mapped(e))),
        (_, Err(e)) => (replayed.0, replayed.1, Err(fault::mapped(e))),
        _ => match places::slot_at(
            replayed.0.store,
            replayed.1.frames,
            scratch_address(scratch),
        ) {
            Err(_) => (
                replayed.0,
                replayed.1,
                Err(Failure::of(VmFaultCode::MissingSymbol, "indexed read scratch is missing"@)),
            ),
            Ok(slot) => match places::cell_in(replayed.0.store, replayed.1.frames, slot).write(
                Seq::empty(),
                Val::Integer(fastpaths::count_integer(indices.1 as nat)),
            ) {
                Err(m) => (replayed.0, replayed.1, Err(Failure::invalid(m))),
                Ok(cell) => {
                    let (vm2, fiber2) = places::put_cell(replayed.0, replayed.1, slot, cell);
                    (
                        vm2,
                        fiber2,
                        match places::read_at(
                            vm2.store,
                            fiber2.frames,
                            places::variable_address(target, None, None),
                            seq![indices.0, indices.1],
                        ) {
                            Ok(v) => Ok(Some(v)),
                            Err(e) => Err(fault::mapped(e)),
                        },
                    )
                },
            },
        },
    }
}

/// Machine, fiber and value of a read that a plan may make short; nothing is done without one.
pub open spec fn memoized_read(
    vm: VmModel,
    fiber: FiberModel,
    generation: GenerationId,
    function: SymbolKey,
    arguments: Seq<Val>,
    entry: Option<FunctionMemoEntry>,
) -> (VmModel, FiberModel, Result<Option<Val>, Failure>) {
    match vm.program(generation) {
        None => (vm, fiber, Ok(None)),
        Some(program) => match indexed_plan(program, function) {
            None => (vm, fiber, Ok(None)),
            Some(plan) => match planned_indices(plan, arguments, entry) {
                None => (vm, fiber, Ok(None)),
                Some(indices) => planned_read(
                    vm,
                    fiber,
                    program,
                    plan,
                    arguments,
                    entry->0,
                    indices,
                ),
            },
        },
    }
}

/// Mathematical content of an optional value or the failure to get one.
pub open spec fn optional_result(r: Result<Option<VmValue>, StepError>) -> Result<
    Option<Val>,
    Failure,
> {
    match r {
        Ok(Some(v)) => Ok(Some(v@)),
        Ok(None) => Ok(None),
        Err(e) => Err(e@),
    }
}

impl Vm {
    /// Reads one cell without running its function, where a plan and an earlier call of the selector
    /// allow it. `entry` is what the selector gave and wrote when it was last called like this.
    pub fn try_memoized_indexed_read(
        &mut self,
        fiber: &mut Fiber,
        generation_id: GenerationId,
        function: SymbolKey,
        arguments: &Vec<VmValue>,
        entry: &Option<FunctionMemoEntry>,
    ) -> (r: Result<Option<VmValue>, StepError>)
        requires
            old(self)@.program(generation_id) matches Some(p) ==> frames::arrays_fit(p)
                && plans_resolve(p),
        ensures
            (final(self)@, final(fiber)@, optional_result(r)) == memoized_read(
                old(self)@,
                old(fiber)@,
                generation_id,
                function,
                value::vals(arguments@),
                *entry,
            ),
    {
        let program = match self.program(generation_id) {
            Some(p) => p,
            None => {
                return Ok(None);
            },
        };
        let plan = match program.memoized_indexed_read_plan(function) {
            Some(p) => p,
            None => {
                return Ok(None);
            },
        };
        if plan.index_parameter >= arguments.len() || plan.selector_parameter >= arguments.len() {
            return Ok(None);
        }
        let index: i64 = match &arguments[plan.index_parameter] {
            VmValue::Integer(n) => *n,
            _ => {
                return Ok(None);
            },
        };
        let entry = match entry {
            Some(e) => e,
            None => {
                return Ok(None);
            },
        };
        let selector: i64 = match &entry.result {
            VmValue::Integer(n) => *n,
            _ => {
                return Ok(None);
            },
        };
        if index < 0 || selector < 0 {
            return Ok(None);
        }
        proof {
            lookup::lemma_first_index(program.indexed_reads@, plan_of(function));
        }
        let selector_function = match program.function(plan.selector_function) {
            Some(f) => f,
            None => {
                return Ok(None);
            },
        };
        let scratch = match program.global(plan.scratch) {
            Some(g) => g,
            None => {
                return Ok(None);
            },
        };
        let target = match program.global(plan.target) {
            Some(g) => g,
            None => {
                return Ok(None);
            },
        };
        let mut given: Vec<VmValue> = Vec::new();
        given.push(VmValue::String(plan.selector_prefix.clone()));
        given.push(arguments[plan.selector_parameter].clone());
        assert(value::vals(given@) =~= selector_arguments(*plan, value::vals(arguments@)));
        self.memory.ensure_function_statics(&*program, selector_function.key);
        let stored = self.memory.bind_persistent_arguments(selector_function, &given);
        assert(self@ =~= bound_statics(
            old(self)@,
            *program,
            *selector_function,
            selector_arguments(*plan, value::vals(arguments@)),
        ).0);
        match stored {
            Ok(_) => {},
            Err(e) => {
                return Err(fault::map_vm_error(e));
            },
        }
        match write_places(self, fiber, &entry.effects) {
            Ok(_) => {},
            Err(e) => {
                return Err(fault::map_vm_error(e));
            },
        }
        let address = CellAddress {
            storage: scratch.storage,
            key: scratch.key,
            character: Some(0),
            frame: None,
        };
        let slot = match places::find_slot(&self.memory, &*fiber, address) {
            Ok(s) => s,
            Err(_) => {
                return Err(
                    StepError::new(VmFaultCode::MissingSymbol, "indexed read scratch is missing"),
                );
            },
        };
        let mut cell = places::slot_cell(&self.memory, &*fiber, slot).clone();
        let none: Vec<u64> = Vec::new();
        assert(none@ =~= Seq::<u64>::empty());
        match cell.write(none.as_slice(), VmValue::Integer(selector)) {
            Ok(_) => {},
            Err(m) => {
                return Err(StepError::new(VmFaultCode::InvalidInstruction, m.as_str()));
            },
        }
        places::replace_cell(&mut self.memory, fiber, slot, cell);
        let mut indices: Vec<u64> = Vec::new();
        indices.push(index as u64);
        indices.push(selector as u64);
        assert(indices@ =~= seq![index as u64, selector as u64]);
        match self.read_variable_resolved(&*fiber, target, indices.as_slice(), None, None) {
            Ok(v) => Ok(Some(v)),
            Err(e) => Err(fault::map_vm_error(e)),
        }
    }
}

/// A read that a plan makes short keeps the frames, apart from their local variables.
pub proof fn lemma_memoized_read_keeps_frames(
    vm: VmModel,
    fiber: FiberModel,
    generation: GenerationId,
    function: SymbolKey,
    arguments: Seq<Val>,
    entry: Option<FunctionMemoEntry>,
)
    requires
        fiber.frames.len() <= usize::MAX,
    ensures
        memoized_read(vm, fiber, generation, function, arguments, entry).1.frames.len()
            == fiber.frames.len(),
{
    if let Some(program) = vm.program(generation) {
        if let Some(plan) = indexed_plan(program, function) {
            if entry is Some {
                extended_ops::lemma_done_keeps_frames(
                    bound_statics(
                        vm,
                        program,
                        *program.spec_function(plan.selector_function)->0,
                        selector_arguments(plan, arguments),
                    ).0,
                    fiber,
                    extended_ops::writes_of(entry->0.effects@),
                );
            }
        }
    }
}

} // verus!
