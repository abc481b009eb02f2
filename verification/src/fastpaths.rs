//! Folding of recognized instruction sequences into one step, and where a step failed.

use vstd::prelude::*;
use crate::fault::{self, Failure, StepError, Trouble};
use crate::lookup;
use crate::memory::{self, BytecodeStorage, Cell, CellAddress, CellData, Data, VariableCell};
use crate::places;
use crate::program::{
    BulkArrayOperation, BulkLoopPlan, BytecodeGlobal, LiteralGroupMatchPlan, ProgramGeneration,
    StructuredScopeKind, StructuredTransition,
};
use crate::state::{
    self, ExecutionPolicy, Fiber, FiberModel, ForLoopState, Frame, FrameModel, InstructionPosition,
    LoopModel, Vm, VmModel,
};
use crate::text;
use crate::value::{self, FrameId, GenerationId, Place, PlaceDescriptor, SymbolKey, Val, VmValue};

verus! {

pub open spec fn transition_is(function: SymbolKey, from: usize, to: usize) -> spec_fn(
    StructuredTransition,
) -> bool {
    |t: StructuredTransition| t.function == function && t.from == from && t.to == to
}

/// What a jump does to the open blocks, where it does anything.
pub open spec fn transition_of(
    program: ProgramGeneration,
    function: SymbolKey,
    from: usize,
    to: usize,
) -> Option<StructuredTransition> {
    match lookup::first_index(program.structured_jumps@, transition_is(function, from, to)) {
        Some(i) => Some(program.structured_jumps@[i]),
        None => None,
    }
}

impl ProgramGeneration {
    /// What a jump does to the open blocks, where it does anything.
    pub fn structured_jump_transition(&self, function: SymbolKey, from: usize, to: usize) -> (r:
        Option<&StructuredTransition>)
        ensures
            match r {
                Some(t) => transition_of(*self, function, from, to) == Some(*t),
                None => transition_of(*self, function, from, to) is None,
            },
    {
        let mut i: usize = 0;
        while i < self.structured_jumps.len()
            invariant
                i <= self.structured_jumps.len(),
                forall|j: int|
                    0 <= j < i ==> !transition_is(function, from, to)(
                        #[trigger] self.structured_jumps@[j],
                    ),
            decreases self.structured_jumps.len() - i,
        {
            let t = &self.structured_jumps[i];
            if t.function == function && t.from == from && t.to == to {
                proof {
                    lookup::lemma_first_found(
                        self.structured_jumps@,
                        transition_is(function, from, to),
                        i as int,
                    );
                }
                return Some(t);
            }
            i = i + 1;
        }
        None
    }
}

/// The first `n` items, or all where there are fewer.
pub open spec fn kept<T>(s: Seq<T>, n: nat) -> Seq<T> {
    if n < s.len() {
        s.take(n as int)
    } else {
        s
    }
}

/// A frame after blocks were entered past their heads.
pub open spec fn entered(frame: FrameModel, scopes: Seq<StructuredScopeKind>) -> FrameModel
    decreases scopes.len(),
{
    if scopes.len() == 0 {
        frame
    } else {
        let before = entered(frame, scopes.drop_last());
        match scopes.last() {
            StructuredScopeKind::Loop => FrameModel {
                for_loops: before.for_loops.push(LoopModel::bypassed()),
                ..before
            },
            StructuredScopeKind::Select => FrameModel {
                select_values: before.select_values.push(state::bypassed_select()),
                ..before
            },
        }
    }
}

/// A frame after a jump left and entered blocks.
pub open spec fn reconciled(frame: FrameModel, t: StructuredTransition) -> FrameModel {
    entered(
        FrameModel {
            for_loops: kept(frame.for_loops, t.retain_loops as nat),
            select_values: kept(frame.select_values, t.retain_selects as nat),
            ..frame
        },
        t.entered@,
    )
}

/// The frame and whether a block was entered past its head, after a jump.
pub open spec fn jumped(
    vm: VmModel,
    frame: FrameModel,
    generation: GenerationId,
    function: SymbolKey,
    from: usize,
    to: usize,
) -> (FrameModel, bool) {
    match vm.program(generation) {
        None => (frame, false),
        Some(program) => match transition_of(program, function, from, to) {
            None => (frame, false),
            Some(t) => (reconciled(frame, t), t.entered@.len() > 0),
        },
    }
}

fn bypassed_select_value() -> (r: VmValue)
    ensures
        r@ == state::bypassed_select(),
{
    VmValue::IntegerPlace(Box::new(PlaceDescriptor::of_variable(SymbolKey(0))))
}

fn reconcile_frame(frame: &mut Frame, t: &StructuredTransition)
    ensures
        final(frame)@ == reconciled(old(frame)@, *t),
{
    let ghost loops = frame.for_loops@;
    let ghost selects = frame.select_values@;
    frame.for_loops.truncate(t.retain_loops);
    frame.select_values.truncate(t.retain_selects);
    let ghost start = FrameModel {
        for_loops: kept(old(frame)@.for_loops, t.retain_loops as nat),
        select_values: kept(old(frame)@.select_values, t.retain_selects as nat),
        ..old(frame)@
    };
    proof {
        assert(frame@.for_loops =~= start.for_loops);
        assert(frame@.select_values =~= start.select_values);
        assert(t.entered@.take(0) =~= Seq::<StructuredScopeKind>::empty());
    }
    let mut i: usize = 0;
    while i < t.entered.len()
        invariant
            i <= t.entered.len(),
            frame@ == entered(start, t.entered@.take(i as int)),
        decreases t.entered.len() - i,
    {
        assert(t.entered@.take(i + 1).drop_last() =~= t.entered@.take(i as int));
        let ghost before = frame@;
        match t.entered[i] {
            StructuredScopeKind::Loop => {
                frame.for_loops.push(ForLoopState::bypassed());
                assert(frame@.for_loops =~= before.for_loops.push(LoopModel::bypassed()));
            },
            StructuredScopeKind::Select => {
                frame.select_values.push(bypassed_select_value());
                assert(frame@.select_values =~= before.select_values.push(
                    state::bypassed_select(),
                ));
            },
        }
        i = i + 1;
    }
    assert(t.entered@.take(i as int) =~= t.entered@);
}

impl Vm {
    /// Leaves and enters blocks as a jump of the running frame does; tells whether a block was
    /// entered past its head.
    pub fn reconcile_structured_jump(
        &self,
        fiber: &mut Fiber,
        position: &InstructionPosition<'_>,
        target: usize,
    ) -> (r: bool)
        requires
            old(fiber)@.frames.len() > 0,
        ensures
            ({
                let after = jumped(
                    self@,
                    old(fiber)@.top(),
                    position.generation,
                    position.function,
                    position.instruction,
                    target,
                );
                &&& final(fiber)@ == old(fiber)@.with_top(after.0)
                &&& r == after.1
            }),
    {
        let frame = fiber.top_mut();
        match self.program(position.generation) {
            None => false,
            Some(program) => {
                match program.structured_jump_transition(
                    position.function,
                    position.instruction,
                    target,
                ) {
                    None => false,
                    Some(t) => {
                        reconcile_frame(frame, t);
                        t.entered.len() > 0
                    },
                }
            },
        }
    }
}

pub open spec fn loop_at(function: SymbolKey, instruction: usize) -> spec_fn(BulkLoopPlan) -> bool {
    |p: BulkLoopPlan| p.function == function && p.instruction == instruction
}

/// A variable that may stand for another one.
pub open spec fn is_reference(program: ProgramGeneration, key: SymbolKey) -> bool {
    exists|i: int|
        0 <= i < program.runtime_variables@.len() && (#[trigger] program.runtime_variables@[i]).key
            == key && program.runtime_variables@[i].reference
}

/// No variable of a bulk loop is a reference.
pub open spec fn plan_is_direct(program: ProgramGeneration, plan: BulkLoopPlan) -> bool {
    &&& !is_reference(program, plan.counter)
    &&& !is_reference(program, plan.prefix.variable)
    &&& !is_reference(program, plan.target)
    &&& match plan.operation {
        BulkArrayOperation::Fill(_) => true,
        BulkArrayOperation::Copy { source, .. } => !is_reference(program, source),
    }
}

/// The bulk loop that starts at an instruction.
pub open spec fn bulk_plan(
    program: ProgramGeneration,
    function: SymbolKey,
    instruction: usize,
) -> Option<BulkLoopPlan> {
    match lookup::first_index(program.bulk_loops@, loop_at(function, instruction)) {
        Some(i) => if plan_is_direct(program, program.bulk_loops@[i]) {
            Some(program.bulk_loops@[i])
        } else {
            None
        },
        None => None,
    }
}

impl ProgramGeneration {
    fn refers(&self, key: SymbolKey) -> (r: bool)
        ensures
            r == is_reference(*self, key),
    {
        let mut i: usize = 0;
        while i < self.runtime_variables.len()
            invariant
                i <= self.runtime_variables.len(),
                forall|j: int|
                    0 <= j < i ==> !((#[trigger] self.runtime_variables@[j]).key == key
                        && self.runtime_variables@[j].reference),
            decreases self.runtime_variables.len() - i,
        {
            if self.runtime_variables[i].key == key && self.runtime_variables[i].reference {
                assert(self.runtime_variables@[i as int].reference);
                return true;
            }
            i = i + 1;
        }
        false
    }

    /// The bulk loop that starts at an instruction; none where it involves a reference.
    pub fn bulk_fill_loop_plan(&self, function: SymbolKey, instruction: usize) -> (r: Option<
        &BulkLoopPlan,
    >)
        ensures
            match r {
                Some(p) => bulk_plan(*self, function, instruction) == Some(*p),
                None => bulk_plan(*self, function, instruction) is None,
            },
    {
        let mut i: usize = 0;
        while i < self.bulk_loops.len()
            invariant
                i <= self.bulk_loops.len(),
                forall|j: int|
                    0 <= j < i ==> !loop_at(function, instruction)(#[trigger] self.bulk_loops@[j]),
            decreases self.bulk_loops.len() - i,
        {
            let p = &self.bulk_loops[i];
            if p.function == function && p.instruction == instruction {
                proof {
                    lookup::lemma_first_found(
                        self.bulk_loops@,
                        loop_at(function, instruction),
                        i as int,
                    );
                }
                let source_refers: bool = match &p.operation {
                    BulkArrayOperation::Fill(_) => false,
                    BulkArrayOperation::Copy { source, .. } => self.refers(*source),
                };
                if self.refers(p.counter) || self.refers(p.prefix.variable) || self.refers(p.target)
                    || source_refers {
                    return None;
                }
                return Some(p);
            }
            i = i + 1;
        }
        None
    }
}

/// Flat positions of the columns `start..end` of a row, where they are in range and fit the machine.
pub open spec fn flat_range(dimensions: Seq<u64>, prefix: int, start: int, end: int) -> Option<
    (int, int),
> {
    if dimensions.len() != 2 || prefix < 0 || start < 0 || end < 0 {
        None
    } else {
        let row = prefix * dimensions[1];
        if prefix >= dimensions[0] || end > dimensions[1] || row + start > usize::MAX || row + end
            > usize::MAX {
            None
        } else {
            Some((row + start, row + end))
        }
    }
}

/// Flat positions of the columns `start..end` of a row of a two-dimensional array.
pub fn bulk_fill_flat_range(dimensions: &Vec<u64>, prefix: i64, start: i64, end: i64) -> (r: Option<
    (usize, usize),
>)
    ensures
        match r {
            Some((a, b)) => flat_range(dimensions@, prefix as int, start as int, end as int)
                == Some((a as int, b as int)),
            None => flat_range(dimensions@, prefix as int, start as int, end as int) is None,
        },
{
    if dimensions.len() != 2 || prefix < 0 || start < 0 || end < 0 {
        return None;
    }
    let rows: u64 = dimensions[0];
    let columns: u64 = dimensions[1];
    if prefix as u64 >= rows || end as u64 > columns {
        return None;
    }
    assert(0 <= (prefix as int) * (columns as int) <= 0x7fff_ffff_ffff_ffff * 0xffff_ffff_ffff_ffff)
        by (nonlinear_arith)
        requires
            0 <= prefix <= 0x7fff_ffff_ffff_ffff,
            0 <= columns <= 0xffff_ffff_ffff_ffff,
    ;
    let row: u128 = (prefix as u128) * (columns as u128);
    let from: u128 = row + (start as u128);
    let to: u128 = row + (end as u128);
    if from > usize::MAX as u128 || to > usize::MAX as u128 {
        return None;
    }
    Some((from as usize, to as usize))
}

/// A stretch of an array: which array and which flat positions.
pub struct Stretch {
    pub address: CellAddress,
    pub from: int,
    pub to: int,
}

/// The columns `start..end` of row `prefix` of a variable. A character variable has one row for
/// each character.
pub open spec fn stretch_of(g: BytecodeGlobal, prefix: i64, start: int, end: int) -> Option<
    Stretch,
> {
    match g.storage {
        BytecodeStorage::FunctionLocal => None,
        BytecodeStorage::Character => if prefix < 0 || start < 0 || start > end
            || g.dimensions@.len() != 1 || end > g.dimensions@[0] || end > usize::MAX {
            None
        } else {
            Some(
                Stretch {
                    address: places::variable_address(g, Some(prefix as u64), None),
                    from: start,
                    to: end,
                },
            )
        },
        _ => match flat_range(g.dimensions@, prefix as int, start, end) {
            Some((a, b)) => if a <= b {
                Some(
                    Stretch { address: places::variable_address(g, None, None), from: a, to: b },
                )
            } else {
                None
            },
            None => None,
        },
    }
}

/// The integers of the array that a stretch of a variable lies in, where it lies in one.
pub open spec fn stretch_integers(
    vm: VmModel,
    fiber: FiberModel,
    g: BytecodeGlobal,
    s: Stretch,
) -> Option<Seq<i64>> {
    match places::slot_at(vm.store, fiber.frames, s.address) {
        Err(_) => None,
        Ok(slot) => {
            let cell = places::cell_in(vm.store, fiber.frames, slot);
            match cell.data {
                Data::Integers(v) => if cell.dimensions == g.dimensions@ && s.to <= v.len() {
                    Some(v)
                } else {
                    None
                },
                Data::Texts(_) => None,
            }
        },
    }
}

/// A sequence with a stretch filled.
pub open spec fn filled(s: Seq<i64>, from: int, to: int, value: i64) -> Seq<i64> {
    Seq::new(
        s.len(),
        |i: int|
            if from <= i < to {
                value
            } else {
                s[i]
            },
    )
}

/// A sequence with a stretch copied from elsewhere.
pub open spec fn overlaid(s: Seq<i64>, from: int, to: int, source: Seq<i64>, at: int) -> Seq<i64> {
    Seq::new(
        s.len(),
        |i: int|
            if from <= i < to {
                source[at + (i - from)]
            } else {
                s[i]
            },
    )
}

/// The longest row that a bulk copy takes.
pub const MAXIMUM_BULK_COPY: u64 = 256;

/// The new integers of the target of a bulk loop, and the stretch that changes; none where the loop
/// has to be run step by step.
pub open spec fn bulk_effect(
    vm: VmModel,
    fiber: FiberModel,
    program: ProgramGeneration,
    plan: BulkLoopPlan,
    prefix: i64,
    start: i64,
    end: i64,
) -> Option<(Stretch, Seq<i64>)> {
    match program.spec_global(plan.target) {
        None => None,
        Some(target) => match plan.operation {
            BulkArrayOperation::Fill(value) => match stretch_of(
                *target,
                prefix,
                start as int,
                end as int,
            ) {
                None => None,
                Some(s) => match stretch_integers(vm, fiber, *target, s) {
                    None => None,
                    Some(v) => Some((s, filled(v, s.from, s.to, value))),
                },
            },
            BulkArrayOperation::Copy { source, offset } => if source == plan.target || end - start
                > MAXIMUM_BULK_COPY || start + offset < i64::MIN || end + offset > i64::MAX {
                None
            } else {
                match (
                    stretch_of(*target, prefix, start + offset, end + offset),
                    program.spec_global(source),
                ) {
                    (Some(s), Some(origin)) => match (
                        stretch_integers(vm, fiber, *target, s),
                        stretch_of(*origin, prefix, start as int, end as int),
                    ) {
                        (Some(v), Some(from)) => match stretch_integers(vm, fiber, *origin, from) {
                            None => None,
                            Some(w) => Some((s, overlaid(v, s.from, s.to, w, from.from))),
                        },
                        _ => None,
                    },
                    _ => None,
                }
            },
        },
    }
}

/// Steps that a loop would take, one by one.
pub open spec fn loop_steps(plan: BulkLoopPlan, iterations: u64) -> u64 {
    saturated(saturated(iterations * plan.iteration_instructions) + 2)
}

/// A number cut off at the largest 64-bit number.
pub open spec fn saturated(n: int) -> u64 {
    if n > u64::MAX {
        u64::MAX
    } else {
        n as u64
    }
}

/// Rounds of a counting loop with step one.
pub open spec fn rounds(start: i64, end: i64) -> u64 {
    if start <= end && end - start <= i64::MAX {
        (end - start) as u64
    } else {
        u64::MAX
    }
}

/// A bulk loop may be taken: it is the loop that was planned and fits all budgets.
pub open spec fn bulk_admitted(
    vm: VmModel,
    fiber: FiberModel,
    plan: BulkLoopPlan,
    counter: Place,
    iterations: u64,
    policy: ExecutionPolicy,
) -> bool {
    &&& counter.variable == plan.counter
    &&& counter.indices == plan.counter_indices@
    &&& (plan.operation is Copy ==> vm.path_memo_owner != Some(fiber.id))
    &&& loop_steps(plan, iterations) <= policy.remaining_instructions
    &&& loop_steps(plan, iterations) <= policy.remaining_quantum
    &&& fiber.top().operand_slots() + plan.stack_peak <= vm.config.maximum_operand_stack
    &&& saturated(fiber.backward + saturated_less_one(iterations))
        <= vm.config.maximum_backward_branches_without_progress
}

pub open spec fn saturated_less_one(n: u64) -> u64 {
    if n == 0 {
        0
    } else {
        (n - 1) as u64
    }
}

/// What trying to take a loop in bulk leaves and answers.
pub open spec fn bulk_loop(
    vm: VmModel,
    fiber: FiberModel,
    generation: GenerationId,
    function: SymbolKey,
    instruction: usize,
    counter: Place,
    start: i64,
    end: i64,
    step: i64,
    policy: ExecutionPolicy,
) -> (VmModel, FiberModel, Result<Option<u64>, Failure>) {
    let stay = (vm, fiber, Ok::<Option<u64>, Failure>(None));
    if !policy.allow_function_memo || step != 1 || counter.character is Some
        || counter.backing is Some {
        stay
    } else {
        match vm.program(generation) {
            None => stay,
            Some(program) => match bulk_plan(program, function, instruction) {
                None => stay,
                Some(plan) => if !bulk_admitted(
                    vm,
                    fiber,
                    plan,
                    counter,
                    rounds(start, end),
                    policy,
                ) {
                    stay
                } else {
                    match program.spec_global(plan.prefix.variable) {
                        None => stay,
                        Some(prefix) => match places::read_at(
                            vm.store,
                            fiber.frames,
                            places::variable_address(*prefix, None, own_frame(*prefix, fiber.top().id)),
                            plan.prefix.indices@,
                        ) {
                            Err(e) => (vm, fiber, Err(fault::mapped(e))),
                            Ok(Val::Integer(row)) => match bulk_effect(
                                vm,
                                fiber,
                                program,
                                plan,
                                row,
                                start,
                                end,
                            ) {
                                None => stay,
                                Some((s, integers)) => bulk_taken(
                                    vm,
                                    fiber,
                                    plan,
                                    s,
                                    integers,
                                    counter,
                                    start,
                                    end,
                                ),
                            },
                            Ok(_) => stay,
                        },
                    }
                },
            },
        }
    }
}

/// The frame of a variable's address: the running one for a local variable.
pub open spec fn own_frame(g: BytecodeGlobal, frame: FrameId) -> Option<FrameId> {
    if g.storage is FunctionLocal {
        Some(frame)
    } else {
        None
    }
}

/// State after a bulk loop was taken.
pub open spec fn bulk_taken(
    vm: VmModel,
    fiber: FiberModel,
    plan: BulkLoopPlan,
    s: Stretch,
    integers: Seq<i64>,
    counter: Place,
    start: i64,
    end: i64,
) -> (VmModel, FiberModel, Result<Option<u64>, Failure>) {
    let slot = places::slot_at(vm.store, fiber.frames, s.address)->Ok_0;
    let cell = places::cell_in(vm.store, fiber.frames, slot);
    let (vm1, fiber1) = places::put_cell(
        vm,
        fiber,
        slot,
        Cell { dimensions: cell.dimensions, data: Data::Integers(integers) },
    );
    match places::write_place(vm1, fiber1, counter, Val::Integer(end)) {
        Err(e) => (vm1, fiber1, Err(fault::mapped(e))),
        Ok((vm2, fiber2)) => {
            let iterations = rounds(start, end);
            (
                vm2,
                FiberModel {
                    backward: saturated(fiber2.backward + saturated_less_one(iterations)),
                    ..fiber2.with_top(
                        FrameModel { instruction: plan.after_loop, ..fiber2.top() },
                    )
                },
                Ok(Some(saturated_less_one(loop_steps(plan, iterations)))),
            )
        },
    }
}

/// A stretch of an array in machine numbers.
#[derive(Clone, Copy)]
struct StretchBounds {
    address: CellAddress,
    from: usize,
    to: usize,
}

impl StretchBounds {
    spec fn stretch(self) -> Stretch {
        Stretch { address: self.address, from: self.from as int, to: self.to as int }
    }
}

fn find_stretch(g: &BytecodeGlobal, prefix: i64, start: i64, end: i64) -> (r: Option<StretchBounds>)
    ensures
        match r {
            Some(b) => stretch_of(*g, prefix, start as int, end as int) == Some(b.stretch())
                && b.from <= b.to && b.to - b.from == end - start,
            None => stretch_of(*g, prefix, start as int, end as int) is None,
        },
{
    match g.storage {
        BytecodeStorage::FunctionLocal => None,
        BytecodeStorage::Character => {
            if prefix < 0 || start < 0 || start > end || g.dimensions.len() != 1 || end as u64
                > g.dimensions[0] || end as u64 > usize::MAX as u64 {
                None
            } else {
                Some(
                    StretchBounds {
                        address: CellAddress {
                            storage: g.storage,
                            key: g.key,
                            character: Some(prefix as u64),
                            frame: None,
                        },
                        from: start as usize,
                        to: end as usize,
                    },
                )
            }
        },
        _ => match bulk_fill_flat_range(&g.dimensions, prefix, start, end) {
            Some((a, b)) => {
                if a <= b {
                    Some(
                        StretchBounds {
                            address: CellAddress {
                                storage: g.storage,
                                key: g.key,
                                character: None,
                                frame: None,
                            },
                            from: a,
                            to: b,
                        },
                    )
                } else {
                    None
                }
            },
            None => None,
        },
    }
}

fn same_dimensions(a: &Vec<u64>, b: &Vec<u64>) -> (r: bool)
    ensures
        r == (a@ == b@),
{
    value::same_indices(a, b)
}

/// The array that a stretch of a variable lies in, where it holds integers.
fn find_integers<'a>(vm: &'a Vm, fiber: &'a Fiber, g: &BytecodeGlobal, b: StretchBounds) -> (r:
    Option<(places::CellSlot, &'a Vec<i64>)>)
    ensures
        match r {
            Some((slot, v)) => stretch_integers(vm@, fiber@, *g, b.stretch()) == Some(v@)
                && places::slot_at(vm@.store, fiber@.frames, b.address) == Ok::<
                places::CellSlot,
                Trouble,
            >(slot) && places::slot_exists(vm@.store, fiber@.frames, slot) && b.to <= v@.len(),
            None => stretch_integers(vm@, fiber@, *g, b.stretch()) is None,
        },
{
    match places::find_slot(&vm.memory, fiber, b.address) {
        Err(_) => None,
        Ok(slot) => {
            let cell = places::slot_cell(&vm.memory, fiber, slot);
            match &cell.data {
                CellData::Integers(v) => {
                    if same_dimensions(&cell.dimensions, &g.dimensions) && b.to <= v.len() {
                        Some((slot, v))
                    } else {
                        None
                    }
                },
                CellData::Strings(_) => None,
            }
        },
    }
}

fn fill_integers(v: &Vec<i64>, from: usize, to: usize, n: i64) -> (r: Vec<i64>)
    requires
        from <= to <= v@.len(),
    ensures
        r@ == filled(v@, from as int, to as int, n),
{
    let mut out: Vec<i64> = Vec::new();
    let mut i: usize = 0;
    while i < v.len()
        invariant
            i <= v.len(),
            out@.len() == i,
            forall|j: int|
                0 <= j < i ==> #[trigger] out@[j] == filled(v@, from as int, to as int, n)[j],
        decreases v.len() - i,
    {
        if from <= i && i < to {
            out.push(n);
        } else {
            out.push(v[i]);
        }
        i = i + 1;
    }
    assert(out@ =~= filled(v@, from as int, to as int, n));
    out
}

fn overlay_integers(v: &Vec<i64>, from: usize, to: usize, source: &Vec<i64>, at: usize) -> (r: Vec<
    i64,
>)
    requires
        from <= to <= v@.len(),
        at + (to - from) <= source@.len(),
    ensures
        r@ == overlaid(v@, from as int, to as int, source@, at as int),
{
    let mut out: Vec<i64> = Vec::new();
    let mut i: usize = 0;
    let bound: usize = source.len();
    while i < v.len()
        invariant
            i <= v.len(),
            from <= to <= v@.len(),
            bound == source@.len(),
            at + (to - from) <= source@.len(),
            out@.len() == i,
            forall|j: int|
                0 <= j < i ==> #[trigger] out@[j] == overlaid(
                    v@,
                    from as int,
                    to as int,
                    source@,
                    at as int,
                )[j],
        decreases v.len() - i,
    {
        if from <= i && i < to {
            out.push(source[at + (i - from)]);
        } else {
            out.push(v[i]);
        }
        i = i + 1;
    }
    assert(out@ =~= overlaid(v@, from as int, to as int, source@, at as int));
    out
}

/// The new integers of the target of a bulk loop.
fn bulk_integers(
    vm: &Vm,
    fiber: &Fiber,
    program: &ProgramGeneration,
    plan: &BulkLoopPlan,
    prefix: i64,
    start: i64,
    end: i64,
) -> (r: Option<(StretchBounds, places::CellSlot, Vec<i64>)>)
    requires
        start <= end,
    ensures
        match r {
            Some((b, slot, v)) => bulk_effect(vm@, fiber@, *program, *plan, prefix, start, end)
                == Some((b.stretch(), v@)) && places::slot_at(vm@.store, fiber@.frames, b.address)
                == Ok::<places::CellSlot, Trouble>(slot) && places::slot_exists(
                vm@.store,
                fiber@.frames,
                slot,
            ),
            None => bulk_effect(vm@, fiber@, *program, *plan, prefix, start, end) is None,
        },
{
    let target = match program.global(plan.target) {
        None => {
            return None;
        },
        Some(g) => g,
    };
    match &plan.operation {
        BulkArrayOperation::Fill(n) => match find_stretch(target, prefix, start, end) {
            None => None,
            Some(b) => match find_integers(vm, fiber, target, b) {
                None => None,
                Some((slot, v)) => Some((b, slot, fill_integers(v, b.from, b.to, *n))),
            },
        },
        BulkArrayOperation::Copy { source, offset } => {
            if *source == plan.target || (end as i128) - (start as i128)
                > MAXIMUM_BULK_COPY as i128 {
                return None;
            }
            let (first, last) = match (start.checked_add(*offset), end.checked_add(*offset)) {
                (Some(a), Some(b)) => (a, b),
                _ => {
                    assert(stretch_of(*target, prefix, start + *offset, end + *offset) is None || start + *offset < i64::MIN || end + *offset > i64::MAX);
                    return None;
                },
            };
            let b = match find_stretch(target, prefix, first, last) {
                None => {
                    return None;
                },
                Some(b) => b,
            };
            let origin = match program.global(*source) {
                None => {
                    return None;
                },
                Some(g) => g,
            };
            let (slot, v) = match find_integers(vm, fiber, target, b) {
                None => {
                    return None;
                },
                Some(found) => found,
            };
            let from = match find_stretch(origin, prefix, start, end) {
                None => {
                    return None;
                },
                Some(f) => f,
            };
            match find_integers(vm, fiber, origin, from) {
                None => None,
                Some((_, w)) => Some((b, slot, overlay_integers(v, b.from, b.to, w, from.from))),
            }
        },
    }
}

fn saturating_product(a: u64, b: u64) -> (r: u64)
    ensures
        r == saturated(a * b),
{
    assert(0 <= (a as int) * (b as int) <= u64::MAX * u64::MAX) by (nonlinear_arith)
        requires
            0 <= a <= u64::MAX,
            0 <= b <= u64::MAX,
    ;
    let wide: u128 = (a as u128) * (b as u128);
    if wide > u64::MAX as u128 {
        u64::MAX
    } else {
        wide as u64
    }
}

impl Vm {
    /// Takes a counting loop over one row of an array in one step, where it was recognized and all
    /// budgets allow it. Answers how many steps were saved beyond the current one.
    pub fn try_bulk_fill_loop(
        &mut self,
        fiber: &mut Fiber,
        position: &InstructionPosition<'_>,
        counter: &PlaceDescriptor,
        start: i64,
        end: i64,
        step: i64,
        policy: ExecutionPolicy,
    ) -> (r: Result<Option<u64>, StepError>)
        requires
            old(fiber)@.frames.len() > 0,
            start <= end,
        ensures
            (final(self)@, final(fiber)@, fault::outcome(r)) == bulk_loop(
                old(self)@,
                old(fiber)@,
                position.generation,
                position.function,
                position.instruction,
                counter@,
                start,
                end,
                step,
                policy,
            ),
    {
        if !policy.allow_function_memo || step != 1 || counter.character.is_some()
            || counter.backing.is_some() {
            return Ok(None);
        }
        let program = match self.program(position.generation) {
            None => {
                return Ok(None);
            },
            Some(p) => p,
        };
        let plan = match program.bulk_fill_loop_plan(position.function, position.instruction) {
            None => {
                return Ok(None);
            },
            Some(p) => p,
        };
        if counter.variable != plan.counter || !value::same_indices(
            &counter.indices,
            &plan.counter_indices,
        ) {
            return Ok(None);
        }
        let copies: bool = match plan.operation {
            BulkArrayOperation::Copy { .. } => true,
            _ => false,
        };
        if copies && self.path_memo_owner == Some(fiber.id) {
            return Ok(None);
        }
        let distance: i128 = (end as i128) - (start as i128);
        let iterations: u64 = if distance <= i64::MAX as i128 {
            distance as u64
        } else {
            u64::MAX
        };
        let steps: u64 = saturating_product(
            iterations,
            plan.iteration_instructions,
        ).saturating_add(2);
        let repeats: u64 = if iterations == 0 {
            0
        } else {
            iterations - 1
        };
        let backward: u64 = fiber.backward_branches_without_progress.saturating_add(repeats);
        if steps > policy.remaining_instructions || steps > policy.remaining_quantum as u64
            || backward > self.config.maximum_backward_branches_without_progress {
            return Ok(None);
        }
        match fiber.top().operand_slots() {
            None => {
                return Ok(None);
            },
            Some(slots) => match slots.checked_add(plan.stack_peak) {
                None => {
                    return Ok(None);
                },
                Some(peak) => {
                    if peak > self.config.maximum_operand_stack {
                        return Ok(None);
                    }
                },
            },
        }
        let prefix = match program.global(plan.prefix.variable) {
            None => {
                return Ok(None);
            },
            Some(g) => g,
        };
        let frame: Option<FrameId> = if prefix.storage == BytecodeStorage::FunctionLocal {
            Some(fiber.top().id)
        } else {
            None
        };
        let row: i64 = match self.read_variable_resolved(
            &*fiber,
            prefix,
            plan.prefix.indices.as_slice(),
            None,
            frame,
        ) {
            Err(e) => {
                return Err(fault::map_vm_error(e));
            },
            Ok(VmValue::Integer(n)) => n,
            Ok(_) => {
                return Ok(None);
            },
        };
        let (bounds, slot, integers) = match bulk_integers(
            &*self,
            &*fiber,
            &*program,
            plan,
            row,
            start,
            end,
        ) {
            None => {
                return Ok(None);
            },
            Some(found) => found,
        };
        let dimensions = value::copy_indices(
            &places::slot_cell(&self.memory, &*fiber, slot).dimensions,
        );
        places::replace_cell(
            &mut self.memory,
            fiber,
            slot,
            VariableCell { dimensions, data: CellData::Integers(integers) },
        );
        let depth: usize = fiber.frames.len();
        let ghost vm1 = self@;
        let ghost fiber1 = fiber@;
        match self.write_place(fiber, counter, VmValue::Integer(end)) {
            Err(e) => {
                return Err(fault::map_vm_error(e));
            },
            Ok(_) => {},
        }
        proof {
            places::law_write_keeps_frames(vm1, fiber1, counter@, Val::Integer(end));
        }
        let after: usize = plan.after_loop;
        let top = fiber.top_mut();
        top.instruction = after;
        fiber.backward_branches_without_progress =
            fiber.backward_branches_without_progress.saturating_add(repeats);
        Ok(Some(if steps == 0 { 0 } else { steps - 1 }))
    }
}

/// How many candidates are a text.
pub open spec fn equal_count(candidates: Seq<String>, t: Seq<char>) -> nat
    decreases candidates.len(),
{
    if candidates.len() == 0 {
        0
    } else {
        equal_count(candidates.drop_last(), t) + if candidates.last()@ == t {
            1nat
        } else {
            0nat
        }
    }
}

pub open spec fn group_at(function: SymbolKey, instruction: usize) -> spec_fn(
    LiteralGroupMatchPlan,
) -> bool {
    |p: LiteralGroupMatchPlan| p.function == function && p.instruction == instruction
}

/// A count as an integer of the language.
pub open spec fn count_integer(n: nat) -> i64 {
    if n > i64::MAX {
        i64::MAX
    } else {
        n as i64
    }
}

/// Makes an integer of the language from a count.
pub fn integer_of_count(n: usize) -> (r: i64)
    ensures
        r == count_integer(n as nat),
{
    if n as u128 > i64::MAX as u128 {
        i64::MAX
    } else {
        n as i64
    }
}

/// What trying to take a literal membership test in one step leaves and answers.
pub open spec fn group_match(
    vm: VmModel,
    fiber: FiberModel,
    generation: GenerationId,
    function: SymbolKey,
    instruction: usize,
    policy: ExecutionPolicy,
) -> (FiberModel, Option<u64>) {
    if !policy.allow_function_memo {
        (fiber, None)
    } else {
        match vm.program(generation) {
            None => (fiber, None),
            Some(program) => match lookup::first_index(
                program.literal_group_matches@,
                group_at(function, instruction),
            ) {
                None => (fiber, None),
                Some(i) => {
                    let plan = program.literal_group_matches@[i];
                    let steps = saturated((plan.candidates@.len() + 1) as int);
                    if steps > policy.remaining_instructions || steps > policy.remaining_quantum
                        || fiber.frames.len() == 0 || fiber.top().stack.len() == 0 {
                        (fiber, None)
                    } else {
                        match fiber.top().stack.last() {
                            Val::Text(t) => (
                                fiber.with_top(
                                    FrameModel {
                                        stack: fiber.top().stack.drop_last().push(
                                            Val::Integer(
                                                count_integer(equal_count(plan.candidates@, t)),
                                            ),
                                        ),
                                        instruction: plan.after_call,
                                        ..fiber.top()
                                    },
                                ),
                                Some((steps - 1) as u64),
                            ),
                            _ => (fiber, None),
                        }
                    }
                },
            },
        }
    }
}

fn count_equal(candidates: &Vec<String>, t: &str) -> (r: usize)
    ensures
        r == equal_count(candidates@, t@),
        r <= candidates@.len(),
{
    let mut n: usize = 0;
    let mut i: usize = 0;
    assert(candidates@.take(0) =~= Seq::<String>::empty());
    while i < candidates.len()
        invariant
            i <= candidates.len(),
            n == equal_count(candidates@.take(i as int), t@),
            n <= i,
        decreases candidates.len() - i,
    {
        assert(candidates@.take(i + 1).drop_last() =~= candidates@.take(i as int));
        if text::same_text(candidates[i].as_str(), t) {
            n = n + 1;
        }
        i = i + 1;
    }
    assert(candidates@.take(i as int) =~= candidates@);
    n
}

impl Vm {
    /// Takes a membership test against literal candidates in one step, where it was recognized and
    /// the budgets allow it. Answers how many steps were saved beyond the current one.
    pub fn try_literal_group_match(
        &self,
        fiber: &mut Fiber,
        position: &InstructionPosition<'_>,
        policy: ExecutionPolicy,
    ) -> (r: Option<u64>)
        ensures
            (final(fiber)@, r) == group_match(
                self@,
                old(fiber)@,
                position.generation,
                position.function,
                position.instruction,
                policy,
            ),
    {
        if !policy.allow_function_memo {
            return None;
        }
        let program = match self.program(position.generation) {
            None => {
                return None;
            },
            Some(p) => p,
        };
        let mut i: usize = 0;
        while i < program.literal_group_matches.len()
            invariant
                i <= program.literal_group_matches.len(),
                self@.program(position.generation) == Some(*program),
                policy.allow_function_memo,
                fiber@ == old(fiber)@,
                forall|j: int|
                    0 <= j < i ==> !group_at(position.function, position.instruction)(
                        #[trigger] program.literal_group_matches@[j],
                    ),
            decreases program.literal_group_matches.len() - i,
        {
            let plan = &program.literal_group_matches[i];
            if plan.function == position.function && plan.instruction == position.instruction {
                proof {
                    lookup::lemma_first_found(
                        program.literal_group_matches@,
                        group_at(position.function, position.instruction),
                        i as int,
                    );
                }
                let steps: u64 = (plan.candidates.len() as u64).saturating_add(1);
                if steps > policy.remaining_instructions || steps > policy.remaining_quantum as u64 {
                    return None;
                }
                if fiber.frames.len() == 0 || fiber.top().stack.len() == 0 {
                    return None;
                }
                let at: usize = fiber.top().stack.len() - 1;
                let matches: usize = match &fiber.top().stack[at] {
                    VmValue::String(t) => count_equal(&plan.candidates, t.as_str()),
                    _ => {
                        return None;
                    },
                };
                let after: usize = plan.after_call;
                let ghost before = fiber@.top();
                let frame = fiber.top_mut();
                let _ = frame.stack.pop();
                frame.stack.push(VmValue::Integer(integer_of_count(matches)));
                frame.instruction = after;
                assert(frame@.stack =~= before.stack.drop_last().push(
                    Val::Integer(count_integer(matches as nat)),
                ));
                return Some(steps - 1);
            }
            i = i + 1;
        }
        proof {
            lookup::lemma_first_none(
                program.literal_group_matches@,
                group_at(position.function, position.instruction),
            );
        }
        None
    }
}

/// One write per round, each filling the next cell.
pub open spec fn stepwise_fill(s: Seq<i64>, from: int, to: int, value: i64) -> Seq<i64>
    decreases to - from,
{
    if from >= to {
        s
    } else {
        stepwise_fill(s, from, to - 1, value).update(to - 1, value)
    }
}

/// One write per round, each copying the next cell.
pub open spec fn stepwise_copy(s: Seq<i64>, from: int, to: int, source: Seq<i64>, at: int) -> Seq<
    i64,
>
    decreases to - from,
{
    if from >= to {
        s
    } else {
        stepwise_copy(s, from, to - 1, source, at).update(to - 1, source[at + (to - 1 - from)])
    }
}

/// Filling a row in bulk leaves what filling it cell by cell leaves.
pub proof fn law_bulk_fill_is_stepwise(s: Seq<i64>, from: int, to: int, value: i64)
    requires
        0 <= from <= to <= s.len(),
    ensures
        filled(s, from, to, value) == stepwise_fill(s, from, to, value),
    decreases to - from,
{
    if from < to {
        law_bulk_fill_is_stepwise(s, from, to - 1, value);
    }
    assert(filled(s, from, to, value) =~= stepwise_fill(s, from, to, value));
}

/// Copying a row in bulk leaves what copying it cell by cell leaves.
pub proof fn law_bulk_copy_is_stepwise(
    s: Seq<i64>,
    from: int,
    to: int,
    source: Seq<i64>,
    at: int,
)
    requires
        0 <= from <= to <= s.len(),
        0 <= at,
        at + (to - from) <= source.len(),
    ensures
        overlaid(s, from, to, source, at) == stepwise_copy(s, from, to, source, at),
    decreases to - from,
{
    if from < to {
        law_bulk_copy_is_stepwise(s, from, to - 1, source, at);
    }
    assert(overlaid(s, from, to, source, at) =~= stepwise_copy(s, from, to, source, at));
}

} // verus!
